//! Sizes, titles, file names and dates as text.

use vstd::prelude::*;
use vstd::utf8::{encode_scalar, encode_utf8};

use crate::calendar::{
    chrono_format, chrono_parse_datetime, format_datetime, from_parts, parse_datetime,
    DATETIME_LAYOUT,
};
use crate::dates::{find_literal_end, hyphenate, hyphenated, literal_end};
use crate::filepath;
use crate::filepath::{
    name_ext, name_stem, part_or_empty, path_extension, path_file_name, path_file_stem, path_join,
    path_parent,
};
use crate::text::{
    all_digits, copy_str, digits_end, digits_to_u64, digits_value, from_chars, is_digit, last_of,
    lemma_extension_is_split_off, lemma_last_place, lemma_split_at_the_last_stop, same_text,
    skip_digits, skip_spaces, spaces_end, split_name, to_chars, white_space,
};

verus! {

// ── sizes ────────────────────────────────────────────────────────────────

/// How many bytes a unit stands for; each is 1024 times the one before.
pub open spec fn unit_bytes(unit: Seq<char>) -> Option<int> {
    if unit == "B"@ {
        Some(1int)
    } else if unit == "KB"@ {
        Some(0x400int)
    } else if unit == "MB"@ {
        Some(0x10_0000int)
    } else if unit == "GB"@ {
        Some(0x4000_0000int)
    } else if unit == "TB"@ {
        Some(0x100_0000_0000int)
    } else if unit == "PB"@ {
        Some(0x4_0000_0000_0000int)
    } else {
        None
    }
}

/// The number of bytes that a size such as `10MB` or `3 KB` denotes: decimal digits for a number
/// of at most 64 bits, white space or none, and a unit. `None` for any other text.
pub open spec fn byte_count(s: Seq<char>) -> Option<int> {
    let d = digits_end(s, 0);
    let u = spaces_end(s, d);
    if d > 0 && digits_value(s.take(d)) <= u64::MAX {
        match unit_bytes(s.skip(u)) {
            Some(bytes) => Some(digits_value(s.take(d)) * bytes),
            None => None,
        }
    } else {
        None
    }
}

fn bytes_of_unit(unit: &str) -> (r: Option<u64>)
    ensures
        r is Some <==> unit_bytes(unit@) is Some,
        r matches Some(n) ==> n == unit_bytes(unit@)->0,
{
    if same_text(unit, "B") {
        Some(1)
    } else if same_text(unit, "KB") {
        Some(0x400)
    } else if same_text(unit, "MB") {
        Some(0x10_0000)
    } else if same_text(unit, "GB") {
        Some(0x4000_0000)
    } else if same_text(unit, "TB") {
        Some(0x100_0000_0000)
    } else if same_text(unit, "PB") {
        Some(0x4_0000_0000_0000)
    } else {
        None
    }
}

fn wide_byte_count(s: &str) -> (r: Option<u128>)
    ensures
        r is Some <==> byte_count(s@) is Some,
        r matches Some(n) ==> n == byte_count(s@)->0,
{
    let v = to_chars(s);
    let d = skip_digits(&v, 0);
    let u = skip_spaces(&v, d);
    let unit = from_chars(&v, u, v.len());
    assert(v@.subrange(0, d as int) =~= s@.take(d as int));
    assert(unit@ =~= s@.skip(u as int));
    if d == 0 {
        return None;
    }
    match (digits_to_u64(&v, 0, d), bytes_of_unit(unit.as_str())) {
        (Some(n), Some(bytes)) => {
            assert(n * bytes <= u64::MAX * u64::MAX) by (nonlinear_arith)
                requires
                    n <= u64::MAX,
                    bytes <= u64::MAX,
            ;
            Some(n as u128 * bytes as u128)
        },
        _ => None,
    }
}

/// The number of bytes that a size such as `10MB` denotes, `None` where the text is no size.
pub fn parse_byte_str(s: &str) -> (r: Option<u64>)
    requires
        byte_count(s@) matches Some(n) ==> n <= u64::MAX,
    ensures
        r is Some <==> byte_count(s@) is Some,
        r matches Some(n) ==> n == byte_count(s@)->0,
{
    match wide_byte_count(s) {
        Some(n) => Some(n as u64),
        None => None,
    }
}

/// As [`parse_byte_str`], on any text: `None` where the size is beyond 64 bits.
pub fn try_parse_byte_str(s: &str) -> (r: Option<Option<u64>>)
    ensures
        r is Some <==> (byte_count(s@) matches Some(n) ==> n <= u64::MAX),
        r matches Some(size) ==> (size is Some <==> byte_count(s@) is Some),
        r matches Some(Some(n)) ==> n == byte_count(s@)->0,
{
    if let Some(n) = wide_byte_count(s) {
        if n > u64::MAX as u128 {
            return None;
        }
    }
    Some(parse_byte_str(s))
}

/// Each unit stands for 1024 times as many bytes as the one before, and there are six of them.
pub proof fn lemma_units(unit: Seq<char>)
    ensures
        unit_bytes("B"@) == Some(1int),
        unit_bytes("KB"@) == Some(1024 * unit_bytes("B"@)->0),
        unit_bytes("MB"@) == Some(1024 * unit_bytes("KB"@)->0),
        unit_bytes("GB"@) == Some(1024 * unit_bytes("MB"@)->0),
        unit_bytes("TB"@) == Some(1024 * unit_bytes("GB"@)->0),
        unit_bytes("PB"@) == Some(1024 * unit_bytes("TB"@)->0),
        unit_bytes(unit) is Some ==> unit == "B"@ || unit == "KB"@ || unit == "MB"@ || unit == "GB"@
            || unit == "TB"@ || unit == "PB"@,
{
    reveal_strlit("B");
    reveal_strlit("KB");
    reveal_strlit("MB");
    reveal_strlit("GB");
    reveal_strlit("TB");
    reveal_strlit("PB");
    assert("KB"@[0] == 'K' && "MB"@[0] == 'M' && "GB"@[0] == 'G' && "TB"@[0] == 'T' && "PB"@[0]
        == 'P');
    assert("B"@.len() == 1 && "KB"@.len() == 2 && "MB"@.len() == 2 && "GB"@.len() == 2
        && "TB"@.len() == 2 && "PB"@.len() == 2);
}

proof fn lemma_run_of_digits(s: Seq<char>, i: int, e: int)
    requires
        0 <= i <= e <= s.len(),
        forall|k: int| i <= k < e ==> is_digit(#[trigger] s[k]),
        e < s.len() ==> !is_digit(s[e]),
    ensures
        digits_end(s, i) == e,
    decreases e - i,
{
    if i < e {
        lemma_run_of_digits(s, i + 1, e);
    }
}

proof fn lemma_run_of_spaces(s: Seq<char>, i: int, e: int)
    requires
        0 <= i <= e <= s.len(),
        forall|k: int| i <= k < e ==> white_space(#[trigger] s[k]),
        e < s.len() ==> !white_space(s[e]),
    ensures
        spaces_end(s, i) == e,
    decreases e - i,
{
    if i < e {
        lemma_run_of_spaces(s, i + 1, e);
    }
}

/// Digits, blanks or none, and a unit are as many times the unit as the digits say.
pub proof fn lemma_sizes_are_read(digits: Seq<char>, blanks: Seq<char>, unit: Seq<char>)
    requires
        digits.len() > 0,
        all_digits(digits),
        digits_value(digits) <= u64::MAX,
        forall|k: int| 0 <= k < blanks.len() ==> #[trigger] blanks[k] == ' ',
        unit == "B"@ || unit == "KB"@ || unit == "MB"@ || unit == "GB"@ || unit == "TB"@ || unit
            == "PB"@,
    ensures
        byte_count(digits + blanks + unit) == Some(
            digits_value(digits) * (if unit == "B"@ {
                1
            } else if unit == "KB"@ {
                1024
            } else if unit == "MB"@ {
                1024 * 1024
            } else if unit == "GB"@ {
                1024 * 1024 * 1024
            } else if unit == "TB"@ {
                1024 * 1024 * 1024 * 1024
            } else {
                1024 * 1024 * 1024 * 1024 * 1024
            }),
        ),
{
    let s = digits + blanks + unit;
    let d = digits.len() as int;
    let u = d + blanks.len();
    lemma_units(unit);
    reveal_strlit("B");
    reveal_strlit("KB");
    reveal_strlit("MB");
    reveal_strlit("GB");
    reveal_strlit("TB");
    reveal_strlit("PB");
    assert(s[u] == unit[0]);
    assert forall|k: int| 0 <= k < d implies is_digit(#[trigger] s[k]) by {
        assert(s[k] == digits[k]);
    }
    assert forall|k: int| d <= k < u implies white_space(#[trigger] s[k]) by {
        assert(s[k] == blanks[k - d]);
    }
    if blanks.len() > 0 {
        assert(s[d] == blanks[0]);
    }
    lemma_run_of_digits(s, 0, d);
    lemma_run_of_spaces(s, d, u);
    assert(s.take(d) =~= digits);
    assert(s.skip(u) =~= unit);
}

/// Digits without a unit are no size.
pub proof fn lemma_digits_alone_are_no_size(digits: Seq<char>)
    requires
        all_digits(digits),
    ensures
        byte_count(digits) is None,
{
    let n = digits.len() as int;
    lemma_run_of_digits(digits, 0, n);
    lemma_run_of_spaces(digits, n, n);
    assert(digits.skip(n).len() == 0);
    lemma_units(digits.skip(n));
    reveal_strlit("B");
    reveal_strlit("KB");
    reveal_strlit("MB");
    reveal_strlit("GB");
    reveal_strlit("TB");
    reveal_strlit("PB");
}

// ── titles ───────────────────────────────────────────────────────────────

/// The characters that have no place in a file name.
pub open spec fn is_reserved(c: char) -> bool {
    c == '/' || c == '\\' || c == ':' || c == '*' || c == '?' || c == '"' || c == '<' || c == '>'
        || c == '|' || c == '\n'
}

/// The title with an underscore in place of each reserved character.
pub open spec fn cleaned(title: Seq<char>) -> Seq<char> {
    title.map_values(
        |c: char|
            if is_reserved(c) {
                '_'
            } else {
                c
            },
    )
}

/// The title with an underscore in place of each reserved character.
pub fn validate_title(title: &str) -> (r: String)
    ensures
        r@ == cleaned(title@),
{
    let v = to_chars(title);
    let mut r = String::new();
    let mut i: usize = 0;
    while i < v.len()
        invariant
            v@ == title@,
            i <= v@.len(),
            r@ == cleaned(title@).take(i as int),
        decreases v.len() - i,
    {
        let c = v[i];
        let reserved = c == '/' || c == '\\' || c == ':' || c == '*' || c == '?' || c == '"' || c == '<'
            || c == '>' || c == '|' || c == '\n';
        if reserved {
            r.push('_');
        } else {
            r.push(c);
        }
        i = i + 1;
        assert(r@ =~= cleaned(title@).take(i as int));
    }
    assert(cleaned(title@).take(v@.len() as int) =~= cleaned(title@));
    r
}

/// A cleaned title holds no reserved character, and keeps its length.
pub proof fn lemma_cleaned_is_safe(title: Seq<char>)
    ensures
        cleaned(title).len() == title.len(),
        forall|i: int| 0 <= i < title.len() ==> !is_reserved(#[trigger] cleaned(title)[i]),
{
}

/// Cleaning a title twice changes nothing more.
pub proof fn lemma_cleaned_idempotent(title: Seq<char>)
    ensures
        cleaned(cleaned(title)) == cleaned(title),
{
    assert(cleaned(cleaned(title)) =~= cleaned(title));
}

/// Cleaning a title changes the characters `/ \\ : * ? " < > |` and the line feed into underscores,
/// and keeps every other character where it is, of whatever script.
pub proof fn lemma_cleaned_keeps_the_rest(title: Seq<char>, i: int)
    requires
        0 <= i < title.len(),
    ensures
        cleaned(title).len() == title.len(),
        "/\\:*?\"<>|\n"@.contains(title[i]) ==> cleaned(title)[i] == '_',
        !"/\\:*?\"<>|\n"@.contains(title[i]) ==> cleaned(title)[i] == title[i],
{
    let c = title[i];
    let bad = "/\\:*?\"<>|\n"@;
    reveal_strlit("/\\:*?\"<>|\n");
    assert(bad[0] == '/' && bad[1] == '\\' && bad[2] == ':' && bad[3] == '*' && bad[4] == '?'
        && bad[5] == '"' && bad[6] == '<' && bad[7] == '>' && bad[8] == '|' && bad[9] == '\n');
    assert(bad.len() == 10);
    if bad.contains(c) {
        let k = choose|k: int| 0 <= k < bad.len() && bad[k] == c;
        assert(is_reserved(c));
    }
    if is_reserved(c) {
        assert(bad.contains(c));
    }
}

/// Titles that differ in a character that may stand in a file name stay different.
pub proof fn lemma_cleaned_keeps_titles_apart(a: Seq<char>, b: Seq<char>, i: int)
    requires
        0 <= i < a.len(),
        i < b.len(),
        a[i] != b[i],
        a[i] != '_',
        !"/\\:*?\"<>|\n"@.contains(a[i]),
    ensures
        cleaned(a) != cleaned(b),
{
    lemma_cleaned_keeps_the_rest(a, i);
    lemma_cleaned_keeps_the_rest(b, i);
}

/// Cleaning goes character by character: what stands around a character does not matter.
pub proof fn lemma_cleaned_concat(a: Seq<char>, b: Seq<char>)
    ensures
        cleaned(a + b) == cleaned(a) + cleaned(b),
{
    assert(cleaned(a + b) =~= cleaned(a) + cleaned(b));
}

/// The title that is given back is as long as the one that was taken, with an underscore for each
/// reserved character and the same character for each other.
pub proof fn lemma_validate_title(title: &str, r: String, i: int)
    requires
        call_ensures(validate_title, (title,), r),
        0 <= i < title@.len(),
    ensures
        r@.len() == title@.len(),
        r@[i] == title@[i] || (r@[i] == '_' && "/\\:*?\"<>|\n"@.contains(title@[i])),
        "/\\:*?\"<>|\n"@.contains(title@[i]) ==> r@[i] == '_',
{
    lemma_cleaned_keeps_the_rest(title@, i);
}

// ── file names ───────────────────────────────────────────────────────────

/// The longest start of `s` whose UTF-8 encoding takes at most `room` bytes.
pub open spec fn fitting(s: Seq<char>, room: int) -> Seq<char>
    decreases s.len(),
{
    if s.len() == 0 || encode_scalar(s[0] as u32).len() > room {
        Seq::empty()
    } else {
        seq![s[0]] + fitting(s.drop_first(), room - encode_scalar(s[0] as u32).len())
    }
}

/// How many bytes an extension takes with the full stop before it; none where there is none.
pub open spec fn ext_bytes(ext: Seq<char>) -> int {
    if ext.len() == 0 {
        0
    } else {
        encode_utf8(ext).len() as int + 1
    }
}

/// A stem and an extension, with a full stop between them where there is an extension.
pub open spec fn whole_leaf(stem: Seq<char>, ext: Seq<char>) -> Seq<char> {
    if ext.len() == 0 {
        stem
    } else {
        stem + "."@ + ext
    }
}

/// A file name cut to `limit` bytes: the stem makes room for the extension. Where the extension
/// and its full stop do not fit themselves, the whole name is cut.
pub open spec fn short_leaf(stem: Seq<char>, ext: Seq<char>, limit: int) -> Seq<char> {
    if ext_bytes(ext) <= limit {
        whole_leaf(fitting(stem, limit - ext_bytes(ext)), ext)
    } else {
        fitting(whole_leaf(stem, ext), limit)
    }
}

/// The path with its file name cut to `limit` bytes.
pub open spec fn short_path(path: Seq<char>, limit: int) -> Seq<char> {
    path_join(
        part_or_empty(path_parent(path)),
        short_leaf(
            part_or_empty(path_file_stem(path)),
            part_or_empty(path_extension(path)),
            limit,
        ),
    )
}

/// The number of bytes in the UTF-8 encoding of a character.
fn char_bytes(c: char) -> (n: u128)
    ensures
        n == encode_scalar(c as u32).len(),
        1 <= n <= 4,
{
    let u: u32 = c as u32;
    if u <= 0x7f {
        1
    } else if u <= 0x7ff {
        2
    } else if u <= 0xffff {
        3
    } else {
        4
    }
}

/// Encodings of texts that follow one another do so too.
pub proof fn lemma_encode_concat(a: Seq<char>, b: Seq<char>)
    ensures
        encode_utf8(a + b) == encode_utf8(a) + encode_utf8(b),
    decreases a.len(),
{
    if a.len() == 0 {
        assert(a + b =~= b);
        assert(encode_utf8(a) + encode_utf8(b) =~= encode_utf8(b));
    } else {
        lemma_encode_concat(a.drop_first(), b);
        assert((a + b).drop_first() =~= a.drop_first() + b);
        assert(encode_utf8(a + b) =~= encode_utf8(a) + encode_utf8(b));
    }
}

fn utf8_len(s: &str) -> (n: u128)
    ensures
        n == encode_utf8(s@).len(),
        n <= 4 * usize::MAX,
{
    let v = to_chars(s);
    let mut n: u128 = 0;
    let mut i: usize = 0;
    assert(v@.skip(0) =~= s@);
    while i < v.len()
        invariant
            v@ == s@,
            i <= v@.len(),
            n + encode_utf8(v@.skip(i as int)).len() == encode_utf8(s@).len(),
            n <= 4 * i,
            i <= v.len(),
        decreases v.len() - i,
    {
        assert(v@.skip(i as int).drop_first() =~= v@.skip(i + 1));
        n = n + char_bytes(v[i]);
        i = i + 1;
    }
    assert(v@.skip(i as int) =~= Seq::<char>::empty());
    n
}

fn fit(stem: &str, room: u128) -> (r: String)
    ensures
        r@ == fitting(stem@, room as int),
{
    let v = to_chars(stem);
    let mut r = String::new();
    let mut left: u128 = room;
    let mut i: usize = 0;
    assert(v@.skip(0) =~= stem@);
    assert(r@ + fitting(v@.skip(0), left as int) =~= fitting(stem@, room as int));
    while i < v.len()
        invariant
            v@ == stem@,
            i <= v@.len(),
            r@ + fitting(v@.skip(i as int), left as int) == fitting(stem@, room as int),
        decreases v.len() - i,
    {
        let n = char_bytes(v[i]);
        assert(v@.skip(i as int)[0] == v@[i as int]);
        if n > left {
            assert(r@ =~= r@ + Seq::<char>::empty());
            return r;
        }
        assert(v@.skip(i as int).drop_first() =~= v@.skip(i + 1));
        let ghost before = r@;
        r.push(v[i]);
        left = left - n;
        i = i + 1;
        assert(r@ + fitting(v@.skip(i as int), left as int) =~= before + (seq![v@[i - 1]] + fitting(
            v@.skip(i as int),
            left as int,
        )));
    }
    assert(v@.skip(i as int) =~= Seq::<char>::empty());
    assert(r@ =~= r@ + Seq::<char>::empty());
    r
}

fn ext_len(ext: &str) -> (n: u128)
    ensures
        n == ext_bytes(ext@),
{
    if ext.is_empty() {
        0
    } else {
        utf8_len(ext) + 1
    }
}

fn join_leaf(stem: String, ext: &str) -> (r: String)
    ensures
        r@ == whole_leaf(stem@, ext@),
{
    let mut r = stem;
    if !ext.is_empty() {
        r.append(".");
        r.append(ext);
    }
    r
}

/// A file name of at most `limit` bytes: the stem makes room for the extension. Where the
/// extension and its full stop do not fit themselves, the whole name is cut.
pub fn truncate_leaf(stem: &str, ext: &str, limit: usize) -> (r: String)
    ensures
        r@ == short_leaf(stem@, ext@, limit as int),
        encode_utf8(r@).len() <= limit,
{
    proof {
        lemma_short_leaf_keeps_limit(stem@, ext@, limit as int);
    }
    let taken = ext_len(ext);
    if taken <= limit as u128 {
        let room: u128 = limit as u128 - taken;
        join_leaf(fit(stem, room), ext)
    } else {
        let whole = join_leaf(copy_str(stem), ext);
        fit(whole.as_str(), limit as u128)
    }
}

/// Truncates the file name of a path so that its UTF-8 encoding takes at most `limit` bytes.
pub fn truncate_filename(path: &str, limit: usize) -> (r: String)
    ensures
        r@ == short_path(path@, limit as int),
        exists|leaf: Seq<char>|
            encode_utf8(leaf).len() <= limit && r@ == #[trigger] path_join(
                part_or_empty(path_parent(path@)),
                leaf,
            ),
{
    let dir = filepath::or_empty(filepath::parent(path));
    let stem = filepath::or_empty(filepath::file_stem(path));
    let ext = filepath::or_empty(filepath::extension(path));
    let leaf = truncate_leaf(stem.as_str(), ext.as_str(), limit);
    filepath::join(dir.as_str(), leaf.as_str())
}

/// What fits is a start of the text, takes no more bytes than there is room for, and cannot be
/// longer.
pub proof fn lemma_fitting_is_longest(s: Seq<char>, room: int)
    requires
        room >= 0,
    ensures
        fitting(s, room).len() <= s.len(),
        fitting(s, room) == s.take(fitting(s, room).len() as int),
        encode_utf8(fitting(s, room)).len() <= room,
        fitting(s, room).len() < s.len() ==> encode_utf8(
            s.take(fitting(s, room).len() as int + 1),
        ).len() > room,
    decreases s.len(),
{
    let f = fitting(s, room);
    if s.len() == 0 {
        assert(f =~= s.take(0));
    } else {
        let n = encode_scalar(s[0] as u32).len();
        if n > room {
            assert(f =~= s.take(0));
            assert(s.take(1).drop_first() =~= Seq::<char>::empty());
            assert(encode_utf8(s.take(1)) =~= encode_scalar(s[0] as u32) + encode_utf8(
                s.take(1).drop_first(),
            ));
        } else {
            let rest = s.drop_first();
            let g = fitting(rest, room - n);
            lemma_fitting_is_longest(rest, room - n);
            assert(f =~= seq![s[0]] + g);
            assert(f.drop_first() =~= g);
            assert(f =~= s.take(f.len() as int)) by {
                assert(s.take(f.len() as int) =~= seq![s[0]] + rest.take(g.len() as int));
            }
            if f.len() < s.len() {
                assert(s.take(f.len() as int + 1).drop_first() =~= rest.take(g.len() as int + 1));
            }
        }
    }
}

/// A shortened file name keeps to the limit.
pub proof fn lemma_short_leaf_keeps_limit(stem: Seq<char>, ext: Seq<char>, limit: int)
    requires
        0 <= limit,
    ensures
        encode_utf8(short_leaf(stem, ext, limit)).len() <= limit,
{
    if ext_bytes(ext) <= limit {
        let cut = fitting(stem, limit - ext_bytes(ext));
        lemma_fitting_is_longest(stem, limit - ext_bytes(ext));
        lemma_whole_leaf_bytes(cut, ext);
    } else {
        lemma_fitting_is_longest(whole_leaf(stem, ext), limit);
    }
}

proof fn lemma_whole_leaf_bytes(stem: Seq<char>, ext: Seq<char>)
    ensures
        encode_utf8(whole_leaf(stem, ext)).len() == encode_utf8(stem).len() + ext_bytes(ext),
{
    if ext.len() > 0 {
        reveal_strlit(".");
        lemma_encode_concat(stem + "."@, ext);
        lemma_encode_concat(stem, "."@);
        assert("."@.drop_first() =~= Seq::<char>::empty());
        assert(encode_utf8("."@).len() == 1) by {
            assert(encode_utf8("."@) =~= encode_scalar('.' as u32) + encode_utf8(
                Seq::<char>::empty(),
            ));
        }
    }
}

/// A file name that keeps to the limit is left as it is.
pub proof fn lemma_short_leaf_keeps_short_names(stem: Seq<char>, ext: Seq<char>, limit: int)
    requires
        encode_utf8(stem).len() + ext_bytes(ext) <= limit,
    ensures
        short_leaf(stem, ext, limit) == whole_leaf(stem, ext),
{
    lemma_fitting_whole(stem, limit - ext_bytes(ext));
}

/// A shortened file name keeps an extension that fits.
pub proof fn lemma_short_leaf_keeps_extension(stem: Seq<char>, ext: Seq<char>, limit: int)
    requires
        0 < ext.len(),
        ext_bytes(ext) <= limit,
    ensures
        exists|cut: Seq<char>| #[trigger]
            cut.is_prefix_of(stem) && short_leaf(stem, ext, limit) == cut + "."@ + ext,
{
    let cut = fitting(stem, limit - ext_bytes(ext));
    lemma_fitting_is_longest(stem, limit - ext_bytes(ext));
    assert(cut.is_prefix_of(stem));
}

/// A file name that takes at most `limit` bytes is kept whole, extension and all; a longer one is
/// cut before its extension to as much of the stem as there is room for.
pub proof fn lemma_names_are_cut_before_the_extension(stem: Seq<char>, ext: Seq<char>, limit: int)
    requires
        ext.len() > 0,
        encode_utf8(ext).len() + 1 <= limit,
    ensures
        encode_utf8(stem + "."@ + ext).len() <= limit ==> short_leaf(stem, ext, limit) == stem
            + "."@ + ext,
        exists|k: int|
            0 <= k <= stem.len() && short_leaf(stem, ext, limit) == #[trigger] stem.take(k) + "."@
                + ext && encode_utf8(stem.take(k)).len() + encode_utf8(ext).len() + 1 <= limit && (k
                < stem.len() ==> encode_utf8(stem.take(k + 1)).len() + encode_utf8(ext).len() + 1
                > limit),
{
    let room = limit - ext_bytes(ext);
    lemma_whole_leaf_bytes(stem, ext);
    if encode_utf8(stem + "."@ + ext).len() <= limit {
        lemma_fitting_whole(stem, room);
    }
    lemma_fitting_is_longest(stem, room);
    let k = fitting(stem, room).len() as int;
    assert(short_leaf(stem, ext, limit) == stem.take(k) + "."@ + ext);
}

/// A name without an extension is cut to as much of it as there is room for.
pub proof fn lemma_names_without_extension_are_cut(stem: Seq<char>, limit: int)
    requires
        0 <= limit,
    ensures
        exists|k: int|
            0 <= k <= stem.len() && short_leaf(stem, Seq::empty(), limit) == #[trigger] stem.take(k)
                && encode_utf8(stem.take(k)).len() <= limit && (k < stem.len() ==> encode_utf8(
                stem.take(k + 1),
            ).len() > limit),
{
    lemma_fitting_is_longest(stem, limit);
    let k = fitting(stem, limit).len() as int;
    assert(short_leaf(stem, Seq::empty(), limit) == stem.take(k));
}

/// An extension that does not fit is cut with the name.
pub proof fn lemma_long_extensions_are_cut(stem: Seq<char>, ext: Seq<char>, limit: int)
    requires
        0 <= limit < encode_utf8(ext).len() + 1,
        ext.len() > 0,
    ensures
        short_leaf(stem, ext, limit).is_prefix_of(stem + "."@ + ext),
        encode_utf8(short_leaf(stem, ext, limit)).len() <= limit,
{
    let whole = stem + "."@ + ext;
    lemma_fitting_is_longest(whole, limit);
    lemma_short_leaf_keeps_limit(stem, ext, limit);
}

/// A path whose file name fits, and has an extension, leads to the same name in the same directory.
pub proof fn lemma_short_paths_are_kept(path: Seq<char>, stem: Seq<char>, ext: Seq<char>, limit: int)
    requires
        path_file_name(path) == Some(stem + "."@ + ext),
        stem.len() > 0,
        ext.len() > 0,
        !ext.contains('.'),
        encode_utf8(stem + "."@ + ext).len() <= limit,
    ensures
        short_path(path, limit) == path_join(part_or_empty(path_parent(path)), stem + "."@ + ext),
{
    lemma_extension_is_split_off(stem, ext);
    let name = stem + "."@ + ext;
    assert(name_stem(name) == stem && name_ext(name) == Some(ext)) by {
        reveal_strlit(".");
        lemma_split_at_the_last_stop(name);
        lemma_last_place(name, '.');
        assert(split_name(name) == Some((stem, ext)));
        assert(last_of(name, '.') is Some);
        let i = last_of(name, '.')->0;
        assert(name.take(i).len() == i);
        assert(i == stem.len());
    }
    lemma_whole_leaf_bytes(stem, ext);
    lemma_short_leaf_keeps_short_names(stem, ext, limit);
}

proof fn lemma_fitting_whole(s: Seq<char>, room: int)
    requires
        encode_utf8(s).len() <= room,
    ensures
        fitting(s, room) == s,
    decreases s.len(),
{
    if s.len() > 0 {
        let n = encode_scalar(s[0] as u32).len();
        lemma_fitting_whole(s.drop_first(), room - n);
        assert(seq![s[0]] + s.drop_first() =~= s);
    } else {
        assert(fitting(s, room) =~= s);
    }
}

// ── dates in text ────────────────────────────────────────────────────────

/// The text from `i` on, with each date that has a time of day written under `fmt`. A date that
/// no calendar holds is left as it is. `None` where a date cannot be written under `fmt`.
pub open spec fn redated(s: Seq<char>, i: int, fmt: Seq<char>) -> Option<Seq<char>>
    decreases s.len() - i,
{
    if !(0 <= i < s.len()) {
        Some(Seq::empty())
    } else {
        match literal_end(s, i) {
            Some(e) if i < e <= s.len() => {
                let piece = match from_parts(
                    chrono_parse_datetime(hyphenated(s.subrange(i, e)), DATETIME_LAYOUT@),
                ) {
                    Some(at) => chrono_format(at.secs, at.nanos, fmt),
                    None => Some(s.subrange(i, e)),
                };
                match (piece, redated(s, e, fmt)) {
                    (Some(a), Some(b)) => Some(a + b),
                    _ => None,
                }
            },
            _ => match redated(s, i + 1, fmt) {
                Some(b) => Some(seq![s[i]] + b),
                None => None,
            },
        }
    }
}

/// Writes each date with a time of day in `text` under `fmt`; `None` where one cannot be written
/// so.
fn redate(text: &str, fmt: &str) -> (r: Option<String>)
    ensures
        match redated(text@, 0, fmt@) {
            Some(s) => r is Some && r->0@ == s,
            None => r is None,
        },
{
    let v = to_chars(text);
    let mut out = String::new();
    let mut i: usize = 0;
    assert(redated(text@, 0, fmt@) matches Some(all) ==> all =~= out@ + all);
    while i < v.len()
        invariant
            v@ == text@,
            i <= v@.len(),
            match redated(text@, i as int, fmt@) {
                Some(rest) => redated(text@, 0, fmt@) == Some(out@ + rest),
                None => redated(text@, 0, fmt@) is None,
            },
        decreases v.len() - i,
    {
        let ghost before = out@;
        match find_literal_end(&v, i) {
            Some(e) => {
                let raw = from_chars(&v, i, e);
                match parse_datetime(hyphenate(raw.as_str()).as_str(), DATETIME_LAYOUT) {
                    Some(at) => match format_datetime(at, fmt) {
                        Some(piece) => {
                            out.append(piece.as_str());
                        },
                        None => return None,
                    },
                    None => {
                        out.append(raw.as_str());
                    },
                }
                proof {
                    if let Some(b) = redated(text@, e as int, fmt@) {
                        let a = out@.skip(before.len() as int);
                        assert(out@ =~= before + a);
                        assert(before + (a + b) =~= out@ + b);
                    }
                }
                i = e;
            },
            None => {
                out.push(v[i]);
                proof {
                    if let Some(b) = redated(text@, i + 1, fmt@) {
                        assert(before + (seq![v@[i as int]] + b) =~= out@ + b);
                    }
                }
                i = i + 1;
            },
        }
    }
    assert(out@ + Seq::<char>::empty() =~= out@);
    Some(out)
}

/// Writes each date with a time of day in `text`, such as `2023-01-01 00:00:00`, under `fmt`. A
/// text without such dates is unchanged.
pub fn replace_date_time(text: &str, fmt: &str) -> (r: String)
    requires
        redated(text@, 0, fmt@) is Some,
    ensures
        r@ == redated(text@, 0, fmt@)->0,
{
    match redate(text, fmt) {
        Some(s) => s,
        None => {
            assert(false);
            String::new()
        },
    }
}

/// As [`replace_date_time`], for any text and format: `None` where a date cannot be written under
/// the format.
pub fn try_replace_date_time(text: &str, fmt: &str) -> (r: Option<String>)
    ensures
        r is Some <==> redated(text@, 0, fmt@) is Some,
        r matches Some(s) ==> s@ == redated(text@, 0, fmt@)->0,
{
    if redate(text, fmt).is_none() {
        return None;
    }
    Some(replace_date_time(text, fmt))
}

/// A text without dates is unchanged, whatever the format.
pub proof fn lemma_no_dates_no_change(s: Seq<char>, i: int, fmt: Seq<char>)
    requires
        0 <= i <= s.len(),
        forall|k: int| i <= k < s.len() ==> literal_end(s, k) is None,
    ensures
        redated(s, i, fmt) == Some(s.skip(i)),
    decreases s.len() - i,
{
    if i < s.len() {
        lemma_no_dates_no_change(s, i + 1, fmt);
        assert(literal_end(s, i) is None);
        assert(seq![s[i]] + s.skip(i + 1) =~= s.skip(i));
    } else {
        assert(s.skip(i) =~= Seq::<char>::empty());
    }
}

proof fn lemma_text_before_a_date(s: Seq<char>, i: int, e: int, fmt: Seq<char>)
    requires
        0 <= i <= e <= s.len(),
        forall|k: int| i <= k < e ==> literal_end(s, k) is None,
    ensures
        redated(s, e, fmt) matches Some(rest) ==> redated(s, i, fmt) == Some(
            s.subrange(i, e) + rest,
        ),
    decreases e - i,
{
    if i < e {
        lemma_text_before_a_date(s, i + 1, e, fmt);
        assert(literal_end(s, i) is None);
        if let Some(rest) = redated(s, e, fmt) {
            assert(seq![s[i]] + (s.subrange(i + 1, e) + rest) =~= s.subrange(i, e) + rest);
        }
    } else if let Some(rest) = redated(s, e, fmt) {
        assert(s.subrange(i, e) + rest =~= rest);
    }
}

/// A date with a time of day is written anew under the format, with its marks read as hyphens, and
/// the text before it and behind it is kept. A date that no calendar holds is kept as well.
pub proof fn lemma_dates_are_written_anew(s: Seq<char>, i: int, e: int, plain: Seq<char>, fmt: Seq<char>)
    requires
        0 <= i < e <= s.len(),
        forall|k: int| 0 <= k < i ==> literal_end(s, k) is None,
        literal_end(s, i) == Some(e),
        forall|k: int| e <= k < s.len() ==> literal_end(s, k) is None,
        plain.len() == e - i,
        forall|k: int|
            0 <= k < e - i ==> #[trigger] plain[k] == (if s[i + k] == '/' || s[i + k] == '.' {
                '-'
            } else {
                s[i + k]
            }),
    ensures
        match chrono_parse_datetime(plain, "%Y-%m-%d %H:%M:%S"@) {
            Some((secs, nanos)) => match chrono_format(secs, nanos, fmt) {
                Some(text) => redated(s, 0, fmt) == Some(s.take(i) + text + s.skip(e)),
                None => true,
            },
            None => redated(s, 0, fmt) == Some(s),
        },
{
    assert(DATETIME_LAYOUT@ == "%Y-%m-%d %H:%M:%S"@);
    assert(hyphenated(s.subrange(i, e)) =~= plain);
    lemma_no_dates_no_change(s, e, fmt);
    lemma_text_before_a_date(s, 0, i, fmt);
    assert(s.subrange(0, i) =~= s.take(i));
    match chrono_parse_datetime(plain, "%Y-%m-%d %H:%M:%S"@) {
        Some((secs, nanos)) => {
            if let Some(text) = chrono_format(secs, nanos, fmt) {
                assert(redated(s, i, fmt) == Some(text + s.skip(e)));
                assert(s.take(i) + (text + s.skip(e)) =~= s.take(i) + text + s.skip(e));
            }
        },
        None => {
            assert(redated(s, i, fmt) == Some(s.subrange(i, e) + s.skip(e)));
            assert(s.take(i) + (s.subrange(i, e) + s.skip(e)) =~= s);
        },
    }
}

/// The size that is read is the number of bytes that the text denotes, and a text that is no size
/// gives none.
pub proof fn lemma_parsed_sizes(
    s: &str,
    r: Option<Option<u64>>,
    digits: Seq<char>,
    blanks: Seq<char>,
)
    requires
        call_ensures(try_parse_byte_str, (s,), r),
        digits.len() > 0,
        all_digits(digits),
        digits_value(digits) <= u64::MAX,
        forall|k: int| 0 <= k < blanks.len() ==> #[trigger] blanks[k] == ' ',
    ensures
        s@ == digits + blanks + "B"@ ==> r == Some(Some(digits_value(digits) as u64)),
        s@ == digits + blanks + "KB"@ && digits_value(digits) * 0x400 <= u64::MAX ==> r == Some(
            Some((digits_value(digits) * 0x400) as u64),
        ),
        s@ == digits + blanks + "MB"@ && digits_value(digits) * 0x10_0000 <= u64::MAX ==> r
            == Some(Some((digits_value(digits) * 0x10_0000) as u64)),
        s@ == digits + blanks + "GB"@ && digits_value(digits) * 0x4000_0000 <= u64::MAX ==> r
            == Some(Some((digits_value(digits) * 0x4000_0000) as u64)),
        s@ == digits ==> r == Some(None::<u64>),
{
    lemma_sizes_are_read(digits, blanks, "B"@);
    lemma_sizes_are_read(digits, blanks, "KB"@);
    lemma_sizes_are_read(digits, blanks, "MB"@);
    lemma_sizes_are_read(digits, blanks, "GB"@);
    lemma_digits_alone_are_no_size(digits);
    reveal_strlit("B");
    reveal_strlit("KB");
    reveal_strlit("MB");
    reveal_strlit("GB");
    assert("B"@.len() == 1 && "KB"@[0] == 'K' && "MB"@[0] == 'M' && "GB"@[0] == 'G');
    assert("KB"@.len() == 2 && "MB"@.len() == 2 && "GB"@.len() == 2);
}

/// A file name within the limit keeps its place and its name.
pub proof fn lemma_short_file_names_stay(
    path: &str,
    limit: usize,
    r: String,
    stem: Seq<char>,
    ext: Seq<char>,
)
    requires
        call_ensures(truncate_filename, (path, limit), r),
        path_file_name(path@) == Some(stem + "."@ + ext),
        stem.len() > 0,
        ext.len() > 0,
        !ext.contains('.'),
        encode_utf8(stem + "."@ + ext).len() <= limit,
    ensures
        r@ == path_join(part_or_empty(path_parent(path@)), stem + "."@ + ext),
{
    lemma_short_paths_are_kept(path@, stem, ext, limit as int);
}

/// A text without dates comes back as it is.
pub proof fn lemma_text_without_dates_stays(text: &str, fmt: &str, r: Option<String>)
    requires
        call_ensures(try_replace_date_time, (text, fmt), r),
        forall|k: int| 0 <= k < text@.len() ==> literal_end(text@, k) is None,
    ensures
        r is Some,
        r->0@ == text@,
{
    lemma_no_dates_no_change(text@, 0, fmt@);
    assert(text@.skip(0) =~= text@);
}

} // verus!
