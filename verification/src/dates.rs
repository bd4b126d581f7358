//! Dates and times of day as they are written in text.

use vstd::prelude::*;

use crate::pattern::{decimal_digit, is_regex_digit};
use crate::text::{skip_spaces, spaces_end, to_chars};

verus! {

/// The characters that may stand between the parts of a date.
pub open spec fn is_date_mark(c: char) -> bool {
    c == '-' || c == '/' || c == '.'
}

/// Whether `s` holds a digit at `i`.
pub open spec fn digit_at(s: Seq<char>, i: int) -> bool {
    0 <= i < s.len() && decimal_digit(s[i])
}

/// Whether `s` holds a date mark at `i`.
pub open spec fn mark_at(s: Seq<char>, i: int) -> bool {
    0 <= i < s.len() && is_date_mark(s[i])
}

/// The text of a date with each mark turned into a hyphen.
pub open spec fn hyphenated(text: Seq<char>) -> Seq<char> {
    text.map_values(
        |c: char|
            if c == '/' || c == '.' {
                '-'
            } else {
                c
            },
    )
}

/// How many digits stand at `i`, counting up to two.
pub open spec fn up_to_two_digits(s: Seq<char>, i: int) -> int {
    if !digit_at(s, i) {
        0
    } else if !digit_at(s, i + 1) {
        1
    } else {
        2
    }
}

/// Whether `s` holds a colon at `i`.
pub open spec fn colon_at(s: Seq<char>, i: int) -> bool {
    0 <= i < s.len() && s[i] == ':'
}

/// Where the date with a time of day that starts at `i` ends: four digits, a mark, one or two
/// digits, a mark, one or two digits, white space, and three groups of one or two digits with
/// colons between them.
pub open spec fn literal_end(s: Seq<char>, i: int) -> Option<int> {
    let month = i + 5;
    let m = up_to_two_digits(s, month);
    let day = month + m + 1;
    let d = up_to_two_digits(s, day);
    let hour = spaces_end(s, day + d);
    let h = up_to_two_digits(s, hour);
    let minute = hour + h + 1;
    let n = up_to_two_digits(s, minute);
    let second = minute + n + 1;
    let e = up_to_two_digits(s, second);
    if digit_at(s, i) && digit_at(s, i + 1) && digit_at(s, i + 2) && digit_at(s, i + 3) && mark_at(
        s,
        i + 4,
    ) && m > 0 && mark_at(s, month + m) && d > 0 && hour > day + d && h > 0 && colon_at(s, hour + h)
        && n > 0 && colon_at(s, minute + n) && e > 0 {
        Some(second + e)
    } else {
        None
    }
}

/// Whether `v` holds a digit at `i`.
pub fn has_digit(v: &Vec<char>, i: usize) -> (r: bool)
    ensures
        r == digit_at(v@, i as int),
{
    i < v.len() && is_regex_digit(v[i])
}

/// Whether `v` holds a date mark at `i`.
pub fn has_mark(v: &Vec<char>, i: usize) -> (r: bool)
    ensures
        r == mark_at(v@, i as int),
{
    i < v.len() && (v[i] == '-' || v[i] == '/' || v[i] == '.')
}

/// The text of a date with each mark turned into a hyphen.
pub fn hyphenate(text: &str) -> (r: String)
    ensures
        r@ == hyphenated(text@),
{
    let v = to_chars(text);
    let mut r = String::new();
    let mut i: usize = 0;
    while i < v.len()
        invariant
            v@ == text@,
            i <= v@.len(),
            r@ == hyphenated(text@).take(i as int),
        decreases v.len() - i,
    {
        if v[i] == '/' || v[i] == '.' {
            r.push('-');
        } else {
            r.push(v[i]);
        }
        i = i + 1;
        assert(r@ =~= hyphenated(text@).take(i as int));
    }
    assert(hyphenated(text@).take(v@.len() as int) =~= hyphenated(text@));
    r
}

fn count_digits(v: &Vec<char>, i: usize) -> (n: usize)
    ensures
        n == up_to_two_digits(v@, i as int),
        i + n <= v@.len() || n == 0,
{
    if !has_digit(v, i) {
        return 0;
    }
    assert(i < v.len());
    if has_digit(v, i + 1) {
        2
    } else {
        1
    }
}

fn has_colon(v: &Vec<char>, i: usize) -> (r: bool)
    ensures
        r == colon_at(v@, i as int),
{
    i < v.len() && v[i] == ':'
}

/// Where the date with a time of day that starts at `i` ends.
pub fn find_literal_end(v: &Vec<char>, i: usize) -> (r: Option<usize>)
    requires
        i < v@.len(),
    ensures
        match literal_end(v@, i as int) {
            Some(e) => r is Some && r->0 == e && i < e <= v@.len(),
            None => r is None,
        },
{
    if v.len() - i < 6 {
        return None;
    }
    if !(has_digit(v, i) && has_digit(v, i + 1) && has_digit(v, i + 2) && has_digit(v, i + 3)
        && has_mark(v, i + 4)) {
        return None;
    }
    let month: usize = i + 5;
    let m = count_digits(v, month);
    if m == 0 || !has_mark(v, month + m) {
        return None;
    }
    let day: usize = month + m + 1;
    let d = count_digits(v, day);
    if d == 0 {
        return None;
    }
    let hour = skip_spaces(v, day + d);
    if hour == day + d {
        return None;
    }
    let h = count_digits(v, hour);
    if h == 0 || !has_colon(v, hour + h) {
        return None;
    }
    let minute: usize = hour + h + 1;
    let n = count_digits(v, minute);
    if n == 0 || !has_colon(v, minute + n) {
        return None;
    }
    let second: usize = minute + n + 1;
    let e = count_digits(v, second);
    if e == 0 {
        return None;
    }
    Some(second + e)
}

// ── laws ─────────────────────────────────────────────────────────────────

/// Whether `s` holds ASCII digits from `i` to `e`.
pub open spec fn digits_between(s: Seq<char>, i: int, e: int) -> bool {
    0 <= i <= e <= s.len() && forall|k: int| i <= k < e ==> '0' <= #[trigger] s[k] && s[k] <= '9'
}

/// Whether `s` holds one of the marks of a date at `i`.
pub open spec fn is_marked(s: Seq<char>, i: int) -> bool {
    0 <= i < s.len() && (s[i] == '-' || s[i] == '/' || s[i] == '.')
}

proof fn lemma_one_or_two(s: Seq<char>, i: int, n: int)
    requires
        1 <= n <= 2,
        digits_between(s, i, i + n),
        n == 2 || i + n == s.len() || ((s[i + n] as u32) < 128 && !('0' <= s[i + n] && s[i + n]
            <= '9')),
    ensures
        up_to_two_digits(s, i) == n,
{
    assert('0' <= s[i] && s[i] <= '9');
    if n == 2 {
        assert('0' <= s[i + 1] && s[i + 1] <= '9');
    }
}

/// A date with a time of day is found as it is usually written: a year of four digits, a month and
/// a day of one or two with a mark before each, a space, and an hour, a minute and a second of one
/// or two digits with colons between them.
pub proof fn lemma_dates_are_found(s: Seq<char>, i: int, m: int, d: int, h: int, n: int, e: int)
    requires
        1 <= m <= 2,
        1 <= d <= 2,
        1 <= h <= 2,
        1 <= n <= 2,
        1 <= e <= 2,
        digits_between(s, i, i + 4),
        is_marked(s, i + 4),
        digits_between(s, i + 5, i + 5 + m),
        is_marked(s, i + 5 + m),
        digits_between(s, i + 6 + m, i + 6 + m + d),
        i + 6 + m + d < s.len(),
        s[i + 6 + m + d] == ' ',
        digits_between(s, i + 7 + m + d, i + 7 + m + d + h),
        i + 7 + m + d + h < s.len(),
        s[i + 7 + m + d + h] == ':',
        digits_between(s, i + 8 + m + d + h, i + 8 + m + d + h + n),
        i + 8 + m + d + h + n < s.len(),
        s[i + 8 + m + d + h + n] == ':',
        digits_between(s, i + 9 + m + d + h + n, i + 9 + m + d + h + n + e),
        e == 2 || i + 9 + m + d + h + n + e == s.len() || {
            let c = s[i + 9 + m + d + h + n + e];
            (c as u32) < 128 && !('0' <= c && c <= '9')
        },
    ensures
        literal_end(s, i) == Some(i + 9 + m + d + h + n + e),
{
    assert('0' <= s[i] && s[i] <= '9' && '0' <= s[i + 1] && s[i + 1] <= '9');
    assert('0' <= s[i + 2] && s[i + 2] <= '9' && '0' <= s[i + 3] && s[i + 3] <= '9');
    lemma_one_or_two(s, i + 5, m);
    lemma_one_or_two(s, i + 6 + m, d);
    let space = i + 6 + m + d;
    assert('0' <= s[space + 1] && s[space + 1] <= '9');
    assert(spaces_end(s, space + 1) == space + 1);
    assert(spaces_end(s, space) == space + 1);
    lemma_one_or_two(s, i + 7 + m + d, h);
    lemma_one_or_two(s, i + 8 + m + d + h, n);
    lemma_one_or_two(s, i + 9 + m + d + h + n, e);
}

/// Where no digit stands, no date starts; nor where the marks, the white space or the colons are
/// missing.
pub proof fn lemma_other_text_is_no_date(s: Seq<char>, i: int)
    requires
        0 <= i < s.len(),
    ensures
        (s[i] as u32) < 128 && !('0' <= s[i] && s[i] <= '9') ==> literal_end(s, i) is None,
        !is_marked(s, i + 4) ==> literal_end(s, i) is None,
        !s.contains(':') ==> literal_end(s, i) is None,
{
}

/// Slashes and full stops of a date become hyphens, and everything else stays.
pub proof fn lemma_marks_become_hyphens(text: Seq<char>, i: int)
    requires
        0 <= i < text.len(),
    ensures
        hyphenated(text).len() == text.len(),
        text[i] == '/' || text[i] == '.' ==> hyphenated(text)[i] == '-',
        text[i] != '/' && text[i] != '.' ==> hyphenated(text)[i] == text[i],
{
}

} // verus!
