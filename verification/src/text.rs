//! Text as sequences of characters: conversion, comparison, search and decimal numbers.

use vstd::prelude::*;
use vstd::utf8::is_ascii_chars;

verus! {

// ── trusted standard-library items ───────────────────────────────────────

/// `String::push` appends one character.
pub assume_specification[ String::push ](s: &mut String, c: char)
    ensures
        final(s)@ == old(s)@.push(c),
;

/// What `char::is_whitespace` answers.
pub uninterp spec fn unicode_white_space(c: char) -> bool;

/// What `char::is_alphabetic` answers.
pub uninterp spec fn unicode_alphabetic(c: char) -> bool;

/// What `char::is_alphanumeric` answers.
pub uninterp spec fn unicode_alphanumeric(c: char) -> bool;

/// What `str::to_uppercase` gives.
pub uninterp spec fn unicode_uppercase(s: Seq<char>) -> Seq<char>;

/// `char::is_whitespace`: on ASCII it holds of tab, line feed, vertical tab, form feed, carriage
/// return and space; beyond, its answer is named `unicode_white_space`.
#[verifier::external_body]
pub(crate) fn is_white_space(c: char) -> (r: bool)
    ensures
        is_ascii_char(c) ==> r == is_ascii_space(c),
        !is_ascii_char(c) ==> r == unicode_white_space(c),
{
    c.is_whitespace()
}

/// `char::is_alphabetic`: on ASCII it holds of the letters; beyond, its answer is named
/// `unicode_alphabetic`.
#[verifier::external_body]
pub(crate) fn is_alphabetic(c: char) -> (r: bool)
    ensures
        is_ascii_char(c) ==> r == is_ascii_letter(c),
        !is_ascii_char(c) ==> r == unicode_alphabetic(c),
{
    c.is_alphabetic()
}

/// `char::is_alphanumeric`: on ASCII it holds of the letters and the decimal digits; beyond, its
/// answer is named `unicode_alphanumeric`.
#[verifier::external_body]
pub(crate) fn is_alphanumeric(c: char) -> (r: bool)
    ensures
        is_ascii_char(c) ==> r == (is_ascii_letter(c) || is_digit(c)),
        !is_ascii_char(c) ==> r == unicode_alphanumeric(c),
{
    c.is_alphanumeric()
}

/// `str::to_uppercase`: on ASCII it turns the lower-case letters into the upper-case ones and
/// keeps the rest; beyond, its result is named `unicode_uppercase`.
#[verifier::external_body]
pub(crate) fn to_uppercase(s: &str) -> (r: String)
    ensures
        is_ascii_chars(s@) ==> r@ == s@.map_values(|c: char| ascii_upper(c)),
        !is_ascii_chars(s@) ==> r@ == unicode_uppercase(s@),
{
    s.to_uppercase()
}

// ── kinds of characters ──────────────────────────────────────────────────

/// The characters of ASCII.
pub open spec fn is_ascii_char(c: char) -> bool {
    (c as u32) < 128
}

/// The white space of ASCII.
pub open spec fn is_ascii_space(c: char) -> bool {
    c == ' ' || (9 <= c as u32 && c as u32 <= 13)
}

/// The ASCII letters.
pub open spec fn is_ascii_letter(c: char) -> bool {
    ('a' <= c && c <= 'z') || ('A' <= c && c <= 'Z')
}

/// The upper case of an ASCII character.
pub open spec fn ascii_upper(c: char) -> char {
    if 'a' <= c && c <= 'z' {
        (c as u32 - 32) as char
    } else {
        c
    }
}

/// White space: the Unicode property `White_Space`.
pub open spec fn white_space(c: char) -> bool {
    if is_ascii_char(c) {
        is_ascii_space(c)
    } else {
        unicode_white_space(c)
    }
}

/// Letters: the Unicode property `Alphabetic`.
pub open spec fn alphabetic(c: char) -> bool {
    if is_ascii_char(c) {
        is_ascii_letter(c)
    } else {
        unicode_alphabetic(c)
    }
}

/// Letters and the Unicode numbers.
pub open spec fn alphanumeric(c: char) -> bool {
    if is_ascii_char(c) {
        is_ascii_letter(c) || is_digit(c)
    } else {
        unicode_alphanumeric(c)
    }
}

/// The upper case of a text.
pub open spec fn uppercase(s: Seq<char>) -> Seq<char> {
    if is_ascii_chars(s) {
        s.map_values(|c: char| ascii_upper(c))
    } else {
        unicode_uppercase(s)
    }
}

// ── conversion ───────────────────────────────────────────────────────────

/// The characters of `s`, in order.
pub fn to_chars(s: &str) -> (v: Vec<char>)
    ensures
        v@ == s@,
{
    let mut v: Vec<char> = Vec::new();
    for c in it: s.chars()
        invariant
            it.seq() == s@,
            v@ == s@.take(it.index() as int),
    {
        v.push(c);
        assert(s@.take(it.index() as int + 1) =~= s@.take(it.index() as int).push(c));
    }
    assert(s@.take(s@.len() as int) =~= s@);
    v
}

/// The string made of the characters `v[from..to]`.
pub fn from_chars(v: &Vec<char>, from: usize, to: usize) -> (s: String)
    requires
        from <= to <= v@.len(),
    ensures
        s@ == v@.subrange(from as int, to as int),
{
    let mut s = String::new();
    let mut i: usize = from;
    while i < to
        invariant
            from <= i <= to <= v@.len(),
            s@ == v@.subrange(from as int, i as int),
        decreases to - i,
    {
        s.push(v[i]);
        i = i + 1;
        assert(v@.subrange(from as int, i as int) =~= v@.subrange(from as int, i - 1).push(
            v@[i - 1],
        ));
    }
    s
}

/// A string equal to `s`.
pub fn copy_str(s: &str) -> (r: String)
    ensures
        r@ == s@,
{
    let mut r = String::new();
    r.append(s);
    assert(r@ =~= s@);
    r
}

/// `a` followed by `b`.
pub fn concat2(a: &str, b: &str) -> (r: String)
    ensures
        r@ == a@ + b@,
{
    let mut r = copy_str(a);
    r.append(b);
    r
}

// ── equality and order ───────────────────────────────────────────────────

/// Whether two texts hold the same characters.
pub fn same_text(a: &str, b: &str) -> (r: bool)
    ensures
        r == (a@ == b@),
{
    let x = to_chars(a);
    let y = to_chars(b);
    if x.len() != y.len() {
        return false;
    }
    let mut i: usize = 0;
    while i < x.len()
        invariant
            x@ == a@,
            y@ == b@,
            x@.len() == y@.len(),
            i <= x@.len(),
            forall|k: int| 0 <= k < i ==> x@[k] == y@[k],
        decreases x.len() - i,
    {
        if x[i] != y[i] {
            return false;
        }
        i = i + 1;
    }
    assert(a@ =~= b@);
    true
}

/// Lexicographic order by code point, which is the order of the UTF-8 bytes.
pub open spec fn text_lt(a: Seq<char>, b: Seq<char>) -> bool
    decreases a.len(),
{
    if b.len() == 0 {
        false
    } else if a.len() == 0 {
        true
    } else if a[0] != b[0] {
        a[0] < b[0]
    } else {
        text_lt(a.drop_first(), b.drop_first())
    }
}

/// `a` comes before `b` in lexicographic order, or is `b`.
pub open spec fn text_le(a: Seq<char>, b: Seq<char>) -> bool {
    a == b || text_lt(a, b)
}

proof fn lemma_text_lt_common_prefix(a: Seq<char>, b: Seq<char>, k: int)
    requires
        0 <= k <= a.len(),
        k <= b.len(),
        forall|i: int| 0 <= i < k ==> a[i] == b[i],
    ensures
        text_lt(a, b) == text_lt(a.skip(k), b.skip(k)),
    decreases k,
{
    if k == 0 {
        assert(a.skip(0) =~= a);
        assert(b.skip(0) =~= b);
    } else {
        assert(a[0] == b[0]);
        lemma_text_lt_common_prefix(a.drop_first(), b.drop_first(), k - 1);
        assert(a.drop_first().skip(k - 1) =~= a.skip(k));
        assert(b.drop_first().skip(k - 1) =~= b.skip(k));
    }
}

/// Text order is a strict total order: irreflexive and asymmetric, and of two distinct texts
/// one comes first.
pub proof fn lemma_text_lt_total(a: Seq<char>, b: Seq<char>)
    ensures
        !text_lt(a, a),
        !(text_lt(a, b) && text_lt(b, a)),
        a == b || text_lt(a, b) || text_lt(b, a),
    decreases a.len(),
{
    if a.len() == 0 {
        if b.len() == 0 {
            assert(a =~= b);
        }
    } else if b.len() == 0 {
        lemma_text_lt_total(a.drop_first(), a.drop_first());
    } else {
        lemma_text_lt_total(a.drop_first(), b.drop_first());
        if a[0] == b[0] && a.drop_first() == b.drop_first() {
            assert(a =~= seq![a[0]] + a.drop_first());
            assert(b =~= seq![b[0]] + b.drop_first());
        }
    }
}

/// Where two texts first differ, the lesser character decides which comes first; a proper start of
/// a text comes before it.
pub proof fn lemma_first_difference_decides(a: Seq<char>, b: Seq<char>, k: int)
    requires
        0 <= k <= a.len(),
        k <= b.len(),
        forall|i: int| 0 <= i < k ==> a[i] == b[i],
        k < a.len() && k < b.len() ==> a[k] != b[k],
    ensures
        text_lt(a, b) <==> k < b.len() && (k == a.len() || a[k] < b[k]),
{
    lemma_text_lt_common_prefix(a, b, k);
    let x = a.skip(k);
    let y = b.skip(k);
    assert(x.len() == a.len() - k && y.len() == b.len() - k);
    if k < a.len() && k < b.len() {
        assert(x[0] == a[k] && y[0] == b[k]);
        assert(text_lt(x, y) == (x[0] < y[0]));
    }
}

/// Text order is transitive.
pub proof fn lemma_text_lt_transitive(a: Seq<char>, b: Seq<char>, c: Seq<char>)
    requires
        text_lt(a, b),
        text_lt(b, c),
    ensures
        text_lt(a, c),
    decreases a.len(),
{
    if a.len() > 0 && b.len() > 0 && c.len() > 0 && a[0] == b[0] && b[0] == c[0] {
        lemma_text_lt_transitive(a.drop_first(), b.drop_first(), c.drop_first());
    }
}

/// Whether `a` comes strictly before `b` in lexicographic order.
pub fn text_before(a: &str, b: &str) -> (r: bool)
    ensures
        r == text_lt(a@, b@),
{
    let x = to_chars(a);
    let y = to_chars(b);
    let mut i: usize = 0;
    while i < x.len() && i < y.len()
        invariant
            x@ == a@,
            y@ == b@,
            i <= x@.len(),
            i <= y@.len(),
            forall|k: int| 0 <= k < i ==> x@[k] == y@[k],
        decreases x.len() - i,
    {
        if x[i] != y[i] {
            proof {
                lemma_text_lt_common_prefix(a@, b@, i as int);
            }
            return x[i] < y[i];
        }
        i = i + 1;
    }
    proof {
        lemma_text_lt_common_prefix(a@, b@, i as int);
    }
    x.len() < y.len()
}

// ── decimal numbers ──────────────────────────────────────────────────────

/// The ASCII decimal digits.
pub open spec fn is_digit(c: char) -> bool {
    '0' <= c && c <= '9'
}

/// The value of a decimal digit.
pub open spec fn digit_value(c: char) -> int {
    c as u32 - '0' as u32
}

/// The digit that stands for `d`.
pub open spec fn digit_char(d: int) -> char {
    ('0' as u32 + d) as char
}

/// Every character is a decimal digit.
pub open spec fn all_digits(s: Seq<char>) -> bool {
    forall|i: int| 0 <= i < s.len() ==> is_digit(#[trigger] s[i])
}

/// The number that a run of decimal digits denotes.
pub open spec fn digits_value(s: Seq<char>) -> int
    decreases s.len(),
{
    if s.len() == 0 {
        0
    } else {
        10 * digits_value(s.drop_last()) + digit_value(s.last())
    }
}

/// `n` in decimal, without leading zeros.
pub open spec fn decimal(n: nat) -> Seq<char>
    decreases n,
{
    if n < 10 {
        seq![digit_char(n as int)]
    } else {
        decimal(n / 10).push(digit_char((n % 10) as int))
    }
}

/// `n` in decimal, with a minus sign where it is negative.
pub open spec fn signed_decimal(n: int) -> Seq<char> {
    if n < 0 {
        seq!['-'] + decimal((-n) as nat)
    } else {
        decimal(n as nat)
    }
}

/// A decimal rendering is a non-empty run of digits that denotes the number it was made from.
pub proof fn lemma_decimal_value(n: nat)
    ensures
        decimal(n).len() > 0,
        all_digits(decimal(n)),
        digits_value(decimal(n)) == n,
    decreases n,
{
    if n < 10 {
        let s = decimal(n);
        assert(s.drop_last() =~= Seq::<char>::empty());
        assert(digits_value(s.drop_last()) == 0);
    } else {
        lemma_decimal_value(n / 10);
        let s = decimal(n);
        assert(s.drop_last() =~= decimal(n / 10));
    }
}

/// More digits never denote a smaller number.
pub proof fn lemma_digits_value_grows(s: Seq<char>, k: int)
    requires
        all_digits(s),
        0 <= k <= s.len(),
    ensures
        0 <= digits_value(s.take(k)) <= digits_value(s),
    decreases s.len(),
{
    if k == s.len() {
        assert(s.take(k) =~= s);
        if s.len() > 0 {
            lemma_digits_value_grows(s.drop_last(), k - 1);
        }
    } else {
        lemma_digits_value_grows(s.drop_last(), k);
        assert(s.drop_last().take(k) =~= s.take(k));
    }
}

/// Whether `c` is an ASCII decimal digit.
pub fn is_digit_char(c: char) -> (r: bool)
    ensures
        r == is_digit(c),
{
    '0' <= c && c <= '9'
}

/// The number that the digits `v[from..to]` denote, where it fits in 64 bits.
pub fn digits_to_u64(v: &Vec<char>, from: usize, to: usize) -> (r: Option<u64>)
    requires
        from <= to <= v@.len(),
        all_digits(v@.subrange(from as int, to as int)),
    ensures
        r is Some <==> digits_value(v@.subrange(from as int, to as int)) <= u64::MAX,
        r matches Some(n) ==> n == digits_value(v@.subrange(from as int, to as int)),
{
    let ghost run = v@.subrange(from as int, to as int);
    let mut n: u64 = 0;
    let mut i: usize = from;
    assert(run.take(0) =~= Seq::<char>::empty());
    while i < to
        invariant
            from <= i <= to <= v@.len(),
            run == v@.subrange(from as int, to as int),
            all_digits(run),
            n == digits_value(run.take(i - from)),
        decreases to - i,
    {
        let c = v[i];
        proof {
            assert(run[i - from] == c);
            assert(run.take(i - from + 1).drop_last() =~= run.take(i - from));
            lemma_digits_value_grows(run, i - from + 1);
        }
        let d: u64 = c as u64 - '0' as u64;
        if n > (u64::MAX - d) / 10 {
            return None;
        }
        n = n * 10 + d;
        i = i + 1;
    }
    assert(run.take(to - from) =~= run);
    proof {
        lemma_digits_value_grows(run, 0);
    }
    Some(n)
}

fn push_decimal(s: &mut String, n: u128)
    ensures
        final(s)@ == old(s)@ + decimal(n as nat),
    decreases n,
{
    if n >= 10 {
        push_decimal(s, n / 10);
    }
    let d: u8 = 48 + (n % 10) as u8;
    s.push(d as char);
    assert(s@ =~= old(s)@ + decimal(n as nat));
}

/// `n` in decimal.
pub fn u128_text(n: u128) -> (s: String)
    ensures
        s@ == decimal(n as nat),
{
    let mut s = String::new();
    push_decimal(&mut s, n);
    assert(s@ =~= decimal(n as nat));
    s
}

/// `n` in decimal.
pub fn u64_text(n: u64) -> (s: String)
    ensures
        s@ == decimal(n as nat),
{
    u128_text(n as u128)
}

/// `n` in decimal, with a minus sign where it is negative.
pub fn i64_text(n: i64) -> (s: String)
    ensures
        s@ == signed_decimal(n as int),
{
    let mut s = String::new();
    if n < 0 {
        s.push('-');
        let m: u128 = (-(n as i128)) as u128;
        push_decimal(&mut s, m);
    } else {
        push_decimal(&mut s, n as u128);
    }
    assert(s@ =~= signed_decimal(n as int));
    s
}

// ── runs of characters ───────────────────────────────────────────────────

/// Where the run of decimal digits that starts at `i` ends.
pub open spec fn digits_end(s: Seq<char>, i: int) -> int
    decreases s.len() - i,
{
    if 0 <= i < s.len() && is_digit(s[i]) {
        digits_end(s, i + 1)
    } else {
        i
    }
}

/// Where the run of white space that starts at `i` ends.
pub open spec fn spaces_end(s: Seq<char>, i: int) -> int
    decreases s.len() - i,
{
    if 0 <= i < s.len() && white_space(s[i]) {
        spaces_end(s, i + 1)
    } else {
        i
    }
}

/// A run of digits lies within the text and holds digits only.
pub proof fn lemma_digits_end(s: Seq<char>, i: int)
    requires
        0 <= i <= s.len(),
    ensures
        i <= digits_end(s, i) <= s.len(),
        all_digits(s.subrange(i, digits_end(s, i))),
        digits_end(s, i) < s.len() ==> !is_digit(s[digits_end(s, i)]),
    decreases s.len() - i,
{
    if i < s.len() && is_digit(s[i]) {
        lemma_digits_end(s, i + 1);
        let run = s.subrange(i, digits_end(s, i));
        assert forall|k: int| 0 <= k < run.len() implies is_digit(#[trigger] run[k]) by {
            if k > 0 {
                assert(run[k] == s.subrange(i + 1, digits_end(s, i + 1))[k - 1]);
            }
        }
    }
}

/// Where the run of decimal digits that starts at `i` ends.
pub fn skip_digits(v: &Vec<char>, i: usize) -> (r: usize)
    requires
        i <= v@.len(),
    ensures
        r == digits_end(v@, i as int),
        i <= r <= v@.len(),
        all_digits(v@.subrange(i as int, r as int)),
{
    let mut k: usize = i;
    while k < v.len() && is_digit_char(v[k])
        invariant
            i <= k <= v@.len(),
            digits_end(v@, i as int) == digits_end(v@, k as int),
        decreases v.len() - k,
    {
        k = k + 1;
    }
    proof {
        lemma_digits_end(v@, i as int);
    }
    k
}

/// Where the run of white space that starts at `i` ends.
pub fn skip_spaces(v: &Vec<char>, i: usize) -> (r: usize)
    requires
        i <= v@.len(),
    ensures
        r == spaces_end(v@, i as int),
        i <= r <= v@.len(),
{
    let mut k: usize = i;
    while k < v.len() && is_white_space(v[k])
        invariant
            i <= k <= v@.len(),
            spaces_end(v@, i as int) == spaces_end(v@, k as int),
        decreases v.len() - k,
    {
        k = k + 1;
    }
    k
}

/// `s` without the white space at its start.
pub open spec fn trimmed_start(s: Seq<char>) -> Seq<char> {
    s.skip(spaces_end(s, 0))
}

/// Where the white space at the end of `s[..i]` starts.
pub open spec fn content_end(s: Seq<char>, i: int) -> int
    decreases i,
{
    if 0 < i <= s.len() && white_space(s[i - 1]) {
        content_end(s, i - 1)
    } else {
        i
    }
}

/// `s` without the white space at its start and at its end.
pub open spec fn trimmed(s: Seq<char>) -> Seq<char> {
    let t = trimmed_start(s);
    t.take(content_end(t, t.len() as int))
}

/// `s` without the white space at its start and at its end.
pub fn trim_text(s: &str) -> (r: String)
    ensures
        r@ == trimmed(s@),
{
    let v = to_chars(s);
    let from = skip_spaces(&v, 0);
    let ghost t = trimmed_start(s@);
    let mut to: usize = v.len();
    while to > from && is_white_space(v[to - 1])
        invariant
            from <= to <= v@.len(),
            v@ == s@,
            t == s@.skip(from as int),
            content_end(t, t.len() as int) == content_end(t, to - from),
        decreases to,
    {
        assert(t[to - from - 1] == v@[to - 1]);
        to = to - 1;
    }
    assert(to > from ==> t[to - from - 1] == v@[to - 1]);
    let r = from_chars(&v, from, to);
    assert(r@ =~= t.take(to - from));
    r
}

// ── search ───────────────────────────────────────────────────────────────

/// `needle` stands in `s` at position `i`.
pub open spec fn occurs_at(s: Seq<char>, needle: Seq<char>, i: int) -> bool {
    0 <= i && i + needle.len() <= s.len() && s.subrange(i, i + needle.len()) == needle
}

/// `needle` stands somewhere in `s`.
pub open spec fn occurs(s: Seq<char>, needle: Seq<char>) -> bool {
    exists|i: int| occurs_at(s, needle, i)
}

/// `i` is the first place where `needle` stands in `s`.
pub open spec fn first_at(s: Seq<char>, needle: Seq<char>, i: int) -> bool {
    occurs_at(s, needle, i) && forall|k: int| 0 <= k < i ==> !occurs_at(s, needle, k)
}

fn stands_at(v: &Vec<char>, needle: &Vec<char>, i: usize) -> (r: bool)
    requires
        i + needle@.len() <= v@.len(),
    ensures
        r == occurs_at(v@, needle@, i as int),
{
    let mut k: usize = 0;
    while k < needle.len()
        invariant
            i + needle@.len() <= v.len(),
            k <= needle@.len(),
            forall|j: int| 0 <= j < k ==> v@[i + j] == needle@[j],
        decreases needle.len() - k,
    {
        if v[i + k] != needle[k] {
            assert(v@.subrange(i as int, i + needle@.len())[k as int] != needle@[k as int]);
            return false;
        }
        k = k + 1;
    }
    assert(v@.subrange(i as int, i + needle@.len()) =~= needle@);
    true
}

/// The first place where `needle` stands in `v`.
pub fn find_text(v: &Vec<char>, needle: &str) -> (r: Option<usize>)
    ensures
        match r {
            Some(i) => first_at(v@, needle@, i as int),
            None => !occurs(v@, needle@),
        },
{
    let n = to_chars(needle);
    if n.len() > v.len() {
        return None;
    }
    let last: usize = v.len() - n.len();
    let mut i: usize = 0;
    while i <= last
        invariant
            n@ == needle@,
            last + n@.len() == v@.len(),
            i <= last + 1,
            forall|k: int| 0 <= k < i ==> !occurs_at(v@, needle@, k),
        decreases last + 1 - i,
    {
        if stands_at(v, &n, i) {
            return Some(i);
        }
        if i == last {
            return None;
        }
        i = i + 1;
    }
    None
}

// ── numbers as std reads them ────────────────────────────────────────────

/// The unsigned 64-bit number that a text denotes: a plus sign or none, and decimal digits.
pub open spec fn u64_of(s: Seq<char>) -> Option<u64> {
    let run = if s.len() > 0 && s[0] == '+' {
        s.skip(1)
    } else {
        s
    };
    if run.len() > 0 && all_digits(run) && digits_value(run) <= u64::MAX {
        Some(digits_value(run) as u64)
    } else {
        None
    }
}

/// Reads an unsigned 64-bit number.
pub fn parse_u64(s: &str) -> (r: Option<u64>)
    ensures
        r == u64_of(s@),
{
    let v = to_chars(s);
    let from: usize = if v.len() > 0 && v[0] == '+' { 1 } else { 0 };
    let ghost run = if v.len() > 0 && v[0] == '+' {
        v@.skip(1)
    } else {
        v@
    };
    assert(run =~= v@.subrange(from as int, v@.len() as int));
    let to = skip_digits(&v, from);
    proof {
        lemma_digits_end(v@, from as int);
    }
    if from == v.len() {
        return None;
    }
    if to < v.len() {
        assert(run[to - from] == v@[to as int]);
        assert(!all_digits(run));
        return None;
    }
    assert(all_digits(run));
    digits_to_u64(&v, from, to)
}

/// The digits of a number are read back as that number.
pub proof fn lemma_decimal_is_read_back(n: u64)
    ensures
        u64_of(decimal(n as nat)) == Some(n),
{
    lemma_decimal_value(n as nat);
}

// ── lists of texts ───────────────────────────────────────────────────────

/// The texts of a list of strings.
pub open spec fn texts(v: Seq<String>) -> Seq<Seq<char>> {
    v.map_values(|s: String| s@)
}

/// The texts one after the other, with `sep` between each two.
pub open spec fn joined(parts: Seq<Seq<char>>, sep: Seq<char>) -> Seq<char>
    decreases parts.len(),
{
    if parts.len() == 0 {
        Seq::empty()
    } else if parts.len() == 1 {
        parts[0]
    } else {
        joined(parts.drop_last(), sep) + sep + parts.last()
    }
}

/// Joins the texts, with `sep` between each two.
pub fn join_texts(parts: &Vec<String>, sep: &str) -> (r: String)
    ensures
        r@ == joined(texts(parts@), sep@),
{
    let mut r = String::new();
    let mut i: usize = 0;
    while i < parts.len()
        invariant
            i <= parts.len(),
            r@ == joined(texts(parts@).take(i as int), sep@),
        decreases parts.len() - i,
    {
        let ghost before = texts(parts@).take(i as int);
        let ghost after = texts(parts@).take(i + 1);
        assert(after.drop_last() =~= before);
        if i > 0 {
            r.append(sep);
        }
        r.append(parts[i].as_str());
        assert(r@ =~= joined(after, sep@));
        i = i + 1;
    }
    assert(texts(parts@).take(i as int) =~= texts(parts@));
    r
}

/// Whether one of the texts is `text`.
pub fn has_text(list: &Vec<String>, text: &str) -> (r: bool)
    ensures
        r == texts(list@).contains(text@),
{
    let mut i: usize = 0;
    while i < list.len()
        invariant
            i <= list.len(),
            forall|k: int| 0 <= k < i ==> texts(list@)[k] != text@,
        decreases list.len() - i,
    {
        if same_text(list[i].as_str(), text) {
            assert(texts(list@)[i as int] == text@);
            return true;
        }
        i = i + 1;
    }
    false
}

/// Where the last `c` stands in `s`.
pub open spec fn last_of(s: Seq<char>, c: char) -> Option<int>
    decreases s.len(),
{
    if s.len() == 0 {
        None
    } else if s.last() == c {
        Some(s.len() - 1)
    } else {
        last_of(s.drop_last(), c)
    }
}

/// What stands before the last full stop of a name, and what stands behind it; `None` where the
/// name has no full stop.
pub open spec fn split_name(s: Seq<char>) -> Option<(Seq<char>, Seq<char>)> {
    match last_of(s, '.') {
        Some(i) => Some((s.take(i), s.skip(i + 1))),
        None => None,
    }
}

/// Splits a name at its last full stop.
pub fn split_at_last_stop(s: &str) -> (r: Option<(String, String)>)
    ensures
        match r {
            Some((a, b)) => split_name(s@) == Some((a@, b@)),
            None => split_name(s@) is None,
        },
{
    let v = to_chars(s);
    let mut i: usize = v.len();
    assert(v@.take(i as int) =~= s@);
    while i > 0
        invariant
            v@ == s@,
            i <= v.len(),
            last_of(v@.take(i as int), '.') == last_of(s@, '.'),
        decreases i,
    {
        assert(v@.take(i as int).drop_last() =~= v@.take(i - 1));
        assert(v@.take(i as int).last() == v@[i - 1]);
        if v[i - 1] == '.' {
            let a = from_chars(&v, 0, i - 1);
            let b = from_chars(&v, i, v.len());
            assert(a@ =~= s@.take(i - 1));
            assert(b@ =~= s@.skip(i as int));
            return Some((a, b));
        }
        i = i - 1;
    }
    None
}

// ── laws ─────────────────────────────────────────────────────────────────

/// A number times ten is written with a zero behind it, and a digit that is added takes its place.
pub proof fn lemma_decimal_shifts(n: nat, d: int)
    requires
        0 <= d < 10,
    ensures
        n > 0 ==> decimal((10 * n + d) as nat) == decimal(n).push("0123456789"@[d]),
        decimal(d as nat) == seq!["0123456789"@[d]],
{
    reveal_strlit("0123456789");
    assert(digit_char(d) == "0123456789"@[d]);
    let m = (10 * n + d) as nat;
    if n > 0 {
        assert(m / 10 == n && m % 10 == d);
    }
}

/// A negative number is written as its opposite with a minus sign before it.
pub proof fn lemma_minus_sign(n: int)
    requires
        n > 0,
    ensures
        signed_decimal(-n) == "-"@ + signed_decimal(n),
        signed_decimal(n) == decimal(n as nat),
        signed_decimal(0) == decimal(0),
{
    reveal_strlit("-");
    assert("-"@ =~= seq!['-']);
}

/// A digit behind others counts once, and each of the others ten times what it counted before.
pub proof fn lemma_digits_shift(s: Seq<char>, d: int)
    requires
        0 <= d < 10,
    ensures
        digits_value(s.push("0123456789"@[d])) == 10 * digits_value(s) + d,
        digits_value(Seq::empty()) == 0,
{
    reveal_strlit("0123456789");
    let t = s.push("0123456789"@[d]);
    assert(t.drop_last() =~= s);
}

/// White space is passed over as far as it reaches, and no further.
pub proof fn lemma_spaces_end(s: Seq<char>, i: int)
    requires
        0 <= i <= s.len(),
    ensures
        i <= spaces_end(s, i) <= s.len(),
        forall|k: int| i <= k < spaces_end(s, i) ==> white_space(#[trigger] s[k]),
        spaces_end(s, i) < s.len() ==> !white_space(s[spaces_end(s, i)]),
    decreases s.len() - i,
{
    if i < s.len() && white_space(s[i]) {
        lemma_spaces_end(s, i + 1);
        assert forall|k: int| i <= k < spaces_end(s, i) implies white_space(#[trigger] s[k]) by {
            if k > i {
                assert(i + 1 <= k);
            }
        }
    }
}

proof fn lemma_content_end(s: Seq<char>, i: int)
    requires
        0 <= i <= s.len(),
    ensures
        0 <= content_end(s, i) <= i,
        forall|k: int| content_end(s, i) <= k < i ==> white_space(#[trigger] s[k]),
        content_end(s, i) > 0 ==> !white_space(s[content_end(s, i) - 1]),
    decreases i,
{
    if 0 < i && white_space(s[i - 1]) {
        lemma_content_end(s, i - 1);
        assert forall|k: int| content_end(s, i) <= k < i implies white_space(#[trigger] s[k]) by {
            if k < i - 1 {
                assert(content_end(s, i - 1) <= k);
            }
        }
    }
}

/// Trimming takes away white space at both ends, all of it, and nothing else.
pub proof fn lemma_trimmed(s: Seq<char>)
    ensures
        exists|i: int, j: int|
            #![trigger s.subrange(i, j)]
            {
                &&& 0 <= i <= j <= s.len()
                &&& trimmed(s) == s.subrange(i, j)
                &&& forall|k: int| 0 <= k < i || j <= k < s.len() ==> white_space(#[trigger] s[k])
            },
        trimmed(s).len() > 0 ==> !white_space(trimmed(s)[0]) && !white_space(trimmed(s).last()),
{
    let i = spaces_end(s, 0);
    let t = trimmed_start(s);
    lemma_spaces_end(s, 0);
    lemma_content_end(t, t.len() as int);
    let e = content_end(t, t.len() as int);
    let j = i + e;
    assert(trimmed(s) =~= s.subrange(i, j));
    assert forall|k: int| 0 <= k < i || j <= k < s.len() implies white_space(#[trigger] s[k]) by {
        if j <= k {
            assert(t[k - i] == s[k]);
        }
    }
    if e > 0 {
        assert(trimmed(s)[0] == s[i]);
        assert(trimmed(s).last() == t[e - 1]);
    }
}

/// Plus signs, digits and nothing else make a number: any other character spoils it, and so does
/// having no digit.
pub proof fn lemma_only_digits_are_numbers(s: Seq<char>, i: int)
    requires
        0 <= i < s.len(),
        !('0' <= s[i] && s[i] <= '9'),
        i > 0 || s[i] != '+',
    ensures
        u64_of(s) is None,
        u64_of(Seq::empty()) is None,
        u64_of("+"@) is None,
{
    reveal_strlit("+");
    if s[0] == '+' {
        assert(s.skip(1)[i - 1] == s[i]);
    }
}

/// A number is read from its digits, with a plus sign before them or without.
pub proof fn lemma_plus_sign_is_read(n: u64)
    ensures
        u64_of(decimal(n as nat)) == Some(n),
        u64_of("+"@ + decimal(n as nat)) == Some(n),
{
    reveal_strlit("+");
    lemma_decimal_is_read_back(n);
    lemma_decimal_value(n as nat);
    let s = "+"@ + decimal(n as nat);
    assert(s.skip(1) =~= decimal(n as nat));
}

/// Texts are joined with the separator between each two and nowhere else: joining two lists is
/// joining each, with the separator between the results.
pub proof fn lemma_joined_concat(a: Seq<Seq<char>>, b: Seq<Seq<char>>, sep: Seq<char>)
    requires
        a.len() > 0,
        b.len() > 0,
    ensures
        joined(a + b, sep) == joined(a, sep) + sep + joined(b, sep),
    decreases b.len(),
{
    let all = a + b;
    assert(all.drop_last() =~= a + b.drop_last());
    if b.len() == 1 {
        assert(a + b.drop_last() =~= a);
        assert(joined(b, sep) == b[0]);
    } else {
        lemma_joined_concat(a, b.drop_last(), sep);
        assert(joined(all, sep) =~= joined(a, sep) + sep + joined(b, sep));
    }
}

/// A text alone is joined to itself, and no text to nothing.
pub proof fn lemma_joined_alone(part: Seq<char>, sep: Seq<char>)
    ensures
        joined(seq![part], sep) == part,
        joined(Seq::empty(), sep) == Seq::<char>::empty(),
{
}

/// The last place of a character holds it, and no place behind does.
pub proof fn lemma_last_place(s: Seq<char>, c: char)
    ensures
        match last_of(s, c) {
            Some(i) => 0 <= i < s.len() && s[i] == c && forall|k: int| i < k < s.len() ==> s[k] != c,
            None => !s.contains(c),
        },
    decreases s.len(),
{
    if s.len() > 0 && s.last() != c {
        let t = s.drop_last();
        lemma_last_place(t, c);
        match last_of(s, c) {
            Some(i) => {
                assert(t[i] == s[i]);
                assert forall|k: int| i < k < s.len() implies s[k] != c by {
                    if k < s.len() - 1 {
                        assert(t[k] == s[k]);
                    }
                }
            },
            None => {
                assert forall|k: int| 0 <= k < s.len() implies s[k] != c by {
                    if k < s.len() - 1 {
                        assert(t[k] == s[k]);
                        assert(!t.contains(c));
                    }
                }
            },
        }
    }
}

/// A name is split at its last full stop: both parts with the full stop between them are the name,
/// and the part behind has no further one. A name without a full stop is not split.
pub proof fn lemma_split_at_the_last_stop(name: Seq<char>)
    ensures
        match split_name(name) {
            Some((stem, ext)) => name == stem + "."@ + ext && !ext.contains('.'),
            None => !name.contains('.'),
        },
{
    reveal_strlit(".");
    lemma_last_place(name, '.');
    if let Some((stem, ext)) = split_name(name) {
        let i = last_of(name, '.')->0;
        assert(name =~= stem + "."@ + ext);
        assert forall|k: int| 0 <= k < ext.len() implies ext[k] != '.' by {
            assert(ext[k] == name[i + 1 + k]);
        }
    }
}

/// What stands behind a full stop, and has none itself, is split off.
pub proof fn lemma_extension_is_split_off(stem: Seq<char>, ext: Seq<char>)
    requires
        !ext.contains('.'),
    ensures
        split_name(stem + "."@ + ext) == Some((stem, ext)),
{
    reveal_strlit(".");
    let name = stem + "."@ + ext;
    let i = stem.len() as int;
    lemma_last_place(name, '.');
    assert(name[i] == '.');
    assert(name.contains('.'));
    let j = last_of(name, '.')->0;
    if j > i {
        assert(name[j] == ext[j - i - 1]);
        assert(ext.contains('.'));
    }
    assert(name.take(i) =~= stem);
    assert(name.skip(i + 1) =~= ext);
}

} // verus!
