//! How the text of a filter is read.

use vstd::prelude::*;
use vstd::utf8::is_ascii_chars;

use crate::calendar::{chrono_parse_date, chrono_parse_datetime, DateTime, DATETIME_LAYOUT};
use crate::dates::hyphenated;
use crate::filter::laws::{lemma_digits_then, lemma_unit_is_letters};
use crate::filter::lexer::{
    blanks_end, date_end, date_starts, date_token, is_blank, lemma_token_advances, letters_end,
    name_end, name_token, number_token, quote_at, token_at, tokens_from, tokens_of, TokenView,
};
use crate::filter::number::CompareOp;
use crate::format::{byte_count, unit_bytes};
use crate::pattern::regex_compiles;
use crate::text::{
    all_digits, ascii_upper, decimal, digits_end, digits_value, is_digit, lemma_decimal_value,
    spaces_end, trimmed, unicode_alphabetic, unicode_alphanumeric, unicode_uppercase, uppercase,
};

verus! {

// ── operators, texts and names ───────────────────────────────────────────

/// Which operator a character makes, by itself or with the one behind it, wherever it stands.
pub proof fn lemma_operators_are_read(s: Seq<char>, i: int)
    requires
        0 <= i < s.len(),
    ensures
        ({
            let c = s[i];
            let d = if i + 1 < s.len() {
                s[i + 1]
            } else {
                ' '
            };
            let one = |t: TokenView| token_at(s, i) == Some((t, i + 1));
            let two = |t: TokenView| token_at(s, i) == Some((t, i + 2));
            &&& c == '(' ==> one(TokenView::LParen)
            &&& c == ')' ==> one(TokenView::RParen)
            &&& c == '+' ==> one(TokenView::Plus)
            &&& c == '-' ==> one(TokenView::Minus)
            &&& c == '*' ==> one(TokenView::Star)
            &&& c == '/' ==> one(TokenView::Slash)
            &&& c == '=' && d == '=' ==> two(TokenView::Compare(CompareOp::Eq))
            &&& c == '!' && d == '=' ==> two(TokenView::Compare(CompareOp::Ne))
            &&& c == '>' && d == '=' ==> two(TokenView::Compare(CompareOp::Ge))
            &&& c == '<' && d == '=' ==> two(TokenView::Compare(CompareOp::Le))
            &&& c == '>' && d != '=' ==> one(TokenView::Compare(CompareOp::Gt))
            &&& c == '<' && d != '=' ==> one(TokenView::Compare(CompareOp::Lt))
            &&& c == '&' && d == '&' ==> two(TokenView::And)
            &&& c == '|' && d == '|' ==> two(TokenView::Or)
            &&& c == '=' && d != '=' ==> one(TokenView::Name(seq![c]))
            &&& c == '!' && d != '=' ==> one(TokenView::Name(seq![c]))
            &&& c == '&' && d != '&' ==> one(TokenView::Name(seq![c]))
            &&& c == '|' && d != '|' ==> one(TokenView::Name(seq![c]))
        }),
{
}

/// Blanks before a token are passed over: spaces, tabs and the ends of lines.
pub proof fn lemma_blanks_are_passed_over(s: Seq<char>, i: int)
    requires
        0 <= i < s.len(),
        s[i] == ' ' || s[i] == '\t' || s[i] == '\n' || s[i] == '\r' || s[i] == '\x0C',
    ensures
        tokens_from(s, i) == tokens_from(s, i + 1),
{
    lemma_blanks_reach(s, i + 1);
    assert(blanks_end(s, i) == blanks_end(s, i + 1));
}

proof fn lemma_blanks_reach(s: Seq<char>, i: int)
    requires
        0 <= i <= s.len(),
    ensures
        i <= blanks_end(s, i) <= s.len(),
    decreases s.len() - i,
{
    if i < s.len() && is_blank(s[i]) {
        lemma_blanks_reach(s, i + 1);
    }
}

proof fn lemma_quote_reached(s: Seq<char>, i: int, e: int, quote: char)
    requires
        0 <= i <= e < s.len(),
        s[e] == quote,
        forall|k: int| i <= k < e ==> s[k] != quote,
    ensures
        quote_at(s, i, quote) == e,
    decreases e - i,
{
    if i < e {
        lemma_quote_reached(s, i + 1, e, quote);
    }
}

proof fn lemma_alone(s: Seq<char>, token: TokenView)
    requires
        s.len() > 0,
        !is_blank(s[0]),
        token_at(s, 0) == Some((token, s.len() as int)),
    ensures
        tokens_of(s) == Some(seq![token]),
{
    assert(blanks_end(s, 0) == 0);
    assert(tokens_from(s, s.len() as int) == Some(Seq::<TokenView>::empty()));
    assert(seq![token] + Seq::<TokenView>::empty() =~= seq![token]);
}

/// A text in quotes, of either kind, is the text without them, whatever else it holds.
pub proof fn lemma_quotes_hold_a_text(text: Seq<char>, quote: char)
    requires
        quote == '\'' || quote == '"',
        !text.contains(quote),
    ensures
        tokens_of(seq![quote] + text + seq![quote]) == Some(seq![TokenView::Str(text)]),
{
    let s = seq![quote] + text + seq![quote];
    let e = text.len() as int + 1;
    assert forall|k: int| 1 <= k < e implies s[k] != quote by {
        assert(s[k] == text[k - 1]);
    }
    lemma_quote_reached(s, 1, e, quote);
    assert(s.subrange(1, e) =~= text);
    lemma_alone(s, TokenView::Str(text));
}

/// A text in single quotes behind an `r` is a regular expression, where it compiles, and a plain
/// text otherwise.
pub proof fn lemma_quotes_hold_a_pattern(pattern: Seq<char>)
    requires
        !pattern.contains('\''),
    ensures
        regex_compiles(pattern) ==> tokens_of(seq!['r', '\''] + pattern + seq!['\'']) == Some(
            seq![TokenView::ReStr(pattern)],
        ),
        !regex_compiles(pattern) ==> tokens_of(seq!['r', '\''] + pattern + seq!['\'']) == Some(
            seq![TokenView::Str(pattern)],
        ),
{
    let s = seq!['r', '\''] + pattern + seq!['\''];
    let e = pattern.len() as int + 2;
    assert forall|k: int| 2 <= k < e implies s[k] != '\'' by {
        assert(s[k] == pattern[k - 2]);
    }
    lemma_quote_reached(s, 2, e, '\'');
    assert(s.subrange(2, e) =~= pattern);
    if regex_compiles(pattern) {
        lemma_alone(s, TokenView::ReStr(pattern));
    } else {
        lemma_alone(s, TokenView::Str(pattern));
    }
}

/// The characters that names are written with in ASCII.
pub open spec fn in_name(c: char) -> bool {
    c == '_' || ('a' <= c && c <= 'z') || ('A' <= c && c <= 'Z') || ('0' <= c && c <= '9')
}

proof fn lemma_name_to_the_end(s: Seq<char>, i: int)
    requires
        0 <= i <= s.len(),
        forall|k: int| i <= k < s.len() ==> in_name(#[trigger] s[k]),
    ensures
        name_end(s, i) == s.len(),
    decreases s.len() - i,
{
    if i < s.len() {
        lemma_name_to_the_end(s, i + 1);
    }
}

proof fn lemma_upper(c: char, up: char)
    requires
        in_name(c),
        'A' <= up && up <= 'Z',
    ensures
        ascii_upper(c) == up <==> c == up || c as int == up as int + 32,
{
}

/// Letters, digits and underscores that do not start with a digit are one token: `and` and `or`
/// the connectives, with letters of either case, and all others the name that they spell.
pub proof fn lemma_names_are_read(s: Seq<char>)
    requires
        s.len() > 0,
        forall|k: int| 0 <= k < s.len() ==> in_name(#[trigger] s[k]),
        !('0' <= s[0] && s[0] <= '9'),
    ensures
        ({
            let and = s.len() == 3 && (s[0] == 'a' || s[0] == 'A') && (s[1] == 'n' || s[1] == 'N')
                && (s[2] == 'd' || s[2] == 'D');
            let or = s.len() == 2 && (s[0] == 'o' || s[0] == 'O') && (s[1] == 'r' || s[1] == 'R');
            tokens_of(s) == Some(
                seq![
                    if and {
                        TokenView::And
                    } else if or {
                        TokenView::Or
                    } else {
                        TokenView::Name(s)
                    },
                ],
            )
        }),
{
    let n = s.len() as int;
    reveal_strlit("AND");
    reveal_strlit("OR");
    assert(in_name(s[0]));
    assert(n > 1 ==> in_name(s[1]));
    lemma_name_to_the_end(s, 1);
    assert(s.subrange(0, n) =~= s);
    assert(is_ascii_chars(s)) by {
        assert forall|k: int| 0 <= k < s.len() implies (#[trigger] s[k]) as u32 <= 127 by {
            assert(in_name(s[k]));
        }
    }
    let up = uppercase(s);
    assert forall|k: int| 0 <= k < n implies #[trigger] up[k] == ascii_upper(s[k]) by {}
    if n == 3 {
        assert(in_name(s[2]));
        lemma_upper(s[0], 'A');
        lemma_upper(s[1], 'N');
        lemma_upper(s[2], 'D');
        assert(up == "AND"@ <==> up[0] == 'A' && up[1] == 'N' && up[2] == 'D') by {
            if up[0] == 'A' && up[1] == 'N' && up[2] == 'D' {
                assert(up =~= "AND"@);
            }
        }
    }
    if n == 2 {
        lemma_upper(s[0], 'O');
        lemma_upper(s[1], 'R');
        assert(up == "OR"@ <==> up[0] == 'O' && up[1] == 'R') by {
            if up[0] == 'O' && up[1] == 'R' {
                assert(up =~= "OR"@);
            }
        }
    }
    assert(up.len() == n && "AND"@.len() == 3 && "OR"@.len() == 2);
    let and = n == 3 && (s[0] == 'a' || s[0] == 'A') && (s[1] == 'n' || s[1] == 'N') && (s[2] == 'd'
        || s[2] == 'D');
    let or = n == 2 && (s[0] == 'o' || s[0] == 'O') && (s[1] == 'r' || s[1] == 'R');
    assert(and <==> up == "AND"@);
    assert(or <==> up == "OR"@);
    lemma_alone(s, name_token(s));
}

// ── dates ────────────────────────────────────────────────────────────────

/// A date is told from a number by its marks: four digits, a hyphen, slash or full stop, one digit
/// or two, another such mark, and a digit.
pub proof fn lemma_dates_are_told_from_numbers(s: Seq<char>)
    requires
        s.len() >= 8,
        forall|k: int| 0 <= k < 4 ==> '0' <= #[trigger] s[k] && s[k] <= '9',
        '0' <= s[5] && s[5] <= '9',
    ensures
        ({
            let mark = |c: char| c == '-' || c == '/' || c == '.';
            let digit = |c: char| '0' <= c && c <= '9';
            &&& mark(s[4]) && mark(s[6]) && digit(s[7]) ==> date_starts(s, 0)
            &&& s.len() >= 9 && mark(s[4]) && digit(s[6]) && mark(s[7]) && digit(s[8])
                ==> date_starts(s, 0)
            &&& !mark(s[4]) ==> !date_starts(s, 0)
            &&& !mark(s[6]) && !mark(s[7]) ==> !date_starts(s, 0)
        }),
{
}

/// A date with a time of day is the point in time that it denotes, a date alone the start of its
/// day, each day a day's seconds after the one before, and what denotes no date a text. Hyphens,
/// slashes and full stops in a date are all the same.
pub proof fn lemma_dates_are_points_in_time(text: Seq<char>, plain: Seq<char>)
    requires
        plain.len() == text.len(),
        forall|k: int|
            0 <= k < text.len() ==> plain[k] == (if text[k] == '/' || text[k] == '.' {
                '-'
            } else {
                #[trigger] text[k]
            }),
    ensures
        ({
            let timed = chrono_parse_datetime(plain, "%Y-%m-%d %H:%M:%S"@);
            let day = chrono_parse_date(trimmed(plain), "%Y-%m-%d"@);
            &&& timed matches Some((secs, nanos)) ==> date_token(text) == TokenView::Time(
                DateTime { secs, nanos },
            )
            &&& timed is None ==> (day matches Some(d) ==> date_token(text) matches TokenView::Time(
                at,
            ) && at.secs == (d - 719_163) * 86_400 && at.nanos == 0)
            &&& timed is None && day is None ==> date_token(text) == TokenView::Str(text)
        }),
{
    assert(hyphenated(text) =~= plain);
    assert(DATETIME_LAYOUT@ == "%Y-%m-%d %H:%M:%S"@);
}

/// A number that 64 bits cannot hold is refused, not cut.
pub proof fn lemma_large_numbers_are_refused(digits: Seq<char>)
    requires
        digits.len() > 0,
        all_digits(digits),
        digits_value(digits) > 0x7fff_ffff_ffff_ffff,
    ensures
        tokens_of(digits) is None,
{
    let none = Seq::<char>::empty();
    let n = digits.len() as int;
    assert(digits + none =~= digits);
    assert(is_digit(digits[0]));
    assert(blanks_end(digits, 0) == 0);
    lemma_digits_then(digits, none, 0);
    lemma_digits_then(digits, none, 1);
    assert(letters_end(digits, n) == n);
    assert(spaces_end(digits, n) == n);
    assert(digits.subrange(0, n) =~= digits);
    assert(unit_bytes(digits.skip(n)) is None) by {
        assert(digits.skip(n).len() == 0);
        if unit_bytes(digits.skip(n)) is Some {
            lemma_unit_is_letters(digits.skip(n));
        }
    }
    assert(byte_count(digits) is None);
    assert(4 < n ==> is_digit(digits[4]));
    assert(number_token(digits, 0) is None);
}

// ── characters ───────────────────────────────────────────────────────────

/// What is no blank starts a token where it stands.
pub proof fn lemma_tokens_start_where_they_stand(s: Seq<char>, i: int)
    requires
        0 <= i < s.len(),
        s[i] != ' ' && s[i] != '\t' && s[i] != '\n' && s[i] != '\r' && s[i] != '\x0C',
    ensures
        match token_at(s, i) {
            Some((token, end)) => match tokens_from(s, end) {
                Some(rest) => tokens_from(s, i) == Some(seq![token] + rest),
                None => tokens_from(s, i) is None,
            },
            None => tokens_from(s, i) is None,
        },
{
    assert(blanks_end(s, i) == i);
    lemma_token_advances(s, i);
}

/// A text that is not closed runs to the end of the filter.
pub proof fn lemma_open_quotes_run_to_the_end(text: Seq<char>, quote: char)
    requires
        quote == '\'' || quote == '"',
        !text.contains(quote),
    ensures
        tokens_of(seq![quote] + text) == Some(seq![TokenView::Str(text)]),
{
    let s = seq![quote] + text;
    let n = s.len() as int;
    assert forall|k: int| 1 <= k < n implies s[k] != quote by {
        assert(s[k] == text[k - 1]);
    }
    lemma_no_quote_reached(s, 1, quote);
    assert(s.subrange(1, n) =~= text);
    lemma_alone(s, TokenView::Str(text));
}

proof fn lemma_no_quote_reached(s: Seq<char>, i: int, quote: char)
    requires
        0 <= i <= s.len(),
        forall|k: int| i <= k < s.len() ==> s[k] != quote,
    ensures
        quote_at(s, i, quote) == s.len(),
    decreases s.len() - i,
{
    if i < s.len() {
        lemma_no_quote_reached(s, i + 1, quote);
    }
}

/// A date is read as far as digits, hyphens, full stops, slashes, spaces and colons go, and no
/// further.
pub proof fn lemma_dates_are_read_whole(s: Seq<char>, e: int)
    requires
        date_starts(s, 0),
        '0' <= s[0] && s[0] <= '9',
        1 <= e <= s.len(),
        forall|k: int|
            1 <= k < e ==> ('0' <= #[trigger] s[k] && s[k] <= '9') || s[k] == '-' || s[k] == '.'
                || s[k] == '/' || s[k] == ' ' || s[k] == ':',
        e < s.len() ==> !('0' <= s[e] && s[e] <= '9') && s[e] != '-' && s[e] != '.' && s[e] != '/'
            && s[e] != ' ' && s[e] != ':',
    ensures
        token_at(s, 0) == Some((date_token(s.take(e)), e)),
{
    lemma_date_reaches(s, 1, e);
    assert(s.subrange(0, e) =~= s.take(e));
}

proof fn lemma_date_reaches(s: Seq<char>, i: int, e: int)
    requires
        0 <= i <= e <= s.len(),
        forall|k: int|
            i <= k < e ==> ('0' <= #[trigger] s[k] && s[k] <= '9') || s[k] == '-' || s[k] == '.'
                || s[k] == '/' || s[k] == ' ' || s[k] == ':',
        e < s.len() ==> !('0' <= s[e] && s[e] <= '9') && s[e] != '-' && s[e] != '.' && s[e] != '/'
            && s[e] != ' ' && s[e] != ':',
    ensures
        date_end(s, i) == e,
    decreases e - i,
{
    if i < e {
        assert(('0' <= s[i] && s[i] <= '9') || s[i] == '-' || s[i] == '.' || s[i] == '/' || s[i]
            == ' ' || s[i] == ':');
        lemma_date_reaches(s, i + 1, e);
    }
}

/// Digits are read as the number that they denote, and letters behind them that are no unit start
/// a token of their own.
pub proof fn lemma_numbers_end_before_other_letters(n: u64, rest: Seq<char>)
    requires
        n <= i64::MAX,
        rest.len() > 0,
        rest[0] == ' ' || rest[0] == ')' || rest[0] == '+' || rest[0] == '*' || rest[0] == '<'
            || rest[0] == '>' || rest[0] == '=' || rest[0] == '!',
    ensures
        token_at(decimal(n as nat) + rest, 0) == Some(
            (TokenView::Num(n as i64), decimal(n as nat).len() as int),
        ),
{
    let digits = decimal(n as nat);
    let s = digits + rest;
    let d = digits.len() as int;
    lemma_decimal_value(n as nat);
    assert(s[0] == digits[0] && is_digit(digits[0]));
    lemma_digits_then(digits, rest, 0);
    lemma_digits_then(digits, rest, 1);
    assert(s[d] == rest[0]);
    assert(letters_end(s, d) == d);
    assert(s.subrange(0, d) =~= digits);
    assert(digits_end(digits, 0) == d) by {
        let none = Seq::<char>::empty();
        assert(digits + none =~= digits);
        lemma_digits_then(digits, none, 0);
    }
    assert(spaces_end(digits, d) == d);
    assert(unit_bytes(digits.skip(d)) is None) by {
        assert(digits.skip(d).len() == 0);
        if unit_bytes(digits.skip(d)) is Some {
            lemma_unit_is_letters(digits.skip(d));
        }
    }
    assert(byte_count(digits) is None);
    assert(!date_starts(s, 0)) by {
        if d > 4 {
            assert(s[4] == digits[4] && is_digit(digits[4]));
        } else if d == 4 {
            assert(s[4] == rest[0]);
        } else if 0 < d < 4 {
            assert(s[d] == rest[0]);
        }
    }
    assert(number_token(s, 0) == Some((TokenView::Num(n as i64), d)));
}

/// A word of another script than Latin is a name as well, unless its upper case is a connective.
pub proof fn lemma_names_of_any_script(s: Seq<char>)
    requires
        s.len() > 0,
        !is_ascii_chars(s),
        s[0] as u32 >= 128,
        unicode_alphabetic(s[0]),
        forall|k: int|
            0 <= k < s.len() ==> in_name(#[trigger] s[k]) || (s[k] as u32 >= 128
                && unicode_alphanumeric(s[k])),
        unicode_uppercase(s) != "AND"@,
        unicode_uppercase(s) != "OR"@,
    ensures
        tokens_of(s) == Some(seq![TokenView::Name(s)]),
{
    let n = s.len() as int;
    lemma_word_to_the_end(s, 1);
    assert(s.subrange(0, n) =~= s);
    lemma_alone(s, TokenView::Name(s));
}

proof fn lemma_word_to_the_end(s: Seq<char>, i: int)
    requires
        0 <= i <= s.len(),
        forall|k: int|
            0 <= k < s.len() ==> in_name(#[trigger] s[k]) || (s[k] as u32 >= 128
                && unicode_alphanumeric(s[k])),
    ensures
        name_end(s, i) == s.len(),
    decreases s.len() - i,
{
    if i < s.len() {
        assert(in_name(s[i]) || (s[i] as u32 >= 128 && unicode_alphanumeric(s[i])));
        lemma_word_to_the_end(s, i + 1);
    }
}

} // verus!
