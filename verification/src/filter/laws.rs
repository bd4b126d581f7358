//! What holds of every filter.

use vstd::prelude::*;

use crate::calendar::DateTime;
use crate::filter::lexer::{
    as_signed, blanks_end, date_end, date_starts, date_token, in_date, is_blank,
    lemma_token_advances, letters_end, number_token, token_at, tokens_from, tokens_of, TokenView,
};
use crate::filter::number::{
    int_compares, lemma_even_division, lemma_small_ints_arithmetic, lemma_small_ints_compare,
    ArithOp, CompareOp, Num, DOUBLE_LIMIT,
};
use crate::filter::parser::{
    add_expr, add_op, add_rest, and_expr, and_rest, comp, comp_rest, expression, mul_expr, mul_op,
    mul_rest, or_expr, or_rest, primary, token_here, unary, FaultView, Outcome, Scope,
};
use crate::filter::value::{
    both, either, text_compares, value_compares, value_result, ValueView,
};
use crate::format::{byte_count, unit_bytes};
use crate::pattern::regex_is_match;
use crate::text::{
    all_digits, digits_end, digits_value, is_ascii_letter, is_digit,
    lemma_first_difference_decides, lemma_text_lt_total, lemma_text_lt_transitive, spaces_end,
};

verus! {

pub(crate) proof fn lemma_digits_then(digits: Seq<char>, rest: Seq<char>, i: int)
    requires
        all_digits(digits),
        0 <= i <= digits.len(),
        rest.len() > 0 ==> !is_digit(rest[0]),
    ensures
        digits_end(digits + rest, i) == digits.len(),
    decreases digits.len() - i,
{
    let s = digits + rest;
    if i < digits.len() {
        assert(s[i] == digits[i]);
        lemma_digits_then(digits, rest, i + 1);
    } else if rest.len() > 0 {
        assert(s[i] == rest[0]);
    }
}

proof fn lemma_letters_to_the_end(s: Seq<char>, i: int)
    requires
        0 <= i <= s.len(),
        forall|k: int| i <= k < s.len() ==> is_ascii_letter(#[trigger] s[k]),
    ensures
        letters_end(s, i) == s.len(),
    decreases s.len() - i,
{
    if i < s.len() {
        lemma_letters_to_the_end(s, i + 1);
    }
}

pub(crate) proof fn lemma_unit_is_letters(unit: Seq<char>)
    requires
        unit_bytes(unit) is Some,
    ensures
        1 <= unit.len(),
        forall|k: int| 0 <= k < unit.len() ==> is_ascii_letter(#[trigger] unit[k]),
{
    reveal_strlit("B");
    reveal_strlit("KB");
    reveal_strlit("MB");
    reveal_strlit("GB");
    reveal_strlit("TB");
    reveal_strlit("PB");
}

/// A number with a unit behind it is a single number: as many times the unit.
pub proof fn lemma_size_is_one_number(digits: Seq<char>, unit: Seq<char>)
    requires
        digits.len() > 0,
        all_digits(digits),
        digits_value(digits) <= u64::MAX,
        unit_bytes(unit) is Some,
        digits_value(digits) * unit_bytes(unit)->0 <= u64::MAX,
    ensures
        tokens_of(digits + unit) == Some(
            seq![TokenView::Num(as_signed(digits_value(digits) * unit_bytes(unit)->0))],
        ),
{
    let s = digits + unit;
    let n = digits.len() as int;
    lemma_unit_is_letters(unit);
    assert(is_digit(s[0])) by {
        assert(s[0] == digits[0]);
    }
    assert(blanks_end(s, 0) == 0);
    lemma_digits_then(digits, unit, 0);
    lemma_digits_then(digits, unit, 1);
    assert forall|k: int| n <= k < s.len() implies is_ascii_letter(#[trigger] s[k]) by {
        assert(s[k] == unit[k - n]);
    }
    lemma_letters_to_the_end(s, n);
    assert(spaces_end(s, n) == n);
    assert(s.take(n) =~= digits);
    assert(s.skip(n) =~= unit);
    assert(s.subrange(0, s.len() as int) =~= s);
    assert(byte_count(s) == Some(digits_value(digits) * unit_bytes(unit)->0));
    assert(4 < s.len() ==> is_digit(s[4]) || is_ascii_letter(s[4])) by {
        if 4 < n {
            assert(s[4] == digits[4]);
        }
    }
    let num = TokenView::Num(as_signed(digits_value(digits) * unit_bytes(unit)->0));
    assert(number_token(s, 0) == Some((num, s.len() as int)));
    assert(token_at(s, 0) == Some((num, s.len() as int)));
    assert(tokens_from(s, s.len() as int) == Some(Seq::<TokenView>::empty()));
    assert(seq![num] + Seq::<TokenView>::empty() =~= seq![num]);
}

/// Digits alone are the number that they denote.
pub proof fn lemma_digits_are_one_number(digits: Seq<char>)
    requires
        digits.len() > 0,
        all_digits(digits),
        digits_value(digits) <= i64::MAX,
    ensures
        tokens_of(digits) == Some(seq![TokenView::Num(digits_value(digits) as i64)]),
{
    let none = Seq::<char>::empty();
    let n = digits.len() as int;
    assert(digits + none =~= digits);
    assert(is_digit(digits[0]));
    assert(blanks_end(digits, 0) == 0);
    lemma_digits_then(digits, none, 0);
    lemma_digits_then(digits, none, 1);
    assert(letters_end(digits, n) == n);
    assert(spaces_end(digits, n) == n);
    assert(digits.subrange(0, n) =~= digits);
    assert(unit_bytes(digits.skip(n)) is None) by {
        assert(digits.skip(n).len() == 0);
        if unit_bytes(digits.skip(n)) is Some {
            lemma_unit_is_letters(digits.skip(n));
        }
    }
    assert(byte_count(digits) is None);
    assert(4 < n ==> is_digit(digits[4]));
    let num = TokenView::Num(digits_value(digits) as i64);
    assert(number_token(digits, 0) == Some((num, n)));
    assert(token_at(digits, 0) == Some((num, n)));
    assert(tokens_from(digits, n) == Some(Seq::<TokenView>::empty()));
    assert(seq![num] + Seq::<TokenView>::empty() =~= seq![num]);
}

proof fn lemma_tokens_have_no_end(s: Seq<char>, i: int)
    requires
        0 <= i <= s.len(),
    ensures
        tokens_from(s, i) matches Some(t) ==> forall|k: int|
            0 <= k < t.len() ==> !(#[trigger] t[k] is Eof),
    decreases s.len() - i,
{
    let j = blanks_end(s, i);
    if i <= j < s.len() {
        lemma_token_advances(s, j);
        if let Some((token, end)) = token_at(s, j) {
            lemma_tokens_have_no_end(s, end);
        }
    }
}

/// The rest of a text holds no token if and only if it is blank, and so it is at the end.
pub proof fn lemma_blank_rest_is_the_end(s: Seq<char>, i: int)
    requires
        0 <= i <= s.len(),
    ensures
        blanks_end(s, i) == s.len() <==> forall|k: int| i <= k < s.len() ==> is_blank(#[trigger] s[k]),
        blanks_end(s, s.len() as int) == s.len(),
    decreases s.len() - i,
{
    if i < s.len() && is_blank(s[i]) {
        lemma_blank_rest_is_the_end(s, i + 1);
        if blanks_end(s, i) == s.len() {
            assert forall|k: int| i <= k < s.len() implies is_blank(#[trigger] s[k]) by {
                if k > i {
                    assert(i + 1 <= k);
                }
            }
        }
    }
}

/// A text has no more tokens than characters.
pub proof fn lemma_tokens_take_characters(s: Seq<char>, i: int)
    requires
        0 <= i <= s.len(),
    ensures
        tokens_from(s, i) matches Some(t) ==> t.len() <= s.len() - i,
    decreases s.len() - i,
{
    let j = blanks_end(s, i);
    if i <= j < s.len() {
        lemma_token_advances(s, j);
        if let Some((token, end)) = token_at(s, j) {
            lemma_tokens_take_characters(s, end);
        }
    }
}

proof fn lemma_date_to_the_end(s: Seq<char>, i: int)
    requires
        0 <= i <= s.len(),
        forall|k: int| i <= k < s.len() ==> in_date(#[trigger] s[k]),
    ensures
        date_end(s, i) == s.len(),
    decreases s.len() - i,
{
    if i < s.len() {
        lemma_date_to_the_end(s, i + 1);
    }
}

/// A date, with a time of day or without, is a single token: what the whole of its text denotes.
pub proof fn lemma_date_is_one_token(s: Seq<char>)
    requires
        date_starts(s, 0),
        is_digit(s[0]),
        forall|k: int| 0 <= k < s.len() ==> in_date(#[trigger] s[k]),
    ensures
        tokens_of(s) == Some(seq![date_token(s)]),
{
    let n = s.len() as int;
    assert(blanks_end(s, 0) == 0);
    lemma_date_to_the_end(s, 1);
    assert(s.subrange(0, n) =~= s);
    assert(token_at(s, 0) == Some((date_token(s), n)));
    assert(tokens_from(s, n) == Some(Seq::<TokenView>::empty()));
    assert(seq![date_token(s)] + Seq::<TokenView>::empty() =~= seq![date_token(s)]);
}

/// A text has a value only if the expression takes in all of its tokens.
pub proof fn lemma_value_takes_all_tokens(sc: Scope, text: Seq<char>)
    requires
        tokens_of(text) is Some,
        expression(sc, tokens_of(text)->0, 0).0 is Value,
    ensures
        !(0 <= expression(sc, tokens_of(text)->0, 0).1 < tokens_of(text)->0.len()),
{
    lemma_tokens_have_no_end(text, 0);
}

/// A single operand is its own value, whatever stands around it in the grammar.
proof fn lemma_operand(sc: Scope, t: Seq<TokenView>, p: int, v: ValueView)
    requires
        0 <= p < t.len(),
        !(t[p] is Minus),
        primary(sc, t, p) == (Outcome::Value(v), p + 1),
        p + 1 < t.len() ==> t[p + 1] is Compare,
    ensures
        add_expr(sc, t, p) == (Outcome::Value(v), p + 1),
{
    assert(unary(sc, t, p) == primary(sc, t, p));
    assert(mul_rest(sc, t, p + 1, v) == (Outcome::Value(v), p + 1));
    assert(mul_expr(sc, t, p) == (Outcome::Value(v), p + 1));
    assert(add_rest(sc, t, p + 1, v) == (Outcome::Value(v), p + 1));
}

/// A variable that holds an integer compares with an integer as integers do, as far as both are
/// within the range in which double precision is exact.
pub proof fn lemma_variable_compares_with_number(
    sc: Scope,
    name: Seq<char>,
    v: i64,
    op: CompareOp,
    n: i64,
)
    requires
        sc.vars.contains_key(name),
        sc.vars[name] == ValueView::Int(v),
        -DOUBLE_LIMIT <= v <= DOUBLE_LIMIT,
        -DOUBLE_LIMIT <= n <= DOUBLE_LIMIT,
    ensures
        expression(
            sc,
            seq![TokenView::Name(name), TokenView::Compare(op), TokenView::Num(n)],
            0,
        ).0 == Outcome::Value(
            ValueView::Bool(
                match op {
                    CompareOp::Eq => v == n,
                    CompareOp::Ne => v != n,
                    CompareOp::Gt => v > n,
                    CompareOp::Lt => v < n,
                    CompareOp::Ge => v >= n,
                    CompareOp::Le => v <= n,
                },
            ),
        ),
{
    let t = seq![TokenView::Name(name), TokenView::Compare(op), TokenView::Num(n)];
    let l = ValueView::Int(v);
    let r = ValueView::Int(n);
    lemma_operand(sc, t, 0, l);
    lemma_operand(sc, t, 2, r);
    lemma_small_ints_compare(op, v as int, n as int);
    let b = ValueView::Bool(int_compares(op, v as int, n as int));
    assert(comp_rest(sc, t, 3, b) == (Outcome::Value(b), 3int));
    assert(comp_rest(sc, t, 1, l) == (Outcome::Value(b), 3int));
    assert(comp(sc, t, 0) == (Outcome::Value(b), 3int));
    assert(and_rest(sc, t, 3, b) == (Outcome::Value(b), 3int));
    assert(and_expr(sc, t, 0) == (Outcome::Value(b), 3int));
    assert(or_rest(sc, t, 3, b) == (Outcome::Value(b), 3int));
    assert(or_expr(sc, t, 0) == (Outcome::Value(b), 3int));
}

// ── parentheses ──────────────────────────────────────────────────────────

/// The tokens `t` stand in `u` from position `k` on.
spec fn embedded(t: Seq<TokenView>, u: Seq<TokenView>, k: int) -> bool {
    &&& 0 <= k
    &&& k + t.len() <= u.len()
    &&& u.subrange(k, k + t.len()) == t
}

/// The tokens `t` stand in `u` from position `k` on, with a closing parenthesis behind them.
spec fn enclosed(t: Seq<TokenView>, u: Seq<TokenView>, k: int) -> bool {
    &&& 0 <= k
    &&& k + t.len() < u.len()
    &&& u.subrange(k, k + t.len()) == t
    &&& u[k + t.len()] is RParen
}

/// The token behind the tokens `t` in `u`.
spec fn follower(t: Seq<TokenView>, u: Seq<TokenView>, k: int) -> TokenView {
    token_here(u, k + t.len())
}

/// Whether a product ends before the token.
spec fn ends_product(f: TokenView) -> bool {
    !(f is Star) && !(f is Slash)
}

/// Whether a sum ends before the token.
spec fn ends_sum(f: TokenView) -> bool {
    ends_product(f) && !(f is Plus) && !(f is Minus)
}

/// Whether a comparison ends before the token.
spec fn ends_comparison(f: TokenView) -> bool {
    ends_sum(f) && !(f is Compare)
}

/// Whether a conjunction ends before the token.
spec fn ends_conjunction(f: TokenView) -> bool {
    ends_comparison(f) && !(f is And)
}

/// Whether a disjunction ends before the token.
spec fn ends_disjunction(f: TokenView) -> bool {
    ends_conjunction(f) && !(f is Or)
}

proof fn lemma_token_stands_apart(t: Seq<TokenView>, u: Seq<TokenView>, k: int, p: int)
    requires
        embedded(t, u, k),
        0 <= p <= t.len(),
    ensures
        p < t.len() ==> token_here(u, p + k) == token_here(t, p),
        p == t.len() ==> token_here(u, p + k) == follower(t, u, k) && token_here(t, p) is Eof,
{
    if p < t.len() {
        assert(u.subrange(k, k + t.len())[p] == u[k + p]);
    }
}

#[verifier::spinoff_prover]
#[verifier::rlimit(60)]
proof fn lemma_primary_stands_apart(
    sc: Scope,
    t: Seq<TokenView>,
    u: Seq<TokenView>,
    k: int,
    p: int,
)
    requires
        embedded(t, u, k),
        0 <= p <= t.len(),
    ensures
        primary(sc, t, p).0 is Value ==> {
            let (o, q) = primary(sc, t, p);
            p < q <= t.len() && primary(sc, u, p + k) == (o, q + k)
        },
    decreases t.len() - p, 0nat,
{
    lemma_token_stands_apart(t, u, k, p);
    if token_here(t, p) is LParen {
        lemma_or_expr_stands_apart(sc, t, u, k, p + 1);
        let (o, q) = or_expr(sc, t, p + 1);
        if o is Value {
            lemma_token_stands_apart(t, u, k, q);
        }
    }
}

#[verifier::spinoff_prover]
#[verifier::rlimit(60)]
proof fn lemma_unary_stands_apart(
    sc: Scope,
    t: Seq<TokenView>,
    u: Seq<TokenView>,
    k: int,
    p: int,
)
    requires
        embedded(t, u, k),
        0 <= p <= t.len(),
    ensures
        unary(sc, t, p).0 is Value ==> {
            let (o, q) = unary(sc, t, p);
            p < q <= t.len() && unary(sc, u, p + k) == (o, q + k)
        },
    decreases t.len() - p, 1nat,
{
    lemma_token_stands_apart(t, u, k, p);
    if token_here(t, p) is Minus {
        lemma_unary_stands_apart(sc, t, u, k, p + 1);
    } else {
        lemma_primary_stands_apart(sc, t, u, k, p);
    }
}

#[verifier::spinoff_prover]
#[verifier::rlimit(60)]
proof fn lemma_mul_expr_stands_apart(
    sc: Scope,
    t: Seq<TokenView>,
    u: Seq<TokenView>,
    k: int,
    p: int,
)
    requires
        embedded(t, u, k),
        0 <= p <= t.len(),
    ensures
        mul_expr(sc, t, p).0 is Value ==> {
            let (o, q) = mul_expr(sc, t, p);
            &&& p < q <= t.len()
            &&& q < t.len() || ends_product(follower(t, u, k)) ==> mul_expr(sc, u, p + k) == (o, q + k)
        },
    decreases t.len() - p, 2nat,
{
    lemma_unary_stands_apart(sc, t, u, k, p);
    let (o, q) = unary(sc, t, p);
    if let Outcome::Value(l) = o {
        lemma_mul_rest_stands_apart(sc, t, u, k, q, l);
    }
}

#[verifier::spinoff_prover]
#[verifier::rlimit(60)]
proof fn lemma_mul_rest_stands_apart(
    sc: Scope,
    t: Seq<TokenView>,
    u: Seq<TokenView>,
    k: int,
    p: int,
    l: ValueView,
)
    requires
        embedded(t, u, k),
        0 <= p <= t.len(),
    ensures
        mul_rest(sc, t, p, l).0 is Value ==> {
            let (o, q) = mul_rest(sc, t, p, l);
            &&& p <= q <= t.len()
            &&& q < t.len() || ends_product(follower(t, u, k)) ==> mul_rest(sc, u, p + k, l) == (o, q + k)
        },
    decreases t.len() - p, 0nat,
{
    lemma_token_stands_apart(t, u, k, p);
    if mul_op(token_here(t, p)) is Some {
        lemma_unary_stands_apart(sc, t, u, k, p + 1);
        let (o, q) = unary(sc, t, p + 1);
        if let Outcome::Value(r) = o {
            lemma_mul_rest_stands_apart(sc, t, u, k, q, value_result(sc.arith, mul_op(token_here(t, p))->0, l, r));
        }
    }
}

#[verifier::spinoff_prover]
#[verifier::rlimit(60)]
proof fn lemma_add_expr_stands_apart(
    sc: Scope,
    t: Seq<TokenView>,
    u: Seq<TokenView>,
    k: int,
    p: int,
)
    requires
        embedded(t, u, k),
        0 <= p <= t.len(),
    ensures
        add_expr(sc, t, p).0 is Value ==> {
            let (o, q) = add_expr(sc, t, p);
            &&& p < q <= t.len()
            &&& q < t.len() || ends_sum(follower(t, u, k)) ==> add_expr(sc, u, p + k) == (o, q + k)
        },
    decreases t.len() - p, 3nat,
{
    lemma_mul_expr_stands_apart(sc, t, u, k, p);
    let (o, q) = mul_expr(sc, t, p);
    if let Outcome::Value(l) = o {
        lemma_add_rest_stands_apart(sc, t, u, k, q, l);
    }
}

#[verifier::spinoff_prover]
#[verifier::rlimit(60)]
proof fn lemma_add_rest_stands_apart(
    sc: Scope,
    t: Seq<TokenView>,
    u: Seq<TokenView>,
    k: int,
    p: int,
    l: ValueView,
)
    requires
        embedded(t, u, k),
        0 <= p <= t.len(),
    ensures
        add_rest(sc, t, p, l).0 is Value ==> {
            let (o, q) = add_rest(sc, t, p, l);
            &&& p <= q <= t.len()
            &&& q < t.len() || ends_sum(follower(t, u, k)) ==> add_rest(sc, u, p + k, l) == (o, q + k)
        },
    decreases t.len() - p, 0nat,
{
    lemma_token_stands_apart(t, u, k, p);
    if add_op(token_here(t, p)) is Some {
        lemma_mul_expr_stands_apart(sc, t, u, k, p + 1);
        let (o, q) = mul_expr(sc, t, p + 1);
        if let Outcome::Value(r) = o {
            lemma_add_rest_stands_apart(sc, t, u, k, q, value_result(sc.arith, add_op(token_here(t, p))->0, l, r));
        }
    }
}

#[verifier::spinoff_prover]
#[verifier::rlimit(60)]
proof fn lemma_comp_stands_apart(
    sc: Scope,
    t: Seq<TokenView>,
    u: Seq<TokenView>,
    k: int,
    p: int,
)
    requires
        embedded(t, u, k),
        0 <= p <= t.len(),
    ensures
        comp(sc, t, p).0 is Value ==> {
            let (o, q) = comp(sc, t, p);
            &&& p < q <= t.len()
            &&& q < t.len() || ends_comparison(follower(t, u, k)) ==> comp(sc, u, p + k) == (o, q + k)
        },
    decreases t.len() - p, 4nat,
{
    lemma_add_expr_stands_apart(sc, t, u, k, p);
    let (o, q) = add_expr(sc, t, p);
    if let Outcome::Value(l) = o {
        lemma_comp_rest_stands_apart(sc, t, u, k, q, l);
    }
}

#[verifier::spinoff_prover]
#[verifier::rlimit(60)]
proof fn lemma_comp_rest_stands_apart(
    sc: Scope,
    t: Seq<TokenView>,
    u: Seq<TokenView>,
    k: int,
    p: int,
    l: ValueView,
)
    requires
        embedded(t, u, k),
        0 <= p <= t.len(),
    ensures
        comp_rest(sc, t, p, l).0 is Value ==> {
            let (o, q) = comp_rest(sc, t, p, l);
            &&& p <= q <= t.len()
            &&& q < t.len() || ends_comparison(follower(t, u, k)) ==> comp_rest(sc, u, p + k, l) == (o, q + k)
        },
    decreases t.len() - p, 0nat,
{
    lemma_token_stands_apart(t, u, k, p);
    if let TokenView::Compare(op) = token_here(t, p) {
        lemma_add_expr_stands_apart(sc, t, u, k, p + 1);
        let (o, q) = add_expr(sc, t, p + 1);
        if let Outcome::Value(r) = o {
            lemma_comp_rest_stands_apart(sc, t, u, k, q, ValueView::Bool(value_compares(sc.compare, op, l, r)));
        }
    }
}

#[verifier::spinoff_prover]
#[verifier::rlimit(60)]
proof fn lemma_and_expr_stands_apart(
    sc: Scope,
    t: Seq<TokenView>,
    u: Seq<TokenView>,
    k: int,
    p: int,
)
    requires
        embedded(t, u, k),
        0 <= p <= t.len(),
    ensures
        and_expr(sc, t, p).0 is Value ==> {
            let (o, q) = and_expr(sc, t, p);
            &&& p < q <= t.len()
            &&& q < t.len() || ends_conjunction(follower(t, u, k)) ==> and_expr(sc, u, p + k) == (o, q + k)
        },
    decreases t.len() - p, 5nat,
{
    lemma_comp_stands_apart(sc, t, u, k, p);
    let (o, q) = comp(sc, t, p);
    if let Outcome::Value(l) = o {
        lemma_and_rest_stands_apart(sc, t, u, k, q, l);
    }
}

#[verifier::spinoff_prover]
#[verifier::rlimit(60)]
proof fn lemma_and_rest_stands_apart(
    sc: Scope,
    t: Seq<TokenView>,
    u: Seq<TokenView>,
    k: int,
    p: int,
    l: ValueView,
)
    requires
        embedded(t, u, k),
        0 <= p <= t.len(),
    ensures
        and_rest(sc, t, p, l).0 is Value ==> {
            let (o, q) = and_rest(sc, t, p, l);
            &&& p <= q <= t.len()
            &&& q < t.len() || ends_conjunction(follower(t, u, k)) ==> and_rest(sc, u, p + k, l) == (o, q + k)
        },
    decreases t.len() - p, 0nat,
{
    lemma_token_stands_apart(t, u, k, p);
    if token_here(t, p) is And {
        lemma_comp_stands_apart(sc, t, u, k, p + 1);
        let (o, q) = comp(sc, t, p + 1);
        if let Outcome::Value(r) = o {
            lemma_and_rest_stands_apart(sc, t, u, k, q, both(l, r));
        }
    }
}

#[verifier::spinoff_prover]
#[verifier::rlimit(60)]
proof fn lemma_or_expr_stands_apart(
    sc: Scope,
    t: Seq<TokenView>,
    u: Seq<TokenView>,
    k: int,
    p: int,
)
    requires
        embedded(t, u, k),
        0 <= p <= t.len(),
    ensures
        or_expr(sc, t, p).0 is Value ==> {
            let (o, q) = or_expr(sc, t, p);
            &&& p < q <= t.len()
            &&& q < t.len() || ends_disjunction(follower(t, u, k)) ==> or_expr(sc, u, p + k) == (o, q + k)
        },
    decreases t.len() - p, 6nat,
{
    lemma_and_expr_stands_apart(sc, t, u, k, p);
    let (o, q) = and_expr(sc, t, p);
    if let Outcome::Value(l) = o {
        lemma_or_rest_stands_apart(sc, t, u, k, q, l);
    }
}

#[verifier::spinoff_prover]
#[verifier::rlimit(60)]
proof fn lemma_or_rest_stands_apart(
    sc: Scope,
    t: Seq<TokenView>,
    u: Seq<TokenView>,
    k: int,
    p: int,
    l: ValueView,
)
    requires
        embedded(t, u, k),
        0 <= p <= t.len(),
    ensures
        or_rest(sc, t, p, l).0 is Value ==> {
            let (o, q) = or_rest(sc, t, p, l);
            &&& p <= q <= t.len()
            &&& q < t.len() || ends_disjunction(follower(t, u, k)) ==> or_rest(sc, u, p + k, l) == (o, q + k)
        },
    decreases t.len() - p, 0nat,
{
    lemma_token_stands_apart(t, u, k, p);
    if token_here(t, p) is Or {
        lemma_and_expr_stands_apart(sc, t, u, k, p + 1);
        let (o, q) = and_expr(sc, t, p + 1);
        if let Outcome::Value(r) = o {
            lemma_or_rest_stands_apart(sc, t, u, k, q, either(l, r));
        }
    }
}

/// What is alone in its tokens is a sum of its own.
proof fn lemma_alone_is_sum(sc: Scope, t: Seq<TokenView>, v: ValueView)
    requires
        t.len() > 0,
        unary(sc, t, 0) == (Outcome::Value(v), t.len() as int),
    ensures
        add_expr(sc, t, 0) == (Outcome::Value(v), t.len() as int),
{
    let n = t.len() as int;
    assert(mul_rest(sc, t, n, v) == (Outcome::Value(v), n));
    assert(mul_expr(sc, t, 0) == (Outcome::Value(v), n));
    assert(add_rest(sc, t, n, v) == (Outcome::Value(v), n));
}

/// What is alone in its tokens is the whole expression.
proof fn lemma_alone_is_expression(sc: Scope, t: Seq<TokenView>, v: ValueView)
    requires
        t.len() > 0,
        add_expr(sc, t, 0) == (Outcome::Value(v), t.len() as int),
    ensures
        expression(sc, t, 0) == (Outcome::Value(v), t.len() as int),
{
    let n = t.len() as int;
    assert(comp_rest(sc, t, n, v) == (Outcome::Value(v), n));
    assert(comp(sc, t, 0) == (Outcome::Value(v), n));
    assert(and_rest(sc, t, n, v) == (Outcome::Value(v), n));
    assert(and_expr(sc, t, 0) == (Outcome::Value(v), n));
    assert(or_rest(sc, t, n, v) == (Outcome::Value(v), n));
}

/// A group that takes up all tokens is one operand.
#[verifier::spinoff_prover]
#[verifier::rlimit(60)]
proof fn lemma_group_is_operand(sc: Scope, u: Seq<TokenView>, v: ValueView)
    requires
        u.len() > 2,
        u[0] is LParen,
        u.last() is RParen,
        or_expr(sc, u, 1) == (Outcome::Value(v), u.len() - 1),
    ensures
        unary(sc, u, 0) == (Outcome::Value(v), u.len() as int),
{
    assert(token_here(u, 0) is LParen);
    assert(token_here(u, u.len() - 1) is RParen);
    assert(primary(sc, u, 0) == (Outcome::Value(v), u.len() as int));
}

#[verifier::spinoff_prover]
#[verifier::rlimit(60)]
proof fn lemma_expression_takes_all(sc: Scope, t: Seq<TokenView>, u: Seq<TokenView>)
    requires
        enclosed(t, u, 1),
        expression(sc, t, 0).0 is Value,
        forall|i: int| 0 <= i < t.len() ==> !(#[trigger] t[i] is Eof),
    ensures
        or_expr(sc, u, 1) == (expression(sc, t, 0).0, t.len() as int + 1),
{
    lemma_or_expr_stands_apart(sc, t, u, 1, 0);
    let q = or_expr(sc, t, 0).1;
    assert(token_here(t, q) is Eof);
}

/// An expression in parentheses has the value that it has without them.
#[verifier::spinoff_prover]
#[verifier::rlimit(60)]
pub proof fn lemma_parentheses_keep_the_value(sc: Scope, t: Seq<TokenView>)
    requires
        expression(sc, t, 0).0 is Value,
        forall|i: int| 0 <= i < t.len() ==> !(#[trigger] t[i] is Eof),
    ensures
        expression(sc, seq![TokenView::LParen] + t + seq![TokenView::RParen], 0).0 == expression(
            sc,
            t,
            0,
        ).0,
{
    let u = seq![TokenView::LParen] + t + seq![TokenView::RParen];
    assert(u.subrange(1, 1 + t.len() as int) =~= t);
    lemma_expression_takes_all(sc, t, u);
    let v = expression(sc, t, 0).0->Value_0;
    assert(t.len() > 0) by {
        if t.len() == 0 {
            lemma_or_expr_stands_apart(sc, t, u, 1, 0);
        }
    }
    lemma_group_is_operand(sc, u, v);
    lemma_alone_is_sum(sc, u, v);
    lemma_alone_is_expression(sc, u, v);
}

// ── connectives ──────────────────────────────────────────────────────────

/// The tokens are a comparison, or an operand alone, with this value.
pub open spec fn is_comparison(sc: Scope, t: Seq<TokenView>, v: ValueView) -> bool {
    t.len() > 0 && comp(sc, t, 0) == (Outcome::Value(v), t.len() as int)
}

/// Two runs of tokens with one token between them.
pub open spec fn between(l: Seq<TokenView>, token: TokenView, r: Seq<TokenView>) -> Seq<TokenView> {
    l + seq![token] + r
}

proof fn lemma_between(l: Seq<TokenView>, token: TokenView, r: Seq<TokenView>)
    ensures
        embedded(l, between(l, token, r), 0),
        follower(l, between(l, token, r), 0) == token,
        embedded(r, between(l, token, r), l.len() as int + 1),
        follower(r, between(l, token, r), l.len() as int + 1) is Eof,
        token_here(between(l, token, r), l.len() as int) == token,
        between(l, token, r).len() == l.len() + 1 + r.len(),
{
    let u = between(l, token, r);
    assert(u.subrange(0, l.len() as int) =~= l);
    assert(u.subrange(l.len() as int + 1, u.len() as int) =~= r);
}

/// The comparison at `p` has this value and ends at `q`.
#[verifier::opaque]
spec fn compared(sc: Scope, u: Seq<TokenView>, p: int, v: ValueView, q: int) -> bool {
    comp(sc, u, p) == (Outcome::Value(v), q)
}

/// The conjunction at `p` has this value and ends at `q`.
#[verifier::opaque]
spec fn conjoined(sc: Scope, u: Seq<TokenView>, p: int, v: ValueView, q: int) -> bool {
    and_expr(sc, u, p) == (Outcome::Value(v), q)
}

proof fn lemma_compared(sc: Scope, t: Seq<TokenView>, v: ValueView)
    requires
        is_comparison(sc, t, v),
    ensures
        compared(sc, t, 0, v, t.len() as int),
{
    reveal(compared);
}

/// A comparison keeps its value in longer tokens, in front of what ends it.
#[verifier::spinoff_prover]
#[verifier::rlimit(60)]
proof fn lemma_comparison_moves(sc: Scope, t: Seq<TokenView>, u: Seq<TokenView>, k: int, v: ValueView)
    requires
        embedded(t, u, k),
        ends_comparison(follower(t, u, k)),
        compared(sc, t, 0, v, t.len() as int),
    ensures
        compared(sc, u, k, v, t.len() + k),
{
    reveal(compared);
    lemma_comp_stands_apart(sc, t, u, k, 0);
}

/// A conjunction keeps its value in longer tokens, in front of what ends it.
#[verifier::spinoff_prover]
#[verifier::rlimit(60)]
proof fn lemma_conjunction_moves(sc: Scope, t: Seq<TokenView>, u: Seq<TokenView>, k: int, v: ValueView)
    requires
        embedded(t, u, k),
        ends_conjunction(follower(t, u, k)),
        conjoined(sc, t, 0, v, t.len() as int),
    ensures
        conjoined(sc, u, k, v, t.len() + k),
{
    reveal(conjoined);
    lemma_and_expr_stands_apart(sc, t, u, k, 0);
}

/// Two comparisons with `and` between them, up to the end of the tokens.
#[verifier::spinoff_prover]
#[verifier::rlimit(60)]
proof fn lemma_conjunction_steps(sc: Scope, u: Seq<TokenView>, p: int, v: ValueView, w: ValueView)
    requires
        0 < p < u.len(),
        token_here(u, p) is And,
        compared(sc, u, 0, v, p),
        compared(sc, u, p + 1, w, u.len() as int),
    ensures
        conjoined(sc, u, 0, both(v, w), u.len() as int),
{
    reveal(compared);
    reveal(conjoined);
    let n = u.len() as int;
    assert(token_here(u, n) is Eof);
    assert(and_rest(sc, u, n, both(v, w)) == (Outcome::Value(both(v, w)), n));
    assert(and_rest(sc, u, p, v) == (Outcome::Value(both(v, w)), n));
}

/// Two conjunctions with `or` between them, up to the end of the tokens.
#[verifier::spinoff_prover]
#[verifier::rlimit(60)]
proof fn lemma_disjunction_steps(sc: Scope, u: Seq<TokenView>, p: int, v: ValueView, w: ValueView)
    requires
        0 < p < u.len(),
        token_here(u, p) is Or,
        conjoined(sc, u, 0, v, p),
        conjoined(sc, u, p + 1, w, u.len() as int),
    ensures
        expression(sc, u, 0) == (Outcome::Value(either(v, w)), u.len() as int),
{
    reveal(conjoined);
    let n = u.len() as int;
    assert(token_here(u, n) is Eof);
    assert(or_rest(sc, u, n, either(v, w)) == (Outcome::Value(either(v, w)), n));
    assert(or_rest(sc, u, p, v) == (Outcome::Value(either(v, w)), n));
    assert(or_expr(sc, u, 0) == (Outcome::Value(either(v, w)), n));
}

proof fn lemma_conjunction(
    sc: Scope,
    l: Seq<TokenView>,
    r: Seq<TokenView>,
    v: ValueView,
    w: ValueView,
)
    requires
        l.len() > 0,
        r.len() > 0,
        compared(sc, l, 0, v, l.len() as int),
        compared(sc, r, 0, w, r.len() as int),
    ensures
        conjoined(
            sc,
            between(l, TokenView::And, r),
            0,
            both(v, w),
            between(l, TokenView::And, r).len() as int,
        ),
{
    let u = between(l, TokenView::And, r);
    let n = l.len() as int;
    lemma_between(l, TokenView::And, r);
    lemma_comparison_moves(sc, l, u, 0, v);
    lemma_comparison_moves(sc, r, u, n + 1, w);
    lemma_conjunction_steps(sc, u, n, v, w);
}

proof fn lemma_disjunction(
    sc: Scope,
    l: Seq<TokenView>,
    r: Seq<TokenView>,
    v: ValueView,
    w: ValueView,
)
    requires
        l.len() > 0,
        r.len() > 0,
        conjoined(sc, l, 0, v, l.len() as int),
        conjoined(sc, r, 0, w, r.len() as int),
    ensures
        expression(sc, between(l, TokenView::Or, r), 0).0 == Outcome::Value(either(v, w)),
{
    let u = between(l, TokenView::Or, r);
    let n = l.len() as int;
    lemma_between(l, TokenView::Or, r);
    lemma_conjunction_moves(sc, l, u, 0, v);
    lemma_conjunction_moves(sc, r, u, n + 1, w);
    lemma_disjunction_steps(sc, u, n, v, w);
}

#[verifier::spinoff_prover]
#[verifier::rlimit(60)]
proof fn lemma_conjunction_is_expression(sc: Scope, u: Seq<TokenView>, v: ValueView)
    requires
        u.len() > 0,
        conjoined(sc, u, 0, v, u.len() as int),
    ensures
        expression(sc, u, 0).0 == Outcome::Value(v),
{
    reveal(conjoined);
    let n = u.len() as int;
    assert(token_here(u, n) is Eof);
    assert(or_rest(sc, u, n, v) == (Outcome::Value(v), n));
}

#[verifier::spinoff_prover]
#[verifier::rlimit(60)]
proof fn lemma_comparison_is_conjunction(sc: Scope, t: Seq<TokenView>, v: ValueView)
    requires
        t.len() > 0,
        compared(sc, t, 0, v, t.len() as int),
    ensures
        conjoined(sc, t, 0, v, t.len() as int),
{
    reveal(compared);
    reveal(conjoined);
    let n = t.len() as int;
    assert(token_here(t, n) is Eof);
    assert(and_rest(sc, t, n, v) == (Outcome::Value(v), n));
}

/// Two comparisons with `and` between them are true if and only if both of them are.
pub proof fn lemma_and_needs_both(
    sc: Scope,
    l: Seq<TokenView>,
    r: Seq<TokenView>,
    a: bool,
    b: bool,
)
    requires
        is_comparison(sc, l, ValueView::Bool(a)),
        is_comparison(sc, r, ValueView::Bool(b)),
    ensures
        ({
            let o = expression(sc, between(l, TokenView::And, r), 0).0;
            &&& o == Outcome::Value(ValueView::Bool(true)) <==> a && b
            &&& o == Outcome::Value(ValueView::Bool(false)) <==> !a || !b
        }),
{
    let v = both(ValueView::Bool(a), ValueView::Bool(b));
    lemma_compared(sc, l, ValueView::Bool(a));
    lemma_compared(sc, r, ValueView::Bool(b));
    lemma_conjunction(sc, l, r, ValueView::Bool(a), ValueView::Bool(b));
    lemma_conjunction_is_expression(sc, between(l, TokenView::And, r), v);
}

/// Two comparisons with `or` between them are true if and only if one of them is.
pub proof fn lemma_or_needs_one(
    sc: Scope,
    l: Seq<TokenView>,
    r: Seq<TokenView>,
    a: bool,
    b: bool,
)
    requires
        is_comparison(sc, l, ValueView::Bool(a)),
        is_comparison(sc, r, ValueView::Bool(b)),
    ensures
        ({
            let o = expression(sc, between(l, TokenView::Or, r), 0).0;
            &&& o == Outcome::Value(ValueView::Bool(true)) <==> a || b
            &&& o == Outcome::Value(ValueView::Bool(false)) <==> !a && !b
        }),
{
    lemma_compared(sc, l, ValueView::Bool(a));
    lemma_compared(sc, r, ValueView::Bool(b));
    lemma_comparison_is_conjunction(sc, l, ValueView::Bool(a));
    lemma_comparison_is_conjunction(sc, r, ValueView::Bool(b));
    lemma_disjunction(sc, l, r, ValueView::Bool(a), ValueView::Bool(b));
}

/// What is no truth value makes a conjunction and a disjunction false, on either side.
pub proof fn lemma_connectives_want_truth_values(
    sc: Scope,
    l: Seq<TokenView>,
    r: Seq<TokenView>,
    v: ValueView,
    w: ValueView,
)
    requires
        is_comparison(sc, l, v),
        is_comparison(sc, r, w),
        !(v is Bool) || !(w is Bool),
    ensures
        expression(sc, between(l, TokenView::And, r), 0).0 == Outcome::Value(
            ValueView::Bool(false),
        ),
        expression(sc, between(l, TokenView::Or, r), 0).0 == Outcome::Value(ValueView::Bool(false)),
{
    lemma_compared(sc, l, v);
    lemma_compared(sc, r, w);
    lemma_conjunction(sc, l, r, v, w);
    lemma_conjunction_is_expression(sc, between(l, TokenView::And, r), both(v, w));
    lemma_comparison_is_conjunction(sc, l, v);
    lemma_comparison_is_conjunction(sc, r, w);
    lemma_disjunction(sc, l, r, v, w);
}

/// `and` binds tighter than `or`, on either side of it.
pub proof fn lemma_and_binds_tighter(
    sc: Scope,
    x: Seq<TokenView>,
    y: Seq<TokenView>,
    z: Seq<TokenView>,
    a: bool,
    b: bool,
    c: bool,
)
    requires
        is_comparison(sc, x, ValueView::Bool(a)),
        is_comparison(sc, y, ValueView::Bool(b)),
        is_comparison(sc, z, ValueView::Bool(c)),
    ensures
        expression(sc, between(x, TokenView::Or, between(y, TokenView::And, z)), 0).0
            == Outcome::Value(ValueView::Bool(a || (b && c))),
        expression(sc, between(between(x, TokenView::And, y), TokenView::Or, z), 0).0
            == Outcome::Value(ValueView::Bool((a && b) || c)),
{
    let va = ValueView::Bool(a);
    let vb = ValueView::Bool(b);
    let vc = ValueView::Bool(c);
    lemma_compared(sc, x, va);
    lemma_compared(sc, y, vb);
    lemma_compared(sc, z, vc);
    lemma_comparison_is_conjunction(sc, x, va);
    lemma_comparison_is_conjunction(sc, z, vc);
    lemma_conjunction(sc, y, z, vb, vc);
    lemma_conjunction(sc, x, y, va, vb);
    lemma_disjunction(sc, x, between(y, TokenView::And, z), va, both(vb, vc));
    lemma_disjunction(sc, between(x, TokenView::And, y), z, both(va, vb), vc);
}

#[verifier::spinoff_prover]
#[verifier::rlimit(60)]
proof fn lemma_group_is_comparison(sc: Scope, t: Seq<TokenView>, v: ValueView)
    requires
        expression(sc, t, 0).0 == Outcome::Value(v),
        forall|i: int| 0 <= i < t.len() ==> !(#[trigger] t[i] is Eof),
    ensures
        is_comparison(sc, seq![TokenView::LParen] + t + seq![TokenView::RParen], v),
{
    let u = seq![TokenView::LParen] + t + seq![TokenView::RParen];
    let n = u.len() as int;
    assert(u.subrange(1, 1 + t.len() as int) =~= t);
    lemma_expression_takes_all(sc, t, u);
    assert(t.len() > 0) by {
        if t.len() == 0 {
            lemma_or_expr_stands_apart(sc, t, u, 1, 0);
        }
    }
    lemma_group_is_operand(sc, u, v);
    lemma_alone_is_sum(sc, u, v);
    assert(comp_rest(sc, u, n, v) == (Outcome::Value(v), n));
}

/// Two filters in parentheses with `and` between them let pass what both let pass, and with `or`
/// what one of them lets pass, whatever the filters are.
pub proof fn lemma_filters_combine(
    sc: Scope,
    l: Seq<TokenView>,
    r: Seq<TokenView>,
    a: bool,
    b: bool,
)
    requires
        expression(sc, l, 0).0 == Outcome::Value(ValueView::Bool(a)),
        expression(sc, r, 0).0 == Outcome::Value(ValueView::Bool(b)),
        forall|i: int| 0 <= i < l.len() ==> !(#[trigger] l[i] is Eof),
        forall|i: int| 0 <= i < r.len() ==> !(#[trigger] r[i] is Eof),
    ensures
        ({
            let x = seq![TokenView::LParen] + l + seq![TokenView::RParen];
            let y = seq![TokenView::LParen] + r + seq![TokenView::RParen];
            &&& expression(sc, x + seq![TokenView::And] + y, 0).0 == Outcome::Value(
                ValueView::Bool(a && b),
            )
            &&& expression(sc, x + seq![TokenView::Or] + y, 0).0 == Outcome::Value(
                ValueView::Bool(a || b),
            )
        }),
{
    let x = seq![TokenView::LParen] + l + seq![TokenView::RParen];
    let y = seq![TokenView::LParen] + r + seq![TokenView::RParen];
    lemma_group_is_comparison(sc, l, ValueView::Bool(a));
    lemma_group_is_comparison(sc, r, ValueView::Bool(b));
    lemma_and_needs_both(sc, x, y, a, b);
    lemma_or_needs_one(sc, x, y, a, b);
}

// ── operators ────────────────────────────────────────────────────────────

/// The operand at `p` has this value and ends at `q`.
#[verifier::opaque]
spec fn factored(sc: Scope, u: Seq<TokenView>, p: int, v: ValueView, q: int) -> bool {
    unary(sc, u, p) == (Outcome::Value(v), q)
}

/// The product at `p` has this value and ends at `q`.
#[verifier::opaque]
spec fn multiplied(sc: Scope, u: Seq<TokenView>, p: int, v: ValueView, q: int) -> bool {
    mul_expr(sc, u, p) == (Outcome::Value(v), q)
}

/// The sum at `p` has this value and ends at `q`.
#[verifier::opaque]
spec fn added(sc: Scope, u: Seq<TokenView>, p: int, v: ValueView, q: int) -> bool {
    add_expr(sc, u, p) == (Outcome::Value(v), q)
}

/// What a token stands for by itself.
pub open spec fn stands_for(sc: Scope, token: TokenView, v: ValueView) -> bool {
    match token {
        TokenView::Num(n) => v == ValueView::Int(n),
        TokenView::Str(s) => v == ValueView::Str(s),
        TokenView::ReStr(s) => v == ValueView::ReStr(s),
        TokenView::Time(at) => v == ValueView::DateTime(at),
        TokenView::Name(n) => sc.vars.contains_key(n) && v == sc.vars[n],
        _ => false,
    }
}

#[verifier::spinoff_prover]
#[verifier::rlimit(60)]
proof fn lemma_token_factored(sc: Scope, u: Seq<TokenView>, p: int, v: ValueView)
    requires
        0 <= p < u.len(),
        stands_for(sc, u[p], v),
    ensures
        factored(sc, u, p, v, p + 1),
{
    reveal(factored);
    assert(primary(sc, u, p) == (Outcome::Value(v), p + 1));
}

#[verifier::spinoff_prover]
#[verifier::rlimit(60)]
proof fn lemma_negated_factored(sc: Scope, u: Seq<TokenView>, p: int, n: i64, q: int)
    requires
        0 <= p < u.len(),
        u[p] is Minus,
        n != i64::MIN,
        factored(sc, u, p + 1, ValueView::Int(n), q),
    ensures
        factored(sc, u, p, ValueView::Int((-n) as i64), q),
{
    reveal(factored);
}

#[verifier::spinoff_prover]
#[verifier::rlimit(60)]
proof fn lemma_factor_multiplied(sc: Scope, u: Seq<TokenView>, p: int, v: ValueView, q: int)
    requires
        0 <= p < q <= u.len(),
        factored(sc, u, p, v, q),
        ends_product(token_here(u, q)),
    ensures
        multiplied(sc, u, p, v, q),
{
    reveal(factored);
    reveal(multiplied);
    assert(mul_rest(sc, u, q, v) == (Outcome::Value(v), q));
}

#[verifier::spinoff_prover]
#[verifier::rlimit(60)]
proof fn lemma_factors_multiplied(
    sc: Scope,
    u: Seq<TokenView>,
    p: int,
    l: ValueView,
    k: int,
    op: ArithOp,
    r: ValueView,
    q: int,
)
    requires
        0 <= p < k < q <= u.len(),
        factored(sc, u, p, l, k),
        token_here(u, k) == (if op is Mul {
            TokenView::Star
        } else {
            TokenView::Slash
        }),
        op is Mul || op is Div,
        factored(sc, u, k + 1, r, q),
        ends_product(token_here(u, q)),
    ensures
        multiplied(sc, u, p, value_result(sc.arith, op, l, r), q),
{
    reveal(factored);
    reveal(multiplied);
    let v = value_result(sc.arith, op, l, r);
    assert(mul_rest(sc, u, q, v) == (Outcome::Value(v), q));
    assert(mul_rest(sc, u, k, l) == (Outcome::Value(v), q));
}

#[verifier::spinoff_prover]
#[verifier::rlimit(60)]
proof fn lemma_product_added(sc: Scope, u: Seq<TokenView>, p: int, v: ValueView, q: int)
    requires
        0 <= p < q <= u.len(),
        multiplied(sc, u, p, v, q),
        ends_sum(token_here(u, q)),
    ensures
        added(sc, u, p, v, q),
{
    reveal(multiplied);
    reveal(added);
    assert(add_rest(sc, u, q, v) == (Outcome::Value(v), q));
}

#[verifier::spinoff_prover]
#[verifier::rlimit(60)]
proof fn lemma_products_added(
    sc: Scope,
    u: Seq<TokenView>,
    p: int,
    l: ValueView,
    k: int,
    op: ArithOp,
    r: ValueView,
    q: int,
)
    requires
        0 <= p < k < q <= u.len(),
        multiplied(sc, u, p, l, k),
        token_here(u, k) == (if op is Add {
            TokenView::Plus
        } else {
            TokenView::Minus
        }),
        op is Add || op is Sub,
        multiplied(sc, u, k + 1, r, q),
        ends_sum(token_here(u, q)),
    ensures
        added(sc, u, p, value_result(sc.arith, op, l, r), q),
{
    reveal(multiplied);
    reveal(added);
    let v = value_result(sc.arith, op, l, r);
    assert(add_rest(sc, u, q, v) == (Outcome::Value(v), q));
    assert(add_rest(sc, u, k, l) == (Outcome::Value(v), q));
}

#[verifier::spinoff_prover]
#[verifier::rlimit(60)]
proof fn lemma_difference_of_difference(
    sc: Scope,
    u: Seq<TokenView>,
    a: ValueView,
    b: ValueView,
    c: ValueView,
)
    requires
        u.len() == 5,
        multiplied(sc, u, 0, a, 1),
        token_here(u, 1) is Minus,
        multiplied(sc, u, 2, b, 3),
        token_here(u, 3) is Minus,
        multiplied(sc, u, 4, c, 5),
    ensures
        added(
            sc,
            u,
            0,
            value_result(sc.arith, ArithOp::Sub, value_result(sc.arith, ArithOp::Sub, a, b), c),
            5,
        ),
{
    reveal(multiplied);
    reveal(added);
    let v = value_result(sc.arith, ArithOp::Sub, a, b);
    let w = value_result(sc.arith, ArithOp::Sub, v, c);
    assert(add_rest(sc, u, 5, w) == (Outcome::Value(w), 5int));
    assert(add_rest(sc, u, 3, v) == (Outcome::Value(w), 5int));
    assert(add_rest(sc, u, 1, a) == (Outcome::Value(w), 5int));
}

#[verifier::spinoff_prover]
#[verifier::rlimit(60)]
proof fn lemma_added_is_expression(sc: Scope, u: Seq<TokenView>, v: ValueView)
    requires
        u.len() > 0,
        added(sc, u, 0, v, u.len() as int),
    ensures
        expression(sc, u, 0).0 == Outcome::Value(v),
{
    reveal(added);
    lemma_alone_is_expression(sc, u, v);
}

#[verifier::spinoff_prover]
#[verifier::rlimit(60)]
proof fn lemma_sums_compared(
    sc: Scope,
    u: Seq<TokenView>,
    l: ValueView,
    k: int,
    op: CompareOp,
    r: ValueView,
)
    requires
        0 < k < u.len(),
        added(sc, u, 0, l, k),
        token_here(u, k) == TokenView::Compare(op),
        added(sc, u, k + 1, r, u.len() as int),
    ensures
        compared(
            sc,
            u,
            0,
            ValueView::Bool(value_compares(sc.compare, op, l, r)),
            u.len() as int,
        ),
{
    reveal(added);
    reveal(compared);
    let n = u.len() as int;
    let v = ValueView::Bool(value_compares(sc.compare, op, l, r));
    assert(comp_rest(sc, u, n, v) == (Outcome::Value(v), n));
    assert(comp_rest(sc, u, k, l) == (Outcome::Value(v), n));
}

proof fn lemma_token_added(sc: Scope, u: Seq<TokenView>, p: int, v: ValueView)
    requires
        0 <= p < u.len(),
        stands_for(sc, u[p], v),
        ends_sum(token_here(u, p + 1)),
    ensures
        added(sc, u, p, v, p + 1),
{
    lemma_token_factored(sc, u, p, v);
    lemma_factor_multiplied(sc, u, p, v, p + 1);
    lemma_product_added(sc, u, p, v, p + 1);
}

proof fn lemma_token_multiplied(sc: Scope, u: Seq<TokenView>, p: int, v: ValueView)
    requires
        0 <= p < u.len(),
        stands_for(sc, u[p], v),
        ends_product(token_here(u, p + 1)),
    ensures
        multiplied(sc, u, p, v, p + 1),
{
    lemma_token_factored(sc, u, p, v);
    lemma_factor_multiplied(sc, u, p, v, p + 1);
}

/// Whatever compares two operands alone, the filter is true exactly where the operands compare so.
proof fn lemma_two_compared(
    sc: Scope,
    x: TokenView,
    op: CompareOp,
    y: TokenView,
    l: ValueView,
    r: ValueView,
)
    requires
        stands_for(sc, x, l),
        stands_for(sc, y, r),
    ensures
        expression(sc, seq![x, TokenView::Compare(op), y], 0).0 == Outcome::Value(
            ValueView::Bool(value_compares(sc.compare, op, l, r)),
        ),
{
    let u = seq![x, TokenView::Compare(op), y];
    let v = ValueView::Bool(value_compares(sc.compare, op, l, r));
    lemma_token_added(sc, u, 0, l);
    lemma_token_added(sc, u, 2, r);
    lemma_sums_compared(sc, u, l, 1, op, r);
    lemma_comparison_is_conjunction(sc, u, v);
    lemma_conjunction_is_expression(sc, u, v);
}

/// Whether a number keeps within the range in which double precision is exact.
pub open spec fn is_exact(n: int) -> bool {
    -0x20_0000_0000_0000 <= n <= 0x20_0000_0000_0000
}

proof fn lemma_exact_result(f: spec_fn(ArithOp, Num, Num) -> Num, op: ArithOp, l: i64, r: i64, n: int)
    requires
        is_exact(l as int),
        is_exact(r as int),
        is_exact(n),
        match op {
            ArithOp::Add => n == l + r,
            ArithOp::Sub => n == l - r,
            ArithOp::Mul => n == l * r,
            ArithOp::Div => r != 0 && l == n * r,
        },
    ensures
        value_result(f, op, ValueView::Int(l), ValueView::Int(r)) == ValueView::Int(n as i64),
{
    if op is Div {
        lemma_even_division(l, r, n);
    } else {
        lemma_small_ints_arithmetic(op, l, r);
    }
}

/// Two numbers with a plus sign between them are their sum, as far as everything is within the
/// range in which double precision is exact.
#[verifier::spinoff_prover]
#[verifier::rlimit(60)]
pub proof fn lemma_plus_adds(sc: Scope, a: i64, b: i64)
    requires
        is_exact(a as int),
        is_exact(b as int),
        is_exact(a + b),
    ensures
        expression(
            sc,
            seq![TokenView::Num(a), TokenView::Plus, TokenView::Num(b)],
            0,
        ).0 == Outcome::Value(ValueView::Int((a + b) as i64)),
{
    let l = ValueView::Int(a);
    let r = ValueView::Int(b);
    let t = seq![TokenView::Num(a), TokenView::Plus, TokenView::Num(b)];
    let v = value_result(sc.arith, ArithOp::Add, l, r);
    lemma_token_multiplied(sc, t, 0, l);
    lemma_token_multiplied(sc, t, 2, r);
    lemma_products_added(sc, t, 0, l, 1, ArithOp::Add, r, 3);
    lemma_exact_result(sc.arith, ArithOp::Add, a, b, a + b);
    lemma_added_is_expression(sc, t, v);
}

/// Two numbers with a minus sign between them are their difference, within the same range.
#[verifier::spinoff_prover]
#[verifier::rlimit(60)]
pub proof fn lemma_minus_subtracts(sc: Scope, a: i64, b: i64)
    requires
        is_exact(a as int),
        is_exact(b as int),
        is_exact(a - b),
    ensures
        expression(
            sc,
            seq![TokenView::Num(a), TokenView::Minus, TokenView::Num(b)],
            0,
        ).0 == Outcome::Value(ValueView::Int((a - b) as i64)),
{
    let l = ValueView::Int(a);
    let r = ValueView::Int(b);
    let t = seq![TokenView::Num(a), TokenView::Minus, TokenView::Num(b)];
    let v = value_result(sc.arith, ArithOp::Sub, l, r);
    lemma_token_multiplied(sc, t, 0, l);
    lemma_token_multiplied(sc, t, 2, r);
    lemma_products_added(sc, t, 0, l, 1, ArithOp::Sub, r, 3);
    lemma_exact_result(sc.arith, ArithOp::Sub, a, b, a - b);
    lemma_added_is_expression(sc, t, v);
}

/// Two numbers with an asterisk between them are their product, within the same range.
#[verifier::spinoff_prover]
#[verifier::rlimit(60)]
pub proof fn lemma_star_multiplies(sc: Scope, a: i64, b: i64)
    requires
        is_exact(a as int),
        is_exact(b as int),
        is_exact(a * b),
    ensures
        expression(
            sc,
            seq![TokenView::Num(a), TokenView::Star, TokenView::Num(b)],
            0,
        ).0 == Outcome::Value(ValueView::Int((a * b) as i64)),
{
    let l = ValueView::Int(a);
    let r = ValueView::Int(b);
    let t = seq![TokenView::Num(a), TokenView::Star, TokenView::Num(b)];
    let v = value_result(sc.arith, ArithOp::Mul, l, r);
    lemma_token_factored(sc, t, 0, l);
    lemma_token_factored(sc, t, 2, r);
    lemma_factors_multiplied(sc, t, 0, l, 1, ArithOp::Mul, r, 3);
    lemma_product_added(sc, t, 0, v, 3);
    lemma_exact_result(sc.arith, ArithOp::Mul, a, b, a * b);
    lemma_added_is_expression(sc, t, v);
}

/// Two numbers with a slash between them are the number that times the second is the first, within
/// the same range.
#[verifier::spinoff_prover]
#[verifier::rlimit(60)]
pub proof fn lemma_slash_divides(sc: Scope, a: i64, b: i64, q: int)
    requires
        is_exact(a as int),
        is_exact(b as int),
        b != 0,
        q * b == a,
        is_exact(q),
    ensures
        expression(
            sc,
            seq![TokenView::Num(a), TokenView::Slash, TokenView::Num(b)],
            0,
        ).0 == Outcome::Value(ValueView::Int(q as i64)),
{
    let l = ValueView::Int(a);
    let r = ValueView::Int(b);
    let t = seq![TokenView::Num(a), TokenView::Slash, TokenView::Num(b)];
    let v = value_result(sc.arith, ArithOp::Div, l, r);
    lemma_token_factored(sc, t, 0, l);
    lemma_token_factored(sc, t, 2, r);
    lemma_factors_multiplied(sc, t, 0, l, 1, ArithOp::Div, r, 3);
    lemma_product_added(sc, t, 0, v, 3);
    lemma_exact_result(sc.arith, ArithOp::Div, a, b, q);
    lemma_added_is_expression(sc, t, v);
}

/// A division by zero gives something that is not a number.
#[verifier::spinoff_prover]
#[verifier::rlimit(60)]
pub proof fn lemma_division_by_zero(sc: Scope, a: i64, b: i64)
    requires
        b == 0,
    ensures
        expression(
            sc,
            seq![TokenView::Num(a), TokenView::Slash, TokenView::Num(b)],
            0,
        ).0 == Outcome::Value(ValueView::Float(0x7ff8_0000_0000_0000)),
{
    let l = ValueView::Int(a);
    let r = ValueView::Int(b);
    let t = seq![TokenView::Num(a), TokenView::Slash, TokenView::Num(b)];
    let v = value_result(sc.arith, ArithOp::Div, l, r);
    lemma_token_factored(sc, t, 0, l);
    lemma_token_factored(sc, t, 2, r);
    lemma_factors_multiplied(sc, t, 0, l, 1, ArithOp::Div, r, 3);
    lemma_product_added(sc, t, 0, v, 3);
    lemma_added_is_expression(sc, t, v);
}

/// A product behind a plus sign is taken before the sum.
#[verifier::spinoff_prover]
#[verifier::rlimit(60)]
pub proof fn lemma_product_within_sum(sc: Scope, a: i64, b: i64, c: i64)
    requires
        is_exact(a as int),
        is_exact(b as int),
        is_exact(c as int),
        is_exact(b * c),
        is_exact(a + b * c),
    ensures
        expression(
            sc,
            seq![
                TokenView::Num(a),
                TokenView::Plus,
                TokenView::Num(b),
                TokenView::Star,
                TokenView::Num(c),
            ],
            0,
        ).0 == Outcome::Value(ValueView::Int((a + b * c) as i64)),
{
    let x = ValueView::Int(a);
    let y = ValueView::Int(b);
    let z = ValueView::Int(c);
    let t = seq![
        TokenView::Num(a),
        TokenView::Plus,
        TokenView::Num(b),
        TokenView::Star,
        TokenView::Num(c),
    ];
    lemma_token_multiplied(sc, t, 0, x);
    lemma_token_factored(sc, t, 2, y);
    lemma_token_factored(sc, t, 4, z);
    lemma_factors_multiplied(sc, t, 2, y, 3, ArithOp::Mul, z, 5);
    lemma_exact_result(sc.arith, ArithOp::Mul, b, c, b * c);
    lemma_products_added(sc, t, 0, x, 1, ArithOp::Add, ValueView::Int((b * c) as i64), 5);
    lemma_exact_result(sc.arith, ArithOp::Add, a, (b * c) as i64, a + b * c);
    lemma_added_is_expression(sc, t, ValueView::Int((a + b * c) as i64));
}

/// A product before a minus sign is taken before the difference.
#[verifier::spinoff_prover]
#[verifier::rlimit(60)]
pub proof fn lemma_product_before_difference(sc: Scope, a: i64, b: i64, c: i64)
    requires
        is_exact(a as int),
        is_exact(b as int),
        is_exact(c as int),
        is_exact(a * b),
        is_exact(a * b - c),
    ensures
        expression(
            sc,
            seq![
                TokenView::Num(a),
                TokenView::Star,
                TokenView::Num(b),
                TokenView::Minus,
                TokenView::Num(c),
            ],
            0,
        ).0 == Outcome::Value(ValueView::Int((a * b - c) as i64)),
{
    let x = ValueView::Int(a);
    let y = ValueView::Int(b);
    let z = ValueView::Int(c);
    let t = seq![
        TokenView::Num(a),
        TokenView::Star,
        TokenView::Num(b),
        TokenView::Minus,
        TokenView::Num(c),
    ];
    lemma_token_factored(sc, t, 0, x);
    lemma_token_factored(sc, t, 2, y);
    lemma_factors_multiplied(sc, t, 0, x, 1, ArithOp::Mul, y, 3);
    lemma_exact_result(sc.arith, ArithOp::Mul, a, b, a * b);
    lemma_token_multiplied(sc, t, 4, z);
    lemma_products_added(sc, t, 0, ValueView::Int((a * b) as i64), 3, ArithOp::Sub, z, 5);
    lemma_exact_result(sc.arith, ArithOp::Sub, (a * b) as i64, c, a * b - c);
    lemma_added_is_expression(sc, t, ValueView::Int((a * b - c) as i64));
}

/// Differences are taken from left to right.
#[verifier::spinoff_prover]
#[verifier::rlimit(60)]
pub proof fn lemma_differences_from_the_left(sc: Scope, a: i64, b: i64, c: i64)
    requires
        is_exact(a as int),
        is_exact(b as int),
        is_exact(c as int),
        is_exact(a - b),
        is_exact(a - b - c),
    ensures
        expression(
            sc,
            seq![
                TokenView::Num(a),
                TokenView::Minus,
                TokenView::Num(b),
                TokenView::Minus,
                TokenView::Num(c),
            ],
            0,
        ).0 == Outcome::Value(ValueView::Int((a - b - c) as i64)),
{
    let x = ValueView::Int(a);
    let y = ValueView::Int(b);
    let z = ValueView::Int(c);
    let t = seq![
        TokenView::Num(a),
        TokenView::Minus,
        TokenView::Num(b),
        TokenView::Minus,
        TokenView::Num(c),
    ];
    lemma_token_multiplied(sc, t, 0, x);
    lemma_token_multiplied(sc, t, 2, y);
    lemma_token_multiplied(sc, t, 4, z);
    lemma_difference_of_difference(sc, t, x, y, z);
    lemma_exact_result(sc.arith, ArithOp::Sub, a, b, a - b);
    lemma_exact_result(sc.arith, ArithOp::Sub, (a - b) as i64, c, a - b - c);
    lemma_added_is_expression(sc, t, ValueView::Int((a - b - c) as i64));
}

/// A number with a minus sign before it is that number with the other sign.
pub proof fn lemma_minus_negates(sc: Scope, n: i64)
    requires
        n != i64::MIN,
    ensures
        expression(sc, seq![TokenView::Minus, TokenView::Num(n)], 0).0 == Outcome::Value(
            ValueView::Int((-n) as i64),
        ),
{
    let t = seq![TokenView::Minus, TokenView::Num(n)];
    let v = ValueView::Int((-n) as i64);
    lemma_token_factored(sc, t, 1, ValueView::Int(n));
    lemma_negated_factored(sc, t, 0, n, 2);
    lemma_factor_multiplied(sc, t, 0, v, 2);
    lemma_product_added(sc, t, 0, v, 2);
    lemma_added_is_expression(sc, t, v);
}

/// A token that stands for a value is a filter of that value: a variable gives what it holds.
pub proof fn lemma_one_token(sc: Scope, token: TokenView, v: ValueView)
    requires
        stands_for(sc, token, v),
    ensures
        expression(sc, seq![token], 0).0 == Outcome::Value(v),
{
    lemma_token_added(sc, seq![token], 0, v);
    lemma_added_is_expression(sc, seq![token], v);
}

proof fn lemma_bound_compared(sc: Scope, name: Seq<char>, v: i64, op: CompareOp, n: i64)
    requires
        sc.vars.contains_key(name),
        sc.vars[name] == ValueView::Int(v),
        is_exact(v as int),
        is_exact(n as int),
        op is Ge || op is Le,
    ensures
        compared(
            sc,
            seq![TokenView::Name(name), TokenView::Compare(op), TokenView::Num(n)],
            0,
            ValueView::Bool(if op is Ge {
                v >= n
            } else {
                v <= n
            }),
            3,
        ),
{
    let t = seq![TokenView::Name(name), TokenView::Compare(op), TokenView::Num(n)];
    let l = ValueView::Int(v);
    let r = ValueView::Int(n);
    lemma_token_added(sc, t, 0, l);
    lemma_token_added(sc, t, 2, r);
    lemma_sums_compared(sc, t, l, 1, op, r);
    lemma_small_ints_compare(op, v as int, n as int);
}

/// A variable that holds a number lies within two bounds if and only if the filter that names
/// both of them is true.
pub proof fn lemma_variable_within_bounds(sc: Scope, name: Seq<char>, v: i64, lo: i64, hi: i64)
    requires
        sc.vars.contains_key(name),
        sc.vars[name] == ValueView::Int(v),
        is_exact(v as int),
        is_exact(lo as int),
        is_exact(hi as int),
    ensures
        expression(
            sc,
            seq![
                TokenView::Name(name),
                TokenView::Compare(CompareOp::Ge),
                TokenView::Num(lo),
            ] + seq![TokenView::And] + seq![
                TokenView::Name(name),
                TokenView::Compare(CompareOp::Le),
                TokenView::Num(hi),
            ],
            0,
        ).0 == Outcome::Value(ValueView::Bool(lo <= v <= hi)),
{
    let x = seq![TokenView::Name(name), TokenView::Compare(CompareOp::Ge), TokenView::Num(lo)];
    let y = seq![TokenView::Name(name), TokenView::Compare(CompareOp::Le), TokenView::Num(hi)];
    let a = ValueView::Bool(v >= lo);
    let b = ValueView::Bool(v <= hi);
    lemma_bound_compared(sc, name, v, CompareOp::Ge, lo);
    lemma_bound_compared(sc, name, v, CompareOp::Le, hi);
    lemma_conjunction(sc, x, y, a, b);
    lemma_conjunction_is_expression(sc, between(x, TokenView::And, y), both(a, b));
}

/// A text is equal to a text if they hold the same characters, unequal otherwise, and before it if
/// it is a proper start of it, or has the lesser character where they first differ.
pub proof fn lemma_variable_compares_with_text(
    sc: Scope,
    name: Seq<char>,
    a: Seq<char>,
    b: Seq<char>,
    k: int,
)
    requires
        sc.vars.contains_key(name),
        sc.vars[name] == ValueView::Str(a),
        0 <= k <= a.len(),
        k <= b.len(),
        forall|i: int| 0 <= i < k ==> a[i] == b[i],
        k < a.len() && k < b.len() ==> a[k] != b[k],
    ensures
        ({
            let x = TokenView::Name(name);
            let y = TokenView::Str(b);
            let says = |op: CompareOp| expression(sc, seq![x, TokenView::Compare(op), y], 0).0;
            let before = k < b.len() && (k == a.len() || a[k] < b[k]);
            &&& says(CompareOp::Eq) == Outcome::Value(ValueView::Bool(a == b))
            &&& says(CompareOp::Ne) == Outcome::Value(ValueView::Bool(a != b))
            &&& says(CompareOp::Lt) == Outcome::Value(ValueView::Bool(before))
            &&& says(CompareOp::Ge) == Outcome::Value(ValueView::Bool(!before))
            &&& says(CompareOp::Le) == Outcome::Value(ValueView::Bool(before || a == b))
            &&& says(CompareOp::Gt) == Outcome::Value(ValueView::Bool(!before && a != b))
        }),
{
    let x = TokenView::Name(name);
    let y = TokenView::Str(b);
    let l = ValueView::Str(a);
    let r = ValueView::Str(b);
    lemma_first_difference_decides(a, b, k);
    lemma_text_lt_total(a, b);
    lemma_two_compared(sc, x, CompareOp::Eq, y, l, r);
    lemma_two_compared(sc, x, CompareOp::Ne, y, l, r);
    lemma_two_compared(sc, x, CompareOp::Lt, y, l, r);
    lemma_two_compared(sc, x, CompareOp::Ge, y, l, r);
    lemma_two_compared(sc, x, CompareOp::Le, y, l, r);
    lemma_two_compared(sc, x, CompareOp::Gt, y, l, r);
}

/// A text is equal to a regular expression if the expression matches it, whichever stands first,
/// and unequal otherwise; no order holds between them.
pub proof fn lemma_variable_compares_with_pattern(
    sc: Scope,
    name: Seq<char>,
    a: Seq<char>,
    p: Seq<char>,
    op: CompareOp,
)
    requires
        sc.vars.contains_key(name),
        sc.vars[name] == ValueView::Str(a),
    ensures
        ({
            let x = TokenView::Name(name);
            let y = TokenView::ReStr(p);
            let c = TokenView::Compare(op);
            let one = expression(sc, seq![x, c, y], 0).0;
            let other = expression(sc, seq![y, c, x], 0).0;
            &&& one == other
            &&& op is Eq ==> one == Outcome::Value(ValueView::Bool(regex_is_match(p, a)))
            &&& op is Ne ==> one == Outcome::Value(ValueView::Bool(!regex_is_match(p, a)))
            &&& !(op is Eq || op is Ne) ==> one == Outcome::Value(ValueView::Bool(false))
        }),
{
    let x = TokenView::Name(name);
    let y = TokenView::ReStr(p);
    lemma_two_compared(sc, x, op, y, ValueView::Str(a), ValueView::ReStr(p));
    lemma_two_compared(sc, y, op, x, ValueView::ReStr(p), ValueView::Str(a));
}

/// Points in time compare by their seconds, the later one being the greater.
pub proof fn lemma_variable_compares_with_time(
    sc: Scope,
    name: Seq<char>,
    at: DateTime,
    other: DateTime,
)
    requires
        sc.vars.contains_key(name),
        sc.vars[name] == ValueView::DateTime(at),
        is_exact(at.secs as int),
        is_exact(other.secs as int),
    ensures
        ({
            let x = TokenView::Name(name);
            let y = TokenView::Time(other);
            let says = |op: CompareOp| expression(sc, seq![x, TokenView::Compare(op), y], 0).0;
            &&& says(CompareOp::Eq) == Outcome::Value(ValueView::Bool(at.secs == other.secs))
            &&& says(CompareOp::Ne) == Outcome::Value(ValueView::Bool(at.secs != other.secs))
            &&& says(CompareOp::Lt) == Outcome::Value(ValueView::Bool(at.secs < other.secs))
            &&& says(CompareOp::Ge) == Outcome::Value(ValueView::Bool(at.secs >= other.secs))
            &&& says(CompareOp::Le) == Outcome::Value(ValueView::Bool(at.secs <= other.secs))
            &&& says(CompareOp::Gt) == Outcome::Value(ValueView::Bool(at.secs > other.secs))
        }),
{
    let x = TokenView::Name(name);
    let y = TokenView::Time(other);
    let l = ValueView::DateTime(at);
    let r = ValueView::DateTime(other);
    lemma_two_compared(sc, x, CompareOp::Eq, y, l, r);
    lemma_two_compared(sc, x, CompareOp::Ne, y, l, r);
    lemma_two_compared(sc, x, CompareOp::Lt, y, l, r);
    lemma_two_compared(sc, x, CompareOp::Ge, y, l, r);
    lemma_two_compared(sc, x, CompareOp::Le, y, l, r);
    lemma_two_compared(sc, x, CompareOp::Gt, y, l, r);
    lemma_small_ints_compare(CompareOp::Eq, at.secs as int, other.secs as int);
    lemma_small_ints_compare(CompareOp::Ne, at.secs as int, other.secs as int);
    lemma_small_ints_compare(CompareOp::Lt, at.secs as int, other.secs as int);
    lemma_small_ints_compare(CompareOp::Ge, at.secs as int, other.secs as int);
    lemma_small_ints_compare(CompareOp::Le, at.secs as int, other.secs as int);
    lemma_small_ints_compare(CompareOp::Gt, at.secs as int, other.secs as int);
}

/// Operands of different kinds compare as false, whatever the operator: a number with a text, a
/// text with a point in time, and so on.
pub proof fn lemma_kinds_do_not_compare(
    sc: Scope,
    x: TokenView,
    op: CompareOp,
    y: TokenView,
    l: ValueView,
    r: ValueView,
)
    requires
        stands_for(sc, x, l),
        stands_for(sc, y, r),
        match (l, r) {
            (ValueView::Int(_) | ValueView::Float(_), ValueView::Int(_) | ValueView::Float(_)) =>
                false,
            (ValueView::Str(_), ValueView::Str(_) | ValueView::ReStr(_)) => false,
            (ValueView::ReStr(_), ValueView::Str(_)) => false,
            (ValueView::DateTime(_), ValueView::DateTime(_)) => false,
            _ => true,
        },
    ensures
        expression(sc, seq![x, TokenView::Compare(op), y], 0).0 == Outcome::Value(
            ValueView::Bool(false),
        ),
{
    lemma_two_compared(sc, x, op, y, l, r);
}

/// Where a fractional number takes part, the function that the caller supplies decides, on the
/// operands as they stand.
pub proof fn lemma_fractions_are_handed_on(
    sc: Scope,
    x: TokenView,
    op: CompareOp,
    y: TokenView,
    a: Num,
    b: Num,
)
    requires
        a is Float || b is Float,
        stands_for(
            sc,
            x,
            match a {
                Num::Int(n) => ValueView::Int(n),
                Num::Float(bits) => ValueView::Float(bits),
            },
        ),
        stands_for(
            sc,
            y,
            match b {
                Num::Int(n) => ValueView::Int(n),
                Num::Float(bits) => ValueView::Float(bits),
            },
        ),
    ensures
        expression(sc, seq![x, TokenView::Compare(op), y], 0).0 == Outcome::Value(
            ValueView::Bool((sc.compare)(op, a, b)),
        ),
{
    let l = match a {
        Num::Int(n) => ValueView::Int(n),
        Num::Float(bits) => ValueView::Float(bits),
    };
    let r = match b {
        Num::Int(n) => ValueView::Int(n),
        Num::Float(bits) => ValueView::Float(bits),
    };
    lemma_two_compared(sc, x, op, y, l, r);
}

// ── filters without a value ──────────────────────────────────────────────

/// A name that no variable has is reported by itself, and no filter at all is a missing operand.
pub proof fn lemma_unknown_names_are_reported(sc: Scope, name: Seq<char>)
    requires
        !sc.vars.contains_key(name),
    ensures
        expression(sc, seq![TokenView::Name(name)], 0).0 == Outcome::Fault(
            FaultView::Undefined(name),
        ),
        expression(sc, Seq::empty(), 0).0 == Outcome::Fault(FaultView::Unexpected(TokenView::Eof)),
{
    let t = seq![TokenView::Name(name)];
    let o = Outcome::Fault(FaultView::Undefined(name));
    assert(primary(sc, t, 0) == (o, 1int));
    assert(unary(sc, t, 0) == (o, 1int));
    assert(mul_expr(sc, t, 0) == (o, 1int));
    assert(add_expr(sc, t, 0) == (o, 1int));
    assert(comp(sc, t, 0) == (o, 1int));
    assert(and_expr(sc, t, 0) == (o, 1int));
    assert(or_expr(sc, t, 0) == (o, 1int));
    let none = Seq::<TokenView>::empty();
    let e = Outcome::Fault(FaultView::Unexpected(TokenView::Eof));
    assert(primary(sc, none, 0) == (e, 0int));
    assert(unary(sc, none, 0) == (e, 0int));
    assert(mul_expr(sc, none, 0) == (e, 0int));
    assert(add_expr(sc, none, 0) == (e, 0int));
    assert(comp(sc, none, 0) == (e, 0int));
    assert(and_expr(sc, none, 0) == (e, 0int));
    assert(or_expr(sc, none, 0) == (e, 0int));
}

/// Of two texts exactly one comes first, unless they are the same; the other comparisons follow
/// from that.
pub proof fn lemma_texts_compare(a: Seq<char>, b: Seq<char>)
    ensures
        text_compares(CompareOp::Lt, a, b) || text_compares(CompareOp::Eq, a, b) || text_compares(
            CompareOp::Gt,
            a,
            b,
        ),
        text_compares(CompareOp::Lt, a, b) ==> !text_compares(CompareOp::Gt, a, b),
        text_compares(CompareOp::Eq, a, b) ==> !text_compares(CompareOp::Lt, a, b)
            && !text_compares(CompareOp::Gt, a, b),
        text_compares(CompareOp::Ne, a, b) == !text_compares(CompareOp::Eq, a, b),
        text_compares(CompareOp::Ge, a, b) == (text_compares(CompareOp::Gt, a, b)
            || text_compares(CompareOp::Eq, a, b)),
        text_compares(CompareOp::Le, a, b) == (text_compares(CompareOp::Lt, a, b)
            || text_compares(CompareOp::Eq, a, b)),
{
    lemma_text_lt_total(a, b);
}

/// What comes before a text that comes before another comes before that other.
pub proof fn lemma_text_order_is_transitive(a: Seq<char>, b: Seq<char>, c: Seq<char>)
    requires
        text_compares(CompareOp::Lt, a, b),
        text_compares(CompareOp::Lt, b, c),
    ensures
        text_compares(CompareOp::Lt, a, c),
{
    lemma_text_lt_transitive(a, b, c);
}

// ── longer filters ───────────────────────────────────────────────────────

/// Where a conjunction takes in all of `l`, it goes on behind it with what it has so far.
#[verifier::spinoff_prover]
#[verifier::rlimit(60)]
proof fn lemma_conjuncts_go_on(
    sc: Scope,
    l: Seq<TokenView>,
    u: Seq<TokenView>,
    p: int,
    acc: ValueView,
    v: ValueView,
)
    requires
        embedded(l, u, 0),
        follower(l, u, 0) is And,
        0 <= p <= l.len(),
        and_rest(sc, l, p, acc) == (Outcome::Value(v), l.len() as int),
    ensures
        and_rest(sc, u, p, acc) == and_rest(sc, u, l.len() as int, v),
    decreases l.len() - p,
{
    lemma_token_stands_apart(l, u, 0, p);
    if p < l.len() && token_here(l, p) is And {
        let (o, q) = comp(sc, l, p + 1);
        lemma_comp_stands_apart(sc, l, u, 0, p + 1);
        if let Outcome::Value(r) = o {
            lemma_conjuncts_go_on(sc, l, u, q, both(acc, r), v);
        }
    }
}

#[verifier::spinoff_prover]
#[verifier::rlimit(60)]
proof fn lemma_conjunct_added(
    sc: Scope,
    l: Seq<TokenView>,
    u: Seq<TokenView>,
    v: ValueView,
    w: ValueView,
)
    requires
        l.len() > 0,
        embedded(l, u, 0),
        follower(l, u, 0) is And,
        l.len() < u.len(),
        conjoined(sc, l, 0, v, l.len() as int),
        compared(sc, u, l.len() as int + 1, w, u.len() as int),
    ensures
        conjoined(sc, u, 0, both(v, w), u.len() as int),
{
    reveal(conjoined);
    reveal(compared);
    let n = u.len() as int;
    let k = l.len() as int;
    let (o, q) = comp(sc, l, 0);
    lemma_comp_stands_apart(sc, l, u, 0, 0);
    let x = o->Value_0;
    lemma_conjuncts_go_on(sc, l, u, q, x, v);
    assert(token_here(u, n) is Eof);
    assert(and_rest(sc, u, n, both(v, w)) == (Outcome::Value(both(v, w)), n));
    assert(and_rest(sc, u, k, v) == (Outcome::Value(both(v, w)), n));
}

/// Each of the parts is a comparison with the truth value that goes with it.
#[verifier::opaque]
spec fn all_compared(sc: Scope, parts: Seq<Seq<TokenView>>, truths: Seq<bool>) -> bool {
    forall|i: int|
        0 <= i < parts.len() ==> (#[trigger] parts[i]).len() > 0 && compared(
            sc,
            parts[i],
            0,
            ValueView::Bool(truths[i]),
            parts[i].len() as int,
        )
}

proof fn lemma_all_compared(sc: Scope, parts: Seq<Seq<TokenView>>, truths: Seq<bool>)
    requires
        forall|i: int|
            0 <= i < parts.len() ==> is_comparison(
                sc,
                #[trigger] parts[i],
                ValueView::Bool(truths[i]),
            ),
    ensures
        all_compared(sc, parts, truths),
{
    reveal(all_compared);
    assert forall|i: int| 0 <= i < parts.len() implies (#[trigger] parts[i]).len() > 0 && compared(
        sc,
        parts[i],
        0,
        ValueView::Bool(truths[i]),
        parts[i].len() as int,
    ) by {
        lemma_compared(sc, parts[i], ValueView::Bool(truths[i]));
    }
}

proof fn lemma_last_of_all_compared(sc: Scope, parts: Seq<Seq<TokenView>>, truths: Seq<bool>)
    requires
        parts.len() > 0,
        truths.len() == parts.len(),
        all_compared(sc, parts, truths),
    ensures
        parts.last().len() > 0,
        compared(
            sc,
            parts.last(),
            0,
            ValueView::Bool(truths.last()),
            parts.last().len() as int,
        ),
        all_compared(sc, parts.drop_last(), truths.drop_last()),
{
    reveal(all_compared);
    assert(parts[parts.len() - 1] == parts.last());
    assert forall|i: int| 0 <= i < parts.drop_last().len() implies (
    #[trigger] parts.drop_last()[i]).len() > 0 && compared(
        sc,
        parts.drop_last()[i],
        0,
        ValueView::Bool(truths.drop_last()[i]),
        parts.drop_last()[i].len() as int,
    ) by {
        assert(parts.drop_last()[i] == parts[i]);
    }
}

/// The comparisons, with `and` between each two.
pub open spec fn all_of(parts: Seq<Seq<TokenView>>) -> Seq<TokenView>
    decreases parts.len(),
{
    if parts.len() <= 1 {
        parts[0]
    } else {
        between(all_of(parts.drop_last()), TokenView::And, parts.last())
    }
}

proof fn lemma_all_conjoined(sc: Scope, parts: Seq<Seq<TokenView>>, truths: Seq<bool>)
    requires
        parts.len() > 0,
        truths.len() == parts.len(),
        all_compared(sc, parts, truths),
    ensures
        all_of(parts).len() > 0,
        conjoined(
            sc,
            all_of(parts),
            0,
            ValueView::Bool(forall|i: int| 0 <= i < truths.len() ==> truths[i]),
            all_of(parts).len() as int,
        ),
    decreases parts.len(),
{
    let last = parts.last();
    let b = truths.last();
    lemma_last_of_all_compared(sc, parts, truths);
    if parts.len() == 1 {
        lemma_comparison_is_conjunction(sc, last, ValueView::Bool(b));
        assert((forall|i: int| 0 <= i < truths.len() ==> truths[i]) == truths[0]);
    } else {
        let fewer = parts.drop_last();
        let before = truths.drop_last();
        lemma_all_conjoined(sc, fewer, before);
        let l = all_of(fewer);
        let u = all_of(parts);
        let a = forall|i: int| 0 <= i < before.len() ==> before[i];
        lemma_between(l, TokenView::And, last);
        lemma_comparison_moves(sc, last, u, l.len() as int + 1, ValueView::Bool(b));
        lemma_conjunct_added(sc, l, u, ValueView::Bool(a), ValueView::Bool(b));
        let all = forall|i: int| 0 <= i < truths.len() ==> truths[i];
        assert(all == (a && b)) by {
            if all {
                assert forall|i: int| 0 <= i < before.len() implies before[i] by {
                    assert(before[i] == truths[i]);
                }
                assert(truths[truths.len() - 1]);
            }
            if a && b {
                assert forall|i: int| 0 <= i < truths.len() implies truths[i] by {
                    if i < before.len() {
                        assert(before[i] == truths[i]);
                    }
                }
            }
        }
    }
}

/// Comparisons with `and` between each two, however many, are true if and only if each of them is.
pub proof fn lemma_and_needs_all(sc: Scope, parts: Seq<Seq<TokenView>>, truths: Seq<bool>)
    requires
        parts.len() > 0,
        truths.len() == parts.len(),
        forall|i: int|
            0 <= i < parts.len() ==> is_comparison(
                sc,
                #[trigger] parts[i],
                ValueView::Bool(truths[i]),
            ),
    ensures
        expression(sc, all_of(parts), 0).0 == Outcome::Value(
            ValueView::Bool(forall|i: int| 0 <= i < truths.len() ==> truths[i]),
        ),
{
    lemma_all_compared(sc, parts, truths);
    lemma_all_conjoined(sc, parts, truths);
    lemma_conjunction_is_expression(
        sc,
        all_of(parts),
        ValueView::Bool(forall|i: int| 0 <= i < truths.len() ==> truths[i]),
    );
}

/// The disjunction at the start has this value and takes in all tokens.
#[verifier::opaque]
spec fn disjoined(sc: Scope, u: Seq<TokenView>, v: ValueView) -> bool {
    or_expr(sc, u, 0) == (Outcome::Value(v), u.len() as int)
}

/// Where a disjunction takes in all of `l`, it goes on behind it with what it has so far.
#[verifier::spinoff_prover]
#[verifier::rlimit(60)]
proof fn lemma_disjuncts_go_on(
    sc: Scope,
    l: Seq<TokenView>,
    u: Seq<TokenView>,
    p: int,
    acc: ValueView,
    v: ValueView,
)
    requires
        embedded(l, u, 0),
        follower(l, u, 0) is Or,
        0 <= p <= l.len(),
        or_rest(sc, l, p, acc) == (Outcome::Value(v), l.len() as int),
    ensures
        or_rest(sc, u, p, acc) == or_rest(sc, u, l.len() as int, v),
    decreases l.len() - p,
{
    lemma_token_stands_apart(l, u, 0, p);
    if p < l.len() && token_here(l, p) is Or {
        let (o, q) = and_expr(sc, l, p + 1);
        lemma_and_expr_stands_apart(sc, l, u, 0, p + 1);
        if let Outcome::Value(r) = o {
            lemma_disjuncts_go_on(sc, l, u, q, either(acc, r), v);
        }
    }
}

#[verifier::spinoff_prover]
#[verifier::rlimit(60)]
proof fn lemma_disjunct_added(
    sc: Scope,
    l: Seq<TokenView>,
    u: Seq<TokenView>,
    v: ValueView,
    w: ValueView,
)
    requires
        l.len() > 0,
        embedded(l, u, 0),
        follower(l, u, 0) is Or,
        l.len() < u.len(),
        disjoined(sc, l, v),
        conjoined(sc, u, l.len() as int + 1, w, u.len() as int),
    ensures
        disjoined(sc, u, either(v, w)),
{
    reveal(conjoined);
    reveal(disjoined);
    let n = u.len() as int;
    let k = l.len() as int;
    let (o, q) = and_expr(sc, l, 0);
    lemma_and_expr_stands_apart(sc, l, u, 0, 0);
    let x = o->Value_0;
    lemma_disjuncts_go_on(sc, l, u, q, x, v);
    assert(token_here(u, n) is Eof);
    assert(or_rest(sc, u, n, either(v, w)) == (Outcome::Value(either(v, w)), n));
    assert(or_rest(sc, u, k, v) == (Outcome::Value(either(v, w)), n));
}

#[verifier::spinoff_prover]
#[verifier::rlimit(60)]
proof fn lemma_conjunction_is_disjunction(sc: Scope, t: Seq<TokenView>, v: ValueView)
    requires
        t.len() > 0,
        conjoined(sc, t, 0, v, t.len() as int),
    ensures
        disjoined(sc, t, v),
{
    reveal(conjoined);
    reveal(disjoined);
    let n = t.len() as int;
    assert(token_here(t, n) is Eof);
    assert(or_rest(sc, t, n, v) == (Outcome::Value(v), n));
}

#[verifier::spinoff_prover]
#[verifier::rlimit(60)]
proof fn lemma_disjunction_is_expression(sc: Scope, t: Seq<TokenView>, v: ValueView)
    requires
        disjoined(sc, t, v),
    ensures
        expression(sc, t, 0).0 == Outcome::Value(v),
{
    reveal(disjoined);
    assert(token_here(t, t.len() as int) is Eof);
}

/// The comparisons, with `or` between each two.
pub open spec fn any_of(parts: Seq<Seq<TokenView>>) -> Seq<TokenView>
    decreases parts.len(),
{
    if parts.len() <= 1 {
        parts[0]
    } else {
        between(any_of(parts.drop_last()), TokenView::Or, parts.last())
    }
}

proof fn lemma_any_disjoined(sc: Scope, parts: Seq<Seq<TokenView>>, truths: Seq<bool>)
    requires
        parts.len() > 0,
        truths.len() == parts.len(),
        all_compared(sc, parts, truths),
    ensures
        any_of(parts).len() > 0,
        disjoined(
            sc,
            any_of(parts),
            ValueView::Bool(exists|i: int| 0 <= i < truths.len() && truths[i]),
        ),
    decreases parts.len(),
{
    let last = parts.last();
    let b = truths.last();
    lemma_last_of_all_compared(sc, parts, truths);
    lemma_comparison_is_conjunction(sc, last, ValueView::Bool(b));
    if parts.len() == 1 {
        lemma_conjunction_is_disjunction(sc, last, ValueView::Bool(b));
        assert((exists|i: int| 0 <= i < truths.len() && truths[i]) == truths[0]);
    } else {
        let fewer = parts.drop_last();
        let before = truths.drop_last();
        lemma_any_disjoined(sc, fewer, before);
        let l = any_of(fewer);
        let u = any_of(parts);
        let a = exists|i: int| 0 <= i < before.len() && before[i];
        lemma_between(l, TokenView::Or, last);
        lemma_conjunction_moves(sc, last, u, l.len() as int + 1, ValueView::Bool(b));
        lemma_disjunct_added(sc, l, u, ValueView::Bool(a), ValueView::Bool(b));
        let any = exists|i: int| 0 <= i < truths.len() && truths[i];
        assert(any == (a || b)) by {
            if any {
                let i = choose|i: int| 0 <= i < truths.len() && truths[i];
                if i < before.len() {
                    assert(before[i]);
                }
            }
            if a {
                let i = choose|i: int| 0 <= i < before.len() && before[i];
                assert(truths[i]);
            }
            if b {
                assert(truths[truths.len() - 1]);
            }
        }
    }
}

/// Comparisons with `or` between each two, however many, are true if and only if one of them is.
pub proof fn lemma_or_needs_one_of_all(sc: Scope, parts: Seq<Seq<TokenView>>, truths: Seq<bool>)
    requires
        parts.len() > 0,
        truths.len() == parts.len(),
        forall|i: int|
            0 <= i < parts.len() ==> is_comparison(
                sc,
                #[trigger] parts[i],
                ValueView::Bool(truths[i]),
            ),
    ensures
        expression(sc, any_of(parts), 0).0 == Outcome::Value(
            ValueView::Bool(exists|i: int| 0 <= i < truths.len() && truths[i]),
        ),
{
    lemma_all_compared(sc, parts, truths);
    lemma_any_disjoined(sc, parts, truths);
    lemma_disjunction_is_expression(
        sc,
        any_of(parts),
        ValueView::Bool(exists|i: int| 0 <= i < truths.len() && truths[i]),
    );
}

// ── more filters without a value ─────────────────────────────────────────

/// What follows where a filter is over is reported: two operands side by side are no filter.
#[verifier::spinoff_prover]
#[verifier::rlimit(60)]
pub proof fn lemma_operands_side_by_side(sc: Scope, x: TokenView, y: TokenView, v: ValueView)
    requires
        stands_for(sc, x, v),
        y is Num || y is Str || y is ReStr || y is Time || y is Name || y is LParen || y is RParen,
    ensures
        expression(sc, seq![x, y], 0).0 == Outcome::Fault(FaultView::Trailing(y)),
{
    let t = seq![x, y];
    lemma_token_added(sc, t, 0, v);
    reveal(added);
    assert(comp_rest(sc, t, 1, v) == (Outcome::Value(v), 1int));
    assert(comp(sc, t, 0) == (Outcome::Value(v), 1int));
    assert(and_rest(sc, t, 1, v) == (Outcome::Value(v), 1int));
    assert(and_expr(sc, t, 0) == (Outcome::Value(v), 1int));
    assert(or_rest(sc, t, 1, v) == (Outcome::Value(v), 1int));
    assert(or_expr(sc, t, 0) == (Outcome::Value(v), 1int));
}

/// A filter that starts with what starts no operand is refused, and says what it starts with.
#[verifier::spinoff_prover]
#[verifier::rlimit(60)]
pub proof fn lemma_operands_are_due(sc: Scope, x: TokenView)
    requires
        x is And || x is Or || x is Compare || x is Plus || x is Star || x is Slash || x is RParen,
    ensures
        expression(sc, seq![x], 0).0 == Outcome::Fault(FaultView::Unexpected(x)),
{
    let t = seq![x];
    let o = Outcome::Fault(FaultView::Unexpected(x));
    assert(primary(sc, t, 0) == (o, 0int));
    assert(unary(sc, t, 0) == (o, 0int));
    assert(mul_expr(sc, t, 0) == (o, 0int));
    assert(add_expr(sc, t, 0) == (o, 0int));
    assert(comp(sc, t, 0) == (o, 0int));
    assert(and_expr(sc, t, 0) == (o, 0int));
    assert(or_expr(sc, t, 0) == (o, 0int));
}

/// A comparison of a comparison is one with a truth value, which compares with nothing: three
/// operands with two comparisons between them are false.
#[verifier::spinoff_prover]
#[verifier::rlimit(60)]
pub proof fn lemma_chained_comparisons(
    sc: Scope,
    x: TokenView,
    y: TokenView,
    z: TokenView,
    op: CompareOp,
    next: CompareOp,
    a: ValueView,
    b: ValueView,
    c: ValueView,
)
    requires
        stands_for(sc, x, a),
        stands_for(sc, y, b),
        stands_for(sc, z, c),
    ensures
        expression(
            sc,
            seq![x, TokenView::Compare(op), y, TokenView::Compare(next), z],
            0,
        ).0 == Outcome::Value(ValueView::Bool(false)),
{
    let u = seq![x, TokenView::Compare(op), y, TokenView::Compare(next), z];
    lemma_token_added(sc, u, 0, a);
    lemma_token_added(sc, u, 2, b);
    lemma_token_added(sc, u, 4, c);
    lemma_chain_compared(sc, u, a, b, c, op, next);
    lemma_comparison_is_conjunction(sc, u, ValueView::Bool(false));
    lemma_conjunction_is_expression(sc, u, ValueView::Bool(false));
}

#[verifier::spinoff_prover]
#[verifier::rlimit(60)]
proof fn lemma_chain_compared(
    sc: Scope,
    u: Seq<TokenView>,
    a: ValueView,
    b: ValueView,
    c: ValueView,
    op: CompareOp,
    next: CompareOp,
)
    requires
        u.len() == 5,
        added(sc, u, 0, a, 1),
        u[1] == TokenView::Compare(op),
        added(sc, u, 2, b, 3),
        u[3] == TokenView::Compare(next),
        added(sc, u, 4, c, 5),
    ensures
        compared(sc, u, 0, ValueView::Bool(false), 5),
{
    reveal(added);
    reveal(compared);
    let v = ValueView::Bool(value_compares(sc.compare, op, a, b));
    let f = ValueView::Bool(false);
    assert(value_compares(sc.compare, next, v, c) == false);
    assert(comp_rest(sc, u, 5, f) == (Outcome::Value(f), 5int));
    assert(comp_rest(sc, u, 3, v) == (Outcome::Value(f), 5int));
    assert(comp_rest(sc, u, 1, a) == (Outcome::Value(f), 5int));
}

} // verus!
