//! Values of the filter language and the operations on them.

use vstd::prelude::*;

use crate::calendar::{chrono_format, format_datetime, DateTime, DATETIME_LAYOUT};
use crate::filter::number::{
    answers, arithmetic, arithmetic_result, compare_ints, compare_nums, compares, dependable, int_compares,
    ArithOp, CompareOp, Num, SIGN_BIT,
};
use crate::pattern::{regex_is_match, Pattern};
use crate::text::{
    copy_str, decimal, i64_text, same_text, signed_decimal, text_before, text_lt,
};

verus! {

/// A value: an integer, a binary64 number given by its bit pattern, a text, a regular
/// expression, a point in time or a truth value.
#[derive(Debug)]
pub enum Value {
    Int(i64),
    Float(u64),
    Str(String),
    ReStr(Pattern),
    DateTime(DateTime),
    Bool(bool),
}

/// The mathematical content of a [`Value`].
pub enum ValueView {
    Int(i64),
    Float(u64),
    Str(Seq<char>),
    ReStr(Seq<char>),
    DateTime(DateTime),
    Bool(bool),
}

impl View for Value {
    type V = ValueView;

    open spec fn view(&self) -> ValueView {
        match self {
            Value::Int(n) => ValueView::Int(*n),
            Value::Float(bits) => ValueView::Float(*bits),
            Value::Str(s) => ValueView::Str(s@),
            Value::ReStr(p) => ValueView::ReStr(p@),
            Value::DateTime(at) => ValueView::DateTime(*at),
            Value::Bool(b) => ValueView::Bool(*b),
        }
    }
}

/// What a function writes for the bit pattern of a binary64 number.
pub open spec fn written<F: Fn(u64) -> String>(f: F) -> spec_fn(u64) -> Seq<char> {
    |bits: u64| (choose|s: String| call_ensures(f, (bits,), s))@
}

/// A function can be called on any bit pattern, and writes the same one always in the same way.
pub open spec fn writes<F: Fn(u64) -> String>(f: F) -> bool {
    &&& forall|bits: u64| call_requires(f, (bits,))
    &&& forall|bits: u64, a: String, b: String|
        #![trigger call_ensures(f, (bits,), a), call_ensures(f, (bits,), b)]
        call_ensures(f, (bits,), a) && call_ensures(f, (bits,), b) ==> a@ == b@
}

/// The text that shows a value; a binary64 number is shown as `f` says. `None` for a pair that is
/// no point in time.
pub open spec fn shown(f: spec_fn(u64) -> Seq<char>, v: ValueView) -> Option<Seq<char>> {
    match v {
        ValueView::Int(n) => Some(signed_decimal(n as int)),
        ValueView::Float(bits) => Some(f(bits)),
        ValueView::Str(s) => Some(s),
        ValueView::ReStr(p) => Some("r'"@ + p + "'"@),
        ValueView::DateTime(at) => chrono_format(at.secs, at.nanos, DATETIME_LAYOUT@),
        ValueView::Bool(b) => Some(if b {
            "true"@
        } else {
            "false"@
        }),
    }
}

/// The number that a value counts as in arithmetic; what is no number counts as zero.
pub open spec fn numeric(v: ValueView) -> Num {
    match v {
        ValueView::Int(n) => Num::Int(n),
        ValueView::Float(bits) => Num::Float(bits),
        _ => Num::Int(0),
    }
}

/// A number as a value.
pub open spec fn number_value(n: Num) -> ValueView {
    match n {
        Num::Int(v) => ValueView::Int(v),
        Num::Float(bits) => ValueView::Float(bits),
    }
}

/// The result of an arithmetic operation on two values.
pub open spec fn value_result(
    f: spec_fn(ArithOp, Num, Num) -> Num,
    op: ArithOp,
    l: ValueView,
    r: ValueView,
) -> ValueView {
    number_value(arithmetic_result(f, op, numeric(l), numeric(r)))
}

/// How two texts compare in lexicographic order.
pub open spec fn text_compares(op: CompareOp, l: Seq<char>, r: Seq<char>) -> bool {
    match op {
        CompareOp::Eq => l == r,
        CompareOp::Ne => l != r,
        CompareOp::Gt => text_lt(r, l),
        CompareOp::Lt => text_lt(l, r),
        CompareOp::Ge => !text_lt(l, r),
        CompareOp::Le => !text_lt(r, l),
    }
}

/// How a regular expression compares to a text: equal where it matches, ordered never.
pub open spec fn pattern_compares(op: CompareOp, pattern: Seq<char>, text: Seq<char>) -> bool {
    match op {
        CompareOp::Eq => regex_is_match(pattern, text),
        CompareOp::Ne => !regex_is_match(pattern, text),
        _ => false,
    }
}

/// How two values compare. Numbers compare with numbers, texts with texts and with regular
/// expressions, points in time with points in time by their seconds; every other pair compares
/// as false, whatever the operator.
pub open spec fn value_compares(
    f: spec_fn(CompareOp, Num, Num) -> bool,
    op: CompareOp,
    l: ValueView,
    r: ValueView,
) -> bool {
    match (l, r) {
        (ValueView::Int(_) | ValueView::Float(_), ValueView::Int(_) | ValueView::Float(_)) =>
            compares(f, op, numeric(l), numeric(r)),
        (ValueView::Str(a), ValueView::Str(b)) => text_compares(op, a, b),
        (ValueView::Str(a), ValueView::ReStr(p)) => pattern_compares(op, p, a),
        (ValueView::ReStr(p), ValueView::Str(b)) => pattern_compares(op, p, b),
        (ValueView::DateTime(a), ValueView::DateTime(b)) => int_compares(
            op,
            a.secs as int,
            b.secs as int,
        ),
        _ => false,
    }
}

/// Both are true; false where one is no truth value.
pub open spec fn both(l: ValueView, r: ValueView) -> ValueView {
    match (l, r) {
        (ValueView::Bool(a), ValueView::Bool(b)) => ValueView::Bool(a && b),
        _ => ValueView::Bool(false),
    }
}

/// One is true; false where one is no truth value.
pub open spec fn either(l: ValueView, r: ValueView) -> ValueView {
    match (l, r) {
        (ValueView::Bool(a), ValueView::Bool(b)) => ValueView::Bool(a || b),
        _ => ValueView::Bool(false),
    }
}

/// The bit pattern of the binary64 number with the other sign.
pub open spec fn flipped_sign(bits: u64) -> u64 {
    if bits >= SIGN_BIT {
        (bits - SIGN_BIT) as u64
    } else {
        (bits + SIGN_BIT) as u64
    }
}

impl Value {
    /// A value with the same content.
    pub fn duplicate(&self) -> (r: Value)
        ensures
            r@ == self@,
    {
        match self {
            Value::Int(n) => Value::Int(*n),
            Value::Float(bits) => Value::Float(*bits),
            Value::Str(s) => Value::Str(copy_str(s.as_str())),
            Value::ReStr(p) => Value::ReStr(p.duplicate()),
            Value::DateTime(at) => Value::DateTime(*at),
            Value::Bool(b) => Value::Bool(*b),
        }
    }

    /// The text that shows the value; `f` writes a binary64 number.
    pub fn to_text<F: Fn(u64) -> String>(&self, f: &F) -> (r: Option<String>)
        requires
            writes(*f),
        ensures
            r is Some <==> shown(written(*f), self@) is Some,
            r matches Some(s) ==> s@ == shown(written(*f), self@)->0,
    {
        match self {
            Value::Int(n) => Some(i64_text(*n)),
            Value::Float(bits) => Some((*f)(*bits)),
            Value::Str(s) => Some(copy_str(s.as_str())),
            Value::ReStr(p) => {
                let mut s = copy_str("r'");
                s.append(p.source().as_str());
                s.append("'");
                Some(s)
            },
            Value::DateTime(at) => format_datetime(*at, DATETIME_LAYOUT),
            Value::Bool(b) => Some(
                if *b {
                    copy_str("true")
                } else {
                    copy_str("false")
                },
            ),
        }
    }

    /// The number that the value counts as in arithmetic.
    pub fn as_num(&self) -> (n: Num)
        ensures
            n == numeric(self@),
    {
        match self {
            Value::Int(n) => Num::Int(*n),
            Value::Float(bits) => Num::Float(*bits),
            _ => Num::Int(0),
        }
    }
}

/// A number as a value.
pub fn from_num(n: Num) -> (v: Value)
    ensures
        v@ == number_value(n),
{
    match n {
        Num::Int(v) => Value::Int(v),
        Num::Float(bits) => Value::Float(bits),
    }
}

/// The conjunction of two values.
pub fn truthy_and(a: Value, b: Value) -> (r: Value)
    ensures
        r@ == both(a@, b@),
{
    match (a, b) {
        (Value::Bool(x), Value::Bool(y)) => Value::Bool(x && y),
        _ => Value::Bool(false),
    }
}

/// The disjunction of two values.
pub fn truthy_or(a: Value, b: Value) -> (r: Value)
    ensures
        r@ == either(a@, b@),
{
    match (a, b) {
        (Value::Bool(x), Value::Bool(y)) => Value::Bool(x || y),
        _ => Value::Bool(false),
    }
}

/// How two texts compare.
pub fn compare_texts(op: CompareOp, l: &str, r: &str) -> (v: bool)
    ensures
        v == text_compares(op, l@, r@),
{
    match op {
        CompareOp::Eq => same_text(l, r),
        CompareOp::Ne => !same_text(l, r),
        CompareOp::Gt => text_before(r, l),
        CompareOp::Lt => text_before(l, r),
        CompareOp::Ge => !text_before(l, r),
        CompareOp::Le => !text_before(r, l),
    }
}

fn compare_pattern(op: CompareOp, pattern: &Pattern, text: &str) -> (v: bool)
    ensures
        v == pattern_compares(op, pattern@, text@),
{
    match op {
        CompareOp::Eq => pattern.is_match(text),
        CompareOp::Ne => !pattern.is_match(text),
        _ => false,
    }
}

/// How two values compare; `f` compares numbers of which one is fractional.
pub fn compare<F: Fn(CompareOp, Num, Num) -> bool>(
    f: &F,
    left: &Value,
    op: CompareOp,
    right: &Value,
) -> (v: Value)
    requires
        dependable(*f),
    ensures
        v@ == ValueView::Bool(value_compares(answers(*f), op, left@, right@)),
{
    let result = match (left, right) {
        (Value::Int(_) | Value::Float(_), Value::Int(_) | Value::Float(_)) => compare_nums(
            f,
            op,
            left.as_num(),
            right.as_num(),
        ),
        (Value::Str(a), Value::Str(b)) => compare_texts(op, a.as_str(), b.as_str()),
        (Value::Str(a), Value::ReStr(p)) => compare_pattern(op, p, a.as_str()),
        (Value::ReStr(p), Value::Str(b)) => compare_pattern(op, p, b.as_str()),
        (Value::DateTime(a), Value::DateTime(b)) => compare_ints(op, a.secs, b.secs),
        _ => false,
    };
    Value::Bool(result)
}

/// The result of an arithmetic operation on two values; `f` computes with fractional numbers.
pub fn combine<F: Fn(ArithOp, Num, Num) -> Num>(
    f: &F,
    left: &Value,
    op: ArithOp,
    right: &Value,
) -> (v: Value)
    requires
        dependable(*f),
    ensures
        v@ == value_result(answers(*f), op, left@, right@),
{
    from_num(arithmetic(f, op, left.as_num(), right.as_num()))
}

/// The bit pattern of the binary64 number with the other sign.
pub fn flip_sign(bits: u64) -> (r: u64)
    ensures
        r == flipped_sign(bits),
{
    if bits >= SIGN_BIT {
        bits - SIGN_BIT
    } else {
        bits + SIGN_BIT
    }
}

// ── laws ─────────────────────────────────────────────────────────────────

/// How values are shown: an integer by its digits, with a minus sign before them where it is
/// negative, a text as it is, a truth value by its name, a regular expression in quotes behind an
/// `r`, and a point in time to the second.
pub proof fn lemma_values_are_shown(
    f: spec_fn(u64) -> Seq<char>,
    n: i64,
    text: Seq<char>,
    at: DateTime,
    bits: u64,
)
    ensures
        shown(f, ValueView::Int(n)) == Some(if n < 0 {
            "-"@ + decimal((-n) as nat)
        } else {
            decimal(n as nat)
        }),
        shown(f, ValueView::Str(text)) == Some(text),
        shown(f, ValueView::Float(bits)) == Some(f(bits)),
        shown(f, ValueView::Bool(true)) == Some("true"@),
        shown(f, ValueView::Bool(false)) == Some("false"@),
        shown(f, ValueView::ReStr(text)) == Some("r'"@ + text + "'"@),
        shown(f, ValueView::DateTime(at)) == chrono_format(
            at.secs,
            at.nanos,
            "%Y-%m-%d %H:%M:%S"@,
        ),
{
    reveal_strlit("-");
    assert("-"@ =~= seq!['-']);
}

/// Changing the sign of a fractional number changes its sign bit and nothing else, and changing it
/// twice changes nothing.
pub proof fn lemma_sign_is_one_bit(bits: u64)
    ensures
        flipped_sign(bits) as int - bits as int == 0x8000_0000_0000_0000 || bits as int
            - flipped_sign(bits) as int == 0x8000_0000_0000_0000,
        flipped_sign(flipped_sign(bits)) == bits,
{
}

/// What is no number counts as zero in arithmetic, on either side, and the result of arithmetic is
/// always a number.
pub proof fn lemma_others_count_as_zero(
    f: spec_fn(ArithOp, Num, Num) -> Num,
    op: ArithOp,
    v: ValueView,
    w: ValueView,
)
    requires
        !(v is Int) && !(v is Float),
    ensures
        value_result(f, op, v, w) == value_result(f, op, ValueView::Int(0), w),
        value_result(f, op, w, v) == value_result(f, op, w, ValueView::Int(0)),
        value_result(f, op, v, w) is Int || value_result(f, op, v, w) is Float,
{
}

/// Where a fractional number takes part, arithmetic gives what the function of the caller gives,
/// unless it is a division by zero.
pub proof fn lemma_fractions_are_computed_by_the_caller(
    f: spec_fn(ArithOp, Num, Num) -> Num,
    op: ArithOp,
    bits: u64,
    n: i64,
)
    ensures
        !(op is Div) || n != 0 ==> value_result(
            f,
            op,
            ValueView::Float(bits),
            ValueView::Int(n),
        ) == (match f(op, Num::Float(bits), Num::Int(n)) {
            Num::Int(m) => ValueView::Int(m),
            Num::Float(b) => ValueView::Float(b),
        }),
        !(op is Div) || (bits != 0 && bits != 0x8000_0000_0000_0000) ==> value_result(
            f,
            op,
            ValueView::Int(n),
            ValueView::Float(bits),
        ) == (match f(op, Num::Int(n), Num::Float(bits)) {
            Num::Int(m) => ValueView::Int(m),
            Num::Float(b) => ValueView::Float(b),
        }),
{
}

/// Both connectives are what they are on truth values, whichever operand comes first.
pub proof fn lemma_connectives(a: Value, b: Value, r: Value, s: Value)
    requires
        call_ensures(truthy_and, (a, b), r),
        call_ensures(truthy_or, (a, b), s),
    ensures
        r@ == ValueView::Bool(true) <==> a@ == ValueView::Bool(true) && b@ == ValueView::Bool(true),
        s@ == ValueView::Bool(true) <==> a@ is Bool && b@ is Bool && (a@ == ValueView::Bool(true)
            || b@ == ValueView::Bool(true)),
        r@ is Bool && s@ is Bool,
{
}

} // verus!
