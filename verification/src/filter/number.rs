//! Numbers of the filter language.
//!
//! The language computes in binary floating point. On integers every operation but an inexact
//! division can be followed exactly in integer arithmetic, and is followed here; what involves a
//! fractional number is handed to functions that the caller supplies.

use vstd::prelude::*;

verus! {

/// A number: an integer, or a binary64 floating-point number given by its bit pattern.
#[derive(Debug, Clone, Copy, PartialEq, Eq, Structural)]
pub enum Num {
    Int(i64),
    Float(u64),
}

/// The arithmetic operators.
#[derive(Debug, Clone, Copy, PartialEq, Eq, Structural)]
pub enum ArithOp {
    Add,
    Sub,
    Mul,
    Div,
}

/// The comparison operators.
#[derive(Debug, Clone, Copy, PartialEq, Eq, Structural)]
pub enum CompareOp {
    Eq,
    Ne,
    Gt,
    Lt,
    Ge,
    Le,
}

/// The first integer that has no room in the 53 significant bits of a binary64 number.
pub const DOUBLE_LIMIT: i128 = 0x20_0000_0000_0000;

/// The bit pattern of the quiet not-a-number that a division by zero gives.
pub const NAN_BITS: u64 = 0x7ff8_0000_0000_0000;

/// The weight of the sign bit.
pub const SIGN_BIT: u64 = 0x8000_0000_0000_0000;

// ── integers as binary64 numbers ─────────────────────────────────────────

/// The distance between neighbouring binary64 numbers around `m`: the least power of two that
/// leaves a quotient of at most 53 bits.
pub open spec fn spacing(m: nat) -> nat
    decreases m,
{
    if m < DOUBLE_LIMIT {
        1
    } else {
        2 * spacing(m / 2)
    }
}

/// The multiple of `unit` next to `m`; of two at the same distance, the even one.
pub open spec fn nearest_multiple(m: nat, unit: nat) -> nat {
    let q = m / unit;
    let r = m % unit;
    if 2 * r < unit || (2 * r == unit && q % 2 == 0) {
        q * unit
    } else {
        (q + 1) * unit
    }
}

/// The binary64 number next to the integer `n`.
pub open spec fn to_double(n: int) -> int {
    if n < 0 {
        -nearest_multiple((-n) as nat, spacing((-n) as nat))
    } else {
        nearest_multiple(n as nat, spacing(n as nat)) as int
    }
}

/// `n`, or the end of the 64-bit range that it lies beyond.
pub open spec fn saturate(n: int) -> i64 {
    if n < i64::MIN {
        i64::MIN
    } else if n > i64::MAX {
        i64::MAX
    } else {
        n as i64
    }
}

/// An integer of up to 53 bits is a binary64 number itself.
pub proof fn lemma_small_exact(n: int)
    requires
        -DOUBLE_LIMIT <= n <= DOUBLE_LIMIT,
    ensures
        to_double(n) == n,
{
    let m: nat = if n < 0 {
        (-n) as nat
    } else {
        n as nat
    };
    reveal_with_fuel(spacing, 2);
    assert(DOUBLE_LIMIT / 2 < DOUBLE_LIMIT);
    if m < DOUBLE_LIMIT {
        assert(nearest_multiple(m, 1) == m) by (nonlinear_arith);
    } else {
        assert(spacing(m) == 2);
        assert(m / 2 * 2 == m && m % 2 == 0);
    }
}

proof fn lemma_spacing_small(m: nat)
    ensures
        spacing(m) >= 1,
        m >= DOUBLE_LIMIT ==> spacing(m) * 0x10_0000_0000_0000 <= m,
    decreases m,
{
    if m >= DOUBLE_LIMIT {
        lemma_spacing_small(m / 2);
    }
}

/// Rounding moves a 64-bit integer by little, and only zero becomes zero.
proof fn lemma_double_of_i64(n: int)
    requires
        i64::MIN <= n <= i64::MAX,
    ensures
        -0x8000_0000_0000_1000 <= to_double(n) <= 0x8000_0000_0000_1000,
        to_double(n) == 0 <==> n == 0,
{
    let m: nat = if n < 0 {
        (-n) as nat
    } else {
        n as nat
    };
    lemma_spacing_small(m);
    lemma_nearest_bound(m, spacing(m));
    if m <= DOUBLE_LIMIT {
        lemma_small_exact(n);
    } else {
        let u = spacing(m);
        assert(m / u >= 1) by (nonlinear_arith)
            requires
                u >= 1,
                u <= m,
        ;
        assert((m / u) * u >= 1) by (nonlinear_arith)
            requires
                m / u >= 1,
                u >= 1,
        ;
        assert((m / u + 1) * u >= 1) by (nonlinear_arith)
            requires
                m / u >= 1,
                u >= 1,
        ;
    }
}

proof fn lemma_nearest_bound(m: nat, unit: nat)
    requires
        unit >= 1,
    ensures
        nearest_multiple(m, unit) <= m + unit,
        (m / unit) * unit <= m,
        m / unit <= m,
        m % unit < unit,
{
    let q = m / unit;
    assert(m == q * unit + m % unit && m % unit < unit && q <= m) by (nonlinear_arith)
        requires
            q == m / unit,
            unit >= 1,
    ;
    assert((q + 1) * unit == q * unit + unit) by (nonlinear_arith);
}

/// The binary64 number next to `n`.
pub fn round_to_double(n: i128) -> (r: i128)
    requires
        -0x5000_0000_0000_0000_0000_0000_0000_0000 <= n <= 0x5000_0000_0000_0000_0000_0000_0000_0000,
    ensures
        r == to_double(n as int),
{
    let m: u128 = if n < 0 { (-n) as u128 } else { n as u128 };
    let mut unit: u128 = 1;
    let mut rest: u128 = m;
    while rest >= DOUBLE_LIMIT as u128
        invariant
            unit >= 1,
            unit == 1 || rest >= 2,
            rest * unit <= m,
            m <= 0x5000_0000_0000_0000_0000_0000_0000_0000,
            spacing(m as nat) == unit * spacing(rest as nat),
        decreases rest,
    {
        assert((rest / 2) * (unit * 2) <= rest * unit) by (nonlinear_arith)
            requires
                rest >= 2,
        ;
        assert(unit <= m) by (nonlinear_arith)
            requires
                rest >= 2,
                rest * unit <= m,
        ;
        assert(unit * (2 * spacing((rest / 2) as nat)) == (unit * 2) * spacing((rest / 2) as nat))
            by (nonlinear_arith);
        unit = unit * 2;
        rest = rest / 2;
    }
    assert(unit * 1 == unit) by (nonlinear_arith);
    assert(unit == spacing(m as nat));
    let q: u128 = m / unit;
    let rem: u128 = m % unit;
    proof {
        lemma_nearest_bound(m as nat, unit as nat);
        assert(2 * unit <= m || unit == 1) by (nonlinear_arith)
            requires
                rest * unit <= m,
                unit >= 1,
                unit == 1 || rest >= 2,
        ;
    }
    let near: u128 = if 2 * rem < unit || (2 * rem == unit && q % 2 == 0) {
        q * unit
    } else {
        (q + 1) * unit
    };
    if n < 0 {
        -(near as i128)
    } else {
        near as i128
    }
}

fn saturating_i64(n: i128) -> (r: i64)
    ensures
        r == saturate(n as int),
{
    if n < i64::MIN as i128 {
        i64::MIN
    } else if n > i64::MAX as i128 {
        i64::MAX
    } else {
        n as i64
    }
}

// ── arithmetic ───────────────────────────────────────────────────────────

/// The result of an operation on two integers: computed on the binary64 numbers next to them and
/// brought back to an integer. `None` where a division does not come out even.
pub open spec fn int_result(op: ArithOp, l: i64, r: i64) -> Option<Num> {
    let x = to_double(l as int);
    let y = to_double(r as int);
    match op {
        ArithOp::Add => Some(Num::Int(saturate(to_double(x + y)))),
        ArithOp::Sub => Some(Num::Int(saturate(to_double(x - y)))),
        ArithOp::Mul => Some(Num::Int(saturate(to_double(x * y)))),
        ArithOp::Div => if r == 0 {
            Some(Num::Float(NAN_BITS))
        } else if x % y == 0 {
            Some(Num::Int(saturate(x / y)))
        } else {
            None
        },
    }
}

/// The result of an operation on two integers, where it needs no fractional number.
pub fn int_arithmetic(op: ArithOp, l: i64, r: i64) -> (v: Option<Num>)
    ensures
        v == int_result(op, l, r),
{
    proof {
        lemma_double_of_i64(l as int);
        lemma_double_of_i64(r as int);
    }
    let x: i128 = round_to_double(l as i128);
    let y: i128 = round_to_double(r as i128);
    match op {
        ArithOp::Add => Some(Num::Int(saturating_i64(round_to_double(x + y)))),
        ArithOp::Sub => Some(Num::Int(saturating_i64(round_to_double(x - y)))),
        ArithOp::Mul => {
            assert(-0x5000_0000_0000_0000_0000_0000_0000_0000 <= x * y
                <= 0x5000_0000_0000_0000_0000_0000_0000_0000) by (nonlinear_arith)
                requires
                    -0x8000_0000_0000_1000 <= x <= 0x8000_0000_0000_1000,
                    -0x8000_0000_0000_1000 <= y <= 0x8000_0000_0000_1000,
            ;
            Some(Num::Int(saturating_i64(round_to_double(x * y))))
        },
        ArithOp::Div => {
            if r == 0 {
                return Some(Num::Float(NAN_BITS));
            }
            let ax: u128 = if x < 0 { (-x) as u128 } else { x as u128 };
            let ay: u128 = if y < 0 { (-y) as u128 } else { y as u128 };
            let q: u128 = ax / ay;
            proof {
                lemma_exact_division(x as int, y as int);
            }
            if ax % ay != 0 {
                return None;
            }
            proof {
                assert(q <= ax) by (nonlinear_arith)
                    requires
                        q == ax / ay,
                        ay >= 1,
                ;
            }
            let signed: i128 = if (x < 0) == (y < 0) { q as i128 } else { -(q as i128) };
            Some(Num::Int(saturating_i64(signed)))
        },
    }
}

spec fn magnitude(n: int) -> int {
    if n < 0 {
        -n
    } else {
        n
    }
}

/// Division that comes out even, by magnitudes and signs.
proof fn lemma_exact_division(x: int, y: int)
    requires
        y != 0,
    ensures
        x % y == 0 <==> magnitude(x) % magnitude(y) == 0,
        x % y == 0 ==> x / y == (if (x < 0) == (y < 0) {
            magnitude(x) / magnitude(y)
        } else {
            -(magnitude(x) / magnitude(y))
        }),
{
    let ax = magnitude(x);
    let ay = magnitude(y);
    let q = x / y;
    let r = x % y;
    let aq = ax / ay;
    let ar = ax % ay;
    assert(x == y * q + r && 0 <= r < ay) by (nonlinear_arith)
        requires
            y != 0,
            q == x / y,
            r == x % y,
            ay == (if y < 0 { -y } else { y }),
    ;
    assert(ax == ay * aq + ar && 0 <= ar < ay) by (nonlinear_arith)
        requires
            ay > 0,
            aq == ax / ay,
            ar == ax % ay,
    ;
    if r == 0 {
        let k = if (x < 0) == (y < 0) {
            q
        } else {
            -q
        };
        assert(ax == ay * k) by (nonlinear_arith)
            requires
                x == y * q,
                ax == (if x < 0 { -x } else { x }),
                ay == (if y < 0 { -y } else { y }),
                k == (if (x < 0) == (y < 0) { q } else { -q }),
                y != 0,
        ;
        assert(ar == 0 && aq == k) by (nonlinear_arith)
            requires
                ax == ay * k,
                ax == ay * aq + ar,
                0 <= ar < ay,
        ;
    }
    if ar == 0 {
        let k = if (x < 0) == (y < 0) {
            aq
        } else {
            -aq
        };
        assert(x == y * k) by (nonlinear_arith)
            requires
                ax == ay * aq,
                ax == (if x < 0 { -x } else { x }),
                ay == (if y < 0 { -y } else { y }),
                k == (if (x < 0) == (y < 0) { aq } else { -aq }),
        ;
        assert(r == 0) by (nonlinear_arith)
            requires
                x == y * k,
                x == y * q + r,
                0 <= r < ay,
                ay == (if y < 0 { -y } else { y }),
        ;
    }
}

/// Whether the number is zero, of either sign.
pub open spec fn is_zero(n: Num) -> bool {
    match n {
        Num::Int(v) => v == 0,
        Num::Float(bits) => bits == 0 || bits == SIGN_BIT,
    }
}

/// What a function answers on given arguments.
pub open spec fn answers<A, O, F: Fn(A, Num, Num) -> O>(f: F) -> spec_fn(A, Num, Num) -> O {
    |op: A, l: Num, r: Num| choose|o: O| call_ensures(f, (op, l, r), o)
}

/// A function can be called on any numbers, and answers the same question always in the same way.
pub open spec fn dependable<A, O, F: Fn(A, Num, Num) -> O>(f: F) -> bool {
    &&& forall|op: A, l: Num, r: Num| call_requires(f, (op, l, r))
    &&& forall|op: A, l: Num, r: Num, a: O, b: O|
        #![trigger call_ensures(f, (op, l, r), a), call_ensures(f, (op, l, r), b)]
        call_ensures(f, (op, l, r), a) && call_ensures(f, (op, l, r), b) ==> a == b
}

/// The result of an arithmetic operation. A division by zero is not a number, integers are
/// computed here where that is exact, and all else is left to `f`.
pub open spec fn arithmetic_result(
    f: spec_fn(ArithOp, Num, Num) -> Num,
    op: ArithOp,
    l: Num,
    r: Num,
) -> Num {
    if op is Div && is_zero(r) {
        Num::Float(NAN_BITS)
    } else {
        match (l, r) {
            (Num::Int(a), Num::Int(b)) => match int_result(op, a, b) {
                Some(v) => v,
                None => f(op, l, r),
            },
            _ => f(op, l, r),
        }
    }
}

/// The result of an arithmetic operation.
pub fn arithmetic<F: Fn(ArithOp, Num, Num) -> Num>(f: &F, op: ArithOp, l: Num, r: Num) -> (v: Num)
    requires
        dependable(*f),
    ensures
        v == arithmetic_result(answers(*f), op, l, r),
{
    let zero = match r {
        Num::Int(v) => v == 0,
        Num::Float(bits) => bits == 0 || bits == SIGN_BIT,
    };
    let division = match op {
        ArithOp::Div => true,
        _ => false,
    };
    if division && zero {
        return Num::Float(NAN_BITS);
    }
    if let (Num::Int(a), Num::Int(b)) = (l, r) {
        if let Some(v) = int_arithmetic(op, a, b) {
            return v;
        }
    }
    (*f)(op, l, r)
}

// ── comparison ───────────────────────────────────────────────────────────

/// How two integers compare, as the binary64 numbers next to them.
pub open spec fn int_compares(op: CompareOp, l: int, r: int) -> bool {
    let x = to_double(l);
    let y = to_double(r);
    match op {
        CompareOp::Eq => x == y,
        CompareOp::Ne => x != y,
        CompareOp::Gt => x > y,
        CompareOp::Lt => x < y,
        CompareOp::Ge => x >= y,
        CompareOp::Le => x <= y,
    }
}

/// How two numbers compare; where one is fractional, as `f` says.
pub open spec fn compares(
    f: spec_fn(CompareOp, Num, Num) -> bool,
    op: CompareOp,
    l: Num,
    r: Num,
) -> bool {
    match (l, r) {
        (Num::Int(a), Num::Int(b)) => int_compares(op, a as int, b as int),
        _ => f(op, l, r),
    }
}

/// How two integers compare.
pub fn compare_ints(op: CompareOp, l: i64, r: i64) -> (v: bool)
    ensures
        v == int_compares(op, l as int, r as int),
{
    let x: i128 = round_to_double(l as i128);
    let y: i128 = round_to_double(r as i128);
    match op {
        CompareOp::Eq => x == y,
        CompareOp::Ne => x != y,
        CompareOp::Gt => x > y,
        CompareOp::Lt => x < y,
        CompareOp::Ge => x >= y,
        CompareOp::Le => x <= y,
    }
}

/// How two numbers compare.
pub fn compare_nums<F: Fn(CompareOp, Num, Num) -> bool>(
    f: &F,
    op: CompareOp,
    l: Num,
    r: Num,
) -> (v: bool)
    requires
        dependable(*f),
    ensures
        v == compares(answers(*f), op, l, r),
{
    if let (Num::Int(a), Num::Int(b)) = (l, r) {
        return compare_ints(op, a, b);
    }
    (*f)(op, l, r)
}

/// Integers of up to 53 bits compare as integers do.
pub proof fn lemma_small_ints_compare(op: CompareOp, l: int, r: int)
    requires
        -DOUBLE_LIMIT <= l <= DOUBLE_LIMIT,
        -DOUBLE_LIMIT <= r <= DOUBLE_LIMIT,
    ensures
        int_compares(op, l, r) == (match op {
            CompareOp::Eq => l == r,
            CompareOp::Ne => l != r,
            CompareOp::Gt => l > r,
            CompareOp::Lt => l < r,
            CompareOp::Ge => l >= r,
            CompareOp::Le => l <= r,
        }),
{
    lemma_small_exact(l);
    lemma_small_exact(r);
}

/// Sums, differences and products of integers that stay within 53 bits are exact.
pub proof fn lemma_small_ints_arithmetic(op: ArithOp, l: i64, r: i64)
    requires
        -DOUBLE_LIMIT <= l <= DOUBLE_LIMIT,
        -DOUBLE_LIMIT <= r <= DOUBLE_LIMIT,
        op is Mul ==> -DOUBLE_LIMIT <= l * r <= DOUBLE_LIMIT,
        op is Add ==> -DOUBLE_LIMIT <= l + r <= DOUBLE_LIMIT,
        op is Sub ==> -DOUBLE_LIMIT <= l - r <= DOUBLE_LIMIT,
        !(op is Div),
    ensures
        int_result(op, l, r) == Some(Num::Int((match op {
            ArithOp::Add => l + r,
            ArithOp::Sub => l - r,
            _ => l * r,
        }) as i64)),
{
    lemma_small_exact(l as int);
    lemma_small_exact(r as int);
    match op {
        ArithOp::Add => lemma_small_exact(l + r),
        ArithOp::Sub => lemma_small_exact(l - r),
        _ => lemma_small_exact(l * r),
    }
}

/// A division of integers of up to 53 bits that comes out even gives the integer that times the
/// divisor is the dividend.
pub proof fn lemma_even_division(l: i64, r: i64, q: int)
    requires
        -DOUBLE_LIMIT <= l <= DOUBLE_LIMIT,
        -DOUBLE_LIMIT <= r <= DOUBLE_LIMIT,
        r != 0,
        q * r == l,
    ensures
        int_result(ArithOp::Div, l, r) == Some(Num::Int(q as i64)),
        -DOUBLE_LIMIT <= q <= DOUBLE_LIMIT,
{
    lemma_small_exact(l as int);
    lemma_small_exact(r as int);
    let x = l as int;
    let y = r as int;
    assert(x % y == 0 && x / y == q) by (nonlinear_arith)
        requires
            y != 0,
            x == q * y,
    ;
    assert(-DOUBLE_LIMIT <= q <= DOUBLE_LIMIT) by (nonlinear_arith)
        requires
            y != 0,
            x == q * y,
            -DOUBLE_LIMIT <= x <= DOUBLE_LIMIT,
    ;
}

proof fn lemma_nearest_is_close(m: nat, unit: nat)
    requires
        unit >= 1,
    ensures
        -(unit as int) <= 2 * (nearest_multiple(m, unit) - m) <= unit,
        nearest_multiple(m, unit) % unit == 0,
        2 * (m % unit) == unit ==> (nearest_multiple(m, unit) / unit) % 2 == 0,
{
    let q = m / unit;
    let r = m % unit;
    assert(m == q * unit + r && r < unit) by (nonlinear_arith)
        requires
            q == m / unit,
            r == m % unit,
            unit >= 1,
    ;
    assert((q + 1) * unit == q * unit + unit) by (nonlinear_arith);
    let near = nearest_multiple(m, unit);
    let k: nat = if 2 * r < unit || (2 * r == unit && q % 2 == 0) {
        q
    } else {
        q + 1
    };
    assert(near == k * unit);
    assert((k * unit) % unit == 0 && (k * unit) / unit == k) by (nonlinear_arith)
        requires
            unit >= 1,
    ;
}

/// Rounding to double precision moves an integer by at most half of the last of 53 bits, and keeps
/// its sign.
pub proof fn lemma_rounding_is_close(n: int)
    ensures
        0x20_0000_0000_0000 * (to_double(n) - n) <= if n < 0 {
            -n
        } else {
            n
        },
        0x20_0000_0000_0000 * (n - to_double(n)) <= if n < 0 {
            -n
        } else {
            n
        },
        to_double(-n) == -to_double(n),
{
    let m: nat = if n < 0 {
        (-n) as nat
    } else {
        n as nat
    };
    if m <= DOUBLE_LIMIT {
        lemma_small_exact(n);
        lemma_small_exact(-n);
    } else {
        lemma_spacing_small(m);
        lemma_nearest_is_close(m, spacing(m));
    }
}

/// An integer halfway between two neighbours in double precision goes to the even one: of the
/// integers of 54 bits the odd ones become multiples of four.
pub proof fn lemma_halfway_goes_to_even(n: int)
    requires
        0x20_0000_0000_0000 < n < 0x40_0000_0000_0000,
    ensures
        n % 2 == 0 ==> to_double(n) == n,
        n % 2 == 1 ==> to_double(n) % 4 == 0 && (to_double(n) == n - 1 || to_double(n) == n + 1),
{
    let m = n as nat;
    reveal_with_fuel(spacing, 2);
    assert(spacing(m) == 2);
    lemma_nearest_is_close(m, 2);
    assert(m % 2 == 0 ==> nearest_multiple(m, 2) == m);
}

/// What integers compare as fits together: exactly one of less, equal and greater holds, the other
/// comparisons follow from these, and exchanging the operands exchanges less and greater.
pub proof fn lemma_comparisons_fit_together(l: int, r: int)
    ensures
        int_compares(CompareOp::Lt, l, r) || int_compares(CompareOp::Eq, l, r) || int_compares(
            CompareOp::Gt,
            l,
            r,
        ),
        !(int_compares(CompareOp::Lt, l, r) && int_compares(CompareOp::Gt, l, r)),
        int_compares(CompareOp::Eq, l, r) ==> !int_compares(CompareOp::Lt, l, r) && !int_compares(
            CompareOp::Gt,
            l,
            r,
        ),
        int_compares(CompareOp::Ne, l, r) == !int_compares(CompareOp::Eq, l, r),
        int_compares(CompareOp::Ge, l, r) == !int_compares(CompareOp::Lt, l, r),
        int_compares(CompareOp::Le, l, r) == !int_compares(CompareOp::Gt, l, r),
        int_compares(CompareOp::Lt, l, r) == int_compares(CompareOp::Gt, r, l),
        l == r ==> int_compares(CompareOp::Eq, l, r),
{
}

/// A number is computed with and compared as it stands where one of the operands is fractional:
/// the function that the caller supplies gets both.
pub proof fn lemma_fractions_are_left_to_the_caller(
    f: spec_fn(ArithOp, Num, Num) -> Num,
    g: spec_fn(CompareOp, Num, Num) -> bool,
    op: ArithOp,
    cop: CompareOp,
    l: Num,
    r: Num,
)
    requires
        l is Float || r is Float,
    ensures
        compares(g, cop, l, r) == g(cop, l, r),
        !(op is Div) ==> arithmetic_result(f, op, l, r) == f(op, l, r),
        op is Div && r != Num::Int(0) && r != Num::Float(0) && r != Num::Float(
            0x8000_0000_0000_0000,
        ) ==> arithmetic_result(f, op, l, r) == f(op, l, r),
        op is Div && (r == Num::Int(0) || r == Num::Float(0) || r == Num::Float(
            0x8000_0000_0000_0000,
        )) ==> arithmetic_result(f, op, l, r) == Num::Float(0x7ff8_0000_0000_0000),
{
}

/// A result beyond 64 bits becomes the end of the range that it lies beyond.
pub proof fn lemma_large_results_stay_in_range(l: i64, r: i64)
    requires
        l > 0,
        r > 0,
        to_double(to_double(l as int) + to_double(r as int)) > i64::MAX,
    ensures
        int_result(ArithOp::Add, l, r) == Some(Num::Int(i64::MAX)),
{
}

} // verus!
