//! How long to wait when the server asks for it.

use vstd::prelude::*;

use crate::text::{
    decimal, digits_end, digits_to_u64, digits_value, find_text, first_at, is_digit,
    lemma_decimal_value, occurs, occurs_at, skip_digits, skip_spaces, spaces_end, to_chars,
};

verus! {

/// The positive 64-bit number that follows the first `needle` in `err`, white space skipped.
pub open spec fn is_number_after(err: Seq<char>, needle: Seq<char>, n: u64) -> bool {
    exists|i: int| #[trigger]
        first_at(err, needle, i) && {
            let from = spaces_end(err, i + needle.len());
            let run = err.subrange(from, digits_end(err, from));
            run.len() > 0 && digits_value(run) == n && n > 0
        }
}

/// Some positive 64-bit number follows the first `needle` in `err`.
pub open spec fn has_number_after(err: Seq<char>, needle: Seq<char>) -> bool {
    exists|n: u64| is_number_after(err, needle, n)
}

fn number_after(v: &Vec<char>, needle: &str) -> (r: Option<u64>)
    ensures
        match r {
            Some(n) => is_number_after(v@, needle@, n),
            None => !has_number_after(v@, needle@),
        },
{
    let len = to_chars(needle).len();
    match find_text(v, needle) {
        Some(i) => {
            assert(i + len <= v.len());
            let from = skip_spaces(v, i + len);
            let to = skip_digits(v, from);
            assert forall|k: int| first_at(v@, needle@, k) implies k == i by {}
            if to == from {
                return None;
            }
            match digits_to_u64(v, from, to) {
                Some(n) => {
                    if n > 0 {
                        Some(n)
                    } else {
                        None
                    }
                },
                None => None,
            }
        },
        None => {
            assert forall|k: int| !first_at(v@, needle@, k) by {}
            None
        },
    }
}

/// The seconds that an error asks to wait, or `None` if it is no `FLOOD_WAIT` error.
pub open spec fn flood_wait(err: Seq<char>) -> Option<u64> {
    if !occurs(err, "FLOOD_WAIT"@) {
        None
    } else if has_number_after(err, "value:"@) {
        Some(choose|n: u64| is_number_after(err, "value:"@, n))
    } else if has_number_after(err, "FLOOD_WAIT_"@) {
        Some(choose|n: u64| is_number_after(err, "FLOOD_WAIT_"@, n))
    } else {
        Some(DEFAULT_FLOOD_WAIT)
    }
}

/// Seconds to wait where no number can be read.
pub const DEFAULT_FLOOD_WAIT: u64 = 60;

/// Seconds to wait for a `FLOOD_WAIT` error, or `None` if `err` is not one.
///
/// The number stands behind `value:`, or else behind `FLOOD_WAIT_`. Where neither gives one, the
/// wait is a minute, so that a retry is never too eager.
pub fn flood_wait_secs(err: &str) -> (r: Option<u64>)
    ensures
        r is Some <==> occurs(err@, "FLOOD_WAIT"@),
        r matches Some(n) ==> if has_number_after(err@, "value:"@) {
            is_number_after(err@, "value:"@, n)
        } else if has_number_after(err@, "FLOOD_WAIT_"@) {
            is_number_after(err@, "FLOOD_WAIT_"@, n)
        } else {
            n == DEFAULT_FLOOD_WAIT
        },
        r == flood_wait(err@),
{
    let v = to_chars(err);
    if find_text(&v, "FLOOD_WAIT").is_none() {
        return None;
    }
    if let Some(n) = number_after(&v, "value:") {
        proof {
            let m = choose|m: u64| is_number_after(err@, "value:"@, m);
            lemma_number_after_unique(err@, "value:"@, n, m);
        }
        return Some(n);
    }
    if let Some(n) = number_after(&v, "FLOOD_WAIT_") {
        proof {
            let m = choose|m: u64| is_number_after(err@, "FLOOD_WAIT_"@, m);
            lemma_number_after_unique(err@, "FLOOD_WAIT_"@, n, m);
        }
        return Some(n);
    }
    Some(DEFAULT_FLOOD_WAIT)
}

/// At most one number follows a needle.
pub proof fn lemma_number_after_unique(err: Seq<char>, needle: Seq<char>, a: u64, b: u64)
    requires
        is_number_after(err, needle, a),
        is_number_after(err, needle, b),
    ensures
        a == b,
{
    let i = choose|i: int| #[trigger] first_at(err, needle, i);
    assert forall|k: int| first_at(err, needle, k) implies k == i by {}
}

/// A wait is never shorter than a second.
pub proof fn lemma_flood_wait_is_positive(err: Seq<char>)
    requires
        flood_wait(err) is Some,
    ensures
        flood_wait(err)->0 > 0,
{
    if has_number_after(err, "value:"@) {
        assert(is_number_after(err, "value:"@, flood_wait(err)->0));
    } else if has_number_after(err, "FLOOD_WAIT_"@) {
        assert(is_number_after(err, "FLOOD_WAIT_"@, flood_wait(err)->0));
    }
}

proof fn lemma_run_reaches(s: Seq<char>, i: int, e: int)
    requires
        0 <= i <= e <= s.len(),
        forall|k: int| i <= k < e ==> is_digit(#[trigger] s[k]),
        e < s.len() ==> !is_digit(s[e]),
    ensures
        digits_end(s, i) == e,
    decreases e - i,
{
    if i < e {
        lemma_run_reaches(s, i + 1, e);
    }
}

/// The number behind the first needle is read, with a space before it or without.
proof fn lemma_number_is_read(
    err: Seq<char>,
    pre: Seq<char>,
    needle: Seq<char>,
    gap: Seq<char>,
    n: u64,
    post: Seq<char>,
)
    requires
        err == pre + needle + gap + decimal(n as nat) + post,
        first_at(err, needle, pre.len() as int),
        gap.len() == 0 || gap == " "@,
        post.len() > 0 ==> !('0' <= post[0] && post[0] <= '9'),
        n > 0,
    ensures
        is_number_after(err, needle, n),
{
    reveal_strlit(" ");
    let digits = decimal(n as nat);
    lemma_decimal_value(n as nat);
    let at = (pre.len() + needle.len()) as int;
    let from = at + gap.len();
    let e = from + digits.len();
    assert forall|k: int| from <= k < e implies is_digit(#[trigger] err[k]) by {
        assert(err[k] == digits[k - from]);
    }
    if e < err.len() {
        assert(err[e] == post[0]);
    }
    assert(err[from] == digits[0]);
    assert(is_digit(digits[0]));
    assert(spaces_end(err, from) == from);
    if gap.len() > 0 {
        assert(err[at] == ' ');
        assert(spaces_end(err, at) == from);
    }
    lemma_run_reaches(err, from, e);
    assert(err.subrange(from, e) =~= digits);
    assert(first_at(err, needle, pre.len() as int));
}

/// An error that asks for a wait, and gives the seconds behind `value:`, is answered with a wait
/// of as many seconds, whatever else it says.
pub proof fn lemma_value_is_waited_for(err: Seq<char>, pre: Seq<char>, n: u64, post: Seq<char>)
    requires
        occurs(err, "FLOOD_WAIT"@),
        err == pre + "value:"@ + " "@ + decimal(n as nat) + post,
        first_at(err, "value:"@, pre.len() as int),
        post.len() > 0 ==> !('0' <= post[0] && post[0] <= '9'),
        n > 0,
    ensures
        flood_wait(err) == Some(n),
{
    lemma_number_is_read(err, pre, "value:"@, " "@, n, post);
    let m = choose|m: u64| is_number_after(err, "value:"@, m);
    lemma_number_after_unique(err, "value:"@, n, m);
}

proof fn lemma_suffix_holds_the_word(err: Seq<char>, i: int)
    requires
        occurs_at(err, "FLOOD_WAIT_"@, i),
    ensures
        occurs(err, "FLOOD_WAIT"@),
{
    let long = "FLOOD_WAIT_"@;
    let short = "FLOOD_WAIT"@;
    reveal_strlit("FLOOD_WAIT");
    reveal_strlit("FLOOD_WAIT_");
    assert(short =~= long.take(10));
    let found = err.subrange(i, i + long.len());
    assert(err.subrange(i, i + short.len()) =~= found.take(10));
    assert(occurs_at(err, short, i));
}

/// An error that gives the seconds behind `FLOOD_WAIT_` alone is answered with a wait of as many
/// seconds.
pub proof fn lemma_suffix_is_waited_for(err: Seq<char>, pre: Seq<char>, n: u64, post: Seq<char>)
    requires
        err == pre + "FLOOD_WAIT_"@ + decimal(n as nat) + post,
        first_at(err, "FLOOD_WAIT_"@, pre.len() as int),
        !occurs(err, "value:"@),
        post.len() > 0 ==> !('0' <= post[0] && post[0] <= '9'),
        n > 0,
    ensures
        flood_wait(err) == Some(n),
{
    let none = Seq::<char>::empty();
    assert(err =~= pre + "FLOOD_WAIT_"@ + none + decimal(n as nat) + post);
    lemma_number_is_read(err, pre, "FLOOD_WAIT_"@, none, n, post);
    let m = choose|m: u64| is_number_after(err, "FLOOD_WAIT_"@, m);
    lemma_number_after_unique(err, "FLOOD_WAIT_"@, n, m);
    lemma_suffix_holds_the_word(err, pre.len() as int);
    assert forall|k: u64| !is_number_after(err, "value:"@, k) by {}
}

/// An error that asks for no wait is answered with none, and one that gives no number with a wait
/// of a minute.
pub proof fn lemma_other_errors(err: &str, r: Option<u64>)
    requires
        call_ensures(flood_wait_secs, (err,), r),
    ensures
        r is None <==> !occurs(err@, "FLOOD_WAIT"@),
        occurs(err@, "FLOOD_WAIT"@) && !occurs(err@, "value:"@) && !occurs(err@, "FLOOD_WAIT_"@)
            ==> r == Some(60u64),
        r == flood_wait(err@),
{
    assert forall|k: u64| !occurs(err@, "value:"@) implies !is_number_after(
        err@,
        "value:"@,
        k,
    ) by {}
    assert forall|k: u64| !occurs(err@, "FLOOD_WAIT_"@) implies !is_number_after(
        err@,
        "FLOOD_WAIT_"@,
        k,
    ) by {}
}

} // verus!
