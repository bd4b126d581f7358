//! Signing in.

use vstd::prelude::*;

use crate::session::shutdown::{flood_wait, flood_wait_secs};
use crate::text::{copy_str, decimal, u64_text};

verus! {

/// How many times a login code is asked for again after a wait.
pub const MAX_AUTH_FLOOD_RETRIES: u32 = 3;

/// What to do after a login code was refused.
#[derive(Debug)]
pub enum LoginStep {
    /// Wait for so many seconds and ask again.
    Wait(u64),
    /// Fail with an error of this text.
    GiveUp(String),
    /// Fail with the error that came back.
    Fail,
}

/// The text of the error that ends the waiting.
pub open spec fn still_limited(err: Seq<char>) -> Seq<char> {
    "auth.sendCode still rate-limited after "@ + decimal(MAX_AUTH_FLOOD_RETRIES as nat)
        + " waits: "@ + err
}

/// Asking for a login code.
#[derive(Debug, Clone, Copy, PartialEq, Eq, Structural)]
pub struct LoginRequest {
    /// How many waits there were.
    pub waits: u32,
}

impl LoginRequest {
    /// A code that was not asked for yet.
    pub fn new() -> (r: LoginRequest)
        ensures
            r.waits == 0,
    {
        LoginRequest { waits: 0 }
    }

    /// What to do after the code was refused with an error of this text: wait as long as the
    /// server asks, up to three times, and fail otherwise.
    pub fn refused(&mut self, err: &str) -> (r: LoginStep)
        ensures
            match flood_wait(err@) {
                None => r is Fail && *final(self) == *old(self),
                Some(secs) => if old(self).waits >= MAX_AUTH_FLOOD_RETRIES {
                    &&& r matches LoginStep::GiveUp(text) && text@ == still_limited(err@)
                    &&& *final(self) == *old(self)
                } else {
                    &&& r matches LoginStep::Wait(n) && n == secs
                    &&& final(self).waits == old(self).waits + 1
                },
            },
    {
        match flood_wait_secs(err) {
            None => LoginStep::Fail,
            Some(secs) => {
                if self.waits >= MAX_AUTH_FLOOD_RETRIES {
                    let mut text = copy_str("auth.sendCode still rate-limited after ");
                    text.append(u64_text(MAX_AUTH_FLOOD_RETRIES as u64).as_str());
                    text.append(" waits: ");
                    text.append(err);
                    return LoginStep::GiveUp(text);
                }
                self.waits = self.waits + 1;
                LoginStep::Wait(secs)
            },
        }
    }
}

/// How many of these errors, one after the other, are answered with a wait, if there were `waits`
/// before.
pub open spec fn waits_for(waits: int, errors: Seq<Seq<char>>) -> int
    decreases errors.len(),
{
    if errors.len() == 0 || flood_wait(errors[0]) is None || waits >= MAX_AUTH_FLOOD_RETRIES {
        0
    } else {
        1 + waits_for(waits + 1, errors.drop_first())
    }
}

/// A login code is waited for at most three times.
pub proof fn lemma_waits_are_bounded(waits: int, errors: Seq<Seq<char>>)
    requires
        0 <= waits <= MAX_AUTH_FLOOD_RETRIES,
    ensures
        waits_for(waits, errors) <= MAX_AUTH_FLOOD_RETRIES - waits,
    decreases errors.len(),
{
    if errors.len() > 0 && flood_wait(errors[0]) is Some && waits < MAX_AUTH_FLOOD_RETRIES {
        lemma_waits_are_bounded(waits + 1, errors.drop_first());
    }
}

/// How the password is asked for, given the hint that was left for it.
pub fn password_prompt(hint: &Option<String>) -> (r: String)
    ensures
        r@ == "2FA password (hint: "@ + match hint {
            Some(text) => text@,
            None => Seq::<char>::empty(),
        } + "): "@,
{
    let mut r = copy_str("2FA password (hint: ");
    if let Some(text) = hint {
        r.append(text.as_str());
    }
    r.append("): ");
    assert(r@ =~= "2FA password (hint: "@ + match hint {
        Some(text) => text@,
        None => Seq::<char>::empty(),
    } + "): "@);
    r
}

/// A refused code is answered with the wait that the server asks for, three times at most, and
/// with a failure otherwise; after three waits the failure says so, with the error that came back.
pub proof fn lemma_refused_codes(request: &mut LoginRequest, err: &str, r: LoginStep)
    requires
        call_ensures(LoginRequest::refused, (request, err), r),
    ensures
        flood_wait(err@) is None <==> r is Fail,
        flood_wait(err@) is Some && old(request).waits < 3 ==> r == LoginStep::Wait(
            flood_wait(err@)->0,
        ) && final(request).waits == old(request).waits + 1,
        flood_wait(err@) is Some && old(request).waits >= 3 ==> r is GiveUp && r->GiveUp_0@
            == "auth.sendCode still rate-limited after "@ + decimal(3) + " waits: "@ + err@,
        !(r is Wait) ==> final(request).waits == old(request).waits,
{
}

/// The prompt for the password shows the hint that was left for it.
pub proof fn lemma_prompt_shows_the_hint(hint: &Option<String>, r: String)
    requires
        call_ensures(password_prompt, (hint,), r),
    ensures
        hint is Some ==> r@ == "2FA password (hint: "@ + hint->0@ + "): "@,
        hint is None ==> r@ == "2FA password (hint: "@ + "): "@,
{
    let none = Seq::<char>::empty();
    assert("2FA password (hint: "@ + none + "): "@ =~= "2FA password (hint: "@ + "): "@);
}

} // verus!
