//! Fetching one chunk: how often to try, how long to wait in between, and when to give up.

use vstd::prelude::*;

use crate::session::shutdown::{flood_wait, flood_wait_secs, lemma_flood_wait_is_positive};
use crate::text::{concat2, copy_str, decimal, u64_text};

verus! {

/// How many times a chunk is asked for.
pub const CHUNK_RETRY_LIMIT: u32 = 3;

/// The seconds to wait before a chunk or a file is asked for again, unless the server says
/// otherwise.
pub const RETRY_DELAY_SECS: u64 = 5;

/// What came back for a chunk.
#[derive(Debug)]
pub enum FetchReply {
    /// A piece of data of this length.
    Piece(u64),
    /// The end of the data.
    End,
    /// An error with this text.
    Error(String),
}

/// What came back for a chunk.
pub enum ReplyView {
    Piece(u64),
    End,
    Error(Seq<char>),
}

impl View for FetchReply {
    type V = ReplyView;

    open spec fn view(&self) -> ReplyView {
        match self {
            FetchReply::Piece(len) => ReplyView::Piece(*len),
            FetchReply::End => ReplyView::End,
            FetchReply::Error(text) => ReplyView::Error(text@),
        }
    }
}

/// Why a chunk could not be fetched.
#[derive(Debug)]
pub enum FetchError {
    /// The program is shutting down.
    Interrupted,
    /// The chunk's number is beyond what the server can be asked for.
    IndexTooLarge,
    /// A piece had another length than the chunk.
    Short { idx: u64, got: u64, expected: u64 },
    /// The data ended before the chunk.
    EndedEarly { idx: u64 },
    /// The server answered with an error.
    Failed { idx: u64, text: String },
    /// There was no attempt.
    GaveUp { idx: u64 },
}

/// Why a chunk could not be fetched.
pub enum FetchErrorView {
    Interrupted,
    IndexTooLarge,
    Short { idx: u64, got: u64, expected: u64 },
    EndedEarly { idx: u64 },
    Failed { idx: u64, text: Seq<char> },
    GaveUp { idx: u64 },
}

impl View for FetchError {
    type V = FetchErrorView;

    open spec fn view(&self) -> FetchErrorView {
        match self {
            FetchError::Interrupted => FetchErrorView::Interrupted,
            FetchError::IndexTooLarge => FetchErrorView::IndexTooLarge,
            FetchError::Short { idx, got, expected } => FetchErrorView::Short {
                idx: *idx,
                got: *got,
                expected: *expected,
            },
            FetchError::EndedEarly { idx } => FetchErrorView::EndedEarly { idx: *idx },
            FetchError::Failed { idx, text } => FetchErrorView::Failed { idx: *idx, text: text@ },
            FetchError::GaveUp { idx } => FetchErrorView::GaveUp { idx: *idx },
        }
    }
}

/// The text of an error.
pub open spec fn fetch_message(error: FetchErrorView) -> Seq<char> {
    match error {
        FetchErrorView::Interrupted => "download interrupted"@,
        FetchErrorView::IndexTooLarge => "out of range integral type conversion attempted"@,
        FetchErrorView::Short { idx, got, expected } => "chunk "@ + decimal(idx as nat) + " short: "@
            + decimal(got as nat) + " vs "@ + decimal(expected as nat) + " bytes"@,
        FetchErrorView::EndedEarly { idx } => "chunk "@ + decimal(idx as nat)
            + " stream ended early"@,
        FetchErrorView::Failed { idx, text } => "chunk "@ + decimal(idx as nat) + ": "@ + text,
        FetchErrorView::GaveUp { idx } => "chunk "@ + decimal(idx as nat)
            + " failed after retries"@,
    }
}

fn chunk_text(idx: u64, rest: &str) -> (r: String)
    ensures
        r@ == "chunk "@ + decimal(idx as nat) + rest@,
{
    let mut r = concat2("chunk ", u64_text(idx).as_str());
    r.append(rest);
    r
}

impl FetchError {
    /// The text of the error.
    pub fn message(&self) -> (r: String)
        ensures
            r@ == fetch_message(self@),
    {
        match self {
            FetchError::Interrupted => copy_str("download interrupted"),
            FetchError::IndexTooLarge => copy_str(
                "out of range integral type conversion attempted",
            ),
            FetchError::Short { idx, got, expected } => {
                let mut r = chunk_text(*idx, " short: ");
                r.append(u64_text(*got).as_str());
                r.append(" vs ");
                r.append(u64_text(*expected).as_str());
                r.append(" bytes");
                r
            },
            FetchError::EndedEarly { idx } => chunk_text(*idx, " stream ended early"),
            FetchError::Failed { idx, text } => {
                let mut r = chunk_text(*idx, ": ");
                r.append(text.as_str());
                r
            },
            FetchError::GaveUp { idx } => chunk_text(*idx, " failed after retries"),
        }
    }
}

/// What to do next about a chunk.
#[derive(Debug, Clone, Copy, PartialEq, Eq, Structural)]
pub enum FetchStep {
    /// Ask for it.
    Ask,
    /// Wait for so many seconds, then ask for it; stop if the wait is cut short.
    Wait(u64),
    /// Stop asking.
    Stop,
}

/// One chunk being fetched.
#[derive(Debug)]
pub struct ChunkFetch {
    /// The number of the chunk.
    pub idx: u64,
    /// How long the chunk is.
    pub expected: u64,
    /// How many replies were turned down.
    pub attempt: u32,
    /// The seconds to wait before the chunk is asked for again.
    pub backoff: u64,
    /// Why the last reply was turned down.
    pub last_err: Option<FetchError>,
}

/// One chunk being fetched.
pub struct FetchView {
    pub idx: u64,
    pub expected: u64,
    pub attempt: u32,
    pub backoff: u64,
    pub last_err: Option<FetchErrorView>,
}

impl View for ChunkFetch {
    type V = FetchView;

    open spec fn view(&self) -> FetchView {
        FetchView {
            idx: self.idx,
            expected: self.expected,
            attempt: self.attempt,
            backoff: self.backoff,
            last_err: match self.last_err {
                Some(e) => Some(e@),
                None => None,
            },
        }
    }
}

/// A chunk that was not asked for yet.
pub open spec fn fresh_fetch(idx: u64, expected: u64) -> FetchView {
    FetchView { idx, expected, attempt: 0, backoff: 0, last_err: None }
}

/// What to do before the next reply.
pub open spec fn step_of(s: FetchView, cancelled: bool) -> FetchStep {
    if s.attempt >= CHUNK_RETRY_LIMIT || cancelled {
        FetchStep::Stop
    } else if s.backoff > 0 {
        FetchStep::Wait(s.backoff)
    } else {
        FetchStep::Ask
    }
}

/// The fetch once it knows what to do; a wait is used up.
pub open spec fn after_step(s: FetchView, cancelled: bool) -> FetchView {
    if step_of(s, cancelled) is Stop {
        s
    } else {
        FetchView { backoff: 0, ..s }
    }
}

/// Whether a reply is the whole chunk.
pub open spec fn accepted(s: FetchView, reply: ReplyView) -> bool {
    reply == ReplyView::Piece(s.expected)
}

/// The fetch after a reply that is not the whole chunk: one attempt less, and a wait before the
/// next one, which is as long as the server asks for.
pub open spec fn turned_down(s: FetchView, reply: ReplyView) -> FetchView {
    FetchView {
        attempt: (s.attempt + 1) as u32,
        backoff: match reply {
            ReplyView::Error(text) => match flood_wait(text) {
                Some(n) => n,
                None => RETRY_DELAY_SECS,
            },
            _ => RETRY_DELAY_SECS,
        },
        last_err: Some(
            match reply {
                ReplyView::Piece(got) => FetchErrorView::Short {
                    idx: s.idx,
                    got,
                    expected: s.expected,
                },
                ReplyView::End => FetchErrorView::EndedEarly { idx: s.idx },
                ReplyView::Error(text) => FetchErrorView::Failed { idx: s.idx, text },
            },
        ),
        ..s
    }
}

/// Why a fetch that stopped has failed.
pub open spec fn failure_of(s: FetchView, cancelled: bool) -> FetchErrorView {
    if cancelled {
        FetchErrorView::Interrupted
    } else {
        match s.last_err {
            Some(e) => e,
            None => FetchErrorView::GaveUp { idx: s.idx },
        }
    }
}

impl ChunkFetch {
    /// A chunk that was not asked for yet.
    pub fn new(idx: u64, expected: u64) -> (r: ChunkFetch)
        ensures
            r@ == fresh_fetch(idx, expected),
    {
        ChunkFetch { idx, expected, attempt: 0, backoff: 0, last_err: None }
    }

    /// What to do next, given whether the program is shutting down.
    pub fn step(&mut self, cancelled: bool) -> (r: FetchStep)
        ensures
            r == step_of(old(self)@, cancelled),
            final(self)@ == after_step(old(self)@, cancelled),
    {
        if self.attempt >= CHUNK_RETRY_LIMIT || cancelled {
            return FetchStep::Stop;
        }
        let delay: u64 = self.backoff;
        self.backoff = 0;
        if delay > 0 {
            FetchStep::Wait(delay)
        } else {
            FetchStep::Ask
        }
    }

    /// The number under which the server is asked for the chunk.
    pub fn request_index(&self) -> (r: Result<i32, FetchError>)
        ensures
            match r {
                Ok(i) => i == self@.idx,
                Err(e) => self@.idx > i32::MAX && e@ is IndexTooLarge,
            },
    {
        if self.idx <= i32::MAX as u64 {
            Ok(self.idx as i32)
        } else {
            Err(FetchError::IndexTooLarge)
        }
    }

    /// Takes a reply: whether it is the whole chunk.
    pub fn reply(&mut self, reply: FetchReply) -> (r: bool)
        requires
            old(self)@.attempt < CHUNK_RETRY_LIMIT,
        ensures
            r == accepted(old(self)@, reply@),
            final(self)@ == if r {
                old(self)@
            } else {
                turned_down(old(self)@, reply@)
            },
    {
        let idx = self.idx;
        match reply {
            FetchReply::Piece(got) => {
                if got == self.expected {
                    return true;
                }
                self.backoff = RETRY_DELAY_SECS;
                self.last_err = Some(FetchError::Short { idx, got, expected: self.expected });
            },
            FetchReply::End => {
                self.backoff = RETRY_DELAY_SECS;
                self.last_err = Some(FetchError::EndedEarly { idx });
            },
            FetchReply::Error(text) => {
                self.backoff = match flood_wait_secs(text.as_str()) {
                    Some(n) => n,
                    None => RETRY_DELAY_SECS,
                };
                self.last_err = Some(FetchError::Failed { idx, text });
            },
        }
        self.attempt = self.attempt + 1;
        false
    }

    /// Why the fetch has failed, once it stopped.
    pub fn failure(self, cancelled: bool) -> (r: FetchError)
        ensures
            r@ == failure_of(self@, cancelled),
    {
        if cancelled {
            return FetchError::Interrupted;
        }
        match self.last_err {
            Some(e) => e,
            None => FetchError::GaveUp { idx: self.idx },
        }
    }
}

// ── whole fetches ────────────────────────────────────────────────────────

/// What becomes of a fetch that is not cancelled and gets these replies, in this order: how many
/// of them it asks for, and whether the last of those is the whole chunk.
pub open spec fn fetch_run(s: FetchView, replies: Seq<ReplyView>) -> (int, Result<
    (),
    FetchErrorView,
>)
    decreases replies.len(),
{
    if step_of(s, false) is Stop || replies.len() == 0 {
        (0, Err(failure_of(s, false)))
    } else {
        let asked = after_step(s, false);
        if accepted(asked, replies[0]) {
            (1, Ok(()))
        } else {
            let (n, r) = fetch_run(turned_down(asked, replies[0]), replies.drop_first());
            (n + 1, r)
        }
    }
}

/// A chunk is asked for at most three times.
pub proof fn lemma_fetch_is_bounded(s: FetchView, replies: Seq<ReplyView>)
    requires
        s.attempt <= CHUNK_RETRY_LIMIT,
    ensures
        0 <= fetch_run(s, replies).0 <= CHUNK_RETRY_LIMIT - s.attempt,
    decreases replies.len(),
{
    if s.attempt < CHUNK_RETRY_LIMIT && replies.len() > 0 {
        let asked = after_step(s, false);
        if !accepted(asked, replies[0]) {
            lemma_fetch_is_bounded(turned_down(asked, replies[0]), replies.drop_first());
        }
    }
}

/// A chunk is fetched if and only if one of the replies that may still be asked for has its
/// length.
pub proof fn lemma_fetch_succeeds(s: FetchView, replies: Seq<ReplyView>)
    requires
        s.attempt <= CHUNK_RETRY_LIMIT,
    ensures
        fetch_run(s, replies).1 is Ok <==> exists|k: int|
            0 <= k < replies.len() && k < CHUNK_RETRY_LIMIT - s.attempt && #[trigger] replies[k]
                == ReplyView::Piece(s.expected),
    decreases replies.len(),
{
    if s.attempt < CHUNK_RETRY_LIMIT && replies.len() > 0 {
        let asked = after_step(s, false);
        if accepted(asked, replies[0]) {
            assert(replies[0] == ReplyView::Piece(s.expected));
        } else {
            let rest = replies.drop_first();
            let next = turned_down(asked, replies[0]);
            lemma_fetch_succeeds(next, rest);
            assert forall|k: int|
                0 <= k < replies.len() && k < CHUNK_RETRY_LIMIT - s.attempt && #[trigger] replies[k]
                    == ReplyView::Piece(s.expected) implies fetch_run(next, rest).1 is Ok by {
                assert(rest[k - 1] == replies[k]);
            }
            if fetch_run(next, rest).1 is Ok {
                let k = choose|k: int|
                    0 <= k < rest.len() && k < CHUNK_RETRY_LIMIT - next.attempt
                        && #[trigger] rest[k] == ReplyView::Piece(s.expected);
                assert(replies[k + 1] == rest[k]);
            }
        }
    }
}

/// After a `FLOOD_WAIT` error the fetch waits for as long as the error asks, unless it is over.
pub proof fn lemma_flood_wait_is_kept(s: FetchView, text: Seq<char>)
    requires
        s.attempt + 1 < CHUNK_RETRY_LIMIT,
        flood_wait(text) is Some,
    ensures
        step_of(turned_down(s, ReplyView::Error(text)), false) == FetchStep::Wait(
            flood_wait(text)->0,
        ),
{
    lemma_flood_wait_is_positive(text);
}

/// What a fetch does next: it stops after three replies that were turned down, or when the program
/// is shutting down; otherwise it waits, if there is a wait, and asks.
pub proof fn lemma_steps_of_a_fetch(f: &mut ChunkFetch, cancelled: bool, r: FetchStep)
    requires
        call_ensures(ChunkFetch::step, (f, cancelled), r),
    ensures
        r is Stop <==> cancelled || old(f)@.attempt >= 3,
        r matches FetchStep::Wait(secs) ==> secs == old(f)@.backoff && secs > 0,
        r is Ask ==> old(f)@.backoff == 0,
        !(r is Stop) ==> final(f)@.backoff == 0,
        final(f)@.attempt == old(f)@.attempt,
        final(f)@.idx == old(f)@.idx,
        final(f)@.expected == old(f)@.expected,
        final(f)@.last_err == old(f)@.last_err,
{
}

/// A reply is taken if and only if it is a piece as long as the chunk. Any other reply counts as
/// an attempt, and the next one comes after five seconds, or after as long as the server asks.
pub proof fn lemma_replies_to_a_fetch(f: &mut ChunkFetch, reply: FetchReply, r: bool)
    requires
        call_ensures(ChunkFetch::reply, (f, reply), r),
        old(f)@.attempt < 3,
    ensures
        match reply {
            FetchReply::Piece(len) => r <==> len == old(f)@.expected,
            _ => !r,
        },
        r ==> final(f)@ == old(f)@,
        !r ==> {
            &&& final(f)@.attempt == old(f)@.attempt + 1
            &&& final(f)@.idx == old(f)@.idx
            &&& final(f)@.expected == old(f)@.expected
            &&& match reply {
                FetchReply::Error(text) => match flood_wait(text@) {
                    Some(secs) => final(f)@.backoff == secs,
                    None => final(f)@.backoff == 5,
                },
                _ => final(f)@.backoff == 5,
            }
            &&& final(f)@.last_err == Some(
                match reply {
                    FetchReply::Piece(len) => FetchErrorView::Short {
                        idx: old(f)@.idx,
                        got: len,
                        expected: old(f)@.expected,
                    },
                    FetchReply::End => FetchErrorView::EndedEarly { idx: old(f)@.idx },
                    FetchReply::Error(text) => FetchErrorView::Failed {
                        idx: old(f)@.idx,
                        text: text@,
                    },
                },
            )
        },
{
}

/// A fetch starts with nothing asked for and nothing to wait for.
pub proof fn lemma_fetches_start_fresh(idx: u64, expected: u64, r: ChunkFetch)
    requires
        call_ensures(ChunkFetch::new, (idx, expected), r),
    ensures
        r@.idx == idx,
        r@.expected == expected,
        r@.attempt == 0,
        r@.backoff == 0,
        r@.last_err is None,
{
}

/// A fetch that has failed says why its last reply was turned down, unless the program is shutting
/// down.
pub proof fn lemma_last_reply_is_blamed(f: ChunkFetch, cancelled: bool, r: FetchError)
    requires
        call_ensures(ChunkFetch::failure, (f, cancelled), r),
    ensures
        cancelled ==> r@ is Interrupted,
        !cancelled && f@.last_err is Some ==> r@ == f@.last_err->0,
        !cancelled && f@.last_err is None ==> r@ == (FetchErrorView::GaveUp { idx: f@.idx }),
{
}

/// A chunk is asked for under its own number, as far as the server counts.
pub proof fn lemma_chunks_are_asked_for_by_number(f: &ChunkFetch, r: Result<i32, FetchError>)
    requires
        call_ensures(ChunkFetch::request_index, (f,), r),
    ensures
        f@.idx <= 0x7fff_ffff <==> r is Ok,
        r matches Ok(i) ==> i == f@.idx,
        r matches Err(e) ==> e@ is IndexTooLarge,
{
}

/// The text of an error names the chunk, and tells what was short of what.
pub proof fn lemma_errors_name_the_chunk(e: &FetchError, r: String)
    requires
        call_ensures(FetchError::message, (e,), r),
    ensures
        match e@ {
            FetchErrorView::Interrupted => r@ == "download interrupted"@,
            FetchErrorView::IndexTooLarge => r@
                == "out of range integral type conversion attempted"@,
            FetchErrorView::Short { idx, got, expected } => r@ == "chunk "@ + decimal(idx as nat)
                + " short: "@ + decimal(got as nat) + " vs "@ + decimal(expected as nat)
                + " bytes"@,
            FetchErrorView::EndedEarly { idx } => r@ == "chunk "@ + decimal(idx as nat)
                + " stream ended early"@,
            FetchErrorView::Failed { idx, text } => r@ == "chunk "@ + decimal(idx as nat) + ": "@
                + text,
            FetchErrorView::GaveUp { idx } => r@ == "chunk "@ + decimal(idx as nat)
                + " failed after retries"@,
        },
{
}

} // verus!
