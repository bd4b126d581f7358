//! Downloading the media of one message: what to do next, given what happened.

use vstd::prelude::*;
use vstd::utf8::encode_utf8;

use crate::downloader::fetch::RETRY_DELAY_SECS;
use crate::downloader::finalize::FileIds;
use crate::downloader::metadata::{media_size, total_size, Media, Message};
use crate::downloader::progress::{lemma_progress_is_read_back, recorded, resume_at};
use crate::text::{copy_str, decimal, i64_text, lemma_decimal_value, signed_decimal};

verus! {

/// How many times a file is tried.
pub const RETRY_LIMIT: u32 = 3;

// ── before anything is fetched ───────────────────────────────────────────

/// The number of a message's file, as text; empty for media that has none.
pub open spec fn file_id(media: Media) -> Seq<char> {
    match media {
        Media::Photo(photo) => signed_decimal(photo.id as int),
        Media::Document(doc) => signed_decimal(doc.id as int),
        Media::Other => Seq::empty(),
    }
}

/// The number of a message's file, as text; empty for media that has none.
pub fn file_unique_id(media: &Media) -> (r: String)
    ensures
        r@ == file_id(*media),
{
    match media {
        Media::Photo(photo) => i64_text(photo.id),
        Media::Document(doc) => i64_text(doc.id),
        Media::Other => String::new(),
    }
}

/// Whether a message has something to download.
#[derive(Debug)]
pub enum Opening {
    /// It carries no media.
    NoMedia,
    /// Its file is known to be downloaded.
    Known,
    /// Its file is to be downloaded, unless it is there already.
    Wanted {
        /// The number of the file, empty where it has none.
        file_id: String,
        /// The size of the file, zero where it is not known.
        total: u64,
    },
}

/// Whether a message has something to download.
pub fn open_download(msg: &Message, known: &FileIds) -> (r: Opening)
    ensures
        match msg.media {
            None => r is NoMedia,
            Some(media) => if file_id(media).len() > 0 && known@.contains(file_id(media)) {
                r is Known
            } else {
                r matches Opening::Wanted { file_id: id, total } && id@ == file_id(media) && total
                    == media_size(media)
            },
        },
{
    match &msg.media {
        None => Opening::NoMedia,
        Some(media) => {
            let id = file_unique_id(media);
            if !id.as_str().is_empty() && known.contains(id.as_str()) {
                return Opening::Known;
            }
            Opening::Wanted { file_id: id, total: total_size(media) }
        },
    }
}

// ── while it is fetched ──────────────────────────────────────────────────

/// What a download waits for.
#[derive(Debug, Clone, Copy, PartialEq, Eq, Structural)]
pub enum Phase {
    /// Whether the program is shutting down, before an attempt.
    Ready,
    /// The end of a pause before an attempt.
    Pausing,
    /// The position at which an attempt goes on.
    Measuring,
    /// The end of fetching a file of unknown size in one go.
    FetchingWhole,
    /// The end of fetching a part of a file in chunks.
    FetchingPart,
    /// The size of the partial file.
    Sizing,
    /// Nothing: the file is complete.
    Complete,
    /// Nothing: the download has stopped short of a file.
    Stopped,
}

/// Something that happened to a download.
#[derive(Debug)]
pub enum Event {
    /// An attempt may start, unless the program is shutting down.
    Start { cancelled: bool },
    /// A pause is over; it was cut short if the program is shutting down.
    PauseOver { cut: bool },
    /// This is the position at which the attempt goes on.
    ResumeAt(u64),
    /// The program shut down while downloads were held.
    Held,
    /// The file was fetched.
    Fetched,
    /// The file was not fetched, for the reason that the text gives.
    NotFetched { error: String, cancelled: bool },
    /// This is the size of the partial file.
    Size(u64),
}

/// Something that happened to a download.
pub enum EventView {
    Start { cancelled: bool },
    PauseOver { cut: bool },
    ResumeAt(u64),
    Held,
    Fetched,
    NotFetched { error: Seq<char>, cancelled: bool },
    Size(u64),
}

impl View for Event {
    type V = EventView;

    open spec fn view(&self) -> EventView {
        match self {
            Event::Start { cancelled } => EventView::Start { cancelled: *cancelled },
            Event::PauseOver { cut } => EventView::PauseOver { cut: *cut },
            Event::ResumeAt(at) => EventView::ResumeAt(*at),
            Event::Held => EventView::Held,
            Event::Fetched => EventView::Fetched,
            Event::NotFetched { error, cancelled } => EventView::NotFetched {
                error: error@,
                cancelled: *cancelled,
            },
            Event::Size(n) => EventView::Size(*n),
        }
    }
}

/// What is to be done about a download.
#[derive(Debug, Clone, Copy, PartialEq, Eq, Structural)]
pub enum Action {
    /// Pause for so many seconds.
    Pause(u64),
    /// Find out at which position to go on.
    Measure,
    /// Fetch the file in one go.
    FetchWhole,
    /// Fetch the bytes from one position to the other in chunks.
    FetchPart { from: u64, to: u64 },
    /// Find out how large the partial file is.
    Weigh,
    /// Start another attempt; where `discard` is set, remove the partial file first.
    Retry { discard: bool },
    /// The partial file, of this size, is complete: move it to its place.
    Finalize(u64),
    /// Stop without a file.
    Stop,
}

/// The download of one file.
#[derive(Debug)]
pub struct Download {
    /// The size of the file, zero where it is not known.
    pub total: u64,
    /// The position at which the first attempt goes on.
    pub existing: u64,
    /// How many attempts have failed.
    pub attempt: u32,
    /// Why the last attempt failed.
    pub last_err: Option<String>,
    /// What the download waits for.
    pub phase: Phase,
}

/// The download of one file.
pub struct DownloadView {
    pub total: u64,
    pub existing: u64,
    pub attempt: u32,
    pub last_err: Option<Seq<char>>,
    pub phase: Phase,
}

impl View for Download {
    type V = DownloadView;

    open spec fn view(&self) -> DownloadView {
        DownloadView {
            total: self.total,
            existing: self.existing,
            attempt: self.attempt,
            last_err: match self.last_err {
                Some(text) => Some(text@),
                None => None,
            },
            phase: self.phase,
        }
    }
}

/// A download that goes on at `existing`. One that a record marks as complete is.
pub open spec fn fresh_download(total: u64, existing: u64) -> DownloadView {
    DownloadView {
        total,
        existing,
        attempt: 0,
        last_err: None,
        phase: if total > 0 && existing == total {
            Phase::Complete
        } else {
            Phase::Ready
        },
    }
}

/// Whether the event is one that the download waits for.
pub open spec fn awaits(phase: Phase, event: EventView) -> bool {
    match phase {
        Phase::Ready => event is Start,
        Phase::Pausing => event is PauseOver,
        Phase::Measuring => event is ResumeAt,
        Phase::FetchingWhole => event is Held || event is Fetched || event is NotFetched,
        Phase::FetchingPart => event is Fetched || event is NotFetched,
        Phase::Sizing => event is Size,
        _ => false,
    }
}

/// How an attempt fetches from position `at` on: in one go where the size of the file is not
/// known, in chunks where something is missing, and not at all otherwise.
pub open spec fn fetch_action(total: u64, at: u64) -> Action {
    if total == 0 {
        Action::FetchWhole
    } else if at < total {
        Action::FetchPart { from: at, to: total }
    } else {
        Action::Weigh
    }
}

/// What the download does upon an event that it waits for.
pub open spec fn action_of(s: DownloadView, event: EventView) -> Action {
    match event {
        EventView::Start { cancelled } => if s.attempt >= RETRY_LIMIT || cancelled {
            Action::Stop
        } else if s.attempt > 0 {
            Action::Pause(RETRY_DELAY_SECS)
        } else {
            fetch_action(s.total, s.existing)
        },
        EventView::PauseOver { cut } => if cut {
            Action::Stop
        } else {
            Action::Measure
        },
        EventView::ResumeAt(at) => fetch_action(s.total, at),
        EventView::Held => Action::Stop,
        EventView::Fetched => Action::Weigh,
        EventView::NotFetched { error, cancelled } => if s.phase is FetchingPart {
            Action::Retry { discard: false }
        } else if cancelled {
            Action::Stop
        } else {
            Action::Retry { discard: true }
        },
        EventView::Size(n) => if s.total > 0 && n != s.total {
            Action::Retry { discard: true }
        } else {
            Action::Finalize(n)
        },
    }
}

/// What the download waits for once it does something.
pub open spec fn phase_after(action: Action) -> Phase {
    match action {
        Action::Pause(_) => Phase::Pausing,
        Action::Measure => Phase::Measuring,
        Action::FetchWhole => Phase::FetchingWhole,
        Action::FetchPart { .. } => Phase::FetchingPart,
        Action::Weigh => Phase::Sizing,
        Action::Retry { .. } => Phase::Ready,
        Action::Finalize(_) => Phase::Complete,
        Action::Stop => Phase::Stopped,
    }
}

/// The download after an event that it waits for: another attempt counts the one that failed,
/// and the reason of the last failure is kept.
pub open spec fn state_after(s: DownloadView, event: EventView) -> DownloadView {
    let action = action_of(s, event);
    DownloadView {
        phase: phase_after(action),
        attempt: if action is Retry {
            (s.attempt + 1) as u32
        } else {
            s.attempt
        },
        last_err: match event {
            EventView::NotFetched { error, .. } => Some(error),
            EventView::Size(_) => if action is Retry {
                Some("size mismatch"@)
            } else {
                s.last_err
            },
            _ => s.last_err,
        },
        ..s
    }
}

/// Why a download that stopped has failed.
pub open spec fn failure_text(s: DownloadView, cancelled: bool) -> Seq<char> {
    if cancelled {
        "download interrupted"@
    } else {
        match s.last_err {
            Some(text) => text,
            None => "download failed"@,
        }
    }
}

impl DownloadView {
    /// What holds of every download: as long as it is under way, attempts are left.
    pub open spec fn wf(self) -> bool {
        &&& self.attempt <= RETRY_LIMIT
        &&& !(self.phase is Ready || self.phase is Complete || self.phase is Stopped)
            ==> self.attempt < RETRY_LIMIT
    }
}

impl Download {
    /// A download that goes on at `existing`.
    pub fn new(total: u64, existing: u64) -> (r: Download)
        ensures
            r@ == fresh_download(total, existing),
            r@.wf(),
    {
        let phase = if total > 0 && existing == total { Phase::Complete } else { Phase::Ready };
        Download { total, existing, attempt: 0, last_err: None, phase }
    }

    fn fetch_from(&self, at: u64) -> (r: Action)
        ensures
            r == fetch_action(self@.total, at),
    {
        if self.total == 0 {
            Action::FetchWhole
        } else if at < self.total {
            Action::FetchPart { from: at, to: self.total }
        } else {
            Action::Weigh
        }
    }

    /// What to do upon an event that the download waits for.
    pub fn step(&mut self, event: Event) -> (r: Action)
        requires
            old(self)@.wf(),
            awaits(old(self)@.phase, event@),
        ensures
            r == action_of(old(self)@, event@),
            final(self)@ == state_after(old(self)@, event@),
            final(self)@.wf(),
    {
        let action = match event {
            Event::Start { cancelled } => if self.attempt >= RETRY_LIMIT || cancelled {
                Action::Stop
            } else if self.attempt > 0 {
                Action::Pause(RETRY_DELAY_SECS)
            } else {
                self.fetch_from(self.existing)
            },
            Event::PauseOver { cut } => if cut {
                Action::Stop
            } else {
                Action::Measure
            },
            Event::ResumeAt(at) => self.fetch_from(at),
            Event::Held => Action::Stop,
            Event::Fetched => Action::Weigh,
            Event::NotFetched { error, cancelled } => {
                self.last_err = Some(error);
                match self.phase {
                    Phase::FetchingPart => Action::Retry { discard: false },
                    _ => if cancelled {
                        Action::Stop
                    } else {
                        Action::Retry { discard: true }
                    },
                }
            },
            Event::Size(n) => if self.total > 0 && n != self.total {
                self.last_err = Some(copy_str("size mismatch"));
                Action::Retry { discard: true }
            } else {
                Action::Finalize(n)
            },
        };
        self.phase = match action {
            Action::Pause(_) => Phase::Pausing,
            Action::Measure => Phase::Measuring,
            Action::FetchWhole => Phase::FetchingWhole,
            Action::FetchPart { .. } => Phase::FetchingPart,
            Action::Weigh => Phase::Sizing,
            Action::Retry { .. } => Phase::Ready,
            Action::Finalize(_) => Phase::Complete,
            Action::Stop => Phase::Stopped,
        };
        if let Action::Retry { .. } = action {
            self.attempt = self.attempt + 1;
        }
        action
    }

    /// Whether the partial file is kept once the download has stopped: it is, if the program is
    /// shutting down, so that the next run goes on with it.
    pub fn keeps_partial(&self, cancelled: bool) -> (r: bool)
        ensures
            r == cancelled,
    {
        cancelled
    }

    /// Why the download has failed, once it has stopped.
    pub fn failure(&self, cancelled: bool) -> (r: String)
        ensures
            r@ == failure_text(self@, cancelled),
    {
        if cancelled {
            return copy_str("download interrupted");
        }
        match &self.last_err {
            Some(text) => copy_str(text.as_str()),
            None => copy_str("download failed"),
        }
    }
}

// ── whole downloads ──────────────────────────────────────────────────────

/// Whether each of the events is one that the download waits for when it comes.
pub open spec fn runs(s: DownloadView, events: Seq<EventView>) -> bool
    decreases events.len(),
{
    events.len() == 0 || (awaits(s.phase, events[0]) && runs(
        state_after(s, events[0]),
        events.drop_first(),
    ))
}

/// What the download does upon each of the events.
pub open spec fn actions_of(s: DownloadView, events: Seq<EventView>) -> Seq<Action>
    decreases events.len(),
{
    if events.len() == 0 {
        Seq::empty()
    } else {
        seq![action_of(s, events[0])] + actions_of(
            state_after(s, events[0]),
            events.drop_first(),
        )
    }
}

/// How many of the actions fetch something.
pub open spec fn fetches(actions: Seq<Action>) -> int
    decreases actions.len(),
{
    if actions.len() == 0 {
        0
    } else {
        fetches(actions.drop_last()) + if actions.last() is FetchWhole || actions.last() is FetchPart {
            1int
        } else {
            0
        }
    }
}

proof fn lemma_fetches_concat(a: Seq<Action>, b: Seq<Action>)
    ensures
        fetches(a + b) == fetches(a) + fetches(b),
    decreases b.len(),
{
    if b.len() == 0 {
        assert(a + b =~= a);
    } else {
        lemma_fetches_concat(a, b.drop_last());
        assert((a + b).drop_last() =~= a + b.drop_last());
    }
}

/// How many attempts a download may still fetch in.
pub open spec fn attempts_left(s: DownloadView) -> int {
    match s.phase {
        Phase::Ready | Phase::Pausing | Phase::Measuring => RETRY_LIMIT - s.attempt,
        Phase::FetchingWhole | Phase::FetchingPart | Phase::Sizing => RETRY_LIMIT - s.attempt - 1,
        _ => 0,
    }
}

proof fn lemma_fetches_left(s: DownloadView, events: Seq<EventView>)
    requires
        s.wf(),
        runs(s, events),
    ensures
        fetches(actions_of(s, events)) <= attempts_left(s),
    decreases events.len(),
{
    if events.len() > 0 {
        let next = state_after(s, events[0]);
        let rest = events.drop_first();
        let first = seq![action_of(s, events[0])];
        lemma_fetches_left(next, rest);
        lemma_fetches_concat(first, actions_of(next, rest));
        assert(first.drop_last() =~= Seq::<Action>::empty());
        assert(fetches(first.drop_last()) == 0);
    }
}

/// Whatever happens, a file is fetched in at most three attempts.
pub proof fn lemma_attempts_are_bounded(total: u64, existing: u64, events: Seq<EventView>)
    requires
        runs(fresh_download(total, existing), events),
    ensures
        fetches(actions_of(fresh_download(total, existing), events)) <= RETRY_LIMIT,
{
    lemma_fetches_left(fresh_download(total, existing), events);
}

/// A file whose end was recorded is complete when it is tried again: it can be moved to its place
/// without fetching anything.
pub proof fn lemma_recorded_end_is_complete(len: u64, total: u64)
    requires
        total > 0,
    ensures
        ({
            let at = resume_at(Some(len), recorded(Some(encode_utf8(decimal(total as nat)))), total);
            at == total && fresh_download(total, at as u64).phase is Complete
        }),
{
    lemma_progress_is_read_back(total);
}

/// A file that a record marks as complete is not fetched again: nothing is waited for.
pub proof fn lemma_complete_file_is_not_fetched(total: u64, events: Seq<EventView>)
    requires
        total > 0,
        runs(fresh_download(total, total), events),
    ensures
        events.len() == 0,
{
}

/// Whatever happens, a file of known size is moved to its place only at that size.
pub proof fn lemma_finalized_at_full_size(s: DownloadView, events: Seq<EventView>, i: int)
    requires
        runs(s, events),
        0 <= i < actions_of(s, events).len(),
        actions_of(s, events)[i] is Finalize,
        s.total > 0,
    ensures
        actions_of(s, events)[i] == Action::Finalize(s.total),
    decreases events.len(),
{
    if events.len() > 0 && i > 0 {
        let next = state_after(s, events[0]);
        let rest = events.drop_first();
        assert(actions_of(s, events)[i] == actions_of(next, rest)[i - 1]);
        lemma_finalized_at_full_size(next, rest, i - 1);
    }
}

/// A partial file that is fetched in chunks is not discarded because an attempt fails: the next
/// one goes on with it.
pub proof fn lemma_failed_chunks_are_kept(s: DownloadView, error: Seq<char>, cancelled: bool)
    requires
        s.phase is FetchingPart,
    ensures
        action_of(s, EventView::NotFetched { error, cancelled }) == (Action::Retry {
            discard: false,
        }),
{
}

/// Nothing is discarded while the program is shutting down, but a file of the wrong size.
pub proof fn lemma_shutdown_discards_nothing(s: DownloadView, event: EventView)
    requires
        awaits(s.phase, event),
        match event {
            EventView::Start { cancelled } => cancelled,
            EventView::PauseOver { cut } => cut,
            EventView::NotFetched { cancelled, .. } => cancelled,
            EventView::Held => true,
            _ => false,
        },
    ensures
        action_of(s, event) != (Action::Retry { discard: true }),
{
}

/// A download that can no longer go on, because of a shutdown or because three attempts have
/// failed, stops at the start of its next attempt.
pub proof fn lemma_download_stops(s: DownloadView, cancelled: bool)
    requires
        cancelled || s.attempt >= RETRY_LIMIT,
    ensures
        action_of(s, EventView::Start { cancelled }) is Stop,
{
}

/// An attempt at a file of known size fetches everything from the position at which it goes on to
/// the end of the file: what was there and what is fetched make the whole, whatever it holds.
pub proof fn lemma_everything_missing_is_fetched(
    s: DownloadView,
    event: EventView,
    at: u64,
    content: Seq<u8>,
)
    requires
        awaits(s.phase, event),
        s.total > 0,
        content.len() == s.total,
        match event {
            EventView::Start { cancelled } => !cancelled && s.attempt == 0 && at == s.existing,
            EventView::ResumeAt(position) => at == position,
            _ => false,
        },
        at < s.total,
    ensures
        action_of(s, event) == (Action::FetchPart { from: at, to: s.total }),
        match action_of(s, event) {
            Action::FetchPart { from, to } => content.take(at as int) + content.subrange(
                from as int,
                to as int,
            ) == content,
            _ => false,
        },
{
    assert(content.take(at as int) + content.subrange(at as int, s.total as int) =~= content);
}

/// As [`lemma_everything_missing_is_fetched`], of a download as it stands: the answer to the first
/// start, or to the position at which a later attempt goes on.
pub proof fn lemma_step_fetches_everything_missing(d: &mut Download, event: Event, r: Action)
    requires
        call_ensures(Download::step, (d, event), r),
        old(d).total > 0,
        awaits(old(d).phase, event@),
    ensures
        match event {
            Event::Start { cancelled } => !cancelled && old(d).attempt == 0 && old(d).existing
                < old(d).total ==> r == (Action::FetchPart {
                from: old(d).existing,
                to: old(d).total,
            }),
            Event::ResumeAt(at) => at < old(d).total ==> r == (Action::FetchPart {
                from: at,
                to: old(d).total,
            }),
            _ => true,
        },
        final(d).total == old(d).total,
        final(d).existing == old(d).existing,
{
    assert(final(d)@.total == old(d)@.total);
    assert(final(d)@.existing == old(d)@.existing);
}

/// Whatever happens to a download of known size, each part that it fetches reaches to the end of
/// the file.
pub proof fn lemma_parts_reach_the_end(s: DownloadView, events: Seq<EventView>, i: int)
    requires
        runs(s, events),
        0 <= i < actions_of(s, events).len(),
        s.total > 0,
    ensures
        match actions_of(s, events)[i] {
            Action::FetchPart { from, to } => from < to && to == s.total,
            Action::FetchWhole => false,
            _ => true,
        },
    decreases events.len(),
{
    if events.len() > 0 && i > 0 {
        let next = state_after(s, events[0]);
        let rest = events.drop_first();
        assert(actions_of(s, events)[i] == actions_of(next, rest)[i - 1]);
        lemma_parts_reach_the_end(next, rest, i - 1);
    }
}

/// Nothing is fetched of a file that is all there, and a file of unknown size is fetched in one go.
pub proof fn lemma_nothing_else_is_fetched(s: DownloadView, at: u64)
    ensures
        s.total > 0 && at >= s.total ==> action_of(s, EventView::ResumeAt(at)) is Weigh,
        s.total == 0 ==> action_of(s, EventView::ResumeAt(at)) is FetchWhole,
        s.total == 0 && s.attempt == 0 ==> action_of(s, EventView::Start { cancelled: false })
            is FetchWhole,
        action_of(s, EventView::Fetched) is Weigh,
{
}

/// Three attempts are made, with five seconds before each but the first, and each of these finds
/// out anew at which position to go on.
pub proof fn lemma_attempts_come_after_a_pause(s: DownloadView)
    ensures
        0 < s.attempt < 3 ==> action_of(s, EventView::Start { cancelled: false }) == Action::Pause(
            5,
        ),
        s.attempt >= 3 ==> action_of(s, EventView::Start { cancelled: false }) is Stop,
        action_of(s, EventView::Start { cancelled: true }) is Stop,
        action_of(s, EventView::PauseOver { cut: false }) is Measure,
        action_of(s, EventView::PauseOver { cut: true }) is Stop,
        state_after(s, EventView::PauseOver { cut: false }).phase is Measuring,
        action_of(s, EventView::Held) is Stop,
{
}

/// A file is moved to its place if it has its size, or if its size is not known; one of another
/// size is discarded and tried again.
pub proof fn lemma_size_decides(s: DownloadView, n: u64)
    ensures
        s.total == 0 || n == s.total ==> action_of(s, EventView::Size(n)) == Action::Finalize(n)
            && state_after(s, EventView::Size(n)).phase is Complete,
        s.total > 0 && n != s.total ==> action_of(s, EventView::Size(n)) == (Action::Retry {
            discard: true,
        }) && state_after(s, EventView::Size(n)).phase is Ready && state_after(
            s,
            EventView::Size(n),
        ).last_err == Some("size mismatch"@),
{
}

/// An attempt that fails counts as one, its reason is kept, and the download is ready for the next;
/// a file that was fetched in one go is discarded, unless the program is shutting down.
pub proof fn lemma_failed_attempts_are_counted(s: DownloadView, error: Seq<char>, cancelled: bool)
    requires
        s.wf(),
        s.phase is FetchingWhole || s.phase is FetchingPart,
    ensures
        ({
            let event = EventView::NotFetched { error, cancelled };
            let next = state_after(s, event);
            &&& next.last_err == Some(error)
            &&& s.phase is FetchingPart || !cancelled ==> next.attempt == s.attempt + 1
                && next.phase is Ready
            &&& s.phase is FetchingWhole && cancelled ==> action_of(s, event) is Stop
                && next.attempt == s.attempt
            &&& s.phase is FetchingWhole && !cancelled ==> action_of(s, event) == (Action::Retry {
                discard: true,
            })
            &&& next.total == s.total && next.existing == s.existing
        }),
{
}

/// A download that has failed says why its last attempt did, unless the program is shutting down.
pub proof fn lemma_last_reason_is_given(d: &Download, cancelled: bool, r: String)
    requires
        call_ensures(Download::failure, (d, cancelled), r),
    ensures
        cancelled ==> r@ == "download interrupted"@,
        !cancelled && d.last_err is Some ==> r@ == d.last_err->0@,
        !cancelled && d.last_err is None ==> r@ == "download failed"@,
{
}

/// A partial file is kept for the next run if and only if the program is shutting down.
pub proof fn lemma_partial_file_is_kept_on_shutdown(d: &Download, cancelled: bool, r: bool)
    requires
        call_ensures(Download::keeps_partial, (d, cancelled), r),
    ensures
        r <==> cancelled,
{
}

/// A message has something to download if it carries media whose file is not known to be
/// downloaded; media without a number is never known. The file is told by its own number.
pub proof fn lemma_known_files_are_skipped(msg: &Message, known: &FileIds, r: Opening)
    requires
        call_ensures(open_download, (msg, known), r),
    ensures
        msg.media is None <==> r is NoMedia,
        match msg.media {
            Some(Media::Photo(photo)) => {
                &&& r is Known <==> known@.contains(signed_decimal(photo.id as int))
                &&& r matches Opening::Wanted { file_id: id, total } ==> id@ == signed_decimal(
                    photo.id as int,
                ) && (photo.size matches Some(n) ==> total == n) && (photo.size is None ==> total
                    == 0)
            },
            Some(Media::Document(doc)) => {
                &&& r is Known <==> known@.contains(signed_decimal(doc.id as int))
                &&& r matches Opening::Wanted { file_id: id, total } ==> id@ == signed_decimal(
                    doc.id as int,
                ) && (doc.size matches Some(n) ==> total == n) && (doc.size is None ==> total == 0)
            },
            Some(Media::Other) => r matches Opening::Wanted { file_id: id, total } && id@.len() == 0
                && total == 0,
            None => true,
        },
{
    if let Some(Media::Photo(photo)) = msg.media {
        lemma_number_has_digits(photo.id as int);
    }
    if let Some(Media::Document(doc)) = msg.media {
        lemma_number_has_digits(doc.id as int);
    }
}

proof fn lemma_number_has_digits(n: int)
    ensures
        signed_decimal(n).len() > 0,
{
    if n < 0 {
        lemma_decimal_value((-n) as nat);
    } else {
        lemma_decimal_value(n as nat);
    }
}

/// A download starts with no attempt made, and is over before it starts if everything is there.
pub proof fn lemma_downloads_start_fresh(total: u64, existing: u64, r: Download)
    requires
        call_ensures(Download::new, (total, existing), r),
    ensures
        r.total == total,
        r.existing == existing,
        r.attempt == 0,
        r.last_err is None,
        r.phase is Complete <==> total > 0 && existing == total,
        r.phase is Complete || r.phase is Ready,
{
    assert(r@.total == total);
    assert(r@.phase == r.phase);
    assert(r@.last_err is None <==> r.last_err is None);
    assert(r@.existing == existing && r@.attempt == 0);
}

/// What a download waits for: a start, the end of a pause, a position, the end of fetching or the
/// size of the partial file, each in its turn; and nothing once it is over.
pub proof fn lemma_what_downloads_wait_for(phase: Phase, event: EventView)
    ensures
        awaits(phase, event) <==> match event {
            EventView::Start { .. } => phase is Ready,
            EventView::PauseOver { .. } => phase is Pausing,
            EventView::ResumeAt(_) => phase is Measuring,
            EventView::Held => phase is FetchingWhole,
            EventView::Fetched | EventView::NotFetched { .. } => phase is FetchingWhole || phase
                is FetchingPart,
            EventView::Size(_) => phase is Sizing,
        },
{
}

/// A download waits for the outcome of what it does.
pub proof fn lemma_downloads_wait_for_what_they_do(s: DownloadView, event: EventView)
    requires
        awaits(s.phase, event),
    ensures
        match action_of(s, event) {
            Action::Pause(_) => state_after(s, event).phase is Pausing,
            Action::Measure => state_after(s, event).phase is Measuring,
            Action::FetchWhole => state_after(s, event).phase is FetchingWhole,
            Action::FetchPart { .. } => state_after(s, event).phase is FetchingPart,
            Action::Weigh => state_after(s, event).phase is Sizing,
            Action::Retry { .. } => state_after(s, event).phase is Ready,
            Action::Finalize(_) => state_after(s, event).phase is Complete,
            Action::Stop => state_after(s, event).phase is Stopped,
        },
{
}

} // verus!
