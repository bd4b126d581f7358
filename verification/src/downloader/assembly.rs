//! Putting a file together from pieces that arrive in any order.
//!
//! Pieces are written in the order of their offsets, without gaps. A piece that arrives early
//! waits. From time to time the position up to which everything is written is recorded, so that
//! an interrupted download can go on from there.

use rustc_hash::FxHashMap;

use vstd::prelude::*;

use crate::downloader::chunks::{chunk_count, chunk_len, chunk_offset};
use crate::downloader::progress::DOWNLOAD_CHUNK_SIZE;
use crate::fx::{insert_piece, no_pieces, piece_map, remove_piece};
use crate::text::{copy_str, decimal, u64_text};

verus! {

/// How many bytes are written between two records of the position.
pub const PROGRESS_FLUSH_BYTES: u64 = 0x100_0000;

/// Something to do to the file, or to its sidecar.
#[derive(Debug)]
pub enum DiskOp {
    /// Write these bytes behind what is written.
    Write(Vec<u8>),
    /// Record this position.
    Record(u64),
}

/// Something to do to the file, or to its sidecar.
pub enum DiskStep {
    Write(Seq<u8>),
    Record(u64),
}

impl View for DiskOp {
    type V = DiskStep;

    open spec fn view(&self) -> DiskStep {
        match self {
            DiskOp::Write(bytes) => DiskStep::Write(bytes@),
            DiskOp::Record(at) => DiskStep::Record(*at),
        }
    }
}

/// The steps that a list of operations stands for.
pub open spec fn disk_steps(ops: Seq<DiskOp>) -> Seq<DiskStep> {
    ops.map_values(|op: DiskOp| op@)
}

/// The bytes that some steps write.
pub open spec fn bytes_written(steps: Seq<DiskStep>) -> Seq<u8>
    decreases steps.len(),
{
    if steps.len() == 0 {
        Seq::empty()
    } else {
        bytes_written(steps.drop_last()) + match steps.last() {
            DiskStep::Write(bytes) => bytes,
            DiskStep::Record(_) => Seq::empty(),
        }
    }
}

/// A file being put together.
#[derive(Debug)]
pub struct Assembly {
    start: u64,
    total: u64,
    next: u64,
    fetched: u64,
    recorded: u64,
    reported: u64,
    pending: FxHashMap<u64, Vec<u8>>,
}

/// A file being put together.
#[verifier::ext_equal]
pub struct AssemblyView {
    /// The position of the first byte.
    pub start: u64,
    /// The position behind the last byte.
    pub total: u64,
    /// The position up to which everything is written.
    pub next: u64,
    /// The position that would be reached if everything that arrived were written.
    pub fetched: u64,
    /// The last position that was recorded.
    pub recorded: u64,
    /// The last position that was reported.
    pub reported: u64,
    /// The pieces that wait, by their offset.
    pub pending: Map<u64, Seq<u8>>,
}

impl View for Assembly {
    type V = AssemblyView;

    closed spec fn view(&self) -> AssemblyView {
        AssemblyView {
            start: self.start,
            total: self.total,
            next: self.next,
            fetched: self.fetched,
            recorded: self.recorded,
            reported: self.reported,
            pending: piece_map(self.pending),
        }
    }
}

impl AssemblyView {
    /// What holds of every file being put together: what is written, recorded and reported lies
    /// within the file, and so does each piece that waits.
    pub open spec fn wf(self) -> bool {
        &&& self.start <= self.recorded <= self.next <= self.total
        &&& self.start <= self.reported <= self.fetched <= self.total
        &&& self.pending.dom().finite()
        &&& forall|o: u64|
            #[trigger] self.pending.contains_key(o) ==> o + self.pending[o].len() <= self.total
    }
}

/// A file of which nothing has arrived.
pub open spec fn fresh_assembly(start: u64, total: u64) -> AssemblyView {
    AssemblyView {
        start,
        total,
        next: start,
        fetched: start,
        recorded: start,
        reported: start,
        pending: Map::empty(),
    }
}

/// Whether the piece that comes next is there.
pub open spec fn can_write(a: AssemblyView) -> bool {
    a.pending.dom().finite() && a.pending.contains_key(a.next)
}

/// The position behind the piece that comes next.
pub open spec fn position_behind(a: AssemblyView) -> u64 {
    (a.next + a.pending[a.next].len()) as u64
}

/// Whether the position is recorded once the piece that comes next is written.
pub open spec fn is_record_due(a: AssemblyView) -> bool {
    position_behind(a) - a.recorded >= PROGRESS_FLUSH_BYTES
}

/// The file with the piece that comes next written.
pub open spec fn advanced(a: AssemblyView) -> AssemblyView {
    AssemblyView {
        next: position_behind(a),
        recorded: if is_record_due(a) {
            position_behind(a)
        } else {
            a.recorded
        },
        pending: a.pending.remove(a.next),
        ..a
    }
}

/// What is done to write the piece that comes next.
pub open spec fn advance_steps(a: AssemblyView) -> Seq<DiskStep> {
    let write = DiskStep::Write(a.pending[a.next]);
    if is_record_due(a) {
        seq![write, DiskStep::Record(position_behind(a))]
    } else {
        seq![write]
    }
}

/// The file with every piece written that can be written without a gap.
pub open spec fn drained(a: AssemblyView) -> AssemblyView
    decreases a.pending.dom().len(),
{
    if can_write(a) {
        drained(advanced(a))
    } else {
        a
    }
}

/// What is done to write every piece that can be written without a gap.
pub open spec fn drain_steps(a: AssemblyView) -> Seq<DiskStep>
    decreases a.pending.dom().len(),
{
    if can_write(a) {
        advance_steps(a) + drain_steps(advanced(a))
    } else {
        Seq::empty()
    }
}

/// The file with a piece that arrived, before anything is written.
pub open spec fn accepted(a: AssemblyView, offset: u64, piece: Seq<u8>, due: bool) -> AssemblyView {
    let fetched = if a.fetched + piece.len() < a.total {
        (a.fetched + piece.len()) as u64
    } else {
        a.total
    };
    AssemblyView {
        fetched,
        reported: if due {
            fetched
        } else {
            a.reported
        },
        pending: a.pending.insert(offset, piece),
        ..a
    }
}

/// The file after a piece arrived and everything was written that could be.
pub open spec fn received(a: AssemblyView, offset: u64, piece: Seq<u8>, due: bool) -> AssemblyView {
    drained(accepted(a, offset, piece, due))
}

impl Assembly {
    /// A file from `start` to `total` of which nothing has arrived.
    pub fn new(start: u64, total: u64) -> (r: Assembly)
        requires
            start <= total,
        ensures
            r@ == fresh_assembly(start, total),
            r@.wf(),
    {
        let r = Assembly {
            start,
            total,
            next: start,
            fetched: start,
            recorded: start,
            reported: start,
            pending: no_pieces(),
        };
        assert(r@ =~= fresh_assembly(start, total));
        r
    }

    /// The position up to which everything is written.
    pub fn next(&self) -> (r: u64)
        ensures
            r == self@.next,
    {
        self.next
    }

    /// The position that would be reached if everything that arrived were written.
    pub fn fetched(&self) -> (r: u64)
        ensures
            r == self@.fetched,
    {
        self.fetched
    }

    /// Whether something arrived since the last report.
    pub fn unreported(&self) -> (r: bool)
        ensures
            r == (self@.reported != self@.fetched),
    {
        self.reported != self.fetched
    }

    /// Takes a piece. Gives what is to be written and recorded, in this order. `due` says that it
    /// is time to report what has arrived.
    pub fn receive(&mut self, offset: u64, piece: Vec<u8>, due: bool) -> (r: Vec<DiskOp>)
        requires
            old(self)@.wf(),
            offset + piece@.len() <= old(self)@.total,
        ensures
            final(self)@ == received(old(self)@, offset, piece@, due),
            disk_steps(r@) == drain_steps(accepted(old(self)@, offset, piece@, due)),
            final(self)@.wf(),
    {
        let ghost before = self@;
        let ghost data = piece@;
        let len: u64 = piece.len() as u64;
        let left: u64 = self.total - self.fetched;
        self.fetched = if len < left { self.fetched + len } else { self.total };
        if due {
            self.reported = self.fetched;
        }
        insert_piece(&mut self.pending, offset, piece);
        let ghost filled = accepted(before, offset, data, due);
        assert(self@ =~= filled);
        assert(filled.wf());
        let mut ops: Vec<DiskOp> = Vec::new();
        assert(disk_steps(ops@) + drain_steps(self@) =~= drain_steps(filled));
        loop
            invariant
                self@.wf(),
                drained(self@) == drained(filled),
                disk_steps(ops@) + drain_steps(self@) == drain_steps(filled),
            ensures
                self@.wf(),
                self@ == drained(filled),
                disk_steps(ops@) == drain_steps(filled),
            decreases self@.pending.dom().len(),
        {
            let ghost now = self@;
            match remove_piece(&mut self.pending, self.next) {
                Some(piece) => {
                    let ghost done = disk_steps(ops@);
                    let ghost bytes = piece@;
                    let n: u64 = piece.len() as u64;
                    self.next = self.next + n;
                    ops.push(DiskOp::Write(piece));
                    if self.next - self.recorded >= PROGRESS_FLUSH_BYTES {
                        ops.push(DiskOp::Record(self.next));
                        self.recorded = self.next;
                    }
                    assert(self@ =~= advanced(now));
                    assert(disk_steps(ops@) =~= done + advance_steps(now));
                    assert(done + (advance_steps(now) + drain_steps(self@)) =~= disk_steps(ops@)
                        + drain_steps(self@));
                },
                None => {
                    assert(self@.pending =~= now.pending);
                    assert(self@ =~= now);
                    assert(disk_steps(ops@) + drain_steps(self@) =~= disk_steps(ops@));
                    break;
                },
            }
        }
        ops
    }

    /// What is done once nothing arrives any more: the position up to which everything is written
    /// is recorded once more, so that a later run goes on from there, or has nothing left to fetch.
    pub fn finish(&self) -> (r: Vec<DiskOp>)
        ensures
            disk_steps(r@) == seq![DiskStep::Record(self@.next)],
    {
        let r = vec![DiskOp::Record(self.next)];
        assert(disk_steps(r@) =~= seq![DiskStep::Record(self@.next)]);
        r
    }
}

// ── how a download of chunks ends ────────────────────────────────────────

/// How one of the workers ended.
#[derive(Debug)]
pub enum WorkerEnd {
    /// It did what it could.
    Done,
    /// It failed with an error of this text.
    Failed(String),
    /// It was cancelled.
    Cancelled,
    /// It ended in an unforeseen way, described by this text.
    Lost(String),
}

/// The text of the error that a worker ended with, if any.
pub open spec fn worker_error(end: WorkerEnd) -> Option<Seq<char>> {
    match end {
        WorkerEnd::Failed(text) => Some(text@),
        WorkerEnd::Lost(text) => Some("download worker join failed: "@ + text@),
        _ => None,
    }
}

/// The first of the errors that the workers ended with.
pub open spec fn first_error(ends: Seq<WorkerEnd>) -> Option<Seq<char>>
    decreases ends.len(),
{
    if ends.len() == 0 {
        None
    } else if worker_error(ends[0]) is Some {
        worker_error(ends[0])
    } else {
        first_error(ends.drop_first())
    }
}

/// Why a file was not put together.
#[derive(Debug)]
pub enum AssemblyError {
    /// The program is shutting down.
    Interrupted,
    /// A worker failed with an error of this text.
    Worker(String),
    /// Not everything was written.
    Incomplete { wrote: u64, total: u64 },
}

/// Why a file was not put together.
pub enum AssemblyErrorView {
    Interrupted,
    Worker(Seq<char>),
    Incomplete { wrote: u64, total: u64 },
}

impl View for AssemblyError {
    type V = AssemblyErrorView;

    open spec fn view(&self) -> AssemblyErrorView {
        match self {
            AssemblyError::Interrupted => AssemblyErrorView::Interrupted,
            AssemblyError::Worker(text) => AssemblyErrorView::Worker(text@),
            AssemblyError::Incomplete { wrote, total } => AssemblyErrorView::Incomplete {
                wrote: *wrote,
                total: *total,
            },
        }
    }
}

impl AssemblyError {
    /// The text of the error.
    pub fn message(&self) -> (r: String)
        ensures
            r@ == match self@ {
                AssemblyErrorView::Interrupted => "download interrupted"@,
                AssemblyErrorView::Worker(text) => text,
                AssemblyErrorView::Incomplete { wrote, total } => "incomplete download: wrote "@
                    + decimal(wrote as nat) + " of "@ + decimal(total as nat) + " bytes"@,
            },
    {
        match self {
            AssemblyError::Interrupted => copy_str("download interrupted"),
            AssemblyError::Worker(text) => copy_str(text.as_str()),
            AssemblyError::Incomplete { wrote, total } => {
                let mut r = copy_str("incomplete download: wrote ");
                r.append(u64_text(*wrote).as_str());
                r.append(" of ");
                r.append(u64_text(*total).as_str());
                r.append(" bytes");
                r
            },
        }
    }
}

/// Whether one of the workers was cancelled.
pub open spec fn any_cancelled(ends: Seq<WorkerEnd>) -> bool {
    exists|i: int| 0 <= i < ends.len() && #[trigger] ends[i] is Cancelled
}

/// How a download of chunks ends, given how its workers ended, whether the program is shutting
/// down, and up to which position everything is written. A shutdown comes before an error, and an
/// error before a gap.
pub fn conclude(ends: Vec<WorkerEnd>, cancelled: bool, next: u64, total: u64) -> (r: Result<
    (),
    AssemblyError,
>)
    ensures
        match r {
            Ok(_) => !cancelled && !any_cancelled(ends@) && first_error(ends@) is None && next
                == total,
            Err(e) => e@ == if cancelled || any_cancelled(ends@) {
                AssemblyErrorView::Interrupted
            } else if first_error(ends@) is Some {
                AssemblyErrorView::Worker(first_error(ends@)->0)
            } else {
                AssemblyErrorView::Incomplete { wrote: next, total }
            } && (cancelled || any_cancelled(ends@) || first_error(ends@) is Some || next != total),
        },
{
    let mut stopped = cancelled;
    let mut error: Option<String> = None;
    let mut i: usize = 0;
    assert(ends@.skip(0) =~= ends@);
    while i < ends.len()
        invariant
            i <= ends.len(),
            stopped <==> cancelled || exists|k: int| 0 <= k < i && #[trigger] ends@[k] is Cancelled,
            match error {
                Some(text) => first_error(ends@) == Some(text@),
                None => first_error(ends@) == first_error(ends@.skip(i as int)),
            },
        decreases ends.len() - i,
    {
        assert(ends@.skip(i as int)[0] == ends@[i as int]);
        assert(ends@.skip(i as int).drop_first() =~= ends@.skip(i + 1));
        match &ends[i] {
            WorkerEnd::Done => {},
            WorkerEnd::Failed(text) => {
                if error.is_none() {
                    error = Some(copy_str(text.as_str()));
                }
            },
            WorkerEnd::Cancelled => {
                assert(ends@[i as int] is Cancelled);
                stopped = true;
            },
            WorkerEnd::Lost(text) => {
                if error.is_none() {
                    let mut lost = copy_str("download worker join failed: ");
                    lost.append(text.as_str());
                    error = Some(lost);
                }
            },
        }
        i = i + 1;
    }
    if stopped {
        return Err(AssemblyError::Interrupted);
    }
    if let Some(text) = error {
        return Err(AssemblyError::Worker(text));
    }
    if next != total {
        return Err(AssemblyError::Incomplete { wrote: next, total });
    }
    Ok(())
}

// ── laws ─────────────────────────────────────────────────────────────────

/// Whether each piece that waits is what the file holds at its offset.
pub open spec fn agrees(a: AssemblyView, content: Seq<u8>) -> bool {
    &&& content.len() == a.total
    &&& forall|o: u64| #[trigger]
        a.pending.contains_key(o) ==> a.pending[o] == content.subrange(
            o as int,
            o + a.pending[o].len(),
        )
}

proof fn lemma_advanced(a: AssemblyView)
    requires
        a.wf(),
        can_write(a),
    ensures
        advanced(a).wf(),
        advanced(a).next == a.next + a.pending[a.next].len(),
        advanced(a).start == a.start,
        advanced(a).total == a.total,
        advanced(a).pending.dom().len() < a.pending.dom().len(),
{
    assert(a.pending.contains_key(a.next));
}

proof fn lemma_bytes_concat(a: Seq<DiskStep>, b: Seq<DiskStep>)
    ensures
        bytes_written(a + b) == bytes_written(a) + bytes_written(b),
    decreases b.len(),
{
    if b.len() == 0 {
        assert(a + b =~= a);
        assert(bytes_written(a) + bytes_written(b) =~= bytes_written(a));
    } else {
        lemma_bytes_concat(a, b.drop_last());
        assert((a + b).drop_last() =~= a + b.drop_last());
        assert((a + b).last() == b.last());
        assert(bytes_written(a + b) =~= bytes_written(a) + bytes_written(b));
    }
}

proof fn lemma_advance_bytes(a: AssemblyView)
    ensures
        bytes_written(advance_steps(a)) == a.pending[a.next],
{
    let piece = a.pending[a.next];
    let steps = advance_steps(a);
    let one = seq![DiskStep::Write(piece)];
    assert(one.drop_last() =~= Seq::<DiskStep>::empty());
    assert(bytes_written(one) =~= piece) by {
        assert(bytes_written(one.drop_last()) =~= Seq::<u8>::empty());
    }
    if is_record_due(a) {
        assert(steps.drop_last() =~= one);
        assert(bytes_written(steps) =~= piece);
    }
}

/// Draining leaves nothing behind that could be written, and keeps to the file.
pub proof fn lemma_drained(a: AssemblyView)
    requires
        a.wf(),
    ensures
        drained(a).wf(),
        !drained(a).pending.contains_key(drained(a).next),
        drained(a).next >= a.next,
        drained(a).start == a.start,
        drained(a).total == a.total,
    decreases a.pending.dom().len(),
{
    if can_write(a) {
        lemma_advanced(a);
        lemma_drained(advanced(a));
    }
}

/// What is written is what the file holds from the position that was reached before to the one
/// that is reached after, if each piece is what the file holds at its offset.
pub proof fn lemma_drain_writes_the_file(a: AssemblyView, content: Seq<u8>)
    requires
        a.wf(),
        agrees(a, content),
    ensures
        a.next <= drained(a).next <= a.total,
        bytes_written(drain_steps(a)) == content.subrange(a.next as int, drained(a).next as int),
        agrees(drained(a), content),
    decreases a.pending.dom().len(),
{
    lemma_drained(a);
    if can_write(a) {
        let b = advanced(a);
        lemma_advanced(a);
        assert(a.pending.contains_key(a.next));
        assert(agrees(b, content));
        lemma_drain_writes_the_file(b, content);
        lemma_advance_bytes(a);
        lemma_bytes_concat(advance_steps(a), drain_steps(b));
        assert(content.subrange(a.next as int, b.next as int) + content.subrange(
            b.next as int,
            drained(b).next as int,
        ) =~= content.subrange(a.next as int, drained(b).next as int));
    } else {
        assert(content.subrange(a.next as int, a.next as int) =~= Seq::<u8>::empty());
    }
}

/// A position is recorded only once everything up to it is written: `steps[i]` records the
/// position that the steps before it have reached.
pub proof fn lemma_records_follow_writes(a: AssemblyView, i: int)
    requires
        a.wf(),
        0 <= i < drain_steps(a).len(),
        drain_steps(a)[i] is Record,
    ensures
        drain_steps(a)[i]->Record_0 == a.next + bytes_written(drain_steps(a).take(i)).len(),
    decreases a.pending.dom().len(),
{
    let b = advanced(a);
    let head = advance_steps(a);
    let steps = drain_steps(a);
    lemma_advanced(a);
    lemma_advance_bytes(a);
    if i < head.len() {
        assert(steps[i] == head[i]);
        let one = seq![DiskStep::Write(a.pending[a.next])];
        assert(steps.take(i) =~= one);
        assert(one.drop_last() =~= Seq::<DiskStep>::empty());
        assert(bytes_written(one.drop_last()).len() == 0);
    } else {
        let rest = drain_steps(b);
        assert(steps[i] == rest[i - head.len()]);
        lemma_records_follow_writes(b, i - head.len());
        assert(steps.take(i) =~= head + rest.take(i - head.len()));
        lemma_bytes_concat(head, rest.take(i - head.len()));
    }
}

proof fn lemma_drain_length(a: AssemblyView)
    requires
        a.wf(),
    ensures
        bytes_written(drain_steps(a)).len() == drained(a).next - a.next,
    decreases a.pending.dom().len(),
{
    if can_write(a) {
        let b = advanced(a);
        lemma_advanced(a);
        lemma_drain_length(b);
        lemma_advance_bytes(a);
        lemma_bytes_concat(advance_steps(a), drain_steps(b));
    }
}

/// The position that is recorded in the end lies as far behind the start as bytes were written,
/// whatever arrived.
pub proof fn lemma_last_record_counts_the_bytes(
    start: u64,
    total: u64,
    pieces: Seq<(u64, Seq<u8>, bool)>,
)
    requires
        start <= total,
        forall|k: int|
            0 <= k < pieces.len() ==> (#[trigger] pieces[k]).0 + pieces[k].1.len() <= total,
    ensures
        ({
            let a = received_all(fresh_assembly(start, total), pieces);
            &&& a.wf()
            &&& a.total == total
            &&& a.next == start + bytes_written(
                steps_for_all(fresh_assembly(start, total), pieces),
            ).len()
        }),
    decreases pieces.len(),
{
    if pieces.len() > 0 {
        let fresh = fresh_assembly(start, total);
        let fewer = pieces.drop_last();
        let (offset, piece, due) = pieces.last();
        lemma_last_record_counts_the_bytes(start, total, fewer);
        let a = received_all(fresh, fewer);
        let b = accepted(a, offset, piece, due);
        assert(b.wf());
        lemma_drained(b);
        lemma_drain_length(b);
        lemma_bytes_concat(steps_for_all(fresh, fewer), drain_steps(b));
    }
}

/// Whether the file has been put together from the chunks in `got`: each of them is written or
/// waits, nothing else waits, and the position that is reached is a chunk boundary.
pub open spec fn holds_chunks(a: AssemblyView, got: Set<int>) -> bool {
    &&& a.next == a.total || a.next % DOWNLOAD_CHUNK_SIZE == 0
    &&& forall|i: int| #[trigger]
        got.contains(i) ==> {
            &&& 0 <= i < chunk_count(a.total as int)
            &&& chunk_offset(i) < a.next || a.pending.contains_key(chunk_offset(i) as u64)
        }
    &&& forall|o: u64| #[trigger]
        a.pending.contains_key(o) ==> {
            let i = o as int / DOWNLOAD_CHUNK_SIZE as int;
            &&& got.contains(i)
            &&& o == chunk_offset(i)
            &&& a.pending[o].len() == chunk_len(i, a.total as int)
        }
}

proof fn lemma_drain_holds_chunks(a: AssemblyView, got: Set<int>)
    requires
        a.wf(),
        holds_chunks(a, got),
    ensures
        holds_chunks(drained(a), got),
    decreases a.pending.dom().len(),
{
    if can_write(a) {
        lemma_advanced(a);
        let b = advanced(a);
        assert(a.pending.contains_key(a.next));
        assert(holds_chunks(b, got));
        lemma_drain_holds_chunks(b, got);
    }
}

/// A chunk that arrives is added to those that the file is put together from.
pub proof fn lemma_receive_holds_chunks(a: AssemblyView, got: Set<int>, i: int, piece: Seq<u8>, due: bool)
    requires
        a.wf(),
        holds_chunks(a, got),
        0 <= i < chunk_count(a.total as int),
        piece.len() == chunk_len(i, a.total as int),
    ensures
        received(a, chunk_offset(i) as u64, piece, due).wf(),
        holds_chunks(received(a, chunk_offset(i) as u64, piece, due), got.insert(i)),
{
    let o = chunk_offset(i) as u64;
    let b = accepted(a, o, piece, due);
    assert(b.wf());
    assert(holds_chunks(b, got.insert(i)));
    lemma_drained(b);
    lemma_drain_holds_chunks(b, got.insert(i));
}

/// One piece after the other arriving, each with its offset and whether a report is due.
pub open spec fn received_all(a: AssemblyView, pieces: Seq<(u64, Seq<u8>, bool)>) -> AssemblyView
    decreases pieces.len(),
{
    if pieces.len() == 0 {
        a
    } else {
        let (offset, piece, due) = pieces.last();
        received(received_all(a, pieces.drop_last()), offset, piece, due)
    }
}

/// Everything that is done while one piece after the other arrives.
pub open spec fn steps_for_all(a: AssemblyView, pieces: Seq<(u64, Seq<u8>, bool)>) -> Seq<DiskStep>
    decreases pieces.len(),
{
    if pieces.len() == 0 {
        Seq::empty()
    } else {
        let (offset, piece, due) = pieces.last();
        let before = received_all(a, pieces.drop_last());
        steps_for_all(a, pieces.drop_last()) + drain_steps(accepted(before, offset, piece, due))
    }
}

/// The chunks of `content` with these numbers, in this order; each number stands with whether a
/// report is due when the chunk arrives.
pub open spec fn chunks_of(content: Seq<u8>, order: Seq<(int, bool)>) -> Seq<(u64, Seq<u8>, bool)> {
    order.map_values(
        |c: (int, bool)|
            (
                chunk_offset(c.0) as u64,
                content.subrange(
                    chunk_offset(c.0),
                    chunk_offset(c.0) + chunk_len(c.0, content.len() as int),
                ),
                c.1,
            ),
    )
}

/// The numbers of the chunks that arrive.
pub open spec fn arriving(order: Seq<(int, bool)>) -> Seq<int> {
    order.map_values(|c: (int, bool)| c.0)
}

proof fn lemma_chunks_arrive(start: u64, total: u64, content: Seq<u8>, order: Seq<(int, bool)>)
    requires
        start <= total,
        start == total || start % DOWNLOAD_CHUNK_SIZE == 0,
        content.len() == total,
        forall|k: int|
            0 <= k < order.len() ==> 0 <= (#[trigger] order[k]).0 < chunk_count(total as int),
    ensures
        ({
            let a = received_all(fresh_assembly(start, total), chunks_of(content, order));
            &&& a.wf()
            &&& a.total == total
            &&& a.next >= start
            &&& !a.pending.contains_key(a.next)
            &&& holds_chunks(a, arriving(order).to_set())
            &&& agrees(a, content)
            &&& bytes_written(
                steps_for_all(fresh_assembly(start, total), chunks_of(content, order)),
            ) == content.subrange(start as int, a.next as int)
        }),
    decreases order.len(),
{
    let fresh = fresh_assembly(start, total);
    let pieces = chunks_of(content, order);
    if order.len() == 0 {
        assert(content.subrange(start as int, start as int) =~= Seq::<u8>::empty());
        assert forall|i: int| !arriving(order).to_set().contains(i) by {}
    } else {
        let (i, due) = order.last();
        lemma_chunks_arrive(start, total, content, order.drop_last());
        assert(chunks_of(content, order.drop_last()) =~= pieces.drop_last());
        let all = arriving(order);
        let fewer = arriving(order.drop_last());
        assert(fewer =~= all.drop_last());
        let a = received_all(fresh, pieces.drop_last());
        let (o, piece, _) = pieces.last();
        assert(piece == content.subrange(chunk_offset(i), chunk_offset(i) + chunk_len(i, total as int)));
        assert(fewer.to_set().insert(i) =~= all.to_set()) by {
            assert forall|x: int| all.to_set().contains(x) implies fewer.to_set().insert(
                i,
            ).contains(x) by {
                let k = choose|k: int| 0 <= k < all.len() && all[k] == x;
                if k < all.len() - 1 {
                    assert(fewer[k] == x);
                }
            }
            assert forall|x: int| fewer.to_set().insert(i).contains(x) implies
                all.to_set().contains(x) by {
                if x != i {
                    let k = choose|k: int| 0 <= k < fewer.len() && fewer[k] == x;
                    assert(all[k] == x);
                } else {
                    assert(all[all.len() - 1] == i);
                }
            }
        }
        lemma_receive_holds_chunks(a, fewer.to_set(), i, piece, due);
        let b = accepted(a, o, piece, due);
        assert(b.wf());
        assert(agrees(b, content));
        lemma_drained(b);
        lemma_drain_writes_the_file(b, content);
        lemma_bytes_concat(steps_for_all(fresh, pieces.drop_last()), drain_steps(b));
        assert(content.subrange(start as int, a.next as int) + content.subrange(
            a.next as int,
            drained(b).next as int,
        ) =~= content.subrange(start as int, drained(b).next as int));
    }
}

/// A file that is started on a chunk boundary and gets all of its chunks, in whatever order,
/// however often and whenever reports are due, is written to its end, and what is written is what the file holds.
pub proof fn lemma_all_chunks_make_the_file(start: u64, total: u64, content: Seq<u8>, order: Seq<(int, bool)>)
    requires
        start <= total,
        start == total || start % DOWNLOAD_CHUNK_SIZE == 0,
        content.len() == total,
        forall|k: int|
            0 <= k < order.len() ==> 0 <= (#[trigger] order[k]).0 < chunk_count(total as int),
        forall|i: int|
            start as int / DOWNLOAD_CHUNK_SIZE as int <= i < chunk_count(total as int)
                ==> #[trigger] arriving(order).contains(i),
    ensures
        received_all(fresh_assembly(start, total), chunks_of(content, order)).next == total,
        bytes_written(steps_for_all(fresh_assembly(start, total), chunks_of(content, order)))
            == content.subrange(start as int, total as int),
{
    lemma_chunks_arrive(start, total, content, order);
    let a = received_all(fresh_assembly(start, total), chunks_of(content, order));
    if a.next < total {
        let i = a.next as int / DOWNLOAD_CHUNK_SIZE as int;
        assert(arriving(order).contains(i));
        assert(arriving(order).to_set().contains(i));
    }
}

/// However few of the chunks arrive, what is written is what the file holds, without a gap.
pub proof fn lemma_some_chunks_make_a_prefix(start: u64, total: u64, content: Seq<u8>, order: Seq<(int, bool)>)
    requires
        start <= total,
        start == total || start % DOWNLOAD_CHUNK_SIZE == 0,
        content.len() == total,
        forall|k: int|
            0 <= k < order.len() ==> 0 <= (#[trigger] order[k]).0 < chunk_count(total as int),
    ensures
        ({
            let next = received_all(fresh_assembly(start, total), chunks_of(content, order)).next;
            &&& start <= next <= total
            &&& bytes_written(
                steps_for_all(fresh_assembly(start, total), chunks_of(content, order)),
            ) == content.subrange(start as int, next as int)
        }),
{
    lemma_chunks_arrive(start, total, content, order);
}

/// A position is recorded as soon as 16 MiB were written behind the last one, and not before.
pub proof fn lemma_records_come_every_so_often(a: AssemblyView)
    requires
        a.wf(),
        can_write(a),
    ensures
        ({
            let next = a.next + a.pending[a.next].len();
            &&& next - a.recorded >= 0x100_0000 ==> advance_steps(a) == seq![
                DiskStep::Write(a.pending[a.next]),
                DiskStep::Record(next as u64),
            ] && advanced(a).recorded == next
            &&& next - a.recorded < 0x100_0000 ==> advance_steps(a) == seq![
                DiskStep::Write(a.pending[a.next]),
            ] && advanced(a).recorded == a.recorded
        }),
{
    assert(a.pending.contains_key(a.next));
}

/// What has arrived counts up to the size of the file, and is reported when a report is due.
pub proof fn lemma_arrivals_are_counted(a: AssemblyView, offset: u64, piece: Seq<u8>, due: bool)
    requires
        a.wf(),
        offset + piece.len() <= a.total,
    ensures
        ({
            let b = received(a, offset, piece, due);
            &&& a.fetched + piece.len() <= a.total ==> b.fetched == a.fetched + piece.len()
            &&& a.fetched + piece.len() > a.total ==> b.fetched == a.total
            &&& due ==> b.reported == b.fetched
            &&& !due ==> b.reported == a.reported
        }),
{
    let b = accepted(a, offset, piece, due);
    assert(b.wf());
    lemma_drain_keeps_counts(b);
}

proof fn lemma_drain_keeps_counts(a: AssemblyView)
    requires
        a.wf(),
    ensures
        drained(a).fetched == a.fetched,
        drained(a).reported == a.reported,
    decreases a.pending.dom().len(),
{
    if can_write(a) {
        lemma_advanced(a);
        lemma_drain_keeps_counts(advanced(a));
    }
}

/// A piece that is next is written at once; one that is not waits.
pub proof fn lemma_pieces_wait_for_their_turn(
    a: AssemblyView,
    offset: u64,
    piece: Seq<u8>,
    due: bool,
)
    requires
        a.wf(),
        !a.pending.contains_key(a.next),
        offset + piece.len() <= a.total,
    ensures
        offset != a.next ==> drain_steps(accepted(a, offset, piece, due)).len() == 0 && received(
            a,
            offset,
            piece,
            due,
        ).next == a.next,
        offset == a.next ==> drain_steps(accepted(a, offset, piece, due)).len() > 0 && drain_steps(
            accepted(a, offset, piece, due),
        )[0] == DiskStep::Write(piece),
{
    let b = accepted(a, offset, piece, due);
    assert(b.wf());
    if offset == a.next {
        assert(b.pending[b.next] == piece);
        assert(can_write(b));
        assert(drain_steps(b) == advance_steps(b) + drain_steps(advanced(b)));
    } else {
        assert(!can_write(b));
    }
}

/// How a download of chunks ends: a shutdown comes before everything, then the error of the first
/// worker that failed, then a gap; and it has ended well only where there is none of these.
pub proof fn lemma_conclusions(
    ends: Vec<WorkerEnd>,
    cancelled: bool,
    next: u64,
    total: u64,
    r: Result<(), AssemblyError>,
    i: int,
)
    requires
        call_ensures(conclude, (ends, cancelled, next, total), r),
    ensures
        cancelled ==> r is Err && r->Err_0@ is Interrupted,
        0 <= i < ends@.len() && ends@[i] is Cancelled ==> r is Err && r->Err_0@ is Interrupted,
        r is Ok ==> next == total && (0 <= i < ends@.len() ==> ends@[i] is Done),
        !cancelled && (forall|k: int| 0 <= k < ends@.len() ==> #[trigger] ends@[k] is Done) && next
            == total ==> r is Ok,
        !cancelled && (forall|k: int| 0 <= k < ends@.len() ==> #[trigger] ends@[k] is Done) && next
            != total ==> r is Err && r->Err_0@ == (AssemblyErrorView::Incomplete {
            wrote: next,
            total,
        }),
        !cancelled && (forall|k: int|
            0 <= k < ends@.len() ==> !(#[trigger] ends@[k] is Cancelled)) && 0 <= i < ends@.len()
            && (forall|k: int| 0 <= k < i ==> #[trigger] ends@[k] is Done) ==> {
            &&& ends@[i] matches WorkerEnd::Failed(text) ==> r is Err && r->Err_0@
                == AssemblyErrorView::Worker(text@)
            &&& ends@[i] matches WorkerEnd::Lost(text) ==> r is Err && r->Err_0@
                == AssemblyErrorView::Worker("download worker join failed: "@ + text@)
        },
{
    if forall|k: int| 0 <= k < ends@.len() ==> #[trigger] ends@[k] is Done {
        lemma_first_error(ends@, ends@.len() as int);
    }
    if 0 <= i < ends@.len() {
        if forall|k: int| 0 <= k < i ==> #[trigger] ends@[k] is Done {
            lemma_first_error(ends@, i);
            let rest = ends@.skip(i);
            assert(rest[0] == ends@[i]);
        }
        if first_error(ends@) is None {
            lemma_no_error(ends@, i);
        }
    }
}

proof fn lemma_first_error(ends: Seq<WorkerEnd>, i: int)
    requires
        0 <= i <= ends.len(),
        forall|k: int| 0 <= k < i ==> #[trigger] ends[k] is Done,
    ensures
        first_error(ends) == first_error(ends.skip(i)),
    decreases i,
{
    if i == 0 {
        assert(ends.skip(0) =~= ends);
    } else {
        assert(ends[0] is Done);
        lemma_first_error(ends.drop_first(), i - 1);
        assert(ends.drop_first().skip(i - 1) =~= ends.skip(i));
    }
}

proof fn lemma_no_error(ends: Seq<WorkerEnd>, i: int)
    requires
        first_error(ends) is None,
        0 <= i < ends.len(),
    ensures
        !(ends[i] is Failed) && !(ends[i] is Lost),
    decreases i,
{
    if i > 0 {
        lemma_no_error(ends.drop_first(), i - 1);
        assert(ends.drop_first()[i - 1] == ends[i]);
    }
}

/// The text of an error tells what it was, and how much of how much was written.
pub proof fn lemma_assembly_errors(e: &AssemblyError, r: String)
    requires
        call_ensures(AssemblyError::message, (e,), r),
    ensures
        match e@ {
            AssemblyErrorView::Interrupted => r@ == "download interrupted"@,
            AssemblyErrorView::Worker(text) => r@ == text,
            AssemblyErrorView::Incomplete { wrote, total } => r@ == "incomplete download: wrote "@
                + decimal(wrote as nat) + " of "@ + decimal(total as nat) + " bytes"@,
        },
{
}

/// The last record holds the position up to which everything is written.
pub proof fn lemma_last_record(a: &Assembly, r: Vec<DiskOp>)
    requires
        call_ensures(Assembly::finish, (a,), r),
    ensures
        r@.len() == 1,
        r@[0]@ == DiskStep::Record(a@.next),
{
    assert(disk_steps(r@).len() == r@.len());
    assert(disk_steps(r@)[0] == r@[0]@);
}

/// What can be asked of a file being put together: up to where it is written, how much has arrived,
/// and whether something of it was not reported yet.
pub proof fn lemma_assembly_answers(a: &Assembly, next: u64, fetched: u64, unreported: bool)
    requires
        call_ensures(Assembly::next, (a,), next),
        call_ensures(Assembly::fetched, (a,), fetched),
        call_ensures(Assembly::unreported, (a,), unreported),
    ensures
        next == a@.next,
        fetched == a@.fetched,
        unreported <==> a@.reported != a@.fetched,
{
}

/// A file of which nothing has arrived is written, recorded and reported up to its start.
pub proof fn lemma_assemblies_start_at_the_start(start: u64, total: u64, r: Assembly)
    requires
        call_ensures(Assembly::new, (start, total), r),
    ensures
        r@.start == start && r@.total == total,
        r@.next == start && r@.fetched == start && r@.recorded == start && r@.reported == start,
        forall|o: u64| !(#[trigger] r@.pending.contains_key(o)),
{
}

} // verus!
