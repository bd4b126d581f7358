//! The chunks of a file, and which worker fetches which.

use vstd::prelude::*;

use crate::downloader::progress::DOWNLOAD_CHUNK_SIZE;

verus! {

/// How many chunks a file of `total` bytes has; the last one may be short.
pub open spec fn chunk_count(total: int) -> int {
    (total + DOWNLOAD_CHUNK_SIZE - 1) / DOWNLOAD_CHUNK_SIZE as int
}

/// Where chunk `i` starts.
pub open spec fn chunk_offset(i: int) -> int {
    i * DOWNLOAD_CHUNK_SIZE
}

/// How long chunk `i` of a file of `total` bytes is.
pub open spec fn chunk_len(i: int, total: int) -> int {
    if total - chunk_offset(i) < DOWNLOAD_CHUNK_SIZE {
        total - chunk_offset(i)
    } else {
        DOWNLOAD_CHUNK_SIZE as int
    }
}

/// How many workers share the chunks from `first` on: no more than there are chunks, and at least
/// one.
pub open spec fn worker_count(first: int, count: int, connections: int) -> int {
    let wanted = if connections < count - first {
        connections
    } else {
        count - first
    };
    if wanted < 1 {
        1
    } else {
        wanted
    }
}

/// Whether worker `w` of `workers` fetches chunk `i` of those from `first` on: it starts with the
/// chunk of its own number and takes every `workers`-th one after that.
pub open spec fn owns(first: int, workers: int, w: int, i: int) -> bool {
    first + w <= i && (i - first - w) % workers == 0
}

/// How a part of a file is fetched.
#[derive(Debug, Clone, Copy, PartialEq, Eq, Structural)]
pub struct ChunkPlan {
    /// The first chunk to fetch.
    pub first: u64,
    /// The number of the chunk behind the last one.
    pub count: u64,
    /// The size of the file.
    pub total: u64,
    /// How many workers share the chunks.
    pub workers: u64,
}

impl ChunkPlan {
    /// What holds of every plan.
    pub open spec fn wf(self) -> bool {
        &&& self.first <= self.count
        &&& self.count == chunk_count(self.total as int)
        &&& 1 <= self.workers
        &&& self.workers <= 1 || self.workers <= self.count - self.first
    }
}

/// Plans how the bytes from `start` to `total` are fetched over at most `connections`
/// connections.
pub fn plan_chunks(start: u64, total: u64, connections: u64) -> (r: ChunkPlan)
    requires
        start / DOWNLOAD_CHUNK_SIZE <= chunk_count(total as int),
    ensures
        r.first == start / DOWNLOAD_CHUNK_SIZE,
        r.count == chunk_count(total as int),
        r.total == total,
        r.workers == worker_count(r.first as int, r.count as int, connections as int),
        r.wf(),
{
    let first: u64 = start / DOWNLOAD_CHUNK_SIZE;
    let whole: u64 = total / DOWNLOAD_CHUNK_SIZE;
    let count: u64 = if total % DOWNLOAD_CHUNK_SIZE == 0 { whole } else { whole + 1 };
    let left: u64 = count - first;
    let wanted: u64 = if connections < left { connections } else { left };
    let workers: u64 = if wanted < 1 { 1 } else { wanted };
    ChunkPlan { first, count, total, workers }
}

/// A chunk to fetch.
#[derive(Debug, Clone, Copy, PartialEq, Eq, Structural)]
pub struct Chunk {
    /// The number of the chunk in its file.
    pub index: u64,
    /// Where the chunk starts.
    pub offset: u64,
    /// How long the chunk is.
    pub len: u64,
}

/// The chunks that one worker has yet to fetch.
#[derive(Debug, Clone, Copy, PartialEq, Eq, Structural)]
pub struct Stripe {
    /// The next chunk.
    pub next: u64,
    /// The plan that the worker takes part in.
    pub plan: ChunkPlan,
}

impl Stripe {
    /// What holds of every stripe.
    pub open spec fn wf(self) -> bool {
        self.plan.wf() && self.plan.first <= self.next <= self.plan.count + self.plan.workers
    }

    /// The chunks of worker `worker`.
    pub fn new(plan: ChunkPlan, worker: u64) -> (r: Stripe)
        requires
            plan.wf(),
            worker < plan.workers,
        ensures
            r.plan == plan,
            r.next == plan.first + worker,
            r.wf(),
    {
        Stripe { next: plan.first + worker, plan }
    }

    /// Takes the next chunk of the stripe.
    pub fn take(&mut self) -> (r: Option<Chunk>)
        requires
            old(self).wf(),
        ensures
            final(self).wf(),
            final(self).plan == old(self).plan,
            match r {
                Some(chunk) => {
                    &&& old(self).next < old(self).plan.count
                    &&& chunk.index == old(self).next
                    &&& chunk.offset == chunk_offset(chunk.index as int)
                    &&& chunk.len == chunk_len(chunk.index as int, old(self).plan.total as int)
                    &&& chunk.len > 0
                    &&& final(self).next == old(self).next + old(self).plan.workers
                },
                None => old(self).next >= old(self).plan.count && *final(self) == *old(self),
            },
    {
        let total = self.plan.total;
        if self.next >= self.plan.count {
            return None;
        }
        let index: u64 = self.next;
        let offset: u64 = index * DOWNLOAD_CHUNK_SIZE;
        let left: u64 = total - offset;
        let len: u64 = if left < DOWNLOAD_CHUNK_SIZE { left } else { DOWNLOAD_CHUNK_SIZE };
        self.next = index + self.plan.workers;
        Some(Chunk { index, offset, len })
    }
}

/// The number of the chunk that a stripe gives after `k` others.
pub open spec fn nth_of_stripe(stripe: Stripe, k: int) -> int {
    stripe.next + k * stripe.plan.workers
}

/// A worker's stripe runs through exactly the chunks that the worker owns.
pub proof fn lemma_stripe_is_owned(stripe: Stripe, w: int, i: int)
    requires
        stripe.wf(),
        stripe.next == stripe.plan.first + w,
    ensures
        owns(stripe.plan.first as int, stripe.plan.workers as int, w, i) <==> exists|k: int|
            0 <= k && i == #[trigger] nth_of_stripe(stripe, k),
{
    let first = stripe.plan.first as int;
    let n = stripe.plan.workers as int;
    if owns(first, n, w, i) {
        let k = (i - first - w) / n;
        vstd::arithmetic::div_mod::lemma_fundamental_div_mod(i - first - w, n);
        assert(k >= 0) by (nonlinear_arith)
            requires
                k == (i - first - w) / n,
                i - first - w >= 0,
                n >= 1,
        ;
        assert(n * k == k * n) by (nonlinear_arith);
        assert(i == nth_of_stripe(stripe, k));
    }
    if exists|k: int| 0 <= k && i == #[trigger] nth_of_stripe(stripe, k) {
        let k = choose|k: int| 0 <= k && i == #[trigger] nth_of_stripe(stripe, k);
        assert(k * n >= 0) by (nonlinear_arith)
            requires
                k >= 0,
                n >= 1,
        ;
        vstd::arithmetic::div_mod::lemma_mod_multiples_basic(k, n);
        assert((i - first - w) == k * n);
    }
}

/// Each chunk is fetched by exactly one of the workers.
pub proof fn lemma_one_worker_per_chunk(plan: ChunkPlan, i: int)
    requires
        plan.wf(),
        plan.first <= i < plan.count,
    ensures
        exists|w: int|
            0 <= w < plan.workers && #[trigger] owns(
                plan.first as int,
                plan.workers as int,
                w,
                i,
            ),
        forall|v: int, w: int|
            0 <= v < plan.workers && 0 <= w < plan.workers && #[trigger] owns(
                plan.first as int,
                plan.workers as int,
                v,
                i,
            ) && #[trigger] owns(plan.first as int, plan.workers as int, w, i) ==> v == w,
{
    let first = plan.first as int;
    let n = plan.workers as int;
    let w = (i - first) % n;
    vstd::arithmetic::div_mod::lemma_fundamental_div_mod(i - first, n);
    let q = (i - first) / n;
    assert(n * q == q * n) by (nonlinear_arith);
    assert(q * n >= 0) by (nonlinear_arith)
        requires
            q == (i - first) / n,
            i - first >= 0,
            n >= 1,
    ;
    vstd::arithmetic::div_mod::lemma_mod_multiples_basic(q, n);
    assert(i - first - w == q * n);
    assert(owns(first, n, w, i));
    assert forall|v: int, u: int|
        0 <= v < n && 0 <= u < n && #[trigger] owns(first, n, v, i) && #[trigger] owns(
            first,
            n,
            u,
            i,
        ) implies v == u by {
        lemma_same_remainder(i - first, v, u, n);
    }
}

/// The stripes of the workers together run through every chunk.
pub proof fn lemma_stripes_cover_every_chunk(plan: ChunkPlan, i: int)
    requires
        plan.wf(),
        plan.first <= i < plan.count,
    ensures
        exists|w: u64, k: int|
            w < plan.workers && 0 <= k && i == #[trigger] nth_of_stripe(
                Stripe { next: (plan.first + w) as u64, plan },
                k,
            ),
{
    lemma_one_worker_per_chunk(plan, i);
    let v = choose|v: int|
        0 <= v < plan.workers && #[trigger] owns(plan.first as int, plan.workers as int, v, i);
    let w = v as u64;
    let stripe = Stripe { next: (plan.first + w) as u64, plan };
    lemma_stripe_is_owned(stripe, v, i);
    let k = choose|k: int| 0 <= k && i == #[trigger] nth_of_stripe(stripe, k);
    assert(i == nth_of_stripe(Stripe { next: (plan.first + w) as u64, plan }, k));
}

proof fn lemma_same_remainder(d: int, v: int, u: int, n: int)
    requires
        0 <= v < n,
        0 <= u < n,
        (d - v) % n == 0,
        (d - u) % n == 0,
    ensures
        v == u,
{
    let a = (d - v) / n;
    let b = (d - u) / n;
    vstd::arithmetic::div_mod::lemma_fundamental_div_mod(d - v, n);
    vstd::arithmetic::div_mod::lemma_fundamental_div_mod(d - u, n);
    assert(d - v == n * a && d - u == n * b);
    assert(u - v == n * a - n * b);
    assert(n * a - n * b == n * (a - b)) by (nonlinear_arith);
    assert(a == b) by (nonlinear_arith)
        requires
            u - v == n * (a - b),
            0 <= v < n,
            0 <= u < n,
    ;
}

/// The chunks of a file lie side by side: each but the last has the full size and ends where the
/// next one starts, and the last one ends where the file does.
pub proof fn lemma_chunks_tile_the_file(total: int, i: int)
    requires
        0 <= i < chunk_count(total),
    ensures
        chunk_offset(i) < total,
        0 < chunk_len(i, total) <= DOWNLOAD_CHUNK_SIZE,
        i + 1 < chunk_count(total) ==> chunk_offset(i) + chunk_len(i, total) == chunk_offset(i + 1),
        i + 1 == chunk_count(total) ==> chunk_offset(i) + chunk_len(i, total) == total,
{
}

/// A file is fetched in pieces of 512 KiB: chunk `i` starts at `i` times that, and each byte of the
/// file lies in exactly one chunk.
pub proof fn lemma_each_byte_lies_in_one_chunk(total: int, at: int)
    requires
        0 <= at < total,
    ensures
        ({
            let i = at / 0x8_0000;
            &&& 0 <= i < chunk_count(total)
            &&& chunk_offset(i) == i * 0x8_0000
            &&& chunk_offset(i) <= at < chunk_offset(i) + chunk_len(i, total)
        }),
        forall|i: int|
            0 <= i < chunk_count(total) && chunk_offset(i) <= at < chunk_offset(i)
                + #[trigger] chunk_len(i, total) ==> i == at / 0x8_0000,
        chunk_count(0) == 0,
{
}

/// A plan starts with the chunk that the position lies in, ends with the last chunk of the file,
/// and shares its chunks over as many workers as there are connections, as far as there are chunks
/// for them, and at least one.
pub proof fn lemma_plans(start: u64, total: u64, connections: u64, r: ChunkPlan)
    requires
        call_ensures(plan_chunks, (start, total, connections), r),
        start <= total,
    ensures
        r.first * 0x8_0000 <= start < (r.first + 1) * 0x8_0000,
        total <= r.count * 0x8_0000 < total + 0x8_0000,
        r.total == total,
        r.workers >= 1,
        1 <= connections <= r.count - r.first ==> r.workers == connections,
        1 <= r.count - r.first <= connections ==> r.workers == r.count - r.first,
        connections == 0 || r.count == r.first ==> r.workers == 1,
{
}

/// A worker starts with the chunk of its own number.
pub proof fn lemma_stripes_start_side_by_side(plan: ChunkPlan, worker: u64, r: Stripe)
    requires
        call_ensures(Stripe::new, (plan, worker), r),
    ensures
        r.next == plan.first + worker,
        r.plan == plan,
{
}

/// A worker takes its next chunk, as long as one is left, and passes over as many as there are
/// workers; the chunk is the piece of the file that its number says.
pub proof fn lemma_stripes_step_by_workers(stripe: &mut Stripe, r: Option<Chunk>)
    requires
        call_ensures(Stripe::take, (stripe,), r),
        old(stripe).wf(),
    ensures
        r is None <==> old(stripe).next >= old(stripe).plan.count,
        r matches Some(chunk) ==> {
            &&& chunk.index == old(stripe).next
            &&& chunk.offset == chunk.index * 0x8_0000
            &&& 0 < chunk.len <= 0x8_0000
            &&& chunk.offset + chunk.len <= old(stripe).plan.total
            &&& chunk.len == 0x8_0000 || chunk.offset + chunk.len == old(stripe).plan.total
            &&& final(stripe).next == old(stripe).next + old(stripe).plan.workers
        },
        final(stripe).plan == old(stripe).plan,
{
}

} // verus!
