//! The division of the content into chunks, and the reassembly in order of
//! chunks that arrive in any order.

use vstd::prelude::*;
use std::collections::HashMap;
use crate::download::{Error, ErrorView, Message};

verus! {

broadcast use vstd::std_specs::hash::group_hash_axioms;

/// The number of chunks of at most `chunk` bytes that `content` bytes take,
/// rounded up.
pub open spec fn spec_chunk_count(content: int, chunk: int) -> int {
    (content + chunk - 1) / chunk
}

/// The first byte of chunk `index`.
pub open spec fn spec_chunk_start(index: int, chunk: int) -> int {
    index * chunk
}

/// The last byte of chunk `index`: a whole chunk later, or the last byte of
/// the content, whichever comes first.
pub open spec fn spec_chunk_end(index: int, content: int, chunk: int) -> int {
    let end = index * chunk + chunk - 1;
    if end < content - 1 { end } else { content - 1 }
}

/// `k` is below the number of chunks exactly when chunk `k` starts inside the
/// content.
pub proof fn lemma_below_chunk_count(k: int, content: int, chunk: int)
    requires
        content > 0,
        chunk > 0,
        k >= 0,
    ensures
        k < spec_chunk_count(content, chunk) <==> k * chunk < content,
{
    let x = content + chunk - 1;
    let q = x / chunk;
    let r = x % chunk;
    vstd::arithmetic::div_mod::lemma_fundamental_div_mod(x, chunk);
    vstd::arithmetic::div_mod::lemma_mod_bound(x, chunk);
    assert(x == chunk * q + r);
    if k < q {
        assert(k * chunk <= (q - 1) * chunk) by (nonlinear_arith)
            requires
                k <= q - 1,
                chunk > 0,
        ;
        assert((q - 1) * chunk == chunk * q - chunk) by (nonlinear_arith);
    } else {
        assert(k * chunk >= q * chunk) by (nonlinear_arith)
            requires
                k >= q,
                chunk > 0,
        ;
        assert(q * chunk == chunk * q) by (nonlinear_arith);
    }
}

/// The inclusive byte range of one chunk of the content, and the chunk's
/// position among the chunks.
#[derive(Clone, Copy, PartialEq, Eq, Debug)]
pub struct ChunkRange {
    /// The chunk's index.
    pub index: u64,
    /// The chunk's first byte.
    pub start: u64,
    /// The chunk's last byte.
    pub end: u64,
}

/// The range of chunk `index` when `content` bytes are divided into chunks of
/// at most `chunk` bytes.
pub open spec fn spec_chunk_range(index: int, content: int, chunk: int) -> ChunkRange {
    ChunkRange {
        index: index as u64,
        start: spec_chunk_start(index, chunk) as u64,
        end: spec_chunk_end(index, content, chunk) as u64,
    }
}

impl ChunkRange {
    /// The number of bytes that the range holds.
    pub open spec fn spec_len(self) -> int {
        self.end - self.start + 1
    }

    /// The message that reports that this chunk was received.
    pub fn received_message(&self) -> (message: Message)
        requires
            self.end < u64::MAX,
        ensures
            message == (Message::ReceivedChunk {
                index: self.index,
                content_byte_range: self.start..(self.end + 1) as u64,
            }),
    {
        Message::ReceivedChunk { index: self.index, content_byte_range: self.start..self.end + 1 }
    }

    /// The message that reports that `byte_count` bytes of this chunk were
    /// written.
    pub fn wrote_message(&self, byte_count: u64) -> (message: Message)
        ensures
            message == (Message::WroteChunk { index: self.index, byte_count }),
    {
        Message::WroteChunk { index: self.index, byte_count }
    }

    /// Checks that a response of `actual` bytes holds exactly this range.
    pub fn check_response_length(&self, actual: u64) -> (result: Result<(), Error>)
        requires
            self.start <= self.end,
            self.end < u64::MAX,
        ensures
            actual == self.spec_len() <==> result is Ok,
            result matches Err(e) ==> e@ == (ErrorView::UnexpectedResponseLength {
                expected: self.spec_len() as u64,
                actual,
            }),
    {
        let expected = self.end - self.start + 1;
        if actual != expected {
            Err(Error::UnexpectedResponseLength { expected, actual })
        } else {
            Ok(())
        }
    }
}

/// The division of `content_byte_count` bytes into chunks of at most
/// `chunk_byte_count` bytes.
pub struct ChunkPlan {
    content_byte_count: u64,
    chunk_byte_count: u64,
}

impl ChunkPlan {
    #[verifier::type_invariant]
    spec fn nonempty(self) -> bool {
        self.content_byte_count > 0 && self.chunk_byte_count > 0
    }

    /// The number of bytes of the content.
    pub closed spec fn content(self) -> int {
        self.content_byte_count as int
    }

    /// The greatest number of bytes in a chunk.
    pub closed spec fn chunk(self) -> int {
        self.chunk_byte_count as int
    }

    /// The number of chunks.
    pub open spec fn spec_count(self) -> int {
        spec_chunk_count(self.content(), self.chunk())
    }

    /// The range of chunk `index`.
    pub open spec fn spec_range(self, index: int) -> ChunkRange {
        spec_chunk_range(index, self.content(), self.chunk())
    }

    /// The plan for `content_byte_count` bytes in chunks of at most
    /// `chunk_byte_count` bytes.
    pub closed spec fn spec_new(content_byte_count: u64, chunk_byte_count: u64) -> ChunkPlan {
        ChunkPlan { content_byte_count, chunk_byte_count }
    }

    /// A plan for `content_byte_count` bytes in chunks of at most
    /// `chunk_byte_count` bytes.
    pub fn new(content_byte_count: u64, chunk_byte_count: u64) -> (plan: ChunkPlan)
        requires
            content_byte_count > 0,
            chunk_byte_count > 0,
        ensures
            plan == ChunkPlan::spec_new(content_byte_count, chunk_byte_count),
            plan.content() == content_byte_count,
            plan.chunk() == chunk_byte_count,
    {
        ChunkPlan { content_byte_count, chunk_byte_count }
    }

    /// The number of bytes of the content.
    pub fn content_byte_count(&self) -> (count: u64)
        ensures
            count == self.content(),
            count > 0,
    {
        proof { use_type_invariant(self); }
        self.content_byte_count
    }

    /// The greatest number of bytes in a chunk.
    pub fn chunk_byte_count(&self) -> (count: u64)
        ensures
            count == self.chunk(),
            count > 0,
    {
        proof { use_type_invariant(self); }
        self.chunk_byte_count
    }

    /// The number of chunks, rounded up.
    pub fn chunk_count(&self) -> (count: u64)
        ensures
            count == self.spec_count(),
            count > 0,
    {
        proof { use_type_invariant(self); }
        let n = self.content_byte_count;
        let c = self.chunk_byte_count;
        proof {
            let ni = n as int;
            let ci = c as int;
            let q = (ni - 1) / ci;
            vstd::arithmetic::div_mod::lemma_fundamental_div_mod(ni - 1, ci);
            vstd::arithmetic::div_mod::lemma_mod_bound(ni - 1, ci);
            assert((ni - 1 + ci) / ci == q + 1) by {
                vstd::arithmetic::div_mod::lemma_div_plus_one(ni - 1, ci);
            }
            assert(q * ci <= ni - 1) by (nonlinear_arith)
                requires
                    ni - 1 == ci * q + (ni - 1) % ci,
                    (ni - 1) % ci >= 0,
            ;
            assert(q <= ni - 1) by (nonlinear_arith)
                requires
                    q * ci <= ni - 1,
                    ci >= 1,
                    q >= 0,
            ;
        }
        (n - 1) / c + 1
    }

    /// The ranges of all the chunks, in order: chunk `k` starts at byte
    /// `k * chunk` and ends a whole chunk later or at the end of the content.
    pub fn ranges(&self) -> (ranges: Vec<ChunkRange>)
        ensures
            ranges@.len() == self.spec_count(),
            forall|k: int| 0 <= k < ranges@.len() ==> #[trigger] ranges@[k] == self.spec_range(k),
    {
        proof { use_type_invariant(self); }
        let n = self.content_byte_count;
        let c = self.chunk_byte_count;
        let count = self.chunk_count();
        let mut ranges: Vec<ChunkRange> = Vec::new();
        let mut index: u64 = 0;
        let mut start: u64 = 0;
        while index < count
            invariant
                n == self.content(),
                c == self.chunk(),
                n > 0,
                c > 0,
                count == self.spec_count(),
                index <= count,
                index < count ==> start == index * c,
                ranges@.len() == index,
                forall|k: int| 0 <= k < index ==> #[trigger] ranges@[k] == self.spec_range(k),
            decreases count - index,
        {
            proof {
                lemma_below_chunk_count(index as int, n as int, c as int);
            }
            let end = if n - 1 - start < c - 1 {
                n - 1
            } else {
                start + c - 1
            };
            ranges.push(ChunkRange { index, start, end });
            proof {
                lemma_below_chunk_count(index + 1, n as int, c as int);
                assert((index + 1) * c == index * c + c) by (nonlinear_arith);
            }
            index = index + 1;
            start = end + 1;
        }
        ranges
    }

    /// The byte range to ask the server for when fetching `range`: none when
    /// the range is the whole content, which is then fetched as it is.
    pub fn requested_byte_range(&self, range: &ChunkRange) -> (requested: Option<(u64, u64)>)
        ensures
            requested == (if range.start == 0 && range.end == self.content() - 1 {
                None
            } else {
                Some((range.start, range.end))
            }),
    {
        proof { use_type_invariant(self); }
        if range.start == 0 && range.end == self.content_byte_count - 1 {
            None
        } else {
            Some((range.start, range.end))
        }
    }
}

/// The chunks cover the content exactly, in order: the first starts at byte
/// 0, each one starts right after the one before it ends, the last ends at the
/// last byte, and every chunk but the last holds exactly `chunk` bytes while
/// the last holds between 1 and `chunk` bytes.
pub proof fn lemma_chunks_partition_content(content: int, chunk: int)
    requires
        0 < content <= u64::MAX,
        0 < chunk <= u64::MAX,
    ensures
        spec_chunk_count(content, chunk) >= 1,
        spec_chunk_range(0, content, chunk).start == 0,
        spec_chunk_range(spec_chunk_count(content, chunk) - 1, content, chunk).end == content - 1,
        forall|k: int|
            0 <= k < spec_chunk_count(content, chunk) ==> {
                let r = #[trigger] spec_chunk_range(k, content, chunk);
                &&& r.index == k
                &&& r.start <= r.end < content
                &&& 1 <= r.spec_len() <= chunk
            },
        forall|k: int|
            0 <= k && k + 1 < spec_chunk_count(content, chunk) ==> {
                let r = #[trigger] spec_chunk_range(k, content, chunk);
                &&& r.spec_len() == chunk
                &&& spec_chunk_range(k + 1, content, chunk).start == r.end + 1
            },
{
    let count = spec_chunk_count(content, chunk);
    lemma_below_chunk_count(0, content, chunk);
    assert(0 * chunk == 0) by (nonlinear_arith);
    assert forall|k: int| 0 <= k < count implies {
        let r = #[trigger] spec_chunk_range(k, content, chunk);
        &&& r.index == k
        &&& r.start <= r.end < content
        &&& 1 <= r.spec_len() <= chunk
    } by {
        lemma_below_chunk_count(k, content, chunk);
        assert(k * chunk >= k) by (nonlinear_arith)
            requires
                k >= 0,
                chunk > 0,
        ;
    }
    assert forall|k: int| 0 <= k && k + 1 < count implies {
        let r = #[trigger] spec_chunk_range(k, content, chunk);
        &&& r.spec_len() == chunk
        &&& spec_chunk_range(k + 1, content, chunk).start == r.end + 1
    } by {
        lemma_below_chunk_count(k, content, chunk);
        lemma_below_chunk_count(k + 1, content, chunk);
        assert((k + 1) * chunk == k * chunk + chunk) by (nonlinear_arith);
        assert(k * chunk >= k) by (nonlinear_arith)
            requires
                k >= 0,
                chunk > 0,
        ;
    }
    lemma_below_chunk_count(count - 1, content, chunk);
    lemma_below_chunk_count(count, content, chunk);
    assert(count * chunk == (count - 1) * chunk + chunk) by (nonlinear_arith);
    assert((count - 1) * chunk >= count - 1) by (nonlinear_arith)
        requires
            count >= 1,
            chunk > 0,
    ;
}

/// Content divided into chunks as large as itself is a single chunk that runs
/// from the first byte to the last.
pub proof fn lemma_whole_content_is_one_chunk(content: int)
    requires
        0 < content <= u64::MAX,
    ensures
        spec_chunk_count(content, content) == 1,
        spec_chunk_range(0, content, content) == (ChunkRange {
            index: 0,
            start: 0,
            end: (content - 1) as u64,
        }),
{
    lemma_below_chunk_count(0, content, content);
    lemma_below_chunk_count(1, content, content);
    assert(0 * content == 0) by (nonlinear_arith);
    assert(1 * content == content) by (nonlinear_arith);
}

/// The next step of a download of the chunks of a plan one after the other.
#[derive(Clone, Copy, PartialEq, Eq, Debug)]
pub enum SequentialStep {
    /// Fetch the chunk `range`, asking the server for the byte range
    /// `requested`, or for the whole content where there is none.
    Fetch { range: ChunkRange, requested: Option<(u64, u64)> },
    /// Every chunk has been fetched and written.
    Done,
}

/// A download of the chunks of a plan one after the other: each chunk is
/// fetched, reported, checked for its length, written and reported again
/// before the next one is fetched.
pub struct SequentialDownload {
    plan: ChunkPlan,
    ranges: Vec<ChunkRange>,
    position: usize,
}

impl SequentialDownload {
    #[verifier::type_invariant]
    spec fn ranges_follow_plan(self) -> bool {
        &&& self.ranges@.len() == self.plan.spec_count()
        &&& forall|k: int| 0 <= k < self.ranges@.len() ==> #[trigger] self.ranges@[k] == self.plan.spec_range(k)
        &&& self.position <= self.ranges@.len()
    }

    /// The plan that the download follows.
    pub closed spec fn plan(self) -> ChunkPlan {
        self.plan
    }

    /// The number of chunks that have been written.
    pub closed spec fn written_count(self) -> int {
        self.position as int
    }

    /// A download of the chunks of `plan`, none written yet.
    pub fn new(plan: ChunkPlan) -> (download: SequentialDownload)
        ensures
            download.plan() == plan,
            download.written_count() == 0,
    {
        let ranges = plan.ranges();
        SequentialDownload { plan, ranges, position: 0 }
    }

    /// What to do next: fetch the first chunk not yet written, or nothing.
    pub fn next_step(&self) -> (step: SequentialStep)
        ensures
            self.written_count() < self.plan().spec_count() ==> {
                let range = self.plan().spec_range(self.written_count());
                step == SequentialStep::Fetch {
                    range,
                    requested: if range.start == 0 && range.end == self.plan().content() - 1 {
                        None
                    } else {
                        Some((range.start, range.end))
                    },
                }
            },
            self.written_count() >= self.plan().spec_count() ==> step == SequentialStep::Done,
    {
        proof { use_type_invariant(self); }
        if self.position < self.ranges.len() {
            let range = self.ranges[self.position];
            SequentialStep::Fetch { range, requested: self.plan.requested_byte_range(&range) }
        } else {
            SequentialStep::Done
        }
    }

    /// Takes in the number of bytes fetched for the next chunk. Returns the
    /// message that reports its arrival, and whether it holds exactly the bytes
    /// of its range.
    pub fn fetched(&self, byte_count: u64) -> (result: (Message, Result<(), Error>))
        requires
            self.written_count() < self.plan().spec_count(),
        ensures
            ({
                let range = self.plan().spec_range(self.written_count());
                &&& result.0 == (Message::ReceivedChunk {
                    index: range.index,
                    content_byte_range: range.start..(range.end + 1) as u64,
                })
                &&& byte_count == range.spec_len() <==> result.1 is Ok
                &&& result.1 matches Err(e) ==> e@ == (ErrorView::UnexpectedResponseLength {
                    expected: range.spec_len() as u64,
                    actual: byte_count,
                })
            }),
    {
        proof {
            use_type_invariant(self);
            use_type_invariant(&self.plan);
            lemma_chunks_partition_content(self.plan.content(), self.plan.chunk());
        }
        let range = self.ranges[self.position];
        (range.received_message(), range.check_response_length(byte_count))
    }

    /// Takes in that `byte_count` bytes of the next chunk were written.
    /// Returns the message that reports it, and moves on to the chunk after.
    pub fn written(&mut self, byte_count: u64) -> (message: Message)
        requires
            old(self).written_count() < old(self).plan().spec_count(),
        ensures
            message == (Message::WroteChunk { index: old(self).written_count() as u64, byte_count }),
            final(self).plan() == old(self).plan(),
            final(self).written_count() == old(self).written_count() + 1,
    {
        proof { use_type_invariant(&*self); }
        let range = self.ranges[self.position];
        assert(self.position < self.ranges.len());
        self.position = self.position + 1;
        range.wrote_message(byte_count)
    }
}

/// A chunk fetched from the server: its range and its bytes.
pub struct ReceivedChunk {
    /// The chunk's range.
    pub range: ChunkRange,
    /// The chunk's bytes.
    pub bytes: Vec<u8>,
}

/// The chunk indices from `from` up to, but not including, `to`.
pub open spec fn spec_indices_between(from: int, to: int) -> Set<u64> {
    Set::new(|k: u64| from <= k < to)
}

/// Where the next chunk to write stands once every chunk of `received` that
/// follows `next` without a gap has been written: the first index at or after
/// `next` that has not been received, or `expected` if there is none below it.
pub open spec fn spec_drained_to(next: int, received: Set<u64>, expected: int) -> int
    decreases expected - next,
{
    if next < expected && received.contains(next as u64) {
        spec_drained_to(next + 1, received, expected)
    } else {
        next
    }
}

/// Reassembles, in index order, chunks that arrive in any order: a chunk is
/// held back until every chunk before it has been handed out for writing.
pub struct Reassembly {
    expected_chunk_count: u64,
    next_chunk_index: u64,
    pending: HashMap<u64, ReceivedChunk>,
    arrivals: Ghost<Seq<u64>>,
}

impl Reassembly {
    #[verifier::type_invariant]
    spec fn held_chunks_follow_next(self) -> bool {
        &&& self.next_chunk_index <= self.expected_chunk_count
        &&& forall|k: u64| #[trigger]
            self.pending@.contains_key(k) ==> self.next_chunk_index <= k < self.expected_chunk_count
                && self.pending@[k].range.index == k
        &&& (self.next_chunk_index as int, self.pending@.dom()) == spec_reassembly_after(
            self.arrivals@,
            self.expected_chunk_count as int,
        )
    }

    /// The indices of the chunks received so far, in the order of arrival.
    pub closed spec fn arrivals(self) -> Seq<u64> {
        self.arrivals@
    }

    /// The number of chunks to reassemble.
    pub closed spec fn expected(self) -> int {
        self.expected_chunk_count as int
    }

    /// The index of the next chunk to hand out for writing; every chunk
    /// before it has been handed out.
    pub closed spec fn next(self) -> int {
        self.next_chunk_index as int
    }

    /// The chunks received but not yet handed out, by index.
    pub closed spec fn pending(self) -> Map<u64, ReceivedChunk> {
        self.pending@
    }

    /// A reassembly of `expected_chunk_count` chunks, none received yet.
    pub fn new(expected_chunk_count: u64) -> (reassembly: Reassembly)
        ensures
            reassembly.expected() == expected_chunk_count,
            reassembly.next() == 0,
            reassembly.pending() == Map::<u64, ReceivedChunk>::empty(),
            reassembly.arrivals() == Seq::<u64>::empty(),
            (reassembly.next(), reassembly.pending().dom()) == spec_reassembly_after(
                reassembly.arrivals(),
                reassembly.expected(),
            ),
    {
        let pending: HashMap<u64, ReceivedChunk> = HashMap::new();
        proof {
            assert(pending@.dom() =~= Set::<u64>::empty());
        }
        Reassembly {
            expected_chunk_count,
            next_chunk_index: 0,
            pending,
            arrivals: Ghost(Seq::empty()),
        }
    }

    /// The index of the next chunk to hand out for writing.
    pub fn next_chunk_index(&self) -> (index: u64)
        ensures
            index == self.next(),
    {
        self.next_chunk_index
    }

    /// Whether every chunk has been handed out for writing.
    pub fn is_complete(&self) -> (complete: bool)
        ensures
            complete == (self.next() >= self.expected()),
    {
        self.next_chunk_index >= self.expected_chunk_count
    }

    /// What [`Reassembly::receive`] does: `before` takes in `chunk`, reports it
    /// with `message`, hands out `released` for writing, in index order (the
    /// chunks from the next one to write on, as far as they follow one another
    /// without a gap), and becomes `after`.
    pub open spec fn spec_receives(
        before: Reassembly,
        after: Reassembly,
        chunk: ReceivedChunk,
        message: Message,
        released: Seq<ReceivedChunk>,
    ) -> bool
    {
        let received = before.pending().insert(chunk.range.index, chunk);
        let drained = spec_drained_to(before.next(), received.dom(), before.expected());
        &&& message == (Message::ReceivedChunk {
            index: chunk.range.index,
            content_byte_range: chunk.range.start..(chunk.range.end + 1) as u64,
        })
        &&& after.expected() == before.expected()
        &&& after.next() == drained
        &&& after.pending() == received.remove_keys(
            spec_indices_between(before.next(), drained),
        )
        &&& after.pending().dom() == received.dom().difference(
            spec_indices_between(before.next(), drained),
        )
        &&& released.len() == drained - before.next()
        &&& forall|k: int|
            0 <= k < released.len() ==> #[trigger] released[k] == received[(before.next()
                + k) as u64] && released[k].range.index == before.next() + k
        &&& after.arrivals() == before.arrivals().push(chunk.range.index)
        &&& (after.next(), after.pending().dom()) == spec_reassembly_after(
            after.arrivals(),
            after.expected(),
        )
    }

    /// Takes in a received chunk. Returns the message that reports its
    /// arrival, and the chunks that can now be written, in index order: those
    /// from the next chunk to write on, as far as they follow one another
    /// without a gap.
    pub fn receive(&mut self, chunk: ReceivedChunk) -> (result: (Message, Vec<ReceivedChunk>))
        requires
            old(self).next() <= chunk.range.index < old(self).expected(),
            chunk.range.end < u64::MAX,
        ensures
            Reassembly::spec_receives(*old(self), *final(self), chunk, result.0, result.1@),
    {
        let mut taken = Reassembly::new(self.expected_chunk_count);
        std::mem::swap(&mut taken, self);
        proof { use_type_invariant(&taken); }
        let Reassembly { expected_chunk_count, next_chunk_index, pending, arrivals: old_arrivals } =
            taken;
        let mut next = next_chunk_index;
        let mut pending = pending;
        let ghost old_next = next as int;
        let ghost expected = expected_chunk_count as int;
        let ghost old_arrivals = old_arrivals@;
        let message = chunk.range.received_message();
        let index = chunk.range.index;
        pending.insert(index, chunk);
        let ghost received = pending@;
        let mut released: Vec<ReceivedChunk> = Vec::new();
        while next < expected_chunk_count && pending.contains_key(&next)
            invariant
                expected == expected_chunk_count,
                old_next <= next <= expected,
                forall|k: u64| #[trigger]
                    pending@.contains_key(k) ==> next <= k < expected && pending@[k].range.index == k,
                forall|k: u64| #[trigger]
                    received.contains_key(k) ==> old_next <= k < expected && received[k].range.index
                        == k,
                pending@ == received.remove_keys(spec_indices_between(old_next, next as int)),
                forall|k: int|
                    old_next <= k < next ==> received.contains_key(#[trigger] (k as u64)),
                spec_drained_to(old_next, received.dom(), expected) == spec_drained_to(
                    next as int,
                    received.dom(),
                    expected,
                ),
                released@.len() == next - old_next,
                forall|k: int|
                    0 <= k < released@.len() ==> #[trigger] released@[k] == received[(old_next + k) as u64],
            decreases expected - next,
        {
            let taken = pending.remove(&next);
            proof {
                assert(taken is Some);
            }
            let taken = taken.unwrap();
            released.push(taken);
            next = next + 1;
            proof {
                assert(pending@ =~= received.remove_keys(spec_indices_between(old_next, next as int)));
            }
        }
        let ghost arrivals = old_arrivals.push(index);
        proof {
            assert(pending@.dom() =~= received.dom().difference(
                spec_indices_between(old_next, next as int),
            ));
            assert(arrivals.drop_last() =~= old_arrivals);
            assert(received.dom() =~= spec_reassembly_after(old_arrivals, expected).1.insert(index));
        }
        *self = Reassembly {
            expected_chunk_count,
            next_chunk_index: next,
            pending,
            arrivals: Ghost(arrivals),
        };
        (message, released)
    }
}

/// What a worker of a concurrent download sends back.
pub enum Arrival {
    /// A chunk, fetched and checked for its length.
    Chunk(ReceivedChunk),
    /// A worker failed with the error.
    Failed(Error),
    /// No worker is left to send anything.
    WorkersGone,
}

/// What to do on an arrival.
pub enum ArrivalOutcome {
    /// Report the message, then write the chunks, in order.
    Write(Message, Vec<ReceivedChunk>),
    /// Tell the workers that are left to stop, and fail with the error.
    Abort(Error),
}

impl Reassembly {
    /// Decides on what a worker sent back: a chunk of the reassembly that has
    /// not been handed out yet is received (see [`Reassembly::receive`]); a
    /// worker's failure aborts the download with that error; no worker left,
    /// or a chunk that does not belong, aborts it with `Error::Internal`.
    pub fn take(&mut self, arrival: Arrival) -> (outcome: ArrivalOutcome)
        ensures
            arrival matches Arrival::Failed(e) ==> (outcome == ArrivalOutcome::Abort(e)
                && *final(self) == *old(self)),
            arrival is WorkersGone ==> (outcome matches ArrivalOutcome::Abort(e) && e@
                == ErrorView::Internal) && *final(self) == *old(self),
            arrival matches Arrival::Chunk(chunk) ==> if old(self).next() <= chunk.range.index
                < old(self).expected() && chunk.range.end < u64::MAX {
                outcome matches ArrivalOutcome::Write(message, released)
                    && Reassembly::spec_receives(*old(self), *final(self), chunk, message, released@)
            } else {
                (outcome matches ArrivalOutcome::Abort(e) && e@ == ErrorView::Internal)
                    && *final(self) == *old(self)
            },
    {
        match arrival {
            Arrival::Chunk(chunk) => {
                if self.next_chunk_index <= chunk.range.index
                    && chunk.range.index < self.expected_chunk_count && chunk.range.end < u64::MAX {
                    let (message, released) = self.receive(chunk);
                    ArrivalOutcome::Write(message, released)
                } else {
                    ArrivalOutcome::Abort(Error::Internal)
                }
            },
            Arrival::Failed(e) => ArrivalOutcome::Abort(e),
            Arrival::WorkersGone => ArrivalOutcome::Abort(Error::Internal),
        }
    }
}

/// The state of a reassembly of `expected` chunks once the chunks with the
/// indices of `arrivals` have been received in that order, each passed to
/// [`Reassembly::receive`]: the index of the next chunk to write, and the
/// indices received but not yet handed out.
pub open spec fn spec_reassembly_after(arrivals: Seq<u64>, expected: int) -> (int, Set<u64>)
    decreases arrivals.len(),
{
    if arrivals.len() == 0 {
        (0, Set::empty())
    } else {
        let before = spec_reassembly_after(arrivals.drop_last(), expected);
        let received = before.1.insert(arrivals.last());
        let drained = spec_drained_to(before.0, received, expected);
        (drained, received.difference(spec_indices_between(before.0, drained)))
    }
}

/// Draining stops at the first index that has not been received, or at
/// `expected`, and every index it passes has been received.
proof fn lemma_drained_to(next: int, received: Set<u64>, expected: int)
    requires
        0 <= next <= expected <= u64::MAX,
    ensures
        next <= spec_drained_to(next, received, expected) <= expected,
        forall|k: int|
            next <= k < spec_drained_to(next, received, expected) ==> received.contains(
                #[trigger] (k as u64),
            ),
        spec_drained_to(next, received, expected) < expected ==> !received.contains(
            spec_drained_to(next, received, expected) as u64,
        ),
    decreases expected - next,
{
    if next < expected && received.contains(next as u64) {
        lemma_drained_to(next + 1, received, expected);
    }
}

/// After any arrivals of distinct chunks, every chunk before the next one to
/// write has arrived, the chunks held back are exactly those that arrived at
/// or after it, and the next one to write has not arrived unless all are done.
proof fn lemma_reassembly_progress(arrivals: Seq<u64>, expected: int)
    requires
        0 <= expected <= u64::MAX,
        arrivals.no_duplicates(),
        forall|i: int| 0 <= i < arrivals.len() ==> arrivals[i] < expected,
    ensures
        ({
            let (next, held) = spec_reassembly_after(arrivals, expected);
            &&& 0 <= next <= expected
            &&& forall|k: u64| #[trigger] held.contains(k) <==> (arrivals.contains(k) && next <= k)
            &&& forall|k: int| 0 <= k < next ==> arrivals.contains(#[trigger] (k as u64))
            &&& next < expected ==> !held.contains(next as u64)
        }),
    decreases arrivals.len(),
{
    if arrivals.len() > 0 {
        let earlier = arrivals.drop_last();
        let last = arrivals.last();
        assert(earlier.no_duplicates()) by {
            assert forall|i: int, j: int|
                0 <= i < earlier.len() && 0 <= j < earlier.len() && i != j implies earlier[i]
                != earlier[j] by {
                assert(earlier[i] == arrivals[i]);
                assert(earlier[j] == arrivals[j]);
            }
        }
        lemma_reassembly_progress(earlier, expected);
        let (next, held) = spec_reassembly_after(earlier, expected);
        assert(forall|k: u64| #[trigger]
            arrivals.contains(k) <==> (earlier.contains(k) || k == last)) by {
            assert forall|k: u64| #[trigger] arrivals.contains(k) implies (earlier.contains(k) || k
                == last) by {
                let i = choose|i: int| 0 <= i < arrivals.len() && arrivals[i] == k;
                if i < arrivals.len() - 1 {
                    assert(earlier[i] == k);
                }
            }
            assert forall|k: u64| earlier.contains(k) || k == last implies #[trigger] arrivals.contains(
                k,
            ) by {
                if k == last {
                    assert(arrivals[arrivals.len() - 1] == k);
                } else {
                    let i = choose|i: int| 0 <= i < earlier.len() && earlier[i] == k;
                    assert(arrivals[i] == k);
                }
            }
        }
        assert(!earlier.contains(last)) by {
            if earlier.contains(last) {
                let i = choose|i: int| 0 <= i < earlier.len() && earlier[i] == last;
                assert(arrivals[i] == arrivals[arrivals.len() - 1]);
            }
        }
        assert(last < expected);
        assert(next <= last) by {
            if last < next {
                assert(earlier.contains((last as int) as u64));
            }
        }
        let received = held.insert(last);
        assert(forall|k: u64| #[trigger]
            received.contains(k) <==> (arrivals.contains(k) && next <= k));
        lemma_drained_to(next, received, expected);
        let drained = spec_drained_to(next, received, expected);
        let after = received.difference(spec_indices_between(next, drained));
        assert(spec_reassembly_after(arrivals, expected) == (drained, after));
        assert forall|k: int| 0 <= k < drained implies arrivals.contains(#[trigger] (k as u64)) by {
            if k < next {
                assert(earlier.contains(k as u64));
            } else {
                assert(received.contains(k as u64));
            }
        }
    }
}

/// Whatever the order in which the chunks arrive, once each of the
/// `expected` chunks has arrived exactly once, every chunk has been handed out
/// for writing and none is held back.
pub proof fn lemma_any_arrival_order_completes(arrivals: Seq<u64>, expected: u64)
    requires
        arrivals.no_duplicates(),
        forall|k: u64| arrivals.contains(k) <==> k < expected,
    ensures
        spec_reassembly_after(arrivals, expected as int) == (expected as int, Set::<u64>::empty()),
{
    assert forall|i: int| 0 <= i < arrivals.len() implies arrivals[i] < expected by {
        assert(arrivals.contains(arrivals[i]));
    }
    lemma_reassembly_progress(arrivals, expected as int);
    let (next, held) = spec_reassembly_after(arrivals, expected as int);
    if next < expected {
        assert(arrivals.contains(next as u64));
    }
    assert(held =~= Set::<u64>::empty());
}

/// The chunk indices from `from` up to, but not including, `to`, in order.
pub open spec fn spec_index_run(from: int, to: int) -> Seq<u64> {
    Seq::new((to - from) as nat, |k: int| (from + k) as u64)
}

/// The indices of the chunks that [`Reassembly::receive`] hands out for
/// writing while the chunks with the indices of `arrivals` are received in that
/// order, all the calls' hand-outs joined in order.
pub open spec fn spec_written_after(arrivals: Seq<u64>, expected: int) -> Seq<u64>
    decreases arrivals.len(),
{
    if arrivals.len() == 0 {
        Seq::empty()
    } else {
        spec_written_after(arrivals.drop_last(), expected) + spec_index_run(
            spec_reassembly_after(arrivals.drop_last(), expected).0,
            spec_reassembly_after(arrivals, expected).0,
        )
    }
}

/// Whatever the arrivals, the chunks handed out for writing so far are those
/// before the next one to write, each once, in index order.
pub proof fn lemma_written_in_index_order(arrivals: Seq<u64>, expected: int)
    requires
        0 <= expected <= u64::MAX,
    ensures
        0 <= spec_reassembly_after(arrivals, expected).0 <= expected,
        spec_written_after(arrivals, expected) == spec_index_run(
            0,
            spec_reassembly_after(arrivals, expected).0,
        ),
    decreases arrivals.len(),
{
    if arrivals.len() > 0 {
        let earlier = arrivals.drop_last();
        lemma_written_in_index_order(earlier, expected);
        let before = spec_reassembly_after(earlier, expected);
        lemma_drained_to(before.0, before.1.insert(arrivals.last()), expected);
        let after = spec_reassembly_after(arrivals, expected);
        assert(spec_written_after(arrivals, expected) =~= spec_index_run(0, after.0));
    }
}

/// A reassembly that has received each of its chunks exactly once, in any
/// order, has handed out every chunk for writing and holds none back.
pub proof fn lemma_reassembly_of_every_chunk_completes(reassembly: Reassembly)
    requires
        (reassembly.next(), reassembly.pending().dom()) == spec_reassembly_after(
            reassembly.arrivals(),
            reassembly.expected(),
        ),
        0 <= reassembly.expected() <= u64::MAX,
        reassembly.arrivals().no_duplicates(),
        forall|k: u64| reassembly.arrivals().contains(k) <==> k < reassembly.expected(),
    ensures
        reassembly.next() == reassembly.expected(),
        reassembly.pending().dom() == Set::<u64>::empty(),
        spec_written_after(reassembly.arrivals(), reassembly.expected()) == spec_index_run(
            0,
            reassembly.expected(),
        ),
{
    lemma_any_arrival_order_completes(reassembly.arrivals(), reassembly.expected() as u64);
    lemma_written_in_index_order(reassembly.arrivals(), reassembly.expected());
}

/// Whatever the order in which the chunks of `content` bytes in chunks of at
/// most `chunk` bytes arrive, each once, the concurrent download hands them out
/// for writing in the order in which the sequential download of the same plan
/// fetches and writes them: chunk 0, then 1, and so on to the last, every chunk
/// once, and none is left held back.
pub proof fn lemma_concurrent_writes_as_sequential(arrivals: Seq<u64>, content: int, chunk: int)
    requires
        0 < content <= u64::MAX,
        0 < chunk <= u64::MAX,
        arrivals.no_duplicates(),
        forall|k: u64| arrivals.contains(k) <==> k < spec_chunk_count(content, chunk),
    ensures
        spec_written_after(arrivals, spec_chunk_count(content, chunk)) == Seq::new(
            spec_chunk_count(content, chunk) as nat,
            |k: int| spec_chunk_range(k, content, chunk).index,
        ),
        spec_reassembly_after(arrivals, spec_chunk_count(content, chunk)) == (
            spec_chunk_count(content, chunk),
            Set::<u64>::empty(),
        ),
{
    let count = spec_chunk_count(content, chunk);
    lemma_chunks_partition_content(content, chunk);
    lemma_below_chunk_count(count - 1, content, chunk);
    assert(count - 1 <= (count - 1) * chunk) by (nonlinear_arith)
        requires
            count >= 1,
            chunk >= 1,
    ;
    lemma_any_arrival_order_completes(arrivals, count as u64);
    lemma_written_in_index_order(arrivals, count);
    assert(spec_written_after(arrivals, count) =~= Seq::new(
        count as nat,
        |k: int| spec_chunk_range(k, content, chunk).index,
    ));
}

/// The bytes of `content` that the chunks before chunk `count` cover, joined in
/// index order, for chunks of at most `chunk` bytes.
pub open spec fn spec_chunks_joined(content: Seq<u8>, chunk: int, count: int) -> Seq<u8>
    decreases count,
{
    if count <= 0 {
        Seq::empty()
    } else {
        spec_chunks_joined(content, chunk, count - 1) + content.subrange(
            spec_chunk_start(count - 1, chunk),
            spec_chunk_end(count - 1, content.len() as int, chunk) + 1,
        )
    }
}

/// The chunks before chunk `count` cover the content from its first byte to
/// the last byte of chunk `count - 1`.
proof fn lemma_chunks_joined_prefix(content: Seq<u8>, chunk: int, count: int)
    requires
        0 < content.len(),
        0 < chunk,
        1 <= count <= spec_chunk_count(content.len() as int, chunk),
    ensures
        0 <= spec_chunk_end(count - 1, content.len() as int, chunk) < content.len(),
        spec_chunks_joined(content, chunk, count) == content.subrange(
            0,
            spec_chunk_end(count - 1, content.len() as int, chunk) + 1,
        ),
    decreases count,
{
    let n = content.len() as int;
    lemma_below_chunk_count(count - 1, n, chunk);
    assert((count - 1) * chunk >= 0) by (nonlinear_arith)
        requires
            count >= 1,
            chunk >= 1,
    ;
    if count == 1 {
        assert(0 * chunk == 0) by (nonlinear_arith);
        assert(spec_chunks_joined(content, chunk, 0) =~= Seq::<u8>::empty());
        assert(spec_chunks_joined(content, chunk, 1) =~= content.subrange(
            0,
            spec_chunk_end(0, n, chunk) + 1,
        ));
    } else {
        lemma_chunks_joined_prefix(content, chunk, count - 1);
        assert((count - 1) * chunk == (count - 2) * chunk + chunk) by (nonlinear_arith);
        let previous_end = spec_chunk_end(count - 2, n, chunk);
        assert(previous_end + 1 == spec_chunk_start(count - 1, chunk));
        assert(spec_chunks_joined(content, chunk, count) =~= content.subrange(
            0,
            spec_chunk_end(count - 1, n, chunk) + 1,
        ));
    }
}

/// Writing, in index order, each chunk's bytes as they stand in the content
/// rebuilds the content exactly. Both downloads write the chunks in index order
/// (see [`lemma_concurrent_writes_as_sequential`]), so where every response
/// holds the bytes of its range, both write the same file: the content.
pub proof fn lemma_chunks_rebuild_content(content: Seq<u8>, chunk: int)
    requires
        0 < content.len(),
        0 < chunk,
    ensures
        spec_chunks_joined(content, chunk, spec_chunk_count(content.len() as int, chunk)) == content,
{
    let n = content.len() as int;
    let count = spec_chunk_count(n, chunk);
    lemma_below_chunk_count(0, n, chunk);
    assert(0 * chunk == 0) by (nonlinear_arith);
    lemma_chunks_joined_prefix(content, chunk, count);
    lemma_below_chunk_count(count, n, chunk);
    lemma_below_chunk_count(count - 1, n, chunk);
    assert(count * chunk == (count - 1) * chunk + chunk) by (nonlinear_arith);
    assert(spec_chunk_end(count - 1, n, chunk) == n - 1);
    assert(content.subrange(0, n) =~= content);
}

/// The chunk that `before` has received with index `index`, once it takes
/// in `chunk`: `chunk` itself where it has that index, else the chunk held back
/// under that index.
pub open spec fn spec_received_with_index(
    before: Reassembly,
    chunk: ReceivedChunk,
    index: int,
) -> ReceivedChunk {
    if index == chunk.range.index {
        chunk
    } else {
        before.pending()[index as u64]
    }
}

/// What one call of [`Reassembly::receive`] hands out is whole chunks as
/// they were received: the `k`-th chunk handed out has index `next + k` and is
/// the chunk received with that index, with that chunk's range and bytes: the
/// new chunk where it has that index, else the one held back for it.
pub proof fn lemma_receive_hands_out_whole_chunks(
    before: Reassembly,
    after: Reassembly,
    chunk: ReceivedChunk,
    message: Message,
    released: Seq<ReceivedChunk>,
    k: int,
)
    requires
        Reassembly::spec_receives(before, after, chunk, message, released),
        0 <= k < released.len(),
    ensures
        released[k].range.index == before.next() + k,
        before.next() + k != chunk.range.index ==> before.pending().contains_key(
            (before.next() + k) as u64,
        ),
        released[k] == spec_received_with_index(before, chunk, before.next() + k),
        released[k].range == spec_received_with_index(before, chunk, before.next() + k).range,
        released[k].bytes == spec_received_with_index(before, chunk, before.next() + k).bytes,
{
    let received = before.pending().insert(chunk.range.index, chunk);
    let index = before.next() + k;
    assert(released[k] == received[index as u64]);
    assert(released[k].range.index == index);
    if index != chunk.range.index {
        assert((index as u64) != chunk.range.index);
        lemma_drained_passes_received(before.next(), received.dom(), before.expected(), index);
        assert(received.contains_key(index as u64));
        assert(before.pending().contains_key(index as u64));
    }
}

/// Every index that draining passes has been received.
proof fn lemma_drained_passes_received(next: int, received: Set<u64>, expected: int, index: int)
    requires
        next <= index < spec_drained_to(next, received, expected),
    ensures
        received.contains(index as u64),
    decreases expected - next,
{
    if next < expected && received.contains(next as u64) {
        if index > next {
            lemma_drained_passes_received(next + 1, received, expected, index);
        }
    }
}

/// Call `i` of a run of [`Reassembly::receive`]: `states[i]` takes in
/// `chunks[i]`, reports it with `messages[i]`, hands out `releases[i]` and
/// becomes `states[i + 1]`.
pub open spec fn spec_receive_step(
    states: Seq<Reassembly>,
    chunks: Seq<ReceivedChunk>,
    messages: Seq<Message>,
    releases: Seq<Seq<ReceivedChunk>>,
    i: int,
) -> bool {
    Reassembly::spec_receives(states[i], states[i + 1], chunks[i], messages[i], releases[i])
}

/// The indices of `chunks`, in order.
pub open spec fn spec_arrival_indices(chunks: Seq<ReceivedChunk>) -> Seq<u64> {
    chunks.map_values(|c: ReceivedChunk| c.range.index)
}

/// The chunks handed out over several calls, joined in the order of the
/// calls.
pub open spec fn spec_joined(releases: Seq<Seq<ReceivedChunk>>) -> Seq<ReceivedChunk>
    decreases releases.len(),
{
    if releases.len() == 0 {
        Seq::empty()
    } else {
        spec_joined(releases.drop_last()) + releases.last()
    }
}

/// The bytes of `chunks`, joined in order.
pub open spec fn spec_joined_bytes(chunks: Seq<ReceivedChunk>) -> Seq<u8>
    decreases chunks.len(),
{
    if chunks.len() == 0 {
        Seq::empty()
    } else {
        spec_joined_bytes(chunks.drop_last()) + chunks.last().bytes@
    }
}

/// Over a whole concurrent download, whatever the order in which the chunks
/// arrive: when a fresh reassembly of `n` chunks receives `chunks`, one call of
/// [`Reassembly::receive`] each (`states[i]` becoming `states[i + 1]` and
/// handing out `releases[i]`), and every index below `n` arrives exactly once,
/// then the chunks handed out, joined, are exactly the chunks received, in index
/// order, whole: the chunk received with index `k` stands at position `k`, with
/// its range and its bytes. So the bytes handed out, joined, are the received
/// bytes joined in index order.
pub proof fn lemma_reassembly_hands_out_received_chunks_in_order(
    states: Seq<Reassembly>,
    chunks: Seq<ReceivedChunk>,
    messages: Seq<Message>,
    releases: Seq<Seq<ReceivedChunk>>,
)
    requires
        chunks.len() <= u64::MAX,
        states.len() == chunks.len() + 1,
        messages.len() == chunks.len(),
        releases.len() == chunks.len(),
        states[0].expected() == chunks.len(),
        states[0].next() == 0,
        states[0].pending() == Map::<u64, ReceivedChunk>::empty(),
        states[0].arrivals() == Seq::<u64>::empty(),
        forall|i: int|
            0 <= i < chunks.len() ==> #[trigger] spec_receive_step(
                states,
                chunks,
                messages,
                releases,
                i,
            ),
        spec_arrival_indices(chunks).no_duplicates(),
        forall|k: u64|
            #[trigger] spec_arrival_indices(chunks).contains(k) <==> k
                < chunks.len(),
    ensures
        spec_joined(releases).len() == chunks.len(),
        forall|j: int|
            0 <= j < chunks.len() ==> spec_joined(releases)[chunks[j].range.index as int]
                == chunks[j],
        spec_joined_bytes(spec_joined(releases)) == spec_joined_bytes(
            Seq::new(
                chunks.len() as nat,
                |k: int|
                    chunks[choose|j: int| 0 <= j < chunks.len() && #[trigger] chunks[j].range.index == k],
            ),
        ),
{
    let n = chunks.len() as int;
    let indices = spec_arrival_indices(chunks);
    assert forall|j: int| 0 <= j < chunks.len() implies chunks[j].range.index < chunks.len() by {
        assert(indices[j] == chunks[j].range.index);
        assert(indices.contains(chunks[j].range.index));
    }
    lemma_reassembly_run(states, chunks, messages, releases, n);
    assert(indices.take(n) =~= indices);
    assert(releases.take(n) =~= releases);
    lemma_any_arrival_order_completes(indices, n as u64);
    assert(states[n].next() == n);
    let joined = spec_joined(releases);
    assert forall|j: int| 0 <= j < chunks.len() implies joined[chunks[j].range.index as int]
        == chunks[j] by {
    }
    let sorted = Seq::new(
        n as nat,
        |k: int| chunks[choose|j: int| 0 <= j < chunks.len() && #[trigger] chunks[j].range.index == k],
    );
    assert forall|k: int| 0 <= k < n implies #[trigger] sorted[k] == joined[k] by {
        assert(indices.contains(k as u64));
        let j0 = choose|j: int| 0 <= j < indices.len() && indices[j] == k as u64;
        assert(indices[j0] == chunks[j0].range.index);
        assert(chunks[j0].range.index == k);
        let j = choose|j: int| 0 <= j < chunks.len() && #[trigger] chunks[j].range.index == k;
        assert(indices[j] == chunks[j].range.index);
        assert(indices[j] == indices[j0]);
        assert(j == j0);
    }
    assert(sorted =~= joined);
}

/// The state of a run after the first `i` receives: the chunks handed out so
/// far stand at the positions of their indices, whole, and the chunks received
/// but not yet handed out are held back under their indices.
proof fn lemma_reassembly_run(
    states: Seq<Reassembly>,
    chunks: Seq<ReceivedChunk>,
    messages: Seq<Message>,
    releases: Seq<Seq<ReceivedChunk>>,
    i: int,
)
    requires
        0 <= i <= chunks.len() <= u64::MAX,
        states.len() == chunks.len() + 1,
        messages.len() == chunks.len(),
        releases.len() == chunks.len(),
        states[0].expected() == chunks.len(),
        states[0].next() == 0,
        states[0].pending() == Map::<u64, ReceivedChunk>::empty(),
        states[0].arrivals() == Seq::<u64>::empty(),
        forall|i: int|
            0 <= i < chunks.len() ==> #[trigger] spec_receive_step(
                states,
                chunks,
                messages,
                releases,
                i,
            ),
        spec_arrival_indices(chunks).no_duplicates(),
        forall|j: int| 0 <= j < chunks.len() ==> chunks[j].range.index < chunks.len(),
    ensures
        ({
            let indices = spec_arrival_indices(chunks);
            let state = states[i];
            let joined = spec_joined(releases.take(i));
            &&& state.expected() == chunks.len()
            &&& state.arrivals() == indices.take(i)
            &&& (state.next(), state.pending().dom()) == spec_reassembly_after(
                indices.take(i),
                chunks.len() as int,
            )
            &&& joined.len() == state.next()
            &&& 0 <= state.next() <= chunks.len()
            &&& forall|j: int|
                0 <= j < i && chunks[j].range.index < state.next() ==> joined[chunks[j].range.index as int]
                    == chunks[j]
            &&& forall|j: int|
                0 <= j < i && chunks[j].range.index >= state.next() ==> state.pending().contains_key(
                    chunks[j].range.index,
                ) && state.pending()[chunks[j].range.index] == chunks[j]
        }),
    decreases i,
{
    let n = chunks.len() as int;
    let indices = spec_arrival_indices(chunks);
    if i == 0 {
        assert(releases.take(0) =~= Seq::<Seq<ReceivedChunk>>::empty());
        assert(indices.take(0) =~= Seq::<u64>::empty());
        assert(states[0].pending().dom() =~= Set::<u64>::empty());
    } else {
        let p = i - 1;
        lemma_reassembly_run(states, chunks, messages, releases, p);
        let before = states[p];
        let after = states[i];
        let chunk = chunks[p];
        let key = chunk.range.index;
        assert(spec_receive_step(states, chunks, messages, releases, p));
        let received = before.pending().insert(key, chunk);
        let drained = spec_drained_to(before.next(), received.dom(), before.expected());
        // The arrivals so far are distinct and below `n`.
        let prefix = indices.take(p);
        assert(prefix.no_duplicates()) by {
            assert forall|a: int, b: int|
                0 <= a < prefix.len() && 0 <= b < prefix.len() && a != b implies prefix[a]
                != prefix[b] by {
                assert(prefix[a] == indices[a]);
                assert(prefix[b] == indices[b]);
            }
        }
        assert forall|a: int| 0 <= a < prefix.len() implies prefix[a] < n by {
            assert(prefix[a] == chunks[a].range.index);
        }
        lemma_reassembly_progress(prefix, n);
        assert(before.arrivals() == prefix);
        // The new chunk has not arrived before, so it is at or after the next
        // one to write.
        assert(!prefix.contains(key)) by {
            if prefix.contains(key) {
                let a = choose|a: int| 0 <= a < prefix.len() && prefix[a] == key;
                assert(indices[a] == indices[p]);
            }
        }
        assert(key >= before.next()) by {
            if (key as int) < before.next() {
                let k = key as int;
                assert(prefix.contains(k as u64));
            }
        }
        lemma_drained_to(before.next(), received.dom(), n);
        assert(indices.take(i) =~= prefix.push(key));
        assert(releases.take(i).drop_last() =~= releases.take(p));
        let old_joined = spec_joined(releases.take(p));
        let joined = spec_joined(releases.take(i));
        assert(joined == old_joined + releases[p]);
        assert forall|j: int|
            0 <= j < i && chunks[j].range.index < after.next() implies joined[chunks[j].range.index as int]
            == chunks[j] by {
            let index = chunks[j].range.index as int;
            if index < before.next() {
                assert(j != p);
            } else {
                let k = index - before.next();
                lemma_receive_hands_out_whole_chunks(before, after, chunk, messages[p], releases[p], k);
                assert(joined[index] == releases[p][k]);
                if j == p {
                } else {
                    assert(indices[j] != indices[p]);
                    assert(before.pending().contains_key(chunks[j].range.index));
                }
            }
        }
        assert forall|j: int|
            0 <= j < i && chunks[j].range.index >= after.next() implies after.pending().contains_key(
                chunks[j].range.index,
            ) && after.pending()[chunks[j].range.index] == chunks[j] by {
            let index = chunks[j].range.index;
            assert(!spec_indices_between(before.next(), drained).contains(index));
            if j != p {
                assert(indices[j] != indices[p]);
                assert(index >= before.next()) by {
                    if (index as int) < before.next() {
                        assert(index as int >= after.next());
                    }
                }
            }
        }
    }
}

} // verus!
