//! Serving a page of decision records, and the proof that goes with it.
//!
//! The byte bound is applied record by record, so a page never exceeds it,
//! and a single record larger than the whole budget is still returned:
//! refusing it would stall the consumer at that position forever.

use vstd::prelude::*;

verus! {

/// The API family a decision-log offset belongs to.
pub const API: &'static str = "permguard.api.decisions.native.v1";

/// The sum of the first `k` sizes.
pub open spec fn sum_prefix(sizes: Seq<u64>, k: nat) -> nat
    decreases k,
{
    if k == 0 || k > sizes.len() {
        0
    } else {
        sum_prefix(sizes, (k - 1) as nat) + (sizes[k - 1] as nat)
    }
}

/// Whether the record at `k` of a segment would carry a page that already
/// holds `taken` records of `bytes` bytes past its budget.
pub open spec fn overflows(taken: nat, bytes: nat, sizes: Seq<u64>, budget: u64, k: nat) -> bool {
    taken + k > 0 && bytes + sum_prefix(sizes, k) + sizes[k as int] > budget
}

/// Takes the records of one segment into a page that already holds `taken`
/// records of `bytes` bytes, given their sizes in order: every record up to
/// the first that would carry the page past `budget`, a page's first record
/// always. The answer is how many were taken, the page's bytes after them,
/// and whether the budget stopped the page.
pub fn take_from_segment(taken: usize, bytes: u64, sizes: &Vec<u64>, budget: u64) -> (took: (usize, u64, bool))
    requires
        taken == 0 ==> bytes == 0,
        taken <= 1 || bytes <= budget,
        taken + sizes.len() <= usize::MAX,
    ensures
        took.0 <= sizes.len(),
        forall|k: nat| k < took.0 ==> !#[trigger] overflows(taken as nat, bytes as nat, sizes@, budget, k),
        took.2 <==> took.0 < sizes.len(),
        took.2 ==> overflows(taken as nat, bytes as nat, sizes@, budget, took.0 as nat),
        took.1 == bytes + sum_prefix(sizes@, took.0 as nat),
        taken + took.0 <= 1 || took.1 <= budget,
{
    let mut consumed: usize = 0;
    let mut total: u64 = bytes;
    while consumed < sizes.len()
        invariant
            taken == 0 ==> bytes == 0,
            taken + sizes.len() <= usize::MAX,
            consumed <= sizes.len(),
            total == bytes + sum_prefix(sizes@, consumed as nat),
            forall|k: nat| k < consumed ==> !#[trigger] overflows(taken as nat, bytes as nat, sizes@, budget, k),
            taken <= 1 || bytes <= budget,
            taken + consumed <= 1 || total <= budget,
        decreases sizes.len() - consumed,
    {
        let size = sizes[consumed];
        if taken + consumed > 0 && (total > budget || size > budget - total) {
            assert(overflows(taken as nat, bytes as nat, sizes@, budget, consumed as nat));
            return (consumed, total, true);
        }
        assert(sum_prefix(sizes@, (consumed + 1) as nat) == sum_prefix(sizes@, consumed as nat) + size);
        total = total + size;
        consumed += 1;
    }
    (consumed, total, false)
}

/// What a signed batch envelope shows of itself, as far as it could be read:
/// `readable` is whether it had a payload that decoded to an envelope with a
/// stream; the rest is what that envelope holds, where it holds it.
#[derive(Debug, Clone)]
pub struct SignedBatch {
    pub readable: bool,
    pub pdp_id: Option<String>,
    pub instance: Option<String>,
    pub first_seq: Option<u64>,
    pub last_seq: Option<u64>,
    pub merkle_root: Option<String>,
}

/// Whether a readable batch is the stream `pdp_id`/`instance`'s.
pub open spec fn of_stream(batch: SignedBatch, pdp_id: Seq<char>, instance: Seq<char>) -> bool {
    (batch.pdp_id matches Some(p) && p@ == pdp_id) && (batch.instance matches Some(i) && i@ == instance)
}

/// The batch among `batches`, from the `k`-th on, that covers `seq` of the
/// stream: its range and the root it attests. The search gives up at the
/// first envelope it cannot read, and at the first of the stream's that lacks
/// a range or, covering `seq`, a root.
pub open spec fn spec_covering(batches: Seq<SignedBatch>, seq: u64, pdp_id: Seq<char>, instance: Seq<char>, k: nat) -> Option<(u64, u64, Seq<char>)>
    decreases batches.len() - k,
{
    if k >= batches.len() {
        None
    } else {
        let b = batches[k as int];
        if !b.readable {
            None
        } else if !of_stream(b, pdp_id, instance) {
            spec_covering(batches, seq, pdp_id, instance, k + 1)
        } else {
            match (b.first_seq, b.last_seq) {
                (Some(first), Some(last)) => if first <= seq && seq <= last {
                    match b.merkle_root {
                        Some(root) => Some((first, last, root@)),
                        None => None,
                    }
                } else {
                    spec_covering(batches, seq, pdp_id, instance, k + 1)
                },
                _ => None,
            }
        }
    }
}

/// The batch that covers `seq` of one stream, as its envelope attests it.
pub fn covering(batches: &Vec<SignedBatch>, seq: u64, pdp_id: &str, instance: &str) -> (found: Option<(u64, u64, String)>)
    ensures
        found is None <==> spec_covering(batches@, seq, pdp_id@, instance@, 0) is None,
        found matches Some((first, last, root)) ==> spec_covering(batches@, seq, pdp_id@, instance@, 0) == Some((first, last, root@)),
{
    let mut k: usize = 0;
    while k < batches.len()
        invariant
            k <= batches.len(),
            spec_covering(batches@, seq, pdp_id@, instance@, 0) == spec_covering(batches@, seq, pdp_id@, instance@, k as nat),
        decreases batches.len() - k,
    {
        let b = &batches[k];
        if !b.readable {
            return None;
        }
        let ours = match (&b.pdp_id, &b.instance) {
            (Some(p), Some(i)) => crate::text::same_text(p.as_str(), pdp_id) && crate::text::same_text(i.as_str(), instance),
            _ => false,
        };
        if ours {
            match (b.first_seq, b.last_seq) {
                (Some(first), Some(last)) => {
                    if first <= seq && seq <= last {
                        return match &b.merkle_root {
                            Some(root) => Some((first, last, root.clone())),
                            None => None,
                        };
                    }
                },
                _ => {
                    return None;
                },
            }
        }
        k += 1;
    }
    None
}

/// A page being gathered across a scope's segments, oldest first: where it
/// stands (`segment`, and `offset` lines into it), what it holds (`taken`
/// records of `bytes` bytes), and whether it is finished, by its record limit
/// or, with `by_bytes`, by its byte budget.
#[derive(Debug, Clone, Copy, PartialEq, Eq, Structural)]
pub struct PageWalk {
    pub segment: u64,
    pub offset: u64,
    pub taken: usize,
    pub bytes: u64,
    pub by_bytes: bool,
    pub done: bool,
}

impl PageWalk {
    /// A page starting at `offset` lines into `segment`.
    pub fn start(segment: u64, offset: u64) -> (walk: PageWalk)
        ensures
            walk == (PageWalk { segment, offset, taken: 0, bytes: 0, by_bytes: false, done: false }),
    {
        PageWalk { segment, offset, taken: 0, bytes: 0, by_bytes: false, done: false }
    }

    /// Meets the segment whose first sequence is `first`: one before where the
    /// page stands is passed over (`None`); one after it moves the page to its
    /// start. The answer is the line to read from and how many records to ask
    /// for: what the limit leaves.
    pub fn enter(&mut self, first: u64, limit: usize) -> (read: Option<(u64, usize)>)
        requires
            !old(self).done,
            old(self).taken < limit,
        ensures
            first < old(self).segment ==> read is None && *final(self) == *old(self),
            first == old(self).segment ==> *final(self) == *old(self)
                && read == Some((old(self).offset, (limit - old(self).taken) as usize)),
            first > old(self).segment ==> *final(self) == (PageWalk { segment: first, offset: 0, ..*old(self) })
                && read == Some((0u64, (limit - old(self).taken) as usize)),
    {
        if first < self.segment {
            return None;
        }
        if first > self.segment {
            self.segment = first;
            self.offset = 0;
        }
        Some((self.offset, limit - self.taken))
    }

    /// Takes what a segment read gave, `sizes` being the records' sizes in
    /// order and `next_offset` the line after the last one read, under the
    /// byte `budget`: every record up to the first that would carry the page
    /// past it, a page's first record always. Stopped by the budget, the page
    /// stands just after what it took; otherwise where the read ended. The
    /// page is finished at the limit or at the budget.
    pub fn absorb(&mut self, sizes: &Vec<u64>, next_offset: u64, limit: usize, budget: u64)
        requires
            !old(self).done,
            old(self).taken < limit,
            old(self).taken + sizes.len() <= limit,
            old(self).taken == 0 ==> old(self).bytes == 0,
            old(self).taken <= 1 || old(self).bytes <= budget,
            old(self).offset + sizes.len() <= u64::MAX,
        ensures
            old(self).taken <= final(self).taken <= old(self).taken + sizes.len(),
            forall|k: nat| k < final(self).taken - old(self).taken
                ==> !#[trigger] overflows(old(self).taken as nat, old(self).bytes as nat, sizes@, budget, k),
            final(self).by_bytes <==> final(self).taken - old(self).taken < sizes.len(),
            final(self).by_bytes ==> overflows(old(self).taken as nat, old(self).bytes as nat, sizes@, budget,
                (final(self).taken - old(self).taken) as nat),
            final(self).bytes == old(self).bytes + sum_prefix(sizes@, (final(self).taken - old(self).taken) as nat),
            final(self).segment == old(self).segment,
            final(self).offset == (if final(self).by_bytes {
                (old(self).offset + (final(self).taken - old(self).taken)) as u64
            } else {
                next_offset
            }),
            final(self).done == (final(self).taken >= limit || final(self).by_bytes),
            final(self).taken == 0 ==> final(self).bytes == 0,
            final(self).taken <= 1 || final(self).bytes <= budget,
    {
        let (n, b, stopped) = take_from_segment(self.taken, self.bytes, sizes, budget);
        self.offset = if stopped { self.offset + n as u64 } else { next_offset };
        self.taken = self.taken + n;
        self.bytes = b;
        self.by_bytes = stopped;
        self.done = self.taken >= limit || stopped;
    }
}

/// The batch found covering a record is that record's stream's own: a
/// readable batch of the asked producer and incarnation, whose attested
/// range holds the sequence, with the root it attests.
pub proof fn law_the_covering_batch_is_the_streams_own(
    batches: Seq<SignedBatch>,
    seq: u64,
    pdp_id: Seq<char>,
    instance: Seq<char>,
    k: nat,
)
    ensures
        spec_covering(batches, seq, pdp_id, instance, k) matches Some((first, last, root)) ==> exists|j: int|
            k <= j < batches.len() && {
                let b = #[trigger] batches[j];
                &&& b.readable
                &&& b.pdp_id matches Some(p) && p@ == pdp_id
                &&& b.instance matches Some(i) && i@ == instance
                &&& b.first_seq == Some(first) && b.last_seq == Some(last)
                &&& first <= seq && seq <= last
                &&& b.merkle_root matches Some(r) && r@ == root
            },
    decreases batches.len() - k,
{
    if k < batches.len() {
        law_the_covering_batch_is_the_streams_own(batches, seq, pdp_id, instance, k + 1);
        let b = batches[k as int];
        if spec_covering(batches, seq, pdp_id, instance, k) is Some
            && spec_covering(batches, seq, pdp_id, instance, k) != spec_covering(batches, seq, pdp_id, instance, k + 1) {
            assert(b.readable);
        }
    }
}

} // verus!
