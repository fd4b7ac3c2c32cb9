//! Dropping what is old enough to drop, and nothing that proves what stays.
//!
//! Retention removes whole sealed segments, never records, and never the
//! newest segment, which is still being appended to. A producer's records stay
//! back to the first sequence of the batch covering its first retained one, so
//! that every retained record can still be proved.

use vstd::prelude::*;

use crate::events::store::sat_sub;
use crate::text::{decimal, push_decimal, push_str};

verus! {

/// What one sweep removed.
#[derive(Debug, Clone, Copy, PartialEq, Eq, Structural)]
pub struct Swept {
    /// How many segments were removed.
    pub segments: u64,
    /// How many records went with them.
    pub records: u64,
}

impl Default for Swept {
    fn default() -> (swept: Self)
        ensures
            swept == (Swept { segments: 0, records: 0 }),
    {
        Swept { segments: 0, records: 0 }
    }
}

impl Swept {
    /// Counts one removed segment holding `records` records.
    pub fn add_segment(&mut self, records: u64)
        requires
            old(self).segments < u64::MAX,
            old(self).records + records <= u64::MAX,
        ensures
            final(self).segments == old(self).segments + 1,
            final(self).records == old(self).records + records,
    {
        self.segments = self.segments + 1;
        self.records = self.records + records;
    }

    /// Adds what another sweep removed.
    pub fn absorb(&mut self, other: Swept)
        requires
            old(self).segments + other.segments <= u64::MAX,
            old(self).records + other.records <= u64::MAX,
        ensures
            final(self).segments == old(self).segments + other.segments,
            final(self).records == old(self).records + other.records,
    {
        self.segments = self.segments + other.segments;
        self.records = self.records + other.records;
    }
}

/// Whether segment `i` of a scope whose segments start at `firsts` may leave
/// for a boundary `through`: it is not the newest, and everything it holds,
/// which ends where the next one begins, is at or below the boundary.
pub open spec fn removable(firsts: Seq<u64>, through: u64, i: int) -> bool {
    i + 1 < firsts.len() && sat_sub(firsts[i + 1], 1) <= through
}

/// How many of a scope's oldest segments, given by their first positions in
/// order, a sweep to `through` removes: the longest run of removable segments
/// from the oldest on.
pub fn removable_prefix(firsts: &Vec<u64>, through: u64) -> (count: usize)
    ensures
        count <= firsts.len(),
        firsts.len() > 0 ==> count < firsts.len(),
        forall|i: int| 0 <= i < count ==> removable(firsts@, through, i),
        count < firsts.len() ==> !removable(firsts@, through, count as int),
{
    let mut count: usize = 0;
    while count + 1 < firsts.len() && firsts[count + 1].saturating_sub(1) <= through
        invariant
            count <= firsts.len(),
            firsts.len() > 0 ==> count < firsts.len(),
            forall|i: int| 0 <= i < count ==> removable(firsts@, through, i),
        decreases firsts.len() - count,
    {
        count += 1;
    }
    count
}

/// A sweep never removes the newest segment, and everything it removes is at
/// or below the boundary it was given, whatever segments the scope holds.
pub proof fn law_sweeps_keep_the_newest_and_respect_the_boundary(firsts: Seq<u64>, through: u64, count: nat, i: int, position: u64)
    requires
        count <= firsts.len(),
        firsts.len() > 0 ==> count < firsts.len(),
        forall|k: int| 0 <= k < count ==> removable(firsts, through, k),
        0 <= i < count,
        firsts[i] <= position < firsts[i + 1],
    ensures
        i != firsts.len() - 1,
        position <= through,
{
    assert(removable(firsts, through, i));
}

/// The highest sequence a tenant view may be swept to, given, for each of its
/// segments in order, whether it is older than the retention window: the end
/// of the longest run of old segments from the oldest on. A segment is only
/// past the window when the one after it starts, because one still being
/// appended to has no settled end; zero when none is.
pub fn older_through(firsts: &Vec<u64>, old_enough: &Vec<bool>) -> (through: u64)
    requires
        firsts.len() == old_enough.len(),
    ensures
        through == spec_older_through(firsts@, old_enough@, 0),
{
    let mut through: u64 = 0;
    let mut i: usize = 0;
    while i + 1 < firsts.len() && old_enough[i]
        invariant
            firsts.len() == old_enough.len(),
            i <= firsts.len(),
            firsts.len() > 0 ==> i < firsts.len(),
            spec_older_through(firsts@, old_enough@, 0) == spec_older_through(firsts@, old_enough@, i as nat),
            i == 0 ==> through == 0,
            i > 0 ==> through == sat_sub(firsts@[i as int], 1),
        decreases firsts.len() - i,
    {
        through = firsts[i + 1].saturating_sub(1);
        i += 1;
    }
    proof {
        lemma_older_through_stops(firsts@, old_enough@, i as nat, through);
    }
    through
}

/// The boundary reached from segment `i` on, having reached `sat_sub(firsts[i], 1)`
/// (or zero) before it.
pub open spec fn spec_older_through(firsts: Seq<u64>, old_enough: Seq<bool>, i: nat) -> u64
    decreases firsts.len() - i,
{
    if i + 1 < firsts.len() && i < old_enough.len() && old_enough[i as int] {
        spec_older_through(firsts, old_enough, i + 1)
    } else if i == 0 {
        0
    } else {
        sat_sub(firsts[i as int], 1)
    }
}

proof fn lemma_older_through_stops(firsts: Seq<u64>, old_enough: Seq<bool>, i: nat, through: u64)
    requires
        i <= firsts.len(),
        !(i + 1 < firsts.len() && old_enough[i as int]),
        firsts.len() == old_enough.len(),
        i == 0 ==> through == 0,
        i > 0 ==> through == sat_sub(firsts[i as int], 1),
    ensures
        spec_older_through(firsts, old_enough, i) == through,
{
}

/// How far a producer's records may be swept, given the boundary its tenant
/// views reached (`proposed`) and the batch covering the first record that
/// stays (`proposed + 1`): `None` when no retained batch covers it, else
/// whether that batch is this producer's and covers the record, and its first
/// sequence. A retained record's inclusion path needs every leaf of its
/// batch, so the producer keeps its records back to that batch's first one.
pub fn proof_safe_through(proposed: u64, covering: Option<(bool, u64)>) -> (through: Result<u64, String>)
    ensures
        covering is None ==> through == Ok::<u64, String>(proposed),
        covering matches Some((true, first_seq)) ==> through == Ok::<u64, String>(
            if proposed < sat_sub(first_seq, 1) { proposed } else { sat_sub(first_seq, 1) }),
        covering matches Some((false, _)) ==> (through matches Err(m)
            && m@ == "the retained envelope selected for sequence "@
                + decimal(crate::events::store::sat_add(proposed, 1) as nat) + " does not cover that producer"@),
{
    match covering {
        None => Ok(proposed),
        Some((covers, first_seq)) => {
            if !covers {
                let mut message = String::new();
                push_str(&mut message, "the retained envelope selected for sequence ");
                push_decimal(&mut message, proposed.saturating_add(1));
                push_str(&mut message, " does not cover that producer");
                return Err(message);
            }
            let before = first_seq.saturating_sub(1);
            Ok(if proposed < before { proposed } else { before })
        },
    }
}

/// A producer sweep never reaches the batch that covers the first record its
/// tenant views kept, nor past what the views proposed.
pub proof fn law_producer_sweeps_keep_whole_batches(proposed: u64, first_seq: u64)
    requires
        first_seq >= 1,
        first_seq <= proposed + 1,
    ensures
        ({
            let through = if proposed < sat_sub(first_seq, 1) { proposed } else { sat_sub(first_seq, 1) };
            &&& through <= proposed
            &&& through < first_seq
        }),
{
}

/// Whether no stream key is held twice.
pub open spec fn keys_unique(frontiers: Seq<(String, u64)>) -> bool {
    forall|i: int, j: int| 0 <= i < j < frontiers.len() ==> (#[trigger] frontiers[i]).0@ != (#[trigger] frontiers[j]).0@
}

/// Notes that a removed view record belonged to the stream `key` at `seq`:
/// the producer frontiers hold, once per stream, the highest sequence that
/// left with the view.
pub fn note_removed(frontiers: &mut Vec<(String, u64)>, key: String, seq: u64)
    requires
        keys_unique(old(frontiers)@),
    ensures
        keys_unique(final(frontiers)@),
        (exists|i: int| 0 <= i < old(frontiers)@.len() && #[trigger] old(frontiers)@[i].0@ == key@) ==> {
            &&& final(frontiers)@.len() == old(frontiers)@.len()
            &&& forall|i: int| 0 <= i < old(frontiers)@.len() ==> #[trigger] final(frontiers)@[i].0@ == old(frontiers)@[i].0@
            &&& forall|i: int| 0 <= i < old(frontiers)@.len() ==> #[trigger] final(frontiers)@[i].1 == (if old(frontiers)@[i].0@ == key@ {
                if old(frontiers)@[i].1 < seq { seq } else { old(frontiers)@[i].1 }
            } else {
                old(frontiers)@[i].1
            })
        },
        !(exists|i: int| 0 <= i < old(frontiers)@.len() && #[trigger] old(frontiers)@[i].0@ == key@)
            ==> final(frontiers)@ == old(frontiers)@.push((key, seq)),
{
    let mut i: usize = 0;
    while i < frontiers.len()
        invariant
            i <= frontiers.len(),
            frontiers@ == old(frontiers)@,
            keys_unique(old(frontiers)@),
            forall|j: int| 0 <= j < i ==> frontiers@[j].0@ != key@,
        decreases frontiers.len() - i,
    {
        if crate::text::same_text(frontiers[i].0.as_str(), key.as_str()) {
            let held = frontiers[i].1;
            let highest_seq = if held < seq { seq } else { held };
            let name = frontiers[i].0.clone();
            let ghost before = frontiers@;
            frontiers.set(i, (name, highest_seq));
            proof {
                assert forall|p: int| 0 <= p < before.len() && p != i implies before[p].0@ != key@ by {
                    if p > i {
                        assert(before[i as int].0@ != before[p].0@);
                    }
                }
                assert forall|p: int, q: int| 0 <= p < q < frontiers@.len() implies (#[trigger] frontiers@[p]).0@ != (#[trigger] frontiers@[q]).0@ by {
                    assert(before[p].0@ != before[q].0@);
                }
            }
            return;
        }
        i += 1;
    }
    frontiers.push((key, seq));
}

/// How often a sweep runs, in nanoseconds, for a retention window of `keep`
/// nanoseconds: a twelfth of the window, at least five minutes and at most
/// six hours.
pub fn sweep_interval(keep: u128) -> (every: u128)
    ensures
        every == (if keep / 12 < 300_000_000_000 { 300_000_000_000 } else if keep / 12 > 21_600_000_000_000 { 21_600_000_000_000 } else { keep / 12 }),
{
    let twelfth = keep / 12;
    if twelfth < 300_000_000_000 {
        300_000_000_000
    } else if twelfth > 21_600_000_000_000 {
        21_600_000_000_000
    } else {
        twelfth
    }
}

} // verus!
