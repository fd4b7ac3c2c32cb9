//! Retention: how long decision records are kept, and what leaving looks like.
//!
//! Whole segments leave once every record in them is older than the window;
//! the stream's state, its epochs, its batch envelopes and the archived
//! verification keys never do.

use vstd::prelude::*;

verus! {

/// What one sweep did.
#[derive(Debug, Clone, Copy, PartialEq, Eq, Structural)]
pub struct Swept {
    /// How many segments left.
    pub removed: usize,
    /// How many bytes that freed.
    pub reclaimed: u64,
    /// How many segments are still held.
    pub retained: usize,
}

impl Default for Swept {
    fn default() -> (swept: Self)
        ensures
            swept == (Swept { removed: 0, reclaimed: 0, retained: 0 }),
    {
        Swept { removed: 0, reclaimed: 0, retained: 0 }
    }
}

/// Whether a file name is a segment's: `seg-` at its start and `.jsonl` at its end.
pub open spec fn spec_is_segment(name: Seq<char>) -> bool {
    &&& name.len() >= 4 && name.take(4) == "seg-"@
    &&& name.len() >= 6 && name.skip(name.len() - 6) == ".jsonl"@
}

/// Whether a file name is a segment's.
pub fn is_segment(name: &str) -> (segment: bool)
    ensures
        segment == spec_is_segment(name@),
{
    proof {
        reveal_strlit("seg-");
        reveal_strlit(".jsonl");
    }
    let chars = crate::text::chars_of(name);
    let prefix = crate::text::chars_of("seg-");
    let suffix = crate::text::chars_of(".jsonl");
    if chars.len() < 4 || chars.len() < 6 {
        return false;
    }
    let head = crate::events::store::char_range(&chars, 0, 4);
    let tail = crate::events::store::char_range(&chars, chars.len() - 6, chars.len());
    assert(head@ =~= name@.take(4));
    assert(tail@ =~= name@.skip(name@.len() - 6));
    let mut same_head = true;
    let mut i: usize = 0;
    while i < 4
        invariant
            i <= 4,
            head@.len() == 4,
            prefix@ == "seg-"@,
            prefix@.len() == 4,
            same_head <==> (forall|j: int| 0 <= j < i ==> head@[j] == prefix@[j]),
        decreases 4 - i,
    {
        if head[i] != prefix[i] {
            same_head = false;
        }
        i += 1;
    }
    let mut same_tail = true;
    let mut k: usize = 0;
    while k < 6
        invariant
            k <= 6,
            tail@.len() == 6,
            suffix@ == ".jsonl"@,
            suffix@.len() == 6,
            same_tail <==> (forall|j: int| 0 <= j < k ==> tail@[j] == suffix@[j]),
        decreases 6 - k,
    {
        if tail[k] != suffix[k] {
            same_tail = false;
        }
        k += 1;
    }
    assert(same_head <==> head@ =~= "seg-"@);
    assert(same_tail <==> tail@ =~= ".jsonl"@);
    same_head && same_tail
}

/// What a sweep does with one file of a scope.
#[derive(Debug, Clone, Copy, PartialEq, Eq, Structural)]
pub enum Sweep {
    /// Not a segment: never touched.
    Skip,
    /// A segment still inside the window.
    Keep,
    /// A segment whose every record is older than the window.
    Remove,
}

/// What a sweep does with the file `name`, given whether it is older than the
/// window: its modification time is when its last record was appended, so a
/// segment is only old when everything in it is.
pub fn sweep_decision(name: &str, old_enough: bool) -> (decision: Sweep)
    ensures
        !spec_is_segment(name@) ==> decision == Sweep::Skip,
        spec_is_segment(name@) && !old_enough ==> decision == Sweep::Keep,
        spec_is_segment(name@) && old_enough ==> decision == Sweep::Remove,
{
    if !is_segment(name) {
        Sweep::Skip
    } else if !old_enough {
        Sweep::Keep
    } else {
        Sweep::Remove
    }
}

impl Swept {
    /// Counts what a sweep did with one file of `bytes` bytes.
    pub fn tally(&mut self, decision: Sweep, bytes: u64)
        requires
            old(self).removed < usize::MAX,
            old(self).retained < usize::MAX,
            old(self).reclaimed + bytes <= u64::MAX,
        ensures
            decision == Sweep::Skip ==> *final(self) == *old(self),
            decision == Sweep::Keep ==> *final(self) == (Swept { retained: (old(self).retained + 1) as usize, ..*old(self) }),
            decision == Sweep::Remove ==> *final(self) == (Swept {
                removed: (old(self).removed + 1) as usize,
                reclaimed: (old(self).reclaimed + bytes) as u64,
                ..*old(self)
            }),
    {
        match decision {
            Sweep::Skip => {},
            Sweep::Keep => {
                self.retained = self.retained + 1;
            },
            Sweep::Remove => {
                self.removed = self.removed + 1;
                self.reclaimed = self.reclaimed + bytes;
            },
        }
    }
}

} // verus!
