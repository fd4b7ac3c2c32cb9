//! Reclaiming what nothing references.
//!
//! ```text
//! keep  =  reachable from ANY ref   ∪   younger than the grace period
//! ```
//!
//! An unreachable object is only removed once it is older than the grace
//! period, which is what keeps a push in flight safe: its uploads are
//! unreachable and new, so they are never removed.

use vstd::prelude::*;

verus! {

/// What a sweep did, over every ledger of every zone.
#[derive(Debug, Clone, Copy, PartialEq, Eq, Structural)]
pub struct Outcome {
    pub ledgers: usize,
    pub removed: usize,
    pub reclaimed: u64,
    /// Unreachable, and left alone because they are still young.
    pub retained: usize,
    /// Ledgers, or zones, that could not be swept. Nothing was removed for those.
    pub skipped: usize,
}

impl Default for Outcome {
    fn default() -> (outcome: Self)
        ensures
            outcome == (Outcome { ledgers: 0, removed: 0, reclaimed: 0, retained: 0, skipped: 0 }),
    {
        Outcome { ledgers: 0, removed: 0, reclaimed: 0, retained: 0, skipped: 0 }
    }
}

impl Outcome {
    /// How the sweep ended, in one word: `ok` when nothing was skipped,
    /// `partial` otherwise.
    pub fn label(&self) -> (word: &'static str)
        ensures
            self.skipped == 0 ==> word@ == "ok"@,
            self.skipped != 0 ==> word@ == "partial"@,
    {
        if self.skipped == 0 { "ok" } else { "partial" }
    }

    /// Counts one more ledger, and what its sweep did.
    pub fn add_ledger(&mut self, swept: Swept)
        requires
            old(self).ledgers < usize::MAX,
            old(self).removed + swept.removed <= usize::MAX,
            old(self).reclaimed + swept.reclaimed <= u64::MAX,
            old(self).retained + swept.retained <= usize::MAX,
        ensures
            *final(self) == (Outcome {
                ledgers: (old(self).ledgers + 1) as usize,
                removed: (old(self).removed + swept.removed) as usize,
                reclaimed: (old(self).reclaimed + swept.reclaimed) as u64,
                retained: (old(self).retained + swept.retained) as usize,
                skipped: old(self).skipped,
            }),
    {
        self.ledgers = self.ledgers + 1;
        self.removed = self.removed + swept.removed;
        self.reclaimed = self.reclaimed + swept.reclaimed;
        self.retained = self.retained + swept.retained;
    }

    /// Counts a ledger whose sweep failed: it is counted, and skipped.
    pub fn skip_ledger(&mut self)
        requires
            old(self).ledgers < usize::MAX,
            old(self).skipped < usize::MAX,
        ensures
            *final(self) == (Outcome {
                ledgers: (old(self).ledgers + 1) as usize,
                skipped: (old(self).skipped + 1) as usize,
                ..*old(self)
            }),
    {
        self.ledgers = self.ledgers + 1;
        self.skipped = self.skipped + 1;
    }

    /// Counts a zone, or a catalog, that could not be listed.
    pub fn skip(&mut self)
        requires
            old(self).skipped < usize::MAX,
        ensures
            *final(self) == (Outcome { skipped: (old(self).skipped + 1) as usize, ..*old(self) }),
    {
        self.skipped = self.skipped + 1;
    }
}

/// What one ledger's sweep did.
#[derive(Debug, Clone, Copy, PartialEq, Eq, Structural)]
pub struct Swept {
    /// Objects removed.
    pub removed: usize,
    /// Bytes reclaimed by removing them.
    pub reclaimed: u64,
    /// Unreachable, and left alone because they are still young.
    pub retained: usize,
}

impl Default for Swept {
    fn default() -> (swept: Self)
        ensures
            swept == (Swept { removed: 0, reclaimed: 0, retained: 0 }),
    {
        Swept { removed: 0, reclaimed: 0, retained: 0 }
    }
}

/// What a sweep does with one stored object.
#[derive(Debug, Clone, Copy, PartialEq, Eq, Structural)]
pub enum Fate {
    /// A ref reaches it.
    Reachable,
    /// Unreachable and younger than the grace period: what a push in flight
    /// looks like from here.
    Retained,
    /// Unreachable and older than the grace period.
    Removed,
}

/// The fate of one object, given whether any ref reaches it and whether it is
/// younger than the grace period.
pub fn fate(reachable: bool, young: bool) -> (f: Fate)
    ensures
        f == (if reachable { Fate::Reachable } else if young { Fate::Retained } else { Fate::Removed }),
{
    if reachable {
        Fate::Reachable
    } else if young {
        Fate::Retained
    } else {
        Fate::Removed
    }
}

/// An object is removed exactly when no ref reaches it and it is older than
/// the grace period: what every ref reaches stays, and so does every upload
/// of a push still in flight.
pub proof fn law_what_is_reachable_or_young_stays(reachable: bool, young: bool)
    ensures
        (if reachable { Fate::Reachable } else if young { Fate::Retained } else { Fate::Removed }) == Fate::Removed
            <==> !reachable && !young,
{
}

impl Swept {
    /// Counts what happened to one object; `reclaimed` is what its removal freed.
    pub fn tally(&mut self, fate: Fate, reclaimed: u64)
        requires
            old(self).removed < usize::MAX,
            old(self).retained < usize::MAX,
            old(self).reclaimed + reclaimed <= u64::MAX,
        ensures
            fate == Fate::Reachable ==> *final(self) == *old(self),
            fate == Fate::Retained ==> *final(self) == (Swept { retained: (old(self).retained + 1) as usize, ..*old(self) }),
            fate == Fate::Removed ==> *final(self) == (Swept {
                removed: (old(self).removed + 1) as usize,
                reclaimed: (old(self).reclaimed + reclaimed) as u64,
                ..*old(self)
            }),
    {
        match fate {
            Fate::Reachable => {},
            Fate::Retained => {
                self.retained = self.retained + 1;
            },
            Fate::Removed => {
                self.removed = self.removed + 1;
                self.reclaimed = self.reclaimed + reclaimed;
            },
        }
    }
}

/// The links of object `i`: the objects it names, where the store holds it.
pub open spec fn links(held: Seq<Option<Vec<usize>>>, i: usize) -> Seq<usize> {
    held[i as int].unwrap()@
}

/// Whether a set of objects holds every object that a held member names.
pub open spec fn closed_under(held: Seq<Option<Vec<usize>>>, s: Set<usize>) -> bool {
    forall|i: usize, k: int| #![trigger s.contains(i), links(held, i)[k]]
        s.contains(i) && i < held.len() && held[i as int] is Some && 0 <= k < links(held, i).len()
            ==> s.contains(links(held, i)[k])
}

/// Whether a set of objects holds every ref's head.
pub open spec fn rooted(roots: Seq<usize>, s: Set<usize>) -> bool {
    forall|k: int| 0 <= k < roots.len() ==> s.contains(#[trigger] roots[k])
}

/// Whether the refs `roots` reach object `i`: it is in every set that holds
/// the heads and what every held member names.
pub open spec fn reaches(held: Seq<Option<Vec<usize>>>, roots: Seq<usize>, i: usize) -> bool {
    forall|s: Set<usize>| #[trigger] closed_under(held, s) && rooted(roots, s) ==> s.contains(i)
}

/// Whether every object named, by a ref or by a held object, is numbered
/// among the store's objects.
pub open spec fn numbered(held: Seq<Option<Vec<usize>>>, roots: Seq<usize>) -> bool {
    &&& forall|k: int| 0 <= k < roots.len() ==> #[trigger] roots[k] < held.len()
    &&& forall|i: int, k: int| 0 <= i < held.len() && held[i] is Some && 0 <= k < held[i].unwrap()@.len()
        ==> #[trigger] held[i].unwrap()@[k] < held.len()
}

/// How many more links a walk may still follow: those of every held object it
/// has not reached yet.
pub open spec fn budget(held: Seq<Option<Vec<usize>>>, reached: Seq<bool>, n: nat) -> nat
    decreases n,
{
    if n == 0 {
        0
    } else {
        let j = (n - 1) as int;
        budget(held, reached, (n - 1) as nat) + if !reached[j] && held[j] is Some { held[j].unwrap()@.len() } else { 0 }
    }
}

/// Reaching one more object takes its links out of the budget.
pub(crate) proof fn lemma_budget_reach(held: Seq<Option<Vec<usize>>>, reached: Seq<bool>, x: int, n: nat)
    requires
        0 <= x < reached.len(),
        n <= reached.len(),
        !reached[x],
    ensures
        x < n && held[x] is Some ==> budget(held, reached.update(x, true), n) + held[x].unwrap()@.len() == budget(held, reached, n),
        !(x < n && held[x] is Some) ==> budget(held, reached.update(x, true), n) == budget(held, reached, n),
    decreases n,
{
    if n > 0 {
        lemma_budget_reach(held, reached, x, (n - 1) as nat);
    }
}

/// Everything the refs reach, by a walk from their heads: `Ok` with, for each
/// object, whether it is reached, where every reached object is held; or
/// `Err` with an object the refs reach that the store does not hold, since a
/// store whose closure has a hole is not a store to delete from. `held[i]` is
/// the objects that object `i` names, where the store holds it; `roots` are
/// the refs' heads.
pub fn reachable(held: &Vec<Option<Vec<usize>>>, roots: &Vec<usize>) -> (reached: Result<Vec<bool>, usize>)
    requires
        numbered(held@, roots@),
    ensures
        reached matches Ok(r) ==> r.len() == held.len()
            && (forall|i: usize| i < held.len() ==> (r@[i as int] <==> reaches(held@, roots@, i)))
            && (forall|i: int| 0 <= i < held.len() && #[trigger] r@[i] ==> held@[i] is Some),
        reached matches Err(i) ==> i < held.len() && held@[i as int] is None && reaches(held@, roots@, i),
{
    let mut reached: Vec<bool> = Vec::new();
    let mut n: usize = 0;
    while n < held.len()
        invariant
            n <= held.len(),
            reached.len() == n,
            forall|j: int| 0 <= j < n ==> !reached@[j],
        decreases held.len() - n,
    {
        reached.push(false);
        n += 1;
    }
    let mut queue: Vec<usize> = roots.clone();
    proof {
        assert forall|k: int| 0 <= k < queue.len() implies reaches(held@, roots@, #[trigger] queue@[k]) by {
            assert forall|s: Set<usize>| #[trigger] closed_under(held@, s) && rooted(roots@, s) implies s.contains(queue@[k]) by {
                assert(s.contains(roots@[k]));
            }
        }
        assert forall|k: int| 0 <= k < roots.len() implies reached@[#[trigger] roots@[k] as int] || queue@.contains(roots@[k]) by {
            assert(queue@[k] == roots@[k]);
        }
    }
    while queue.len() > 0
        invariant
            numbered(held@, roots@),
            reached.len() == held.len(),
            forall|k: int| 0 <= k < queue.len() ==> #[trigger] queue@[k] < held.len(),
            forall|i: int| 0 <= i < held.len() && #[trigger] reached@[i] ==> held@[i] is Some,
            forall|i: usize, k: int| #![trigger reached@[i as int], links(held@, i)[k]]
                i < held.len() && reached@[i as int] && 0 <= k < links(held@, i).len()
                ==> reached@[links(held@, i)[k] as int] || queue@.contains(links(held@, i)[k]),
            forall|k: int| 0 <= k < roots.len() ==> reached@[#[trigger] roots@[k] as int] || queue@.contains(roots@[k]),
            forall|i: usize| i < held.len() && #[trigger] reached@[i as int] ==> reaches(held@, roots@, i),
            forall|k: int| 0 <= k < queue.len() ==> reaches(held@, roots@, #[trigger] queue@[k]),
        decreases budget(held@, reached@, held.len() as nat) + queue.len(),
    {
        let ghost before = queue@;
        let ghost was = reached@;
        let x = queue.pop().unwrap();
        proof {
            assert(before == queue@.push(x));
            assert(before[before.len() - 1] == x);
            assert(reaches(held@, roots@, x));
            assert forall|c: usize| before.contains(c) implies queue@.contains(c) || c == x by {
                let j = choose|j: int| 0 <= j < before.len() && before[j] == c;
                if j < queue.len() {
                    assert(queue@[j] == c);
                }
            }
        }
        if reached[x] {
            continue;
        }
        match &held[x] {
            None => {
                return Err(x);
            },
            Some(next) => {
                proof {
                    lemma_budget_reach(held@, reached@, x as int, held.len() as nat);
                }
                reached.set(x, true);
                let ghost base = queue@;
                let mut k: usize = 0;
                while k < next.len()
                    invariant
                        k <= next.len(),
                        next@ == links(held@, x),
                        numbered(held@, roots@),
                        x < held.len(),
                        held@[x as int] is Some,
                        queue@ == base + next@.take(k as int),
                    decreases next.len() - k,
                {
                    queue.push(next[k]);
                    assert(next@.take(k + 1) =~= next@.take(k as int).push(next@[k as int]));
                    k += 1;
                }
                proof {
                    assert(next@.take(next.len() as int) =~= next@);
                    assert(queue@ == base + next@);
                    assert forall|c: usize| base.contains(c) implies queue@.contains(c) by {
                        let j = choose|j: int| 0 <= j < base.len() && base[j] == c;
                        assert(queue@[j] == c);
                    }
                    assert forall|k2: int| 0 <= k2 < next.len() implies queue@.contains(#[trigger] next@[k2]) by {
                        assert(queue@[base.len() + k2] == next@[k2]);
                    }
                    assert forall|j: int| 0 <= j < queue.len() implies #[trigger] queue@[j] < held.len() by {
                        if j >= base.len() {
                            assert(queue@[j] == next@[j - base.len()]);
                        }
                    }
                    assert forall|j: int| 0 <= j < queue.len() implies reaches(held@, roots@, #[trigger] queue@[j]) by {
                        if j >= base.len() {
                            let k2 = j - base.len();
                            assert(queue@[j] == next@[k2]);
                            assert forall|s: Set<usize>| #[trigger] closed_under(held@, s) && rooted(roots@, s)
                                implies s.contains(queue@[j]) by {
                                assert(s.contains(x));
                                assert(s.contains(links(held@, x)[k2]));
                            }
                        } else {
                            assert(queue@[j] == base[j]);
                            assert(before[j] == base[j]);
                        }
                    }
                }
            },
        }
    }
    proof {
        let r = reached@;
        let s = Set::new(|i: usize| i < held.len() && r[i as int]);
        assert forall|i: usize, k: int| #![trigger s.contains(i), links(held@, i)[k]]
            s.contains(i) && i < held.len() && held@[i as int] is Some && 0 <= k < links(held@, i).len()
            implies s.contains(links(held@, i)[k]) by {
            assert(r[i as int]);
            assert(links(held@, i)[k] < held.len());
        }
        assert(closed_under(held@, s));
        assert forall|k: int| 0 <= k < roots.len() implies s.contains(#[trigger] roots@[k]) by {
            assert(r[roots@[k] as int] || queue@.contains(roots@[k]));
        }
        assert(rooted(roots@, s));
        assert forall|i: usize| i < held.len() && reaches(held@, roots@, i) implies r[i as int] by {
            assert(s.contains(i));
        }
    }
    Ok(reached)
}

/// The fate of every stored object in one sweep, given for each whether the
/// refs reach it (as [`reachable`] finds) and whether it is younger than the
/// grace period: nothing reached is ever removed.
pub fn sweep_plan(reached: &Vec<bool>, young: &Vec<bool>) -> (fates: Vec<Fate>)
    requires
        reached.len() == young.len(),
    ensures
        fates.len() == reached.len(),
        forall|i: int| 0 <= i < fates.len() ==> #[trigger] fates@[i]
            == (if reached@[i] { Fate::Reachable } else if young@[i] { Fate::Retained } else { Fate::Removed }),
{
    let mut fates: Vec<Fate> = Vec::new();
    let mut i: usize = 0;
    while i < reached.len()
        invariant
            i <= reached.len(),
            reached.len() == young.len(),
            fates.len() == i,
            forall|j: int| 0 <= j < i ==> #[trigger] fates@[j]
                == (if reached@[j] { Fate::Reachable } else if young@[j] { Fate::Retained } else { Fate::Removed }),
        decreases reached.len() - i,
    {
        fates.push(fate(reached[i], young[i]));
        i += 1;
    }
    fates
}

} // verus!
