//! Reading events back: bounded, filtered, and honest about what it proves.
//!
//! A page may match nothing and still advance over the positions it examined,
//! so a walk is a sequence of steps, each of which either passes a position,
//! takes a record, or stops before one. The scan work is bounded separately
//! from the records returned. When the filter names event types the walk goes
//! by the per-type index, whose positions are merged into the scope's own
//! order whatever order the types were asked in.

use vstd::prelude::*;

use crate::events::store::{sat_add, sat_sub, Scope, SEGMENT_RECORDS};
use crate::text::{decimal, lex_lt, precedes, push_decimal, push_str, same_text};

verus! {

/// The API family an event-log offset belongs to.
pub const API: &'static str = "permguard.api.events.native.v1alpha1";

// ---------------------------------------------------------------------------
// Strictly sorted sequences
// ---------------------------------------------------------------------------

/// Whether `lt` is a strict total order.
pub open spec fn strict_total<A>(lt: spec_fn(A, A) -> bool) -> bool {
    &&& forall|x: A| !#[trigger] lt(x, x)
    &&& forall|x: A, y: A| #[trigger] lt(x, y) ==> !lt(y, x)
    &&& forall|x: A, y: A| x == y || #[trigger] lt(x, y) || lt(y, x)
}

/// Whether every element of `s` comes strictly before every later one.
pub open spec fn strictly_sorted<A>(s: Seq<A>, lt: spec_fn(A, A) -> bool) -> bool {
    forall|i: int, j: int| 0 <= i < j < s.len() ==> lt(#[trigger] s[i], #[trigger] s[j])
}

/// Whether two sequences hold the same elements, however often and in whatever order.
pub open spec fn same_elements<A>(a: Seq<A>, b: Seq<A>) -> bool {
    forall|x: A| a.contains(x) <==> b.contains(x)
}

/// Two strictly sorted sequences with the same elements are the same sequence.
pub proof fn lemma_sorted_is_unique<A>(a: Seq<A>, b: Seq<A>, lt: spec_fn(A, A) -> bool)
    requires
        strict_total(lt),
        strictly_sorted(a, lt),
        strictly_sorted(b, lt),
        same_elements(a, b),
    ensures
        a == b,
    decreases a.len(),
{
    if a.len() == 0 {
        if b.len() > 0 {
            assert(b.contains(b[0]));
        }
        assert(a =~= b);
    } else {
        assert(a.contains(a[0]));
        assert(b.len() > 0);
        assert(b.contains(b[0]));
        let i = choose|i: int| 0 <= i < a.len() && a[i] == b[0];
        let j = choose|j: int| 0 <= j < b.len() && b[j] == a[0];
        if j > 0 {
            assert(lt(b[0], b[j]));
            if i > 0 {
                assert(lt(a[0], a[i]));
            } else {
                assert(lt(a[0], a[0]));
            }
        }
        assert(a[0] == b[0]);
        let ta = a.drop_first();
        let tb = b.drop_first();
        assert(strictly_sorted(ta, lt)) by {
            assert forall|p: int, q: int| 0 <= p < q < ta.len() implies lt(#[trigger] ta[p], #[trigger] ta[q]) by {
                assert(ta[p] == a[p + 1] && ta[q] == a[q + 1]);
            }
        }
        assert(strictly_sorted(tb, lt)) by {
            assert forall|p: int, q: int| 0 <= p < q < tb.len() implies lt(#[trigger] tb[p], #[trigger] tb[q]) by {
                assert(tb[p] == b[p + 1] && tb[q] == b[q + 1]);
            }
        }
        assert forall|x: A| ta.contains(x) <==> tb.contains(x) by {
            if ta.contains(x) {
                let p = choose|p: int| 0 <= p < ta.len() && ta[p] == x;
                assert(lt(a[0], a[p + 1]));
                assert(a.contains(x));
                let q = choose|q: int| 0 <= q < b.len() && b[q] == x;
                if q == 0 {
                    assert(lt(x, x));
                }
                assert(tb[q - 1] == x);
            }
            if tb.contains(x) {
                let p = choose|p: int| 0 <= p < tb.len() && tb[p] == x;
                assert(lt(b[0], b[p + 1]));
                assert(b.contains(x));
                let q = choose|q: int| 0 <= q < a.len() && a[q] == x;
                if q == 0 {
                    assert(lt(x, x));
                }
                assert(ta[q - 1] == x);
            }
        }
        lemma_sorted_is_unique(ta, tb, lt);
        assert(a =~= seq![a[0]] + ta);
        assert(b =~= seq![b[0]] + tb);
    }
}

/// The order of index positions: by segment, then by line.
pub open spec fn pair_lt(a: (u64, u64), b: (u64, u64)) -> bool {
    a.0 < b.0 || (a.0 == b.0 && a.1 < b.1)
}

/// The order of type names: std's order of strings.
pub open spec fn text_lt(a: Seq<char>, b: Seq<char>) -> bool {
    lex_lt(a, b)
}

/// Positions ordered by segment then line are a strict total order.
pub proof fn lemma_pair_order()
    ensures
        strict_total(|a: (u64, u64), b: (u64, u64)| pair_lt(a, b)),
{
}

/// Strings ordered as std orders them are a strict total order.
pub proof fn lemma_text_order()
    ensures
        strict_total(|a: Seq<char>, b: Seq<char>| text_lt(a, b)),
{
    assert forall|x: Seq<char>| !text_lt(x, x) by {
        crate::text::lemma_lex_lt_irreflexive(x);
    }
    assert forall|x: Seq<char>, y: Seq<char>| #[trigger] text_lt(x, y) implies !text_lt(y, x) by {
        if text_lt(y, x) {
            crate::text::lemma_lex_lt_transitive(x, y, x);
            crate::text::lemma_lex_lt_irreflexive(x);
        }
    }
    assert forall|x: Seq<char>, y: Seq<char>| x == y || #[trigger] text_lt(x, y) || text_lt(y, x) by {
        crate::text::lemma_lex_lt_total(x, y);
    }
}

/// Inserts `item` into a strictly sorted vector of positions, unless it is already there.
fn insert_position(sorted: &mut Vec<(u64, u64)>, item: (u64, u64))
    requires
        strictly_sorted(old(sorted)@, |a: (u64, u64), b: (u64, u64)| pair_lt(a, b)),
    ensures
        strictly_sorted(final(sorted)@, |a: (u64, u64), b: (u64, u64)| pair_lt(a, b)),
        forall|x: (u64, u64)| final(sorted)@.contains(x) <==> (old(sorted)@.contains(x) || x == item),
{
    let ghost lt = |a: (u64, u64), b: (u64, u64)| pair_lt(a, b);
    let mut k: usize = 0;
    while k < sorted.len() && pair_less(sorted[k], item)
        invariant
            k <= sorted.len(),
            sorted@ == old(sorted)@,
            forall|j: int| 0 <= j < k ==> pair_lt(#[trigger] sorted@[j], item),
        decreases sorted.len() - k,
    {
        k += 1;
    }
    if k < sorted.len() && sorted[k].0 == item.0 && sorted[k].1 == item.1 {
        assert(sorted@[k as int] == item);
        assert(sorted@.contains(item));
        return;
    }
    let ghost before = sorted@;
    assert(before == old(sorted)@);
    sorted.insert(k, item);
    proof {
        assert(sorted@ =~= before.take(k as int).push(item) + before.skip(k as int));
        assert forall|i: int, j: int| 0 <= i < j < sorted@.len() implies lt(#[trigger] sorted@[i], #[trigger] sorted@[j]) by {
            if j < k {
                assert(sorted@[i] == before[i] && sorted@[j] == before[j]);
            } else if j == k {
                assert(sorted@[i] == before[i]);
            } else if i == k {
                assert(sorted@[j] == before[j - 1]);
                assert(!pair_lt(before[k as int], item));
                if j - 1 > k {
                    assert(lt(before[k as int], before[j - 1]));
                }
            } else if i < k {
                assert(sorted@[i] == before[i] && sorted@[j] == before[j - 1]);
                assert(lt(before[i], before[j - 1]));
            } else {
                assert(sorted@[i] == before[i - 1] && sorted@[j] == before[j - 1]);
            }
        }
        assert forall|x: (u64, u64)| #[trigger] sorted@.contains(x) <==> (before.contains(x) || x == item) by {
            if sorted@.contains(x) {
                let i = choose|i: int| 0 <= i < sorted@.len() && sorted@[i] == x;
                if i < k {
                    assert(before[i] == x);
                } else if i > k {
                    assert(before[i - 1] == x);
                }
            }
            if before.contains(x) {
                let i = choose|i: int| 0 <= i < before.len() && before[i] == x;
                if i < k {
                    assert(sorted@[i] == x);
                } else {
                    assert(sorted@[i + 1] == x);
                }
            }
            if x == item {
                assert(sorted@[k as int] == x);
            }
        }
    }
}

/// Whether one position comes strictly before another.
fn pair_less(a: (u64, u64), b: (u64, u64)) -> (less: bool)
    ensures
        less == pair_lt(a, b),
{
    a.0 < b.0 || (a.0 == b.0 && a.1 < b.1)
}

/// Every position any list names, once each, in the scope's order: by segment,
/// then by line.
pub fn merge_positions(lists: &Vec<Vec<(u64, u64)>>) -> (merged: Vec<(u64, u64)>)
    ensures
        strictly_sorted(merged@, |a: (u64, u64), b: (u64, u64)| pair_lt(a, b)),
        forall|x: (u64, u64)| #[trigger] merged@.contains(x) <==> exists|i: int| 0 <= i < lists.len() && lists@[i]@.contains(x),
{
    let mut merged: Vec<(u64, u64)> = Vec::new();
    let mut i: usize = 0;
    while i < lists.len()
        invariant
            i <= lists.len(),
            strictly_sorted(merged@, |a: (u64, u64), b: (u64, u64)| pair_lt(a, b)),
            forall|x: (u64, u64)| #[trigger] merged@.contains(x) <==> exists|p: int| 0 <= p < i && lists@[p]@.contains(x),
        decreases lists.len() - i,
    {
        let list = &lists[i];
        let mut j: usize = 0;
        while j < list.len()
            invariant
                i < lists.len(),
                list == &lists@[i as int],
                j <= list.len(),
                strictly_sorted(merged@, |a: (u64, u64), b: (u64, u64)| pair_lt(a, b)),
                forall|x: (u64, u64)| #[trigger] merged@.contains(x) <==> ((exists|p: int| 0 <= p < i && lists@[p]@.contains(x))
                    || list@.take(j as int).contains(x)),
            decreases list.len() - j,
        {
            insert_position(&mut merged, list[j]);
            proof {
                let t1 = list@.take(j + 1);
                let t0 = list@.take(j as int);
                assert forall|x: (u64, u64)| t1.contains(x) <==> (t0.contains(x) || x == list@[j as int]) by {
                    if t1.contains(x) {
                        let q = choose|q: int| 0 <= q < t1.len() && #[trigger] t1[q] == x;
                        if q < j {
                            assert(t0[q] == x);
                        }
                    }
                    if t0.contains(x) {
                        let q = choose|q: int| 0 <= q < t0.len() && #[trigger] t0[q] == x;
                        assert(t1[q] == x);
                    }
                    if x == list@[j as int] {
                        assert(t1[j as int] == x);
                    }
                }
            }
            j += 1;
        }
        proof {
            assert(list@.take(list.len() as int) =~= list@);
            assert forall|x: (u64, u64)| #[trigger] merged@.contains(x) <==> exists|p: int| 0 <= p < i + 1 && lists@[p]@.contains(x) by {
                if exists|p: int| 0 <= p < i + 1 && lists@[p]@.contains(x) {
                    let p = choose|p: int| 0 <= p < i + 1 && lists@[p]@.contains(x);
                    if p < i {
                        assert(exists|p: int| 0 <= p < i && lists@[p]@.contains(x));
                    }
                }
            }
        }
        i += 1;
    }
    merged
}

/// Merging depends only on which positions were named: two requests naming
/// the same positions, in whatever lists and orders, walk the same positions
/// in the same order.
pub proof fn law_merged_positions_ignore_request_order(a: Seq<(u64, u64)>, b: Seq<(u64, u64)>)
    requires
        strictly_sorted(a, |x: (u64, u64), y: (u64, u64)| pair_lt(x, y)),
        strictly_sorted(b, |x: (u64, u64), y: (u64, u64)| pair_lt(x, y)),
        same_elements(a, b),
    ensures
        a == b,
{
    lemma_pair_order();
    lemma_sorted_is_unique(a, b, |x: (u64, u64), y: (u64, u64)| pair_lt(x, y));
}

} // verus!

verus! {

/// What a reader is narrowing to. Every field that is set narrows: no filter
/// widens what a scope may return.
#[derive(Debug, Clone)]
pub struct Filters {
    /// The registered event types, exact. Empty means every type the scope holds.
    pub event_types: Vec<String>,
    /// One producer's records inside a tenant view.
    pub producer: Option<String>,
    /// One incarnation of that producer.
    pub instance: Option<String>,
    /// The profile the submission selected.
    pub profile: Option<String>,
    /// One addressed policy partition.
    pub policy_partition: Option<String>,
    /// The runtime's own word for what happened.
    pub kind: Option<String>,
    /// One occurrence, by the identifier its caller stated.
    pub event_id: Option<String>,
    /// The earliest occurrence time, inclusive, as a canonical instant.
    pub since: Option<String>,
    /// The latest occurrence time, inclusive.
    pub until_time: Option<String>,
    /// One history key, by its digest.
    pub history: Option<String>,
}

impl Default for Filters {
    fn default() -> (filters: Self)
        ensures
            filters.spec_is_empty(),
    {
        Filters {
            event_types: Vec::new(),
            producer: None,
            instance: None,
            profile: None,
            policy_partition: None,
            kind: None,
            event_id: None,
            since: None,
            until_time: None,
            history: None,
        }
    }
}

/// What a filter reads of one record. A field the record does not carry as
/// text is `None`; `policy_partitions` holds the partitions it names as text.
#[derive(Debug, Clone)]
pub struct RecordFields {
    pub event_type: Option<String>,
    /// `stream.producer.id`.
    pub producer: Option<String>,
    /// `stream.producer.instance`.
    pub instance: Option<String>,
    pub profile: Option<String>,
    pub kind: Option<String>,
    pub event_id: Option<String>,
    /// `history_key.digest`.
    pub history: Option<String>,
    pub policy_partitions: Vec<String>,
    pub occurred_at: Option<String>,
}

/// A field's text, or the empty text where it has none.
pub open spec fn text_or_empty(field: Option<String>) -> Seq<char> {
    match field {
        Some(t) => t@,
        None => Seq::empty(),
    }
}

/// Whether a field passes an exact filter on it.
pub open spec fn same_field(asked: Option<String>, held: Option<String>) -> bool {
    match asked {
        Some(a) => held matches Some(h) && h@ == a@,
        None => true,
    }
}

impl Filters {
    /// Whether nothing narrows.
    pub open spec fn spec_is_empty(self) -> bool {
        &&& self.event_types@.len() == 0
        &&& self.producer is None
        &&& self.instance is None
        &&& self.profile is None
        &&& self.policy_partition is None
        &&& self.kind is None
        &&& self.event_id is None
        &&& self.since is None
        &&& self.until_time is None
        &&& self.history is None
    }

    /// Whether one record passes every filter that is set.
    pub open spec fn spec_matches(self, record: RecordFields) -> bool {
        let occurred = text_or_empty(record.occurred_at);
        &&& (self.event_types@.len() > 0 ==> exists|i: int| 0 <= i < self.event_types@.len()
            && #[trigger] self.event_types@[i]@ == text_or_empty(record.event_type))
        &&& same_field(self.producer, record.producer)
        &&& same_field(self.instance, record.instance)
        &&& same_field(self.profile, record.profile)
        &&& same_field(self.kind, record.kind)
        &&& same_field(self.event_id, record.event_id)
        &&& same_field(self.history, record.history)
        &&& (self.policy_partition matches Some(p) ==> exists|i: int| 0 <= i < record.policy_partitions@.len()
            && #[trigger] record.policy_partitions@[i]@ == p@)
        &&& (self.since matches Some(s) ==> !lex_lt(occurred, s@))
        &&& (self.until_time matches Some(u) ==> !lex_lt(u@, occurred))
    }

    /// Whether anything narrows at all.
    pub fn is_empty(&self) -> (empty: bool)
        ensures
            empty == self.spec_is_empty(),
    {
        self.event_types.len() == 0 && self.producer.is_none() && self.instance.is_none()
            && self.profile.is_none() && self.policy_partition.is_none() && self.kind.is_none()
            && self.event_id.is_none() && self.since.is_none() && self.until_time.is_none()
            && self.history.is_none()
    }

    /// Whether one record matches. Occurrence times compare as text, which is
    /// exact because the instants are canonical: one spelling, fixed width, UTC.
    pub fn matches(&self, record: &RecordFields) -> (matched: bool)
        ensures
            matched == self.spec_matches(*record),
    {
        if self.event_types.len() > 0 {
            let held: &str = match &record.event_type {
                Some(t) => t.as_str(),
                None => "",
            };
            proof {
                reveal_strlit("");
            }
            let mut found = false;
            let mut i: usize = 0;
            while i < self.event_types.len()
                invariant
                    i <= self.event_types.len(),
                    held@ == text_or_empty(record.event_type),
                    found <==> exists|j: int| 0 <= j < i && #[trigger] self.event_types@[j]@ == held@,
                decreases self.event_types.len() - i,
            {
                if same_text(self.event_types[i].as_str(), held) {
                    found = true;
                }
                i += 1;
            }
            if !found {
                return false;
            }
        }
        if !same_option(&self.producer, &record.producer) || !same_option(&self.instance, &record.instance)
            || !same_option(&self.profile, &record.profile) || !same_option(&self.kind, &record.kind)
            || !same_option(&self.event_id, &record.event_id) || !same_option(&self.history, &record.history)
        {
            return false;
        }
        if let Some(partition) = &self.policy_partition {
            let mut found = false;
            let mut i: usize = 0;
            while i < record.policy_partitions.len()
                invariant
                    i <= record.policy_partitions.len(),
                    found <==> exists|j: int| 0 <= j < i && #[trigger] record.policy_partitions@[j]@ == partition@,
                decreases record.policy_partitions.len() - i,
            {
                if same_text(record.policy_partitions[i].as_str(), partition.as_str()) {
                    found = true;
                }
                i += 1;
            }
            if !found {
                return false;
            }
        }
        let occurred: &str = match &record.occurred_at {
            Some(t) => t.as_str(),
            None => "",
        };
        proof {
            reveal_strlit("");
        }
        if let Some(since) = &self.since {
            if precedes(occurred, since.as_str()) {
                return false;
            }
        }
        if let Some(until) = &self.until_time {
            if precedes(until.as_str(), occurred) {
                return false;
            }
        }
        true
    }

    /// The event types a cursor binds: sorted and deduplicated, so that two
    /// spellings of one filter set bind one digest.
    pub fn canonical_types(&self) -> (types: Vec<String>)
        ensures
            strictly_sorted(crate::text::views(types@), |a: Seq<char>, b: Seq<char>| text_lt(a, b)),
            same_elements(crate::text::views(types@), crate::text::views(self.event_types@)),
    {
        let mut types: Vec<String> = Vec::new();
        let mut i: usize = 0;
        while i < self.event_types.len()
            invariant
                i <= self.event_types.len(),
                strictly_sorted(crate::text::views(types@), |a: Seq<char>, b: Seq<char>| text_lt(a, b)),
                same_elements(crate::text::views(types@), crate::text::views(self.event_types@.take(i as int))),
            decreases self.event_types.len() - i,
        {
            insert_type(&mut types, &self.event_types[i]);
            proof {
                let all = crate::text::views(self.event_types@);
                let t1 = crate::text::views(self.event_types@.take(i + 1));
                let t0 = crate::text::views(self.event_types@.take(i as int));
                assert(t1 =~= t0.push(self.event_types@[i as int]@));
                assert forall|x: Seq<char>| t1.contains(x) <==> (t0.contains(x) || x == self.event_types@[i as int]@) by {
                    if t1.contains(x) {
                        let q = choose|q: int| 0 <= q < t1.len() && #[trigger] t1[q] == x;
                        if q < i {
                            assert(t0[q] == x);
                        }
                    }
                    if t0.contains(x) {
                        let q = choose|q: int| 0 <= q < t0.len() && #[trigger] t0[q] == x;
                        assert(t1[q] == x);
                    }
                    if x == self.event_types@[i as int]@ {
                        assert(t1[i as int] == x);
                    }
                }
            }
            i += 1;
        }
        assert(self.event_types@.take(self.event_types.len() as int) =~= self.event_types@);
        types
    }
}

/// Whether an exact filter passes a field.
fn same_option(asked: &Option<String>, held: &Option<String>) -> (same: bool)
    ensures
        same == same_field(*asked, *held),
{
    match asked {
        Some(a) => match held {
            Some(h) => same_text(h.as_str(), a.as_str()),
            None => false,
        },
        None => true,
    }
}

/// Inserts a type name into a strictly sorted list of names, unless it is already there.
fn insert_type(sorted: &mut Vec<String>, item: &String)
    requires
        strictly_sorted(crate::text::views(old(sorted)@), |a: Seq<char>, b: Seq<char>| text_lt(a, b)),
    ensures
        strictly_sorted(crate::text::views(final(sorted)@), |a: Seq<char>, b: Seq<char>| text_lt(a, b)),
        forall|x: Seq<char>| #[trigger] crate::text::views(final(sorted)@).contains(x)
            <==> (crate::text::views(old(sorted)@).contains(x) || x == item@),
{
    let ghost lt = |a: Seq<char>, b: Seq<char>| text_lt(a, b);
    let ghost before = crate::text::views(sorted@);
    let mut k: usize = 0;
    while k < sorted.len() && precedes(sorted[k].as_str(), item.as_str())
        invariant
            k <= sorted.len(),
            sorted@ == old(sorted)@,
            before == crate::text::views(sorted@),
            forall|j: int| 0 <= j < k ==> text_lt(#[trigger] before[j], item@),
        decreases sorted.len() - k,
    {
        k += 1;
    }
    if k < sorted.len() && same_text(sorted[k].as_str(), item.as_str()) {
        assert(before[k as int] == item@);
        assert(before.contains(item@));
        return;
    }
    sorted.insert(k, item.clone());
    proof {
        let after = crate::text::views(sorted@);
        assert(after =~= before.take(k as int).push(item@) + before.skip(k as int));
        lemma_text_order();
        assert forall|i: int, j: int| 0 <= i < j < after.len() implies lt(#[trigger] after[i], #[trigger] after[j]) by {
            if j < k {
                assert(after[i] == before[i] && after[j] == before[j]);
            } else if j == k {
                assert(after[i] == before[i]);
            } else if i == k {
                assert(after[j] == before[j - 1]);
                assert(!text_lt(before[k as int], item@));
                crate::text::lemma_lex_lt_total(before[k as int], item@);
                if j - 1 > k {
                    assert(lt(before[k as int], before[j - 1]));
                    crate::text::lemma_lex_lt_transitive(item@, before[k as int], before[j - 1]);
                }
            } else if i < k {
                assert(after[i] == before[i] && after[j] == before[j - 1]);
                assert(text_lt(before[i], item@));
                if j - 1 > k {
                    assert(lt(before[k as int], before[j - 1]));
                }
                if j - 1 >= k {
                    assert(!text_lt(before[k as int], item@));
                    crate::text::lemma_lex_lt_total(before[k as int], item@);
                    if j - 1 > k {
                        crate::text::lemma_lex_lt_transitive(item@, before[k as int], before[j - 1]);
                    }
                    crate::text::lemma_lex_lt_transitive(before[i], item@, before[j - 1]);
                }
            } else {
                assert(after[i] == before[i - 1] && after[j] == before[j - 1]);
            }
        }
        assert forall|x: Seq<char>| #[trigger] after.contains(x) <==> (before.contains(x) || x == item@) by {
            if after.contains(x) {
                let i = choose|i: int| 0 <= i < after.len() && #[trigger] after[i] == x;
                if i < k {
                    assert(before[i] == x);
                } else if i > k {
                    assert(before[i - 1] == x);
                }
            }
            if before.contains(x) {
                let i = choose|i: int| 0 <= i < before.len() && #[trigger] before[i] == x;
                if i < k {
                    assert(after[i] == x);
                } else {
                    assert(after[i + 1] == x);
                }
            }
            if x == item@ {
                assert(after[k as int] == x);
            }
        }
    }
}

/// Canonical type lists depend only on which types were asked for: two
/// spellings of one filter set, in any order and with repeats, bind one list.
pub proof fn law_canonical_types_ignore_spelling(a: Seq<Seq<char>>, b: Seq<Seq<char>>)
    requires
        strictly_sorted(a, |x: Seq<char>, y: Seq<char>| text_lt(x, y)),
        strictly_sorted(b, |x: Seq<char>, y: Seq<char>| text_lt(x, y)),
        same_elements(a, b),
    ensures
        a == b,
{
    lemma_text_order();
    lemma_sorted_is_unique(a, b, |x: Seq<char>, y: Seq<char>| text_lt(x, y));
}

/// The canonical form of a filter set depends on which types were asked
/// for, not on how they were spelled: two filter sets that agree on every
/// other field, and ask for the same types in any order and with any repeats,
/// have the same canonical types (`a` and `b`, as [`Filters::canonical_types`]
/// gives them) and the same canonical fields.
pub proof fn law_canonical_form_ignores_type_spelling(f: Filters, g: Filters, a: Seq<Seq<char>>, b: Seq<Seq<char>>)
    requires
        g.producer == f.producer,
        g.instance == f.instance,
        g.profile == f.profile,
        g.policy_partition == f.policy_partition,
        g.kind == f.kind,
        g.event_id == f.event_id,
        g.since == f.since,
        g.until_time == f.until_time,
        g.history == f.history,
        same_elements(crate::text::views(f.event_types@), crate::text::views(g.event_types@)),
        strictly_sorted(a, |x: Seq<char>, y: Seq<char>| text_lt(x, y)),
        same_elements(a, crate::text::views(f.event_types@)),
        strictly_sorted(b, |x: Seq<char>, y: Seq<char>| text_lt(x, y)),
        same_elements(b, crate::text::views(g.event_types@)),
    ensures
        a == b,
        spec_canonical_fields(f) == spec_canonical_fields(g),
{
    law_canonical_types_ignore_spelling(a, b);
}

/// Name and value pairs as texts.
pub open spec fn pair_views(pairs: Seq<(String, String)>) -> Seq<(Seq<char>, Seq<char>)> {
    Seq::new(pairs.len(), |i: int| (pairs[i].0@, pairs[i].1@))
}

/// One optional field of the canonical form: present with its value when it
/// is set, absent (not null) when it is not.
pub open spec fn named_field(name: Seq<char>, value: Option<String>) -> Seq<(Seq<char>, Seq<char>)> {
    match value {
        Some(v) => seq![(name, v@)],
        None => Seq::empty(),
    }
}

/// The optional fields of a filter's canonical form, in a fixed order; the
/// event types stand beside them as [`Filters::canonical_types`].
pub open spec fn spec_canonical_fields(f: Filters) -> Seq<(Seq<char>, Seq<char>)> {
    named_field("producer"@, f.producer) + named_field("instance"@, f.instance) + named_field("profile"@, f.profile)
        + named_field("policy_partition"@, f.policy_partition) + named_field("kind"@, f.kind)
        + named_field("event_id"@, f.event_id) + named_field("since"@, f.since)
        + named_field("until_time"@, f.until_time) + named_field("history"@, f.history)
}

/// Adds one optional field to a canonical form being built.
fn push_field(fields: &mut Vec<(String, String)>, name: &str, value: &Option<String>)
    ensures
        pair_views(final(fields)@) == pair_views(old(fields)@) + named_field(name@, *value),
{
    match value {
        Some(v) => {
            fields.push((name.to_string(), v.clone()));
            assert(pair_views(fields@) =~= pair_views(old(fields)@) + named_field(name@, *value));
        },
        None => {
            assert(pair_views(fields@) =~= pair_views(old(fields)@) + named_field(name@, *value));
        },
    }
}

impl Filters {
    /// The optional fields a cursor binds, beside the canonical event types:
    /// each one that is set, with its value, in a fixed order; one that is
    /// not set is absent rather than null.
    pub fn canonical_fields(&self) -> (fields: Vec<(String, String)>)
        ensures
            pair_views(fields@) == spec_canonical_fields(*self),
    {
        let mut fields: Vec<(String, String)> = Vec::new();
        assert(pair_views(fields@) =~= Seq::<(Seq<char>, Seq<char>)>::empty());
        push_field(&mut fields, "producer", &self.producer);
        push_field(&mut fields, "instance", &self.instance);
        push_field(&mut fields, "profile", &self.profile);
        push_field(&mut fields, "policy_partition", &self.policy_partition);
        push_field(&mut fields, "kind", &self.kind);
        push_field(&mut fields, "event_id", &self.event_id);
        push_field(&mut fields, "since", &self.since);
        push_field(&mut fields, "until_time", &self.until_time);
        push_field(&mut fields, "history", &self.history);
        assert(pair_views(fields@) =~= spec_canonical_fields(*self));
        fields
    }
}

} // verus!

verus! {

/// A place in a scope: the segment, by its first position, and the line in it.
#[derive(Debug, Clone, Copy, PartialEq, Eq, Structural)]
pub struct Position {
    pub segment: u64,
    pub offset: u64,
}

/// How many positions of a scope come before `position`.
pub open spec fn spec_progress(position: Position) -> u64 {
    sat_add(sat_sub(position.segment, 1), position.offset)
}

/// The position that follows `progress` positions of a scope.
pub open spec fn spec_position_of(progress: u64) -> Position {
    if progress == 0 {
        Position { segment: 1, offset: 0 }
    } else {
        let next = sat_add(progress, 1);
        let segment = (sat_sub(next, 1) / SEGMENT_RECORDS * SEGMENT_RECORDS + 1) as u64;
        Position { segment, offset: sat_sub(next, segment) }
    }
}

/// How many positions of a scope come before `position`.
pub fn progress(position: Position) -> (count: u64)
    ensures
        count == spec_progress(position),
{
    position.segment.saturating_sub(1).saturating_add(position.offset)
}

/// The position that follows `progress` positions of a scope.
pub fn position_of(progress: u64) -> (position: Position)
    ensures
        position == spec_position_of(progress),
{
    if progress == 0 {
        return Position { segment: 1, offset: 0 };
    }
    let next = progress.saturating_add(1);
    let before = next.saturating_sub(1);
    assert(before / SEGMENT_RECORDS * SEGMENT_RECORDS <= before) by (nonlinear_arith)
        requires SEGMENT_RECORDS > 0;
    let segment = before / SEGMENT_RECORDS * SEGMENT_RECORDS + 1;
    Position { segment, offset: next.saturating_sub(segment) }
}

/// Counting the positions before the one that follows `n` positions gives `n`
/// back: a cursor parked after a run of positions resumes just past it.
pub proof fn law_position_of_undoes_progress(n: u64)
    requires
        n < u64::MAX,
    ensures
        spec_progress(spec_position_of(n)) == n,
{
    if n > 0 {
        assert(n / SEGMENT_RECORDS * SEGMENT_RECORDS <= n) by (nonlinear_arith)
            requires SEGMENT_RECORDS > 0;
    }
}

/// Whether a walk has reached the bound a finite export declared: the
/// progress it is covered through, if it declared one.
pub fn at_bound(position: Position, bound: Option<u64>) -> (reached: bool)
    ensures
        reached == (bound matches Some(b) && spec_progress(position) >= b),
{
    match bound {
        Some(b) => progress(position) >= b,
        None => false,
    }
}

/// How far one page may go: records returned, their bytes, and positions examined.
#[derive(Debug, Clone, Copy)]
pub struct Limits {
    pub records: usize,
    pub bytes: u64,
    pub examined: usize,
}

/// Where a walk of the store stands.
#[derive(Debug, Clone, Copy)]
pub struct Walk {
    /// Where the next page starts.
    pub position: Position,
    /// How many records this page returns so far.
    pub taken: usize,
    /// Their size.
    pub bytes: u64,
    /// How many positions were examined.
    pub examined: usize,
    /// Whether the walk stopped with matching positions still ahead of it.
    pub stopped: bool,
}

/// What a walk does with one examined record.
#[derive(Debug, Clone, Copy, PartialEq, Eq, Structural)]
pub enum Verdict {
    /// Passed over: it does not match, and the walk advances beyond it.
    Pass,
    /// Returned in the page.
    Take,
    /// Not returned, because the page is full: the next page starts at it.
    Refuse,
}

/// The position just past `at`.
pub open spec fn after(at: Position) -> Position {
    Position { segment: at.segment, offset: (at.offset + 1) as u64 }
}

impl Walk {
    /// A walk that has returned nothing holds no bytes.
    pub open spec fn wf(self) -> bool {
        self.taken == 0 ==> self.bytes == 0
    }

    /// A walk starting at `position`.
    pub fn start(position: Position) -> (walk: Walk)
        ensures
            walk == (Walk { position, taken: 0, bytes: 0, examined: 0, stopped: false }),
            walk.wf(),
    {
        Walk { position, taken: 0, bytes: 0, examined: 0, stopped: false }
    }

    /// Whether the walk has examined as many positions as one page may.
    pub fn exhausted(&self, limits: &Limits) -> (bounded: bool)
        ensures
            bounded == (self.examined >= limits.examined),
    {
        self.examined >= limits.examined
    }

    /// Whether the walk reached the end of what it was asked to cover: it
    /// neither filled its page nor ran out of positions to examine.
    pub fn covered_all(&self, limits: &Limits) -> (all: bool)
        ensures
            all == (!self.stopped && self.examined < limits.examined),
    {
        !self.stopped && self.examined < limits.examined
    }

    /// Counts a position the index named but the segment no longer holds.
    pub fn note_absent(&mut self)
        requires
            old(self).examined < usize::MAX,
        ensures
            *final(self) == (Walk { examined: (old(self).examined + 1) as usize, ..*old(self) }),
    {
        self.examined = self.examined + 1;
    }

    /// Decides on the record at `at`, which matched the filters or not and is
    /// `size` bytes long: see [`spec_step`].
    pub fn step(&mut self, at: Position, matched: bool, size: u64, limits: &Limits) -> (verdict: Verdict)
        requires
            old(self).wf(),
            at.offset < u64::MAX,
            old(self).examined < usize::MAX,
            old(self).taken < usize::MAX,
        ensures
            (*final(self), verdict) == spec_step(*old(self), at, matched, size, *limits),
            final(self).wf(),
    {
        self.examined = self.examined + 1;
        if !matched {
            self.position = Position { segment: at.segment, offset: at.offset + 1 };
            return Verdict::Pass;
        }
        let over = self.taken > 0 && (self.bytes > limits.bytes || size > limits.bytes - self.bytes);
        if over {
            self.position = at;
            self.stopped = true;
            return Verdict::Refuse;
        }
        self.position = Position { segment: at.segment, offset: at.offset + 1 };
        self.bytes = self.bytes + size;
        self.taken = self.taken + 1;
        if self.taken >= limits.records {
            self.stopped = true;
        }
        Verdict::Take
    }
}

/// One step of a walk over the record at `at`. A record that does not match
/// is passed and the walk advances beyond it, so a filtered page never stalls
/// on what it skips. A matching record is returned unless the page already
/// holds one and this one would carry it past its byte budget: then the walk
/// stops at it, and the next page starts there. The walk also stops once the
/// page holds as many records as it may.
pub open spec fn spec_step(walk: Walk, at: Position, matched: bool, size: u64, limits: Limits) -> (Walk, Verdict) {
    let examined = (walk.examined + 1) as usize;
    if !matched {
        (Walk { position: after(at), examined, ..walk }, Verdict::Pass)
    } else if walk.taken > 0 && walk.bytes + size > limits.bytes {
        (Walk { position: at, examined, stopped: true, ..walk }, Verdict::Refuse)
    } else {
        let taken = (walk.taken + 1) as usize;
        (Walk {
            position: after(at),
            taken,
            bytes: (walk.bytes + size) as u64,
            examined,
            stopped: walk.stopped || taken >= limits.records,
        }, Verdict::Take)
    }
}

/// A page never returns more records than it may, and never goes past its
/// byte budget except with a single record, which is returned whatever its
/// size so that no record is unreadable; every step that does not stop before
/// a record advances the walk by exactly one position.
pub proof fn law_pages_respect_their_limits(walk: Walk, at: Position, matched: bool, size: u64, limits: Limits)
    requires
        walk.wf(),
        !walk.stopped,
        walk.taken < limits.records,
        walk.taken <= 1 || walk.bytes <= limits.bytes,
        at.offset < u64::MAX,
        walk.examined < usize::MAX,
        walk.bytes + size <= u64::MAX,
    ensures
        ({
            let (next, verdict) = spec_step(walk, at, matched, size, limits);
            &&& next.taken <= limits.records
            &&& next.taken <= 1 || next.bytes <= limits.bytes
            &&& !next.stopped ==> next.taken < limits.records
            &&& next.examined == walk.examined + 1
            &&& verdict != Verdict::Refuse ==> spec_progress(next.position) == sat_add(spec_progress(at), 1)
            &&& verdict == Verdict::Refuse ==> next.position == at && next.taken == walk.taken
        }),
{
}

/// What one examined record teaches the page's frontier: the scope is covered
/// through the position just past it, and in a tenant view, the producer
/// stream the record came from is covered through its sequence.
pub fn observations(scope: &Scope, past: Position, stream: Option<&crate::events::ingest::Stream>, seq: Option<u64>) -> (learned: Vec<(String, u64)>)
    ensures
        learned@.len() >= 1,
        learned@[0].0@ == crate::events::store::spec_scope_key(*scope),
        learned@[0].1 == spec_progress(past),
        (scope is Tenant && stream is Some && seq is Some) ==> learned@.len() == 2
            && learned@[1].0@ == crate::events::store::spec_scope_key(Scope::Stream {
                zone: stream.unwrap().zone,
                ledger: stream.unwrap().ledger,
                class: stream.unwrap().producer.class,
                producer: stream.unwrap().producer.id,
                instance: stream.unwrap().producer.instance,
            })
            && learned@[1].1 == sat_add(seq.unwrap(), 1),
        !(scope is Tenant && stream is Some && seq is Some) ==> learned@.len() == 1,
{
    let mut learned: Vec<(String, u64)> = Vec::new();
    learned.push((scope.key(), progress(past)));
    if let Scope::Tenant { .. } = scope {
        if let (Some(stream), Some(seq)) = (stream, seq) {
            let producer = Scope::for_stream(stream);
            learned.push((producer.key(), seq.saturating_add(1)));
        }
    }
    learned
}

/// Why an offset cannot be read from: it stands before the oldest segment
/// retention left.
#[derive(Debug, Clone, Copy, PartialEq, Eq, Structural)]
pub struct Lapsed {
    pub oldest_sequence: u64,
    pub requested_sequence: u64,
}

/// Where a read resumes, from the position its cursor holds and the first
/// position of the oldest segment still held: a cursor that names no segment
/// starts at the oldest one; one older than it is refused.
pub fn resume(held: Position, oldest_segment: u64) -> (start: Result<Position, Lapsed>)
    ensures
        held.segment == 0 ==> start == Ok::<Position, Lapsed>(Position { segment: oldest_segment, offset: held.offset }),
        held.segment != 0 && held.segment < oldest_segment ==> start == Err::<Position, Lapsed>(Lapsed {
            oldest_sequence: oldest_segment,
            requested_sequence: held.segment,
        }),
        held.segment != 0 && held.segment >= oldest_segment ==> start == Ok::<Position, Lapsed>(held),
{
    let mut position = held;
    if position.segment == 0 {
        position.segment = oldest_segment;
    }
    if position.segment < oldest_segment {
        return Err(Lapsed { oldest_sequence: oldest_segment, requested_sequence: position.segment });
    }
    Ok(position)
}

/// Whether a read may go on with the bound the request names, given the bound
/// its cursor declared: once an export declared its bound it can be neither
/// changed (`same` is whether the two agree) nor dropped.
pub fn bound_kept(declared: bool, asked: bool, same: bool) -> (kept: bool)
    ensures
        kept == !(declared && (!asked || !same)),
{
    !(declared && (!asked || !same))
}

/// Whether a page is a contiguous run of one producer's chain: only a
/// producer stream read that nothing narrowed is one.
pub fn contiguous(scope: &Scope, filters: &Filters) -> (run: bool)
    ensures
        run == (scope is Stream && filters.spec_is_empty()),
{
    match scope {
        Scope::Stream { .. } => filters.is_empty(),
        Scope::Tenant { .. } => false,
    }
}

/// What a reader is told when its offset stands before what is held.
pub open spec fn spec_lapsed_message(oldest: Seq<char>, lapsed: Lapsed) -> Seq<char> {
    "this offset stands at "@ + decimal(lapsed.requested_sequence as nat) + " and the oldest still held is "@
        + decimal(lapsed.oldest_sequence as nat)
        + ": the records in between left on the retention schedule. Resume from `"@ + oldest
        + "`, knowing that "@ + decimal(sat_sub(lapsed.oldest_sequence, lapsed.requested_sequence) as nat)
        + " positions are gone"@
}

/// The message of a lapsed offset, naming where to resume and how much was lost.
pub fn lapsed_message(oldest: &str, lapsed: Lapsed) -> (message: String)
    ensures
        message@ == spec_lapsed_message(oldest@, lapsed),
{
    let mut message = String::new();
    push_str(&mut message, "this offset stands at ");
    push_decimal(&mut message, lapsed.requested_sequence);
    push_str(&mut message, " and the oldest still held is ");
    push_decimal(&mut message, lapsed.oldest_sequence);
    push_str(&mut message, ": the records in between left on the retention schedule. Resume from `");
    push_str(&mut message, oldest);
    push_str(&mut message, "`, knowing that ");
    push_decimal(&mut message, lapsed.oldest_sequence.saturating_sub(lapsed.requested_sequence));
    push_str(&mut message, " positions are gone");
    message
}

/// What a lookup says when it walked its bound without reaching the end.
pub fn exhausted_message(pages: u64, resume: &str) -> (message: String)
    ensures
        message@ == "this lookup walked "@ + decimal(pages as nat)
            + " pages without reaching the end of the store and stopped: whether the record is here is not established. Resume from `"@
            + resume@ + "`"@,
{
    let mut message = String::new();
    push_str(&mut message, "this lookup walked ");
    push_decimal(&mut message, pages);
    push_str(&mut message, " pages without reaching the end of the store and stopped: whether the record is here is not established. Resume from `");
    push_str(&mut message, resume);
    push_str(&mut message, "`");
    message
}

/// Whether a batch attesting `first_seq..=last_seq` covers `sequence`.
pub fn batch_covers(first_seq: u64, last_seq: u64, sequence: u64) -> (covers: bool)
    ensures
        covers == (first_seq <= sequence && sequence <= last_seq),
{
    first_seq <= sequence && sequence <= last_seq
}

/// Which Merkle leaf of a batch starting at `first_seq`, with `leaves`
/// leaves, is the record at `sequence`.
pub fn leaf_index(sequence: u64, first_seq: u64, leaves: usize) -> (index: Option<usize>)
    ensures
        index == (if sat_sub(sequence, first_seq) < leaves { Some(sat_sub(sequence, first_seq) as usize) } else { None::<usize> }),
{
    let offset = sequence.saturating_sub(first_seq);
    if offset < leaves as u64 {
        Some(offset as usize)
    } else {
        None
    }
}

} // verus!

verus! {

/// Where, in merged index positions, a walk starting at `start` begins: every
/// position before that index sorts before `start`, none from it on does.
pub fn first_from(merged: &Vec<(u64, u64)>, start: Position) -> (k: usize)
    requires
        strictly_sorted(merged@, |a: (u64, u64), b: (u64, u64)| pair_lt(a, b)),
    ensures
        k <= merged.len(),
        forall|j: int| 0 <= j < k ==> pair_lt(#[trigger] merged@[j], (start.segment, start.offset)),
        forall|j: int| k <= j < merged.len() ==> !pair_lt(#[trigger] merged@[j], (start.segment, start.offset)),
{
    let ghost lt = |a: (u64, u64), b: (u64, u64)| pair_lt(a, b);
    let mut k: usize = 0;
    while k < merged.len() && pair_less(merged[k], (start.segment, start.offset))
        invariant
            k <= merged.len(),
            forall|j: int| 0 <= j < k ==> pair_lt(#[trigger] merged@[j], (start.segment, start.offset)),
        decreases merged.len() - k,
    {
        k += 1;
    }
    assert forall|j: int| k <= j < merged.len() implies !pair_lt(#[trigger] merged@[j], (start.segment, start.offset)) by {
        if j > k {
            assert(lt(merged@[k as int], merged@[j]));
        }
    }
    k
}

} // verus!

verus! {

/// Why a read was refused.
#[derive(Debug, Clone, PartialEq, Eq)]
pub enum ReadError {
    /// The offset is not usable here; what its check said.
    Offset(String),
    /// The offset is older than what is held: where to resume, and how much was lost.
    Expired { oldest: String, oldest_sequence: u64, requested_sequence: u64 },
    /// The store could not answer.
    Unavailable(String),
    /// The scope named does not resolve to a ledger this plane holds: a
    /// statement about the request, never an empty page.
    Unknown(String),
    /// The search gave up before reaching the end of its snapshot: whether the
    /// record is there was not established.
    SearchExhausted { pages: u64, resume: String },
}

impl ReadError {
    /// What the refusal says.
    pub open spec fn spec_message(self) -> Seq<char> {
        match self {
            ReadError::Offset(d) => d@,
            ReadError::Unavailable(d) => d@,
            ReadError::Unknown(d) => d@,
            ReadError::Expired { oldest, oldest_sequence, requested_sequence } =>
                spec_lapsed_message(oldest@, Lapsed { oldest_sequence, requested_sequence }),
            ReadError::SearchExhausted { pages, resume } => "this lookup walked "@ + decimal(pages as nat)
                + " pages without reaching the end of the store and stopped: whether the record is here is not established. Resume from `"@
                + resume@ + "`"@,
        }
    }

    /// What the refusal says.
    pub fn message(&self) -> (text: String)
        ensures
            text@ == self.spec_message(),
    {
        match self {
            ReadError::Offset(detail) => detail.clone(),
            ReadError::Unavailable(detail) => detail.clone(),
            ReadError::Unknown(detail) => detail.clone(),
            ReadError::Expired { oldest, oldest_sequence, requested_sequence } => lapsed_message(
                oldest.as_str(),
                Lapsed { oldest_sequence: *oldest_sequence, requested_sequence: *requested_sequence },
            ),
            ReadError::SearchExhausted { pages, resume } => exhausted_message(*pages, resume.as_str()),
        }
    }

    /// The refusal a read is answered with: a lapsed offset is `not_found`,
    /// answered with where to resume; an unusable one a validation refusal; a
    /// scope nobody holds `not_found`, never an empty page; a store that could
    /// not answer, and a search that stopped at its bound, unavailable, never
    /// an absence this store did not establish.
    pub fn refusal(&self) -> (error: crate::api::ApiError)
        ensures
            (error.class, error.code@) == (match *self {
                ReadError::Expired { .. } => (crate::api::ErrorClass::NotFound, "offset_expired"@),
                ReadError::Offset(_) => (crate::api::ErrorClass::Validation, "offset_invalid"@),
                ReadError::Unknown(_) => (crate::api::ErrorClass::NotFound, "ledger_not_held"@),
                ReadError::Unavailable(_) => (crate::api::ErrorClass::Unavailable, "event_store_unavailable"@),
                ReadError::SearchExhausted { .. } => (crate::api::ErrorClass::Unavailable, "search_exhausted"@),
            }),
            error.message@ == self.spec_message(),
    {
        let message = self.message();
        match self {
            ReadError::Expired { .. } => crate::api::ApiError::new(crate::api::ErrorClass::NotFound, "offset_expired", message),
            ReadError::Offset(_) => crate::api::ApiError::new(crate::api::ErrorClass::Validation, "offset_invalid", message),
            ReadError::Unknown(_) => crate::api::ApiError::new(crate::api::ErrorClass::NotFound, "ledger_not_held", message),
            ReadError::Unavailable(_) => crate::api::ApiError::new(crate::api::ErrorClass::Unavailable, "event_store_unavailable", message),
            ReadError::SearchExhausted { .. } => crate::api::ApiError::new(crate::api::ErrorClass::Unavailable, "search_exhausted", message),
        }
    }
}

/// How many pages a single-record lookup walks before it stops and says so.
pub const SEARCH_PAGES: u64 = 10000;

/// What a lookup does after one page of its search.
#[derive(Debug, Clone, Copy, PartialEq, Eq, Structural)]
pub enum Search {
    /// The page held the record.
    Found,
    /// The snapshot ended without it: it is not here.
    Absent,
    /// Read the next page.
    Next,
    /// The bound ran out first: whether it is here is not established.
    Exhausted,
}

/// What a lookup that has walked `walked` pages (this one included) does,
/// given whether this page held a record and whether more follow it.
pub fn search_step(walked: u64, found: bool, more: bool) -> (step: Search)
    ensures
        found ==> step == Search::Found,
        !found && !more ==> step == Search::Absent,
        !found && more && walked < SEARCH_PAGES ==> step == Search::Next,
        !found && more && walked >= SEARCH_PAGES ==> step == Search::Exhausted,
{
    if found {
        Search::Found
    } else if !more {
        Search::Absent
    } else if walked < SEARCH_PAGES {
        Search::Next
    } else {
        Search::Exhausted
    }
}

/// A record passes a filter exactly when it passes every narrowing that is
/// set: one of the asked types (a record without a type reads as the empty
/// one); the asked producer, instance, profile, kind,
/// occurrence id and history key, each exactly; a partition it names; an
/// occurrence time inside the inclusive bounds.
pub proof fn law_a_match_passes_every_filter_that_is_set(f: Filters, r: RecordFields)
    ensures
        f.spec_matches(r) <==> {
            &&& f.event_types@.len() > 0 ==> exists|i: int| 0 <= i < f.event_types@.len()
                && #[trigger] f.event_types@[i]@ == text_or_empty(r.event_type)
            &&& f.producer matches Some(w) ==> r.producer matches Some(v) && v@ == w@
            &&& f.instance matches Some(w) ==> r.instance matches Some(v) && v@ == w@
            &&& f.profile matches Some(w) ==> r.profile matches Some(v) && v@ == w@
            &&& f.kind matches Some(w) ==> r.kind matches Some(v) && v@ == w@
            &&& f.event_id matches Some(w) ==> r.event_id matches Some(v) && v@ == w@
            &&& f.history matches Some(w) ==> r.history matches Some(v) && v@ == w@
            &&& f.policy_partition matches Some(p) ==> exists|i: int| 0 <= i < r.policy_partitions@.len()
                && #[trigger] r.policy_partitions@[i]@ == p@
            &&& f.since matches Some(s) ==> !lex_lt(text_or_empty(r.occurred_at), s@)
            &&& f.until_time matches Some(u) ==> !lex_lt(u@, text_or_empty(r.occurred_at))
        },
{
}

} // verus!
