//! What an event-log reader asks for, read off its query string.

use vstd::prelude::*;

use crate::decisions::http::{affirms, decoded, decoded_pairs, parsed_usize, query_pairs};
use crate::events::read::Filters;
use crate::query::{percent_decode, split_pair, split_pieces};
use crate::text::parsed_u64;

verus! {

/// One producer whose published keys this plane trusts, and the tenant its
/// batches are admitted into: the file its keys are read from, by path.
#[derive(Debug, Clone)]
pub struct ProducerFile {
    pub path: String,
    pub producer: String,
    pub zone: String,
    pub ledger: String,
}

/// The read a query string asks for, its filters, and every pair it named.
#[derive(Debug, Clone)]
pub struct Asked {
    pub from: Option<String>,
    pub until: Option<String>,
    pub limit_records: Option<usize>,
    pub limit_bytes: Option<u64>,
    pub proof: bool,
    pub filters: Filters,
    pub named: Vec<(String, String)>,
}

/// The value of the last pair among the first `n` named `name`, if any.
pub open spec fn last_value(pairs: Seq<(Seq<char>, Seq<char>)>, name: Seq<char>, n: nat) -> Option<Seq<char>>
    decreases n,
{
    if n == 0 || n > pairs.len() {
        None
    } else if pairs[n - 1].0 == name {
        Some(pairs[n - 1].1)
    } else {
        last_value(pairs, name, (n - 1) as nat)
    }
}

/// The value of the last pair among the first `n` named `a` or `b`, if any.
pub open spec fn last_of_two(pairs: Seq<(Seq<char>, Seq<char>)>, a: Seq<char>, b: Seq<char>, n: nat) -> Option<Seq<char>>
    decreases n,
{
    if n == 0 || n > pairs.len() {
        None
    } else if pairs[n - 1].0 == a || pairs[n - 1].0 == b {
        Some(pairs[n - 1].1)
    } else {
        last_of_two(pairs, a, b, (n - 1) as nat)
    }
}

/// The values of every pair among the first `n` named `name`, in order.
pub open spec fn values_named(pairs: Seq<(Seq<char>, Seq<char>)>, name: Seq<char>, n: nat) -> Seq<Seq<char>>
    decreases n,
{
    if n == 0 || n > pairs.len() {
        Seq::empty()
    } else if pairs[n - 1].0 == name {
        values_named(pairs, name, (n - 1) as nat).push(pairs[n - 1].1)
    } else {
        values_named(pairs, name, (n - 1) as nat)
    }
}

/// An optional text's view.
pub open spec fn opt_view(text: Option<String>) -> Option<Seq<char>> {
    match text {
        Some(t) => Some(t@),
        None => None,
    }
}

/// Whether a read asked for is what the first `n` decoded pairs ask for: the
/// last `from`, `until`, limits and `proof` win; `event_type` repeats, each
/// one adding a type; every other filter is the last one named.
pub open spec fn asked_from(asked: Asked, pairs: Seq<(Seq<char>, Seq<char>)>, n: nat) -> bool {
    &&& opt_view(asked.from) == last_value(pairs, "from"@, n)
    &&& opt_view(asked.until) == last_value(pairs, "until"@, n)
    &&& asked.limit_records == (match last_of_two(pairs, "limit_records"@, "limit"@, n) {
        Some(v) => parsed_usize(v),
        None => None,
    })
    &&& asked.limit_bytes == (match last_value(pairs, "limit_bytes"@, n) {
        Some(v) => parsed_u64(v),
        None => None,
    })
    &&& asked.proof == (match last_value(pairs, "proof"@, n) {
        Some(v) => affirms(v),
        None => false,
    })
    &&& crate::text::views(asked.filters.event_types@) == values_named(pairs, "event_type"@, n)
    &&& opt_view(asked.filters.producer) == last_value(pairs, "producer"@, n)
    &&& opt_view(asked.filters.instance) == last_value(pairs, "instance"@, n)
    &&& opt_view(asked.filters.profile) == last_value(pairs, "profile"@, n)
    &&& opt_view(asked.filters.policy_partition) == last_value(pairs, "policy_partition"@, n)
    &&& opt_view(asked.filters.kind) == last_value(pairs, "kind"@, n)
    &&& opt_view(asked.filters.event_id) == last_value(pairs, "event_id"@, n)
    &&& opt_view(asked.filters.since) == last_value(pairs, "since"@, n)
    &&& opt_view(asked.filters.until_time) == last_value(pairs, "until_time"@, n)
    &&& opt_view(asked.filters.history) == last_value(pairs, "history"@, n)
    &&& asked.named@.len() == n
    &&& forall|i: int| 0 <= i < n ==> (#[trigger] asked.named@[i]).0@ == pairs[i].0 && asked.named@[i].1@ == pairs[i].1
}

impl Asked {
    /// The value of the first pair named `wanted`, if any.
    pub fn value(&self, wanted: &str) -> (found: Option<String>)
        ensures
            found is None <==> (forall|i: int| 0 <= i < self.named@.len() ==> (#[trigger] self.named@[i]).0@ != wanted@),
            found matches Some(v) ==> exists|i: int| 0 <= i < self.named@.len() && (#[trigger] self.named@[i]).0@ == wanted@
                && v@ == self.named@[i].1@
                && (forall|j: int| 0 <= j < i ==> self.named@[j].0@ != wanted@),
    {
        let mut i: usize = 0;
        while i < self.named.len()
            invariant
                i <= self.named.len(),
                forall|j: int| 0 <= j < i ==> (#[trigger] self.named@[j]).0@ != wanted@,
            decreases self.named.len() - i,
        {
            if crate::text::same_text(self.named[i].0.as_str(), wanted) {
                return Some(self.named[i].1.clone());
            }
            i += 1;
        }
        None
    }
}

/// Reads the query string this API defines: the read, its filters, and every
/// pair it names. A parameter nobody declared is ignored.
pub fn asked_of(query: Option<&str>) -> (asked: Asked)
    ensures
        asked_from(asked, query_pairs(query), query_pairs(query).len()),
{
    let text: &str = match query {
        Some(q) => q,
        None => "",
    };
    proof {
        reveal_strlit("");
    }
    let pieces = split_pieces(text, '&');
    let ghost all = crate::text::views(pieces@);
    let ghost decode = |v: Seq<char>| decoded(v);
    let mut asked = Asked {
        from: None,
        until: None,
        limit_records: None,
        limit_bytes: None,
        proof: false,
        filters: Filters::default(),
        named: Vec::new(),
    };
    assert(crate::text::views(asked.filters.event_types@) =~= Seq::<Seq<char>>::empty());
    let mut i: usize = 0;
    while i < pieces.len()
        invariant
            i <= pieces.len(),
            all == crate::text::views(pieces@),
            all.len() == pieces.len(),
            all == crate::query::spec_pieces(match query { Some(q) => q@, None => Seq::empty() }, '&'),
            decode == |v: Seq<char>| decoded(v),
            asked_from(asked, decoded_pairs(all, decode, i as nat), decoded_pairs(all, decode, i as nat).len()),
        decreases pieces.len() - i,
    {
        assert(all[i as int] == pieces@[i as int]@);
        proof {
            lemma_parameter_names();
        }
        let ghost before = decoded_pairs(all, decode, i as nat);
        if let Some((name, raw)) = split_pair(pieces[i].as_str()) {
            let value = percent_decode(raw.as_str());
            let ghost after = before.push((name@, value@));
            assert(decoded_pairs(all, decode, (i + 1) as nat) == after);
            proof {
                lemma_prefix_unchanged(before, (name@, value@));
            }
            let ghost types_before = crate::text::views(asked.filters.event_types@);
            if crate::text::same_text(name.as_str(), "from") {
                asked.from = Some(value.clone());
            } else if crate::text::same_text(name.as_str(), "until") {
                asked.until = Some(value.clone());
            } else if crate::text::same_text(name.as_str(), "limit_records") || crate::text::same_text(name.as_str(), "limit") {
                let chars = crate::text::chars_of(value.as_str());
                asked.limit_records = match crate::text::parse_u64(chars.as_slice()) {
                    Some(v) => if v <= usize::MAX as u64 { Some(v as usize) } else { None },
                    None => None,
                };
            } else if crate::text::same_text(name.as_str(), "limit_bytes") {
                let chars = crate::text::chars_of(value.as_str());
                asked.limit_bytes = crate::text::parse_u64(chars.as_slice());
            } else if crate::text::same_text(name.as_str(), "proof") {
                asked.proof = crate::text::same_text(value.as_str(), "true") || crate::text::same_text(value.as_str(), "1")
                    || crate::text::same_text(value.as_str(), "yes");
            } else if crate::text::same_text(name.as_str(), "event_type") {
                asked.filters.event_types.push(value.clone());
                assert(crate::text::views(asked.filters.event_types@) =~= types_before.push(value@));
            } else if crate::text::same_text(name.as_str(), "producer") {
                asked.filters.producer = Some(value.clone());
            } else if crate::text::same_text(name.as_str(), "instance") {
                asked.filters.instance = Some(value.clone());
            } else if crate::text::same_text(name.as_str(), "profile") {
                asked.filters.profile = Some(value.clone());
            } else if crate::text::same_text(name.as_str(), "policy_partition") {
                asked.filters.policy_partition = Some(value.clone());
            } else if crate::text::same_text(name.as_str(), "kind") {
                asked.filters.kind = Some(value.clone());
            } else if crate::text::same_text(name.as_str(), "event_id") {
                asked.filters.event_id = Some(value.clone());
            } else if crate::text::same_text(name.as_str(), "since") {
                asked.filters.since = Some(value.clone());
            } else if crate::text::same_text(name.as_str(), "until_time") {
                asked.filters.until_time = Some(value.clone());
            } else if crate::text::same_text(name.as_str(), "history") {
                asked.filters.history = Some(value.clone());
            }
            let ghost named_before = asked.named@;
            asked.named.push((name, value));
            assert forall|k: int| 0 <= k < after.len() implies (#[trigger] asked.named@[k]).0@ == after[k].0 && asked.named@[k].1@ == after[k].1 by {
                if k < before.len() {
                    assert(asked.named@[k] == named_before[k]);
                }
            }
        } else {
            assert(decoded_pairs(all, decode, (i + 1) as nat) == before);
        }
        i += 1;
    }
    asked
}

/// The parameter names this API reads, told apart by their length and their
/// first character.
proof fn lemma_parameter_names()
    ensures
        "from"@.len() == 4 && "from"@[0] == 'f',
        "until"@.len() == 5 && "until"@[0] == 'u',
        "limit_records"@.len() == 13 && "limit_records"@[0] == 'l',
        "limit"@.len() == 5 && "limit"@[0] == 'l',
        "limit_bytes"@.len() == 11 && "limit_bytes"@[0] == 'l',
        "proof"@.len() == 5 && "proof"@[0] == 'p',
        "event_type"@.len() == 10 && "event_type"@[0] == 'e',
        "producer"@.len() == 8 && "producer"@[0] == 'p',
        "instance"@.len() == 8 && "instance"@[0] == 'i',
        "profile"@.len() == 7 && "profile"@[0] == 'p',
        "policy_partition"@.len() == 16 && "policy_partition"@[0] == 'p',
        "kind"@.len() == 4 && "kind"@[0] == 'k',
        "event_id"@.len() == 8 && "event_id"@[0] == 'e',
        "since"@.len() == 5 && "since"@[0] == 's',
        "until_time"@.len() == 10 && "until_time"@[0] == 'u',
        "history"@.len() == 7 && "history"@[0] == 'h',
{
    reveal_strlit("from");
    reveal_strlit("until");
    reveal_strlit("limit_records");
    reveal_strlit("limit");
    reveal_strlit("limit_bytes");
    reveal_strlit("proof");
    reveal_strlit("event_type");
    reveal_strlit("producer");
    reveal_strlit("instance");
    reveal_strlit("profile");
    reveal_strlit("policy_partition");
    reveal_strlit("kind");
    reveal_strlit("event_id");
    reveal_strlit("since");
    reveal_strlit("until_time");
    reveal_strlit("history");
}

/// A longer list of pairs agrees with a shorter one on every prefix of it.
proof fn lemma_prefix_unchanged(pairs: Seq<(Seq<char>, Seq<char>)>, pair: (Seq<char>, Seq<char>))
    ensures
        forall|name: Seq<char>| #[trigger] last_value(pairs.push(pair), name, pairs.len() + 1) == (if pair.0 == name { Some(pair.1) } else { last_value(pairs, name, pairs.len()) }),
        forall|a: Seq<char>, b: Seq<char>| #[trigger] last_of_two(pairs.push(pair), a, b, pairs.len() + 1) == (if pair.0 == a || pair.0 == b { Some(pair.1) } else { last_of_two(pairs, a, b, pairs.len()) }),
        forall|name: Seq<char>| #[trigger] values_named(pairs.push(pair), name, pairs.len() + 1) == (if pair.0 == name { values_named(pairs, name, pairs.len()).push(pair.1) } else { values_named(pairs, name, pairs.len()) }),
{
    assert forall|name: Seq<char>| #[trigger] last_value(pairs.push(pair), name, pairs.len() + 1) == (if pair.0 == name { Some(pair.1) } else { last_value(pairs, name, pairs.len()) }) by {
        lemma_same_prefix(pairs, pair, name, name, pairs.len());
    }
    assert forall|a: Seq<char>, b: Seq<char>| #[trigger] last_of_two(pairs.push(pair), a, b, pairs.len() + 1) == (if pair.0 == a || pair.0 == b { Some(pair.1) } else { last_of_two(pairs, a, b, pairs.len()) }) by {
        lemma_same_prefix(pairs, pair, a, b, pairs.len());
    }
    assert forall|name: Seq<char>| #[trigger] values_named(pairs.push(pair), name, pairs.len() + 1) == (if pair.0 == name { values_named(pairs, name, pairs.len()).push(pair.1) } else { values_named(pairs, name, pairs.len()) }) by {
        lemma_same_prefix(pairs, pair, name, name, pairs.len());
    }
}

proof fn lemma_same_prefix(pairs: Seq<(Seq<char>, Seq<char>)>, pair: (Seq<char>, Seq<char>), a: Seq<char>, b: Seq<char>, n: nat)
    requires
        n <= pairs.len(),
    ensures
        last_value(pairs.push(pair), a, n) == last_value(pairs, a, n),
        last_of_two(pairs.push(pair), a, b, n) == last_of_two(pairs, a, b, n),
        values_named(pairs.push(pair), a, n) == values_named(pairs, a, n),
    decreases n,
{
    if n > 0 {
        lemma_same_prefix(pairs, pair, a, b, (n - 1) as nat);
        assert(pairs.push(pair)[n - 1] == pairs[n - 1]);
    }
}

} // verus!

