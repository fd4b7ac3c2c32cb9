//! What a decision-log reader asks for, read off its query string.

use vstd::prelude::*;

use crate::query::{percent_decode, spec_pieces, spec_split_pair, split_pair, split_pieces};
use crate::text::parsed_u64;

verus! {

/// The read a query string asks for.
#[derive(Debug, Clone)]
pub struct Asked {
    pub from: Option<String>,
    pub until: Option<String>,
    pub limit_records: Option<usize>,
    pub limit_bytes: Option<u64>,
    pub proof: bool,
}

/// The view of a read asked for.
pub open spec fn asked_view(asked: Asked) -> (Option<Seq<char>>, Option<Seq<char>>, Option<usize>, Option<u64>, bool) {
    (
        match asked.from { Some(f) => Some(f@), None => None },
        match asked.until { Some(u) => Some(u@), None => None },
        asked.limit_records,
        asked.limit_bytes,
        asked.proof,
    )
}

/// What std's `str::parse::<usize>` answers.
pub open spec fn parsed_usize(s: Seq<char>) -> Option<usize> {
    match parsed_u64(s) {
        Some(v) => if v <= usize::MAX { Some(v as usize) } else { None },
        None => None,
    }
}

/// Whether a query value asks for a proof: `true`, `1` or `yes`.
pub open spec fn affirms(value: Seq<char>) -> bool {
    value == "true"@ || value == "1"@ || value == "yes"@
}

/// The read the first `n` decoded pairs ask for. `limit` is the name this
/// API shipped with and still answers to; `limit_records`, the shared
/// contract's name, wins where both are given.
pub open spec fn asked_after(pairs: Seq<(Seq<char>, Seq<char>)>, n: nat)
    -> (Option<Seq<char>>, Option<Seq<char>>, Option<usize>, Option<u64>, bool)
    decreases n,
{
    if n == 0 || n > pairs.len() {
        (None, None, None, None, false)
    } else {
        let (from, until, records, bytes, proof) = asked_after(pairs, (n - 1) as nat);
        let (name, value) = pairs[n - 1];
        if name == "from"@ {
            (Some(value), until, records, bytes, proof)
        } else if name == "until"@ {
            (from, Some(value), records, bytes, proof)
        } else if name == "limit"@ {
            (from, until, if records is Some { records } else { parsed_usize(value) }, bytes, proof)
        } else if name == "limit_records"@ {
            (from, until, parsed_usize(value), bytes, proof)
        } else if name == "limit_bytes"@ {
            (from, until, records, parsed_u64(value), proof)
        } else if name == "proof"@ {
            (from, until, records, bytes, affirms(value))
        } else {
            (from, until, records, bytes, proof)
        }
    }
}

/// The `name=value` pieces of a query, in order, with their values decoded.
pub open spec fn decoded_pairs(pieces: Seq<Seq<char>>, decode: spec_fn(Seq<char>) -> Seq<char>, n: nat) -> Seq<(Seq<char>, Seq<char>)>
    decreases n,
{
    if n == 0 || n > pieces.len() {
        Seq::empty()
    } else {
        match spec_split_pair(pieces[n - 1]) {
            Some((name, value)) => decoded_pairs(pieces, decode, (n - 1) as nat).push((name, decode(value))),
            None => decoded_pairs(pieces, decode, (n - 1) as nat),
        }
    }
}

/// How one query value decodes.
pub open spec fn decoded(value: Seq<char>) -> Seq<char> {
    crate::query::lossy_text(crate::query::unescaped(vstd::utf8::encode_utf8(crate::query::plus_as_space(value))))
}

/// The pairs a query names, decoded, in the order it names them.
pub open spec fn query_pairs(query: Option<&str>) -> Seq<(Seq<char>, Seq<char>)> {
    let text = match query { Some(q) => q@, None => Seq::empty() };
    let pieces = spec_pieces(text, '&');
    decoded_pairs(pieces, |v: Seq<char>| decoded(v), pieces.len())
}

/// Reads the query string this API defines: the read it asks for, and every
/// pair it names, decoded. A parameter nobody declared is ignored.
pub fn window_of(query: Option<&str>) -> (read: (Asked, Vec<(String, String)>))
    ensures
        asked_view(read.0) == asked_after(query_pairs(query), query_pairs(query).len()),
        read.1@.len() == query_pairs(query).len(),
        forall|i: int| 0 <= i < read.1@.len() ==> (#[trigger] read.1@[i]).0@ == query_pairs(query)[i].0
            && read.1@[i].1@ == query_pairs(query)[i].1,
{
    let text: &str = match query {
        Some(q) => q,
        None => "",
    };
    proof {
        reveal_strlit("");
    }
    let pieces = split_pieces(text, '&');
    let ghost all = crate::text::views(pieces@);
    let mut asked = Asked { from: None, until: None, limit_records: None, limit_bytes: None, proof: false };
    let mut pairs: Vec<(String, String)> = Vec::new();
    let ghost decode = |v: Seq<char>| decoded(v);
    let mut i: usize = 0;
    while i < pieces.len()
        invariant
            i <= pieces.len(),
            all == crate::text::views(pieces@),
            all.len() == pieces.len(),
            all == spec_pieces(match query { Some(q) => q@, None => Seq::empty() }, '&'),
            decode == |v: Seq<char>| decoded(v),
            asked_view(asked) == asked_after(decoded_pairs(all, decode, i as nat), decoded_pairs(all, decode, i as nat).len()),
            pairs@.len() == decoded_pairs(all, decode, i as nat).len(),
            forall|k: int| 0 <= k < pairs@.len() ==> (#[trigger] pairs@[k]).0@ == decoded_pairs(all, decode, i as nat)[k].0
                && pairs@[k].1@ == decoded_pairs(all, decode, i as nat)[k].1,
        decreases pieces.len() - i,
    {
        assert(all[i as int] == pieces@[i as int]@);
        let ghost before = decoded_pairs(all, decode, i as nat);
        if let Some((name, raw)) = split_pair(pieces[i].as_str()) {
            let value = percent_decode(raw.as_str());
            let ghost after = decoded_pairs(all, decode, (i + 1) as nat);
            assert(after == before.push((name@, value@)));
            proof {
                lemma_asked_after_push(before, (name@, value@));
            }
            if crate::text::same_text(name.as_str(), "from") {
                asked.from = Some(value.clone());
            } else if crate::text::same_text(name.as_str(), "until") {
                asked.until = Some(value.clone());
            } else if crate::text::same_text(name.as_str(), "limit") {
                if asked.limit_records.is_none() {
                    asked.limit_records = parse_usize(value.as_str());
                }
            } else if crate::text::same_text(name.as_str(), "limit_records") {
                asked.limit_records = parse_usize(value.as_str());
            } else if crate::text::same_text(name.as_str(), "limit_bytes") {
                let chars = crate::text::chars_of(value.as_str());
                asked.limit_bytes = crate::text::parse_u64(chars.as_slice());
            } else if crate::text::same_text(name.as_str(), "proof") {
                asked.proof = affirmed(value.as_str());
            }
            pairs.push((name, value));
        }
        i += 1;
    }
    (asked, pairs)
}

/// Adding a pair folds it into the read asked for so far.
proof fn lemma_asked_after_push(pairs: Seq<(Seq<char>, Seq<char>)>, pair: (Seq<char>, Seq<char>))
    ensures
        asked_after(pairs.push(pair), pairs.len() + 1) == ({
            let (from, until, records, bytes, proof) = asked_after(pairs, pairs.len());
            let (name, value) = pair;
            if name == "from"@ {
                (Some(value), until, records, bytes, proof)
            } else if name == "until"@ {
                (from, Some(value), records, bytes, proof)
            } else if name == "limit"@ {
                (from, until, if records is Some { records } else { parsed_usize(value) }, bytes, proof)
            } else if name == "limit_records"@ {
                (from, until, parsed_usize(value), bytes, proof)
            } else if name == "limit_bytes"@ {
                (from, until, records, parsed_u64(value), proof)
            } else if name == "proof"@ {
                (from, until, records, bytes, affirms(value))
            } else {
                (from, until, records, bytes, proof)
            }
        }),
{
    lemma_asked_after_prefix(pairs, pair, pairs.len());
}

proof fn lemma_asked_after_prefix(pairs: Seq<(Seq<char>, Seq<char>)>, pair: (Seq<char>, Seq<char>), n: nat)
    requires
        n <= pairs.len(),
    ensures
        asked_after(pairs.push(pair), n) == asked_after(pairs, n),
    decreases n,
{
    if n > 0 {
        lemma_asked_after_prefix(pairs, pair, (n - 1) as nat);
        assert(pairs.push(pair)[n - 1] == pairs[n - 1]);
    }
}

/// Reads a `usize` the way std's `str::parse` does.
fn parse_usize(text: &str) -> (value: Option<usize>)
    ensures
        value == parsed_usize(text@),
{
    let chars = crate::text::chars_of(text);
    match crate::text::parse_u64(chars.as_slice()) {
        Some(v) => if v <= usize::MAX as u64 { Some(v as usize) } else { None },
        None => None,
    }
}

/// Whether a query value asks for a proof.
fn affirmed(value: &str) -> (yes: bool)
    ensures
        yes == affirms(value@),
{
    crate::text::same_text(value, "true") || crate::text::same_text(value, "1") || crate::text::same_text(value, "yes")
}

} // verus!

verus! {

/// How a shipped batch is answered.
#[derive(Debug, Clone, PartialEq, Eq)]
pub enum ShipAnswer {
    /// `200`: durable through `acked`, with `stored` records added by this call.
    Acknowledged { acked: u64, stored: u64 },
    /// `409`, deliberately not a fatal class: nothing is wrong with the batch,
    /// the store needs an earlier one first.
    OutOfOrder { expected_seq: u64 },
    /// The refusal, in the API's vocabulary.
    Refused(crate::api::ApiError),
}

/// Whether a refused batch is tried once more with the producers' key sets
/// re-read: only a batch no key could attribute, since a producer that
/// rotated its ring publishes a new key.
pub fn retries_with_fresh_keys(outcome: &Result<crate::decisions::ingest::Accepted, crate::decisions::ingest::Refused>) -> (retry: bool)
    ensures
        retry == (outcome matches Err(crate::decisions::ingest::Refused::Unattributable(_))),
{
    match outcome {
        Err(crate::decisions::ingest::Refused::Unattributable(_)) => true,
        _ => false,
    }
}

/// How a batch is counted: a replay stored nothing new.
pub fn batch_outcome(stored: u64) -> (label: &'static str)
    ensures
        stored == 0 ==> label@ == "replay"@,
        stored != 0 ==> label@ == "ok"@,
{
    if stored == 0 { "replay" } else { "ok" }
}

/// The answer to a shipped batch, and its HTTP status.
pub fn ship_answer(outcome: &Result<crate::decisions::ingest::Accepted, crate::decisions::ingest::Refused>) -> (answer: (u16, ShipAnswer))
    ensures
        outcome matches Ok(crate::decisions::ingest::Accepted::Durable { acked, stored })
            ==> answer == (200u16, ShipAnswer::Acknowledged { acked: *acked, stored: *stored }),
        outcome matches Ok(crate::decisions::ingest::Accepted::OutOfOrder { expected_seq })
            ==> answer == (409u16, ShipAnswer::OutOfOrder { expected_seq: *expected_seq }),
        outcome matches Err(refused) ==> (answer.1 matches ShipAnswer::Refused(e)
            && answer.0 == e.class.spec_http_status()
            && e.class == crate::decisions::ingest::spec_api_class_code(*refused).0
            && e.code@ == crate::decisions::ingest::spec_api_class_code(*refused).1
            && e.message@ == crate::decisions::ingest::refused_message(*refused)),
{
    match outcome {
        Ok(crate::decisions::ingest::Accepted::Durable { acked, stored }) => (200, ShipAnswer::Acknowledged { acked: *acked, stored: *stored }),
        Ok(crate::decisions::ingest::Accepted::OutOfOrder { expected_seq }) => (409, ShipAnswer::OutOfOrder { expected_seq: *expected_seq }),
        Err(refused) => {
            let error = crate::decisions::ingest::api_error(refused);
            (error.class.http_status(), ShipAnswer::Refused(error))
        },
    }
}

/// The scope of a deployment-wide read: one producer stream, named by `pdp`
/// and `instance`, or the refusal that asks for both.
pub fn stream_scope(pdp: Option<String>, instance: Option<String>) -> (scope: Result<crate::decisions::store::Scope, crate::api::ApiError>)
    ensures
        pdp is Some && instance is Some ==> scope == Ok::<crate::decisions::store::Scope, crate::api::ApiError>(
            crate::decisions::store::Scope::Stream { pdp_id: pdp.unwrap(), instance: instance.unwrap() }),
        !(pdp is Some && instance is Some) ==> (scope matches Err(e) && e.class == crate::api::ErrorClass::Validation
            && e.code@ == "stream_required"@),
{
    match (pdp, instance) {
        (Some(pdp_id), Some(instance)) => Ok(crate::decisions::store::Scope::Stream { pdp_id, instance }),
        _ => Err(crate::api::ApiError::new(
            crate::api::ErrorClass::Validation,
            "stream_required",
            "a deployment-wide read names one producer stream: `?pdp=<id>&instance=<id>`".to_string(),
        )),
    }
}

/// The scope of a read asked for by its fields: a producer stream where both
/// its names are given, else a tenant where both of its are, else none.
pub fn scope_of_fields(pdp: &str, instance: &str, zone: &str, ledger: &str) -> (scope: Option<crate::decisions::store::Scope>)
    ensures
        pdp@.len() > 0 && instance@.len() > 0 ==> (scope matches Some(crate::decisions::store::Scope::Stream { pdp_id, instance: i })
            && pdp_id@ == pdp@ && i@ == instance@),
        !(pdp@.len() > 0 && instance@.len() > 0) && zone@.len() > 0 && ledger@.len() > 0
            ==> (scope matches Some(crate::decisions::store::Scope::Tenant { zone: z, ledger: l }) && z@ == zone@ && l@ == ledger@),
        !(pdp@.len() > 0 && instance@.len() > 0) && !(zone@.len() > 0 && ledger@.len() > 0) ==> scope is None,
{
    let filled = |t: &str| -> (b: bool)
        ensures b == (t@.len() > 0)
    { crate::text::chars_of(t).len() > 0 };
    if filled(pdp) && filled(instance) {
        Some(crate::decisions::store::Scope::Stream { pdp_id: pdp.to_string(), instance: instance.to_string() })
    } else if filled(zone) && filled(ledger) {
        Some(crate::decisions::store::Scope::Tenant { zone: zone.to_string(), ledger: ledger.to_string() })
    } else {
        None
    }
}

/// How many records a read asks for: `limit_records` where the caller states
/// it, the older `limit` where it does not; zero where neither fits a `usize`.
pub fn requested_limit(limit_records: u64, limit: u64) -> (records: usize)
    ensures
        records == (if limit_records > 0 {
            if limit_records <= usize::MAX { limit_records as usize } else { 0 }
        } else {
            if limit <= usize::MAX { limit as usize } else { 0 }
        }),
{
    let asked = if limit_records > 0 { limit_records } else { limit };
    if asked <= usize::MAX as u64 { asked as usize } else { 0 }
}

/// The HTTP status a refused read is answered with: an offset that fell
/// behind retention is `410`, answered with where to resume; any other
/// offset problem is a validation refusal.
pub fn read_refusal_status(lapsed: bool) -> (status: u16)
    ensures
        lapsed ==> status == 410,
        !lapsed ==> status == 422,
{
    if lapsed { 410 } else { 422 }
}

} // verus!
