//! Accepting a batch of events: what each answer means.
//!
//! ```text
//! <= acked entirely       ok, acked unchanged     a replay: deduplicated
//! acked + 1               ok, acked moves         the ordinary case
//! > acked + 1             out_of_order            nothing stored; resend from expected_seq
//! same seq, other bytes   fork                    the stream is closed permanently
//! ```
//!
//! Checked before anything is durable, in this order: the key is bound to the
//! producer and scope the batch declares, the producer class is accepted, the
//! stream is open, the envelope is well formed, the records chain over exactly
//! what the envelope attests, and every record is of a type this build accepts
//! with a payload that agrees with it.

use std::collections::BTreeMap;

use vstd::prelude::*;

use crate::api::{ApiError, ErrorClass};
use crate::events::store::StreamState;
use crate::text::{comma_joined, decimal, push_decimal, push_joined, push_str, views};

verus! {

/// The producer class of a data plane, the one class this release accepts.
pub const PRODUCER_CLASS_DATA_PLANE: &'static str = "data-plane";

/// One producer, as the stream names it.
#[derive(Debug, Clone, PartialEq, Eq)]
pub struct Producer {
    pub class: String,
    pub id: String,
    pub instance: String,
}

/// One producer stream: a producer writing into one tenant's ledger.
#[derive(Debug, Clone, PartialEq, Eq)]
pub struct Stream {
    pub producer: Producer,
    pub zone: String,
    pub ledger: String,
}

impl Stream {
    pub open spec fn same(self, other: Stream) -> bool {
        &&& self.producer.class@ == other.producer.class@
        &&& self.producer.id@ == other.producer.id@
        &&& self.producer.instance@ == other.producer.instance@
        &&& self.zone@ == other.zone@
        &&& self.ledger@ == other.ledger@
    }

    /// Whether two streams are the same stream.
    pub fn same_as(&self, other: &Stream) -> (same: bool)
        ensures
            same == self.same(*other),
    {
        self.producer.class == other.producer.class && self.producer.id == other.producer.id
            && self.producer.instance == other.producer.instance && self.zone == other.zone
            && self.ledger == other.ledger
    }
}

/// What the signed envelope of a batch attests.
#[derive(Debug, Clone, PartialEq, Eq)]
pub struct Envelope {
    pub stream: Stream,
    pub first_seq: u64,
    pub last_seq: u64,
    pub count: u64,
    pub head: String,
    pub previous_head: String,
    pub merkle_root: String,
}

/// What verifying the records as a chain concluded.
#[derive(Debug, Clone, PartialEq, Eq)]
pub struct Chain {
    pub stream: Stream,
    pub first_seq: u64,
    pub last_seq: u64,
    pub head: String,
}

/// The redundant fields a record states beside its typed payload.
#[derive(Debug, Clone, PartialEq, Eq)]
pub struct Stated {
    pub event_type: String,
    pub event_id: String,
    pub kind: String,
    pub occurred_at: String,
}

/// What the typed payload of a record says about the same three fields.
#[derive(Debug, Clone, PartialEq, Eq)]
pub struct Occurrence {
    pub event_id: String,
    pub kind: String,
    pub occurred_at: String,
}

/// Why a payload could not be read as its type's occurrence.
#[derive(Debug, Clone, PartialEq, Eq)]
pub enum OccurrenceError {
    /// The payload is not the type's shape.
    Malformed(String),
    /// The payload has the shape and does not read as an occurrence.
    Unreadable(String),
}

/// The facts about one shipped event record that acceptance reads.
#[derive(Debug, PartialEq, Eq)]
pub struct EventFacts {
    /// Its sequence (zero when it states none).
    pub seq: u64,
    /// The digest it names as its predecessor (empty when it names none).
    pub prev: String,
    /// Its own digest, or why it has none.
    pub digest: Result<String, String>,
    /// The record's stated fields, or why it is not a valid record.
    pub stated: Result<Stated, String>,
    /// Its payload read as a typed occurrence.
    pub occurrence: Result<Occurrence, OccurrenceError>,
}

/// What accepting a batch concluded.
#[derive(Debug, Clone, PartialEq, Eq)]
pub enum Accepted {
    /// Stored (or already held), and durable through `acked`.
    Durable { acked: u64, stored: u64 },
    /// The shipper ran ahead: nothing was stored.
    OutOfOrder { expected_seq: u64 },
}

/// Why a batch was refused.
#[derive(Debug, Clone, PartialEq, Eq)]
pub enum Refused {
    /// The signature does not verify, or names a key nobody published.
    Unattributable(String),
    /// The records are not a chain, or do not match what the envelope attests.
    Unverifiable(String),
    /// A producer class or event type this build does not accept.
    Unregistered(String),
    /// A record conflicts with one already stored. The stream is now closed.
    Fork { seq: u64 },
    /// The stream was closed permanently and accepts nothing more.
    Closed(String),
    /// The store could not accept right now. A shipper retries this.
    Unavailable(String),
}

/// The sentence a refusal is reported with.
pub open spec fn refused_message(refused: Refused) -> Seq<char> {
    match refused {
        Refused::Unattributable(detail) => detail@,
        Refused::Unverifiable(detail) => detail@,
        Refused::Unregistered(detail) => detail@,
        Refused::Unavailable(detail) => detail@,
        Refused::Fork { seq } =>
            "a different record is already stored at sequence "@ + decimal(seq as nat)
                + ": this stream has forked, so it is closed permanently and what it holds is kept as evidence"@,
        Refused::Closed(reason) =>
            "this stream was closed permanently ("@ + reason@
                + ") and accepts nothing further: open a new incarnation"@,
    }
}

/// The code a caller switches on.
pub open spec fn spec_code(refused: Refused) -> Seq<char> {
    match refused {
        Refused::Unattributable(_) => "batch_unattributable"@,
        Refused::Unverifiable(_) => "batch_unverifiable"@,
        Refused::Unregistered(_) => "batch_unregistered"@,
        Refused::Fork { .. } => "stream_forked"@,
        Refused::Closed(_) => "stream_closed"@,
        Refused::Unavailable(_) => "store_unavailable"@,
    }
}

/// The class a refusal is answered with.
pub open spec fn spec_class(refused: Refused) -> ErrorClass {
    match refused {
        Refused::Unattributable(_) | Refused::Unverifiable(_) | Refused::Unregistered(_) => ErrorClass::Validation,
        Refused::Fork { .. } | Refused::Closed(_) => ErrorClass::Conflict,
        Refused::Unavailable(_) => ErrorClass::Unavailable,
    }
}

impl Refused {
    /// The code a caller switches on.
    pub fn code(&self) -> (code: &'static str)
        ensures
            code@ == spec_code(*self),
    {
        match self {
            Refused::Unattributable(_) => "batch_unattributable",
            Refused::Unverifiable(_) => "batch_unverifiable",
            Refused::Unregistered(_) => "batch_unregistered",
            Refused::Fork { .. } => "stream_forked",
            Refused::Closed(_) => "stream_closed",
            Refused::Unavailable(_) => "store_unavailable",
        }
    }

    /// The sentence this refusal is reported with.
    pub fn message(&self) -> (text: String)
        ensures
            text@ == refused_message(*self),
    {
        match self {
            Refused::Unattributable(detail) => detail.clone(),
            Refused::Unverifiable(detail) => detail.clone(),
            Refused::Unregistered(detail) => detail.clone(),
            Refused::Unavailable(detail) => detail.clone(),
            Refused::Fork { seq } => {
                let mut text = String::new();
                push_str(&mut text, "a different record is already stored at sequence ");
                push_decimal(&mut text, *seq);
                push_str(
                    &mut text,
                    ": this stream has forked, so it is closed permanently and what it holds is kept as evidence",
                );
                text
            },
            Refused::Closed(reason) => {
                let mut text = String::new();
                push_str(&mut text, "this stream was closed permanently (");
                push_str(&mut text, reason.as_str());
                push_str(&mut text, ") and accepts nothing further: open a new incarnation");
                text
            },
        }
    }
}

/// The refusal, in the taxonomy every surface shares.
pub fn api_error(refused: &Refused) -> (error: ApiError)
    ensures
        error.class == spec_class(*refused),
        error.code@ == spec_code(*refused),
        error.message@ == refused_message(*refused),
{
    let class = match refused {
        Refused::Unattributable(_) | Refused::Unverifiable(_) | Refused::Unregistered(_) => ErrorClass::Validation,
        Refused::Fork { .. } | Refused::Closed(_) => ErrorClass::Conflict,
        Refused::Unavailable(_) => ErrorClass::Unavailable,
    };
    ApiError::new(class, refused.code(), refused.message())
}

} // verus!

verus! {

/// One trusted key that matched a batch's key id: the producer and tenant
/// scope it is bound to, and the stream the batch's envelope names if the
/// signature verifies under it.
#[derive(Debug, Clone, PartialEq, Eq)]
pub struct Candidate {
    pub kid: String,
    pub producer: String,
    pub zone: String,
    pub ledger: String,
    pub verified: Option<Stream>,
}

/// Whether a key bound to `producer` in `zone`/`ledger` (`*` for any) may attest `stream`.
pub open spec fn spec_authorizes(producer: Seq<char>, zone: Seq<char>, ledger: Seq<char>, stream: Stream) -> bool {
    &&& producer == stream.producer.id@
    &&& (zone == "*"@ || zone == stream.zone@)
    &&& (ledger == "*"@ || ledger == stream.ledger@)
}

/// Whether a key bound to `producer` in `zone`/`ledger` may attest `stream`.
pub fn authorizes(producer: &String, zone: &String, ledger: &String, stream: &Stream) -> (allowed: bool)
    ensures
        allowed == spec_authorizes(producer@, zone@, ledger@, *stream),
{
    let any = String::from_str("*");
    proof {
        reveal_strlit("*");
    }
    *producer == stream.producer.id && (*zone == any || *zone == stream.zone) && (*ledger == any
        || *ledger == stream.ledger)
}

/// Whether candidate `i` attributes the batch.
pub open spec fn attributes(kid: Seq<char>, c: Candidate) -> bool {
    c.kid@ == kid && c.verified is Some && spec_authorizes(c.producer@, c.zone@, c.ledger@, c.verified->0)
}

/// Whether candidate `i` verifies the batch under a key not bound to its scope.
pub open spec fn verifies_out_of_scope(kid: Seq<char>, c: Candidate) -> bool {
    c.kid@ == kid && c.verified is Some && !spec_authorizes(c.producer@, c.zone@, c.ledger@, c.verified->0)
}

/// The refusal of a batch no candidate attributes.
pub open spec fn unattributed_message(kid: Seq<char>, candidates: Seq<Candidate>) -> Seq<char> {
    if exists|j: int| 0 <= j < candidates.len() && verifies_out_of_scope(kid, #[trigger] candidates[j]) {
        "the signature is valid, but its key is not authorized for the producer, zone and ledger declared by this batch"@
    } else {
        "no current key bound to an authorized event producer verifies key id `"@ + kid + "`"@
    }
}

/// Finds the trusted key that attributes a batch: the first one carrying the
/// batch's key id whose signature verifies and whose binding covers the stream
/// the batch declares.
pub fn attribute(kid: &str, candidates: &Vec<Candidate>) -> (found: Result<usize, Refused>)
    ensures
        match found {
            Ok(i) => i < candidates.len() && attributes(kid@, candidates@[i as int])
                && forall|j: int| 0 <= j < i ==> !attributes(kid@, #[trigger] candidates@[j]),
            Err(refused) => (forall|j: int| 0 <= j < candidates.len() ==> !attributes(kid@, #[trigger] candidates@[j]))
                && (refused matches Refused::Unattributable(m) && m@ == unattributed_message(kid@, candidates@)),
        },
{
    let wanted = String::from_str(kid);
    let mut wrong_scope = false;
    let mut i: usize = 0;
    while i < candidates.len()
        invariant
            i <= candidates.len(),
            wanted@ == kid@,
            forall|j: int| 0 <= j < i ==> !attributes(kid@, #[trigger] candidates@[j]),
            wrong_scope <==> exists|j: int| 0 <= j < i && verifies_out_of_scope(kid@, #[trigger] candidates@[j]),
        decreases candidates.len() - i,
    {
        let candidate = &candidates[i];
        if candidate.kid == wanted {
            if let Some(stream) = &candidate.verified {
                if authorizes(&candidate.producer, &candidate.zone, &candidate.ledger, stream) {
                    return Ok(i);
                }
                wrong_scope = true;
                assert(verifies_out_of_scope(kid@, candidates@[i as int]));
            }
        }
        i += 1;
    }
    if wrong_scope {
        Err(Refused::Unattributable(
            "the signature is valid, but its key is not authorized for the producer, zone and ledger declared by this batch".to_owned(),
        ))
    } else {
        let mut text = String::new();
        push_str(&mut text, "no current key bound to an authorized event producer verifies key id `");
        push_str(&mut text, kid);
        push_str(&mut text, "`");
        Err(Refused::Unattributable(text))
    }
}

/// The producer classes this release accepts.
pub open spec fn accepted_classes() -> Seq<Seq<char>> {
    seq![PRODUCER_CLASS_DATA_PLANE@]
}

/// Refuses a producer class this release does not accept.
pub fn accept_class(class: &String) -> (accepted: Result<(), Refused>)
    ensures
        accepted_classes().contains(class@) ==> accepted is Ok,
        !accepted_classes().contains(class@) ==> (accepted matches Err(Refused::Unregistered(m))
            && m@ == "`"@ + class@ + "` is not a producer class this release accepts; it accepts "@
                + comma_joined(accepted_classes())),
{
    let known = String::from_str(PRODUCER_CLASS_DATA_PLANE);
    if *class == known {
        assert(accepted_classes()[0] == class@);
        return Ok(());
    }
    assert(!accepted_classes().contains(class@)) by {
        assert(accepted_classes().len() == 1);
    }
    let mut text = String::new();
    push_str(&mut text, "`");
    push_str(&mut text, class.as_str());
    push_str(&mut text, "` is not a producer class this release accepts; it accepts ");
    push_str(&mut text, PRODUCER_CLASS_DATA_PLANE);
    assert(comma_joined(accepted_classes()) == PRODUCER_CLASS_DATA_PLANE@);
    Err(Refused::Unregistered(text))
}

} // verus!

verus! {

/// Why one record is not a record this build stores, if it is not: it must be
/// a valid record, of a type this store accepts, of the type this build reads
/// payloads of, and its stated fields must agree with its typed payload.
pub open spec fn record_failure(facts: EventFacts, accepted: Seq<Seq<char>>, payload_type: Seq<char>) -> Option<Refused> {
    match facts.stated {
        Err(detail) => Some(Refused::Unverifiable(detail)),
        Ok(stated) => if !accepted.contains(stated.event_type@) {
            Some(Refused::Unregistered(arbitrary()))
        } else if stated.event_type@ != payload_type {
            Some(Refused::Unregistered(arbitrary()))
        } else {
            match facts.occurrence {
                Err(OccurrenceError::Malformed(_)) => Some(Refused::Unverifiable(arbitrary())),
                Err(OccurrenceError::Unreadable(detail)) => Some(Refused::Unverifiable(detail)),
                Ok(occurrence) => if stated.event_id@ != occurrence.event_id@ || stated.kind@ != occurrence.kind@
                    || stated.occurred_at@ != occurrence.occurred_at@ {
                    Some(Refused::Unverifiable(arbitrary()))
                } else {
                    None
                },
            }
        },
    }
}

/// The sentence a record refusal carries.
pub open spec fn record_failure_message(facts: EventFacts, accepted: Seq<Seq<char>>, payload_type: Seq<char>) -> Seq<char> {
    match facts.stated {
        Err(detail) => detail@,
        Ok(stated) => if !accepted.contains(stated.event_type@) {
            "`"@ + stated.event_type@ + "` is not an event type this store accepts; it accepts "@ + comma_joined(accepted)
        } else if stated.event_type@ != payload_type {
            "this build has no payload validator for `"@ + stated.event_type@ + "`"@
        } else {
            match facts.occurrence {
                Err(OccurrenceError::Malformed(detail)) =>
                    "the `"@ + stated.event_type@ + "` payload is malformed: "@ + detail@,
                Err(OccurrenceError::Unreadable(detail)) => detail@,
                Ok(occurrence) => if stated.event_id@ != occurrence.event_id@ {
                    mismatch_message("event_id"@, stated.event_id@, occurrence.event_id@)
                } else if stated.kind@ != occurrence.kind@ {
                    mismatch_message("kind"@, stated.kind@, occurrence.kind@)
                } else {
                    mismatch_message("occurred_at"@, stated.occurred_at@, occurrence.occurred_at@)
                },
            }
        },
    }
}

/// The sentence of a stated field that disagrees with the typed payload.
pub open spec fn mismatch_message(name: Seq<char>, stated: Seq<char>, actual: Seq<char>) -> Seq<char> {
    "the record states `"@ + name + "` as `"@ + stated + "` and its typed occurrence states `"@ + actual + "`"@
}

fn push_mismatch(text: &mut String, name: &str, stated: &String, actual: &String)
    ensures
        final(text)@ == old(text)@ + mismatch_message(name@, stated@, actual@),
{
    push_str(text, "the record states `");
    push_str(text, name);
    push_str(text, "` as `");
    push_str(text, stated.as_str());
    push_str(text, "` and its typed occurrence states `");
    push_str(text, actual.as_str());
    push_str(text, "`");
}

/// Checks one record: a valid record of an accepted type whose stated fields
/// agree with its typed payload.
pub fn check_record(facts: &EventFacts, accepted_types: &Vec<String>, payload_type: &str) -> (checked: Result<(), Refused>)
    ensures
        match record_failure(*facts, views(accepted_types@), payload_type@) {
            None => checked is Ok,
            Some(r) => checked is Err && (checked matches Err(e) && (e is Unverifiable <==> r is Unverifiable)
                && (e is Unregistered <==> r is Unregistered) && refused_message(e) == record_failure_message(*facts, views(accepted_types@), payload_type@)),
        },
{
    let stated = match &facts.stated {
        Err(detail) => return Err(Refused::Unverifiable(detail.clone())),
        Ok(stated) => stated,
    };
    let mut known = false;
    let mut i: usize = 0;
    while i < accepted_types.len()
        invariant
            i <= accepted_types.len(),
            known <==> exists|j: int| 0 <= j < i && #[trigger] views(accepted_types@)[j] == stated.event_type@,
        decreases accepted_types.len() - i,
    {
        assert(views(accepted_types@)[i as int] == accepted_types@[i as int]@);
        if accepted_types[i] == stated.event_type {
            known = true;
        }
        i += 1;
    }
    if !known {
        let mut text = String::new();
        push_str(&mut text, "`");
        push_str(&mut text, stated.event_type.as_str());
        push_str(&mut text, "` is not an event type this store accepts; it accepts ");
        push_joined(&mut text, accepted_types);
        return Err(Refused::Unregistered(text));
    }
    assert(views(accepted_types@).contains(stated.event_type@));
    let readable = String::from_str(payload_type);
    if stated.event_type != readable {
        let mut text = String::new();
        push_str(&mut text, "this build has no payload validator for `");
        push_str(&mut text, stated.event_type.as_str());
        push_str(&mut text, "`");
        return Err(Refused::Unregistered(text));
    }
    let occurrence = match &facts.occurrence {
        Err(OccurrenceError::Malformed(detail)) => {
            let mut text = String::new();
            push_str(&mut text, "the `");
            push_str(&mut text, stated.event_type.as_str());
            push_str(&mut text, "` payload is malformed: ");
            push_str(&mut text, detail.as_str());
            return Err(Refused::Unverifiable(text));
        },
        Err(OccurrenceError::Unreadable(detail)) => return Err(Refused::Unverifiable(detail.clone())),
        Ok(occurrence) => occurrence,
    };
    if stated.event_id != occurrence.event_id {
        let mut text = String::new();
        push_mismatch(&mut text, "event_id", &stated.event_id, &occurrence.event_id);
        return Err(Refused::Unverifiable(text));
    }
    if stated.kind != occurrence.kind {
        let mut text = String::new();
        push_mismatch(&mut text, "kind", &stated.kind, &occurrence.kind);
        return Err(Refused::Unverifiable(text));
    }
    if stated.occurred_at != occurrence.occurred_at {
        let mut text = String::new();
        push_mismatch(&mut text, "occurred_at", &stated.occurred_at, &occurrence.occurred_at);
        return Err(Refused::Unverifiable(text));
    }
    Ok(())
}

} // verus!

verus! {

/// Why the batch as a whole is not what its envelope attests, if it is not.
pub open spec fn header_failure(
    shape: Result<(), String>,
    records: nat,
    envelope: Envelope,
    verified: Result<Chain, String>,
    merkle_root: Option<String>,
) -> Option<Seq<char>> {
    match shape {
        Err(detail) => Some(detail@),
        Ok(_) => match verified {
            Err(detail) => Some(detail@),
            Ok(chain) => if chain.first_seq != envelope.first_seq || chain.last_seq != envelope.last_seq {
                Some(
                    "the envelope attests sequences "@ + decimal(envelope.first_seq as nat) + "..="@
                        + decimal(envelope.last_seq as nat) + " and the records run "@
                        + decimal(chain.first_seq as nat) + "..="@ + decimal(chain.last_seq as nat),
                )
            } else if chain.head@ != envelope.head@ {
                Some("the envelope's head is not the digest of its last record"@)
            } else if records != envelope.count {
                Some(
                    "the envelope attests "@ + decimal(envelope.count as nat) + " records and carries "@
                        + decimal(records),
                )
            } else if !(merkle_root matches Some(root) && root@ == envelope.merkle_root@) {
                Some("the envelope's Merkle root is not the root of the records it carries"@)
            } else if !chain.stream.same(envelope.stream) {
                Some("the records belong to a different stream than the envelope names"@)
            } else {
                None
            },
        },
    }
}

/// The first of the first `n` records that is refused, if any.
pub open spec fn first_refused_record(facts: Seq<EventFacts>, accepted: Seq<Seq<char>>, payload_type: Seq<char>, n: nat) -> Option<int>
    decreases n,
{
    if n == 0 {
        None
    } else {
        match first_refused_record(facts, accepted, payload_type, (n - 1) as nat) {
            Some(i) => Some(i),
            None => if record_failure(facts[n - 1], accepted, payload_type) is Some { Some(n - 1) } else { None },
        }
    }
}

/// The first refused record is refused, and every record before it is not.
pub proof fn lemma_first_refused_record(facts: Seq<EventFacts>, accepted: Seq<Seq<char>>, payload_type: Seq<char>, n: nat)
    ensures
        match first_refused_record(facts, accepted, payload_type, n) {
            Some(i) => 0 <= i < n && record_failure(facts[i], accepted, payload_type) is Some
                && forall|j: int| 0 <= j < i ==> record_failure(#[trigger] facts[j], accepted, payload_type) is None,
            None => forall|j: int| 0 <= j < n ==> record_failure(#[trigger] facts[j], accepted, payload_type) is None,
        },
    decreases n,
{
    if n > 0 {
        lemma_first_refused_record(facts, accepted, payload_type, (n - 1) as nat);
    }
}

/// Everything a batch must be before anything is written: a well-formed
/// envelope (`shape`), records that chain (`verified`) over exactly the
/// attested sequences, head, count, Merkle root (`merkle_root`, the root of
/// their digests) and stream, and every record accepted by [`check_record`].
pub fn check(
    shape: &Result<(), String>,
    facts: &Vec<EventFacts>,
    envelope: &Envelope,
    verified: &Result<Chain, String>,
    merkle_root: &Option<String>,
    accepted_types: &Vec<String>,
    payload_type: &str,
) -> (checked: Result<(), Refused>)
    ensures
        match header_failure(*shape, facts.len() as nat, *envelope, *verified, *merkle_root) {
            Some(detail) => checked matches Err(Refused::Unverifiable(d)) && d@ == detail,
            None => match first_refused_record(facts@, views(accepted_types@), payload_type@, facts.len() as nat) {
                None => checked is Ok,
                Some(i) => checked matches Err(e) && (e is Unverifiable || e is Unregistered)
                    && refused_message(e) == record_failure_message(facts@[i], views(accepted_types@), payload_type@)
                    && (e is Unverifiable <==> record_failure(facts@[i], views(accepted_types@), payload_type@) matches Some(Refused::Unverifiable(_))),
            },
        },
{
    if let Err(detail) = shape {
        return Err(Refused::Unverifiable(detail.clone()));
    }
    let chain = match verified {
        Err(detail) => return Err(Refused::Unverifiable(detail.clone())),
        Ok(chain) => chain,
    };
    if chain.first_seq != envelope.first_seq || chain.last_seq != envelope.last_seq {
        let mut text = String::new();
        push_str(&mut text, "the envelope attests sequences ");
        push_decimal(&mut text, envelope.first_seq);
        push_str(&mut text, "..=");
        push_decimal(&mut text, envelope.last_seq);
        push_str(&mut text, " and the records run ");
        push_decimal(&mut text, chain.first_seq);
        push_str(&mut text, "..=");
        push_decimal(&mut text, chain.last_seq);
        return Err(Refused::Unverifiable(text));
    }
    if chain.head != envelope.head {
        return Err(Refused::Unverifiable("the envelope's head is not the digest of its last record".to_owned()));
    }
    if facts.len() as u64 != envelope.count {
        let mut text = String::new();
        push_str(&mut text, "the envelope attests ");
        push_decimal(&mut text, envelope.count);
        push_str(&mut text, " records and carries ");
        push_decimal(&mut text, facts.len() as u64);
        return Err(Refused::Unverifiable(text));
    }
    let rooted = match merkle_root {
        Some(root) => *root == envelope.merkle_root,
        None => false,
    };
    if !rooted {
        return Err(Refused::Unverifiable(
            "the envelope's Merkle root is not the root of the records it carries".to_owned(),
        ));
    }
    if !chain.stream.same_as(&envelope.stream) {
        return Err(Refused::Unverifiable(
            "the records belong to a different stream than the envelope names".to_owned(),
        ));
    }
    let mut i: usize = 0;
    while i < facts.len()
        invariant
            i <= facts.len(),
            first_refused_record(facts@, views(accepted_types@), payload_type@, i as nat) is None,
            header_failure(*shape, facts.len() as nat, *envelope, *verified, *merkle_root) is None,
        decreases facts.len() - i,
    {
        let checked = check_record(&facts[i], accepted_types, payload_type);
        if checked.is_err() {
            proof {
                assert(record_failure(facts@[i as int], views(accepted_types@), payload_type@) is Some);
                assert(first_refused_record(facts@, views(accepted_types@), payload_type@, (i + 1) as nat) == Some(i as int));
                lemma_first_refused_record_stops(facts@, views(accepted_types@), payload_type@, (i + 1) as nat, facts.len() as nat);
            }
            return checked;
        }
        i += 1;
    }
    Ok(())
}

/// Once a record is refused, looking further changes nothing.
pub proof fn lemma_first_refused_record_stops(facts: Seq<EventFacts>, accepted: Seq<Seq<char>>, payload_type: Seq<char>, n: nat, m: nat)
    requires
        n <= m,
        first_refused_record(facts, accepted, payload_type, n) is Some,
    ensures
        first_refused_record(facts, accepted, payload_type, m) == first_refused_record(facts, accepted, payload_type, n),
    decreases m - n,
{
    if n < m {
        lemma_first_refused_record_stops(facts, accepted, payload_type, n, (m - 1) as nat);
    }
}

/// Why a batch does not continue the stream this store holds, if it does not.
pub open spec fn continues_failure(envelope: Envelope, facts: Seq<EventFacts>, state: StreamState) -> Option<Seq<char>> {
    if envelope.previous_head@ != state.head@ {
        Some("this batch continues from `"@ + envelope.previous_head@ + "` and this stream stands at `"@ + state.head@ + "`"@)
    } else if facts.len() == 0 {
        Some("an empty batch"@)
    } else if facts[0].prev@ != state.head@ {
        Some("the first record names `"@ + facts[0].prev@ + "` as its predecessor and this stream stands at `"@ + state.head@ + "`"@)
    } else {
        None
    }
}

/// Refuses a batch that does not continue the stream this store already holds.
pub fn continues(envelope: &Envelope, facts: &Vec<EventFacts>, state: &StreamState) -> (joined: Result<(), Refused>)
    ensures
        match continues_failure(*envelope, facts@, *state) {
            None => joined is Ok,
            Some(detail) => joined matches Err(Refused::Unverifiable(d)) && d@ == detail,
        },
{
    if envelope.previous_head != state.head {
        let mut text = String::new();
        push_str(&mut text, "this batch continues from `");
        push_str(&mut text, envelope.previous_head.as_str());
        push_str(&mut text, "` and this stream stands at `");
        push_str(&mut text, state.head.as_str());
        push_str(&mut text, "`");
        return Err(Refused::Unverifiable(text));
    }
    if facts.len() == 0 {
        return Err(Refused::Unverifiable("an empty batch".to_owned()));
    }
    if facts[0].prev != state.head {
        let mut text = String::new();
        push_str(&mut text, "the first record names `");
        push_str(&mut text, facts[0].prev.as_str());
        push_str(&mut text, "` as its predecessor and this stream stands at `");
        push_str(&mut text, state.head.as_str());
        push_str(&mut text, "`");
        return Err(Refused::Unverifiable(text));
    }
    Ok(())
}

/// Where a batch that passed its checks stands against the stream.
#[derive(Debug, Clone, Copy, PartialEq, Eq)]
pub enum Admission {
    /// Entirely at or below the acknowledged point: checked against what is held, nothing stored.
    Replay,
    /// Starts past the next expected sequence: nothing stored.
    Ahead { expected_seq: u64 },
    /// Moves the stream forward.
    Advance,
}

/// What a batch means for its stream once the stream's state is read: closed,
/// refused by its checks, a replay, ahead, or an advance that must continue the head.
pub open spec fn spec_admission(state: StreamState, envelope: Envelope, checked: Result<(), Refused>, facts: Seq<EventFacts>) -> Result<Admission, Refused> {
    if state.closed is Some {
        Err(Refused::Closed(state.closed->0))
    } else if checked is Err {
        Err(checked->Err_0)
    } else if envelope.last_seq <= state.acked {
        Ok(Admission::Replay)
    } else if envelope.first_seq > state.acked + 1 {
        Ok(Admission::Ahead { expected_seq: (state.acked + 1) as u64 })
    } else if envelope.first_seq == state.acked + 1 && continues_failure(envelope, facts, state) is Some {
        Err(Refused::Unverifiable(arbitrary()))
    } else {
        Ok(Admission::Advance)
    }
}

/// Decides what a batch means for its stream; `checked` is what [`check`] concluded.
pub fn admission(state: &StreamState, envelope: &Envelope, checked: Result<(), Refused>, facts: &Vec<EventFacts>) -> (admitted: Result<Admission, Refused>)
    ensures
        state.closed matches Some(reason) ==> (admitted matches Err(Refused::Closed(r)) && r@ == reason@),
        state.closed is None ==> (checked matches Err(c) ==> admitted == Err::<Admission, Refused>(c)),
        (state.closed is None && checked is Ok) ==> match spec_admission(*state, *envelope, checked, facts@) {
            Ok(a) => admitted == Ok::<Admission, Refused>(a),
            Err(_) => admitted matches Err(Refused::Unverifiable(d)) && Some(d@) == continues_failure(*envelope, facts@, *state),
        },
{
    if let Some(reason) = &state.closed {
        return Err(Refused::Closed(reason.clone()));
    }
    if let Err(refused) = checked {
        return Err(refused);
    }
    if envelope.last_seq <= state.acked {
        return Ok(Admission::Replay);
    }
    if envelope.first_seq > state.acked + 1 {
        return Ok(Admission::Ahead { expected_seq: state.acked + 1 });
    }
    if envelope.first_seq == state.acked + 1 {
        continues(envelope, facts, state)?;
    }
    Ok(Admission::Advance)
}

} // verus!

verus! {

/// What comparing one resent record with what is held concludes: a sequence at
/// or below the acknowledgement that is not held means the store's files
/// disagree with its own state, a record without a digest is unverifiable, and
/// a different digest is a fork.
pub open spec fn spec_same_or_fork(held: Map<u64, String>, digest: Result<String, String>, seq: u64) -> Result<(), Refused> {
    if !held.contains_key(seq) {
        Err(Refused::Unavailable(arbitrary()))
    } else {
        match digest {
            Err(detail) => Err(Refused::Unverifiable(detail)),
            Ok(theirs) => if held[seq]@ != theirs@ { Err(Refused::Fork { seq }) } else { Ok(()) },
        }
    }
}

/// The same bytes as what is stored, or a fork that closes the stream.
pub fn same_or_fork(held: &BTreeMap<u64, String>, digest: &Result<String, String>, seq: u64) -> (same: Result<(), Refused>)
    ensures
        spec_same_or_fork(held@, *digest, seq) matches Err(Refused::Unavailable(_)) ==> (same matches Err(Refused::Unavailable(m))
            && m@ == "sequence "@ + decimal(seq as nat) + " is acknowledged and absent from this store's segments"@),
        !(spec_same_or_fork(held@, *digest, seq) is Err && spec_same_or_fork(held@, *digest, seq)->Err_0 is Unavailable)
            ==> same == spec_same_or_fork(held@, *digest, seq),
{
    let stored = match held.get(&seq) {
        None => {
            let mut text = String::new();
            push_str(&mut text, "sequence ");
            push_decimal(&mut text, seq);
            push_str(&mut text, " is acknowledged and absent from this store's segments");
            return Err(Refused::Unavailable(text));
        },
        Some(stored) => stored,
    };
    match digest {
        Err(detail) => Err(Refused::Unverifiable(detail.clone())),
        Ok(theirs) => if *stored != *theirs { Err(Refused::Fork { seq }) } else { Ok(()) },
    }
}

/// Walks the first `n` records of a batch in order: every record at or below
/// `acked` (every record, for a replay) is compared with what is held, every
/// other one is fresh; the walk stops at the first refusal.
pub open spec fn settle_prefix(held: Map<u64, String>, facts: Seq<EventFacts>, acked: u64, replay: bool, n: nat) -> (Seq<int>, Option<Refused>)
    decreases n,
{
    if n == 0 {
        (Seq::empty(), None)
    } else {
        let (fresh, refused) = settle_prefix(held, facts, acked, replay, (n - 1) as nat);
        if refused is Some {
            (fresh, refused)
        } else {
            let record = facts[n - 1];
            if replay || record.seq <= acked {
                match spec_same_or_fork(held, record.digest, record.seq) {
                    Err(e) => (fresh, Some(e)),
                    Ok(_) => (fresh, None),
                }
            } else {
                (fresh.push(n - 1), None)
            }
        }
    }
}

/// Once a walk has refused, walking further changes nothing.
pub proof fn lemma_settle_stops(held: Map<u64, String>, facts: Seq<EventFacts>, acked: u64, replay: bool, n: nat, m: nat)
    requires
        n <= m,
        settle_prefix(held, facts, acked, replay, n).1 is Some,
    ensures
        settle_prefix(held, facts, acked, replay, m) == settle_prefix(held, facts, acked, replay, n),
    decreases m - n,
{
    if n < m {
        lemma_settle_stops(held, facts, acked, replay, n, (m - 1) as nat);
    }
}

/// The answer to a batch entirely at or below the acknowledged point.
pub open spec fn spec_replay(held: Map<u64, String>, facts: Seq<EventFacts>, state: StreamState) -> Result<Accepted, Refused> {
    match settle_prefix(held, facts, state.acked, true, facts.len()).1 {
        Some(refused) => Err(refused),
        None => Ok(Accepted::Durable { acked: state.acked, stored: 0 }),
    }
}

fn settle_one(held: &BTreeMap<u64, String>, facts: &EventFacts) -> (same: Result<(), Refused>)
    ensures
        same is Ok <==> spec_same_or_fork(held@, facts.digest, facts.seq) is Ok,
        same matches Err(e) ==> spec_same_or_fork(held@, facts.digest, facts.seq) matches Err(f)
            && (e is Unavailable <==> f is Unavailable) && (!(f is Unavailable) ==> e == f),
{
    same_or_fork(held, &facts.digest, facts.seq)
}

/// A batch entirely at or below the acknowledgement: deduplicated, or a fork.
pub fn replay(held: &BTreeMap<u64, String>, facts: &Vec<EventFacts>, state: &StreamState) -> (answer: Result<Accepted, Refused>)
    ensures
        answer is Ok <==> spec_replay(held@, facts@, *state) is Ok,
        answer is Ok ==> answer == spec_replay(held@, facts@, *state),
        answer matches Err(e) ==> spec_replay(held@, facts@, *state) matches Err(f)
            && (e is Unavailable <==> f is Unavailable) && (!(f is Unavailable) ==> e == f),
{
    let mut i: usize = 0;
    while i < facts.len()
        invariant
            i <= facts.len(),
            settle_prefix(held@, facts@, state.acked, true, i as nat) == (Seq::<int>::empty(), None::<Refused>),
        decreases facts.len() - i,
    {
        let checked = settle_one(held, &facts[i]);
        if let Err(refused) = checked {
            proof {
                lemma_settle_stops(held@, facts@, state.acked, true, (i + 1) as nat, facts.len() as nat);
            }
            return Err(refused);
        }
        i += 1;
    }
    Ok(Accepted::Durable { acked: state.acked, stored: 0 })
}

/// What settling an advancing batch decided: the records to append, in order,
/// and the answer once they and the envelope are durable.
#[derive(Debug)]
pub struct Settled {
    /// The positions in the batch of the fresh records, in order.
    pub fresh: Vec<usize>,
    /// The answer, or the refusal that stopped the walk.
    pub outcome: Result<Accepted, Refused>,
}

/// The answer to an advancing batch: resent records are compared with what is
/// held, fresh ones appended, and the acknowledgement moves to its last sequence.
pub open spec fn spec_advance(held: Map<u64, String>, facts: Seq<EventFacts>, state: StreamState, envelope: Envelope) -> (Seq<int>, Result<Accepted, Refused>) {
    let (fresh, refused) = settle_prefix(held, facts, state.acked, false, facts.len());
    (fresh, match refused {
        Some(r) => Err(r),
        None => Ok(Accepted::Durable { acked: envelope.last_seq, stored: fresh.len() as u64 }),
    })
}

/// Settles a batch that moves the stream forward.
pub fn advance(held: &BTreeMap<u64, String>, facts: &Vec<EventFacts>, state: &StreamState, envelope: &Envelope) -> (settled: Settled)
    ensures
        settled.outcome is Ok ==> settled.fresh@.map_values(|i: usize| i as int) == spec_advance(held@, facts@, *state, *envelope).0,
        settled.outcome is Ok <==> spec_advance(held@, facts@, *state, *envelope).1 is Ok,
        settled.outcome is Ok ==> settled.outcome == spec_advance(held@, facts@, *state, *envelope).1,
        settled.outcome matches Err(e) ==> spec_advance(held@, facts@, *state, *envelope).1 matches Err(f)
            && (e is Unavailable <==> f is Unavailable) && (!(f is Unavailable) ==> e == f),
{
    let mut fresh: Vec<usize> = Vec::new();
    let mut i: usize = 0;
    while i < facts.len()
        invariant
            i <= facts.len(),
            settle_prefix(held@, facts@, state.acked, false, i as nat) == (
                fresh@.map_values(|k: usize| k as int),
                None::<Refused>,
            ),
            fresh.len() <= i,
        decreases facts.len() - i,
    {
        let ghost before = fresh@;
        if facts[i].seq <= state.acked {
            let checked = settle_one(held, &facts[i]);
            if let Err(refused) = checked {
                proof {
                    lemma_settle_stops(held@, facts@, state.acked, false, (i + 1) as nat, facts.len() as nat);
                }
                return Settled { fresh, outcome: Err(refused) };
            }
        } else {
            fresh.push(i);
            assert(fresh@.map_values(|k: usize| k as int) =~= before.map_values(|k: usize| k as int).push(i as int));
        }
        i += 1;
    }
    let stored = fresh.len() as u64;
    Settled { fresh, outcome: Ok(Accepted::Durable { acked: envelope.last_seq, stored }) }
}

/// A walk over records that each agree with what is held never refuses.
pub proof fn lemma_settle_agreeing(held: Map<u64, String>, facts: Seq<EventFacts>, acked: u64, replay: bool, n: nat)
    requires
        n <= facts.len(),
        forall|i: int| 0 <= i < n ==> (held.contains_key(#[trigger] facts[i].seq) && (facts[i].digest matches Ok(d) && d@ == held[facts[i].seq]@)),
    ensures
        settle_prefix(held, facts, acked, replay, n).1 is None,
    decreases n,
{
    if n > 0 {
        lemma_settle_agreeing(held, facts, acked, replay, (n - 1) as nat);
        let r = facts[n - 1];
        assert(held.contains_key(r.seq) && (r.digest matches Ok(d) && d@ == held[r.seq]@));
    }
}

/// A walk that refused with a fork found a record whose digest differs from the
/// one held at its sequence.
pub proof fn lemma_settle_fork(held: Map<u64, String>, facts: Seq<EventFacts>, acked: u64, replay: bool, n: nat, seq: u64)
    requires
        n <= facts.len(),
        settle_prefix(held, facts, acked, replay, n).1 == Some(Refused::Fork { seq }),
    ensures
        exists|i: int| 0 <= i < n && #[trigger] facts[i].seq == seq && held.contains_key(seq)
            && (facts[i].digest matches Ok(d) && d@ != held[seq]@),
    decreases n,
{
    let prior = settle_prefix(held, facts, acked, replay, (n - 1) as nat);
    if prior.1 is Some {
        lemma_settle_fork(held, facts, acked, replay, (n - 1) as nat, seq);
    } else {
        assert(facts[n - 1].seq == seq);
    }
}

/// A closed stream accepts nothing: every batch is refused as closed.
pub proof fn law_closed_stream_refuses(state: StreamState, envelope: Envelope, checked: Result<(), Refused>, facts: Seq<EventFacts>)
    requires
        state.closed is Some,
    ensures
        spec_admission(state, envelope, checked, facts) == Err::<Admission, Refused>(Refused::Closed(state.closed->0)),
{
}

/// Resending a batch the store holds is deduplicated: when every record agrees
/// with what is held, the answer is the unchanged acknowledgement and nothing is stored.
pub proof fn law_replay_is_deduplicated(held: Map<u64, String>, facts: Seq<EventFacts>, state: StreamState)
    requires
        forall|i: int| 0 <= i < facts.len() ==> (held.contains_key(#[trigger] facts[i].seq) && (facts[i].digest matches Ok(d) && d@ == held[facts[i].seq]@)),
    ensures
        spec_replay(held, facts, state) == Ok::<Accepted, Refused>(Accepted::Durable { acked: state.acked, stored: 0 }),
{
    lemma_settle_agreeing(held, facts, state.acked, true, facts.len());
}

/// An advancing batch that settles acknowledges exactly its last sequence,
/// which lies beyond the old acknowledgement.
pub proof fn law_advance_moves_the_acknowledgement(held: Map<u64, String>, facts: Seq<EventFacts>, state: StreamState, envelope: Envelope, checked: Result<(), Refused>)
    requires
        spec_admission(state, envelope, checked, facts) == Ok::<Admission, Refused>(Admission::Advance),
        spec_advance(held, facts, state, envelope).1 is Ok,
    ensures
        spec_advance(held, facts, state, envelope).1 matches Ok(Accepted::Durable { acked, .. }) && acked == envelope.last_seq,
        envelope.last_seq > state.acked,
{
}

/// A fork is only ever declared where a resent record's digest differs from the
/// one held at its sequence.
pub proof fn law_fork_means_two_records_at_one_sequence(held: Map<u64, String>, facts: Seq<EventFacts>, state: StreamState, envelope: Envelope, seq: u64)
    requires
        spec_advance(held, facts, state, envelope).1 == Err::<Accepted, Refused>(Refused::Fork { seq })
            || spec_replay(held, facts, state) == Err::<Accepted, Refused>(Refused::Fork { seq }),
    ensures
        exists|i: int| 0 <= i < facts.len() && #[trigger] facts[i].seq == seq && held.contains_key(seq)
            && (facts[i].digest matches Ok(d) && d@ != held[seq]@),
{
    if spec_advance(held, facts, state, envelope).1 == Err::<Accepted, Refused>(Refused::Fork { seq }) {
        lemma_settle_fork(held, facts, state.acked, false, facts.len(), seq);
    } else {
        lemma_settle_fork(held, facts, state.acked, true, facts.len(), seq);
    }
}

/// What a refused batch leaves of its stream. A fork closes it permanently,
/// naming the sequence two records claimed, with what it holds kept exactly
/// as it is, so that every later batch is refused as closed; any other
/// refusal leaves it as it was.
pub fn after_refusal(state: StreamState, refused: &Refused) -> (next: StreamState)
    ensures
        refused is Fork ==> next.acked == state.acked && next.head == state.head
            && (next.closed matches Some(r)
                && r@ == "two different records at sequence "@ + decimal(refused->Fork_seq as nat))
            && (forall|envelope: Envelope, checked: Result<(), Refused>, facts: Seq<EventFacts>|
                #[trigger] spec_admission(next, envelope, checked, facts)
                    == Err::<Admission, Refused>(Refused::Closed(next.closed->0))),
        !(refused is Fork) ==> next == state,
{
    match refused {
        Refused::Fork { seq } => {
            let mut reason = String::new();
            push_str(&mut reason, "two different records at sequence ");
            push_decimal(&mut reason, *seq);
            StreamState { acked: state.acked, head: state.head, closed: Some(reason) }
        },
        _ => state,
    }
}

/// An open stream answers a checked batch that starts past the next expected
/// sequence, and reaches past what is acknowledged, with that sequence: the
/// producer resends from it, and nothing is stored, so no hole is ever left
/// behind the acknowledgement. An advance only ever starts at or before the
/// next expected sequence, and reaches past the acknowledgement.
pub proof fn law_a_batch_past_the_next_sequence_waits(state: StreamState, envelope: Envelope, facts: Seq<EventFacts>)
    requires
        state.closed is None,
    ensures
        envelope.last_seq > state.acked && envelope.first_seq > state.acked + 1
            ==> spec_admission(state, envelope, Ok(()), facts) == Ok::<Admission, Refused>(Admission::Ahead { expected_seq: (state.acked + 1) as u64 }),
        spec_admission(state, envelope, Ok(()), facts) == Ok::<Admission, Refused>(Admission::Advance)
            ==> envelope.first_seq <= state.acked + 1 && envelope.last_seq > state.acked,
        spec_admission(state, envelope, Ok(()), facts) == Ok::<Admission, Refused>(Admission::Replay)
            ==> envelope.last_seq <= state.acked,
{
}

/// A resent record whose digest differs from the one held at its sequence is
/// a fork, at that sequence; one whose digest is the held one is the same
/// record.
pub proof fn law_a_different_record_at_a_held_sequence_is_a_fork(held: Map<u64, String>, digest: String, seq: u64)
    requires
        held.contains_key(seq),
    ensures
        held[seq]@ != digest@ ==> spec_same_or_fork(held, Ok(digest), seq) == Err::<(), Refused>(Refused::Fork { seq }),
        held[seq]@ == digest@ ==> spec_same_or_fork(held, Ok(digest), seq) == Ok::<(), Refused>(()),
{
}

/// A producer's key attests only that producer's streams, and only in the
/// zone and ledger it is bound to, unless it is bound to every one (`*`);
/// within those bounds it attests every stream.
pub proof fn law_a_key_attests_only_within_its_binding(producer: Seq<char>, zone: Seq<char>, ledger: Seq<char>, stream: Stream)
    ensures
        spec_authorizes(producer, zone, ledger, stream) ==> producer == stream.producer.id@
            && (zone != "*"@ ==> zone == stream.zone@)
            && (ledger != "*"@ ==> ledger == stream.ledger@),
        producer == stream.producer.id@ && (zone == "*"@ || zone == stream.zone@) && (ledger == "*"@ || ledger == stream.ledger@)
            ==> spec_authorizes(producer, zone, ledger, stream),
{
}

} // verus!
