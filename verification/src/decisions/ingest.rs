//! Accepting a batch of decision records: what each answer means.
//!
//! ```text
//! <= acked entirely        ok, acked unchanged      a replay: deduplicated
//! acked + 1                ok, acked moves          the ordinary case
//! > acked + 1              out_of_order             nothing stored; resend from expected_seq
//! same seq, other digest   conflict                 the stream is closed permanently
//! ```
//!
//! The steps that read and write the store run around these decisions; every
//! decision about what a batch means is made here.

use std::collections::BTreeMap;

use vstd::prelude::*;

use crate::api::{ApiError, ErrorClass};
use crate::decisions::store::StreamState;
use crate::text::{decimal, push_decimal, push_str};

verus! {

/// Which producer stream a batch belongs to.
#[derive(Debug, Clone, PartialEq, Eq)]
pub struct StreamId {
    /// The producer.
    pub id: String,
    /// Which incarnation of it.
    pub instance: String,
}

impl StreamId {
    pub open spec fn same(self, other: StreamId) -> bool {
        self.id@ == other.id@ && self.instance@ == other.instance@
    }
}

/// What the signed envelope of a batch attests.
#[derive(Debug, Clone, PartialEq, Eq)]
pub struct Envelope {
    pub stream: StreamId,
    pub first_seq: u64,
    pub last_seq: u64,
    pub count: u64,
    pub head: String,
    pub previous_head: String,
    pub merkle_root: String,
}

/// What verifying the records as a chain concluded.
#[derive(Debug, Clone, PartialEq, Eq)]
pub struct Chain {
    pub stream: StreamId,
    pub first_seq: u64,
    pub last_seq: u64,
    pub head: String,
}

/// The few facts about one shipped record that acceptance reads.
#[derive(Debug, PartialEq, Eq)]
pub struct RecordFacts {
    /// Its sequence (zero when it states none).
    pub seq: u64,
    /// The digest it names as its predecessor (empty when it names none).
    pub prev: String,
    /// Its own digest, or why it has none.
    pub digest: Result<String, String>,
}

/// What accepting a batch concluded.
#[derive(Debug, Clone, PartialEq, Eq)]
pub enum Accepted {
    /// Stored (or already held), and durable through `acked`.
    Durable { acked: u64, stored: u64 },
    /// The shipper ran ahead: nothing was stored.
    OutOfOrder { expected_seq: u64 },
}

/// Why a batch was refused.
#[derive(Debug, Clone, PartialEq, Eq)]
pub enum Refused {
    /// The signature does not verify, or names a key nobody published.
    Unattributable(String),
    /// The records are not a chain, or do not match what the envelope attests.
    Unverifiable(String),
    /// A record conflicts with one already stored. The stream is now closed.
    Conflict { seq: u64 },
    /// The stream was closed permanently and accepts nothing more.
    Closed(String),
    /// The store could not accept right now. A shipper retries this.
    Unavailable(String),
}

/// The sentence a refusal is reported with.
pub open spec fn refused_message(refused: Refused) -> Seq<char> {
    match refused {
        Refused::Unattributable(detail) => detail@,
        Refused::Unverifiable(detail) => detail@,
        Refused::Conflict { seq } =>
            "a different record is already stored at sequence "@ + decimal(seq as nat)
                + ": this stream is closed permanently and what it holds is kept as evidence"@,
        Refused::Closed(reason) =>
            "this stream was closed permanently ("@ + reason@
                + ") and accepts nothing further: open a new incarnation"@,
        Refused::Unavailable(detail) => detail@,
    }
}

/// The reason word a refusal is counted under.
pub open spec fn spec_reason_of(refused: Refused) -> Seq<char> {
    match refused {
        Refused::Unattributable(_) => "unattributable"@,
        Refused::Unverifiable(_) => "unverifiable"@,
        Refused::Conflict { .. } => "conflict"@,
        Refused::Closed(_) => "closed"@,
        Refused::Unavailable(_) => "unavailable"@,
    }
}

impl Refused {
    /// The sentence this refusal is reported with.
    pub fn message(&self) -> (text: String)
        ensures
            text@ == refused_message(*self),
    {
        match self {
            Refused::Unattributable(detail) => detail.clone(),
            Refused::Unverifiable(detail) => detail.clone(),
            Refused::Conflict { seq } => {
                let mut text = String::new();
                push_str(&mut text, "a different record is already stored at sequence ");
                push_decimal(&mut text, *seq);
                push_str(
                    &mut text,
                    ": this stream is closed permanently and what it holds is kept as evidence",
                );
                text
            },
            Refused::Closed(reason) => {
                let mut text = String::new();
                push_str(&mut text, "this stream was closed permanently (");
                push_str(&mut text, reason.as_str());
                push_str(&mut text, ") and accepts nothing further: open a new incarnation");
                text
            },
            Refused::Unavailable(detail) => detail.clone(),
        }
    }
}

/// The reason word a refusal is counted under.
pub fn reason_of(refused: &Refused) -> (reason: &'static str)
    ensures
        reason@ == spec_reason_of(*refused),
{
    match refused {
        Refused::Unattributable(_) => "unattributable",
        Refused::Unverifiable(_) => "unverifiable",
        Refused::Conflict { .. } => "conflict",
        Refused::Closed(_) => "closed",
        Refused::Unavailable(_) => "unavailable",
    }
}

/// The class and code a refusal is answered with.
pub open spec fn spec_api_class_code(refused: Refused) -> (ErrorClass, Seq<char>) {
    match refused {
        Refused::Unattributable(_) => (ErrorClass::Validation, "batch_unattributable"@),
        Refused::Unverifiable(_) => (ErrorClass::Validation, "batch_unverifiable"@),
        Refused::Conflict { .. } => (ErrorClass::Conflict, "stream_conflict"@),
        Refused::Closed(_) => (ErrorClass::Conflict, "stream_closed"@),
        Refused::Unavailable(_) => (ErrorClass::Unavailable, "store_unavailable"@),
    }
}

/// The refusal, in the taxonomy every surface shares. Only `Unavailable` is a
/// class a shipper retries.
pub fn api_error(refused: &Refused) -> (error: ApiError)
    ensures
        error.class == spec_api_class_code(*refused).0,
        error.code@ == spec_api_class_code(*refused).1,
        error.message@ == refused_message(*refused),
{
    let message = refused.message();
    match refused {
        Refused::Unattributable(_) => ApiError::new(ErrorClass::Validation, "batch_unattributable", message),
        Refused::Unverifiable(_) => ApiError::new(ErrorClass::Validation, "batch_unverifiable", message),
        Refused::Conflict { .. } => ApiError::new(ErrorClass::Conflict, "stream_conflict", message),
        Refused::Closed(_) => ApiError::new(ErrorClass::Conflict, "stream_closed", message),
        Refused::Unavailable(_) => ApiError::new(ErrorClass::Unavailable, "store_unavailable", message),
    }
}

} // verus!

verus! {

/// Why the records are not what the envelope attests, if they are not.
pub open spec fn check_failure(
    records: nat,
    envelope: Envelope,
    verified: Result<Chain, String>,
    merkle_root: Option<String>,
) -> Option<Seq<char>> {
    if records != envelope.count {
        Some(
            "the envelope attests "@ + decimal(envelope.count as nat) + " records and the batch carries "@
                + decimal(records),
        )
    } else {
        match verified {
            Err(detail) => Some(detail@),
            Ok(chain) => if !chain.stream.same(envelope.stream) {
                Some("the records belong to a different stream than the envelope attests"@)
            } else if chain.first_seq != envelope.first_seq || chain.last_seq != envelope.last_seq {
                Some(
                    "the envelope attests sequences "@ + decimal(envelope.first_seq as nat) + ".."@
                        + decimal(envelope.last_seq as nat) + " and the records span "@
                        + decimal(chain.first_seq as nat) + ".."@ + decimal(chain.last_seq as nat),
                )
            } else if chain.head@ != envelope.head@ {
                Some("the head the envelope attests is not the digest of the last record"@)
            } else if !(merkle_root matches Some(root) && root@ == envelope.merkle_root@) {
                Some("the Merkle root the envelope attests is not the root of the records it carries"@)
            } else {
                None
            },
        }
    }
}

fn same_stream(left: &StreamId, right: &StreamId) -> (same: bool)
    ensures
        same == left.same(*right),
{
    left.id == right.id && left.instance == right.instance
}

/// Checks that the records are what the signed envelope says they are: as many
/// as it attests, a chain of its stream over its sequences ending at its head,
/// and hashing to its Merkle root. `verified` is what verifying the records as
/// a chain concluded and `merkle_root` the root of their digests.
pub fn check(
    records: &Vec<RecordFacts>,
    envelope: &Envelope,
    verified: &Result<Chain, String>,
    merkle_root: &Option<String>,
) -> (checked: Result<(), Refused>)
    ensures
        match check_failure(records.len() as nat, *envelope, *verified, *merkle_root) {
            None => checked is Ok,
            Some(detail) => checked matches Err(Refused::Unverifiable(d)) && d@ == detail,
        },
{
    if records.len() as u64 != envelope.count {
        let mut text = String::new();
        push_str(&mut text, "the envelope attests ");
        push_decimal(&mut text, envelope.count);
        push_str(&mut text, " records and the batch carries ");
        push_decimal(&mut text, records.len() as u64);
        return Err(Refused::Unverifiable(text));
    }
    let chain = match verified {
        Err(detail) => return Err(Refused::Unverifiable(detail.clone())),
        Ok(chain) => chain,
    };
    if !same_stream(&chain.stream, &envelope.stream) {
        return Err(Refused::Unverifiable(
            "the records belong to a different stream than the envelope attests".to_owned(),
        ));
    }
    if chain.first_seq != envelope.first_seq || chain.last_seq != envelope.last_seq {
        let mut text = String::new();
        push_str(&mut text, "the envelope attests sequences ");
        push_decimal(&mut text, envelope.first_seq);
        push_str(&mut text, "..");
        push_decimal(&mut text, envelope.last_seq);
        push_str(&mut text, " and the records span ");
        push_decimal(&mut text, chain.first_seq);
        push_str(&mut text, "..");
        push_decimal(&mut text, chain.last_seq);
        return Err(Refused::Unverifiable(text));
    }
    if chain.head != envelope.head {
        return Err(Refused::Unverifiable(
            "the head the envelope attests is not the digest of the last record".to_owned(),
        ));
    }
    let rooted = match merkle_root {
        Some(root) => *root == envelope.merkle_root,
        None => false,
    };
    if !rooted {
        return Err(Refused::Unverifiable(
            "the Merkle root the envelope attests is not the root of the records it carries".to_owned(),
        ));
    }
    Ok(())
}

/// The predecessor the first record names, empty when there is none.
pub open spec fn first_prev(records: Seq<RecordFacts>) -> Seq<char> {
    if records.len() > 0 { records[0].prev@ } else { Seq::empty() }
}

/// Why a batch does not continue the stream this store holds, if it does not.
pub open spec fn continues_failure(envelope: Envelope, prev: Seq<char>, state: StreamState) -> Option<Seq<char>> {
    if envelope.previous_head@ != state.head@ {
        Some(
            "this batch says it continues "@ + envelope.previous_head@ + ", and this store's head is "@
                + state.head@ + ": a stream whose batches do not join is not a chain"@,
        )
    } else if prev != state.head@ {
        Some(
            "the first record of this batch names "@ + prev + " as its predecessor, and this store's head is "@
                + state.head@,
        )
    } else {
        None
    }
}

/// Refuses a batch that does not continue the stream this store already holds:
/// the envelope's `previous_head` and the first record's `prev` must both be
/// the head this store recorded.
pub fn continues(envelope: &Envelope, records: &Vec<RecordFacts>, state: &StreamState) -> (joined: Result<(), Refused>)
    ensures
        match continues_failure(*envelope, first_prev(records@), *state) {
            None => joined is Ok,
            Some(detail) => joined matches Err(Refused::Unverifiable(d)) && d@ == detail,
        },
{
    if envelope.previous_head != state.head {
        let mut text = String::new();
        push_str(&mut text, "this batch says it continues ");
        push_str(&mut text, envelope.previous_head.as_str());
        push_str(&mut text, ", and this store's head is ");
        push_str(&mut text, state.head.as_str());
        push_str(&mut text, ": a stream whose batches do not join is not a chain");
        return Err(Refused::Unverifiable(text));
    }
    let empty = String::new();
    let prev: &String = if records.len() > 0 { &records[0].prev } else { &empty };
    if *prev != state.head {
        let mut text = String::new();
        push_str(&mut text, "the first record of this batch names ");
        push_str(&mut text, prev.as_str());
        push_str(&mut text, " as its predecessor, and this store's head is ");
        push_str(&mut text, state.head.as_str());
        return Err(Refused::Unverifiable(text));
    }
    Ok(())
}

/// Where a batch that passed its checks stands against the stream.
#[derive(Debug, Clone, Copy, PartialEq, Eq)]
pub enum Admission {
    /// Entirely at or below the acknowledged point: checked against what is held, nothing stored.
    Replay,
    /// Starts past the next expected sequence: nothing stored.
    Ahead { expected_seq: u64 },
    /// Moves the stream forward.
    Advance,
}

/// What a batch means for the stream, before anything is read back or written.
pub open spec fn spec_admission(
    state: StreamState,
    envelope: Envelope,
    records: Seq<RecordFacts>,
    verified: Result<Chain, String>,
    merkle_root: Option<String>,
) -> Result<Admission, Refused> {
    if state.closed is Some {
        Err(Refused::Closed(state.closed->0))
    } else if check_failure(records.len(), envelope, verified, merkle_root) is Some {
        Err(Refused::Unverifiable(arbitrary()))
    } else if envelope.last_seq <= state.acked {
        Ok(Admission::Replay)
    } else if envelope.first_seq > state.acked + 1 {
        Ok(Admission::Ahead { expected_seq: (state.acked + 1) as u64 })
    } else if envelope.first_seq == state.acked + 1
        && continues_failure(envelope, first_prev(records), state) is Some {
        Err(Refused::Unverifiable(arbitrary()))
    } else {
        Ok(Admission::Advance)
    }
}

/// Decides what a verified, attributed batch means for its stream: a closed
/// stream refuses it, a batch that is not what its envelope attests is
/// unverifiable, one entirely at or below `acked` is a replay, one starting
/// past `acked + 1` is ahead, and one starting at `acked + 1` must continue
/// the stream's head.
pub fn admission(
    state: &StreamState,
    envelope: &Envelope,
    records: &Vec<RecordFacts>,
    verified: &Result<Chain, String>,
    merkle_root: &Option<String>,
) -> (admitted: Result<Admission, Refused>)
    ensures
        match spec_admission(*state, *envelope, records@, *verified, *merkle_root) {
            Ok(a) => admitted == Ok::<Admission, Refused>(a),
            Err(Refused::Closed(reason)) => admitted matches Err(Refused::Closed(r)) && r@ == reason@,
            Err(_) => admitted matches Err(Refused::Unverifiable(_)),
        },
        admitted matches Err(Refused::Unverifiable(d)) ==> (
            match check_failure(records.len() as nat, *envelope, *verified, *merkle_root) {
                Some(detail) => d@ == detail,
                None => Some(d@) == continues_failure(*envelope, first_prev(records@), *state),
            }
        ),
{
    if let Some(reason) = &state.closed {
        return Err(Refused::Closed(reason.clone()));
    }
    check(records, envelope, verified, merkle_root)?;
    if envelope.last_seq <= state.acked {
        return Ok(Admission::Replay);
    }
    if envelope.first_seq > state.acked + 1 {
        return Ok(Admission::Ahead { expected_seq: state.acked + 1 });
    }
    if envelope.first_seq == state.acked + 1 {
        continues(envelope, records, state)?;
    }
    Ok(Admission::Advance)
}

} // verus!

verus! {

/// What comparing one resent record with the one already held concludes: a
/// sequence no longer held is not a fault (retention forgets on a schedule), a
/// record without a digest is unverifiable, and a different digest is a conflict.
pub open spec fn spec_verify_same(held: Map<u64, String>, digest: Result<String, String>, seq: u64) -> Result<(), Refused> {
    if !held.contains_key(seq) {
        Ok(())
    } else {
        match digest {
            Err(detail) => Err(Refused::Unverifiable(detail)),
            Ok(theirs) => if held[seq]@ != theirs@ {
                Err(Refused::Conflict { seq })
            } else {
                Ok(())
            },
        }
    }
}

/// Refuses a record that disagrees with the one already stored at its sequence.
/// A `Conflict` means the stream is to be closed permanently.
pub fn verify_same(held: &BTreeMap<u64, String>, digest: &Result<String, String>, seq: u64) -> (same: Result<(), Refused>)
    ensures
        same == spec_verify_same(held@, *digest, seq),
{
    let ours = match held.get(&seq) {
        None => return Ok(()),
        Some(ours) => ours,
    };
    match digest {
        Err(detail) => Err(Refused::Unverifiable(detail.clone())),
        Ok(theirs) => if *ours != *theirs {
            Err(Refused::Conflict { seq })
        } else {
            Ok(())
        },
    }
}

/// Walks the first `n` records of a batch in order: every record at or below
/// `acked` (every record, for a replay) is compared with what is held, every
/// other one is to be appended; the walk stops at the first refusal. Answers
/// the indices to append and the refusal, if any.
pub open spec fn settle_prefix(
    held: Map<u64, String>,
    records: Seq<RecordFacts>,
    acked: u64,
    replay: bool,
    n: nat,
) -> (Seq<int>, Option<Refused>)
    decreases n,
{
    if n == 0 {
        (Seq::empty(), None)
    } else {
        let (append, refused) = settle_prefix(held, records, acked, replay, (n - 1) as nat);
        if refused is Some {
            (append, refused)
        } else {
            let record = records[n - 1];
            if replay || record.seq <= acked {
                match spec_verify_same(held, record.digest, record.seq) {
                    Err(e) => (append, Some(e)),
                    Ok(_) => (append, None),
                }
            } else {
                (append.push(n - 1), None)
            }
        }
    }
}

/// Once a walk has refused, walking further changes nothing.
pub proof fn lemma_settle_stops(
    held: Map<u64, String>,
    records: Seq<RecordFacts>,
    acked: u64,
    replay: bool,
    n: nat,
    m: nat,
)
    requires
        n <= m,
        settle_prefix(held, records, acked, replay, n).1 is Some,
    ensures
        settle_prefix(held, records, acked, replay, m) == settle_prefix(held, records, acked, replay, n),
    decreases m - n,
{
    if n < m {
        lemma_settle_stops(held, records, acked, replay, n, (m - 1) as nat);
    }
}

/// The indices a walk appends are increasing and in range.
pub proof fn lemma_settle_indices(
    held: Map<u64, String>,
    records: Seq<RecordFacts>,
    acked: u64,
    replay: bool,
    n: nat,
)
    requires
        n <= records.len(),
    ensures
        forall|k: int| 0 <= k < settle_prefix(held, records, acked, replay, n).0.len() ==> {
            let i = #[trigger] settle_prefix(held, records, acked, replay, n).0[k];
            0 <= i < n && !replay && records[i].seq > acked
        },
        replay ==> settle_prefix(held, records, acked, replay, n).0.len() == 0,
    decreases n,
{
    if n > 0 {
        lemma_settle_indices(held, records, acked, replay, (n - 1) as nat);
    }
}

/// The answer to a batch entirely at or below the acknowledged point: the
/// acknowledgement does not move and nothing is stored, unless a record
/// disagrees with what is held.
pub open spec fn spec_replay(held: Map<u64, String>, records: Seq<RecordFacts>, state: StreamState) -> Result<Accepted, Refused> {
    match settle_prefix(held, records, state.acked, true, records.len()).1 {
        Some(refused) => Err(refused),
        None => Ok(Accepted::Durable { acked: state.acked, stored: 0 }),
    }
}

/// A batch entirely at or below the acknowledged point: deduplicated, or a
/// conflict.
pub fn replay(held: &BTreeMap<u64, String>, records: &Vec<RecordFacts>, state: &StreamState) -> (answer: Result<Accepted, Refused>)
    ensures
        answer == spec_replay(held@, records@, *state),
{
    let mut i: usize = 0;
    while i < records.len()
        invariant
            i <= records.len(),
            settle_prefix(held@, records@, state.acked, true, i as nat) == (Seq::<int>::empty(), None::<Refused>),
        decreases records.len() - i,
    {
        let checked = verify_same(held, &records[i].digest, records[i].seq);
        if let Err(refused) = checked {
            proof {
                lemma_settle_stops(held@, records@, state.acked, true, (i + 1) as nat, records.len() as nat);
            }
            return Err(refused);
        }
        i += 1;
    }
    Ok(Accepted::Durable { acked: state.acked, stored: 0 })
}

/// What settling an advancing batch decided: which records to append, in
/// order, and the answer once they and the envelope are durable.
#[derive(Debug)]
pub struct Settled {
    /// The positions in the batch of the records to append, in order.
    pub append: Vec<usize>,
    /// The answer, or the refusal that stopped the walk.
    pub outcome: Result<Accepted, Refused>,
}

/// The answer to an advancing batch: every resent record at or below `acked`
/// is compared with what is held, every record above it is appended, and the
/// acknowledgement moves to the batch's last sequence.
pub open spec fn spec_advance(
    held: Map<u64, String>,
    records: Seq<RecordFacts>,
    state: StreamState,
    envelope: Envelope,
) -> (Seq<int>, Result<Accepted, Refused>) {
    let (append, refused) = settle_prefix(held, records, state.acked, false, records.len());
    (append, match refused {
        Some(r) => Err(r),
        None => Ok(Accepted::Durable { acked: envelope.last_seq, stored: append.len() as u64 }),
    })
}

/// Settles a batch that moves the stream forward.
pub fn advance(
    held: &BTreeMap<u64, String>,
    records: &Vec<RecordFacts>,
    state: &StreamState,
    envelope: &Envelope,
) -> (settled: Settled)
    ensures
        settled.append@.map_values(|i: usize| i as int) == spec_advance(held@, records@, *state, *envelope).0,
        settled.outcome == spec_advance(held@, records@, *state, *envelope).1,
{
    let mut append: Vec<usize> = Vec::new();
    let mut i: usize = 0;
    while i < records.len()
        invariant
            i <= records.len(),
            settle_prefix(held@, records@, state.acked, false, i as nat) == (
                append@.map_values(|k: usize| k as int),
                None::<Refused>,
            ),
            append.len() <= i,
        decreases records.len() - i,
    {
        let ghost before = append@;
        if records[i].seq <= state.acked {
            let checked = verify_same(held, &records[i].digest, records[i].seq);
            if let Err(refused) = checked {
                proof {
                    lemma_settle_stops(held@, records@, state.acked, false, (i + 1) as nat, records.len() as nat);
                }
                return Settled { append, outcome: Err(refused) };
            }
        } else {
            append.push(i);
            assert(append@.map_values(|k: usize| k as int) =~= before.map_values(|k: usize| k as int).push(i as int));
        }
        i += 1;
    }
    let stored = append.len() as u64;
    Settled { append, outcome: Ok(Accepted::Durable { acked: envelope.last_seq, stored }) }
}

} // verus!

verus! {

/// The positions, in order, of the first `n` records that lie above `acked`.
pub open spec fn above(records: Seq<RecordFacts>, acked: u64, n: nat) -> Seq<int>
    decreases n,
{
    if n == 0 {
        Seq::empty()
    } else if records[n - 1].seq > acked {
        above(records, acked, (n - 1) as nat).push(n - 1)
    } else {
        above(records, acked, (n - 1) as nat)
    }
}

/// A walk that did not refuse appends exactly the records above `acked`.
pub proof fn lemma_settle_appends_above(held: Map<u64, String>, records: Seq<RecordFacts>, acked: u64, n: nat)
    requires
        settle_prefix(held, records, acked, false, n).1 is None,
    ensures
        settle_prefix(held, records, acked, false, n).0 == above(records, acked, n),
    decreases n,
{
    if n > 0 {
        let prior = settle_prefix(held, records, acked, false, (n - 1) as nat);
        if prior.1 is Some {
            lemma_settle_stops(held, records, acked, false, (n - 1) as nat, n);
        } else {
            lemma_settle_appends_above(held, records, acked, (n - 1) as nat);
        }
    }
}

/// A walk that refused with a conflict found a record whose digest differs
/// from the one held at its sequence.
pub proof fn lemma_settle_conflict(held: Map<u64, String>, records: Seq<RecordFacts>, acked: u64, replay: bool, n: nat, seq: u64)
    requires
        n <= records.len(),
        settle_prefix(held, records, acked, replay, n).1 == Some(Refused::Conflict { seq }),
    ensures
        exists|i: int| 0 <= i < n && #[trigger] records[i].seq == seq && (replay || seq <= acked)
            && held.contains_key(seq) && (records[i].digest matches Ok(d) && d@ != held[seq]@),
    decreases n,
{
    let prior = settle_prefix(held, records, acked, replay, (n - 1) as nat);
    if prior.1 is Some {
        lemma_settle_conflict(held, records, acked, replay, (n - 1) as nat, seq);
    } else {
        let i = n - 1;
        assert(records[i].seq == seq);
    }
}

/// A walk over records that each agree with what is held (or are no longer
/// held) never refuses.
pub proof fn lemma_settle_agreeing(held: Map<u64, String>, records: Seq<RecordFacts>, acked: u64, replay: bool, n: nat)
    requires
        n <= records.len(),
        forall|i: int| 0 <= i < n ==> (held.contains_key(#[trigger] records[i].seq) ==> (records[i].digest matches Ok(d) && d@ == held[records[i].seq]@)),
    ensures
        settle_prefix(held, records, acked, replay, n).1 is None,
    decreases n,
{
    if n > 0 {
        lemma_settle_agreeing(held, records, acked, replay, (n - 1) as nat);
        let r = records[n - 1];
        assert(held.contains_key(r.seq) ==> (r.digest matches Ok(d) && d@ == held[r.seq]@));
    }
}

/// A closed stream accepts nothing: every batch is refused as closed, with the
/// reason it was closed for.
pub proof fn law_closed_stream_refuses(
    state: StreamState,
    envelope: Envelope,
    records: Seq<RecordFacts>,
    verified: Result<Chain, String>,
    merkle_root: Option<String>,
)
    requires
        state.closed is Some,
    ensures
        spec_admission(state, envelope, records, verified, merkle_root) == Err::<Admission, Refused>(Refused::Closed(state.closed->0)),
{
}

/// A batch starting past `acked + 1` is answered with `acked + 1`, whatever it
/// carries, once it passed its checks.
pub proof fn law_ahead_names_the_next_sequence(
    state: StreamState,
    envelope: Envelope,
    records: Seq<RecordFacts>,
    verified: Result<Chain, String>,
    merkle_root: Option<String>,
)
    requires
        state.closed is None,
        check_failure(records.len(), envelope, verified, merkle_root) is None,
        envelope.last_seq > state.acked,
        envelope.first_seq > state.acked + 1,
    ensures
        spec_admission(state, envelope, records, verified, merkle_root) == Ok::<Admission, Refused>(Admission::Ahead { expected_seq: (state.acked + 1) as u64 }),
{
}

/// Resending a batch the store already holds is deduplicated: when every
/// record agrees with what is held (or has left on retention), the answer is
/// the unchanged acknowledgement and nothing is stored.
pub proof fn law_replay_is_deduplicated(held: Map<u64, String>, records: Seq<RecordFacts>, state: StreamState)
    requires
        forall|i: int| 0 <= i < records.len() ==> (held.contains_key(#[trigger] records[i].seq) ==> (records[i].digest matches Ok(d) && d@ == held[records[i].seq]@)),
    ensures
        spec_replay(held, records, state) == Ok::<Accepted, Refused>(Accepted::Durable { acked: state.acked, stored: 0 }),
{
    lemma_settle_agreeing(held, records, state.acked, true, records.len());
}

/// A replay never moves the acknowledgement and never stores anything.
pub proof fn law_replay_never_moves_the_acknowledgement(held: Map<u64, String>, records: Seq<RecordFacts>, state: StreamState)
    ensures
        spec_replay(held, records, state) matches Ok(Accepted::Durable { acked, stored }) ==> acked == state.acked && stored == 0,
        spec_replay(held, records, state) matches Ok(a) ==> a is Durable,
{
}

/// An advancing batch that settles moves the acknowledgement forward to its
/// last sequence, and appends exactly its records above the old acknowledgement.
pub proof fn law_advance_moves_the_acknowledgement(
    held: Map<u64, String>,
    records: Seq<RecordFacts>,
    state: StreamState,
    envelope: Envelope,
    verified: Result<Chain, String>,
    merkle_root: Option<String>,
)
    requires
        spec_admission(state, envelope, records, verified, merkle_root) == Ok::<Admission, Refused>(Admission::Advance),
        spec_advance(held, records, state, envelope).1 is Ok,
    ensures
        spec_advance(held, records, state, envelope).1 == Ok::<Accepted, Refused>(Accepted::Durable {
            acked: envelope.last_seq,
            stored: above(records, state.acked, records.len()).len() as u64,
        }),
        envelope.last_seq > state.acked,
        spec_advance(held, records, state, envelope).0 == above(records, state.acked, records.len()),
{
    lemma_settle_appends_above(held, records, state.acked, records.len());
}

/// A conflict is only ever declared where a resent record's digest differs from
/// the one held at its sequence, at or below the acknowledgement.
pub proof fn law_conflict_means_two_records_at_one_sequence(
    held: Map<u64, String>,
    records: Seq<RecordFacts>,
    state: StreamState,
    envelope: Envelope,
    seq: u64,
)
    requires
        spec_advance(held, records, state, envelope).1 == Err::<Accepted, Refused>(Refused::Conflict { seq })
            || spec_replay(held, records, state) == Err::<Accepted, Refused>(Refused::Conflict { seq }),
    ensures
        exists|i: int| 0 <= i < records.len() && #[trigger] records[i].seq == seq && held.contains_key(seq)
            && (records[i].digest matches Ok(d) && d@ != held[seq]@),
{
    if spec_advance(held, records, state, envelope).1 == Err::<Accepted, Refused>(Refused::Conflict { seq }) {
        lemma_settle_conflict(held, records, state.acked, false, records.len(), seq);
    } else {
        lemma_settle_conflict(held, records, state.acked, true, records.len(), seq);
    }
}

/// What a refused batch leaves of its stream. A conflict closes it
/// permanently, with what it holds kept exactly as it is, so that every later
/// batch is refused as closed; any other refusal leaves it as it was.
pub fn after_refusal(state: StreamState, refused: &Refused) -> (next: StreamState)
    ensures
        refused is Conflict ==> next.acked == state.acked && next.head == state.head
            && (next.closed matches Some(r) && r@ == "two different records claimed one sequence"@)
            && (forall|envelope: Envelope, records: Seq<RecordFacts>, verified: Result<Chain, String>, merkle_root: Option<String>|
                #[trigger] spec_admission(next, envelope, records, verified, merkle_root)
                    == Err::<Admission, Refused>(Refused::Closed(next.closed->0))),
        !(refused is Conflict) ==> next == state,
{
    match refused {
        Refused::Conflict { .. } => StreamState {
            acked: state.acked,
            head: state.head,
            closed: Some("two different records claimed one sequence".to_string()),
        },
        _ => state,
    }
}

/// A resent record whose digest differs from the one held at its sequence is
/// a conflict at that sequence; one whose digest is the held one is the same
/// record; and a sequence no longer held (gone on the retention schedule)
/// has nothing to disagree with.
pub proof fn law_a_different_record_at_a_held_sequence_conflicts(held: Map<u64, String>, digest: String, seq: u64)
    ensures
        held.contains_key(seq) && held[seq]@ != digest@
            ==> spec_verify_same(held, Ok(digest), seq) == Err::<(), Refused>(Refused::Conflict { seq }),
        held.contains_key(seq) && held[seq]@ == digest@ ==> spec_verify_same(held, Ok(digest), seq) == Ok::<(), Refused>(()),
        !held.contains_key(seq) ==> spec_verify_same(held, Ok(digest), seq) == Ok::<(), Refused>(()),
{
}

/// An open stream answers a batch that passed its checks, starts past the
/// next expected sequence and reaches past what is acknowledged with that
/// sequence, storing nothing; an advance only ever starts at or before it.
pub proof fn law_a_batch_past_the_next_sequence_waits(
    state: StreamState,
    envelope: Envelope,
    records: Seq<RecordFacts>,
    verified: Result<Chain, String>,
    merkle_root: Option<String>,
)
    requires
        state.closed is None,
        check_failure(records.len(), envelope, verified, merkle_root) is None,
    ensures
        envelope.last_seq > state.acked && envelope.first_seq > state.acked + 1
            ==> spec_admission(state, envelope, records, verified, merkle_root)
                == Ok::<Admission, Refused>(Admission::Ahead { expected_seq: (state.acked + 1) as u64 }),
        spec_admission(state, envelope, records, verified, merkle_root) == Ok::<Admission, Refused>(Admission::Advance)
            ==> envelope.first_seq <= state.acked + 1 && envelope.last_seq > state.acked,
{
}

} // verus!
