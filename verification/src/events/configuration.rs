//! What this plane publishes about the event log: where batches go, which
//! event types it accepts, how read offsets are spelled, and what a page
//! carries at most. Every part is derived from what the plane actually
//! serves, so the document cannot advertise a path, a family or a type this
//! plane would refuse.

use vstd::prelude::*;

use crate::events::ingest::PRODUCER_CLASS_DATA_PLANE;
use crate::events::read::API;
use crate::text::push_str;

verus! {

/// Where a control plane publishes what its event log offers.
pub const CONFIGURATION_PATH: &'static str = "/.well-known/permguard-events-native-v1alpha1-configuration";

/// Where a producer delivers a batch.
pub const BATCHES_PATH: &'static str = "/events/v1alpha1/batches";
/// The operator's view of every record the store holds.
pub const RECORDS_PATH: &'static str = "/events/v1alpha1/records";
/// One occurrence, by the identifier its caller stated.
pub const RECORD_PATH: &'static str = "/events/v1alpha1/records/{event_id}";
/// A tenant's own view of its own ledger.
pub const TENANT_RECORDS_PATH: &'static str = "/v1/zones/{zone}/ledgers/{ledger}/events/v1alpha1/records";
/// Which key signed which stretch of a producer's stream.
pub const SIGNERS_PATH: &'static str = "/v1/zones/{zone}/ledgers/{ledger}/events/v1alpha1/signers";

/// The ceilings a read is clamped to.
#[derive(Debug, Clone, Copy, PartialEq, Eq, Structural)]
pub struct Limits {
    /// The most records one page may carry.
    pub max_records: u64,
    /// The most bytes one page may carry; a single larger record is still returned.
    pub max_bytes: u64,
    /// The most positions one page will examine while looking for matches.
    pub max_examined: u64,
}

/// Where batches are delivered and records are read.
#[derive(Debug, Clone)]
pub struct Endpoints {
    pub ingest: String,
    pub records: String,
    pub record: String,
    pub tenant_records: String,
}

/// How a reader's position is spelled.
#[derive(Debug, Clone)]
pub struct Offsets {
    /// The API family an offset issued here belongs to.
    pub api: String,
    /// `opaque`: the string is this plane's to produce and to read.
    pub format: String,
    /// Whether a reader may hand back an offset it edited. It may not.
    pub editable: bool,
}

/// What this plane publishes about the native event API.
#[derive(Debug, Clone)]
pub struct Document {
    /// The contract and its version.
    pub interface: String,
    /// This store's identifier.
    pub store: String,
    pub endpoints: Endpoints,
    /// The registered event contracts this plane will store.
    pub event_types: Vec<String>,
    pub capabilities: Vec<String>,
    pub offsets: Offsets,
    /// The producer classes this store accepts a batch from.
    pub producer_classes: Vec<String>,
    /// The filter names a read accepts.
    pub filters: Vec<String>,
    /// What one page will carry at most.
    pub limits: Limits,
}

/// `s` without the `/`s it ends in.
pub open spec fn trim_slashes(s: Seq<char>) -> Seq<char>
    decreases s.len(),
{
    if s.len() > 0 && s.last() == '/' { trim_slashes(s.drop_last()) } else { s }
}

/// A base URL without the `/`s it ends in, as std's `trim_end_matches('/')` gives it.
pub fn trim_base(base: &str) -> (trimmed: String)
    ensures
        trimmed@ == trim_slashes(base@),
{
    let chars = crate::text::chars_of(base);
    let mut end = chars.len();
    assert(base@.take(end as int) =~= base@);
    while end > 0 && chars[end - 1] == '/'
        invariant
            end <= chars.len(),
            chars@ == base@,
            trim_slashes(base@) == trim_slashes(base@.take(end as int)),
        decreases end,
    {
        assert(base@.take(end as int).drop_last() =~= base@.take(end - 1));
        end -= 1;
    }
    let kept = crate::events::store::char_range(&chars, 0, end);
    assert(kept@ =~= base@.take(end as int));
    crate::text::string_of(&kept)
}

/// What this plane implements of the native event API. Every capability is a promise.
pub fn capabilities() -> (names: Vec<String>)
    ensures
        names@.len() == 6,
        names@[0]@ == "atomic-batches"@,
        names@[1]@ == "idempotent-ingest"@,
        names@[2]@ == "attributed-records"@,
        names@[3]@ == "authenticated-offsets"@,
        names@[4]@ == "read-coverage"@,
        names@[5]@ == "tenant-scoped-reads"@,
{
    let mut names: Vec<String> = Vec::new();
    names.push("atomic-batches".to_string());
    names.push("idempotent-ingest".to_string());
    names.push("attributed-records".to_string());
    names.push("authenticated-offsets".to_string());
    names.push("read-coverage".to_string());
    names.push("tenant-scoped-reads".to_string());
    names
}

/// The filter names a read accepts, in the order a read's filters declare them.
pub fn filter_names() -> (names: Vec<String>)
    ensures
        names@.len() == 10,
        names@[0]@ == "event_types"@,
        names@[1]@ == "producer"@,
        names@[2]@ == "instance"@,
        names@[3]@ == "profile"@,
        names@[4]@ == "policy_partition"@,
        names@[5]@ == "kind"@,
        names@[6]@ == "event_id"@,
        names@[7]@ == "since"@,
        names@[8]@ == "until_time"@,
        names@[9]@ == "history"@,
{
    let mut names: Vec<String> = Vec::new();
    names.push("event_types".to_string());
    names.push("producer".to_string());
    names.push("instance".to_string());
    names.push("profile".to_string());
    names.push("policy_partition".to_string());
    names.push("kind".to_string());
    names.push("event_id".to_string());
    names.push("since".to_string());
    names.push("until_time".to_string());
    names.push("history".to_string());
    names
}

/// `base` then `path`.
fn joined(base: &String, path: &str) -> (url: String)
    ensures
        url@ == base@ + path@,
{
    let mut url = base.clone();
    push_str(&mut url, path);
    url
}

/// The document for a plane reached at `base`, holding `store`, accepting
/// `event_types`, and clamping reads to `limits`. Every endpoint is the base,
/// without its trailing `/`s, followed by the path the router mounts.
pub fn document(base: &str, store: &str, event_types: &Vec<String>, limits: Limits) -> (doc: Document)
    ensures
        doc.interface@ == API@,
        doc.store@ == store@,
        doc.endpoints.ingest@ == trim_slashes(base@) + BATCHES_PATH@,
        doc.endpoints.records@ == trim_slashes(base@) + RECORDS_PATH@,
        doc.endpoints.record@ == trim_slashes(base@) + RECORD_PATH@,
        doc.endpoints.tenant_records@ == trim_slashes(base@) + TENANT_RECORDS_PATH@,
        crate::text::views(doc.event_types@) == crate::text::views(event_types@),
        doc.capabilities@.len() == 6,
        doc.offsets.api@ == API@,
        doc.offsets.format@ == "opaque"@,
        !doc.offsets.editable,
        doc.producer_classes@.len() == 1,
        doc.producer_classes@[0]@ == PRODUCER_CLASS_DATA_PLANE@,
        doc.filters@.len() == 10,
        doc.limits == limits,
{
    let trimmed = trim_base(base);
    let mut types: Vec<String> = Vec::new();
    let mut i: usize = 0;
    while i < event_types.len()
        invariant
            i <= event_types.len(),
            crate::text::views(types@) == crate::text::views(event_types@.take(i as int)),
        decreases event_types.len() - i,
    {
        let ghost before = types@;
        types.push(event_types[i].clone());
        assert(crate::text::views(types@) =~= crate::text::views(before).push(event_types@[i as int]@));
        assert(crate::text::views(event_types@.take(i + 1)) =~= crate::text::views(event_types@.take(i as int)).push(event_types@[i as int]@));
        i += 1;
    }
    assert(event_types@.take(event_types.len() as int) =~= event_types@);
    let mut classes: Vec<String> = Vec::new();
    classes.push(PRODUCER_CLASS_DATA_PLANE.to_string());
    Document {
        interface: API.to_string(),
        store: store.to_string(),
        endpoints: Endpoints {
            ingest: joined(&trimmed, BATCHES_PATH),
            records: joined(&trimmed, RECORDS_PATH),
            record: joined(&trimmed, RECORD_PATH),
            tenant_records: joined(&trimmed, TENANT_RECORDS_PATH),
        },
        event_types: types,
        capabilities: capabilities(),
        offsets: Offsets { api: API.to_string(), format: "opaque".to_string(), editable: false },
        producer_classes: classes,
        filters: filter_names(),
        limits,
    }
}

/// The native event interface as the plane's own document advertises it,
/// spliced after its other members: only when the interface was composed, so
/// that a deployment whose store would not open advertises no endpoint that
/// answers 404.
pub fn interfaces(events_composed: bool, base: &str) -> (text: String)
    ensures
        !events_composed ==> text@ == Seq::<char>::empty(),
        events_composed ==> text@ == ",\"interfaces\":{\""@ + API@ + "\":{\"configuration\":\""@ + base@
            + CONFIGURATION_PATH@ + "\"}}"@,
{
    let mut text = String::new();
    if !events_composed {
        return text;
    }
    push_str(&mut text, ",\"interfaces\":{\"");
    push_str(&mut text, API);
    push_str(&mut text, "\":{\"configuration\":\"");
    push_str(&mut text, base);
    push_str(&mut text, CONFIGURATION_PATH);
    push_str(&mut text, "\"}}");
    text
}

} // verus!
