//! The decisions of the server side of NOTP: the caps a push and a batch are
//! held to, and the acceptance rules a pushed snapshot must meet, each
//! failing closed with the code a client switches on. The objects are read,
//! decoded and walked around these decisions.

use vstd::prelude::*;

use crate::gc::{budget, closed_under, links, numbered, reaches, rooted};
use crate::store::RefState;
use crate::text::{decimal, push_decimal, push_str, same_text};

verus! {

/// The well-known root entry holding the manifest.
pub const MANIFEST_ENTRY: &'static str = "manifest";

/// The aggregate bounds one deployment enforces.
#[derive(Debug, Clone, Copy, PartialEq, Eq, Structural)]
pub struct EngineLimits {
    pub max_batch_bytes: u64,
    pub max_batch_objects: u64,
    /// The caps of one push delta, preflight at negotiate and again at commit.
    pub max_push_objects: u64,
    pub max_push_bytes: u64,
    /// The storage quota of one ledger.
    pub ledger_quota_bytes: u64,
}

/// Why the engine refused.
#[derive(Debug, Clone, PartialEq, Eq)]
pub enum EngineError {
    /// The request breaks a rule of the model or the protocol.
    Validation { code: &'static str, message: String },
    /// The ref moved, or a creation raced: carries what is current.
    Conflict { current: Option<RefState> },
    /// Nothing answers: an absent ref, an absent object.
    NotFound { what: String },
    /// A quota refused the work.
    Unavailable { message: String },
    /// The store or the signer failed.
    Internal { detail: String },
}

/// What kind of object a tree entry names.
#[derive(Debug, Clone, Copy, PartialEq, Eq, Structural)]
pub enum Kind {
    Blob,
    Tree,
    Commit,
}

/// One entry of a tree: its name, the kind it declares, and the digest it names.
#[derive(Debug, Clone)]
pub struct Entry {
    pub name: String,
    pub kind: Kind,
    pub digest: String,
}

/// The sum of the first `k` sizes.
pub open spec fn total(sizes: Seq<u64>, k: nat) -> nat
    decreases k,
{
    if k == 0 || k > sizes.len() { 0 } else { total(sizes, (k - 1) as nat) + (sizes[k - 1] as nat) }
}

/// The sum of `sizes`, where it stays within `cap`; `None` where it goes past
/// it, however far (a sum past `u64::MAX` is past every cap).
fn sum_within(sizes: &Vec<u64>, cap: u64) -> (s: Option<u64>)
    ensures
        s matches Some(v) ==> v == total(sizes@, sizes.len() as nat) && v <= cap,
        s is None ==> total(sizes@, sizes.len() as nat) > cap,
{
    let mut s: u64 = 0;
    let mut i: usize = 0;
    while i < sizes.len()
        invariant
            i <= sizes.len(),
            s == total(sizes@, i as nat),
            s <= cap,
        decreases sizes.len() - i,
    {
        if sizes[i] > cap - s {
            proof {
                lemma_total_grows(sizes@, (i + 1) as nat, sizes.len() as nat);
            }
            return None;
        }
        s = s + sizes[i];
        i += 1;
    }
    Some(s)
}

/// Summing more sizes never gives less.
proof fn lemma_total_grows(sizes: Seq<u64>, k: nat, n: nat)
    requires
        k <= n <= sizes.len(),
    ensures
        total(sizes, k) <= total(sizes, n),
    decreases n - k,
{
    if k < n {
        lemma_total_grows(sizes, k, (n - 1) as nat);
    }
}

/// A push's declared delta, held to the push caps before anything is sent:
/// its object count, then its declared bytes, summed exactly (a sum past
/// `u64::MAX` is past the cap).
pub fn push_preflight(claimed_sizes: &Vec<u64>, limits: &EngineLimits) -> (checked: Result<(), EngineError>)
    ensures
        claimed_sizes.len() > limits.max_push_objects ==> (checked matches Err(EngineError::Unavailable { message })
            && message@ == "the push declares more than "@ + decimal(limits.max_push_objects as nat) + " objects"@),
        claimed_sizes.len() <= limits.max_push_objects && total(claimed_sizes@, claimed_sizes.len() as nat) > limits.max_push_bytes
            ==> (checked matches Err(EngineError::Unavailable { message })
            && message@ == "the push declares more than "@ + decimal(limits.max_push_bytes as nat) + " bytes"@),
        claimed_sizes.len() <= limits.max_push_objects && total(claimed_sizes@, claimed_sizes.len() as nat) <= limits.max_push_bytes
            ==> checked is Ok,
{
    if claimed_sizes.len() as u64 > limits.max_push_objects {
        let mut message = String::new();
        push_str(&mut message, "the push declares more than ");
        push_decimal(&mut message, limits.max_push_objects);
        push_str(&mut message, " objects");
        return Err(EngineError::Unavailable { message });
    }
    if sum_within(claimed_sizes, limits.max_push_bytes).is_none() {
        let mut message = String::new();
        push_str(&mut message, "the push declares more than ");
        push_decimal(&mut message, limits.max_push_bytes);
        push_str(&mut message, " bytes");
        return Err(EngineError::Unavailable { message });
    }
    Ok(())
}

/// One uploaded batch, held to the advertised batch limits and to the
/// ledger's quota given the bytes it already stores: more objects or bytes
/// than advertised is a malformed batch; a full ledger is a quota refusal.
pub fn upload_admission(object_sizes: &Vec<u64>, used: u64, limits: &EngineLimits) -> (checked: Result<(), EngineError>)
    ensures
        object_sizes.len() > limits.max_batch_objects ==> (checked matches Err(EngineError::Validation { code, message })
            && code@ == "batch_rejected"@ && message@ == "more objects than the advertised batch limit"@),
        object_sizes.len() <= limits.max_batch_objects && total(object_sizes@, object_sizes.len() as nat) > limits.max_batch_bytes
            ==> (checked matches Err(EngineError::Validation { code, message }) && code@ == "batch_rejected"@
            && message@ == "more bytes than the advertised batch limit"@),
        object_sizes.len() <= limits.max_batch_objects && total(object_sizes@, object_sizes.len() as nat) <= limits.max_batch_bytes
            && crate::events::store::sat_add(used, total(object_sizes@, object_sizes.len() as nat) as u64) > limits.ledger_quota_bytes
            ==> (checked matches Err(EngineError::Unavailable { message }) && message@ == "the ledger storage quota is exhausted"@),
        object_sizes.len() <= limits.max_batch_objects && total(object_sizes@, object_sizes.len() as nat) <= limits.max_batch_bytes
            && crate::events::store::sat_add(used, total(object_sizes@, object_sizes.len() as nat) as u64) <= limits.ledger_quota_bytes
            ==> checked is Ok,
{
    if object_sizes.len() as u64 > limits.max_batch_objects {
        return Err(EngineError::Validation {
            code: "batch_rejected",
            message: "more objects than the advertised batch limit".to_string(),
        });
    }
    let bytes = match sum_within(object_sizes, limits.max_batch_bytes) {
        Some(bytes) => bytes,
        None => {
            return Err(EngineError::Validation {
                code: "batch_rejected",
                message: "more bytes than the advertised batch limit".to_string(),
            });
        },
    };
    if used.saturating_add(bytes) > limits.ledger_quota_bytes {
        return Err(EngineError::Unavailable { message: "the ledger storage quota is exhausted".to_string() });
    }
    Ok(())
}

/// A fetch asks for no more objects than one batch may carry.
pub fn fetch_admission(asked: usize, limits: &EngineLimits) -> (checked: Result<(), EngineError>)
    ensures
        asked > limits.max_batch_objects ==> (checked matches Err(EngineError::Validation { code, message })
            && code@ == "batch_rejected"@ && message@ == "more objects than the advertised batch limit"@),
        asked <= limits.max_batch_objects ==> checked is Ok,
{
    if asked as u64 > limits.max_batch_objects {
        return Err(EngineError::Validation {
            code: "batch_rejected",
            message: "more objects than the advertised batch limit".to_string(),
        });
    }
    Ok(())
}

/// The region a commit adds, held again to the push caps on what is actually
/// stored: its object count and its bytes.
pub fn within_delta_caps(objects: u64, bytes: u64, limits: &EngineLimits) -> (checked: Result<(), EngineError>)
    ensures
        (objects > limits.max_push_objects || bytes > limits.max_push_bytes) ==> (checked matches
            Err(EngineError::Unavailable { message }) && message@ == "the push exceeds the delta caps"@),
        !(objects > limits.max_push_objects || bytes > limits.max_push_bytes) ==> checked is Ok,
{
    if objects > limits.max_push_objects || bytes > limits.max_push_bytes {
        return Err(EngineError::Unavailable { message: "the push exceeds the delta caps".to_string() });
    }
    Ok(())
}

/// A push that creates a ref carries a history root: a head with
/// predecessors may only move a ref that already exists.
pub fn creation_rule(creates: bool, predecessors: usize) -> (checked: Result<(), EngineError>)
    ensures
        creates && predecessors > 0 ==> (checked matches Err(EngineError::Validation { code, message })
            && code@ == "not_a_root"@
            && message@ == "a push creating a ref must carry a history root or branch an existing commit"@),
        !(creates && predecessors > 0) ==> checked is Ok,
{
    if creates && predecessors > 0 {
        return Err(EngineError::Validation {
            code: "not_a_root",
            message: "a push creating a ref must carry a history root or branch an existing commit".to_string(),
        });
    }
    Ok(())
}

/// Whether the root entry at `k` is the manifest: a blob named `manifest`.
pub open spec fn is_manifest_entry(root: Seq<Entry>, k: int) -> bool {
    root[k].name@ == "manifest"@ && root[k].kind == Kind::Blob
}

/// The commit's manifest must be what the root tree's `manifest` blob names.
pub fn manifest_rule(root: &Vec<Entry>, commit_manifest: &str) -> (checked: Result<(), EngineError>)
    ensures
        (forall|k: int| 0 <= k < root.len() ==> !#[trigger] is_manifest_entry(root@, k)) ==> (checked matches
            Err(EngineError::Validation { code, message }) && code@ == "manifest_missing"@
            && message@ == "the root tree has no `manifest` entry"@),
        (exists|k: int| 0 <= k < root.len() && #[trigger] is_manifest_entry(root@, k)) ==> ({
            let k = choose|k: int| 0 <= k < root.len() && is_manifest_entry(root@, k)
                && forall|j: int| 0 <= j < k ==> !#[trigger] is_manifest_entry(root@, j);
            &&& root@[k].digest@ == commit_manifest@ ==> checked is Ok
            &&& root@[k].digest@ != commit_manifest@ ==> (checked matches Err(EngineError::Validation { code, message })
                && code@ == "manifest_mismatch"@
                && message@ == "the commit's manifest digest differs from the root entry `manifest`"@)
        }),
{
    let mut k: usize = 0;
    while k < root.len()
        invariant
            k <= root.len(),
            forall|j: int| 0 <= j < k ==> !#[trigger] is_manifest_entry(root@, j),
        decreases root.len() - k,
    {
        if same_text(root[k].name.as_str(), MANIFEST_ENTRY) && root[k].kind == Kind::Blob {
            proof {
                assert(is_manifest_entry(root@, k as int));
                let c = choose|c: int| 0 <= c < root.len() && is_manifest_entry(root@, c)
                    && forall|j: int| 0 <= j < c ==> !#[trigger] is_manifest_entry(root@, j);
                if c < k {
                } else if c > k {
                    assert(!is_manifest_entry(root@, k as int));
                }
            }
            if same_text(root[k].digest.as_str(), commit_manifest) {
                return Ok(());
            }
            return Err(EngineError::Validation {
                code: "manifest_mismatch",
                message: "the commit's manifest digest differs from the root entry `manifest`".to_string(),
            });
        }
        k += 1;
    }
    Err(EngineError::Validation { code: "manifest_missing", message: "the root tree has no `manifest` entry".to_string() })
}

/// Whether the root tree holds a subtree named `name`.
pub open spec fn has_subtree(root: Seq<Entry>, name: Seq<char>) -> bool {
    exists|k: int| 0 <= k < root.len() && root[k].kind == Kind::Tree && #[trigger] root[k].name@ == name
}

/// Every partition the manifest declares, in its order, has a subtree of the
/// root: the first one that has none is refused.
pub fn partitions_rule(root: &Vec<Entry>, declared: &Vec<String>) -> (checked: Result<(), EngineError>)
    ensures
        checked is Ok <==> (forall|p: int| 0 <= p < declared.len() ==> has_subtree(root@, #[trigger] declared@[p]@)),
        checked matches Err(EngineError::Validation { code, message }) ==> code@ == "partition_missing"@
            && exists|p: int| 0 <= p < declared.len() && !has_subtree(root@, #[trigger] declared@[p]@)
                && (forall|q: int| 0 <= q < p ==> has_subtree(root@, #[trigger] declared@[q]@))
                && message@ == "the manifest declares the partition `"@ + declared@[p]@ + "`, which has no subtree"@,
        checked is Err ==> checked matches Err(EngineError::Validation { .. }),
{
    let mut p: usize = 0;
    while p < declared.len()
        invariant
            p <= declared.len(),
            forall|q: int| 0 <= q < p ==> has_subtree(root@, #[trigger] declared@[q]@),
        decreases declared.len() - p,
    {
        let mut present = false;
        let mut k: usize = 0;
        while k < root.len()
            invariant
                k <= root.len(),
                p < declared.len(),
                present ==> has_subtree(root@, declared@[p as int]@),
                !present ==> forall|j: int| 0 <= j < k ==> !(root@[j].kind == Kind::Tree && #[trigger] root@[j].name@ == declared@[p as int]@),
            decreases root.len() - k,
        {
            if root[k].kind == Kind::Tree && same_text(root[k].name.as_str(), declared[p].as_str()) {
                present = true;
            }
            k += 1;
        }
        if !present {
            let mut message = String::new();
            push_str(&mut message, "the manifest declares the partition `");
            push_str(&mut message, declared[p].as_str());
            push_str(&mut message, "`, which has no subtree");
            return Err(EngineError::Validation { code: "partition_missing", message });
        }
        p += 1;
    }
    Ok(())
}

/// What a root entry is: the manifest, or a partition the manifest declares.
/// A blob other than the manifest, and a subtree nobody declared, are refused.
pub fn root_entry_rule(entry: &Entry, declared: &Vec<String>) -> (checked: Result<bool, EngineError>)
    ensures
        entry.kind == Kind::Blob && entry.name@ == "manifest"@ ==> checked == Ok::<bool, EngineError>(false),
        entry.kind == Kind::Blob && entry.name@ != "manifest"@ ==> (checked matches Err(EngineError::Validation { code, message })
            && code@ == "partition_rejected"@
            && message@ == "the root entry `"@ + entry.name@ + "` is neither a partition nor the manifest"@),
        entry.kind == Kind::Tree && (exists|p: int| 0 <= p < declared.len() && #[trigger] declared@[p]@ == entry.name@)
            ==> checked == Ok::<bool, EngineError>(true),
        entry.kind == Kind::Tree && !(exists|p: int| 0 <= p < declared.len() && #[trigger] declared@[p]@ == entry.name@)
            ==> (checked matches Err(EngineError::Validation { code, message }) && code@ == "partition_undeclared"@
            && message@ == "the partition `"@ + entry.name@ + "` is not declared by the manifest"@),
        entry.kind == Kind::Commit ==> (checked matches Err(EngineError::Validation { code, .. }) && code@ == "kind_mismatch"@),
{
    match entry.kind {
        Kind::Blob => {
            if same_text(entry.name.as_str(), MANIFEST_ENTRY) {
                Ok(false)
            } else {
                let mut message = String::new();
                push_str(&mut message, "the root entry `");
                push_str(&mut message, entry.name.as_str());
                push_str(&mut message, "` is neither a partition nor the manifest");
                Err(EngineError::Validation { code: "partition_rejected", message })
            }
        },
        Kind::Tree => {
            let mut p: usize = 0;
            while p < declared.len()
                invariant
                    p <= declared.len(),
                    entry.kind == Kind::Tree,
                    forall|q: int| 0 <= q < p ==> #[trigger] declared@[q]@ != entry.name@,
                decreases declared.len() - p,
            {
                if same_text(declared[p].as_str(), entry.name.as_str()) {
                    return Ok(true);
                }
                p += 1;
            }
            let mut message = String::new();
            push_str(&mut message, "the partition `");
            push_str(&mut message, entry.name.as_str());
            push_str(&mut message, "` is not declared by the manifest");
            Err(EngineError::Validation { code: "partition_undeclared", message })
        },
        Kind::Commit => Err(EngineError::Validation {
            code: "kind_mismatch",
            message: "a tree entry names a commit".to_string(),
        }),
    }
}

/// A partition holds at most one schema, and one when it declares a schema.
pub fn schema_rule(partition: &str, schemas: u64, declares_schema: bool) -> (checked: Result<(), EngineError>)
    ensures
        schemas > 1 ==> (checked matches Err(EngineError::Validation { code, message }) && code@ == "schema_ambiguous"@
            && message@ == "the partition `"@ + partition@ + "` holds "@ + decimal(schemas as nat) + " schemas: at most one"@),
        schemas == 0 && declares_schema ==> (checked matches Err(EngineError::Validation { code, message })
            && code@ == "schema_missing"@
            && message@ == "the partition `"@ + partition@ + "` declares a schema and the commit carries none"@),
        schemas == 1 || (schemas == 0 && !declares_schema) ==> checked is Ok,
{
    if schemas > 1 {
        let mut message = String::new();
        push_str(&mut message, "the partition `");
        push_str(&mut message, partition);
        push_str(&mut message, "` holds ");
        push_decimal(&mut message, schemas);
        push_str(&mut message, " schemas: at most one");
        return Err(EngineError::Validation { code: "schema_ambiguous", message });
    }
    if declares_schema && schemas == 0 {
        let mut message = String::new();
        push_str(&mut message, "the partition `");
        push_str(&mut message, partition);
        push_str(&mut message, "` declares a schema and the commit carries none");
        return Err(EngineError::Validation { code: "schema_missing", message });
    }
    Ok(())
}

/// Whether a media type is the language's policy type or its schema type.
pub open spec fn owned(media_type: Seq<char>, policy_type: Seq<char>, schema_type: Option<Seq<char>>) -> bool {
    media_type == policy_type || schema_type == Some(media_type)
}

/// A partition's media types all belong to the language its runtime names,
/// given that language's policy media type and schema media type; a schema
/// only where the partition declares one, and only where the language has one.
pub fn media_types_rule(
    partition: &str,
    language: &str,
    declares_schema: bool,
    media_types: &Vec<String>,
    policy_type: &str,
    schema_type: Option<&str>,
) -> (checked: Result<(), EngineError>)
    ensures
        declares_schema && schema_type is None ==> (checked matches Err(EngineError::Validation { code, message })
            && code@ == "manifest_rejected"@
            && message@ == "partition `"@ + partition@ + "` declares schema: true, but the language `"@ + language@
                + "` has no schema"@),
        checked is Ok <==> (!(declares_schema && schema_type is None) && forall|i: int| 0 <= i < media_types.len() ==> {
            let m = #[trigger] media_types@[i]@;
            let schema = match schema_type { Some(s) => Some(s@), None => None };
            owned(m, policy_type@, schema) && (schema == Some(m) ==> declares_schema)
        }),
{
    if declares_schema && schema_type.is_none() {
        let mut message = String::new();
        push_str(&mut message, "partition `");
        push_str(&mut message, partition);
        push_str(&mut message, "` declares schema: true, but the language `");
        push_str(&mut message, language);
        push_str(&mut message, "` has no schema");
        return Err(EngineError::Validation { code: "manifest_rejected", message });
    }
    let ghost schema = match schema_type { Some(s) => Some(s@), None => None::<Seq<char>> };
    let mut i: usize = 0;
    while i < media_types.len()
        invariant
            i <= media_types.len(),
            !(declares_schema && schema_type is None),
            schema == (match schema_type { Some(s) => Some(s@), None => None::<Seq<char>> }),
            forall|j: int| 0 <= j < i ==> {
                let m = #[trigger] media_types@[j]@;
                owned(m, policy_type@, schema) && (schema == Some(m) ==> declares_schema)
            },
        decreases media_types.len() - i,
    {
        let media_type = media_types[i].as_str();
        let is_policy = same_text(policy_type, media_type);
        let is_schema = match schema_type {
            Some(s) => same_text(s, media_type),
            None => false,
        };
        if !is_policy && !is_schema {
            let mut message = String::new();
            push_str(&mut message, "partition `");
            push_str(&mut message, partition);
            push_str(&mut message, "` allows `");
            push_str(&mut message, media_type);
            push_str(&mut message, "`, which does not belong to the language `");
            push_str(&mut message, language);
            push_str(&mut message, "`");
            return Err(EngineError::Validation { code: "media_type_not_allowed", message });
        }
        if is_schema && !declares_schema {
            let mut message = String::new();
            push_str(&mut message, "partition `");
            push_str(&mut message, partition);
            push_str(&mut message, "` allows a schema media type but declares schema: false");
            return Err(EngineError::Validation { code: "manifest_rejected", message });
        }
        i += 1;
    }
    Ok(())
}

/// Whether an entry's alias annotation mirrors its source's `@alias`: both
/// absent, or both present and equal.
pub open spec fn alias_mirrored(declared_alias: Option<&str>, annotated_alias: Option<&str>) -> bool {
    match (declared_alias, annotated_alias) {
        (Some(d), Some(a)) => d@ == a@,
        (None, None) => true,
        _ => false,
    }
}

/// A policy entry's identity: it carries an id and a kind annotation, an alias
/// annotation exactly when its source declares one and equal to it, and the
/// id the identity cascade resolves. The first of these that fails is the
/// refusal.
pub fn identity_rule(
    path: &str,
    annotated_id: Option<&str>,
    has_kind: bool,
    declared_alias: Option<&str>,
    annotated_alias: Option<&str>,
    resolved_id: &str,
) -> (checked: Result<(), EngineError>)
    ensures
        annotated_id is None ==> (checked matches Err(EngineError::Validation { code, message })
            && code@ == "policy_id_missing"@
            && message@ == "the policy `"@ + path@ + "` carries no id annotation"@),
        annotated_id is Some && !has_kind ==> (checked matches Err(EngineError::Validation { code, message })
            && code@ == "policy_kind_missing"@
            && message@ == "the policy `"@ + path@ + "` carries no kind annotation"@),
        annotated_id is Some && has_kind && !alias_mirrored(declared_alias, annotated_alias)
            ==> (checked matches Err(EngineError::Validation { code, message })
            && code@ == "policy_alias_mismatch"@
            && message@ == "the policy `"@ + path@ + "` annotates an alias that does not mirror the source's @alias"@),
        annotated_id is Some && has_kind && alias_mirrored(declared_alias, annotated_alias)
            && annotated_id.unwrap()@ != resolved_id@
            ==> (checked matches Err(EngineError::Validation { code, message })
            && code@ == "policy_id_mismatch"@
            && message@ == "the policy `"@ + path@ + "` annotates id `"@ + annotated_id.unwrap()@ + "` but the cascade resolves `"@
                + resolved_id@ + "`"@),
        checked is Ok <==> ({
            &&& annotated_id matches Some(id) && id@ == resolved_id@
            &&& has_kind
            &&& alias_mirrored(declared_alias, annotated_alias)
        }),
{
    let id = match annotated_id {
        Some(id) => id,
        None => {
            let mut message = String::new();
            push_str(&mut message, "the policy `");
            push_str(&mut message, path);
            push_str(&mut message, "` carries no id annotation");
            return Err(EngineError::Validation { code: "policy_id_missing", message });
        },
    };
    if !has_kind {
        let mut message = String::new();
        push_str(&mut message, "the policy `");
        push_str(&mut message, path);
        push_str(&mut message, "` carries no kind annotation");
        return Err(EngineError::Validation { code: "policy_kind_missing", message });
    }
    let mirrored = match (declared_alias, annotated_alias) {
        (Some(d), Some(a)) => same_text(d, a),
        (None, None) => true,
        _ => false,
    };
    if !mirrored {
        let mut message = String::new();
        push_str(&mut message, "the policy `");
        push_str(&mut message, path);
        push_str(&mut message, "` annotates an alias that does not mirror the source's @alias");
        return Err(EngineError::Validation { code: "policy_alias_mismatch", message });
    }
    if !same_text(resolved_id, id) {
        let mut message = String::new();
        push_str(&mut message, "the policy `");
        push_str(&mut message, path);
        push_str(&mut message, "` annotates id `");
        push_str(&mut message, id);
        push_str(&mut message, "` but the cascade resolves `");
        push_str(&mut message, resolved_id);
        push_str(&mut message, "`");
        return Err(EngineError::Validation { code: "policy_id_mismatch", message });
    }
    Ok(())
}

/// Whether a cached signed statement may be served for a ref: only while it
/// names the ref's current head and counter.
pub fn statement_current(cached_head: &str, cached_counter: u64, state: &RefState) -> (current: bool)
    ensures
        current == (cached_head@ == state.head@ && cached_counter == state.counter),
{
    same_text(cached_head, state.head.as_str()) && cached_counter == state.counter
}

/// Whether `text` begins with `prefix`.
pub open spec fn begins_with(text: Seq<char>, prefix: Seq<char>) -> bool {
    prefix.len() <= text.len() && text.take(prefix.len() as int) == prefix
}

/// Whether a text begins with a prefix.
fn starts_with(text: &str, prefix: &str) -> (begins: bool)
    ensures
        begins == begins_with(text@, prefix@),
{
    let t = crate::text::chars_of(text);
    let p = crate::text::chars_of(prefix);
    if p.len() > t.len() {
        return false;
    }
    let mut i: usize = 0;
    while i < p.len()
        invariant
            i <= p.len() <= t.len(),
            t@ == text@,
            p@ == prefix@,
            forall|j: int| 0 <= j < i ==> t@[j] == p@[j],
        decreases p.len() - i,
    {
        if t[i] != p[i] {
            assert(text@.take(prefix@.len() as int)[i as int] != prefix@[i as int]);
            return false;
        }
        i += 1;
    }
    assert(text@.take(prefix@.len() as int) =~= prefix@);
    true
}

/// Whether a text is one of `texts`.
fn listed(texts: &Vec<String>, text: &str) -> (found: bool)
    ensures
        found == crate::text::views(texts@).contains(text@),
{
    let mut i: usize = 0;
    while i < texts.len()
        invariant
            i <= texts.len(),
            forall|j: int| 0 <= j < i ==> texts@[j]@ != text@,
        decreases texts.len() - i,
    {
        if same_text(texts[i].as_str(), text) {
            assert(crate::text::views(texts@)[i as int] == text@);
            return true;
        }
        i += 1;
    }
    assert forall|j: int| 0 <= j < crate::text::views(texts@).len() implies crate::text::views(texts@)[j] != text@ by {
        assert(crate::text::views(texts@)[j] == texts@[j]@);
    }
    false
}

/// One blob of a partition: its media type must be one the partition allows.
/// The answer is whether it is a schema (its type is some language's schema
/// type, `schema_types`) and whether it is a policy (its type is of the policy
/// family, `policy_prefix`), which decide what else it is held to.
pub fn blob_rule(media_type: &str, allowed: &Vec<String>, schema_types: &Vec<String>, policy_prefix: &str)
    -> (checked: Result<(bool, bool), EngineError>)
    ensures
        !crate::text::views(allowed@).contains(media_type@) ==> (checked matches Err(EngineError::Validation { code, message })
            && code@ == "media_type_not_allowed"@
            && message@ == "`"@ + media_type@ + "` is not allowed in this partition"@),
        crate::text::views(allowed@).contains(media_type@) ==> checked == Ok::<(bool, bool), EngineError>((
            crate::text::views(schema_types@).contains(media_type@),
            begins_with(media_type@, policy_prefix@),
        )),
{
    if !listed(allowed, media_type) {
        let mut message = String::new();
        push_str(&mut message, "`");
        push_str(&mut message, media_type);
        push_str(&mut message, "` is not allowed in this partition");
        return Err(EngineError::Validation { code: "media_type_not_allowed", message });
    }
    Ok((listed(schema_types, media_type), starts_with(media_type, policy_prefix)))
}

/// Whether the entry at `k` declares a kind other than what it names.
pub open spec fn misdeclared(entries: Seq<Entry>, actual: Seq<Kind>, k: int) -> bool {
    entries[k].kind != actual[k]
}

/// Every entry of a tree declares the kind of what it names: `actual[i]` is
/// the kind of the object `entries[i]` names. The first entry that declares
/// another is the refusal.
pub fn entry_kinds_rule(tree: &str, entries: &Vec<Entry>, actual: &Vec<Kind>) -> (checked: Result<(), EngineError>)
    requires
        actual.len() == entries.len(),
    ensures
        checked is Ok <==> forall|k: int| 0 <= k < entries.len() ==> !#[trigger] misdeclared(entries@, actual@, k),
        checked matches Err(EngineError::Validation { code, message }) ==> code@ == "kind_mismatch"@
            && exists|k: int| 0 <= k < entries.len() && #[trigger] misdeclared(entries@, actual@, k)
                && (forall|j: int| 0 <= j < k ==> !misdeclared(entries@, actual@, j))
                && message@ == "entry `"@ + entries@[k].name@ + "` of tree "@ + tree@ + " declares the wrong kind"@,
        checked is Err ==> checked matches Err(EngineError::Validation { .. }),
{
    let mut k: usize = 0;
    while k < entries.len()
        invariant
            k <= entries.len(),
            actual.len() == entries.len(),
            forall|j: int| 0 <= j < k ==> !#[trigger] misdeclared(entries@, actual@, j),
        decreases entries.len() - k,
    {
        if entries[k].kind != actual[k] {
            assert(misdeclared(entries@, actual@, k as int));
            let mut message = String::new();
            push_str(&mut message, "entry `");
            push_str(&mut message, entries[k].name.as_str());
            push_str(&mut message, "` of tree ");
            push_str(&mut message, tree);
            push_str(&mut message, " declares the wrong kind");
            return Err(EngineError::Validation { code: "kind_mismatch", message });
        }
        k += 1;
    }
    Ok(())
}

/// How many objects one walk of a history may visit.
pub const MAX_HISTORY_WALK: usize = 1000000;

/// Whether a set of objects holds the walk's start, unless the start is a
/// stop, and every object that a held, non-stop member names, unless that one
/// is a stop.
pub open spec fn region_closed(held: Seq<Option<Vec<usize>>>, stop: Seq<bool>, start: usize, s: Set<usize>) -> bool {
    &&& !stop[start as int] ==> s.contains(start)
    &&& forall|i: usize, k: int| #![trigger s.contains(i), links(held, i)[k]]
        s.contains(i) && i < held.len() && !stop[i as int] && held[i as int] is Some && 0 <= k < links(held, i).len()
            && !stop[links(held, i)[k] as int] ==> s.contains(links(held, i)[k])
}

/// Whether object `i` lies in the region a walk from `start` covers before it
/// meets the `stop` objects: in every region-closed set.
pub open spec fn in_region(held: Seq<Option<Vec<usize>>>, stop: Seq<bool>, start: usize, i: usize) -> bool {
    forall|s: Set<usize>| #[trigger] region_closed(held, stop, start, s) ==> s.contains(i)
}

/// The region a push adds: every object reachable from `start` without
/// entering a `stop` object (the old head's closure). An object the store
/// does not hold (`held[i]` is `None`) still belongs to the region, and names
/// nothing: the caller decides whether its absence is an error or work.
/// `Ok` gives, for each object, whether it is in the region; `Err` says the
/// region holds more than `limit` objects, naming `limit + 1` of them.
pub fn walk_region(held: &Vec<Option<Vec<usize>>>, stop: &Vec<bool>, start: usize, limit: usize)
    -> (region: Result<Vec<bool>, Ghost<Seq<usize>>>)
    requires
        numbered(held@, seq![start]),
        stop.len() == held.len(),
    ensures
        region matches Ok(r) ==> r.len() == held.len()
            && forall|i: usize| i < held.len() ==> (r@[i as int] <==> !stop@[i as int] && in_region(held@, stop@, start, i)),
        region matches Err(w) ==> w@.len() == limit + 1 && w@.no_duplicates()
            && forall|k: int| 0 <= k < w@.len() ==> (#[trigger] w@[k] < held.len() && !stop@[w@[k] as int]
                && in_region(held@, stop@, start, w@[k])),
{
    let mut reached: Vec<bool> = Vec::new();
    let mut n: usize = 0;
    while n < held.len()
        invariant
            n <= held.len(),
            reached.len() == n,
            forall|j: int| 0 <= j < n ==> !reached@[j],
        decreases held.len() - n,
    {
        reached.push(false);
        n += 1;
    }
    let mut queue: Vec<usize> = Vec::new();
    queue.push(start);
    let mut count: usize = 0;
    let ghost mut order: Seq<usize> = Seq::empty();
    proof {
        assert(seq![start][0] == start);
        assert forall|s: Set<usize>| #[trigger] region_closed(held@, stop@, start, s) && !stop@[start as int]
            implies s.contains(start) by {}
        assert(queue@[0] == start);
    }
    while queue.len() > 0
        invariant
            numbered(held@, seq![start]),
            start < held.len(),
            stop.len() == held.len(),
            reached.len() == held.len(),
            forall|k: int| 0 <= k < queue.len() ==> #[trigger] queue@[k] < held.len(),
            forall|i: int| 0 <= i < held.len() && #[trigger] reached@[i] ==> !stop@[i],
            forall|i: usize, k: int| #![trigger reached@[i as int], links(held@, i)[k]]
                i < held.len() && reached@[i as int] && held@[i as int] is Some && 0 <= k < links(held@, i).len()
                ==> stop@[links(held@, i)[k] as int] || reached@[links(held@, i)[k] as int]
                    || queue@.contains(links(held@, i)[k]),
            !stop@[start as int] ==> reached@[start as int] || queue@.contains(start),
            forall|i: usize| i < held.len() && #[trigger] reached@[i as int] ==> in_region(held@, stop@, start, i),
            forall|k: int| 0 <= k < queue.len() && !stop@[queue@[k] as int] ==> in_region(held@, stop@, start, #[trigger] queue@[k]),
            order.len() == count,
            count <= limit,
            order.no_duplicates(),
            forall|k: int| 0 <= k < order.len() ==> #[trigger] order[k] < held.len() && reached@[order[k] as int],
            forall|i: int| 0 <= i < held.len() && #[trigger] reached@[i] ==> order.contains(i as usize),
        decreases budget(held@, reached@, held.len() as nat) + queue.len(),
    {
        let ghost before = queue@;
        let x = queue.pop().unwrap();
        proof {
            assert(before == queue@.push(x));
            assert(before[before.len() - 1] == x);
            assert forall|c: usize| before.contains(c) implies queue@.contains(c) || c == x by {
                let j = choose|j: int| 0 <= j < before.len() && before[j] == c;
                if j < queue.len() {
                    assert(queue@[j] == c);
                }
            }
            assert forall|k: int| 0 <= k < queue.len() && !stop@[queue@[k] as int]
                implies in_region(held@, stop@, start, #[trigger] queue@[k]) by {
                assert(before[k] == queue@[k]);
            }
        }
        if stop[x] || reached[x] {
            continue;
        }
        if count >= limit {
            proof {
                assert(!order.contains(x));
            }
            return Err(Ghost(order.push(x)));
        }
        proof {
            crate::gc::lemma_budget_reach(held@, reached@, x as int, held.len() as nat);
            assert(!order.contains(x));
        }
        let ghost was = reached@;
        let ghost prev = order;
        reached.set(x, true);
        count = count + 1;
        proof {
            order = prev.push(x);
            assert forall|i: int| 0 <= i < held.len() && #[trigger] reached@[i] implies order.contains(i as usize) by {
                if i != x as int {
                    assert(was[i]);
                    assert(prev.contains(i as usize));
                    let j = choose|j: int| 0 <= j < prev.len() && prev[j] == i as usize;
                    assert(order[j] == prev[j]);
                } else {
                    assert(order[order.len() - 1] == x);
                }
            }
            assert forall|k: int| 0 <= k < order.len() implies #[trigger] order[k] < held.len() && reached@[order[k] as int] by {
                if k < prev.len() {
                    assert(order[k] == prev[k]);
                }
            }
        }
        match &held[x] {
            None => {},
            Some(next) => {
                let ghost base = queue@;
                let mut k: usize = 0;
                while k < next.len()
                    invariant
                        k <= next.len(),
                        next@ == links(held@, x),
                        numbered(held@, seq![start]),
                        x < held.len(),
                        held@[x as int] is Some,
                        queue@ == base + next@.take(k as int),
                    decreases next.len() - k,
                {
                    queue.push(next[k]);
                    assert(next@.take(k + 1) =~= next@.take(k as int).push(next@[k as int]));
                    k += 1;
                }
                proof {
                    assert(next@.take(next.len() as int) =~= next@);
                    assert(queue@ == base + next@);
                    assert forall|c: usize| base.contains(c) implies queue@.contains(c) by {
                        let j = choose|j: int| 0 <= j < base.len() && base[j] == c;
                        assert(queue@[j] == c);
                    }
                    assert forall|k2: int| 0 <= k2 < next.len() implies queue@.contains(#[trigger] next@[k2]) by {
                        assert(queue@[base.len() + k2] == next@[k2]);
                    }
                    assert forall|j: int| 0 <= j < queue.len() implies #[trigger] queue@[j] < held.len() by {
                        if j >= base.len() {
                            assert(queue@[j] == next@[j - base.len()]);
                        }
                    }
                    assert forall|j: int| 0 <= j < queue.len() && !stop@[queue@[j] as int]
                        implies in_region(held@, stop@, start, #[trigger] queue@[j]) by {
                        if j >= base.len() {
                            let k2 = j - base.len();
                            assert(queue@[j] == next@[k2]);
                            assert forall|s: Set<usize>| #[trigger] region_closed(held@, stop@, start, s)
                                implies s.contains(queue@[j]) by {
                                assert(s.contains(x));
                                assert(s.contains(links(held@, x)[k2]));
                            }
                        } else {
                            assert(queue@[j] == base[j]);
                        }
                    }
                }
            },
        }
    }
    proof {
        let r = reached@;
        let s = Set::new(|i: usize| i < held.len() && r[i as int]);
        assert forall|i: usize, k: int| #![trigger s.contains(i), links(held@, i)[k]]
            s.contains(i) && i < held.len() && !stop@[i as int] && held@[i as int] is Some && 0 <= k < links(held@, i).len()
                && !stop@[links(held@, i)[k] as int]
            implies s.contains(links(held@, i)[k]) by {
            assert(r[i as int]);
            assert(links(held@, i)[k] < held.len());
        }
        assert(region_closed(held@, stop@, start, s));
        assert forall|i: usize| i < held.len() && !stop@[i as int] && in_region(held@, stop@, start, i) implies r[i as int] by {
            assert(s.contains(i));
        }
    }
    Ok(reached)
}

/// Whether `ancestor` is reached from `descendant` along predecessors: the
/// fast-forward test of a push. `preds[i]` is the predecessors of commit `i`,
/// `None` where `i` is not a commit this store can load. The walk follows at
/// most `limit` commits: `true` is always an ancestry; `false` is no ancestry
/// unless the walk saw `limit` distinct commits, all of them ancestors of
/// `descendant`.
pub fn is_ancestor(preds: &Vec<Option<Vec<usize>>>, ancestor: usize, descendant: usize, limit: usize) -> (found: bool)
    requires
        numbered(preds@, seq![descendant]),
    ensures
        found ==> reaches(preds@, seq![descendant], ancestor),
        !found ==> !reaches(preds@, seq![descendant], ancestor)
            || exists|w: Seq<usize>| w.len() >= limit && w.no_duplicates()
                && forall|k: int| 0 <= k < w.len() ==> reaches(preds@, seq![descendant], #[trigger] w[k]),
{
    let ghost roots = seq![descendant];
    let mut seen: Vec<bool> = Vec::new();
    let mut n: usize = 0;
    while n < preds.len()
        invariant
            n <= preds.len(),
            seen.len() == n,
            forall|j: int| 0 <= j < n ==> !seen@[j],
        decreases preds.len() - n,
    {
        seen.push(false);
        n += 1;
    }
    let mut queue: Vec<usize> = Vec::new();
    queue.push(descendant);
    let mut count: usize = 0;
    let ghost mut order: Seq<usize> = Seq::empty();
    proof {
        assert(roots[0] == descendant);
        assert(queue@[0] == descendant);
        assert forall|s: Set<usize>| #[trigger] closed_under(preds@, s) && rooted(roots, s) implies s.contains(descendant) by {
            assert(s.contains(roots[0]));
        }
    }
    while queue.len() > 0
        invariant
            roots == seq![descendant],
            numbered(preds@, roots),
            descendant < preds.len(),
            seen.len() == preds.len(),
            forall|k: int| 0 <= k < queue.len() ==> #[trigger] queue@[k] < preds.len(),
            forall|i: int| 0 <= i < preds.len() && #[trigger] seen@[i] ==> i != ancestor,
            count < limit ==> forall|i: usize, k: int| #![trigger seen@[i as int], links(preds@, i)[k]]
                i < preds.len() && seen@[i as int] && preds@[i as int] is Some && 0 <= k < links(preds@, i).len()
                ==> seen@[links(preds@, i)[k] as int] || queue@.contains(links(preds@, i)[k]),
            seen@[descendant as int] || queue@.contains(descendant),
            forall|i: usize| i < preds.len() && #[trigger] seen@[i as int] ==> reaches(preds@, roots, i),
            forall|k: int| 0 <= k < queue.len() ==> reaches(preds@, roots, #[trigger] queue@[k]),
            order.len() == count,
            count <= limit,
            order.no_duplicates(),
            forall|k: int| 0 <= k < order.len() ==> #[trigger] order[k] < preds.len() && seen@[order[k] as int],
        decreases budget(preds@, seen@, preds.len() as nat) + queue.len(),
    {
        let ghost before = queue@;
        let x = queue.pop().unwrap();
        proof {
            assert(before == queue@.push(x));
            assert(before[before.len() - 1] == x);
            assert forall|c: usize| before.contains(c) implies queue@.contains(c) || c == x by {
                let j = choose|j: int| 0 <= j < before.len() && before[j] == c;
                if j < queue.len() {
                    assert(queue@[j] == c);
                }
            }
            assert forall|k: int| 0 <= k < queue.len() implies reaches(preds@, roots, #[trigger] queue@[k]) by {
                assert(before[k] == queue@[k]);
            }
        }
        if x == ancestor {
            return true;
        }
        if seen[x] {
            continue;
        }
        proof {
            crate::gc::lemma_budget_reach(preds@, seen@, x as int, preds.len() as nat);
            assert(!order.contains(x));
        }
        seen.set(x, true);
        if count < limit {
            count = count + 1;
            proof {
                let prev = order;
                order = prev.push(x);
                assert forall|k: int| 0 <= k < order.len() implies #[trigger] order[k] < preds.len() && seen@[order[k] as int] by {
                    if k < prev.len() {
                        assert(order[k] == prev[k]);
                    }
                }
            }
        }
        if count >= limit {
            continue;
        }
        match &preds[x] {
            None => {},
            Some(next) => {
                let ghost base = queue@;
                let mut k: usize = 0;
                while k < next.len()
                    invariant
                        k <= next.len(),
                        next@ == links(preds@, x),
                        numbered(preds@, roots),
                        x < preds.len(),
                        preds@[x as int] is Some,
                        queue@ == base + next@.take(k as int),
                    decreases next.len() - k,
                {
                    queue.push(next[k]);
                    assert(next@.take(k + 1) =~= next@.take(k as int).push(next@[k as int]));
                    k += 1;
                }
                proof {
                    assert(next@.take(next.len() as int) =~= next@);
                    assert(queue@ == base + next@);
                    assert forall|c: usize| base.contains(c) implies queue@.contains(c) by {
                        let j = choose|j: int| 0 <= j < base.len() && base[j] == c;
                        assert(queue@[j] == c);
                    }
                    assert forall|k2: int| 0 <= k2 < next.len() implies queue@.contains(#[trigger] next@[k2]) by {
                        assert(queue@[base.len() + k2] == next@[k2]);
                    }
                    assert forall|j: int| 0 <= j < queue.len() implies #[trigger] queue@[j] < preds.len() by {
                        if j >= base.len() {
                            assert(queue@[j] == next@[j - base.len()]);
                        }
                    }
                    assert forall|j: int| 0 <= j < queue.len() implies reaches(preds@, roots, #[trigger] queue@[j]) by {
                        if j >= base.len() {
                            let k2 = j - base.len();
                            assert(queue@[j] == next@[k2]);
                            assert forall|s: Set<usize>| #[trigger] closed_under(preds@, s) && rooted(roots, s)
                                implies s.contains(queue@[j]) by {
                                assert(s.contains(x));
                                assert(s.contains(links(preds@, x)[k2]));
                            }
                        } else {
                            assert(queue@[j] == base[j]);
                        }
                    }
                }
            },
        }
    }
    proof {
        if count < limit {
            let r = seen@;
            let s = Set::new(|i: usize| i < preds.len() && r[i as int]);
            assert forall|i: usize, k: int| #![trigger s.contains(i), links(preds@, i)[k]]
                s.contains(i) && i < preds.len() && preds@[i as int] is Some && 0 <= k < links(preds@, i).len()
                implies s.contains(links(preds@, i)[k]) by {
                assert(r[i as int]);
                assert(links(preds@, i)[k] < preds.len());
            }
            assert(closed_under(preds@, s));
            assert(rooted(roots, s)) by {
                assert(roots[0] == descendant);
            }
            assert(!s.contains(ancestor));
        } else {
            assert(order.len() >= limit);
            assert forall|k: int| 0 <= k < order.len() implies reaches(preds@, roots, #[trigger] order[k]) by {
                assert(seen@[order[k] as int]);
            }
        }
    }
    false
}

} // verus!
