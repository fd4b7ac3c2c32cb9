use permguard_control_plane::api::{grpc_code, ApiError, ErrorClass, GrpcCode};
use permguard_control_plane::catalog::{api_error as catalog_error, is_mutation, on_the_trail, CatalogRefusal};
use permguard_control_plane::engine::{
    creation_rule, fetch_admission, identity_rule, manifest_rule, media_types_rule, partitions_rule,
    push_preflight, root_entry_rule, schema_rule, statement_current, upload_admission, within_delta_caps,
    EngineError, EngineLimits, Entry, Kind,
};
use permguard_control_plane::engine::{blob_rule, entry_kinds_rule, is_ancestor, walk_region};
use permguard_control_plane::notp::{api_error as notp_error, optional_text};
use permguard_control_plane::store::RefState;

fn limits() -> EngineLimits {
    EngineLimits {
        max_batch_bytes: 100,
        max_batch_objects: 3,
        max_push_objects: 4,
        max_push_bytes: 1000,
        ledger_quota_bytes: 500,
    }
}

fn code_of(result: Result<(), EngineError>) -> &'static str {
    match result {
        Err(EngineError::Validation { code, .. }) => code,
        Err(EngineError::Unavailable { .. }) => "unavailable",
        Err(_) => "other",
        Ok(()) => "ok",
    }
}

fn entry(name: &str, kind: Kind, digest: &str) -> Entry {
    Entry { name: name.to_owned(), kind, digest: digest.to_owned() }
}

#[test]
fn pushes_and_batches_are_held_to_their_caps() {
    assert_eq!(code_of(push_preflight(&vec![10, 20], &limits())), "ok");
    assert_eq!(
        push_preflight(&vec![1; 5], &limits()),
        Err(EngineError::Unavailable { message: "the push declares more than 4 objects".to_owned() })
    );
    assert_eq!(
        push_preflight(&vec![600, 600], &limits()),
        Err(EngineError::Unavailable { message: "the push declares more than 1000 bytes".to_owned() })
    );
    assert_eq!(code_of(upload_admission(&vec![10, 20], 0, &limits())), "ok");
    assert_eq!(code_of(upload_admission(&vec![1; 4], 0, &limits())), "batch_rejected");
    assert_eq!(code_of(upload_admission(&vec![60, 60], 0, &limits())), "batch_rejected");
    assert_eq!(code_of(upload_admission(&vec![60], 450, &limits())), "unavailable");
    assert_eq!(code_of(fetch_admission(4, &limits())), "batch_rejected");
    assert_eq!(code_of(within_delta_caps(5, 10, &limits())), "unavailable");
    assert_eq!(code_of(within_delta_caps(4, 1000, &limits())), "ok");
    assert_eq!(code_of(creation_rule(true, 1)), "not_a_root");
    assert_eq!(code_of(creation_rule(false, 1)), "ok");
}

#[test]
fn a_snapshot_root_holds_the_manifest_and_its_partitions() {
    let root = vec![
        entry("manifest", Kind::Blob, "sha256:m"),
        entry("policies", Kind::Tree, "sha256:t"),
    ];
    assert_eq!(code_of(manifest_rule(&root, "sha256:m")), "ok");
    assert_eq!(code_of(manifest_rule(&root, "sha256:other")), "manifest_mismatch");
    assert_eq!(code_of(manifest_rule(&vec![entry("manifest", Kind::Tree, "sha256:m")], "sha256:m")), "manifest_missing");
    assert_eq!(code_of(partitions_rule(&root, &vec!["policies".to_owned()])), "ok");
    assert_eq!(
        partitions_rule(&root, &vec!["policies".to_owned(), "schemas".to_owned()]),
        Err(EngineError::Validation {
            code: "partition_missing",
            message: "the manifest declares the partition `schemas`, which has no subtree".to_owned(),
        })
    );
    let declared = vec!["policies".to_owned()];
    assert_eq!(root_entry_rule(&root[0], &declared), Ok(false));
    assert_eq!(root_entry_rule(&root[1], &declared), Ok(true));
    assert!(matches!(
        root_entry_rule(&entry("readme", Kind::Blob, "x"), &declared),
        Err(EngineError::Validation { code: "partition_rejected", .. })
    ));
    assert!(matches!(
        root_entry_rule(&entry("other", Kind::Tree, "x"), &declared),
        Err(EngineError::Validation { code: "partition_undeclared", .. })
    ));
}

#[test]
fn partitions_hold_their_own_language_and_at_most_one_schema() {
    assert_eq!(code_of(schema_rule("p", 2, true)), "schema_ambiguous");
    assert_eq!(code_of(schema_rule("p", 0, true)), "schema_missing");
    assert_eq!(code_of(schema_rule("p", 0, false)), "ok");
    let types = vec!["policy/cedar".to_owned(), "schema/cedar".to_owned()];
    assert_eq!(code_of(media_types_rule("p", "cedar", true, &types, "policy/cedar", Some("schema/cedar"))), "ok");
    assert_eq!(code_of(media_types_rule("p", "cedar", false, &types, "policy/cedar", Some("schema/cedar"))), "manifest_rejected");
    assert_eq!(code_of(media_types_rule("p", "rego", true, &types, "policy/rego", None)), "manifest_rejected");
    assert_eq!(
        code_of(media_types_rule("p", "cedar", false, &vec!["policy/rego".to_owned()], "policy/cedar", Some("schema/cedar"))),
        "media_type_not_allowed"
    );
}

#[test]
fn a_policy_carries_the_identity_its_cascade_resolves() {
    assert_eq!(code_of(identity_rule("p/a", Some("id1"), true, Some("al"), Some("al"), "id1")), "ok");
    assert_eq!(code_of(identity_rule("p/a", None, true, None, None, "id1")), "policy_id_missing");
    assert_eq!(code_of(identity_rule("p/a", Some("id1"), false, None, None, "id1")), "policy_kind_missing");
    assert_eq!(code_of(identity_rule("p/a", Some("id1"), true, Some("al"), None, "id1")), "policy_alias_mismatch");
    assert_eq!(code_of(identity_rule("p/a", Some("id1"), true, None, None, "id2")), "policy_id_mismatch");
    let state = RefState { head: "sha256:h".to_owned(), counter: 3 };
    assert!(statement_current("sha256:h", 3, &state));
    assert!(!statement_current("sha256:h", 2, &state));
}

#[test]
fn refusals_speak_the_taxonomy() {
    let conflict = notp_error(EngineError::Conflict { current: Some(RefState { head: "sha256:h".into(), counter: 7 }) });
    assert_eq!(conflict.class, ErrorClass::Conflict);
    assert_eq!(conflict.code, "ref_conflict");
    assert_eq!(conflict.internal.as_deref(), Some("current head sha256:h counter 7"));
    let missing = notp_error(EngineError::NotFound { what: "ref `main`".into() });
    assert_eq!((missing.class, missing.message.as_str()), (ErrorClass::NotFound, "nothing answers to ref `main`"));
    let quota = notp_error(EngineError::Unavailable { message: "full".into() });
    assert_eq!((quota.class, quota.code.as_str()), (ErrorClass::Unavailable, "quota_exhausted"));
    let broken = notp_error(EngineError::Internal { detail: "/x: io".into() });
    assert_eq!(broken.message, "the ledger store failed");
    assert_eq!(broken.internal.as_deref(), Some("/x: io"));
    assert_eq!(ErrorClass::Validation.http_status(), 422);
    assert_eq!(grpc_code(&ApiError::new(ErrorClass::Conflict, "name_taken", String::new())), GrpcCode::AlreadyExists);
    assert_eq!(grpc_code(&ApiError::new(ErrorClass::Conflict, "zone_not_empty", String::new())), GrpcCode::FailedPrecondition);
}

#[test]
fn catalog_refusals_keep_the_operator_detail_off_the_wire() {
    let taken = catalog_error(&CatalogRefusal::NameTaken { name: "acme".into(), scope: "this catalog".into() });
    assert_eq!((taken.class, taken.code.as_str()), (ErrorClass::Conflict, "name_taken"));
    assert_eq!(taken.message, "the name `acme` is already taken in this catalog");
    let busy = catalog_error(&CatalogRefusal::NotEmpty { zone: "acme".into(), ledgers: 2 });
    assert_eq!(busy.message, "the zone `acme` still holds 2 ledger(s): delete them first");
    let failed = catalog_error(&CatalogRefusal::Backend { detail: "/var/lib: denied".into() });
    assert_eq!(failed.message, "the catalog store failed");
    assert_eq!(failed.internal.as_deref(), Some("/var/lib: denied"));
    assert!(on_the_trail(ErrorClass::Validation, true));
    assert!(!on_the_trail(ErrorClass::Internal, true));
    assert!(!on_the_trail(ErrorClass::Conflict, false));
    assert!(is_mutation("zone.created"));
    assert!(!is_mutation("zone.create.refused"));
}

#[test]
fn declared_sizes_summing_past_u64_are_past_every_cap() {
    assert_eq!(
        push_preflight(&vec![u64::MAX, u64::MAX], &limits()),
        Err(EngineError::Unavailable { message: "the push declares more than 1000 bytes".to_owned() })
    );
    assert_eq!(code_of(upload_admission(&vec![u64::MAX, 2], 0, &limits())), "batch_rejected");
}

#[test]
fn an_empty_grpc_string_is_absent() {
    assert_eq!(optional_text(""), None);
    assert_eq!(optional_text("main"), Some("main".to_owned()));
}

#[test]
fn a_push_region_stops_at_the_old_closure_and_keeps_absent_objects() {
    // 0: new commit naming 1 (its tree) and 2 (the old head); 1 names 3 (absent);
    // 2: old commit naming 4.
    let held = vec![Some(vec![1, 2]), Some(vec![3]), Some(vec![4]), None, Some(vec![])];
    let stop = vec![false, false, true, false, true];
    assert_eq!(walk_region(&held, &stop, 0, 10).ok(), Some(vec![true, true, false, true, false]));
    assert_eq!(walk_region(&held, &vec![false; 5], 0, 10).ok(), Some(vec![true; 5]));
    assert!(walk_region(&held, &vec![false; 5], 0, 4).is_err(), "five objects are more than four");
    assert_eq!(walk_region(&held, &vec![true; 5], 0, 0).ok(), Some(vec![false; 5]), "a start in the old closure adds nothing");
}

#[test]
fn a_fast_forward_finds_the_old_head_among_the_predecessors() {
    // 3 -> 2 -> 1 -> 0, and 4 on a branch from 1; 5 is not a commit.
    let preds = vec![Some(vec![]), Some(vec![0]), Some(vec![1]), Some(vec![2, 5]), Some(vec![1]), None];
    assert!(is_ancestor(&preds, 0, 3, 100));
    assert!(is_ancestor(&preds, 3, 3, 100), "a head is its own ancestor");
    assert!(!is_ancestor(&preds, 4, 3, 100), "a sibling branch is no ancestor");
    assert!(!is_ancestor(&preds, 0, 3, 1), "a walk past its limit answers no");
}

#[test]
fn a_partition_blob_is_allowed_and_classified_by_its_media_type() {
    let allowed = vec!["application/vnd.permguard.policy.cedar".to_owned(), "application/vnd.cedar.schema".to_owned()];
    let schemas = vec!["application/vnd.cedar.schema".to_owned()];
    let prefix = "application/vnd.permguard.policy.";
    assert_eq!(blob_rule("application/vnd.permguard.policy.cedar", &allowed, &schemas, prefix), Ok((false, true)));
    assert_eq!(blob_rule("application/vnd.cedar.schema", &allowed, &schemas, prefix), Ok((true, false)));
    assert_eq!(
        blob_rule("text/plain", &allowed, &schemas, prefix),
        Err(EngineError::Validation {
            code: "media_type_not_allowed",
            message: "`text/plain` is not allowed in this partition".to_owned()
        })
    );
}

#[test]
fn a_tree_entry_must_declare_the_kind_it_names() {
    let entry = |name: &str, kind: Kind| Entry { name: name.to_owned(), kind, digest: "d".to_owned() };
    let entries = vec![entry("a", Kind::Blob), entry("b", Kind::Tree), entry("c", Kind::Blob)];
    assert_eq!(entry_kinds_rule("sha256:t", &entries, &vec![Kind::Blob, Kind::Tree, Kind::Blob]), Ok(()));
    assert_eq!(
        entry_kinds_rule("sha256:t", &entries, &vec![Kind::Blob, Kind::Blob, Kind::Tree]),
        Err(EngineError::Validation {
            code: "kind_mismatch",
            message: "entry `b` of tree sha256:t declares the wrong kind".to_owned()
        })
    );
}
