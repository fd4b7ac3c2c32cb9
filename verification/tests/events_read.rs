use permguard_control_plane::events::configuration::{
    interfaces, BATCHES_PATH, RECORDS_PATH, RECORD_PATH, TENANT_RECORDS_PATH,
};
use permguard_control_plane::events::http::asked_of;
use permguard_control_plane::events::ingest::{Producer, Stream};
use permguard_control_plane::events::read::{
    at_bound, batch_covers, bound_kept, contiguous, first_from, lapsed_message, leaf_index, merge_positions,
    observations, position_of, progress, resume, Filters, Lapsed, Limits, Position, RecordFields, Verdict, Walk,
};
use permguard_control_plane::events::store::Scope;
use permguard_control_plane::query::percent_decode;

fn record() -> RecordFields {
    RecordFields {
        event_type: Some("permguard.dogwood.event.v1".into()),
        producer: Some("plane-a".into()),
        instance: Some("i1".into()),
        profile: None,
        kind: Some("denied".into()),
        event_id: Some("e-1".into()),
        history: None,
        policy_partitions: vec!["billing".into(), "hr".into()],
        occurred_at: Some("2024-05-01T10:00:00Z".into()),
    }
}

#[test]
fn an_empty_filter_narrows_nothing() {
    let filters = Filters::default();
    assert!(filters.is_empty());
    assert!(filters.matches(&record()));
    let narrowed = Filters { kind: Some("denied".into()), ..Filters::default() };
    assert!(!narrowed.is_empty());
}

#[test]
fn every_filter_that_is_set_narrows() {
    let base = record();
    let by_type = Filters { event_types: vec!["other".into(), "permguard.dogwood.event.v1".into()], ..Filters::default() };
    assert!(by_type.matches(&base));
    let wrong_type = Filters { event_types: vec!["other".into()], ..Filters::default() };
    assert!(!wrong_type.matches(&base));
    let partition = Filters { policy_partition: Some("hr".into()), ..Filters::default() };
    assert!(partition.matches(&base));
    let missing = Filters { policy_partition: Some("ops".into()), ..Filters::default() };
    assert!(!missing.matches(&base));
    let profile = Filters { profile: Some("strict".into()), ..Filters::default() };
    assert!(!profile.matches(&base), "a record without the field does not match a filter on it");
    let window = Filters {
        since: Some("2024-05-01T00:00:00Z".into()),
        until_time: Some("2024-05-01T10:00:00Z".into()),
        ..Filters::default()
    };
    assert!(window.matches(&base), "both ends are inclusive");
    let late = Filters { since: Some("2024-05-02T00:00:00Z".into()), ..Filters::default() };
    assert!(!late.matches(&base));
}

#[test]
fn canonical_types_are_sorted_and_deduplicated() {
    let one = Filters { event_types: vec!["b".into(), "a".into(), "b".into()], ..Filters::default() };
    let two = Filters { event_types: vec!["a".into(), "b".into()], ..Filters::default() };
    assert_eq!(one.canonical_types(), vec!["a".to_owned(), "b".to_owned()]);
    assert_eq!(one.canonical_types(), two.canonical_types());
}

#[test]
fn index_positions_merge_into_the_scope_order() {
    let merged = merge_positions(&vec![vec![(2, 0), (1, 5)], vec![(1, 5), (1, 2)]]);
    assert_eq!(merged, vec![(1, 2), (1, 5), (2, 0)]);
    let swapped = merge_positions(&vec![vec![(1, 5), (1, 2)], vec![(2, 0), (1, 5)]]);
    assert_eq!(merged, swapped);
    assert_eq!(first_from(&merged, Position { segment: 1, offset: 3 }), 1);
}

#[test]
fn progress_and_position_undo_each_other() {
    assert_eq!(progress(Position { segment: 1, offset: 0 }), 0);
    assert_eq!(progress(Position { segment: 10001, offset: 3 }), 10003);
    for n in [0u64, 1, 9_999, 10_000, 10_001, 123_456_789] {
        assert_eq!(progress(position_of(n)), n);
    }
    assert_eq!(position_of(10_000), Position { segment: 10_001, offset: 0 });
    assert!(at_bound(Position { segment: 1, offset: 5 }, Some(5)));
    assert!(!at_bound(Position { segment: 1, offset: 4 }, Some(5)));
    assert!(!at_bound(Position { segment: 1, offset: 4 }, None));
}

#[test]
fn a_walk_passes_what_does_not_match_and_stops_at_its_limits() {
    let limits = Limits { records: 2, bytes: 100, examined: 10 };
    let mut walk = Walk::start(Position { segment: 1, offset: 0 });
    assert_eq!(walk.step(Position { segment: 1, offset: 0 }, false, 10, &limits), Verdict::Pass);
    assert_eq!(walk.position, Position { segment: 1, offset: 1 });
    assert_eq!(walk.step(Position { segment: 1, offset: 1 }, true, 500, &limits), Verdict::Take);
    assert_eq!(walk.taken, 1);
    assert!(!walk.stopped, "a record larger than the budget is still returned alone");
    assert_eq!(walk.step(Position { segment: 1, offset: 2 }, true, 10, &limits), Verdict::Refuse);
    assert_eq!(walk.position, Position { segment: 1, offset: 2 }, "the next page starts at the refused record");
    assert!(walk.stopped);
    assert_eq!(walk.examined, 3);

    let mut full = Walk::start(Position { segment: 1, offset: 0 });
    full.step(Position { segment: 1, offset: 0 }, true, 10, &limits);
    full.step(Position { segment: 1, offset: 1 }, true, 10, &limits);
    assert!(full.stopped);
    assert_eq!(full.taken, 2);
    assert!(!full.covered_all(&limits));
}

#[test]
fn an_offset_behind_retention_is_answered_not_restarted() {
    assert_eq!(resume(Position { segment: 0, offset: 3 }, 20001), Ok(Position { segment: 20001, offset: 3 }));
    assert_eq!(
        resume(Position { segment: 1, offset: 3 }, 20001),
        Err(Lapsed { oldest_sequence: 20001, requested_sequence: 1 })
    );
    assert_eq!(
        lapsed_message("tok", Lapsed { oldest_sequence: 20001, requested_sequence: 1 }),
        "this offset stands at 1 and the oldest still held is 20001: the records in between left on the retention schedule. Resume from `tok`, knowing that 20000 positions are gone"
    );
}

#[test]
fn only_an_unfiltered_producer_read_is_contiguous() {
    let stream = Scope::Stream {
        zone: "z".into(),
        ledger: "l".into(),
        class: "data-plane".into(),
        producer: "p".into(),
        instance: "i".into(),
    };
    let tenant = Scope::Tenant { zone: "z".into(), ledger: "l".into() };
    assert!(contiguous(&stream, &Filters::default()));
    assert!(!contiguous(&tenant, &Filters::default()));
    assert!(!contiguous(&stream, &Filters { kind: Some("k".into()), ..Filters::default() }));
}

#[test]
fn a_leaf_is_found_by_its_distance_from_the_batch_start() {
    assert_eq!(leaf_index(12, 10, 5), Some(2));
    assert_eq!(leaf_index(15, 10, 5), None);
    assert_eq!(leaf_index(9, 10, 5), Some(0));
}

#[test]
fn query_values_are_percent_decoded() {
    assert_eq!(percent_decode("a+b%2Fc%zz%4"), "a b/c%zz%4");
    assert_eq!(percent_decode("%C3%A9"), "é");
    assert_eq!(percent_decode("%FF"), "\u{FFFD}");
}

#[test]
fn a_reader_query_names_its_read_and_its_filters() {
    let asked = asked_of(Some("event_type=a&event_type=b&limit=5&proof=yes&producer=p%2D1&from=x%3D"));
    assert_eq!(asked.filters.event_types, vec!["a".to_owned(), "b".to_owned()]);
    assert_eq!(asked.limit_records, Some(5));
    assert!(asked.proof);
    assert_eq!(asked.filters.producer.as_deref(), Some("p-1"));
    assert_eq!(asked.from.as_deref(), Some("x="));
    assert_eq!(asked.value("producer").as_deref(), Some("p-1"));
    assert_eq!(asked.value("zone"), None);
}

fn configuration_limits() -> permguard_control_plane::events::configuration::Limits {
    permguard_control_plane::events::configuration::Limits { max_records: 1000, max_bytes: 4_194_304, max_examined: 100_000 }
}

fn configuration(base: &str) -> permguard_control_plane::events::configuration::Document {
    permguard_control_plane::events::configuration::document(
        base,
        "test-store",
        &vec!["permguard.dogwood.event.v1".to_owned()],
        configuration_limits(),
    )
}

#[test]
fn every_endpoint_is_a_path_the_router_mounts() {
    let document = configuration("http://host/");
    assert_eq!(document.endpoints.ingest, format!("http://host{BATCHES_PATH}"));
    assert_eq!(document.endpoints.records, format!("http://host{RECORDS_PATH}"));
    assert_eq!(document.endpoints.record, format!("http://host{RECORD_PATH}"));
    assert_eq!(document.endpoints.tenant_records, format!("http://host{TENANT_RECORDS_PATH}"));
    assert_eq!(document.interface, permguard_control_plane::events::read::API);
}

#[test]
fn the_offset_family_is_the_one_the_cursors_are_bound_to() {
    let document = configuration("http://host");
    assert_eq!(document.offsets.api, permguard_control_plane::events::read::API);
    assert_eq!(document.offsets.format, "opaque");
    assert!(!document.offsets.editable);
}

#[test]
fn it_advertises_the_event_types_this_build_actually_stores() {
    assert_eq!(configuration("http://host").event_types, vec!["permguard.dogwood.event.v1".to_owned()]);
}

#[test]
fn the_published_limits_are_the_ones_a_read_is_clamped_to() {
    assert_eq!(configuration("http://host").limits, configuration_limits());
}

#[test]
fn every_filter_a_read_accepts_is_published() {
    let published = configuration("http://host").filters;
    assert_eq!(published.len(), 10, "the filter set has ten fields, and the document publishes all of them");
    let mut sorted = published.clone();
    sorted.sort_unstable();
    sorted.dedup();
    assert_eq!(sorted.len(), published.len(), "no filter is published twice");
    let Filters {
        event_types: _,
        producer: _,
        instance: _,
        profile: _,
        policy_partition: _,
        kind: _,
        event_id: _,
        since: _,
        until_time: _,
        history: _,
    } = Filters::default();
}

#[test]
fn the_published_producer_classes_are_the_ones_ingest_accepts() {
    assert_eq!(
        configuration("http://host").producer_classes,
        vec![permguard_control_plane::events::ingest::PRODUCER_CLASS_DATA_PLANE.to_owned()]
    );
}

#[test]
fn a_position_the_index_named_but_the_segment_lost_is_still_examined() {
    let mut walk = Walk::start(Position { segment: 1, offset: 4 });
    walk.note_absent();
    walk.note_absent();
    assert_eq!(walk.examined, 2);
    assert_eq!(walk.taken, 0);
    assert_eq!(walk.position, Position { segment: 1, offset: 4 });
}

#[test]
fn a_record_teaches_the_scope_and_in_a_tenant_view_its_producer_stream() {
    let stream = Stream {
        producer: Producer { class: "data-plane".into(), id: "p".into(), instance: "i".into() },
        zone: "z".into(),
        ledger: "l".into(),
    };
    let tenant = Scope::Tenant { zone: "z".into(), ledger: "l".into() };
    let past = Position { segment: 10001, offset: 2 };
    assert_eq!(
        observations(&tenant, past, Some(&stream), Some(41)),
        vec![("tenant:z:l".to_owned(), 10002), ("stream:z:l:data-plane:p:i".to_owned(), 42)]
    );
    assert_eq!(observations(&tenant, past, Some(&stream), Some(u64::MAX))[1].1, u64::MAX);
    assert_eq!(observations(&tenant, past, None, Some(41)), vec![("tenant:z:l".to_owned(), 10002)]);
    let producer = Scope::for_stream(&stream);
    assert_eq!(
        observations(&producer, past, Some(&stream), Some(41)),
        vec![("stream:z:l:data-plane:p:i".to_owned(), 10002)]
    );
}

#[test]
fn a_declared_export_bound_can_be_neither_changed_nor_dropped() {
    assert!(bound_kept(false, false, false));
    assert!(bound_kept(false, true, false));
    assert!(bound_kept(true, true, true));
    assert!(!bound_kept(true, true, false));
    assert!(!bound_kept(true, false, false));
}

#[test]
fn a_batch_covers_its_attested_range_inclusive() {
    assert!(batch_covers(10, 14, 10));
    assert!(batch_covers(10, 14, 14));
    assert!(!batch_covers(10, 14, 9));
    assert!(!batch_covers(10, 14, 15));
}

#[test]
fn a_canonical_filter_leaves_out_what_is_not_set() {
    assert!(Filters::default().canonical_fields().is_empty());
    assert!(Filters::default().canonical_types().is_empty());
    let filters = Filters {
        event_types: vec!["b".into(), "a".into(), "b".into()],
        kind: Some("denied".into()),
        producer: Some("plane-a".into()),
        ..Filters::default()
    };
    assert_eq!(
        filters.canonical_fields(),
        vec![("producer".to_owned(), "plane-a".to_owned()), ("kind".to_owned(), "denied".to_owned())]
    );
    let respelled = Filters { event_types: vec!["a".into(), "b".into()], ..filters.clone() };
    assert_eq!(respelled.canonical_types(), filters.canonical_types());
    assert_eq!(respelled.canonical_fields(), filters.canonical_fields());
}

#[test]
fn only_a_composed_interface_is_advertised() {
    assert_eq!(interfaces(false, "https://plane"), "");
    assert_eq!(
        interfaces(true, "https://plane"),
        ",\"interfaces\":{\"permguard.api.events.native.v1alpha1\":{\"configuration\":\"https://plane/.well-known/permguard-events-native-v1alpha1-configuration\"}}"
    );
}
