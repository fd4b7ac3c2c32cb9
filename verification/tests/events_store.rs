use permguard_control_plane::events::ingest::{Producer, Stream};
use permguard_control_plane::events::store::{
    batch_file_name, batch_name_first, check_range, covering_choice, index_entry, index_line, line_in_segment,
    segment_first, segment_for, index_path,
    keep_up_to, lines_of, producer_streams_page, range_in_segment, read_index_lines,
    segment_file_name, segment_name_first, slug, stream_key, unslug, Scope, StreamFilter,
};

#[test]
fn event_type_file_names_are_reversible_and_collision_free() {
    let types = [
        "permguard.dogwood.event.v1",
        "vendor.event-type.v1",
        "vendor/event_type/v1",
        "événement.一.v1",
    ];
    let slugs: std::collections::BTreeSet<String> = types.iter().map(|t| slug(t)).collect();
    assert_eq!(slugs.len(), types.len());
    for event_type in types {
        assert_eq!(unslug(&slug(event_type)).as_deref(), Some(event_type));
    }
    assert_ne!(slug("a.b"), slug("a-b"));
    assert_ne!(slug("a/b"), slug("a_b"));
}

#[test]
fn malformed_event_type_file_names_are_not_invented_into_types() {
    for malformed in ["", "%", "%0", "%GG", "raw:colon"] {
        assert_eq!(unslug(malformed), None, "{malformed}");
    }
}

fn held() -> Vec<(String, String, String)> {
    [
        ("plane-a", "i1"),
        ("plane-a", "i2"),
        ("plane-a", "i3"),
        ("plane-b", "i1"),
        ("plane-b", "i2"),
    ]
    .iter()
    .map(|(id, instance)| ("data-plane".to_owned(), id.to_string(), instance.to_string()))
    .collect()
}

fn everything<'a>() -> StreamFilter<'a> {
    StreamFilter { class: None, producer: None, instance: None, after: None }
}

#[test]
fn the_stream_walk_is_paged_filtered_and_cut_at_the_directory() {
    let held = held();
    let first = producer_streams_page(&held, "acme", "main", everything(), 2).expect("the first page walks");
    assert_eq!(first.streams.len(), 2);
    assert!(first.truncated);
    let last = first.streams[1].producer.clone();
    let second = producer_streams_page(
        &held,
        "acme",
        "main",
        StreamFilter { after: Some(("data-plane", last.id.as_str(), last.instance.as_str())), ..everything() },
        2,
    )
    .expect("the second page walks");
    assert_eq!(second.streams.len(), 2);
    assert!(second.truncated);
    let last = second.streams[1].producer.clone();
    let third = producer_streams_page(
        &held,
        "acme",
        "main",
        StreamFilter { after: Some(("data-plane", last.id.as_str(), last.instance.as_str())), ..everything() },
        2,
    )
    .expect("the last page walks");
    assert_eq!(third.streams.len(), 1);
    assert!(!third.truncated, "the last page says it is the last");

    let mut walked: Vec<(String, String)> = Vec::new();
    for page in [&first, &second, &third] {
        walked.extend(page.streams.iter().map(|s| (s.producer.id.clone(), s.producer.instance.clone())));
    }
    assert_eq!(
        walked,
        [("plane-a", "i1"), ("plane-a", "i2"), ("plane-a", "i3"), ("plane-b", "i1"), ("plane-b", "i2")]
            .map(|(id, instance)| (id.to_owned(), instance.to_owned()))
    );

    let one = producer_streams_page(&held, "acme", "main", StreamFilter { producer: Some("plane-b"), ..everything() }, 10)
        .expect("the filter walks");
    assert_eq!(one.streams.len(), 2);
    assert!(!one.truncated);
    assert!(one.streams.iter().all(|s| s.producer.id == "plane-b" && s.zone == "acme" && s.ledger == "main"));
    let nobody = producer_streams_page(&held, "acme", "main", StreamFilter { producer: Some("plane-x"), ..everything() }, 10)
        .expect("an unmatched filter walks");
    assert!(nobody.streams.is_empty());
}

#[test]
fn a_name_that_would_escape_the_store_is_refused() {
    let refused = producer_streams_page(&held(), "..", "main", everything(), 2);
    assert!(refused.is_err());
    let refused = producer_streams_page(&held(), "acme", "a/b", everything(), 2);
    assert!(refused.is_err());
}

#[test]
fn file_names_read_back_as_the_numbers_they_were_named_for() {
    assert_eq!(segment_file_name(42), "seg-00000000000000000042.events");
    assert_eq!(batch_file_name(7), "batch-00000000000000000007.jws");
    assert_eq!(segment_name_first(&segment_file_name(42)), Some(Some(42)));
    assert_eq!(batch_name_first(&batch_file_name(u64::MAX)), Some(u64::MAX));
    assert_eq!(segment_name_first("seg-x.events"), Some(None));
    assert_eq!(segment_name_first("STATE"), None);
    assert_eq!(batch_name_first("batch-1.json"), None);
}

#[test]
fn the_covering_batch_is_the_greatest_first_not_after_the_sequence() {
    let firsts = vec![Some(1), None, Some(11), Some(21), Some(11)];
    assert_eq!(covering_choice(&firsts, 15), Some(2));
    assert_eq!(covering_choice(&firsts, 21), Some(3));
    assert_eq!(covering_choice(&firsts, 0), None);
}

#[test]
fn index_entries_read_back_and_a_damaged_line_is_named() {
    assert_eq!(index_line(10001, 3), "10001:3\n");
    assert_eq!(index_entry("10001:3"), Some((10001, 3)));
    assert_eq!(index_entry("10001"), None);
    assert_eq!(index_entry("a:3"), None);
    let lines = lines_of("1:0\n\n1:1\r\n");
    assert_eq!(lines, vec!["1:0", "", "1:1"]);
    assert_eq!(read_index_lines(&lines), Ok(vec![(1, 0), (1, 1)]));
    let damaged = lines_of("1:0\nbroken\n1:2\n");
    assert_eq!(read_index_lines(&damaged), Err(2));
}

#[test]
fn rolling_back_keeps_what_is_acknowledged() {
    let lines = vec!["a".to_owned(), "b".to_owned(), "c".to_owned()];
    assert_eq!(keep_up_to(&lines, &vec![1, 2, 3], &vec![true, true, true], 2), ("a\nb\n".to_owned(), 1));
    // In a tenant view only the rolled-back producer's records leave.
    assert_eq!(keep_up_to(&lines, &vec![5, 2, 3], &vec![false, true, true], 2), ("a\nb\n".to_owned(), 1));
}

#[test]
fn a_producer_range_is_read_whole_or_refused() {
    assert_eq!(range_in_segment(1, 5, 12), Some((4, 8)));
    assert_eq!(range_in_segment(10001, 9995, 10003), Some((0, 3)));
    assert_eq!(range_in_segment(10001, 5, 12), None);
    assert_eq!(check_range(5, 7, &vec![Some(5), Some(6), Some(7)]), Ok(()));
    assert_eq!(
        check_range(5, 7, &vec![Some(5), Some(6)]),
        Err("the producer range 5..=7 contains 2 records instead of 3".to_owned())
    );
    assert_eq!(
        check_range(5, 7, &vec![Some(5), None, Some(7)]),
        Err("the producer range 5..=7 has no record at sequence 6".to_owned())
    );
}

#[test]
fn scope_keys_name_their_scope() {
    let stream = Stream {
        producer: Producer { class: "data-plane".into(), id: "plane-a".into(), instance: "i1".into() },
        zone: "acme".into(),
        ledger: "main".into(),
    };
    assert_eq!(Scope::for_stream(&stream).key(), "stream:acme:main:data-plane:plane-a:i1");
    assert_eq!(Scope::Tenant { zone: "acme".into(), ledger: "main".into() }.key(), "tenant:acme:main");
    assert_eq!(stream_key(&stream), "acme:main:data-plane:plane-a:i1");
}

#[test]
fn a_position_is_found_by_its_segment_and_line() {
    assert_eq!((segment_first(1), line_in_segment(1)), (1, 0));
    assert_eq!((segment_first(10000), line_in_segment(10000)), (1, 9999));
    assert_eq!((segment_first(10001), line_in_segment(10001)), (10001, 0));
    assert_eq!((segment_first(25003), line_in_segment(25003)), (20001, 5002));
    for position in [1u64, 2, 9999, 10000, 10001, 123456789, u64::MAX] {
        assert_eq!(segment_first(position) + line_in_segment(position), position);
    }
}

#[test]
fn a_position_is_appended_to_its_segments_file_and_a_type_to_its_index() {
    assert_eq!(segment_for(1), "seg-00000000000000000001.events");
    assert_eq!(segment_for(10001), "seg-00000000000000010001.events");
    assert_eq!(segment_for(10000), "seg-00000000000000000001.events");
    assert_eq!(index_path("a.b"), ("index".to_owned(), format!("{}.idx", slug("a.b"))));
}
