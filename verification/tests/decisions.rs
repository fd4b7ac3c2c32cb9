use permguard_control_plane::decisions::cursorkey::{fresh_key, long_enough, too_short_message, KEY_BYTES};
use permguard_control_plane::decisions::http::window_of;
use permguard_control_plane::decisions::offset::{Offset, OffsetError};
use permguard_control_plane::decisions::read::{covering, take_from_segment, PageWalk, SignedBatch};
use permguard_control_plane::decisions::retention::{is_segment, sweep_decision, Sweep, Swept};
use permguard_control_plane::decisions::store::{
    check_name, names_view, roll_back, starts_new_segment, view_entry, view_line, DecisionStore, Rollback, Scope,
    StreamState,
};

fn tenant(zone: &str) -> Scope {
    Scope::Tenant { zone: zone.to_owned(), ledger: "main-ledger".to_owned() }
}

fn rendered(offset: &Offset) -> Vec<u8> {
    format!(r#"{{"scope":"{}","segment":{},"position":{}}}"#, offset.scope, offset.segment, offset.position).into_bytes()
}

fn read_back(body: &[u8]) -> Offset {
    let value: serde_json::Value = serde_json::from_slice(body).expect("the body is JSON");
    Offset {
        scope: value["scope"].as_str().expect("a scope").to_owned(),
        segment: value["segment"].as_u64().expect("a segment"),
        position: value["position"].as_u64().expect("a position"),
    }
}

#[test]
fn an_offset_round_trips_through_its_own_token() {
    let scope = tenant("acme");
    let offset = Offset { scope: scope.key(), segment: 42, position: 7 };
    let token = Offset::encode_body(&rendered(&offset));
    let body = Offset::decode_body(&token).expect("it decodes");
    assert_eq!(read_back(&body).bound_to(&scope), Ok(offset));
}

#[test]
fn an_offset_presented_under_another_tenant_is_refused_not_reinterpreted() {
    let token = Offset::encode_body(&rendered(&Offset::beginning(&tenant("acme"))));
    let body = Offset::decode_body(&token).expect("it decodes");
    assert_eq!(read_back(&body).bound_to(&tenant("other")), Err(OffsetError::WrongScope));
}

#[test]
fn something_that_is_not_a_token_is_not_read_as_one() {
    assert_eq!(Offset::decode_body("../../etc/passwd"), Err(OffsetError::Malformed));
}

#[test]
fn scopes_have_stable_keys_and_offsets_start_at_the_beginning() {
    assert_eq!(tenant("acme").key(), "tenant:acme:main-ledger");
    let stream = Scope::Stream { pdp_id: "pdp".into(), instance: "i1".into() };
    assert_eq!(stream.key(), "stream:pdp:i1");
    assert_eq!(Offset::beginning(&stream), Offset { scope: "stream:pdp:i1".into(), segment: 0, position: 0 });
    assert!(OffsetError::Expired.message().contains("retention"));
}

#[test]
fn only_old_segments_leave() {
    assert!(is_segment("seg-00000000000000000001.jsonl"));
    for kept in ["STATE", "EPOCHS.jsonl", "batch-00000000000000000001.jws", "seg-1.events"] {
        assert!(!is_segment(kept), "{kept}");
        assert_eq!(sweep_decision(kept, true), Sweep::Skip);
    }
    assert_eq!(sweep_decision("seg-1.jsonl", false), Sweep::Keep);
    assert_eq!(sweep_decision("seg-1.jsonl", true), Sweep::Remove);
    let mut swept = Swept::default();
    swept.tally(Sweep::Remove, 30);
    swept.tally(Sweep::Keep, 99);
    swept.tally(Sweep::Skip, 99);
    assert_eq!(swept, Swept { removed: 1, reclaimed: 30, retained: 1 });
}

#[test]
fn a_name_that_is_not_portable_is_refused() {
    assert_eq!(check_name("acme", true), Ok(()));
    assert_eq!(check_name("../x", false), Err("`../x` is not a name this store accepts".to_owned()));
    let store = DecisionStore::new("/data".to_owned());
    assert_eq!(store.root(), "/data");
    assert_eq!(
        store.stream_path("pdp", true, "i1", true),
        Ok(vec!["/data".to_owned(), "streams".to_owned(), "pdp".to_owned(), "i1".to_owned()])
    );
    assert_eq!(store.stream_path("p/d", false, "i1", true), Err("`p/d` is not a producer name".to_owned()));
    assert_eq!(store.view_path("z", true, "..", false), Err("`..` is not a ledger name".to_owned()));
}

#[test]
fn segments_are_listed_oldest_first() {
    let store = DecisionStore::new("/data".to_owned());
    let names = vec![
        "seg-00000000000000000020.jsonl".to_owned(),
        "STATE".to_owned(),
        "seg-00000000000000000001.jsonl".to_owned(),
        "seg-x.jsonl".to_owned(),
    ];
    assert_eq!(store.segments(&names), vec![(1, 2), (20, 0)]);
    assert!(starts_new_segment(None));
    assert!(starts_new_segment(Some(32 * 1024 * 1024)));
    assert!(!starts_new_segment(Some(10)));
}

#[test]
fn an_acknowledgement_moves_the_state_and_keeps_a_closure() {
    let store = DecisionStore::new("/data".to_owned());
    let state = StreamState { acked: 3, head: "h3".into(), closed: Some("conflict".into()) };
    let next = store.acknowledge(state, 9, "h9");
    assert_eq!(next, StreamState { acked: 9, head: "h9".into(), closed: Some("conflict".into()) });
}

#[test]
fn a_rollback_touches_only_what_is_above_the_acknowledgement() {
    let lines = vec!["a".to_owned(), "b".to_owned()];
    assert_eq!(roll_back(&lines, &vec![1, 2], 5), (Rollback::Untouched, 0));
    assert_eq!(roll_back(&lines, &vec![1, 2], 1), (Rollback::Rewrite("a\n".to_owned()), 1));
    assert_eq!(roll_back(&lines, &vec![3, 4], 1), (Rollback::Remove, 2));
}

#[test]
fn views_are_listed_one_per_line() {
    assert_eq!(view_line("acme", "main"), "acme\tmain\n");
    assert_eq!(view_entry("acme\tmain"), Some(("acme".to_owned(), "main".to_owned())));
    assert_eq!(view_entry("acme"), None);
    assert!(names_view(&vec!["x\ty".to_owned(), "acme\tmain".to_owned()], "acme", "main"));
    assert!(!names_view(&vec!["acme\tother".to_owned()], "acme", "main"));
}

#[test]
fn a_page_stops_before_the_record_that_would_overflow_it() {
    assert_eq!(take_from_segment(0, 0, &vec![60, 30, 20], 100), (2, 90, true));
    assert_eq!(take_from_segment(0, 0, &vec![500, 1], 100), (1, 500, true));
    assert_eq!(take_from_segment(1, 10, &vec![20, 30], 100), (2, 60, false));
}

#[test]
fn the_covering_batch_is_the_streams_own() {
    let batch = |id: &str, first: u64, last: u64| SignedBatch {
        readable: true,
        pdp_id: Some(id.into()),
        instance: Some("i1".into()),
        first_seq: Some(first),
        last_seq: Some(last),
        merkle_root: Some(format!("root-{first}")),
    };
    let batches = vec![batch("other", 1, 10), batch("pdp", 1, 10), batch("pdp", 11, 20)];
    assert_eq!(covering(&batches, 15, "pdp", "i1"), Some((11, 20, "root-11".to_owned())));
    assert_eq!(covering(&batches, 25, "pdp", "i1"), None);
    let unreadable = vec![SignedBatch { readable: false, ..batch("pdp", 1, 10) }, batch("pdp", 1, 10)];
    assert_eq!(covering(&unreadable, 5, "pdp", "i1"), None);
}

#[test]
fn a_decision_query_prefers_the_shared_limit_name() {
    let (asked, pairs) = window_of(Some("limit=3&limit_records=7&proof=1&from=a%20b"));
    assert_eq!(asked.limit_records, Some(7));
    assert!(asked.proof);
    assert_eq!(asked.from.as_deref(), Some("a b"));
    assert_eq!(pairs.len(), 4);
    let (alias, _) = window_of(Some("limit=3"));
    assert_eq!(alias.limit_records, Some(3));
    let (kept, _) = window_of(Some("limit_records=7&limit=3"));
    assert_eq!(kept.limit_records, Some(7));
}

#[test]
fn a_fresh_cursor_key_is_full_length() {
    let key = fresh_key().expect("this system has randomness");
    assert_eq!(key.len(), KEY_BYTES);
    assert!(long_enough(32, 32));
    assert!(!long_enough(16, 32));
    assert!(too_short_message("/k", 16, 32).starts_with("`/k` holds 16 bytes"));
}

#[test]
fn a_page_walks_the_segments_from_where_it_stands() {
    let mut page = PageWalk::start(10001, 3);
    assert_eq!(page.enter(1, 5), None, "a segment before the page is passed over");
    assert_eq!(page.enter(10001, 5), Some((3, 5)));
    page.absorb(&vec![10, 10], 9, 5, 100);
    assert_eq!((page.taken, page.bytes, page.offset, page.done), (2, 20, 9, false));
    assert_eq!(page.enter(20001, 5), Some((0, 3)), "the next segment is read from its start");
    assert_eq!(page.segment, 20001);
    page.absorb(&vec![50, 50], 2, 5, 100);
    assert_eq!((page.taken, page.bytes, page.offset), (3, 70, 1));
    assert!(page.by_bytes && page.done, "the budget stops the page just after what it took");
}
