use permguard_control_plane::api::ErrorClass;
use permguard_control_plane::decisions::http::{
    batch_outcome, read_refusal_status, requested_limit, retries_with_fresh_keys, scope_of_fields, ship_answer,
    stream_scope, ShipAnswer,
};
use permguard_control_plane::decisions::ingest::{after_refusal, reason_of, Accepted, Refused};
use permguard_control_plane::events::ingest::{accept_class, after_refusal as after_event_refusal, Refused as EventRefused};
use permguard_control_plane::decisions::store::Scope as DecisionScope;
use permguard_control_plane::events::grpc::{filters_of, scope_of, ListRequest};
use permguard_control_plane::events::read::{search_step, ReadError, Search};
use permguard_control_plane::events::store::{
    complete_prefix, first_lines, index_body, index_entry, lines_of, read_index_lines, view_cut, Scope, ViewCut,
    ViewRebuild,
};

fn request() -> ListRequest {
    ListRequest {
        zone: "acme".into(),
        ledger: "main".into(),
        producer_class: String::new(),
        producer: String::new(),
        instance: String::new(),
        event_types: vec!["t".into()],
        profile: String::new(),
        policy_partition: "hr".into(),
        kind: String::new(),
        event_id: String::new(),
        since: String::new(),
        until_time: String::new(),
        history: String::new(),
    }
}

#[test]
fn a_grpc_read_names_its_scope_and_its_filters() {
    let tenant = request();
    assert_eq!(
        scope_of(&tenant),
        Ok((Scope::Tenant { zone: "acme".into(), ledger: "main".into() }, "tenant"))
    );
    let filters = filters_of(&tenant);
    assert_eq!(filters.event_types, vec!["t".to_owned()]);
    assert_eq!(filters.policy_partition.as_deref(), Some("hr"));
    assert_eq!(filters.kind, None);

    let stream = ListRequest { producer: "plane-a".into(), instance: "i1".into(), ..request() };
    assert_eq!(
        scope_of(&stream),
        Ok((
            Scope::Stream {
                zone: "acme".into(),
                ledger: "main".into(),
                class: "data-plane".into(),
                producer: "plane-a".into(),
                instance: "i1".into(),
            },
            "stream"
        ))
    );
    assert_eq!(filters_of(&stream).producer, None, "on a stream read the producer chose the scope");
    let tenant_narrowed = ListRequest { producer: "plane-a".into(), ..request() };
    assert_eq!(filters_of(&tenant_narrowed).producer.as_deref(), Some("plane-a"));

    let homeless = ListRequest { zone: String::new(), ..stream };
    assert!(scope_of(&homeless).is_err());
    assert!(scope_of(&ListRequest { ledger: String::new(), ..request() }).is_err());
}

#[test]
fn read_refusals_keep_absence_and_exhaustion_apart() {
    let lapsed = ReadError::Expired { oldest: "tok".into(), oldest_sequence: 10, requested_sequence: 4 };
    let refusal = lapsed.refusal();
    assert_eq!((refusal.class, refusal.code.as_str()), (ErrorClass::NotFound, "offset_expired"));
    assert!(refusal.message.contains("6 positions are gone"));
    let unknown = ReadError::Unknown("`a/b` is not held".into()).refusal();
    assert_eq!((unknown.class, unknown.code.as_str()), (ErrorClass::NotFound, "ledger_not_held"));
    let exhausted = ReadError::SearchExhausted { pages: 10000, resume: "r".into() }.refusal();
    assert_eq!((exhausted.class, exhausted.code.as_str()), (ErrorClass::Unavailable, "search_exhausted"));
    let offset = ReadError::Offset("wrong filters".into()).refusal();
    assert_eq!((offset.class, offset.code.as_str()), (ErrorClass::Validation, "offset_invalid"));
    assert_eq!(search_step(1, true, true), Search::Found);
    assert_eq!(search_step(1, false, false), Search::Absent);
    assert_eq!(search_step(1, false, true), Search::Next);
    assert_eq!(search_step(10000, false, true), Search::Exhausted);
}

#[test]
fn a_shipped_batch_is_answered_by_what_acceptance_concluded() {
    assert_eq!(
        ship_answer(&Ok(Accepted::Durable { acked: 9, stored: 3 })),
        (200, ShipAnswer::Acknowledged { acked: 9, stored: 3 })
    );
    assert_eq!(
        ship_answer(&Ok(Accepted::OutOfOrder { expected_seq: 4 })),
        (409, ShipAnswer::OutOfOrder { expected_seq: 4 })
    );
    let (status, answer) = ship_answer(&Err(Refused::Unavailable("disk".into())));
    assert_eq!(status, 503);
    assert!(matches!(answer, ShipAnswer::Refused(ref error) if error.code == "store_unavailable"));
    assert!(retries_with_fresh_keys(&Err(Refused::Unattributable("kid".into()))));
    assert!(!retries_with_fresh_keys(&Err(Refused::Closed("x".into()))));
    assert_eq!(batch_outcome(0), "replay");
    assert_eq!(batch_outcome(2), "ok");
}

#[test]
fn a_decision_read_names_one_scope() {
    assert_eq!(
        stream_scope(Some("pdp".into()), Some("i1".into())),
        Ok(DecisionScope::Stream { pdp_id: "pdp".into(), instance: "i1".into() })
    );
    let refused = stream_scope(Some("pdp".into()), None).unwrap_err();
    assert_eq!((refused.class, refused.code.as_str()), (ErrorClass::Validation, "stream_required"));
    assert_eq!(
        scope_of_fields("pdp", "i1", "z", "l"),
        Some(DecisionScope::Stream { pdp_id: "pdp".into(), instance: "i1".into() })
    );
    assert_eq!(
        scope_of_fields("", "i1", "z", "l"),
        Some(DecisionScope::Tenant { zone: "z".into(), ledger: "l".into() })
    );
    assert_eq!(scope_of_fields("", "", "z", ""), None);
    assert_eq!(requested_limit(7, 3), 7);
    assert_eq!(requested_limit(0, 3), 3);
    assert_eq!(read_refusal_status(true), 410);
    assert_eq!(read_refusal_status(false), 422);
}

#[test]
fn recovery_cuts_only_what_is_unacknowledged() {
    assert_eq!(complete_prefix(b"{}\n{}\n{\"to"), 6);
    assert_eq!(complete_prefix(b"{}\n"), 3);
    assert_eq!(complete_prefix(b"{\"torn"), 0);
    assert_eq!(view_cut(11, 10, 5), ViewCut::Remove);
    assert_eq!(view_cut(1, 10, 5), ViewCut::Keep);
    assert_eq!(view_cut(1, 2, 5), ViewCut::Truncate { keep: 2 });
    let lines = vec!["a".to_owned(), "b".to_owned(), "c".to_owned()];
    assert_eq!(first_lines(&lines, 2), "a\nb\n");

    let mut view = ViewRebuild::empty();
    assert_eq!(view.take(1, 5, 7), Some(6));
    assert_eq!(view.take(2, 8, 7), None);
    assert_eq!(view.take(3, 1, 7), None, "nothing is committed past a hole");
    assert_eq!(view, ViewRebuild { next: 4, committed: 1, durable_prefix: false });
    assert!(view.has_scratch());
}

#[test]
fn an_index_body_reads_back_line_by_line() {
    let body = index_body(&vec![(1, 0), (1, 4), (10001, 2)]);
    assert_eq!(body, "1:0\n1:4\n10001:2\n");
    let read: Vec<(u64, u64)> = lines_of(&body).iter().filter_map(|line| index_entry(line)).collect();
    assert_eq!(read, vec![(1, 0), (1, 4), (10001, 2)]);
}

#[test]
fn a_rebuilt_index_reads_back_whole_with_no_damaged_line() {
    let positions = vec![(1, 0), (1, 4), (10001, 2), (18446744073709551615, 0)];
    let body = index_body(&positions);
    assert_eq!(read_index_lines(&lines_of(&body)), Ok(positions));
    assert_eq!(read_index_lines(&lines_of(&index_body(&vec![]))), Ok(vec![]));
}

#[test]
fn every_decision_refusal_is_counted_under_its_own_reason() {
    assert_eq!(reason_of(&Refused::Unattributable("k".into())), "unattributable");
    assert_eq!(reason_of(&Refused::Unverifiable("c".into())), "unverifiable");
    assert_eq!(reason_of(&Refused::Conflict { seq: 7 }), "conflict");
    assert_eq!(reason_of(&Refused::Closed("r".into())), "closed");
    assert_eq!(reason_of(&Refused::Unavailable("d".into())), "unavailable");
}

#[test]
fn only_the_data_plane_class_is_accepted_and_a_refusal_names_it() {
    assert_eq!(accept_class(&"data-plane".to_owned()), Ok(()));
    assert_eq!(
        accept_class(&"edge".to_owned()),
        Err(EventRefused::Unregistered(
            "`edge` is not a producer class this release accepts; it accepts data-plane".to_owned()
        ))
    );
}

#[test]
fn a_refused_batch_is_answered_with_the_refusal_a_shipper_switches_on() {
    let (status, answer) = ship_answer(&Err(Refused::Unavailable("disk full".into())));
    assert_eq!(status, 503);
    match answer {
        ShipAnswer::Refused(error) => {
            assert_eq!(error.code, "store_unavailable");
            assert_eq!(error.class, ErrorClass::Unavailable);
            assert_eq!(error.message, "disk full");
        },
        other => panic!("{other:?}"),
    }
}

#[test]
fn a_conflict_or_fork_closes_the_stream_and_keeps_what_it_holds() {
    let state = permguard_control_plane::decisions::store::StreamState::fresh("genesis");
    let closed = after_refusal(state.clone(), &Refused::Conflict { seq: 4 });
    assert_eq!(closed.closed.as_deref(), Some("two different records claimed one sequence"));
    assert_eq!((closed.acked, closed.head.as_str()), (0, "genesis"));
    assert_eq!(after_refusal(state.clone(), &Refused::Unavailable("x".into())), state);

    let held = permguard_control_plane::events::store::StreamState::fresh("genesis");
    let forked = after_event_refusal(held.clone(), &EventRefused::Fork { seq: 9 });
    assert_eq!(forked.closed.as_deref(), Some("two different records at sequence 9"));
    assert_eq!(after_event_refusal(held.clone(), &EventRefused::Unverifiable("x".into())), held);
}
