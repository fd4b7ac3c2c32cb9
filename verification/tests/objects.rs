use permguard_control_plane::gc::{fate, Fate, Outcome, Swept};
use permguard_control_plane::store::{parse_ref, render_ref, FileObjectStore, RefState, RefUpdate};

fn state(head: &str, counter: u64) -> RefState {
    RefState { head: head.to_owned(), counter }
}

#[test]
fn ref_cas_follows_the_idempotency_table() {
    let store = FileObjectStore::new("/ledger".to_owned());
    let (a, b, c) = ("sha256:aa", "sha256:bb", "sha256:cc");

    // Creation: expected None, counter starts at 1.
    let created = store.compare_and_swap(None, None, a).unwrap();
    assert_eq!(created, RefUpdate::Updated(state(a, 1)));

    // Creating again against an existing ref: conflict.
    assert_eq!(store.compare_and_swap(Some(state(a, 1)), None, b), Err(Some(state(a, 1))));

    // CAS a -> b.
    let updated = store.compare_and_swap(Some(state(a, 1)), Some(a), b).unwrap();
    assert_eq!(updated, RefUpdate::Updated(state(b, 2)));

    // Lost-response retry: same target, already current — success, same counter.
    let retried = store.compare_and_swap(Some(state(b, 2)), Some(a), b).unwrap();
    assert_eq!(retried, RefUpdate::AlreadyCurrent(state(b, 2)));

    // Stale expectation: conflict carrying the current state.
    assert_eq!(store.compare_and_swap(Some(state(b, 2)), Some(a), c), Err(Some(state(b, 2))));

    // Updating a ref that does not exist, expecting a head: conflict, with nothing current.
    assert_eq!(store.compare_and_swap(None, Some(a), b), Err(None));
}

fn digest(fill: char) -> String {
    format!("sha256:{}", fill.to_string().repeat(64))
}

#[test]
fn a_ref_record_reads_back_as_the_state_it_holds() {
    let head = digest('a');
    let held = state(&head, 17);
    let text = render_ref(&held);
    assert_eq!(text, format!("{{\"version\":1,\"head\":\"{head}\",\"counter\":17}}\n"));
    assert_eq!(parse_ref(&text), Some((head.clone(), 17)));
    assert_eq!(parse_ref("{\"head\":\"x\"}"), None);
    assert_eq!(parse_ref(&format!("{{\"head\":\"{head}\",\"counter\":}}")), None);
}

#[test]
fn a_ref_whose_head_is_not_a_digest_is_not_read() {
    for head in ["", "x", "sha256:0123abcd", "sha256:", "md5:aaaa"] {
        assert_eq!(parse_ref(&render_ref(&state(head, 1))), None, "{head}");
    }
    let upper = format!("sha256:{}", "A".repeat(64));
    assert_eq!(parse_ref(&render_ref(&state(&upper, 1))), None);
    let long = format!("{}0", digest('0'));
    assert_eq!(parse_ref(&render_ref(&state(&long, 1))), None);
}

#[test]
fn every_digest_head_reads_back_at_any_counter() {
    for (fill, counter) in [('0', 0), ('9', 1), ('f', 2), ('c', u64::MAX)] {
        let head = digest(fill);
        let text = render_ref(&state(&head, counter));
        assert_eq!(parse_ref(&text), Some((head, counter)));
    }
}

#[test]
fn refs_and_signatures_live_under_their_own_directories() {
    let store = FileObjectStore::new("/ledger".to_owned());
    assert_eq!(store.root(), "/ledger");
    assert_eq!(store.ref_path("feature/login"), ("refs".to_owned(), "feature/login".to_owned()));
    assert_eq!(store.signature_path("main"), ("signatures".to_owned(), "main".to_owned()));
}

#[test]
fn what_is_reachable_or_young_stays() {
    assert_eq!(fate(true, false), Fate::Reachable);
    assert_eq!(fate(true, true), Fate::Reachable);
    assert_eq!(fate(false, true), Fate::Retained);
    assert_eq!(fate(false, false), Fate::Removed);
    let mut swept = Swept::default();
    swept.tally(Fate::Removed, 40);
    swept.tally(Fate::Retained, 0);
    swept.tally(Fate::Reachable, 0);
    assert_eq!(swept, Swept { removed: 1, reclaimed: 40, retained: 1 });
}

#[test]
fn a_sweep_is_partial_when_anything_was_skipped() {
    let mut outcome = Outcome::default();
    assert_eq!(outcome.label(), "ok");
    outcome.add_ledger(Swept { removed: 2, reclaimed: 10, retained: 1 });
    assert_eq!(outcome, Outcome { ledgers: 1, removed: 2, reclaimed: 10, retained: 1, skipped: 0 });
    outcome.skip_ledger();
    assert_eq!(outcome.label(), "partial");
}

#[test]
fn an_object_lives_under_the_fan_of_its_first_two_digits() {
    let store = FileObjectStore::new("/ledger".to_owned());
    let hex = "ab".to_owned() + &"0123456789abcdef".repeat(4)[2..];
    let digest = format!("sha256:{hex}");
    assert_eq!(
        store.object_path(&digest),
        ("objects".to_owned(), "ab".to_owned(), hex[2..].to_owned())
    );
    assert_eq!(store.object_path(&digest).2.len(), 62);
}
