use zero2prod::authentication::compute_password_hash;
use zero2prod::authentication::Credentials;
use zero2prod::authentication::UserRecord;
use zero2prod::idempotency::IdempotencyStore;
use zero2prod::idempotency::SavedResponse;
use zero2prod::publish::begin_publish;
use zero2prod::publish::FanoutStep;
use zero2prod::publish::FormData;
use zero2prod::publish::Publication;
use zero2prod::publish::PublishOutcome;
use zero2prod::secret::SecretString;

fn alice_table() -> Vec<UserRecord> {
    vec![UserRecord {
        user_id: 42,
        username: String::from("alice"),
        password_hash: compute_password_hash(b"correct horse", b"0123456789abcdef").unwrap(),
        salt: b"0123456789abcdef".to_vec(),
    }]
}

fn alice_credentials() -> Credentials {
    Credentials {
        username: String::from("alice"),
        password: SecretString::new(String::from("correct horse")),
    }
}

fn form(key: &str) -> FormData {
    FormData {
        title: String::from("Issue #1"),
        text_content: String::from("plain body"),
        html_content: String::from("<p>body</p>"),
        idempotency_key: String::from(key),
    }
}

fn subscribers(list: &[&str]) -> Vec<String> {
    list.iter().map(|s| String::from(*s)).collect()
}

/// Drives a claimed publication with a transport that always succeeds,
/// recording each delivery in `log`.
fn run_dispatch(
    mut p: Publication,
    store: &mut IdempotencyStore,
    log: &mut Vec<String>,
    now: u64,
) -> SavedResponse {
    loop {
        match p.poll() {
            FanoutStep::Send(email) => {
                log.push(email);
                p.record_delivered();
            }
            FanoutStep::Skipped(_) => {}
            FanoutStep::Finished => break,
        }
    }
    p.finish(store, now)
}

fn same_response(a: &SavedResponse, b: &SavedResponse) -> bool {
    a.status_code == b.status_code && a.headers == b.headers && a.body == b.body
}

#[test]
fn idempotent_replay_executes_the_fanout_once() {
    let users = alice_table();
    let mut store = IdempotencyStore::new();
    let mut log = Vec::new();
    let subs = &["ok1@x.com", "ok2@x.com", "ok3@x.com"];

    let first = match begin_publish(&users, &mut store, subscribers(subs), &alice_credentials(), form("abc123"), 1000) {
        PublishOutcome::Dispatch(p) => run_dispatch(p, &mut store, &mut log, 1001),
        _ => panic!("the first request must be granted the claim"),
    };
    assert_eq!(log.len(), 3);

    // The payload of the retry even differs: the stored response still wins.
    let mut second_form = form("abc123");
    second_form.title = String::from("Issue #1, retried with another title");
    let second = match begin_publish(&users, &mut store, subscribers(subs), &alice_credentials(), second_form, 2000) {
        PublishOutcome::Replay(resp) => resp,
        _ => panic!("the second request must replay"),
    };
    assert_eq!(log.len(), 3, "no further transport invocation on replay");
    assert!(same_response(&first, &second));
}

#[test]
fn single_flight_under_interleaving() {
    let users = alice_table();
    let mut store = IdempotencyStore::new();
    let subs = &["ok1@x.com", "ok2@x.com"];

    // The first request claims the pair but has not finished yet.
    let pending = match begin_publish(&users, &mut store, subscribers(subs), &alice_credentials(), form("abc123"), 1000) {
        PublishOutcome::Dispatch(p) => p,
        _ => panic!("the first request must be granted the claim"),
    };

    // Every request that begins while the claim is held observes the
    // conflict; none is granted a second claim, so no delivery can happen.
    let mut log = Vec::new();
    for attempt in 0..3u64 {
        match begin_publish(&users, &mut store, subscribers(subs), &alice_credentials(), form("abc123"), 1100 + attempt) {
            PublishOutcome::InProgress(resp) => assert_eq!(resp.status_code, 409),
            _ => panic!("a concurrent request must observe the conflict"),
        }
    }

    let first = run_dispatch(pending, &mut store, &mut log, 1200);
    assert_eq!(first.status_code, 303);
    assert_eq!(log.len(), 2, "exactly one fan-out execution");

    // After completion, latecomers replay instead.
    match begin_publish(&users, &mut store, subscribers(subs), &alice_credentials(), form("abc123"), 1300) {
        PublishOutcome::Replay(resp) => assert!(same_response(&resp, &first)),
        _ => panic!("a request after completion must replay"),
    }
    assert_eq!(log.len(), 2);
}

#[test]
fn key_validation_boundary_blocks_any_side_effect() {
    let users = alice_table();
    let mut store = IdempotencyStore::new();
    let subs = &["ok1@x.com"];

    match begin_publish(&users, &mut store, subscribers(subs), &alice_credentials(), form(""), 1000) {
        PublishOutcome::InvalidKey(resp) => assert_eq!(resp.status_code, 400),
        _ => panic!("an empty key must be rejected"),
    }
    let too_long = "k".repeat(51);
    match begin_publish(&users, &mut store, subscribers(subs), &alice_credentials(), form(&too_long), 1001) {
        PublishOutcome::InvalidKey(resp) => assert_eq!(resp.status_code, 400),
        _ => panic!("a 51-character key must be rejected"),
    }
    // The boundary itself is accepted.
    let at_limit = "k".repeat(50);
    match begin_publish(&users, &mut store, subscribers(subs), &alice_credentials(), form(&at_limit), 1002) {
        PublishOutcome::Dispatch(_) => {}
        _ => panic!("a 50-character key must be accepted"),
    }
}

#[test]
fn fault_isolation_skips_the_malformed_record() {
    let users = alice_table();
    let mut store = IdempotencyStore::new();
    let mut log = Vec::new();
    let subs = &["ok1@x.com", "not-an-email", "ok2@x.com"];

    let resp = match begin_publish(&users, &mut store, subscribers(subs), &alice_credentials(), form("abc123"), 1000) {
        PublishOutcome::Dispatch(p) => {
            assert_eq!(p.delivered_count(), 0);
            run_dispatch(p, &mut store, &mut log, 1001)
        }
        _ => panic!("the request must be granted the claim"),
    };
    assert_eq!(log, vec![String::from("ok1@x.com"), String::from("ok2@x.com")]);
    assert_eq!(resp.status_code, 303, "the fan-out as a whole succeeds");
}

#[test]
fn authentication_failures_never_touch_the_store() {
    let users = alice_table();
    let mut store = IdempotencyStore::new();
    let subs = &["ok1@x.com"];

    let wrong = Credentials {
        username: String::from("alice"),
        password: SecretString::new(String::from("battery staple")),
    };
    match begin_publish(&users, &mut store, subscribers(subs), &wrong, form("abc123"), 1000) {
        PublishOutcome::AuthFailed(resp) => {
            assert_eq!(resp.status_code, 401);
            assert_eq!(
                resp.headers,
                vec![(String::from("WWW-Authenticate"), String::from("Basic realm=\"publish\""))]
            );
        }
        _ => panic!("wrong password must fail authentication"),
    }

    // The key was never claimed: a correct request is granted the claim.
    match begin_publish(&users, &mut store, subscribers(subs), &alice_credentials(), form("abc123"), 1001) {
        PublishOutcome::Dispatch(_) => {}
        _ => panic!("the pair must still be free"),
    }
}

#[test]
fn a_transport_failure_rolls_the_claim_back() {
    let users = alice_table();
    let mut store = IdempotencyStore::new();
    let subs = &["ok1@x.com", "ok2@x.com"];
    let mut log = Vec::new();

    let mut p = match begin_publish(&users, &mut store, subscribers(subs), &alice_credentials(), form("abc123"), 1000) {
        PublishOutcome::Dispatch(p) => p,
        _ => panic!("the request must be granted the claim"),
    };
    // First delivery succeeds, the second fails at the transport.
    match p.poll() {
        FanoutStep::Send(email) => {
            log.push(email);
            p.record_delivered();
        }
        _ => panic!("the first recipient is valid"),
    }
    match p.poll() {
        FanoutStep::Send(_) => {
            let resp = p.transport_failed(&mut store);
            assert_eq!(resp.status_code, 500);
        }
        _ => panic!("the second recipient is valid"),
    }

    // The claim was rolled back: a retry re-attempts the full fan-out,
    // re-sending to the recipient that already got the issue.
    let resp = match begin_publish(&users, &mut store, subscribers(subs), &alice_credentials(), form("abc123"), 2000) {
        PublishOutcome::Dispatch(p) => run_dispatch(p, &mut store, &mut log, 2001),
        _ => panic!("a retry after rollback must be granted a fresh claim"),
    };
    assert_eq!(resp.status_code, 303);
    assert_eq!(log.len(), 3, "ok1 was delivered twice, ok2 once");
}

#[test]
fn end_to_end_scenario() {
    let users = alice_table();
    let mut store = IdempotencyStore::new();
    let mut log = Vec::new();
    let subs = &["s1@x.com", "s2@x.com", "s3@x.com"];

    let first = match begin_publish(&users, &mut store, subscribers(subs), &alice_credentials(), form("abc123"), 1000) {
        PublishOutcome::Dispatch(p) => run_dispatch(p, &mut store, &mut log, 1001),
        _ => panic!("alice's first request must be granted the claim"),
    };
    assert_eq!(first.status_code, 303);
    assert_eq!(
        first.headers,
        vec![(String::from("Location"), String::from("/admin/newsletters"))]
    );
    assert_eq!(log.len(), 3);

    let second = match begin_publish(&users, &mut store, subscribers(subs), &alice_credentials(), form("abc123"), 2000) {
        PublishOutcome::Replay(resp) => resp,
        _ => panic!("the identical request must replay"),
    };
    assert!(same_response(&first, &second));
    assert_eq!(log.len(), 3, "transport invocation count is still 3, not 6");
}
