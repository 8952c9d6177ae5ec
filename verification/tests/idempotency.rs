use zero2prod::idempotency::BeginOutcome;
use zero2prod::idempotency::IdempotencyKey;
use zero2prod::idempotency::IdempotencyStore;
use zero2prod::idempotency::KeyValidationError;
use zero2prod::idempotency::SavedResponse;

fn key(s: &str) -> IdempotencyKey {
    IdempotencyKey::try_new(String::from(s)).unwrap()
}

fn response(status: u16, body: &[u8]) -> SavedResponse {
    SavedResponse { status_code: status, headers: Vec::new(), body: body.to_vec() }
}

#[test]
fn key_validation_boundary() {
    assert!(matches!(
        IdempotencyKey::try_new(String::new()),
        Err(KeyValidationError::Empty)
    ));
    let fifty = "k".repeat(50);
    assert!(IdempotencyKey::try_new(fifty).is_ok());
    let fifty_one = "k".repeat(51);
    assert!(matches!(
        IdempotencyKey::try_new(fifty_one),
        Err(KeyValidationError::TooLong)
    ));
}

#[test]
fn first_begin_claims_the_pair() {
    let mut store = IdempotencyStore::new();
    let k = key("abc123");
    assert!(matches!(store.begin(7, &k, 1000), BeginOutcome::Claimed));
}

#[test]
fn a_pending_claim_reports_in_progress() {
    let mut store = IdempotencyStore::new();
    let k = key("abc123");
    assert!(matches!(store.begin(7, &k, 1000), BeginOutcome::Claimed));
    assert!(matches!(store.begin(7, &k, 1001), BeginOutcome::InProgress));
    assert!(matches!(store.begin(7, &k, 1002), BeginOutcome::InProgress));
}

#[test]
fn a_completed_claim_replays_the_saved_response() {
    let mut store = IdempotencyStore::new();
    let k = key("abc123");
    assert!(matches!(store.begin(7, &k, 1000), BeginOutcome::Claimed));
    store.complete(7, &k, response(303, b"done"));
    match store.begin(7, &k, 2000) {
        BeginOutcome::Replay(saved) => {
            assert_eq!(saved.status_code, 303);
            assert_eq!(saved.body, b"done".to_vec());
        }
        _ => panic!("a completed pair must replay"),
    }
    // Replaying leaves the row as it is: a further begin replays again.
    match store.begin(7, &k, 3000) {
        BeginOutcome::Replay(saved) => assert_eq!(saved.status_code, 303),
        _ => panic!("replay must be stable"),
    }
}

#[test]
fn pairs_are_scoped_per_user_and_per_key() {
    let mut store = IdempotencyStore::new();
    let k = key("abc123");
    assert!(matches!(store.begin(7, &k, 1000), BeginOutcome::Claimed));
    // Another user with the same key gets a fresh claim.
    assert!(matches!(store.begin(8, &k, 1001), BeginOutcome::Claimed));
    // The same user with another key gets a fresh claim.
    let k2 = key("xyz789");
    assert!(matches!(store.begin(7, &k2, 1002), BeginOutcome::Claimed));
    // The original pair is still pending.
    assert!(matches!(store.begin(7, &k, 1003), BeginOutcome::InProgress));
}
