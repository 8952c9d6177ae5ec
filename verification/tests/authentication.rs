use std::time::Instant;

use base64::Engine;
use zero2prod::authentication::compute_password_hash;
use zero2prod::authentication::parse_basic_credentials;
use zero2prod::authentication::validate_credentials;
use zero2prod::authentication::BasicAuthError;
use zero2prod::authentication::CredentialError;
use zero2prod::authentication::Credentials;
use zero2prod::authentication::UserRecord;
use zero2prod::newsletter::authorize_publish;
use zero2prod::newsletter::PublishError;
use zero2prod::secret::SecretString;

fn user(id: u128, name: &str, password: &str, salt: &[u8]) -> UserRecord {
    UserRecord {
        user_id: id,
        username: String::from(name),
        password_hash: compute_password_hash(password.as_bytes(), salt).unwrap(),
        salt: salt.to_vec(),
    }
}

fn credentials(name: &str, password: &str) -> Credentials {
    Credentials {
        username: String::from(name),
        password: SecretString::new(String::from(password)),
    }
}

#[test]
fn the_stored_hash_is_hex_and_not_the_password() {
    let h = compute_password_hash(b"pw", b"0123456789abcdef").unwrap();
    // 32-byte digest, two lowercase hex digits per byte.
    assert_eq!(h.len(), 64);
    assert!(h.bytes().all(|b| (b'0'..=b'9').contains(&b) || (b'a'..=b'f').contains(&b)));
    // Not the hex of the password itself: the digest really ran.
    assert_ne!(h, "7077");
    assert_ne!(h.as_bytes(), b"pw");
}

#[test]
fn the_hash_depends_on_password_and_salt() {
    let salt = b"0123456789abcdef";
    let h1 = compute_password_hash(b"hunter2", salt).unwrap();
    let h2 = compute_password_hash(b"hunter3", salt).unwrap();
    let h3 = compute_password_hash(b"hunter2", b"fedcba9876543210").unwrap();
    assert_ne!(h1, h2);
    assert_ne!(h1, h3);
    // Deterministic for the same inputs.
    assert_eq!(h1, compute_password_hash(b"hunter2", salt).unwrap());
}

#[test]
fn correct_credentials_yield_the_user_id() {
    let users = vec![user(42, "alice", "correct horse", b"0123456789abcdef")];
    let r = validate_credentials(&users, &credentials("alice", "correct horse"));
    assert_eq!(r.unwrap(), 42);
}

#[test]
fn a_wrong_password_is_rejected() {
    let users = vec![user(42, "alice", "correct horse", b"0123456789abcdef")];
    let r = validate_credentials(&users, &credentials("alice", "battery staple"));
    assert!(matches!(r, Err(CredentialError::InvalidCredentials)));
}

#[test]
fn an_unknown_username_is_rejected() {
    let users = vec![user(42, "alice", "correct horse", b"0123456789abcdef")];
    let r = validate_credentials(&users, &credentials("mallory", "correct horse"));
    assert!(matches!(r, Err(CredentialError::InvalidCredentials)));
}

#[test]
fn authentication_timing_parity() {
    let users = vec![user(42, "alice", "correct horse", b"0123456789abcdef")];
    let wrong_password = credentials("alice", "battery staple");
    let unknown_user = credentials("mallory", "battery staple");

    // Warm-up, so first-use costs are not measured.
    let _ = validate_credentials(&users, &wrong_password);
    let _ = validate_credentials(&users, &unknown_user);

    let trials = 4;
    let mut known = Vec::new();
    let mut unknown = Vec::new();
    for _ in 0..trials {
        let t = Instant::now();
        let _ = validate_credentials(&users, &wrong_password);
        known.push(t.elapsed());
        let t = Instant::now();
        let _ = validate_credentials(&users, &unknown_user);
        unknown.push(t.elapsed());
    }
    known.sort();
    unknown.sort();
    let known_median = known[trials / 2].as_secs_f64();
    let unknown_median = unknown[trials / 2].as_secs_f64();
    let (lo, hi) = if known_median < unknown_median {
        (known_median, unknown_median)
    } else {
        (unknown_median, known_median)
    };
    // Both paths pay the hashing cost, so the medians stay within a
    // generous factor of each other.
    assert!(
        hi < lo * 4.0 + 0.005,
        "timing differs too much: known {known_median}s vs unknown {unknown_median}s"
    );
}

#[test]
fn basic_credentials_round_trip() {
    let encoded = base64::engine::general_purpose::STANDARD.encode("alice:s3cret!");
    let header = format!("Basic {encoded}");
    let c = parse_basic_credentials(header.as_bytes()).unwrap();
    assert_eq!(c.username, "alice");
    assert_eq!(c.password.expose_secret(), "s3cret!");
}

#[test]
fn basic_credentials_accept_multibyte_utf8() {
    let encoded = base64::engine::general_purpose::STANDARD.encode("münze:größe");
    let header = format!("Basic {encoded}");
    let c = parse_basic_credentials(header.as_bytes()).unwrap();
    assert_eq!(c.username, "münze");
    assert_eq!(c.password.expose_secret(), "größe");
}

#[test]
fn authorize_publish_verifies_header_credentials() {
    let users = vec![user(42, "alice", "correct horse", b"0123456789abcdef")];

    let good = base64::engine::general_purpose::STANDARD.encode("alice:correct horse");
    let header = format!("Basic {good}");
    assert_eq!(authorize_publish(&users, header.as_bytes()).unwrap(), 42);

    let wrong = base64::engine::general_purpose::STANDARD.encode("alice:battery staple");
    let header = format!("Basic {wrong}");
    assert!(matches!(
        authorize_publish(&users, header.as_bytes()),
        Err(PublishError::AuthError(_))
    ));

    assert!(matches!(
        authorize_publish(&users, b"Bearer token"),
        Err(PublishError::AuthError(_))
    ));
}

#[test]
fn basic_credentials_error_cases() {
    assert!(matches!(
        parse_basic_credentials(b"Bearer abc"),
        Err(BasicAuthError::NotBasic)
    ));
    assert!(matches!(parse_basic_credentials(b""), Err(BasicAuthError::NotBasic)));
    assert!(matches!(
        parse_basic_credentials(b"Basic !!!not-base64!!!"),
        Err(BasicAuthError::BadBase64)
    ));
    // Valid base64 of bytes that are not UTF-8.
    let bad_utf8 = base64::engine::general_purpose::STANDARD.encode([0xff, 0xfe, b':', b'x']);
    let header = format!("Basic {bad_utf8}");
    assert!(matches!(
        parse_basic_credentials(header.as_bytes()),
        Err(BasicAuthError::BadUtf8)
    ));
    // No colon: a username without any password.
    let no_colon = base64::engine::general_purpose::STANDARD.encode("aliceonly");
    let header = format!("Basic {no_colon}");
    assert!(matches!(
        parse_basic_credentials(header.as_bytes()),
        Err(BasicAuthError::MissingPassword)
    ));
}
