use zero2prod::domain::validate_email;
use zero2prod::domain::validate_name;
use zero2prod::domain::SubscriberEmail;
use zero2prod::subscriptions::FormData;

#[test]
fn accepts_ordinary_addresses() {
    assert!(validate_email("ok1@x.com"));
    assert!(validate_email("ursula_le_guin@gmail.com"));
}

#[test]
fn rejects_malformed_addresses() {
    assert!(!validate_email("not-an-email"));
    assert!(!validate_email(""));
    assert!(!validate_email("@x.com"));
    assert!(!validate_email("a@"));
    assert!(!validate_email("a@b"));
    assert!(!validate_email("two@at@x.com"));
    assert!(!validate_email("spaced name@x.com"));
}

#[test]
fn subscriber_email_parse_round_trips() {
    let e = SubscriberEmail::parse(String::from("ok1@x.com")).unwrap();
    assert_eq!(e.as_str(), "ok1@x.com");
    assert!(SubscriberEmail::parse(String::from("not-an-email")).is_err());
}

#[test]
fn name_rules() {
    assert!(validate_name("le guin"));
    assert!(!validate_name(""));
    assert!(!validate_name("   "));
    assert!(!validate_name("a/b"));
    assert!(!validate_name("<script>"));
    let long = "a".repeat(257);
    assert!(!validate_name(&long));
    let edge = "a".repeat(256);
    assert!(validate_name(&edge));
}

#[test]
fn subscription_form_validates_both_fields() {
    let ok = FormData {
        email: String::from("ursula_le_guin@gmail.com"),
        name: String::from("le guin"),
    };
    let ns = ok.parse().unwrap();
    assert_eq!(ns.email.as_str(), "ursula_le_guin@gmail.com");
    assert_eq!(ns.name.as_str(), "le guin");

    let bad_email = FormData { email: String::from("definitely-not-an-email"), name: String::from("le guin") };
    assert!(bad_email.parse().is_err());

    let bad_name = FormData { email: String::from("ok@x.com"), name: String::from("{}") };
    assert!(bad_name.parse().is_err());
}
