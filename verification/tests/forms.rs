use zero2prod::forms::parse_login_form;
use zero2prod::forms::parse_publish_form;
use zero2prod::forms::parse_subscribe_form;
use zero2prod::forms::FormError;

#[test]
fn subscribe_form_decodes_percent_and_plus() {
    let body = b"name=le%20guin&email=ursula_le_guin%40gmail.com";
    let fd = parse_subscribe_form(body).unwrap();
    assert_eq!(fd.name, "le guin");
    assert_eq!(fd.email, "ursula_le_guin@gmail.com");

    let plus = parse_subscribe_form(b"name=le+guin&email=a%40x.com").unwrap();
    assert_eq!(plus.name, "le guin");
    assert_eq!(plus.email, "a@x.com");
}

#[test]
fn subscribe_form_reports_the_missing_field() {
    match parse_subscribe_form(b"name=le%20guin") {
        Err(FormError::MissingField(f)) => assert_eq!(f, "email"),
        _ => panic!("expected the missing email to be reported"),
    }
    match parse_subscribe_form(b"email=ursula_le_guin%40gmail.com") {
        Err(FormError::MissingField(f)) => assert_eq!(f, "name"),
        _ => panic!("expected the missing name to be reported"),
    }
    match parse_subscribe_form(b"") {
        Err(FormError::MissingField(_)) => {}
        _ => panic!("an empty body is missing both fields"),
    }
}

#[test]
fn malformed_percent_escapes_are_rejected() {
    assert!(matches!(parse_subscribe_form(b"name=%zz&email=a%40x.com"), Err(FormError::Malformed)));
    assert!(matches!(parse_subscribe_form(b"name=%2&email=a%40x.com"), Err(FormError::Malformed)));
    assert!(matches!(parse_subscribe_form(b"name=abc%"), Err(FormError::Malformed)));
}

#[test]
fn uppercase_hex_digits_decode_too() {
    let fd = parse_subscribe_form(b"name=le%2Dguin&email=a%40x.com").unwrap();
    assert_eq!(fd.name, "le-guin");
}

#[test]
fn login_form_maps_both_fields() {
    let fd = parse_login_form(b"username=alice&password=s3cret%21").unwrap();
    assert_eq!(fd.username, "alice");
    assert_eq!(fd.password, "s3cret!");
    match parse_login_form(b"username=alice") {
        Err(FormError::MissingField(f)) => assert_eq!(f, "password"),
        _ => panic!("expected the missing password to be reported"),
    }
}

#[test]
fn publish_form_maps_all_four_fields() {
    let body = b"title=News&text_content=plain&html_content=%3Cp%3Ehi%3C%2Fp%3E&idempotency_key=abc123";
    let fd = parse_publish_form(body).unwrap();
    assert_eq!(fd.title, "News");
    assert_eq!(fd.text_content, "plain");
    assert_eq!(fd.html_content, "<p>hi</p>");
    assert_eq!(fd.idempotency_key, "abc123");
    match parse_publish_form(b"title=News") {
        Err(FormError::MissingField(f)) => assert_eq!(f, "text_content"),
        _ => panic!("expected the missing field to be reported"),
    }
}

#[test]
fn a_field_without_equals_has_an_empty_value() {
    let fd = parse_login_form(b"username&password=x").unwrap();
    assert_eq!(fd.username, "");
    assert_eq!(fd.password, "x");
}
