use zero2prod::login::QueryParams;
use zero2prod::newsletter::BodyData;
use zero2prod::newsletter::Content;
use zero2prod::newsletter::PublishError;
use zero2prod::secret::SecretString;
use zero2prod::startup::ApplicationBaseUrl;
use zero2prod::startup::HmacSecret;

#[test]
fn auth_error_maps_to_a_401_challenge() {
    let e = PublishError::AuthError(String::from("unknown username"));
    let r = e.error_response();
    assert_eq!(r.status_code, 401);
    assert_eq!(
        r.headers,
        vec![(String::from("WWW-Authenticate"), String::from("Basic realm=\"publish\""))]
    );
    assert!(r.body.is_empty());
    assert_eq!(e.describe(), "Authentication failed.");
}

#[test]
fn unexpected_error_maps_to_a_bare_500() {
    let e = PublishError::UnexpectedError(String::from("the transport went away"));
    let r = e.error_response();
    assert_eq!(r.status_code, 500);
    assert!(r.headers.is_empty());
    assert!(r.body.is_empty());
    assert_eq!(e.describe(), "the transport went away");
}

#[test]
fn body_data_carries_the_issue() {
    let body = BodyData::new(
        String::from("Issue #1"),
        Content::new(String::from("<p>hi</p>"), String::from("hi")),
    );
    let issue = body.into_issue();
    assert_eq!(issue.title, "Issue #1");
    assert_eq!(issue.html_content, "<p>hi</p>");
    assert_eq!(issue.text_content, "hi");
}

#[test]
fn query_params_release_the_error_message() {
    let q = QueryParams { error: String::from("Authentication failed"), tag: String::from("aa") };
    let secret = HmacSecret(SecretString::new(String::from("super-long-random-hmac-key")));
    assert_eq!(q.verify(&secret).unwrap(), "Authentication failed");
}

#[test]
fn the_base_url_is_plain() {
    let base = ApplicationBaseUrl(String::from("http://127.0.0.1"));
    assert_eq!(base.0, "http://127.0.0.1");
}
