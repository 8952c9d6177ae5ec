use vstd::prelude::*;
use vstd::string::StringExecFns;
use vstd::utf8::encode_utf8;

use crate::authentication::basic_header_credentials;
use crate::authentication::credentials_good;
use crate::authentication::owner_of;
use crate::authentication::parse_basic_credentials;
use crate::authentication::users_wf;
use crate::authentication::username_taken;
use crate::authentication::validate_credentials;
use crate::authentication::CredentialError;
use crate::authentication::UserRecord;
use crate::idempotency::ResponseModel;
use crate::idempotency::SavedResponse;

verus! {

/// One issue to publish: transient input, never persisted.
pub struct NewsletterIssue {
    pub title: String,
    pub html_content: String,
    pub text_content: String,
}

/// Body of a publish request: a title and the two content renderings.
pub struct BodyData {
    title: String,
    content: Content,
}

/// The two renderings of an issue's content.
pub struct Content {
    html: String,
    text: String,
}

impl Content {
    pub fn new(html: String, text: String) -> (r: Content)
        ensures
            r.spec_html() == html@ && r.spec_text() == text@,
    {
        Content { html, text }
    }

    pub closed spec fn spec_html(self) -> Seq<char> {
        self.html@
    }

    pub closed spec fn spec_text(self) -> Seq<char> {
        self.text@
    }
}

impl BodyData {
    pub fn new(title: String, content: Content) -> (r: BodyData)
        ensures
            r.spec_title() == title@,
            r.spec_content() == content,
    {
        BodyData { title, content }
    }

    pub closed spec fn spec_title(self) -> Seq<char> {
        self.title@
    }

    pub closed spec fn spec_content(self) -> Content {
        self.content
    }

    /// The issue this body describes.
    pub fn into_issue(self) -> (r: NewsletterIssue)
        ensures
            r.title@ == self.spec_title(),
            r.html_content@ == self.spec_content().spec_html(),
            r.text_content@ == self.spec_content().spec_text(),
    {
        NewsletterIssue {
            title: self.title,
            html_content: self.content.html,
            text_content: self.content.text,
        }
    }
}

/// Failure of a publish request that is reported to the caller.
#[derive(Debug)]
pub enum PublishError {
    /// The submitted credentials were rejected.
    AuthError(String),
    /// An internal failure: hashing, storage, or delivery transport.
    UnexpectedError(String),
}

/// The response owed for an authentication failure: a 401 challenge
/// carrying the `WWW-Authenticate` header for the `publish` realm.
pub open spec fn auth_failed_model() -> ResponseModel {
    ResponseModel {
        status: 401,
        headers: seq![("WWW-Authenticate"@, "Basic realm=\"publish\""@)],
        body: Seq::empty(),
    }
}

/// The response owed for an internal failure.
pub open spec fn internal_error_model() -> ResponseModel {
    ResponseModel { status: 500, headers: Seq::empty(), body: Seq::empty() }
}

impl PublishError {
    /// Maps the error to the response the caller receives: internal
    /// failures surface as a bare 500, rejected credentials as a 401
    /// challenge for the `publish` realm.
    pub fn error_response(&self) -> (r: SavedResponse)
        ensures
            self is AuthError ==> r@ == auth_failed_model(),
            self is UnexpectedError ==> r@ == internal_error_model(),
    {
        match self {
            PublishError::UnexpectedError(_) => {
                let r = SavedResponse { status_code: 500, headers: Vec::new(), body: Vec::new() };
                proof {
                    assert(r@.headers =~= internal_error_model().headers);
                    assert(r@.body =~= internal_error_model().body);
                }
                r
            },
            PublishError::AuthError(_) => {
                let mut headers: Vec<(String, String)> = Vec::new();
                headers.push(
                    (
                        String::from_str("WWW-Authenticate"),
                        String::from_str("Basic realm=\"publish\""),
                    ),
                );
                let r = SavedResponse { status_code: 401, headers, body: Vec::new() };
                proof {
                    assert(r@.headers =~= auth_failed_model().headers);
                    assert(r@.body =~= auth_failed_model().body);
                }
                r
            },
        }
    }

    /// A short account of the failure, in the words the caller sees.
    pub fn describe(&self) -> (s: String)
        ensures
            self is AuthError ==> s@ == "Authentication failed."@,
            self matches PublishError::UnexpectedError(m) ==> s@ == m@,
    {
        match self {
            PublishError::AuthError(_) => String::from_str("Authentication failed."),
            PublishError::UnexpectedError(m) => m.clone(),
        }
    }
}

/// Runs the authentication of a publish request that carries its
/// credentials in a Basic `Authorization` header: parse the header, then
/// verify the pair against the stored records. A rejected header and
/// rejected credentials both surface as `AuthError`; only a failed hashing
/// call is an `UnexpectedError`.
pub fn authorize_publish(users: &Vec<UserRecord>, header: &[u8]) -> (r: Result<u128, PublishError>)
    requires
        users_wf(users@),
    ensures
        ({
            let parsed = basic_header_credentials(header@);
            &&& r matches Ok(uid) ==> parsed matches Some(cred) && credentials_good(
                users@,
                cred.0,
                cred.1,
            ) && uid == owner_of(users@, cred.0)
            &&& parsed is None ==> (r matches Err(e) && e is AuthError)
            &&& r matches Err(e) ==> (e is AuthError ==> !(parsed matches Some(cred)
                && credentials_good(users@, cred.0, cred.1)))
            &&& r matches Err(e) ==> (e is UnexpectedError ==> (parsed matches Some(cred)
                && username_taken(users@, cred.0)))
        }),
{
    let credentials = match parse_basic_credentials(header) {
        Result::Ok(c) => c,
        Result::Err(_) => {
            return Err(
                PublishError::AuthError(
                    String::from_str("The 'Authorization' header was rejected."),
                ),
            );
        },
    };
    proof {
        match crate::authentication::base64_decoded_of(header@.skip(6)) {
            Option::Some(d) => {
                let i = choose|i: int| crate::authentication::is_first_colon(d, i);
                let pb = d.skip(i + 1);
                if vstd::utf8::valid_utf8(pb) {
                    vstd::utf8::decode_utf8_encode_utf8(pb);
                }
            },
            Option::None => {},
        }
    }
    match validate_credentials(users, &credentials) {
        Result::Ok(uid) => Ok(uid),
        Result::Err(CredentialError::InvalidCredentials) => Err(
            PublishError::AuthError(String::from_str("Invalid credentials.")),
        ),
        Result::Err(CredentialError::HashingFailed) => Err(
            PublishError::UnexpectedError(String::from_str("Failed to hash password.")),
        ),
    }
}

} // verus!
