use vstd::prelude::*;
use vstd::string::StringExecFns;
use vstd::utf8::encode_utf8;

use crate::authentication::credentials_good;
use crate::authentication::owner_of;
use crate::authentication::users_wf;
use crate::authentication::username_taken;
use crate::authentication::validate_credentials;
use crate::authentication::CredentialError;
use crate::authentication::Credentials;
use crate::authentication::UserRecord;
use crate::domain::email_ok;
use crate::domain::validate_email;
use crate::idempotency::spec_begin;
use crate::idempotency::valid_key;
use crate::idempotency::BeginOutcome;
use crate::idempotency::IdempotencyKey;
use crate::idempotency::IdempotencyStore;
use crate::idempotency::ResponseModel;
use crate::idempotency::SavedResponse;
use crate::newsletter::auth_failed_model;
use crate::newsletter::internal_error_model;
use crate::newsletter::NewsletterIssue;
use crate::newsletter::PublishError;

verus! {

// ------------------------------------------------------------------
// The responses the workflow can return
// ------------------------------------------------------------------
/// The response owed for a fully dispatched issue: the redirect-style
/// acknowledgment that is persisted and replayed verbatim.
pub open spec fn success_model() -> ResponseModel {
    ResponseModel {
        status: 303,
        headers: seq![("Location"@, "/admin/newsletters"@)],
        body: Seq::empty(),
    }
}

/// The response owed for a malformed idempotency key.
pub open spec fn bad_request_model() -> ResponseModel {
    ResponseModel { status: 400, headers: Seq::empty(), body: Seq::empty() }
}

/// The response owed while another execution holds the claim.
pub open spec fn conflict_model() -> ResponseModel {
    ResponseModel { status: 409, headers: Seq::empty(), body: Seq::empty() }
}

pub fn success_response() -> (r: SavedResponse)
    ensures
        r@ == success_model(),
{
    let mut headers: Vec<(String, String)> = Vec::new();
    headers.push((String::from_str("Location"), String::from_str("/admin/newsletters")));
    let r = SavedResponse { status_code: 303, headers, body: Vec::new() };
    proof {
        assert(r@.headers =~= success_model().headers);
        assert(r@.body =~= success_model().body);
    }
    r
}

pub fn bad_request_response() -> (r: SavedResponse)
    ensures
        r@ == bad_request_model(),
{
    let r = SavedResponse { status_code: 400, headers: Vec::new(), body: Vec::new() };
    proof {
        assert(r@.headers =~= bad_request_model().headers);
        assert(r@.body =~= bad_request_model().body);
    }
    r
}

pub fn conflict_response() -> (r: SavedResponse)
    ensures
        r@ == conflict_model(),
{
    let r = SavedResponse { status_code: 409, headers: Vec::new(), body: Vec::new() };
    proof {
        assert(r@.headers =~= conflict_model().headers);
        assert(r@.body =~= conflict_model().body);
    }
    r
}

// ------------------------------------------------------------------
// Fan-out bookkeeping
// ------------------------------------------------------------------
/// The character sequences of a recipient list.
pub open spec fn emails_of(rs: Seq<String>) -> Seq<Seq<char>> {
    rs.map_values(|s: String| s@)
}

/// The sublist of addresses that pass validation, in their original order:
/// what a full fan-out must deliver to.
pub open spec fn valid_recipients(list: Seq<Seq<char>>) -> Seq<Seq<char>>
    decreases list.len(),
{
    if list.len() == 0 {
        Seq::empty()
    } else if email_ok(list.last()) {
        valid_recipients(list.drop_last()).push(list.last())
    } else {
        valid_recipients(list.drop_last())
    }
}

proof fn lemma_valid_recipients_step(list: Seq<Seq<char>>, c: int)
    requires
        0 <= c < list.len(),
    ensures
        email_ok(list[c]) ==> valid_recipients(list.take(c + 1)) == valid_recipients(
            list.take(c),
        ).push(list[c]),
        !email_ok(list[c]) ==> valid_recipients(list.take(c + 1)) == valid_recipients(list.take(c)),
{
    let pre = list.take(c + 1);
    assert(pre.drop_last() =~= list.take(c));
    assert(pre.last() == list[c]);
}

/// The progress of one claimed publish request, at the mathematical level.
pub struct PublicationModel {
    pub user_id: u128,
    pub key: Seq<char>,
    pub title: Seq<char>,
    pub html_content: Seq<char>,
    pub text_content: Seq<char>,
    pub recipients: Seq<Seq<char>>,
    pub cursor: int,
    pub in_flight: bool,
    pub sent: Seq<Seq<char>>,
}

/// The fields that never change while a publication is driven.
pub open spec fn same_static(a: PublicationModel, b: PublicationModel) -> bool {
    &&& a.user_id == b.user_id
    &&& a.key == b.key
    &&& a.title == b.title
    &&& a.html_content == b.html_content
    &&& a.text_content == b.text_content
    &&& a.recipients == b.recipients
}

/// What the dispatcher asks of its driver next.
pub enum FanoutStep {
    /// Deliver the issue to this address, then report the outcome.
    Send(String),
    /// This stored address failed validation and was skipped; the condition
    /// is worth a warning, and the fan-out goes on.
    Skipped(String),
    /// Every recipient has been decided.
    Finished,
}

/// One claimed publish request being fanned out: recipients are decided
/// sequentially, invalid stored addresses are skipped, and the log of
/// performed deliveries is carried as ghost state.
pub struct Publication {
    user_id: u128,
    key: IdempotencyKey,
    issue: NewsletterIssue,
    recipients: Vec<String>,
    cursor: usize,
    in_flight: bool,
    delivered: usize,
    skipped: usize,
    sent: Ghost<Seq<Seq<char>>>,
}

impl View for Publication {
    type V = PublicationModel;

    closed spec fn view(&self) -> PublicationModel {
        PublicationModel {
            user_id: self.user_id,
            key: self.key@,
            title: self.issue.title@,
            html_content: self.issue.html_content@,
            text_content: self.issue.text_content@,
            recipients: emails_of(self.recipients@),
            cursor: self.cursor as int,
            in_flight: self.in_flight,
            sent: self.sent@,
        }
    }
}

impl Publication {
    /// Internal consistency: the cursor is in range, the ghost log holds
    /// exactly the valid addresses of the decided prefix, and the counters
    /// match it.
    pub closed spec fn inv(self) -> bool {
        &&& self.cursor <= self.recipients@.len()
        &&& self.in_flight ==> self.cursor < self.recipients@.len() && email_ok(
            emails_of(self.recipients@)[self.cursor as int],
        )
        &&& self.sent@ == valid_recipients(emails_of(self.recipients@).take(self.cursor as int))
        &&& self.delivered == self.sent@.len()
        &&& self.skipped + self.delivered == self.cursor
    }

    pub fn new(
        user_id: u128,
        key: IdempotencyKey,
        issue: NewsletterIssue,
        recipients: Vec<String>,
    ) -> (p: Publication)
        ensures
            p.inv(),
            p@.user_id == user_id,
            p@.key == key@,
            p@.title == issue.title@,
            p@.html_content == issue.html_content@,
            p@.text_content == issue.text_content@,
            p@.recipients == emails_of(recipients@),
            p@.cursor == 0,
            !p@.in_flight,
            p@.sent == Seq::<Seq<char>>::empty(),
    {
        let p = Publication {
            user_id,
            key,
            issue,
            recipients,
            cursor: 0,
            in_flight: false,
            delivered: 0,
            skipped: 0,
            sent: Ghost(Seq::empty()),
        };
        proof {
            assert(emails_of(p.recipients@).take(0) =~= Seq::<Seq<char>>::empty());
        }
        p
    }

    /// The issue being published, for the driver to hand to the transport.
    pub fn issue(&self) -> (r: &NewsletterIssue)
        ensures
            r.title@ == self@.title,
            r.html_content@ == self@.html_content,
            r.text_content@ == self@.text_content,
    {
        &self.issue
    }

    /// Number of deliveries performed so far.
    pub fn delivered_count(&self) -> (r: usize)
        requires
            self.inv(),
        ensures
            r == self@.sent.len(),
    {
        self.delivered
    }

    /// Number of stored addresses skipped as invalid so far.
    pub fn skipped_count(&self) -> (r: usize)
        requires
            self.inv(),
        ensures
            r == self@.cursor - self@.sent.len(),
    {
        self.skipped
    }

    /// Decides the next recipient: hands out a valid address for delivery,
    /// skips an invalid one (the fault never aborts the fan-out), or reports
    /// that every recipient has been decided.
    pub fn poll(&mut self) -> (s: FanoutStep)
        requires
            old(self).inv(),
            !old(self)@.in_flight,
        ensures
            final(self).inv(),
            same_static(final(self)@, old(self)@),
            match s {
                FanoutStep::Send(e) => {
                    &&& final(self)@.in_flight
                    &&& final(self)@.cursor == old(self)@.cursor
                    &&& final(self)@.sent == old(self)@.sent
                    &&& old(self)@.cursor < old(self)@.recipients.len()
                    &&& email_ok(old(self)@.recipients[old(self)@.cursor])
                    &&& e@ == old(self)@.recipients[old(self)@.cursor]
                },
                FanoutStep::Skipped(e) => {
                    &&& !final(self)@.in_flight
                    &&& final(self)@.cursor == old(self)@.cursor + 1
                    &&& final(self)@.sent == old(self)@.sent
                    &&& old(self)@.cursor < old(self)@.recipients.len()
                    &&& !email_ok(old(self)@.recipients[old(self)@.cursor])
                    &&& e@ == old(self)@.recipients[old(self)@.cursor]
                },
                FanoutStep::Finished => {
                    &&& *final(self) == *old(self)
                    &&& old(self)@.cursor == old(self)@.recipients.len()
                },
            },
    {
        let n = self.recipients.len();
        if self.cursor >= n {
            return FanoutStep::Finished;
        }
        let addr = &self.recipients[self.cursor];
        if validate_email(addr.as_str()) {
            let e = addr.clone();
            self.in_flight = true;
            FanoutStep::Send(e)
        } else {
            let e = addr.clone();
            proof {
                lemma_valid_recipients_step(emails_of(self.recipients@), self.cursor as int);
            }
            self.cursor = self.cursor + 1;
            self.skipped = self.skipped + 1;
            FanoutStep::Skipped(e)
        }
    }

    /// Records that the transport accepted the delivery handed out by the
    /// last `poll`: the address joins the log and the fan-out moves on.
    pub fn record_delivered(&mut self)
        requires
            old(self).inv(),
            old(self)@.in_flight,
        ensures
            final(self).inv(),
            same_static(final(self)@, old(self)@),
            !final(self)@.in_flight,
            final(self)@.cursor == old(self)@.cursor + 1,
            final(self)@.sent == old(self)@.sent.push(
                old(self)@.recipients[old(self)@.cursor],
            ),
    {
        let n = self.recipients.len();
        proof {
            assert(self.cursor < n);
            assert(self.delivered <= self.cursor);
            lemma_valid_recipients_step(emails_of(self.recipients@), self.cursor as int);
        }
        let ghost addr = emails_of(self.recipients@)[self.cursor as int];
        self.sent = Ghost(self.sent@.push(addr));
        self.in_flight = false;
        self.delivered = self.delivered + 1;
        self.cursor = self.cursor + 1;
    }

    /// A delivery failed at the transport: the fan-out is aborted as a
    /// whole, and the claim is rolled back rather than completed, so a
    /// retry with the same key will attempt the full fan-out again —
    /// including the recipients already delivered to, since no
    /// per-recipient progress is recorded. Returns the internal-error
    /// response.
    pub fn transport_failed(self, store: &mut IdempotencyStore) -> (r: SavedResponse)
        requires
            old(store).inv(),
            old(store)@.contains_key((self@.user_id, self@.key)),
            old(store)@[(self@.user_id, self@.key)].response is None,
        ensures
            final(store).inv(),
            final(store)@ == crate::idempotency::spec_release(
                old(store)@,
                self@.user_id,
                self@.key,
            ),
            r@ == internal_error_model(),
    {
        store.release(self.user_id, &self.key);
        let e = PublishError::UnexpectedError(
            String::from_str("Failed to send newsletter issue."),
        );
        e.error_response()
    }

    /// Every recipient was decided and every delivery succeeded: persist the
    /// acknowledgment under the claimed pair and return it. The ghost log
    /// now holds exactly the valid recipients of the whole list, in order.
    pub fn finish(self, store: &mut IdempotencyStore, now: u64) -> (r: SavedResponse)
        requires
            self.inv(),
            !self@.in_flight,
            self@.cursor == self@.recipients.len(),
            old(store).inv(),
            old(store)@.contains_key((self@.user_id, self@.key)),
            old(store)@[(self@.user_id, self@.key)].response is None,
        ensures
            final(store).inv(),
            final(store)@ == crate::idempotency::spec_complete(
                old(store)@,
                self@.user_id,
                self@.key,
                success_model(),
            ),
            r@ == success_model(),
            self@.sent == valid_recipients(self@.recipients),
    {
        proof {
            assert(emails_of(self.recipients@).take(self.cursor as int) =~= emails_of(
                self.recipients@,
            ));
        }
        let response = success_response();
        let copy = crate::idempotency::clone_response(&response);
        store.complete(self.user_id, &self.key, copy);
        response
    }
}

// ------------------------------------------------------------------
// The publish workflow
// ------------------------------------------------------------------
/// The submitted form of a publish request.
pub struct FormData {
    pub title: String,
    pub text_content: String,
    pub html_content: String,
    pub idempotency_key: String,
}

/// The terminal or continuing state a publish request reaches before any
/// delivery: every variant but `Dispatch` carries the response to return.
pub enum PublishOutcome {
    /// The credentials were rejected; no key was touched.
    AuthFailed(SavedResponse),
    /// An internal failure before any side effect; no key was touched.
    UnexpectedFailure(SavedResponse),
    /// The key failed the format rule; no store interaction happened.
    InvalidKey(SavedResponse),
    /// A completed row exists: its response, returned verbatim.
    Replay(SavedResponse),
    /// Another execution holds the claim: a transient conflict.
    InProgress(SavedResponse),
    /// The claim was granted: the caller must drive this fan-out.
    Dispatch(Publication),
}

/// Runs a publish request up to the point where deliveries start:
/// authentication first (failures never touch the store), then the key
/// format rule, then the atomic claim. Exactly the claimant receives a
/// `Publication` to drive.
pub fn begin_publish(
    users: &Vec<UserRecord>,
    store: &mut IdempotencyStore,
    subscribers: Vec<String>,
    credentials: &Credentials,
    form: FormData,
    now: u64,
) -> (r: PublishOutcome)
    requires
        users_wf(users@),
        old(store).inv(),
    ensures
        final(store).inv(),
        ({
            let name = credentials.username@;
            let pw = encode_utf8(credentials.password@);
            let key = form.idempotency_key@;
            let uid = owner_of(users@, name);
            &&& !username_taken(users@, name) ==> r is AuthFailed
            &&& r matches PublishOutcome::AuthFailed(resp) ==> !credentials_good(users@, name, pw)
                && final(store)@ == old(store)@ && resp@ == auth_failed_model()
            &&& r matches PublishOutcome::UnexpectedFailure(resp) ==> username_taken(users@, name)
                && final(store)@ == old(store)@ && resp@ == internal_error_model()
            &&& r matches PublishOutcome::InvalidKey(resp) ==> credentials_good(users@, name, pw)
                && !valid_key(key) && final(store)@ == old(store)@ && resp@ == bad_request_model()
            &&& valid_key(key) ==> !(r is InvalidKey)
            &&& r matches PublishOutcome::Replay(resp) ==> credentials_good(users@, name, pw)
                && valid_key(key) && old(store)@.contains_key((uid, key)) && old(store)@[
                (uid, key)
            ].response == Some(resp@) && final(store)@ == old(store)@
            &&& r matches PublishOutcome::InProgress(resp) ==> credentials_good(users@, name, pw)
                && valid_key(key) && old(store)@.contains_key((uid, key)) && old(store)@[
                (uid, key)
            ].response is None && final(store)@ == old(store)@ && resp@ == conflict_model()
            &&& r matches PublishOutcome::Dispatch(p) ==> credentials_good(users@, name, pw)
                && valid_key(key) && !old(store)@.contains_key((uid, key)) && final(store)@
                == spec_begin(old(store)@, uid, key, now).0 && p.inv() && p@.user_id == uid
                && p@.key == key && p@.title == form.title@ && p@.html_content
                == form.html_content@ && p@.text_content == form.text_content@ && p@.recipients
                == emails_of(subscribers@) && p@.cursor == 0 && !p@.in_flight && p@.sent
                == Seq::<Seq<char>>::empty()
        }),
{
    let FormData { title, text_content, html_content, idempotency_key } = form;
    match validate_credentials(users, credentials) {
        Result::Err(CredentialError::InvalidCredentials) => {
            let e = PublishError::AuthError(String::from_str("Invalid credentials."));
            PublishOutcome::AuthFailed(e.error_response())
        },
        Result::Err(CredentialError::HashingFailed) => {
            let e = PublishError::UnexpectedError(String::from_str("Failed to hash password."));
            PublishOutcome::UnexpectedFailure(e.error_response())
        },
        Result::Ok(uid) => {
            match IdempotencyKey::try_new(idempotency_key) {
                Result::Err(_) => PublishOutcome::InvalidKey(bad_request_response()),
                Result::Ok(key) => {
                    match store.begin(uid, &key, now) {
                        BeginOutcome::Replay(resp) => PublishOutcome::Replay(resp),
                        BeginOutcome::InProgress => PublishOutcome::InProgress(
                            conflict_response(),
                        ),
                        BeginOutcome::Claimed => {
                            let issue = NewsletterIssue { title, html_content, text_content };
                            PublishOutcome::Dispatch(
                                Publication::new(uid, key, issue, subscribers),
                            )
                        },
                    }
                },
            }
        },
    }
}

} // verus!
