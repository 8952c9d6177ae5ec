use vstd::prelude::*;
use vstd::utf8::encode_utf8;

verus! {

/// Longest accepted idempotency key, in bytes of its UTF-8 encoding.
pub const MAX_KEY_LEN: usize = 50;

/// Key format rule: a caller-supplied key must be non-empty and at most
/// `MAX_KEY_LEN` bytes long; anything else is rejected before any side effect.
pub open spec fn valid_key(s: Seq<char>) -> bool {
    0 < encode_utf8(s).len() <= MAX_KEY_LEN
}

/// Why a submitted key was rejected.
#[derive(Debug)]
pub enum KeyValidationError {
    Empty,
    TooLong,
}

/// A caller-supplied key that passed the format rule, scoped per user.
pub struct IdempotencyKey {
    key: String,
}

impl View for IdempotencyKey {
    type V = Seq<char>;

    closed spec fn view(&self) -> Seq<char> {
        self.key@
    }
}

impl IdempotencyKey {
    /// Accepts exactly the keys that `valid_key` admits, and reports which
    /// bound an invalid key broke.
    pub fn try_new(s: String) -> (r: Result<IdempotencyKey, KeyValidationError>)
        ensures
            r is Ok <==> valid_key(s@),
            r matches Ok(k) ==> k@ == s@,
            r matches Err(e) ==> (e is Empty <==> encode_utf8(s@).len() == 0),
            r matches Err(e) ==> (e is TooLong <==> encode_utf8(s@).len() > MAX_KEY_LEN),
    {
        let n = s.as_str().as_bytes().len();
        if n == 0 {
            Err(KeyValidationError::Empty)
        } else if n > MAX_KEY_LEN {
            Err(KeyValidationError::TooLong)
        } else {
            Ok(IdempotencyKey { key: s })
        }
    }

    pub fn as_string(&self) -> (r: &String)
        ensures
            r@ == self@,
    {
        &self.key
    }
}

/// Mathematical content of a saved response: status, headers in order, body.
pub struct ResponseModel {
    pub status: u16,
    pub headers: Seq<(Seq<char>, Seq<char>)>,
    pub body: Seq<u8>,
}

/// The response persisted for a completed command, replayed verbatim on
/// repeated submissions of the same pair.
pub struct SavedResponse {
    pub status_code: u16,
    pub headers: Vec<(String, String)>,
    pub body: Vec<u8>,
}

impl View for SavedResponse {
    type V = ResponseModel;

    open spec fn view(&self) -> ResponseModel {
        ResponseModel {
            status: self.status_code,
            headers: self.headers@.map_values(|p: (String, String)| (p.0@, p.1@)),
            body: self.body@,
        }
    }
}

/// Copies a saved response; the copy has the same mathematical content.
pub fn clone_response(r: &SavedResponse) -> (c: SavedResponse)
    ensures
        c@ == r@,
{
    let mut headers: Vec<(String, String)> = Vec::new();
    let mut i: usize = 0;
    while i < r.headers.len()
        invariant
            i <= r.headers@.len(),
            headers@.len() == i,
            forall|j: int| 0 <= j < i ==> headers@[j] == r.headers@[j],
        decreases r.headers@.len() - i,
    {
        headers.push((r.headers[i].0.clone(), r.headers[i].1.clone()));
        i = i + 1;
    }
    let mut body: Vec<u8> = Vec::new();
    let mut k: usize = 0;
    while k < r.body.len()
        invariant
            k <= r.body@.len(),
            body@ =~= r.body@.take(k as int),
        decreases r.body@.len() - k,
    {
        body.push(r.body[k]);
        proof {
            assert(body@ =~= r.body@.take(k + 1));
        }
        k = k + 1;
    }
    proof {
        assert(headers@ =~= r.headers@);
        assert(body@ =~= r.body@);
        assert(headers@.map_values(|p: (String, String)| (p.0@, p.1@)) =~= r.headers@.map_values(
            |p: (String, String)| (p.0@, p.1@),
        ));
    }
    SavedResponse { status_code: r.status_code, headers, body }
}

/// One stored row, at the mathematical level: when it was claimed, and the
/// persisted response once the claimant completed it (`None` while the row
/// is still claimed-incomplete).
pub struct StoredEntry {
    pub created_at: u64,
    pub response: Option<ResponseModel>,
}

/// The store, at the mathematical level: at most one row per (user, key).
pub type StoreModel = Map<(u128, Seq<char>), StoredEntry>;

/// What `begin` reports for a pair.
pub enum BeginOutcome {
    /// The row was inserted: the caller is the sole owner of the side effects.
    Claimed,
    /// A completed row exists: its response must be returned verbatim.
    Replay(SavedResponse),
    /// A claimed-incomplete row exists: another execution owns the claim.
    InProgress,
}

/// `BeginOutcome` at the mathematical level.
pub enum OutcomeModel {
    Claimed,
    Replay(ResponseModel),
    InProgress,
}

impl View for BeginOutcome {
    type V = OutcomeModel;

    open spec fn view(&self) -> OutcomeModel {
        match self {
            BeginOutcome::Claimed => OutcomeModel::Claimed,
            BeginOutcome::Replay(r) => OutcomeModel::Replay(r@),
            BeginOutcome::InProgress => OutcomeModel::InProgress,
        }
    }
}

/// The transition `begin` performs on the store: insert a claimed-incomplete
/// row if the pair is free, otherwise report the row that is in the way.
pub open spec fn spec_begin(m: StoreModel, uid: u128, key: Seq<char>, now: u64) -> (
    StoreModel,
    OutcomeModel,
) {
    if !m.contains_key((uid, key)) {
        (
            m.insert((uid, key), StoredEntry { created_at: now, response: None }),
            OutcomeModel::Claimed,
        )
    } else {
        match m[(uid, key)].response {
            Option::None => (m, OutcomeModel::InProgress),
            Option::Some(r) => (m, OutcomeModel::Replay(r)),
        }
    }
}

/// The transition `complete` performs on the store: the only allowed mutation
/// of a row, from claimed-incomplete to complete.
pub open spec fn spec_complete(
    m: StoreModel,
    uid: u128,
    key: Seq<char>,
    r: ResponseModel,
) -> StoreModel {
    m.insert((uid, key), StoredEntry { created_at: m[(uid, key)].created_at, response: Some(r) })
}

/// The transition `release` performs on the store: drop the claimed row
/// without completing it, as a transactional rollback does when the
/// side effects of the claimant failed part-way.
pub open spec fn spec_release(m: StoreModel, uid: u128, key: Seq<char>) -> StoreModel {
    m.remove((uid, key))
}

/// One stored row of the executable store.
struct Row {
    user_id: u128,
    key: String,
    created_at: u64,
    response: Option<SavedResponse>,
}

spec fn row_matches(r: Row, uid: u128, key: Seq<char>) -> bool {
    r.user_id == uid && r.key@ == key
}

spec fn row_entry(r: Row) -> StoredEntry {
    StoredEntry {
        created_at: r.created_at,
        response: match r.response {
            Option::Some(resp) => Some(resp@),
            Option::None => None,
        },
    }
}

spec fn rows_unique(rows: Seq<Row>) -> bool {
    forall|i: int, j: int|
        0 <= i < j < rows.len() ==> !row_matches(
            #[trigger] rows[i],
            rows[j].user_id,
            #[trigger] rows[j].key@,
        )
}

spec fn index_of(rows: Seq<Row>, uid: u128, key: Seq<char>) -> int {
    choose|i: int| 0 <= i < rows.len() && row_matches(#[trigger] rows[i], uid, key)
}

spec fn rows_view(rows: Seq<Row>) -> StoreModel {
    Map::new(
        |p: (u128, Seq<char>)|
            exists|i: int| 0 <= i < rows.len() && row_matches(#[trigger] rows[i], p.0, p.1),
        |p: (u128, Seq<char>)| row_entry(rows[index_of(rows, p.0, p.1)]),
    )
}

proof fn lemma_unique_match(rows: Seq<Row>, uid: u128, key: Seq<char>, i: int)
    requires
        rows_unique(rows),
        0 <= i < rows.len(),
        row_matches(rows[i], uid, key),
    ensures
        index_of(rows, uid, key) == i,
        rows_view(rows).contains_key((uid, key)),
        rows_view(rows)[(uid, key)] == row_entry(rows[i]),
{
    let j = index_of(rows, uid, key);
    assert(0 <= j < rows.len() && row_matches(rows[j], uid, key));
    if i < j {
        assert(!row_matches(rows[i], rows[j].user_id, rows[j].key@));
    } else if j < i {
        assert(!row_matches(rows[j], rows[i].user_id, rows[i].key@));
    }
}

proof fn lemma_push_fresh_row(rows: Seq<Row>, row: Row, uid: u128, key: Seq<char>)
    requires
        rows_unique(rows),
        forall|j: int| 0 <= j < rows.len() ==> !row_matches(#[trigger] rows[j], uid, key),
        row_matches(row, uid, key),
    ensures
        rows_unique(rows.push(row)),
        rows_view(rows.push(row)) =~= rows_view(rows).insert((uid, key), row_entry(row)),
{
    let rows2 = rows.push(row);
    let n = rows.len() as int;
    assert forall|i: int, j: int| 0 <= i < j < rows2.len() implies !row_matches(
        rows2[i],
        rows2[j].user_id,
        rows2[j].key@,
    ) by {
        if j < n {
            assert(rows2[i] == rows[i] && rows2[j] == rows[j]);
            assert(!row_matches(rows[i], rows[j].user_id, rows[j].key@));
        } else {
            assert(rows2[i] == rows[i] && rows2[j] == row);
            assert(!row_matches(rows[i], uid, key));
        }
    }
    let m2 = rows_view(rows2);
    let mi = rows_view(rows).insert((uid, key), row_entry(row));
    assert forall|p: (u128, Seq<char>)| #[trigger] m2.contains_key(p) implies mi.contains_key(p)
        && m2[p] == mi[p] by {
        let idx = choose|i: int| 0 <= i < rows2.len() && row_matches(#[trigger] rows2[i], p.0, p.1);
        if row_matches(row, p.0, p.1) {
            assert(p =~= (uid, key));
            lemma_unique_match(rows2, uid, key, n);
            assert(m2[p] == row_entry(row));
        } else {
            assert(idx < n);
            assert(rows2[idx] == rows[idx]);
            lemma_unique_match(rows2, p.0, p.1, idx);
            lemma_unique_match(rows, p.0, p.1, idx);
            assert(!(p =~= (uid, key)));
            assert(mi.contains_key(p) && mi[p] == rows_view(rows)[p]);
        }
    }
    assert forall|p: (u128, Seq<char>)| #[trigger] mi.contains_key(p) implies m2.contains_key(
        p,
    ) by {
        if p.0 == uid && p.1 == key {
            assert(row_matches(rows2[n], p.0, p.1));
        } else {
            assert(rows_view(rows).contains_key(p));
            let idx = choose|i: int|
                0 <= i < rows.len() && row_matches(#[trigger] rows[i], p.0, p.1);
            assert(row_matches(rows2[idx], p.0, p.1));
        }
    }
    assert(m2 =~= mi);
}

/// The idempotency store: claims keys scoped to a user and serves the saved
/// response on replay. The uniqueness of the (user, key) row is the
/// single-flight primitive.
pub struct IdempotencyStore {
    rows: Vec<Row>,
}

impl IdempotencyStore {
    /// Internal well-formedness: no two rows share a (user, key) pair.
    pub closed spec fn inv(self) -> bool {
        rows_unique(self.rows@)
    }

    pub closed spec fn view(&self) -> StoreModel {
        rows_view(self.rows@)
    }

    pub fn new() -> (r: IdempotencyStore)
        ensures
            r.inv(),
            r@ == Map::<(u128, Seq<char>), StoredEntry>::empty(),
    {
        let r = IdempotencyStore { rows: Vec::new() };
        proof {
            assert(r@ =~= Map::<(u128, Seq<char>), StoredEntry>::empty());
        }
        r
    }

    /// Position of the row for the pair, if one exists.
    fn find(&self, user_id: u128, key: &String) -> (r: Option<usize>)
        ensures
            r matches Some(i) ==> i < self.rows@.len() && row_matches(
                self.rows@[i as int],
                user_id,
                key@,
            ),
            r is None ==> forall|j: int|
                0 <= j < self.rows@.len() ==> !row_matches(#[trigger] self.rows@[j], user_id, key@),
    {
        let n = self.rows.len();
        let mut i: usize = 0;
        while i < n
            invariant
                n == self.rows@.len(),
                i <= n,
                forall|j: int| 0 <= j < i ==> !row_matches(#[trigger] self.rows@[j], user_id, key@),
            decreases n - i,
        {
            if self.rows[i].user_id == user_id && self.rows[i].key == *key {
                return Some(i);
            }
            i = i + 1;
        }
        None
    }

    /// Claims the pair if it is free, otherwise reports the row in the way:
    /// the saved response of a complete row, or `InProgress` for a row whose
    /// claimant has not finished.
    pub fn begin(&mut self, user_id: u128, key: &IdempotencyKey, now: u64) -> (r: BeginOutcome)
        requires
            old(self).inv(),
        ensures
            final(self).inv(),
            (final(self)@, r@) == spec_begin(old(self)@, user_id, key@, now),
    {
        let ghost m0 = self@;
        match self.find(user_id, key.as_string()) {
            Option::Some(i) => {
                proof {
                    lemma_unique_match(self.rows@, user_id, key@, i as int);
                }
                match &self.rows[i].response {
                    Option::Some(resp) => {
                        let copy = clone_response(resp);
                        BeginOutcome::Replay(copy)
                    },
                    Option::None => BeginOutcome::InProgress,
                }
            },
            Option::None => {
                let row = Row {
                    user_id,
                    key: key.as_string().clone(),
                    created_at: now,
                    response: None,
                };
                proof {
                    if m0.contains_key((user_id, key@)) {
                        let idx = choose|i: int|
                            0 <= i < self.rows@.len() && row_matches(
                                #[trigger] self.rows@[i],
                                user_id,
                                key@,
                            );
                        assert(false);
                    }
                    lemma_push_fresh_row(self.rows@, row, user_id, key@);
                }
                self.rows.push(row);
                BeginOutcome::Claimed
            },
        }
    }

    /// Writes the saved response into the claimed-incomplete row: the caller
    /// must be the request that was granted `Claimed` for this pair.
    pub fn complete(&mut self, user_id: u128, key: &IdempotencyKey, response: SavedResponse)
        requires
            old(self).inv(),
            old(self)@.contains_key((user_id, key@)),
            old(self)@[(user_id, key@)].response is None,
        ensures
            final(self).inv(),
            final(self)@ == spec_complete(old(self)@, user_id, key@, response@),
    {
        let ghost rows0 = self.rows@;
        match self.find(user_id, key.as_string()) {
            Option::Some(i) => {
                proof {
                    lemma_unique_match(self.rows@, user_id, key@, i as int);
                }
                let mut row = self.rows.remove(i);
                row.response = Some(response);
                self.rows.insert(i, row);
                proof {
                    assert(self.rows@[i as int] == row);
                    assert forall|j: int| 0 <= j < rows0.len() && j != i implies self.rows@[j]
                        == rows0[j] by {}
                    lemma_update_row(rows0, i as int, self.rows@, user_id, key@);
                }
            },
            Option::None => {
                proof {
                    let idx = choose|j: int|
                        0 <= j < rows0.len() && row_matches(#[trigger] rows0[j], user_id, key@);
                    assert(false);
                }
            },
        }
    }

    /// Drops the claimed-incomplete row without completing it, as the
    /// transactional rollback of a failed dispatch does: the pair becomes
    /// free again, so a retry is granted a fresh claim.
    pub fn release(&mut self, user_id: u128, key: &IdempotencyKey)
        requires
            old(self).inv(),
            old(self)@.contains_key((user_id, key@)),
            old(self)@[(user_id, key@)].response is None,
        ensures
            final(self).inv(),
            final(self)@ == spec_release(old(self)@, user_id, key@),
    {
        let ghost rows0 = self.rows@;
        match self.find(user_id, key.as_string()) {
            Option::Some(i) => {
                proof {
                    lemma_unique_match(self.rows@, user_id, key@, i as int);
                    lemma_remove_row(self.rows@, i as int, user_id, key@);
                }
                let _removed = self.rows.remove(i);
            },
            Option::None => {
                proof {
                    let idx = choose|j: int|
                        0 <= j < rows0.len() && row_matches(#[trigger] rows0[j], user_id, key@);
                    assert(false);
                }
            },
        }
    }
}

proof fn lemma_remove_row(rows: Seq<Row>, i: int, uid: u128, key: Seq<char>)
    requires
        rows_unique(rows),
        0 <= i < rows.len(),
        row_matches(rows[i], uid, key),
    ensures
        rows_unique(rows.remove(i)),
        rows_view(rows.remove(i)) =~= rows_view(rows).remove((uid, key)),
{
    let rows2 = rows.remove(i);
    let orig = |a: int|
        if a < i {
            a
        } else {
            a + 1
        };
    assert forall|a: int, b: int| 0 <= a < b < rows2.len() implies !row_matches(
        rows2[a],
        rows2[b].user_id,
        rows2[b].key@,
    ) by {
        assert(rows2[a] == rows[orig(a)] && rows2[b] == rows[orig(b)]);
        assert(!row_matches(rows[orig(a)], rows[orig(b)].user_id, rows[orig(b)].key@));
    }
    let m2 = rows_view(rows2);
    let mr = rows_view(rows).remove((uid, key));
    assert forall|p: (u128, Seq<char>)| #[trigger] m2.contains_key(p) implies mr.contains_key(p)
        && m2[p] == mr[p] by {
        let idx = choose|a: int| 0 <= a < rows2.len() && row_matches(#[trigger] rows2[a], p.0, p.1);
        assert(rows2[idx] == rows[orig(idx)]);
        lemma_unique_match(rows2, p.0, p.1, idx);
        lemma_unique_match(rows, p.0, p.1, orig(idx));
        if p.0 == uid && p.1 == key {
            lemma_unique_match(rows, uid, key, i);
            assert(false);
        }
        assert(!(p =~= (uid, key)));
    }
    assert forall|p: (u128, Seq<char>)| #[trigger] mr.contains_key(p) implies m2.contains_key(
        p,
    ) by {
        let idx = choose|a: int| 0 <= a < rows.len() && row_matches(#[trigger] rows[a], p.0, p.1);
        if idx == i {
            assert(p =~= (uid, key));
            assert(false);
        }
        if idx < i {
            assert(rows2[idx] == rows[idx]);
        } else {
            assert(rows2[idx - 1] == rows[idx]);
        }
    }
    assert(m2 =~= mr);
}

proof fn lemma_update_row(rows: Seq<Row>, i: int, rows2: Seq<Row>, uid: u128, key: Seq<char>)
    requires
        rows_unique(rows),
        0 <= i < rows.len(),
        row_matches(rows[i], uid, key),
        rows2.len() == rows.len(),
        forall|j: int| 0 <= j < rows.len() && j != i ==> rows2[j] == rows[j],
        row_matches(rows2[i], uid, key),
        rows2[i].created_at == rows[i].created_at,
    ensures
        rows_unique(rows2),
        rows_view(rows2) =~= rows_view(rows).insert((uid, key), row_entry(rows2[i])),
{
    assert forall|a: int, b: int| 0 <= a < b < rows2.len() implies !row_matches(
        rows2[a],
        rows2[b].user_id,
        rows2[b].key@,
    ) by {
        if row_matches(rows2[a], rows2[b].user_id, rows2[b].key@) {
            if a == i {
                assert(row_matches(rows[b], uid, key));
                lemma_unique_match(rows, uid, key, b);
                lemma_unique_match(rows, uid, key, i);
            } else if b == i {
                assert(row_matches(rows[a], uid, key));
                lemma_unique_match(rows, uid, key, a);
                lemma_unique_match(rows, uid, key, i);
            } else {
                assert(!row_matches(rows[a], rows[b].user_id, rows[b].key@));
            }
        }
    }
    let m2 = rows_view(rows2);
    let mi = rows_view(rows).insert((uid, key), row_entry(rows2[i]));
    assert forall|p: (u128, Seq<char>)| #[trigger] m2.contains_key(p) implies mi.contains_key(p)
        && m2[p] == mi[p] by {
        let idx = choose|a: int| 0 <= a < rows2.len() && row_matches(#[trigger] rows2[a], p.0, p.1);
        lemma_unique_match(rows2, p.0, p.1, idx);
        if idx == i {
            assert(p =~= (uid, key));
            assert(m2[p] == row_entry(rows2[i]));
        } else {
            assert(rows2[idx] == rows[idx]);
            lemma_unique_match(rows, p.0, p.1, idx);
            if p.0 == uid && p.1 == key {
                lemma_unique_match(rows, uid, key, i);
                assert(false);
            }
            assert(!(p =~= (uid, key)));
        }
    }
    assert forall|p: (u128, Seq<char>)| #[trigger] mi.contains_key(p) implies m2.contains_key(
        p,
    ) by {
        if p.0 == uid && p.1 == key {
            assert(row_matches(rows2[i], p.0, p.1));
        } else {
            assert(rows_view(rows).contains_key(p));
            let idx = choose|a: int|
                0 <= a < rows.len() && row_matches(#[trigger] rows[a], p.0, p.1);
            if idx == i {
                assert(p =~= (uid, key));
                assert(false);
            }
            assert(row_matches(rows2[idx], p.0, p.1));
        }
    }
    assert(m2 =~= mi);
}

/// Law: a request that is granted the claim for a fresh pair and completes it
/// with response `r` fixes the pair for good: beginning the same pair again
/// replays exactly `r` and leaves the store unchanged, whatever the payload
/// or the time of the later request.
pub proof fn lemma_replay_after_complete(
    m: StoreModel,
    uid: u128,
    key: Seq<char>,
    now1: u64,
    now2: u64,
    r: ResponseModel,
)
    requires
        !m.contains_key((uid, key)),
    ensures
        ({
            let (m1, out1) = spec_begin(m, uid, key, now1);
            let m2 = spec_complete(m1, uid, key, r);
            let (m3, out2) = spec_begin(m2, uid, key, now2);
            &&& out1 is Claimed
            &&& out2 == OutcomeModel::Replay(r)
            &&& m3 == m2
        }),
{
}

/// How many of a series of begins of the same pair are granted the claim,
/// when nothing completes or releases the pair in between: each begin runs
/// on the store the previous one left.
pub open spec fn claims_granted(m: StoreModel, uid: u128, key: Seq<char>, times: Seq<u64>) -> nat
    decreases times.len(),
{
    if times.len() == 0 {
        0
    } else {
        let stepped = spec_begin(m, uid, key, times[0]);
        (if stepped.1 is Claimed {
            1nat
        } else {
            0nat
        }) + claims_granted(stepped.0, uid, key, times.drop_first())
    }
}

proof fn lemma_no_claims_while_pending(m: StoreModel, uid: u128, key: Seq<char>, times: Seq<u64>)
    requires
        m.contains_key((uid, key)),
        m[(uid, key)].response is None,
    ensures
        claims_granted(m, uid, key, times) == 0,
    decreases times.len(),
{
    if times.len() > 0 {
        lemma_no_claims_while_pending(m, uid, key, times.drop_first());
    }
}

/// Law: single flight for any number of competing requests. However many
/// begins of one pair run, in whatever interleaving the store serializes
/// them to, at most one is granted the claim as long as the pair is neither
/// completed nor released in between: all the others observe `Replay` or
/// `InProgress`.
pub proof fn lemma_at_most_one_claim(m: StoreModel, uid: u128, key: Seq<char>, times: Seq<u64>)
    ensures
        claims_granted(m, uid, key, times) <= 1,
    decreases times.len(),
{
    if times.len() > 0 {
        let stepped = spec_begin(m, uid, key, times[0]);
        if stepped.1 is Claimed {
            lemma_no_claims_while_pending(stepped.0, uid, key, times.drop_first());
        } else {
            lemma_at_most_one_claim(stepped.0, uid, key, times.drop_first());
        }
    }
}

/// Law: retry after a failed dispatch. Releasing a claimed pair frees it,
/// so a retry with the same key is granted a fresh claim and re-attempts
/// the full fan-out; deliveries that succeeded before the failure are
/// repeated, since no per-recipient progress is recorded.
pub proof fn lemma_retry_after_release(m: StoreModel, uid: u128, key: Seq<char>, now: u64)
    ensures
        spec_begin(spec_release(m, uid, key), uid, key, now).1 is Claimed,
{
}

/// Law: single flight. After one request is granted `Claimed` for a pair,
/// any request that begins the same pair before the claim is completed
/// observes `InProgress`, and the store does not change; since the store
/// does not change, every further such request observes `InProgress` as
/// well, so at most one of any number of competing requests is ever granted
/// the claim.
pub proof fn lemma_single_flight(m: StoreModel, uid: u128, key: Seq<char>, now1: u64, now2: u64)
    requires
        spec_begin(m, uid, key, now1).1 is Claimed,
    ensures
        ({
            let m1 = spec_begin(m, uid, key, now1).0;
            spec_begin(m1, uid, key, now2) == (m1, OutcomeModel::InProgress)
        }),
{
}

} // verus!
