use vstd::prelude::*;
use vstd::string::StringSliceAdditionalSpecFns;
use vstd::utf8::decode_utf8;
use vstd::utf8::encode_utf8;
use vstd::utf8::valid_utf8;

use crate::secret::SecretString;

verus! {

// ------------------------------------------------------------------
// Hex encoding of digests
// ------------------------------------------------------------------
/// ASCII byte of the hex digit for a nibble: `0`..`9` then `a`..`f`.
pub open spec fn hex_digit_byte(n: u8) -> u8
    recommends
        n < 16,
{
    if n < 10 {
        (48 + n) as u8
    } else {
        (87 + n) as u8
    }
}

/// Lowercase hex encoding of a byte sequence, two digits per byte.
pub open spec fn hex_bytes_of(bs: Seq<u8>) -> Seq<u8> {
    Seq::new(
        bs.len() * 2,
        |i: int|
            if i % 2 == 0 {
                hex_digit_byte(bs[i / 2] / 16)
            } else {
                hex_digit_byte(bs[i / 2] % 16)
            },
    )
}

/// Computes the lowercase hex encoding of `bs`.
pub fn hex_bytes(bs: &[u8]) -> (r: Vec<u8>)
    ensures
        r@ == hex_bytes_of(bs@),
{
    let n = bs.len();
    let mut out: Vec<u8> = Vec::new();
    let mut i: usize = 0;
    while i < n
        invariant
            n == bs@.len(),
            i <= n,
            out@.len() == 2 * i,
            forall|j: int| 0 <= j < 2 * i ==> out@[j] == hex_bytes_of(bs@)[j],
        decreases n - i,
    {
        let b = bs[i];
        let hi = b / 16;
        let lo = b % 16;
        let hid: u8 = if hi < 10 {
            48 + hi
        } else {
            87 + hi
        };
        let lod: u8 = if lo < 10 {
            48 + lo
        } else {
            87 + lo
        };
        out.push(hid);
        out.push(lod);
        proof {
            assert((2 * i as int) % 2 == 0 && (2 * i as int) / 2 == i as int);
            assert((2 * i as int + 1) % 2 == 1 && (2 * i as int + 1) / 2 == i as int);
        }
        i = i + 1;
    }
    proof {
        assert(out@ =~= hex_bytes_of(bs@));
    }
    out
}

/// Every byte of a hex encoding is an ASCII byte.
proof fn lemma_hex_bytes_ascii(bs: Seq<u8>)
    ensures
        forall|j: int| 0 <= j < hex_bytes_of(bs).len() ==> hex_bytes_of(bs)[j] < 128,
{
}

/// ASCII byte sequences are valid UTF-8.
pub proof fn lemma_ascii_valid_utf8(bytes: Seq<u8>)
    requires
        forall|j: int| 0 <= j < bytes.len() ==> bytes[j] < 128,
    ensures
        valid_utf8(bytes),
{
    assert(bytes.subrange(0, 0) =~= Seq::<u8>::empty());
    assert forall|j: int| 0 <= j < bytes.len() implies vstd::utf8::is_leading_byte_width_1(
        #[trigger] bytes[j],
    ) by {
        let b = bytes[j];
        assert(b < 128 ==> b & 0x80 == 0x00) by (bit_vector);
    }
    vstd::utf8::partial_valid_utf8_extend_ascii_block(bytes, 0, bytes.len() as int);
    assert(bytes.subrange(0, bytes.len() as int) =~= bytes);
}

// ------------------------------------------------------------------
// Constant-time comparison
// ------------------------------------------------------------------
/// Compares two byte strings in time that depends only on their lengths:
/// the accumulated difference mask, not an early exit, decides the result.
pub fn ct_eq(a: &[u8], b: &[u8]) -> (r: bool)
    ensures
        r == (a@ == b@),
{
    let n = a.len();
    if n != b.len() {
        proof {
            assert(a@ != b@);
        }
        return false;
    }
    let mut diff: u8 = 0;
    let mut i: usize = 0;
    while i < n
        invariant
            n == a@.len(),
            n == b@.len(),
            i <= n,
            (diff == 0) <==> (forall|j: int| 0 <= j < i ==> a@[j] == b@[j]),
        decreases n - i,
    {
        let x = a[i] ^ b[i];
        proof {
            let av = a@[i as int];
            let bv = b@[i as int];
            let d0 = diff;
            assert(((av ^ bv) == 0) == (av == bv)) by (bit_vector);
            assert(((d0 | (av ^ bv)) == 0) == (d0 == 0 && (av ^ bv) == 0)) by (bit_vector);
        }
        diff = diff | x;
        i = i + 1;
    }
    if diff == 0 {
        proof {
            assert(a@ =~= b@);
        }
        true
    } else {
        false
    }
}

// ------------------------------------------------------------------
// The hashing configuration and its trusted computation
// ------------------------------------------------------------------
/// Fixed, versioned hashing configuration (memory cost in KiB, iterations,
/// parallelism): every stored hash was produced under these constants.
pub const HASH_M_COST: u32 = 15000;

pub const HASH_T_COST: u32 = 2;

pub const HASH_P_COST: u32 = 1;

/// The 32-byte Argon2d (version 0x13) tag for the given costs, password and
/// salt. The function itself takes pages to state, so only its name is fixed
/// here; the trusted wrapper below ties the name to the implementation.
pub uninterp spec fn argon2d_digest_of(
    m_cost: u32,
    t_cost: u32,
    p_cost: u32,
    password: Seq<u8>,
    salt: Seq<u8>,
) -> Seq<u8>;

/// Relies on argon2's `Argon2::hash_password_into` with `Algorithm::Argon2d`,
/// `Version::V0x13`, the given costs and a 32-byte tag: its documentation
/// fixes the tag as a deterministic function of password, salt and
/// parameters; it fails only for out-of-range parameters, an out-of-range
/// password or salt length, or failed working-memory allocation.
#[verifier::external_body]
fn argon2d_hash(m_cost: u32, t_cost: u32, p_cost: u32, password: &[u8], salt: &[u8]) -> (r: Option<
    Vec<u8>,
>)
    ensures
        r matches Some(v) ==> v@ == argon2d_digest_of(m_cost, t_cost, p_cost, password@, salt@)
            && v@.len() == 32,
{
    let params = match argon2::Params::new(m_cost, t_cost, p_cost, Some(32)) {
        Ok(p) => p,
        Err(_) => return None,
    };
    let hasher = argon2::Argon2::new(argon2::Algorithm::Argon2d, argon2::Version::V0x13, params);
    let mut out = [0u8; 32];
    match hasher.hash_password_into(password, salt, &mut out) {
        Ok(()) => Some(out.to_vec()),
        Err(_) => None,
    }
}

/// Relies on `String::from_utf8` of std: it succeeds exactly on valid UTF-8
/// input and returns its decoding.
#[verifier::external_body]
pub(crate) fn string_from_utf8(bytes: Vec<u8>) -> (r: Option<String>)
    ensures
        r is Some <==> valid_utf8(bytes@),
        r matches Some(s) ==> s@ == decode_utf8(bytes@),
{
    String::from_utf8(bytes).ok()
}

/// The hex-encoded digest that the fixed configuration assigns to a
/// password and salt: what the `users` table stores.
pub open spec fn password_hash_bytes(password: Seq<u8>, salt: Seq<u8>) -> Seq<u8> {
    hex_bytes_of(argon2d_digest_of(HASH_M_COST, HASH_T_COST, HASH_P_COST, password, salt))
}

/// Computes the stored form of a password under the fixed configuration:
/// the hex encoding of its digest. `None` only if the hashing call failed.
pub fn compute_password_hash(password: &[u8], salt: &[u8]) -> (r: Option<String>)
    ensures
        r matches Some(s) ==> encode_utf8(s@) == password_hash_bytes(password@, salt@),
{
    match argon2d_hash(HASH_M_COST, HASH_T_COST, HASH_P_COST, password, salt) {
        Option::Some(digest) => {
            let hx = hex_bytes(digest.as_slice());
            proof {
                lemma_hex_bytes_ascii(digest@);
                lemma_ascii_valid_utf8(hx@);
            }
            match string_from_utf8(hx) {
                Option::Some(s) => {
                    proof {
                        vstd::utf8::decode_utf8_encode_utf8(
                            hex_bytes_of(digest@),
                        );
                    }
                    Some(s)
                },
                Option::None => None,
            }
        },
        Option::None => None,
    }
}

// ------------------------------------------------------------------
// The user table
// ------------------------------------------------------------------
/// One provisioned account. `password_hash` is the hex-encoded digest of the
/// plaintext password with `salt` under the fixed configuration; this core
/// only reads these records.
pub struct UserRecord {
    pub user_id: u128,
    pub username: String,
    pub password_hash: String,
    pub salt: Vec<u8>,
}

/// Usernames are unique across the table.
pub open spec fn users_wf(users: Seq<UserRecord>) -> bool {
    forall|i: int, j: int|
        0 <= i < j < users.len() ==> (#[trigger] users[i].username)@ != (
        #[trigger] users[j].username)@
}

pub open spec fn username_taken(users: Seq<UserRecord>, name: Seq<char>) -> bool {
    exists|i: int| 0 <= i < users.len() && (#[trigger] users[i].username)@ == name
}

pub open spec fn user_index(users: Seq<UserRecord>, name: Seq<char>) -> int {
    choose|i: int| 0 <= i < users.len() && (#[trigger] users[i].username)@ == name
}

/// The account that owns a username.
pub open spec fn owner_of(users: Seq<UserRecord>, name: Seq<char>) -> u128 {
    users[user_index(users, name)].user_id
}

/// The submitted pair names an account and the stored hash is exactly the
/// hash of the submitted password with that account's salt.
pub open spec fn credentials_good(
    users: Seq<UserRecord>,
    name: Seq<char>,
    password: Seq<u8>,
) -> bool {
    &&& username_taken(users, name)
    &&& encode_utf8(users[user_index(users, name)].password_hash@) == password_hash_bytes(
        password,
        users[user_index(users, name)].salt@,
    )
}

/// A submitted username/password pair.
pub struct Credentials {
    pub username: String,
    pub password: SecretString,
}

/// Why validation rejected a pair.
#[derive(Debug)]
pub enum CredentialError {
    /// Unknown username, or the password does not match the stored hash.
    InvalidCredentials,
    /// The hashing call itself failed; nothing is known about the pair.
    HashingFailed,
}

proof fn lemma_user_index(users: Seq<UserRecord>, name: Seq<char>, i: int)
    requires
        users_wf(users),
        0 <= i < users.len(),
        users[i].username@ == name,
    ensures
        user_index(users, name) == i,
        username_taken(users, name),
{
    let j = user_index(users, name);
    assert(0 <= j < users.len() && users[j].username@ == name);
}

/// Position of the account for a username, if one exists.
fn find_user(users: &Vec<UserRecord>, name: &String) -> (r: Option<usize>)
    ensures
        r matches Some(i) ==> i < users@.len() && users@[i as int].username@ == name@,
        r is None ==> !username_taken(users@, name@),
{
    let n = users.len();
    let mut i: usize = 0;
    while i < n
        invariant
            n == users@.len(),
            i <= n,
            forall|j: int| 0 <= j < i ==> (#[trigger] users@[j].username)@ != name@,
        decreases n - i,
    {
        if users[i].username == *name {
            return Some(i);
        }
        i = i + 1;
    }
    None
}

/// Verifies a submitted pair against the stored records.
///
/// The hashing cost is paid on every path: when the username is unknown, the
/// password is hashed against a fixed dummy salt before the pair is
/// rejected, so the response latency does not reveal whether the username
/// exists. The final comparison is the constant-time `ct_eq`.
pub fn validate_credentials(users: &Vec<UserRecord>, credentials: &Credentials) -> (r: Result<
    u128,
    CredentialError,
>)
    requires
        users_wf(users@),
    ensures
        ({
            let pw = encode_utf8(credentials.password@);
            &&& r matches Ok(uid) ==> credentials_good(users@, credentials.username@, pw) && uid
                == users@[user_index(users@, credentials.username@)].user_id
            &&& !username_taken(users@, credentials.username@) ==> r == Result::<
                u128,
                CredentialError,
            >::Err(CredentialError::InvalidCredentials)
            &&& r == Result::<u128, CredentialError>::Err(CredentialError::InvalidCredentials)
                ==> !credentials_good(users@, credentials.username@, pw)
            &&& r == Result::<u128, CredentialError>::Err(CredentialError::HashingFailed)
                ==> username_taken(users@, credentials.username@)
        }),
{
    let password = credentials.password.expose_secret();
    let password_bytes = password.as_str().as_bytes();
    match find_user(users, &credentials.username) {
        Option::Some(i) => {
            proof {
                lemma_user_index(users@, credentials.username@, i as int);
            }
            match argon2d_hash(
                HASH_M_COST,
                HASH_T_COST,
                HASH_P_COST,
                password_bytes,
                users[i].salt.as_slice(),
            ) {
                Option::Some(digest) => {
                    let hx = hex_bytes(digest.as_slice());
                    let stored = users[i].password_hash.as_str().as_bytes();
                    if ct_eq(stored, hx.as_slice()) {
                        Ok(users[i].user_id)
                    } else {
                        Err(CredentialError::InvalidCredentials)
                    }
                },
                Option::None => Err(CredentialError::HashingFailed),
            }
        },
        Option::None => {
            // Pay the hashing cost for the unknown-username path too.
            let dummy_salt: Vec<u8> = vec![0u8; 16];
            let _ = argon2d_hash(
                HASH_M_COST,
                HASH_T_COST,
                HASH_P_COST,
                password_bytes,
                dummy_salt.as_slice(),
            );
            Err(CredentialError::InvalidCredentials)
        },
    }
}

// ------------------------------------------------------------------
// HTTP Basic credentials
// ------------------------------------------------------------------
/// Why an Authorization header value was rejected.
#[derive(Debug)]
pub enum BasicAuthError {
    /// The scheme tag was not `Basic `.
    NotBasic,
    /// The payload was not valid standard base64.
    BadBase64,
    /// The decoded credential bytes were not valid UTF-8.
    BadUtf8,
    /// The decoded credentials held no `:` separator, so no password.
    MissingPassword,
}

/// What base64's standard-alphabet decoder yields: `None` stands for a
/// rejected input. Success and content are a function of the input alone.
pub uninterp spec fn base64_decoded_of(s: Seq<u8>) -> Option<Seq<u8>>;

/// Relies on base64's `Engine::decode` with the padded standard-alphabet
/// engine: whether an input decodes, and to what, depends on the input
/// alone.
#[verifier::external_body]
fn base64_decode(input: &[u8]) -> (r: Option<Vec<u8>>)
    ensures
        r matches Some(v) ==> base64_decoded_of(input@) == Some(v@),
        r is None ==> base64_decoded_of(input@) is None,
{
    base64::Engine::decode(&base64::engine::general_purpose::STANDARD, input).ok()
}

/// The bytes of `Basic ` (the scheme tag with its trailing space).
pub open spec fn basic_prefix() -> Seq<u8> {
    seq![66u8, 97u8, 115u8, 105u8, 99u8, 32u8]
}

/// Byte value of the `:` separator.
pub open spec fn colon_byte() -> u8 {
    58
}

pub open spec fn is_first_colon(s: Seq<u8>, i: int) -> bool {
    &&& 0 <= i < s.len()
    &&& s[i] == colon_byte()
    &&& forall|j: int| 0 <= j < i ==> s[j] != colon_byte()
}

pub open spec fn has_colon(s: Seq<u8>) -> bool {
    exists|i: int| 0 <= i < s.len() && s[i] == colon_byte()
}

proof fn lemma_first_colon_unique(s: Seq<u8>, i1: int, i2: int)
    requires
        is_first_colon(s, i1),
        is_first_colon(s, i2),
    ensures
        i1 == i2,
{
}

/// Copies `bytes[from..to]` into a fresh vector.
pub(crate) fn copy_range(bytes: &[u8], from: usize, to: usize) -> (r: Vec<u8>)
    requires
        from <= to <= bytes@.len(),
    ensures
        r@ == bytes@.subrange(from as int, to as int),
{
    let mut out: Vec<u8> = Vec::new();
    let mut i: usize = from;
    while i < to
        invariant
            from <= i <= to <= bytes@.len(),
            out@ =~= bytes@.subrange(from as int, i as int),
        decreases to - i,
    {
        out.push(bytes[i]);
        proof {
            assert(out@ =~= bytes@.subrange(from as int, i + 1));
        }
        i = i + 1;
    }
    out
}

/// The username and raw password bytes that a well-formed Basic header
/// carries, or `None` for a header the parser rejects for any reason.
pub open spec fn basic_header_credentials(h: Seq<u8>) -> Option<(Seq<char>, Seq<u8>)> {
    if h.len() >= 6 && h.take(6) == basic_prefix() {
        match base64_decoded_of(h.skip(6)) {
            Option::Some(d) => {
                if has_colon(d) {
                    let i = choose|i: int| is_first_colon(d, i);
                    if valid_utf8(d.take(i)) && valid_utf8(d.skip(i + 1)) {
                        Some((decode_utf8(d.take(i)), d.skip(i + 1)))
                    } else {
                        None
                    }
                } else {
                    None
                }
            },
            Option::None => None,
        }
    } else {
        None
    }
}

/// What the parser owes for a header that passed the scheme check and whose
/// payload decoded to the byte sequence `d`.
pub open spec fn parsed_from_decoded(r: Result<Credentials, BasicAuthError>, d: Seq<u8>) -> bool {
    if !has_colon(d) {
        if valid_utf8(d) {
            r == Result::<Credentials, BasicAuthError>::Err(BasicAuthError::MissingPassword)
        } else {
            r == Result::<Credentials, BasicAuthError>::Err(BasicAuthError::BadUtf8)
        }
    } else {
        let i = choose|i: int| is_first_colon(d, i);
        let ub = d.take(i);
        let pb = d.skip(i + 1);
        if valid_utf8(ub) && valid_utf8(pb) {
            r matches Ok(c) && c.username@ == decode_utf8(ub) && c.password@ == decode_utf8(pb)
        } else {
            r == Result::<Credentials, BasicAuthError>::Err(BasicAuthError::BadUtf8)
        }
    }
}

/// Parses an `Authorization` header value of the Basic scheme: strips the
/// `Basic ` tag, decodes the base64 payload, and splits the decoded bytes
/// at the first `:` into username and password.
pub fn parse_basic_credentials(header: &[u8]) -> (r: Result<Credentials, BasicAuthError>)
    ensures
        ({
            let h = header@;
            let scheme_ok = h.len() >= 6 && h.take(6) == basic_prefix();
            &&& !scheme_ok ==> r == Result::<Credentials, BasicAuthError>::Err(
                BasicAuthError::NotBasic,
            )
            &&& scheme_ok ==> match base64_decoded_of(h.skip(6)) {
                Option::None => r == Result::<Credentials, BasicAuthError>::Err(
                    BasicAuthError::BadBase64,
                ),
                Option::Some(d) => parsed_from_decoded(r, d),
            }
        }),
{
    let n = header.len();
    if n < 6 {
        return Err(BasicAuthError::NotBasic);
    }
    let tag_ok = header[0] == 66 && header[1] == 97 && header[2] == 115 && header[3] == 105
        && header[4] == 99 && header[5] == 32;
    if !tag_ok {
        proof {
            assert(header@.take(6) != basic_prefix());
        }
        return Err(BasicAuthError::NotBasic);
    }
    proof {
        assert(header@.take(6) =~= basic_prefix());
    }
    let payload = copy_range(header, 6, n);
    proof {
        assert(payload@ =~= header@.skip(6));
    }
    let decoded = match base64_decode(payload.as_slice()) {
        Option::Some(d) => d,
        Option::None => {
            return Err(BasicAuthError::BadBase64);
        },
    };
    let dn = decoded.len();
    let mut ci: usize = 0;
    let mut found: bool = false;
    while ci < dn && !found
        invariant
            dn == decoded@.len(),
            ci <= dn,
            found ==> is_first_colon(decoded@, ci as int),
            !found ==> forall|j: int| 0 <= j < ci ==> decoded@[j] != colon_byte(),
        decreases dn - ci + (if found {
            0int
        } else {
            1int
        }),
    {
        if decoded[ci] == 58 {
            found = true;
        } else {
            ci = ci + 1;
        }
    }
    if !found {
        proof {
            assert(!has_colon(decoded@));
        }
        return match string_from_utf8(decoded) {
            Option::Some(_whole) => Err(BasicAuthError::MissingPassword),
            Option::None => Err(BasicAuthError::BadUtf8),
        };
    }
    proof {
        let w = choose|i: int| is_first_colon(decoded@, i);
        lemma_first_colon_unique(decoded@, w, ci as int);
    }
    let user_bytes = copy_range(decoded.as_slice(), 0, ci);
    let pass_bytes = copy_range(decoded.as_slice(), ci + 1, dn);
    proof {
        assert(user_bytes@ =~= decoded@.take(ci as int));
        assert(pass_bytes@ =~= decoded@.skip(ci as int + 1));
    }
    let username = match string_from_utf8(user_bytes) {
        Option::Some(u) => u,
        Option::None => {
            return Err(BasicAuthError::BadUtf8);
        },
    };
    let password = match string_from_utf8(pass_bytes) {
        Option::Some(p) => p,
        Option::None => {
            return Err(BasicAuthError::BadUtf8);
        },
    };
    Ok(Credentials { username, password: SecretString::new(password) })
}

} // verus!
