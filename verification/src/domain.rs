use vstd::prelude::*;
use vstd::string::StringSliceAdditionalSpecFns;
use vstd::utf8::encode_utf8;

verus! {

/// Byte values of the ASCII characters that the validity rules inspect.
/// Every one of them is below 0x80, so looking for them in the UTF-8
/// encoding of a string can neither hit the middle of a multi-byte
/// character nor miss an occurrence.
pub open spec fn at_sign() -> u8 {
    64
}

pub open spec fn space_byte() -> u8 {
    32
}

pub open spec fn dot_byte() -> u8 {
    46
}

/// The position `i` splits `s` into a non-empty local part, one `@`, and a
/// non-empty domain that contains a dot; `s` holds no space and no second `@`.
pub open spec fn email_split_at(s: Seq<u8>, i: int) -> bool {
    &&& 0 < i < s.len() - 1
    &&& s[i] == at_sign()
    &&& forall|j: int| 0 <= j < s.len() && j != i ==> s[j] != at_sign()
    &&& forall|j: int| 0 <= j < s.len() ==> s[j] != space_byte()
    &&& exists|j: int| i < j < s.len() && s[j] == dot_byte()
}

/// Validity of a stored subscriber address, stated over its UTF-8 bytes:
/// exactly one `@` with text on both sides, no spaces, and a dot somewhere
/// in the domain.
pub open spec fn is_valid_email_bytes(s: Seq<u8>) -> bool {
    exists|i: int| email_split_at(s, i)
}

/// Validity of a subscriber address, stated over its characters.
pub open spec fn email_ok(s: Seq<char>) -> bool {
    is_valid_email_bytes(encode_utf8(s))
}

/// Decides `email_ok` for a stored address.
pub fn validate_email(s: &str) -> (b: bool)
    ensures
        b == email_ok(s@),
{
    let bytes = s.as_bytes();
    let n = bytes.len();
    let mut at_pos: usize = 0;
    let mut at_count: usize = 0;
    let mut has_space: bool = false;
    let mut i: usize = 0;
    while i < n
        invariant
            n == bytes@.len(),
            bytes@ == s.spec_bytes(),
            i <= n,
            at_count <= i,
            at_count == 0 ==> forall|j: int| 0 <= j < i ==> bytes@[j] != at_sign(),
            at_count >= 1 ==> at_pos < i && bytes@[at_pos as int] == at_sign(),
            at_count == 1 ==> forall|j: int|
                0 <= j < i && j != at_pos ==> bytes@[j] != at_sign(),
            at_count >= 2 ==> exists|j1: int, j2: int|
                0 <= j1 < j2 < i && bytes@[j1] == at_sign() && bytes@[j2] == at_sign(),
            has_space <==> exists|j: int| 0 <= j < i && bytes@[j] == space_byte(),
        decreases n - i,
    {
        let b = bytes[i];
        if b == 64 {
            if at_count == 1 {
                assert(bytes@[at_pos as int] == at_sign() && bytes@[i as int] == at_sign());
            }
            at_count = at_count + 1;
            at_pos = i;
        }
        if b == 32 {
            has_space = true;
        }
        i = i + 1;
    }
    if at_count != 1 || has_space {
        if at_count == 0 || has_space {
            assert(forall|k: int| !email_split_at(bytes@, k));
        } else {
            assert(forall|k: int| !email_split_at(bytes@, k)) by {
                let (j1, j2) = choose|j1: int, j2: int|
                    0 <= j1 < j2 < n && bytes@[j1] == at_sign() && bytes@[j2] == at_sign();
                assert(forall|k: int| email_split_at(bytes@, k) ==> k == j1 && k == j2);
            }
        }
        return false;
    }
    if at_pos == 0 || at_pos >= n - 1 {
        assert(forall|k: int| email_split_at(bytes@, k) ==> k == at_pos);
        return false;
    }
    let mut has_dot: bool = false;
    let mut j: usize = at_pos + 1;
    while j < n
        invariant
            n == bytes@.len(),
            bytes@ == s.spec_bytes(),
            at_pos < j <= n,
            has_dot <==> exists|k: int| at_pos < k < j && bytes@[k] == dot_byte(),
        decreases n - j,
    {
        if bytes[j] == 46 {
            has_dot = true;
        }
        j = j + 1;
    }
    if has_dot {
        assert(email_split_at(bytes@, at_pos as int));
    } else {
        assert(forall|k: int| email_split_at(bytes@, k) ==> k == at_pos);
    }
    has_dot
}

/// A subscriber address that passed `email_ok` validation.
pub struct SubscriberEmail {
    address: String,
}

impl View for SubscriberEmail {
    type V = Seq<char>;

    closed spec fn view(&self) -> Seq<char> {
        self.address@
    }
}

impl SubscriberEmail {
    /// Accepts exactly the addresses that `email_ok` admits.
    pub fn parse(s: String) -> (r: Result<SubscriberEmail, String>)
        ensures
            r matches Ok(e) ==> e@ == s@ && email_ok(s@),
            r is Err ==> !email_ok(s@),
    {
        if validate_email(s.as_str()) {
            Ok(SubscriberEmail { address: s })
        } else {
            Err(s)
        }
    }

    pub fn as_str(&self) -> (r: &str)
        ensures
            r@ == self@,
    {
        self.address.as_str()
    }
}

/// Bytes that a subscriber name may not contain: `/ ( ) " < > \ { }`.
pub open spec fn forbidden_name_byte(b: u8) -> bool {
    b == 47 || b == 40 || b == 41 || b == 34 || b == 60 || b == 62 || b == 92 || b == 123 || b
        == 125
}

/// Validity of a subscriber name, stated over its UTF-8 bytes: at most 256
/// bytes, at least one byte that is not a space, and none of the forbidden
/// characters.
pub open spec fn is_valid_name_bytes(s: Seq<u8>) -> bool {
    &&& s.len() <= 256
    &&& exists|i: int| 0 <= i < s.len() && s[i] != space_byte()
    &&& forall|i: int| 0 <= i < s.len() ==> !forbidden_name_byte(#[trigger] s[i])
}

/// Validity of a subscriber name, stated over its characters.
pub open spec fn name_ok(s: Seq<char>) -> bool {
    is_valid_name_bytes(encode_utf8(s))
}

/// Decides `name_ok` for a submitted name.
pub fn validate_name(s: &str) -> (b: bool)
    ensures
        b == name_ok(s@),
{
    let bytes = s.as_bytes();
    let n = bytes.len();
    if n > 256 {
        return false;
    }
    let mut non_space: bool = false;
    let mut forbidden: bool = false;
    let mut i: usize = 0;
    while i < n
        invariant
            n == bytes@.len(),
            bytes@ == s.spec_bytes(),
            i <= n,
            non_space <==> exists|j: int| 0 <= j < i && bytes@[j] != space_byte(),
            forbidden <==> exists|j: int| 0 <= j < i && forbidden_name_byte(#[trigger] bytes@[j]),
        decreases n - i,
    {
        let b = bytes[i];
        if b != 32 {
            non_space = true;
        }
        if b == 47 || b == 40 || b == 41 || b == 34 || b == 60 || b == 62 || b == 92 || b == 123
            || b == 125 {
            forbidden = true;
        }
        i = i + 1;
    }
    non_space && !forbidden
}

/// A subscriber name that passed `name_ok` validation.
pub struct SubscriberName {
    name: String,
}

impl View for SubscriberName {
    type V = Seq<char>;

    closed spec fn view(&self) -> Seq<char> {
        self.name@
    }
}

impl SubscriberName {
    /// Accepts exactly the names that `name_ok` admits.
    pub fn parse(s: String) -> (r: Result<SubscriberName, String>)
        ensures
            r matches Ok(e) ==> e@ == s@ && name_ok(s@),
            r is Err ==> !name_ok(s@),
    {
        if validate_name(s.as_str()) {
            Ok(SubscriberName { name: s })
        } else {
            Err(s)
        }
    }

    pub fn as_str(&self) -> (r: &str)
        ensures
            r@ == self@,
    {
        self.name.as_str()
    }
}

/// A validated signup request: both fields already passed their format checks.
pub struct NewSubscriber {
    pub email: SubscriberEmail,
    pub name: SubscriberName,
}

} // verus!
