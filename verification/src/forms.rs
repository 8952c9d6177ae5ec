use vstd::prelude::*;
use vstd::string::StringExecFns;
use vstd::utf8::decode_utf8;
use vstd::utf8::valid_utf8;

use crate::authentication::copy_range;
use crate::authentication::string_from_utf8;

verus! {

// ------------------------------------------------------------------
// Byte-level helpers
// ------------------------------------------------------------------
pub open spec fn is_first_byte_at(s: Seq<u8>, b: u8, i: int) -> bool {
    &&& 0 <= i < s.len()
    &&& s[i] == b
    &&& forall|j: int| 0 <= j < i ==> s[j] != b
}

pub open spec fn has_byte(s: Seq<u8>, b: u8) -> bool {
    exists|i: int| 0 <= i < s.len() && s[i] == b
}

pub open spec fn first_byte_at(s: Seq<u8>, b: u8) -> int {
    choose|i: int| is_first_byte_at(s, b, i)
}

proof fn lemma_first_byte(s: Seq<u8>, b: u8)
    requires
        has_byte(s, b),
    ensures
        is_first_byte_at(s, b, first_byte_at(s, b)),
    decreases s.len(),
{
    if s[0] == b {
        assert(is_first_byte_at(s, b, 0));
    } else {
        let w = choose|i: int| 0 <= i < s.len() && s[i] == b;
        assert(s.drop_first()[w - 1] == b);
        lemma_first_byte(s.drop_first(), b);
        let f = first_byte_at(s.drop_first(), b);
        assert(s.drop_first()[f] == s[f + 1]);
        assert forall|j: int| 0 <= j < f + 1 implies s[j] != b by {
            if j > 0 {
                assert(s.drop_first()[j - 1] == s[j]);
            }
        }
        assert(is_first_byte_at(s, b, f + 1));
    }
}

proof fn lemma_first_byte_unique(s: Seq<u8>, b: u8, i1: int, i2: int)
    requires
        is_first_byte_at(s, b, i1),
        is_first_byte_at(s, b, i2),
    ensures
        i1 == i2,
{
}

// ------------------------------------------------------------------
// Splitting a body into segments
// ------------------------------------------------------------------
/// Splits `s` at every occurrence of `b`; a trailing or leading occurrence
/// yields an empty segment, as the urlencoded form grammar has it.
pub open spec fn split_on(s: Seq<u8>, b: u8) -> Seq<Seq<u8>>
    decreases s.len(),
{
    if has_byte(s, b) {
        let i = first_byte_at(s, b);
        if 0 <= i < s.len() {
            seq![s.take(i)] + split_on(s.skip(i + 1), b)
        } else {
            seq![s]
        }
    } else {
        seq![s]
    }
}

/// Splits `body` at every `sep` byte.
pub fn split_bytes(body: &[u8], sep: u8) -> (r: Vec<Vec<u8>>)
    ensures
        r@.map_values(|v: Vec<u8>| v@) == split_on(body@, sep),
{
    let n = body.len();
    let mut done: Vec<Vec<u8>> = Vec::new();
    let mut seg_start: usize = 0;
    let mut i: usize = 0;
    proof {
        assert(body@.skip(0) =~= body@);
        assert(done@.map_values(|v: Vec<u8>| v@) + split_on(body@, sep) =~= split_on(body@, sep));
    }
    while i < n
        invariant
            n == body@.len(),
            seg_start <= i <= n,
            split_on(body@, sep) == done@.map_values(|v: Vec<u8>| v@) + split_on(
                body@.skip(seg_start as int),
                sep,
            ),
            forall|j: int| seg_start <= j < i ==> body@[j] != sep,
        decreases n - i,
    {
        if body[i] == sep {
            let seg = copy_range(body, seg_start, i);
            proof {
                let suffix = body@.skip(seg_start as int);
                let rel = i - seg_start as int;
                assert(suffix[rel] == body@[i as int]);
                assert forall|j: int| 0 <= j < rel implies suffix[j] != sep by {
                    assert(suffix[j] == body@[seg_start + j]);
                }
                assert(is_first_byte_at(suffix, sep, rel));
                lemma_first_byte(suffix, sep);
                lemma_first_byte_unique(suffix, sep, first_byte_at(suffix, sep), rel);
                assert(suffix.take(rel) =~= body@.subrange(seg_start as int, i as int));
                assert(suffix.skip(rel + 1) =~= body@.skip(i + 1));
                assert((done@.push(seg)).map_values(|v: Vec<u8>| v@) =~= done@.map_values(
                    |v: Vec<u8>| v@,
                ).push(seg@));
                assert(done@.map_values(|v: Vec<u8>| v@) + (seq![seg@] + split_on(
                    body@.skip(i + 1),
                    sep,
                )) =~= done@.map_values(|v: Vec<u8>| v@).push(seg@) + split_on(
                    body@.skip(i + 1),
                    sep,
                ));
            }
            done.push(seg);
            seg_start = i + 1;
        }
        i = i + 1;
    }
    let last = copy_range(body, seg_start, n);
    proof {
        let suffix = body@.skip(seg_start as int);
        assert forall|j: int| 0 <= j < suffix.len() implies suffix[j] != sep by {
            assert(suffix[j] == body@[seg_start + j]);
        }
        assert(!has_byte(suffix, sep));
        assert(last@ =~= suffix);
        assert((done@.push(last)).map_values(|v: Vec<u8>| v@) =~= done@.map_values(
            |v: Vec<u8>| v@,
        ) + seq![last@]);
    }
    done.push(last);
    done
}

// ------------------------------------------------------------------
// Percent decoding
// ------------------------------------------------------------------
pub open spec fn is_hex_digit(b: u8) -> bool {
    (48 <= b <= 57) || (97 <= b <= 102) || (65 <= b <= 70)
}

/// Value of a hex digit byte.
pub open spec fn hex_nibble(b: u8) -> u8
    recommends
        is_hex_digit(b),
{
    if 48 <= b <= 57 {
        (b - 48) as u8
    } else if 97 <= b <= 102 {
        (b - 87) as u8
    } else {
        (b - 55) as u8
    }
}

pub open spec fn prepend(b: u8, rest: Option<Seq<u8>>) -> Option<Seq<u8>> {
    match rest {
        Option::Some(r) => Some(seq![b] + r),
        Option::None => None,
    }
}

/// Decoding of one urlencoded token: `+` stands for a space, `%` must head
/// two hex digits that give a byte, and everything else stands for itself.
/// A `%` without two hex digits rejects the whole token.
pub open spec fn form_decoded(s: Seq<u8>) -> Option<Seq<u8>>
    decreases s.len(),
{
    if s.len() == 0 {
        Some(Seq::empty())
    } else if s[0] == 43 {
        prepend(32, form_decoded(s.drop_first()))
    } else if s[0] == 37 {
        if s.len() >= 3 && is_hex_digit(s[1]) && is_hex_digit(s[2]) {
            prepend((hex_nibble(s[1]) * 16 + hex_nibble(s[2])) as u8, form_decoded(s.skip(3)))
        } else {
            None
        }
    } else {
        prepend(s[0], form_decoded(s.drop_first()))
    }
}

pub open spec fn opt_concat(pre: Seq<u8>, rest: Option<Seq<u8>>) -> Option<Seq<u8>> {
    match rest {
        Option::Some(r) => Some(pre + r),
        Option::None => None,
    }
}

/// Value of a hex digit byte; rejects anything else.
fn hex_value(b: u8) -> (r: Option<u8>)
    ensures
        r is Some <==> is_hex_digit(b),
        r matches Some(v) ==> v == hex_nibble(b),
{
    if 48 <= b && b <= 57 {
        Some(b - 48)
    } else if 97 <= b && b <= 102 {
        Some(b - 87)
    } else if 65 <= b && b <= 70 {
        Some(b - 55)
    } else {
        None
    }
}

/// Decides and computes `form_decoded`.
pub fn form_decode(s: &[u8]) -> (r: Option<Vec<u8>>)
    ensures
        r matches Some(v) ==> form_decoded(s@) == Some(v@),
        r is None ==> form_decoded(s@) is None,
{
    let n = s.len();
    let mut out: Vec<u8> = Vec::new();
    let mut i: usize = 0;
    proof {
        assert(s@.skip(0) =~= s@);
        assert(opt_concat(out@, form_decoded(s@)) == form_decoded(s@)) by {
            match form_decoded(s@) {
                Option::Some(d) => {
                    assert(out@ + d =~= d);
                },
                Option::None => {},
            }
        }
    }
    while i < n
        invariant
            n == s@.len(),
            i <= n,
            form_decoded(s@) == opt_concat(out@, form_decoded(s@.skip(i as int))),
        decreases n - i,
    {
        let ghost suffix = s@.skip(i as int);
        let b = s[i];
        proof {
            assert(suffix[0] == s@[i as int]);
            assert(suffix.len() == n - i);
        }
        if b == 43 {
            proof {
                assert(suffix.drop_first() =~= s@.skip(i + 1));
                lemma_opt_concat_shift(out@, 32, form_decoded(s@.skip(i + 1)));
            }
            out.push(32);
            i = i + 1;
        } else if b == 37 {
            if n - i < 3 {
                proof {
                    assert(suffix.len() < 3);
                    assert(form_decoded(suffix) is None);
                }
                return None;
            }
            let h = hex_value(s[i + 1]);
            let l = hex_value(s[i + 2]);
            proof {
                assert(suffix[1] == s@[i + 1] && suffix[2] == s@[i + 2]);
            }
            match (h, l) {
                (Option::Some(hv), Option::Some(lv)) => {
                    let decoded_byte: u8 = hv * 16 + lv;
                    proof {
                        assert(suffix.skip(3) =~= s@.skip(i + 3));
                        lemma_opt_concat_shift(out@, decoded_byte, form_decoded(s@.skip(i + 3)));
                    }
                    out.push(decoded_byte);
                    i = i + 3;
                },
                _ => {
                    proof {
                        assert(form_decoded(suffix) is None);
                    }
                    return None;
                },
            }
        } else {
            proof {
                assert(suffix.drop_first() =~= s@.skip(i + 1));
                lemma_opt_concat_shift(out@, b, form_decoded(s@.skip(i + 1)));
            }
            out.push(b);
            i = i + 1;
        }
    }
    proof {
        assert(s@.skip(n as int) =~= Seq::<u8>::empty());
        assert(form_decoded(s@.skip(n as int)) == Some(Seq::<u8>::empty()));
        assert(out@ + Seq::<u8>::empty() =~= out@);
    }
    Some(out)
}

proof fn lemma_opt_concat_shift(pre: Seq<u8>, b: u8, rest: Option<Seq<u8>>)
    ensures
        opt_concat(pre, prepend(b, rest)) == opt_concat(pre.push(b), rest),
{
    match rest {
        Option::Some(r) => {
            assert(pre + (seq![b] + r) =~= pre.push(b) + r);
        },
        Option::None => {},
    }
}

// ------------------------------------------------------------------
// Field pairs
// ------------------------------------------------------------------
/// Splits one segment at its first `=` into raw key and value bytes; a
/// segment without `=` is a key with an empty value.
pub open spec fn segment_pair(seg: Seq<u8>) -> (Seq<u8>, Seq<u8>) {
    if has_byte(seg, 61) {
        let i = first_byte_at(seg, 61);
        if 0 <= i < seg.len() {
            (seg.take(i), seg.skip(i + 1))
        } else {
            (seg, Seq::empty())
        }
    } else {
        (seg, Seq::empty())
    }
}

/// The decoded pair of one segment: both halves percent-decoded and read
/// as UTF-8; any failure rejects the segment.
pub open spec fn decoded_pair(seg: Seq<u8>) -> Option<(Seq<char>, Seq<char>)> {
    let kv = segment_pair(seg);
    match (form_decoded(kv.0), form_decoded(kv.1)) {
        (Option::Some(kb), Option::Some(vb)) => if valid_utf8(kb) && valid_utf8(vb) {
            Some((decode_utf8(kb), decode_utf8(vb)))
        } else {
            None
        },
        _ => None,
    }
}

pub open spec fn prepend_pair(
    p: (Seq<char>, Seq<char>),
    rest: Option<Seq<(Seq<char>, Seq<char>)>>,
) -> Option<Seq<(Seq<char>, Seq<char>)>> {
    match rest {
        Option::Some(r) => Some(seq![p] + r),
        Option::None => None,
    }
}

pub open spec fn all_pairs(segs: Seq<Seq<u8>>) -> Option<Seq<(Seq<char>, Seq<char>)>>
    decreases segs.len(),
{
    if segs.len() == 0 {
        Some(Seq::empty())
    } else {
        match decoded_pair(segs[0]) {
            Option::Some(p) => prepend_pair(p, all_pairs(segs.drop_first())),
            Option::None => None,
        }
    }
}

/// The decoded field pairs of an urlencoded body, in submission order.
pub open spec fn pairs_of(body: Seq<u8>) -> Option<Seq<(Seq<char>, Seq<char>)>> {
    all_pairs(split_on(body, 38))
}

/// Decides and computes `decoded_pair` for one segment.
fn parse_segment(seg: &Vec<u8>) -> (r: Option<(String, String)>)
    ensures
        r matches Some(p) ==> decoded_pair(seg@) == Some((p.0@, p.1@)),
        r is None ==> decoded_pair(seg@) is None,
{
    let n = seg.len();
    let mut i: usize = 0;
    let mut found: bool = false;
    while i < n && !found
        invariant
            n == seg@.len(),
            i <= n,
            found ==> is_first_byte_at(seg@, 61, i as int),
            !found ==> forall|j: int| 0 <= j < i ==> seg@[j] != 61,
        decreases n - i + (if found {
            0int
        } else {
            1int
        }),
    {
        if seg[i] == 61 {
            found = true;
        } else {
            i = i + 1;
        }
    }
    let kb: Vec<u8>;
    let vb: Vec<u8>;
    if found {
        proof {
            lemma_first_byte(seg@, 61);
            lemma_first_byte_unique(seg@, 61, first_byte_at(seg@, 61), i as int);
        }
        kb = copy_range(seg.as_slice(), 0, i);
        vb = copy_range(seg.as_slice(), i + 1, n);
        proof {
            assert(kb@ =~= segment_pair(seg@).0);
            assert(vb@ =~= segment_pair(seg@).1);
        }
    } else {
        proof {
            assert(!has_byte(seg@, 61));
        }
        kb = copy_range(seg.as_slice(), 0, n);
        vb = Vec::new();
        proof {
            assert(kb@ =~= segment_pair(seg@).0);
            assert(vb@ =~= segment_pair(seg@).1);
        }
    }
    let kd = match form_decode(kb.as_slice()) {
        Option::Some(k) => k,
        Option::None => {
            return None;
        },
    };
    let vd = match form_decode(vb.as_slice()) {
        Option::Some(v) => v,
        Option::None => {
            return None;
        },
    };
    let ks = match string_from_utf8(kd) {
        Option::Some(s) => s,
        Option::None => {
            return None;
        },
    };
    let vs = match string_from_utf8(vd) {
        Option::Some(s) => s,
        Option::None => {
            return None;
        },
    };
    Some((ks, vs))
}

pub open spec fn opt_pairs_concat(
    pre: Seq<(Seq<char>, Seq<char>)>,
    rest: Option<Seq<(Seq<char>, Seq<char>)>>,
) -> Option<Seq<(Seq<char>, Seq<char>)>> {
    match rest {
        Option::Some(r) => Some(pre + r),
        Option::None => None,
    }
}

/// Parses an urlencoded body into its decoded field pairs.
pub fn parse_form_pairs(body: &[u8]) -> (r: Option<Vec<(String, String)>>)
    ensures
        r matches Some(ps) ==> pairs_of(body@) == Some(
            ps@.map_values(|p: (String, String)| (p.0@, p.1@)),
        ),
        r is None ==> pairs_of(body@) is None,
{
    let segs = split_bytes(body, 38);
    let ghost sv = segs@.map_values(|v: Vec<u8>| v@);
    let m = segs.len();
    let mut out: Vec<(String, String)> = Vec::new();
    let mut i: usize = 0;
    proof {
        assert(sv.skip(0) =~= sv);
        match all_pairs(sv) {
            Option::Some(d) => {
                assert(pair_views_of(out@) + d =~= d);
            },
            Option::None => {},
        }
    }
    while i < m
        invariant
            m == segs@.len(),
            i <= m,
            sv == segs@.map_values(|v: Vec<u8>| v@),
            sv == split_on(body@, 38),
            all_pairs(sv) == opt_pairs_concat(pair_views_of(out@), all_pairs(sv.skip(i as int))),
        decreases m - i,
    {
        proof {
            assert(sv.skip(i as int)[0] == sv[i as int]);
            assert(sv.skip(i as int).drop_first() =~= sv.skip(i + 1));
            assert(sv[i as int] == segs@[i as int]@);
        }
        match parse_segment(&segs[i]) {
            Option::Some(p) => {
                let ghost pv = (p.0@, p.1@);
                proof {
                    match all_pairs(sv.skip(i + 1)) {
                        Option::Some(rest) => {
                            assert(pair_views_of(out@) + (seq![pv] + rest) =~= pair_views_of(
                                out@,
                            ).push(pv) + rest);
                            assert(pair_views_of(out@.push(p)) =~= pair_views_of(out@).push(pv));
                        },
                        Option::None => {},
                    }
                }
                out.push(p);
            },
            Option::None => {
                return None;
            },
        }
        i = i + 1;
    }
    proof {
        assert(sv.skip(m as int) =~= Seq::<Seq<u8>>::empty());
        match all_pairs(sv.skip(m as int)) {
            Option::Some(e) => {
                assert(pair_views_of(out@) + e =~= pair_views_of(out@));
            },
            Option::None => {},
        }
    }
    Some(out)
}

// ------------------------------------------------------------------
// Field lookup and the request structs
// ------------------------------------------------------------------
/// The value of the first pair whose key matches.
pub open spec fn lookup_field(
    pairs: Seq<(Seq<char>, Seq<char>)>,
    key: Seq<char>,
) -> Option<Seq<char>>
    decreases pairs.len(),
{
    if pairs.len() == 0 {
        None
    } else if pairs[0].0 == key {
        Some(pairs[0].1)
    } else {
        lookup_field(pairs.drop_first(), key)
    }
}

proof fn lemma_lookup_skip(pairs: Seq<(Seq<char>, Seq<char>)>, key: Seq<char>, i: int)
    requires
        0 <= i <= pairs.len(),
        forall|j: int| 0 <= j < i ==> (#[trigger] pairs[j]).0 != key,
    ensures
        lookup_field(pairs, key) == lookup_field(pairs.skip(i), key),
    decreases i,
{
    if i > 0 {
        lemma_lookup_skip(pairs, key, i - 1);
        assert(pairs.skip(i - 1)[0] == pairs[i - 1]);
        assert(pairs.skip(i - 1).drop_first() =~= pairs.skip(i));
    } else {
        assert(pairs.skip(0) =~= pairs);
    }
}

/// Finds the first value submitted under `key`.
pub fn find_field(pairs: &Vec<(String, String)>, key: &String) -> (r: Option<String>)
    ensures
        r matches Some(v) ==> lookup_field(pair_views_of(pairs@), key@) == Some(v@),
        r is None ==> lookup_field(pair_views_of(pairs@), key@) is None,
{
    let n = pairs.len();
    let ghost pv = pair_views_of(pairs@);
    let mut i: usize = 0;
    while i < n
        invariant
            n == pairs@.len(),
            i <= n,
            pv == pair_views_of(pairs@),
            forall|j: int| 0 <= j < i ==> (#[trigger] pv[j]).0 != key@,
        decreases n - i,
    {
        proof {
            assert(pv[i as int] == (pairs@[i as int].0@, pairs@[i as int].1@));
        }
        if pairs[i].0 == *key {
            proof {
                lemma_lookup_skip(pv, key@, i as int);
                assert(pv.skip(i as int)[0] == pv[i as int]);
            }
            return Some(pairs[i].1.clone());
        }
        i = i + 1;
    }
    proof {
        lemma_lookup_skip(pv, key@, n as int);
        assert(pv.skip(n as int) =~= Seq::<(Seq<char>, Seq<char>)>::empty());
    }
    None
}

/// The character-level pairs of an executable pair list.
pub open spec fn pair_views_of(ps: Seq<(String, String)>) -> Seq<(Seq<char>, Seq<char>)> {
    ps.map_values(|p: (String, String)| (p.0@, p.1@))
}

/// Why a submitted body did not yield the expected struct.
#[derive(Debug)]
pub enum FormError {
    /// The body broke the urlencoded grammar.
    Malformed,
    /// The named field was not submitted.
    MissingField(String),
}

/// Maps a submitted subscription body to its struct; the content of the
/// fields is validated later, by `FormData::parse` of the subscriptions
/// module.
pub fn parse_subscribe_form(body: &[u8]) -> (r: Result<crate::subscriptions::FormData, FormError>)
    ensures
        ({
            match pairs_of(body@) {
                Option::None => r matches Err(FormError::Malformed),
                Option::Some(ps) => match (lookup_field(ps, "email"@), lookup_field(ps, "name"@)) {
                    (Option::Some(e), Option::Some(nm)) => r matches Ok(fd) && fd.email@ == e
                        && fd.name@ == nm,
                    (Option::None, _) => r matches Err(FormError::MissingField(f)) && f@
                        == "email"@,
                    (_, Option::None) => r matches Err(FormError::MissingField(f)) && f@
                        == "name"@,
                },
            }
        }),
{
    let pairs = match parse_form_pairs(body) {
        Option::Some(ps) => ps,
        Option::None => {
            return Err(FormError::Malformed);
        },
    };
    let email_key = String::from_str("email");
    let email = match find_field(&pairs, &email_key) {
        Option::Some(v) => v,
        Option::None => {
            return Err(FormError::MissingField(email_key));
        },
    };
    let name_key = String::from_str("name");
    let name = match find_field(&pairs, &name_key) {
        Option::Some(v) => v,
        Option::None => {
            return Err(FormError::MissingField(name_key));
        },
    };
    Ok(crate::subscriptions::FormData { email, name })
}

/// Maps a submitted login body to its struct.
pub fn parse_login_form(body: &[u8]) -> (r: Result<crate::login::FormData, FormError>)
    ensures
        ({
            match pairs_of(body@) {
                Option::None => r matches Err(FormError::Malformed),
                Option::Some(ps) => match (
                    lookup_field(ps, "username"@),
                    lookup_field(ps, "password"@),
                ) {
                    (Option::Some(u), Option::Some(p)) => r matches Ok(fd) && fd.username@ == u
                        && fd.password@ == p,
                    (Option::None, _) => r matches Err(FormError::MissingField(f)) && f@
                        == "username"@,
                    (_, Option::None) => r matches Err(FormError::MissingField(f)) && f@
                        == "password"@,
                },
            }
        }),
{
    let pairs = match parse_form_pairs(body) {
        Option::Some(ps) => ps,
        Option::None => {
            return Err(FormError::Malformed);
        },
    };
    let username_key = String::from_str("username");
    let username = match find_field(&pairs, &username_key) {
        Option::Some(v) => v,
        Option::None => {
            return Err(FormError::MissingField(username_key));
        },
    };
    let password_key = String::from_str("password");
    let password = match find_field(&pairs, &password_key) {
        Option::Some(v) => v,
        Option::None => {
            return Err(FormError::MissingField(password_key));
        },
    };
    Ok(crate::login::FormData { username, password })
}

/// Maps a submitted publish body to its struct.
pub fn parse_publish_form(body: &[u8]) -> (r: Result<crate::publish::FormData, FormError>)
    ensures
        ({
            match pairs_of(body@) {
                Option::None => r matches Err(FormError::Malformed),
                Option::Some(ps) => match (
                    lookup_field(ps, "title"@),
                    lookup_field(ps, "text_content"@),
                    lookup_field(ps, "html_content"@),
                    lookup_field(ps, "idempotency_key"@),
                ) {
                    (
                        Option::Some(t),
                        Option::Some(tc),
                        Option::Some(hc),
                        Option::Some(k),
                    ) => r matches Ok(fd) && fd.title@ == t && fd.text_content@ == tc
                        && fd.html_content@ == hc && fd.idempotency_key@ == k,
                    (Option::None, _, _, _) => r matches Err(FormError::MissingField(f)) && f@
                        == "title"@,
                    (_, Option::None, _, _) => r matches Err(FormError::MissingField(f)) && f@
                        == "text_content"@,
                    (_, _, Option::None, _) => r matches Err(FormError::MissingField(f)) && f@
                        == "html_content"@,
                    (_, _, _, Option::None) => r matches Err(FormError::MissingField(f)) && f@
                        == "idempotency_key"@,
                },
            }
        }),
{
    let pairs = match parse_form_pairs(body) {
        Option::Some(ps) => ps,
        Option::None => {
            return Err(FormError::Malformed);
        },
    };
    let title_key = String::from_str("title");
    let title = match find_field(&pairs, &title_key) {
        Option::Some(v) => v,
        Option::None => {
            return Err(FormError::MissingField(title_key));
        },
    };
    let text_key = String::from_str("text_content");
    let text_content = match find_field(&pairs, &text_key) {
        Option::Some(v) => v,
        Option::None => {
            return Err(FormError::MissingField(text_key));
        },
    };
    let html_key = String::from_str("html_content");
    let html_content = match find_field(&pairs, &html_key) {
        Option::Some(v) => v,
        Option::None => {
            return Err(FormError::MissingField(html_key));
        },
    };
    let key_key = String::from_str("idempotency_key");
    let idempotency_key = match find_field(&pairs, &key_key) {
        Option::Some(v) => v,
        Option::None => {
            return Err(FormError::MissingField(key_key));
        },
    };
    Ok(crate::publish::FormData { title, text_content, html_content, idempotency_key })
}

} // verus!
