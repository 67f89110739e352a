//! The token codec: issuing and parsing signed, time-limited identity
//! tokens in the compact three-part form `header.payload.signature`.
//!
//! The header and payload are spelled and read by this crate's own verified
//! encoders; only the HMAC-SHA256 signature itself is computed by an
//! outside crate. [`parse_token_spec`] pins parsing down exactly: a token
//! is accepted if and only if it is the canonical spelling of some claims,
//! carries the signature that this process's secret yields for it, and has
//! not expired at the clock reading given.

use vstd::prelude::*;
use vstd::string::StringSliceAdditionalSpecFns;
use vstd::utf8::{
    decode_utf8_encode_utf8, encode_utf8, is_leading_byte_width_1, length_of_first_scalar,
    pop_first_scalar, valid_first_scalar, valid_utf8,
};

use crate::b64::{b64_decode, b64_decode_spec, b64_encode, b64_spec, b64v};
use crate::claims::{
    payload_decode, payload_decode_spec, payload_encode, payload_spec, string_from_utf8, Claims,
    ClaimsV,
};
use crate::errors::CustomError;
use crate::identity::{spec_role, StoredIdentity};
use crate::jsontext::{bytes_eq, dec_i32_spec, push_dec_i32};

verus! {

/// How long an issued token lives, in seconds.
pub const TOKEN_LIFETIME_SECS: u64 = 60;

/// The latest timestamp the clock wrapper reports; a reading past it is
/// clamped to it. It is the last second of the year 262142, far beyond any
/// plausible clock.
pub const MAX_TIMESTAMP: u64 = 8210266876799;

/// The fixed token header: `{"typ":"JWT","alg":"HS256"}`.
#[verifier::opaque]
pub open spec fn header_bytes() -> Seq<u8> {
    seq![
        123u8, 34u8, 116u8, 121u8, 112u8, 34u8, 58u8, 34u8, 74u8, 87u8, 84u8, 34u8, 44u8, 34u8,
        97u8, 108u8, 103u8, 34u8, 58u8, 34u8, 72u8, 83u8, 50u8, 53u8, 54u8, 34u8, 125u8,
    ]
}

/// Writes the fixed token header.
pub fn header_vec() -> (r: Vec<u8>)
    ensures
        r@ == header_bytes(),
{
    let mut out: Vec<u8> = Vec::new();
    out.push(123);
    out.push(34);
    out.push(116);
    out.push(121);
    out.push(112);
    out.push(34);
    out.push(58);
    out.push(34);
    out.push(74);
    out.push(87);
    out.push(84);
    out.push(34);
    out.push(44);
    out.push(34);
    out.push(97);
    out.push(108);
    out.push(103);
    out.push(34);
    out.push(58);
    out.push(34);
    out.push(72);
    out.push(83);
    out.push(50);
    out.push(53);
    out.push(54);
    out.push(34);
    out.push(125);
    proof {
        reveal(header_bytes);
        assert(out@ =~= header_bytes());
    }
    out
}

/// The URL-safe base64 signature that HMAC-SHA256 yields for a message
/// under a secret. Its value is fixed by the algorithm; nothing further is
/// assumed of it.
pub uninterp spec fn hmac_sig(msg: Seq<u8>, secret: Seq<u8>) -> Seq<u8>;

/// Relies on `jsonwebtoken::crypto::sign` with `Algorithm::HS256` and a
/// key from `EncodingKey::from_secret`: the result is the URL-safe,
/// unpadded base64 spelling of the HMAC-SHA256 tag, a function of message
/// and secret alone, every byte in the base64url alphabet. For an HMAC key
/// of any length the signer construction and signing itself cannot fail.
#[verifier::external_body]
fn hmac_sign(msg: &[u8], secret: &[u8]) -> (r: Vec<u8>)
    ensures
        r@ == hmac_sig(msg@, secret@),
        forall|i: int| 0 <= i < r@.len() ==> b64v(r@[i]) is Some,
{
    let key = jsonwebtoken::EncodingKey::from_secret(secret);
    let sig = jsonwebtoken::crypto::sign(msg, &key, jsonwebtoken::Algorithm::HS256)
        .expect("HMAC signing does not fail");
    sig.into_bytes()
}

/// Relies on `std::time::SystemTime::now` and its
/// `duration_since(UNIX_EPOCH)`: the clock reading in whole seconds since
/// the Unix epoch. A clock before the epoch reads as zero, and a reading
/// past [`MAX_TIMESTAMP`] is clamped to it, so no clock value can make
/// this panic.
#[verifier::external_body]
pub fn now_ts() -> (r: u64)
    ensures
        r <= MAX_TIMESTAMP,
{
    let secs = match std::time::SystemTime::now().duration_since(std::time::UNIX_EPOCH) {
        Ok(d) => d.as_secs(),
        Err(_) => 0,
    };
    if secs > MAX_TIMESTAMP {
        MAX_TIMESTAMP
    } else {
        secs
    }
}

/// A lowercase hexadecimal digit.
pub open spec fn is_lower_hex(c: char) -> bool {
    ('0' <= c && c <= '9') || ('a' <= c && c <= 'f')
}

/// The hyphenated spelling of a version-4 identifier: five lowercase hex
/// groups of 8-4-4-4-12 digits, the version nibble `4`, and a variant
/// nibble in `8`..`b`.
pub open spec fn uuid_hyphenated(s: Seq<char>) -> bool {
    &&& s.len() == 36
    &&& s[8] == '-' && s[13] == '-' && s[18] == '-' && s[23] == '-'
    &&& forall|i: int|
        0 <= i < 36 && i != 8 && i != 13 && i != 18 && i != 23 ==> is_lower_hex(#[trigger] s[i])
    &&& s[14] == '4'
    &&& (s[19] == '8' || s[19] == '9' || s[19] == 'a' || s[19] == 'b')
}

/// Relies on `uuid::Uuid::new_v4` and its hyphenated `to_string`: a fresh
/// random identifier in the hyphenated version-4 form. Nothing is assumed
/// about which identifier comes back. `new_v4` aborts if the operating
/// system's randomness facility fails, as any allocation would on
/// exhaustion.
#[verifier::external_body]
pub fn generate_uuid() -> (r: String)
    ensures
        uuid_hyphenated(r@),
{
    uuid::Uuid::new_v4().to_string()
}

/// The signed part of a token: base64 header, a dot, base64 payload.
pub open spec fn signing_input(c: ClaimsV) -> Seq<u8> {
    b64_spec(header_bytes()) + seq![46u8] + b64_spec(payload_spec(c))
}

/// The whole token: the signed part, a dot, and its signature.
pub open spec fn token_spec(c: ClaimsV, secret: Seq<u8>) -> Seq<u8> {
    (signing_input(c) + seq![46u8]) + hmac_sig(signing_input(c), secret)
}

/// Every byte of the text is a token byte: base64url alphabet or a dot.
/// In particular no byte is whitespace, so trimming leaves a token alone.
pub open spec fn token_chars(t: Seq<u8>) -> bool {
    forall|i: int| 0 <= i < t.len() ==> (b64v(#[trigger] t[i]) is Some || t[i] == 46)
}

/// The index of the first dot in the text.
pub open spec fn find_dot(t: Seq<u8>) -> Option<int>
    decreases t.len(),
{
    if t.len() == 0 {
        None
    } else if t[0] == 46 {
        Some(0)
    } else {
        match find_dot(t.skip(1)) {
            Some(i) => Some(i + 1),
            None => None,
        }
    }
}

/// The first dot is where the first dot stands.
pub proof fn lemma_find_dot_eq(t: Seq<u8>, k: int)
    requires
        0 <= k < t.len(),
        t[k] == 46,
        forall|j: int| 0 <= j < k ==> t[j] != 46,
    ensures
        find_dot(t) == Some(k),
    decreases k,
{
    if k > 0 {
        lemma_find_dot_eq(t.skip(1), k - 1);
    }
}

/// A text without a dot has no first dot.
pub proof fn lemma_find_dot_none(t: Seq<u8>)
    requires
        forall|j: int| 0 <= j < t.len() ==> t[j] != 46,
    ensures
        find_dot(t) is None,
    decreases t.len(),
{
    if t.len() > 0 {
        lemma_find_dot_none(t.skip(1));
    }
}

/// What a first dot means: it is a dot, and nothing before it is.
pub proof fn lemma_find_dot_props(t: Seq<u8>)
    ensures
        match find_dot(t) {
            Some(i) => 0 <= i < t.len() && t[i] == 46 && forall|j: int| 0 <= j < i ==> t[j] != 46,
            None => forall|j: int| 0 <= j < t.len() ==> t[j] != 46,
        },
    decreases t.len(),
{
    if t.len() > 0 && t[0] != 46 {
        lemma_find_dot_props(t.skip(1));
        match find_dot(t.skip(1)) {
            Some(i) => {
                assert forall|j: int| 0 <= j < i + 1 implies t[j] != 46 by {
                    if j > 0 {
                        assert(t.skip(1)[j - 1] != 46);
                    }
                }
            },
            None => {
                assert forall|j: int| 0 <= j < t.len() implies t[j] != 46 by {
                    if j > 0 {
                        assert(t.skip(1)[j - 1] != 46);
                    }
                }
            },
        }
    }
}

/// Strict reading of a whole token under a secret at a clock reading:
/// `Some(c)` exactly when the text is `token_spec(c, secret)` for claims
/// `c` that have not expired.
pub open spec fn parse_token_spec(t: Seq<u8>, secret: Seq<u8>, now: u64) -> Option<ClaimsV> {
    match find_dot(t) {
        None => None,
        Some(i) => match find_dot(t.skip(i + 1)) {
            None => None,
            Some(j) => {
                let h = t.take(i);
                let p = t.skip(i + 1).take(j);
                let sig = t.skip(i + 1).skip(j + 1);
                if h != b64_spec(header_bytes()) {
                    None
                } else {
                    match b64_decode_spec(p) {
                        None => None,
                        Some(pb) => match payload_decode_spec(pb) {
                            None => None,
                            Some(c) => if sig == hmac_sig(h + seq![46u8] + p, secret) {
                                if c.exp > now {
                                    Some(c)
                                } else {
                                    None
                                }
                            } else {
                                None
                            },
                        },
                    }
                }
            },
        },
    }
}

/// Where the two dots of a canonical token stand, and what its three parts
/// are.
#[verifier::rlimit(100)]
#[verifier::spinoff_prover]
pub proof fn lemma_token_scan(c: ClaimsV, secret: Seq<u8>)
    ensures
        ({
            let hl = b64_spec(header_bytes()).len() as int;
            let pl = b64_spec(payload_spec(c)).len() as int;
            let t = token_spec(c, secret);
            &&& find_dot(t) == Some(hl)
            &&& find_dot(t.skip(hl + 1)) == Some(pl)
            &&& t.take(hl) == b64_spec(header_bytes())
            &&& t.skip(hl + 1).take(pl) == b64_spec(payload_spec(c))
            &&& t.skip(hl + 1).skip(pl + 1) == hmac_sig(signing_input(c), secret)
            &&& t.take(hl) + seq![46u8] + t.skip(hl + 1).take(pl) == signing_input(c)
            &&& b64_decode_spec(t.skip(hl + 1).take(pl)) == Some(payload_spec(c))
            &&& payload_decode_spec(payload_spec(c)) == Some(c)
        }),
{
    let t = token_spec(c, secret);
    let h = b64_spec(header_bytes());
    let p = b64_spec(payload_spec(c));
    let sig = hmac_sig(signing_input(c), secret);
    let hl = h.len() as int;
    let pl = p.len() as int;
    let dot = seq![46u8];
    let r1 = dot + (p + (dot + sig));
    assert(t == h + r1) by {
        assert(t =~= h + (dot + (p + (dot + sig))));
    }
    crate::jsontext::lemma_parts0(t, h, r1);
    crate::b64::lemma_b64_alphabet(header_bytes());
    crate::b64::lemma_b64_alphabet(payload_spec(c));
    assert forall|j: int| 0 <= j < hl implies t[j] != 46 by {
        assert(t[j] == h[j]);
        assert(b64v(h[j]) is Some);
    }
    assert(t[hl] == r1[0]);
    lemma_find_dot_eq(t, hl);
    crate::jsontext::lemma_parts(t, hl, dot, p + (dot + sig));
    let t2 = t.skip(hl + 1);
    assert(t2 == p + (dot + sig));
    crate::jsontext::lemma_parts(t, hl + 1, p, dot + sig);
    assert forall|j: int| 0 <= j < pl implies t2[j] != 46 by {
        assert(t2[j] == p[j]);
        assert(b64v(p[j]) is Some);
    }
    assert(t2[pl] == (dot + sig)[0]);
    lemma_find_dot_eq(t2, pl);
    assert(t2.take(pl) == p);
    assert(t2.skip(pl + 1) =~= sig) by {
        assert(t.skip(hl + 1 + pl) == dot + sig);
        assert forall|j: int| 0 <= j < sig.len() implies t2.skip(pl + 1)[j] == sig[j] by {
            assert(t2.skip(pl + 1)[j] == t2[pl + 1 + j]);
            assert(t2[pl + 1 + j] == t[hl + 1 + pl + 1 + j]);
            assert(t.skip(hl + 1 + pl)[1 + j] == t[hl + 1 + pl + 1 + j]);
            assert((dot + sig)[1 + j] == sig[j]);
        }
    }
    assert(t.take(hl) + dot + t2.take(pl) =~= signing_input(c));
    crate::b64::lemma_b64_roundtrip(payload_spec(c));
    crate::claims::lemma_payload_roundtrip(c);
}

/// An unexpired token parses back to exactly the claims it was issued for.
pub proof fn lemma_token_roundtrip(c: ClaimsV, secret: Seq<u8>, now: u64)
    requires
        c.exp > now,
    ensures
        parse_token_spec(token_spec(c, secret), secret, now) == Some(c),
{
    lemma_token_scan(c, secret);
}

/// A token whose expiry has passed is rejected, however validly signed.
pub proof fn lemma_token_expired(c: ClaimsV, secret: Seq<u8>, now: u64)
    requires
        c.exp <= now,
    ensures
        parse_token_spec(token_spec(c, secret), secret, now) is None,
{
    lemma_token_scan(c, secret);
}

/// A token issued under one secret is rejected under another, whatever its
/// payload, as long as the two secrets' signatures for it differ.
pub proof fn lemma_token_wrong_secret(c: ClaimsV, s1: Seq<u8>, s2: Seq<u8>, now: u64)
    requires
        hmac_sig(signing_input(c), s1) != hmac_sig(signing_input(c), s2),
    ensures
        parse_token_spec(token_spec(c, s1), s2, now) is None,
{
    lemma_token_scan(c, s1);
}

/// Parsing is idempotent: one token under one secret at one clock reading
/// determines at most one claims value, so parsing the same valid token
/// twice yields identical claims both times; nothing is consumed by a
/// parse.
pub proof fn lemma_parse_deterministic(
    t: Seq<u8>,
    secret: Seq<u8>,
    now: u64,
    c1: ClaimsV,
    c2: ClaimsV,
)
    requires
        parse_token_spec(t, secret, now) == Some(c1),
        parse_token_spec(t, secret, now) == Some(c2),
    ensures
        c1 == c2,
{
}

/// Parsing is strict: whatever it accepts is the canonical token of the
/// claims it returns, signed under the given secret and unexpired.
#[verifier::rlimit(100)]
#[verifier::spinoff_prover]
pub proof fn lemma_token_canonical(t: Seq<u8>, secret: Seq<u8>, now: u64, c: ClaimsV)
    requires
        parse_token_spec(t, secret, now) == Some(c),
    ensures
        t == token_spec(c, secret),
        c.exp > now,
{
    let i = find_dot(t).unwrap();
    lemma_find_dot_props(t);
    let t2 = t.skip(i + 1);
    let j = find_dot(t2).unwrap();
    lemma_find_dot_props(t2);
    let h = t.take(i);
    let p = t2.take(j);
    let sig = t2.skip(j + 1);
    let pb = b64_decode_spec(p).unwrap();
    crate::b64::lemma_b64_canonical(p, pb);
    crate::claims::lemma_payload_canonical(pb, c);
    assert(h == b64_spec(header_bytes()));
    assert(p == b64_spec(payload_spec(c)));
    assert(h + seq![46u8] + p == signing_input(c));
    assert(sig == hmac_sig(signing_input(c), secret));
    assert(t =~= ((h + seq![46u8] + p) + seq![46u8]) + sig) by {
        assert(t[i] == 46);
        assert(t2[j] == 46);
        assert(t2.len() == t.len() - i - 1);
        assert(forall|m: int| 0 <= m < t2.len() ==> t2[m] == t[i + 1 + m]);
        assert(forall|m: int| 0 <= m < sig.len() ==> sig[m] == t2[j + 1 + m]);
    }
    assert(t == token_spec(c, secret));
}

/// Every byte below 128 makes a sequence valid UTF-8.
pub proof fn lemma_ascii_valid_utf8(s: Seq<u8>)
    requires
        forall|i: int| 0 <= i < s.len() ==> s[i] < 128,
    ensures
        valid_utf8(s),
    decreases s.len(),
{
    if s.len() > 0 {
        assert(is_leading_byte_width_1(s[0]));
        assert(valid_first_scalar(s));
        assert(length_of_first_scalar(s) == 1);
        assert(pop_first_scalar(s) =~= s.skip(1));
        lemma_ascii_valid_utf8(s.skip(1));
    }
}

/// Builds claims for an identity deterministically from a clock reading
/// and a fresh token identifier.
pub fn generate_claims_at(user: &StoredIdentity, now: u64, jti: String) -> (r: Claims)
    requires
        now <= u64::MAX - TOKEN_LIFETIME_SECS,
    ensures
        r@.user_id == user.id,
        encode_utf8(r@.sub) == dec_i32_spec(user.id as int),
        r@.email == user.email@,
        r@.role == spec_role(user.refuge, user.accueillant),
        r@.iat == now,
        r@.exp == now + TOKEN_LIFETIME_SECS,
        r@.jti == jti@,
{
    let mut sv: Vec<u8> = Vec::new();
    push_dec_i32(&mut sv, user.id);
    let ghost svv = sv@;
    proof {
        crate::jsontext::lemma_dec_i32_ascii(user.id as int);
        lemma_ascii_valid_utf8(sv@);
    }
    let sub = match string_from_utf8(sv) {
        Some(s) => s,
        None => vstd::pervasive::unreached(),
    };
    proof {
        decode_utf8_encode_utf8(svv);
    }
    Claims {
        sub,
        exp: now + TOKEN_LIFETIME_SECS,
        iat: now,
        jti,
        user_id: user.id,
        email: user.email.clone(),
        role: user.role(),
    }
}


/// Builds claims for an identity from the clock and a fresh random token
/// identifier: issued now, expiring one lifetime later.
pub fn generate_claims(user: &StoredIdentity) -> (r: Claims)
    ensures
        r@.user_id == user.id,
        encode_utf8(r@.sub) == dec_i32_spec(user.id as int),
        r@.email == user.email@,
        r@.role == spec_role(user.refuge, user.accueillant),
        r@.exp == r@.iat + TOKEN_LIFETIME_SECS,
        r@.iat <= MAX_TIMESTAMP,
        uuid_hyphenated(r@.jti),
{
    let now = now_ts();
    let jti = generate_uuid();
    generate_claims_at(user, now, jti)
}

/// Issues the signed token for the claims under the given secret.
#[verifier::rlimit(100)]
pub fn generate_token_from_claims(claims: &Claims, secret: &[u8]) -> (r: Result<
    String,
    CustomError,
>)
    ensures
        r matches Ok(t) && encode_utf8(t@) == token_spec(claims@, secret@),
        token_chars(token_spec(claims@, secret@)),
{
    let hb = header_vec();
    let mut h64 = b64_encode(hb.as_slice());
    let pl = payload_encode(claims);
    let mut p64 = b64_encode(pl.as_slice());
    let mut tb: Vec<u8> = Vec::new();
    tb.append(&mut h64);
    proof {
        assert(tb@ =~= b64_spec(header_bytes()));
    }
    let ghost g1 = tb@;
    tb.push(46);
    proof {
        assert(tb@ =~= g1 + seq![46u8]);
    }
    tb.append(&mut p64);
    proof {
        assert(tb@ == signing_input(claims@));
    }
    let mut sig = hmac_sign(tb.as_slice(), secret);
    let ghost g2 = tb@;
    tb.push(46);
    proof {
        assert(tb@ =~= g2 + seq![46u8]);
    }
    tb.append(&mut sig);
    let ghost tv = tb@;
    proof {
        assert(tb@ == token_spec(claims@, secret@));
        crate::b64::lemma_b64_alphabet(header_bytes());
        crate::b64::lemma_b64_alphabet(payload_spec(claims@));
        assert forall|i: int| 0 <= i < tb@.len() implies (b64v(#[trigger] tb@[i]) is Some || tb@[i]
            == 46) by {
            let hl = b64_spec(header_bytes()).len() as int;
            let plen = b64_spec(payload_spec(claims@)).len() as int;
            if i < hl {
                assert(tb@[i] == b64_spec(header_bytes())[i]);
                assert(b64v(b64_spec(header_bytes())[i]) is Some);
            } else if i == hl {
            } else if i < hl + 1 + plen {
                assert(tb@[i] == b64_spec(payload_spec(claims@))[i - hl - 1]);
                assert(b64v(b64_spec(payload_spec(claims@))[i - hl - 1]) is Some);
            } else if i == hl + 1 + plen {
            } else {
                assert(tb@[i] == hmac_sig(signing_input(claims@), secret@)[i - hl - plen - 2]);
            }
        }
        assert(token_chars(tb@));
        assert forall|i: int| 0 <= i < tb@.len() implies tb@[i] < 128 by {
            assert(b64v(tb@[i]) is Some || tb@[i] == 46);
        }
        lemma_ascii_valid_utf8(tb@);
    }
    match string_from_utf8(tb) {
        Some(s) => {
            proof {
                decode_utf8_encode_utf8(tv);
            }
            Ok(s)
        },
        None => vstd::pervasive::unreached(),
    }
}

/// Finds the first dot at or after `start`.
fn find_dot_from(t: &[u8], start: usize) -> (r: Option<usize>)
    requires
        start <= t.len(),
    ensures
        match r {
            Some(i) => start <= i < t@.len() && find_dot(t@.skip(start as int)) == Some(
                i - start,
            ),
            None => find_dot(t@.skip(start as int)) is None,
        },
{
    let mut i: usize = start;
    while i < t.len()
        invariant
            start <= i <= t.len(),
            forall|j: int| start <= j < i ==> t@[j] != 46,
        decreases t.len() - i,
    {
        if t[i] == 46 {
            proof {
                let w = t@.skip(start as int);
                assert(w[i - start] == t@[i as int]);
                assert forall|j: int| 0 <= j < i - start implies w[j] != 46 by {
                    assert(w[j] == t@[start + j]);
                }
                lemma_find_dot_eq(w, i - start);
            }
            return Some(i);
        }
        i = i + 1;
    }
    proof {
        let w = t@.skip(start as int);
        assert forall|j: int| 0 <= j < w.len() implies w[j] != 46 by {
            assert(w[j] == t@[start + j]);
        }
        lemma_find_dot_none(w);
    }
    None
}

/// Parses and verifies a presented token, given as bytes, under the given
/// secret at the given clock reading: exactly the canonical, correctly
/// signed, unexpired tokens are accepted, and every other input yields
/// `BadClientData`.
#[verifier::rlimit(100)]
pub fn parse_token_bytes(t: &[u8], secret: &[u8], now: u64) -> (r: Result<Claims, CustomError>)
    ensures
        match r {
            Ok(c) => parse_token_spec(t@, secret@, now) == Some(c@),
            Err(e) => parse_token_spec(t@, secret@, now) is None && e
                == CustomError::BadClientData,
        },
{
    let tlen = t.len();
    proof {
        assert(t@.skip(0) =~= t@);
    }
    let i = match find_dot_from(t, 0) {
        Some(i) => i,
        None => {
            return Err(CustomError::BadClientData);
        },
    };
    proof {
        lemma_find_dot_props(t@);
    }
    let j2 = match find_dot_from(t, i + 1) {
        Some(j2) => j2,
        None => {
            return Err(CustomError::BadClientData);
        },
    };
    proof {
        lemma_find_dot_props(t@.skip(i + 1));
    }
    let ghost jj = j2 - (i + 1);
    let hb = header_vec();
    let h64 = b64_encode(hb.as_slice());
    let hpart = vstd::slice::slice_subrange(t, 0, i);
    proof {
        assert(t@.subrange(0, i as int) =~= t@.take(i as int));
    }
    if !bytes_eq(hpart, h64.as_slice()) {
        return Err(CustomError::BadClientData);
    }
    let ppart = vstd::slice::slice_subrange(t, i + 1, j2);
    proof {
        assert(t@.subrange(i + 1, j2 as int) =~= t@.skip(i + 1).take(jj));
    }
    let pb = match b64_decode(ppart) {
        Some(v) => v,
        None => {
            return Err(CustomError::BadClientData);
        },
    };
    let c = match payload_decode(pb.as_slice()) {
        Some(c) => c,
        None => {
            return Err(CustomError::BadClientData);
        },
    };
    let si = vstd::slice::slice_subrange(t, 0, j2);
    proof {
        assert(t@.subrange(0, j2 as int) =~= t@.take(i as int) + seq![46u8] + t@.skip(i + 1).take(
            jj,
        ));
    }
    let expected = hmac_sign(si, secret);
    let sigpart = vstd::slice::slice_subrange(t, j2 + 1, tlen);
    proof {
        assert(t@.subrange(j2 + 1, t@.len() as int) =~= t@.skip(i + 1).skip(jj + 1));
    }
    if !bytes_eq(sigpart, expected.as_slice()) {
        return Err(CustomError::BadClientData);
    }
    if c.exp <= now {
        return Err(CustomError::BadClientData);
    }
    Ok(c)
}

/// Parses and verifies a presented token under the given secret at the
/// given clock reading; see [`parse_token_bytes`].
pub fn parse_token(token: &str, secret: &[u8], now: u64) -> (r: Result<Claims, CustomError>)
    ensures
        match r {
            Ok(c) => parse_token_spec(token.spec_bytes(), secret@, now) == Some(c@),
            Err(e) => parse_token_spec(token.spec_bytes(), secret@, now) is None && e
                == CustomError::BadClientData,
        },
{
    parse_token_bytes(token.as_bytes(), secret, now)
}

/// The decoded, minimal identity of a token: its email snapshot.
#[derive(Debug, Clone, PartialEq, Eq)]
pub struct User {
    pub email: String,
}

/// Decodes a presented token into its email snapshot; any rejection is
/// reported as an opaque message.
pub fn decode_jwt(token: &str, secret: &[u8], now: u64) -> (r: Result<User, String>)
    ensures
        match r {
            Ok(u) => parse_token_spec(token.spec_bytes(), secret@, now) matches Some(c) && u.email@
                == c.email,
            Err(m) => parse_token_spec(token.spec_bytes(), secret@, now) is None && m@
                == CustomError::BadClientData.spec_message(),
        },
{
    match parse_token(token, secret, now) {
        Ok(c) => Ok(User { email: c.email }),
        Err(e) => Err(e.message()),
    }
}

/// The `user_id` of a valid presented token, `None` for any rejection.
pub fn extract_user_id_from_token(token: &str, secret: &[u8], now: u64) -> (r: Option<i32>)
    ensures
        match r {
            Some(uid) => parse_token_spec(token.spec_bytes(), secret@, now) matches Some(c)
                && uid == c.user_id,
            None => parse_token_spec(token.spec_bytes(), secret@, now) is None,
        },
{
    match parse_token(token, secret, now) {
        Ok(c) => Some(c.user_id),
        Err(_) => None,
    }
}

} // verus!
