//! The signed payload of a token, and its canonical JSON form.
//!
//! A [`Claims`] value is immutable once constructed: it is produced once at
//! login and reconstructed once per request when a presented token is
//! verified. [`payload_spec`] is the reference spelling of its JSON object;
//! the decoder accepts exactly that spelling, so that a payload survives a
//! round trip unchanged and every other text is rejected.

use vstd::prelude::*;
use vstd::string::StringSliceAdditionalSpecFns;
use vstd::utf8::{
    decode_utf8, decode_utf8_encode_utf8, encode_utf8, encode_utf8_decode_utf8,
    encode_utf8_valid_utf8, valid_utf8,
};

use crate::jsontext::{
    dec_i32_spec, dec_prefix, dec_spec, esc_spec, int_prefix, is_digit, push_dec, push_dec_i32,
    push_escaped, scan_i32, scan_string, scan_u64, unesc_prefix,
};

verus! {

/// The signed payload of a token.
#[derive(Debug, Clone, PartialEq, Eq)]
pub struct Claims {
    /// Stringified user id: the canonical identity reference.
    pub sub: String,
    /// Expiry, as a Unix timestamp; fixed at issuance, never extended.
    pub exp: u64,
    /// Issuance time, as a Unix timestamp.
    pub iat: u64,
    /// A fresh random identifier per issuance.
    pub jti: String,
    /// Integer identity reference, duplicated from `sub` for typed access.
    pub user_id: i32,
    /// Email snapshot at issuance time.
    pub email: String,
    /// `SHELTER`, `FOSTER`, or the empty string for neither.
    pub role: String,
}

/// The mathematical value of a [`Claims`] record.
#[verifier::ext_equal]
pub ghost struct ClaimsV {
    pub sub: Seq<char>,
    pub exp: u64,
    pub iat: u64,
    pub jti: Seq<char>,
    pub user_id: i32,
    pub email: Seq<char>,
    pub role: Seq<char>,
}

impl View for Claims {
    type V = ClaimsV;

    open spec fn view(&self) -> ClaimsV {
        ClaimsV {
            sub: self.sub@,
            exp: self.exp,
            iat: self.iat,
            jti: self.jti@,
            user_id: self.user_id,
            email: self.email@,
            role: self.role@,
        }
    }
}

/// `{"sub":"`
#[verifier::opaque]
pub open spec fn lit_sub() -> Seq<u8> {
    seq![123u8, 34u8, 115u8, 117u8, 98u8, 34u8, 58u8, 34u8]
}

/// `,"exp":`
#[verifier::opaque]
pub open spec fn lit_exp() -> Seq<u8> {
    seq![44u8, 34u8, 101u8, 120u8, 112u8, 34u8, 58u8]
}

/// `,"iat":`
#[verifier::opaque]
pub open spec fn lit_iat() -> Seq<u8> {
    seq![44u8, 34u8, 105u8, 97u8, 116u8, 34u8, 58u8]
}

/// `,"jti":"`
#[verifier::opaque]
pub open spec fn lit_jti() -> Seq<u8> {
    seq![44u8, 34u8, 106u8, 116u8, 105u8, 34u8, 58u8, 34u8]
}

/// `,"user_id":`
#[verifier::opaque]
pub open spec fn lit_user_id() -> Seq<u8> {
    seq![44u8, 34u8, 117u8, 115u8, 101u8, 114u8, 95u8, 105u8, 100u8, 34u8, 58u8]
}

/// `,"email":"`
#[verifier::opaque]
pub open spec fn lit_email() -> Seq<u8> {
    seq![44u8, 34u8, 101u8, 109u8, 97u8, 105u8, 108u8, 34u8, 58u8, 34u8]
}

/// `,"role":"`
#[verifier::opaque]
pub open spec fn lit_role() -> Seq<u8> {
    seq![44u8, 34u8, 114u8, 111u8, 108u8, 101u8, 34u8, 58u8, 34u8]
}

/// The canonical JSON object for a claims value, fields in fixed order,
/// no whitespace, strings canonically escaped.
#[verifier::opaque]
pub open spec fn payload_spec(c: ClaimsV) -> Seq<u8> {
    lit_sub() + esc_spec(encode_utf8(c.sub)) + seq![34u8] + lit_exp() + dec_spec(c.exp as nat)
        + lit_iat() + dec_spec(c.iat as nat) + lit_jti() + esc_spec(encode_utf8(c.jti))
        + seq![34u8] + lit_user_id() + dec_i32_spec(c.user_id as int) + lit_email() + esc_spec(
        encode_utf8(c.email),
    ) + seq![34u8] + lit_role() + esc_spec(encode_utf8(c.role)) + seq![34u8] + seq![125u8]
}

/// Strict reading of a canonical claims object: `Some(c)` exactly when the
/// text is `payload_spec(c)`.
pub open spec fn payload_decode_spec(t: Seq<u8>) -> Option<ClaimsV> {
    if t.len() < 8 || t.take(8) != lit_sub() {
        None
    } else {
        match unesc_prefix(t.skip(8)) {
            None => None,
            Some((subb, n1)) => {
                let p1 = 8 + n1;
                if p1 + 7 > t.len() || t.skip(p1).take(7) != lit_exp() {
                    None
                } else {
                    match dec_prefix(t.skip(p1 + 7)) {
                        None => None,
                        Some((exp, n2)) => {
                            let p2 = p1 + 7 + n2;
                            if p2 + 7 > t.len() || t.skip(p2).take(7) != lit_iat() {
                                None
                            } else {
                                match dec_prefix(t.skip(p2 + 7)) {
                                    None => None,
                                    Some((iat, n3)) => {
                                        let p3 = p2 + 7 + n3;
                                        if p3 + 8 > t.len() || t.skip(p3).take(8) != lit_jti() {
                                            None
                                        } else {
                                            match unesc_prefix(t.skip(p3 + 8)) {
                                                None => None,
                                                Some((jtib, n4)) => {
                                                    let p4 = p3 + 8 + n4;
                                                    if p4 + 11 > t.len() || t.skip(p4).take(11)
                                                        != lit_user_id() {
                                                        None
                                                    } else {
                                                        payload_decode_tail(
                                                            t,
                                                            subb,
                                                            exp,
                                                            iat,
                                                            jtib,
                                                            p4 + 11,
                                                        )
                                                    }
                                                },
                                            }
                                        }
                                    },
                                }
                            }
                        },
                    }
                }
            },
        }
    }
}

/// Continues [`payload_decode_spec`] after the `user_id` key.
pub open spec fn payload_decode_tail(
    t: Seq<u8>,
    subb: Seq<u8>,
    exp: nat,
    iat: nat,
    jtib: Seq<u8>,
    p: int,
) -> Option<ClaimsV> {
    match int_prefix(t.skip(p)) {
        None => None,
        Some((uid, n5)) => {
            let p5 = p + n5;
            if p5 + 10 > t.len() || t.skip(p5).take(10) != lit_email() {
                None
            } else {
                match unesc_prefix(t.skip(p5 + 10)) {
                    None => None,
                    Some((emailb, n6)) => {
                        let p6 = p5 + 10 + n6;
                        if p6 + 9 > t.len() || t.skip(p6).take(9) != lit_role() {
                            None
                        } else {
                            match unesc_prefix(t.skip(p6 + 9)) {
                                None => None,
                                Some((roleb, n7)) => {
                                    let p7 = p6 + 9 + n7;
                                    if p7 + 1 != t.len() || t[p7] != 125 {
                                        None
                                    } else if valid_utf8(subb) && valid_utf8(jtib) && valid_utf8(
                                        emailb,
                                    ) && valid_utf8(roleb) {
                                        Some(
                                            ClaimsV {
                                                sub: decode_utf8(subb),
                                                exp: exp as u64,
                                                iat: iat as u64,
                                                jti: decode_utf8(jtib),
                                                user_id: uid as i32,
                                                email: decode_utf8(emailb),
                                                role: decode_utf8(roleb),
                                            },
                                        )
                                    } else {
                                        None
                                    }
                                },
                            }
                        }
                    },
                }
            }
        },
    }
}

/// The payload object, grouped from the right; equal to [`payload_spec`]
/// and convenient for peeling the object off field by field.
#[verifier::opaque]
pub open spec fn payload_nested(c: ClaimsV) -> Seq<u8> {
    lit_sub() + ((esc_spec(encode_utf8(c.sub)) + seq![34u8]) + (lit_exp() + (dec_spec(c.exp as nat)
        + (lit_iat() + (dec_spec(c.iat as nat) + (lit_jti() + ((esc_spec(encode_utf8(c.jti))
        + seq![34u8]) + (lit_user_id() + (dec_i32_spec(c.user_id as int) + (lit_email() + ((
    esc_spec(encode_utf8(c.email)) + seq![34u8]) + (lit_role() + ((esc_spec(encode_utf8(c.role))
        + seq![34u8]) + seq![125u8])))))))))))))
}

/// The lengths of the fixed key literals.
pub proof fn lemma_lit_lens()
    ensures
        lit_sub().len() == 8,
        lit_exp().len() == 7,
        lit_iat().len() == 7,
        lit_jti().len() == 8,
        lit_user_id().len() == 11,
        lit_email().len() == 10,
        lit_role().len() == 9,
{
    reveal(lit_sub);
    reveal(lit_exp);
    reveal(lit_iat);
    reveal(lit_jti);
    reveal(lit_user_id);
    reveal(lit_email);
    reveal(lit_role);
}

/// The two spellings of the payload object are the same bytes.
#[verifier::rlimit(100)]
#[verifier::spinoff_prover]
pub proof fn lemma_payload_assoc(c: ClaimsV)
    ensures
        payload_spec(c) == payload_nested(c),
{
    reveal(payload_spec);
    reveal(payload_nested);
    reveal(lit_sub);
    reveal(lit_exp);
    reveal(lit_iat);
    reveal(lit_jti);
    reveal(lit_user_id);
    reveal(lit_email);
    reveal(lit_role);
    assert(payload_spec(c) =~= payload_nested(c));
}

/// Position just after the `sub` string value.
pub open spec fn pos_sub(c: ClaimsV) -> int {
    8 + esc_spec(encode_utf8(c.sub)).len() as int + 1
}

/// Position just after the `exp` number.
pub open spec fn pos_exp(c: ClaimsV) -> int {
    pos_sub(c) + 7 + dec_spec(c.exp as nat).len() as int
}

/// Position just after the `iat` number.
pub open spec fn pos_iat(c: ClaimsV) -> int {
    pos_exp(c) + 7 + dec_spec(c.iat as nat).len() as int
}

/// Position just after the `jti` string value.
pub open spec fn pos_jti(c: ClaimsV) -> int {
    pos_iat(c) + 8 + esc_spec(encode_utf8(c.jti)).len() as int + 1
}

/// Position just after the `user_id` number.
pub open spec fn pos_uid(c: ClaimsV) -> int {
    pos_jti(c) + 11 + dec_i32_spec(c.user_id as int).len() as int
}

/// Position just after the `email` string value.
pub open spec fn pos_email(c: ClaimsV) -> int {
    pos_uid(c) + 10 + esc_spec(encode_utf8(c.email)).len() as int + 1
}

/// Position just after the `role` string value.
pub open spec fn pos_role(c: ClaimsV) -> int {
    pos_email(c) + 9 + esc_spec(encode_utf8(c.role)).len() as int + 1
}

/// The front half of the scan: through the `jti` value, with the remaining
/// suffix of the object made explicit.
#[verifier::rlimit(100)]
#[verifier::spinoff_prover]
proof fn lemma_payload_scan_a(c: ClaimsV)
    ensures
        payload_spec(c).take(8) == lit_sub(),
        unesc_prefix(payload_spec(c).skip(8)) == Some((encode_utf8(c.sub), pos_sub(c) - 8)),
        payload_spec(c).skip(pos_sub(c)).take(7) == lit_exp(),
        dec_prefix(payload_spec(c).skip(pos_sub(c) + 7)) == Some(
            (c.exp as nat, dec_spec(c.exp as nat).len() as int),
        ),
        payload_spec(c).skip(pos_exp(c)).take(7) == lit_iat(),
        dec_prefix(payload_spec(c).skip(pos_exp(c) + 7)) == Some(
            (c.iat as nat, dec_spec(c.iat as nat).len() as int),
        ),
        payload_spec(c).skip(pos_iat(c)).take(8) == lit_jti(),
        unesc_prefix(payload_spec(c).skip(pos_iat(c) + 8)) == Some(
            (encode_utf8(c.jti), pos_jti(c) - pos_iat(c) - 8),
        ),
        0 <= pos_jti(c) <= payload_spec(c).len(),
        payload_spec(c).skip(pos_jti(c)) == lit_user_id() + (dec_i32_spec(c.user_id as int) + (
        lit_email() + ((esc_spec(encode_utf8(c.email)) + seq![34u8]) + (lit_role() + ((esc_spec(
            encode_utf8(c.role),
        ) + seq![34u8]) + seq![125u8]))))),
{
    lemma_lit_lens();
    let t = payload_spec(c);
    lemma_payload_assoc(c);
    let subb = encode_utf8(c.sub);
    let jtib = encode_utf8(c.jti);
    let emailb = encode_utf8(c.email);
    let roleb = encode_utf8(c.role);
    let dexp = dec_spec(c.exp as nat);
    let diat = dec_spec(c.iat as nat);
    let duid = dec_i32_spec(c.user_id as int);
    let q = seq![34u8];
    let end = seq![125u8];
    let e_s = esc_spec(subb) + q;
    let e_j = esc_spec(jtib) + q;
    let e_e = esc_spec(emailb) + q;
    let e_r = esc_spec(roleb) + q;
    let r_a = e_r + end;
    let r_b = lit_role() + r_a;
    let r_c = e_e + r_b;
    let r_d = lit_email() + r_c;
    let r_e = duid + r_d;
    let r_f = lit_user_id() + r_e;
    let r_g = e_j + r_f;
    let r_h = lit_jti() + r_g;
    let r_i = diat + r_h;
    let r_j = lit_iat() + r_i;
    let r_k = dexp + r_j;
    let r_l = lit_exp() + r_k;
    let r_m = e_s + r_l;
    assert(t == lit_sub() + r_m) by {
        reveal(payload_nested);
    }
    crate::jsontext::lemma_parts0(t, lit_sub(), r_m);
    crate::jsontext::lemma_scan_str_at(t, 8, subb, r_l);
    let n1 = e_s.len() as int;
    let p1 = 8 + n1;
    assert(p1 == pos_sub(c));
    crate::jsontext::lemma_parts(t, p1, lit_exp(), r_k);
    assert(r_j[0] == 44 && !is_digit(r_j[0])) by {
        reveal(lit_iat);
    }
    crate::jsontext::lemma_scan_dec_at(t, p1 + 7, c.exp, r_j);
    let n2 = dexp.len() as int;
    let p2 = p1 + 7 + n2;
    assert(p2 == pos_exp(c));
    crate::jsontext::lemma_parts(t, p2, lit_iat(), r_i);
    assert(r_h[0] == 44 && !is_digit(r_h[0])) by {
        reveal(lit_jti);
    }
    crate::jsontext::lemma_scan_dec_at(t, p2 + 7, c.iat, r_h);
    let n3 = diat.len() as int;
    let p3 = p2 + 7 + n3;
    assert(p3 == pos_iat(c));
    crate::jsontext::lemma_parts(t, p3, lit_jti(), r_g);
    crate::jsontext::lemma_scan_str_at(t, p3 + 8, jtib, r_f);
    let n4 = e_j.len() as int;
    let p4 = p3 + 8 + n4;
    assert(p4 == pos_jti(c));
    assert(t.skip(p4) == r_f);
}

/// The back half of the scan: from the `user_id` key to the closing brace.
#[verifier::rlimit(100)]
#[verifier::spinoff_prover]
proof fn lemma_payload_scan_b(c: ClaimsV)
    ensures
        payload_spec(c).len() == pos_role(c) + 1,
        payload_spec(c).skip(pos_jti(c)).take(11) == lit_user_id(),
        int_prefix(payload_spec(c).skip(pos_jti(c) + 11)) == Some(
            (c.user_id as int, dec_i32_spec(c.user_id as int).len() as int),
        ),
        payload_spec(c).skip(pos_uid(c)).take(10) == lit_email(),
        unesc_prefix(payload_spec(c).skip(pos_uid(c) + 10)) == Some(
            (encode_utf8(c.email), pos_email(c) - pos_uid(c) - 10),
        ),
        payload_spec(c).skip(pos_email(c)).take(9) == lit_role(),
        unesc_prefix(payload_spec(c).skip(pos_email(c) + 9)) == Some(
            (encode_utf8(c.role), pos_role(c) - pos_email(c) - 9),
        ),
        payload_spec(c)[pos_role(c)] == 125,
{
    lemma_lit_lens();
    let t = payload_spec(c);
    lemma_payload_scan_a(c);
    let emailb = encode_utf8(c.email);
    let roleb = encode_utf8(c.role);
    let duid = dec_i32_spec(c.user_id as int);
    let q = seq![34u8];
    let end = seq![125u8];
    let e_e = esc_spec(emailb) + q;
    let e_r = esc_spec(roleb) + q;
    let r_a = e_r + end;
    let r_b = lit_role() + r_a;
    let r_c = e_e + r_b;
    let r_d = lit_email() + r_c;
    let r_e = duid + r_d;
    let p4 = pos_jti(c);
    assert(t.skip(p4) == lit_user_id() + r_e);
    crate::jsontext::lemma_parts(t, p4, lit_user_id(), r_e);
    assert(r_d[0] == 44 && !is_digit(r_d[0])) by {
        reveal(lit_email);
    }
    crate::jsontext::lemma_scan_int_at(t, p4 + 11, c.user_id, r_d);
    let n5 = duid.len() as int;
    let p5 = p4 + 11 + n5;
    assert(p5 == pos_uid(c));
    crate::jsontext::lemma_parts(t, p5, lit_email(), r_c);
    crate::jsontext::lemma_scan_str_at(t, p5 + 10, emailb, r_b);
    let n6 = e_e.len() as int;
    let p6 = p5 + 10 + n6;
    assert(p6 == pos_email(c));
    crate::jsontext::lemma_parts(t, p6, lit_role(), r_a);
    crate::jsontext::lemma_scan_str_at(t, p6 + 9, roleb, end);
    let n7 = e_r.len() as int;
    let p7 = p6 + 9 + n7;
    assert(p7 == pos_role(c));
    assert(t[p7] == t.skip(p7)[0]);
    assert(t[p7] == 125 && p7 + 1 == t.len());
}

/// Where each scanner lands on the canonical spelling of a claims value,
/// and what it returns there.
pub proof fn lemma_payload_scan(c: ClaimsV)
    ensures
        payload_spec(c).len() == pos_role(c) + 1,
        payload_spec(c).take(8) == lit_sub(),
        unesc_prefix(payload_spec(c).skip(8)) == Some((encode_utf8(c.sub), pos_sub(c) - 8)),
        payload_spec(c).skip(pos_sub(c)).take(7) == lit_exp(),
        dec_prefix(payload_spec(c).skip(pos_sub(c) + 7)) == Some(
            (c.exp as nat, dec_spec(c.exp as nat).len() as int),
        ),
        payload_spec(c).skip(pos_exp(c)).take(7) == lit_iat(),
        dec_prefix(payload_spec(c).skip(pos_exp(c) + 7)) == Some(
            (c.iat as nat, dec_spec(c.iat as nat).len() as int),
        ),
        payload_spec(c).skip(pos_iat(c)).take(8) == lit_jti(),
        unesc_prefix(payload_spec(c).skip(pos_iat(c) + 8)) == Some(
            (encode_utf8(c.jti), pos_jti(c) - pos_iat(c) - 8),
        ),
        payload_spec(c).skip(pos_jti(c)).take(11) == lit_user_id(),
        int_prefix(payload_spec(c).skip(pos_jti(c) + 11)) == Some(
            (c.user_id as int, dec_i32_spec(c.user_id as int).len() as int),
        ),
        payload_spec(c).skip(pos_uid(c)).take(10) == lit_email(),
        unesc_prefix(payload_spec(c).skip(pos_uid(c) + 10)) == Some(
            (encode_utf8(c.email), pos_email(c) - pos_uid(c) - 10),
        ),
        payload_spec(c).skip(pos_email(c)).take(9) == lit_role(),
        unesc_prefix(payload_spec(c).skip(pos_email(c) + 9)) == Some(
            (encode_utf8(c.role), pos_role(c) - pos_email(c) - 9),
        ),
        payload_spec(c)[pos_role(c)] == 125,
{
    lemma_payload_scan_a(c);
    lemma_payload_scan_b(c);
}

/// Reading a canonical claims object back gives the claims it spells.
#[verifier::rlimit(100)]
#[verifier::spinoff_prover]
pub proof fn lemma_payload_roundtrip(c: ClaimsV)
    ensures
        payload_decode_spec(payload_spec(c)) == Some(c),
{
    lemma_lit_lens();
    let t = payload_spec(c);
    lemma_payload_scan(c);
    encode_utf8_valid_utf8(c.sub);
    encode_utf8_valid_utf8(c.jti);
    encode_utf8_valid_utf8(c.email);
    encode_utf8_valid_utf8(c.role);
    encode_utf8_decode_utf8(c.sub);
    encode_utf8_decode_utf8(c.jti);
    encode_utf8_decode_utf8(c.email);
    encode_utf8_decode_utf8(c.role);
    let subb = encode_utf8(c.sub);
    let jtib = encode_utf8(c.jti);
    let emailb = encode_utf8(c.email);
    let roleb = encode_utf8(c.role);
    assert(ClaimsV {
        sub: decode_utf8(subb),
        exp: (c.exp as nat) as u64,
        iat: (c.iat as nat) as u64,
        jti: decode_utf8(jtib),
        user_id: (c.user_id as int) as i32,
        email: decode_utf8(emailb),
        role: decode_utf8(roleb),
    } =~= c);
    assert(payload_decode_tail(t, subb, c.exp as nat, c.iat as nat, jtib, pos_jti(c) + 11) == Some(
        c,
    ));
    assert(payload_decode_spec(t) == Some(c));
}

/// The reader is strict: whatever it accepts is the canonical spelling of
/// the claims it returns.
#[verifier::rlimit(100)]
#[verifier::spinoff_prover]
pub proof fn lemma_payload_canonical(t: Seq<u8>, c: ClaimsV)
    requires
        payload_decode_spec(t) == Some(c),
    ensures
        t == payload_spec(c),
{
    lemma_lit_lens();
    let (subb, n1) = unesc_prefix(t.skip(8)).unwrap();
    let p1 = 8 + n1;
    let (exp, n2) = dec_prefix(t.skip(p1 + 7)).unwrap();
    let p2 = p1 + 7 + n2;
    let (iat, n3) = dec_prefix(t.skip(p2 + 7)).unwrap();
    let p3 = p2 + 7 + n3;
    let (jtib, n4) = unesc_prefix(t.skip(p3 + 8)).unwrap();
    let p4 = p3 + 8 + n4;
    let (uid, n5) = int_prefix(t.skip(p4 + 11)).unwrap();
    let p5 = p4 + 11 + n5;
    let (emailb, n6) = unesc_prefix(t.skip(p5 + 10)).unwrap();
    let p6 = p5 + 10 + n6;
    let (roleb, n7) = unesc_prefix(t.skip(p6 + 9)).unwrap();
    let p7 = p6 + 9 + n7;
    crate::jsontext::lemma_esc_canonical(t.skip(8), subb, n1);
    crate::jsontext::lemma_dec_prefix_canonical(t.skip(p1 + 7), exp, n2);
    crate::jsontext::lemma_dec_prefix_canonical(t.skip(p2 + 7), iat, n3);
    crate::jsontext::lemma_esc_canonical(t.skip(p3 + 8), jtib, n4);
    crate::jsontext::lemma_int_prefix_canonical(t.skip(p4 + 11), uid, n5);
    crate::jsontext::lemma_esc_canonical(t.skip(p5 + 10), emailb, n6);
    crate::jsontext::lemma_esc_canonical(t.skip(p6 + 9), roleb, n7);
    let q = seq![34u8];
    let end = seq![125u8];
    let e_s = esc_spec(subb) + q;
    let e_j = esc_spec(jtib) + q;
    let e_e = esc_spec(emailb) + q;
    let e_r = esc_spec(roleb) + q;
    let dexp = dec_spec(exp);
    let diat = dec_spec(iat);
    let duid = dec_i32_spec(uid);
    assert(t.skip(p7) =~= end);
    crate::jsontext::lemma_join(t, p6 + 9, e_r, end);
    let r_a = e_r + end;
    crate::jsontext::lemma_join(t, p6, lit_role(), r_a);
    let r_b = lit_role() + r_a;
    crate::jsontext::lemma_join(t, p5 + 10, e_e, r_b);
    let r_c = e_e + r_b;
    crate::jsontext::lemma_join(t, p5, lit_email(), r_c);
    let r_d = lit_email() + r_c;
    crate::jsontext::lemma_join(t, p4 + 11, duid, r_d);
    let r_e = duid + r_d;
    crate::jsontext::lemma_join(t, p4, lit_user_id(), r_e);
    let r_f = lit_user_id() + r_e;
    crate::jsontext::lemma_join(t, p3 + 8, e_j, r_f);
    let r_g = e_j + r_f;
    crate::jsontext::lemma_join(t, p3, lit_jti(), r_g);
    let r_h = lit_jti() + r_g;
    crate::jsontext::lemma_join(t, p2 + 7, diat, r_h);
    let r_i = diat + r_h;
    crate::jsontext::lemma_join(t, p2, lit_iat(), r_i);
    let r_j = lit_iat() + r_i;
    crate::jsontext::lemma_join(t, p1 + 7, dexp, r_j);
    let r_k = dexp + r_j;
    crate::jsontext::lemma_join(t, p1, lit_exp(), r_k);
    let r_l = lit_exp() + r_k;
    crate::jsontext::lemma_join(t, 8, e_s, r_l);
    let r_m = e_s + r_l;
    assert(t.skip(0).take(8) =~= t.take(8));
    crate::jsontext::lemma_join(t, 0, lit_sub(), r_m);
    assert(t =~= t.skip(0));
    decode_utf8_encode_utf8(subb);
    decode_utf8_encode_utf8(jtib);
    decode_utf8_encode_utf8(emailb);
    decode_utf8_encode_utf8(roleb);
    assert(encode_utf8(c.sub) == subb);
    assert(encode_utf8(c.jti) == jtib);
    assert(encode_utf8(c.email) == emailb);
    assert(encode_utf8(c.role) == roleb);
    assert(c.exp as nat == exp && c.iat as nat == iat && c.user_id as int == uid);
    assert(t == payload_nested(c)) by {
        reveal(payload_nested);
    }
    lemma_payload_assoc(c);
}

/// Relies on `String::from_utf8` of std: `Ok` exactly on valid UTF-8, and
/// the returned string holds the decoding of the bytes.
#[verifier::external_body]
pub fn string_from_utf8(v: Vec<u8>) -> (r: Option<String>)
    ensures
        match r {
            Some(s) => valid_utf8(v@) && s@ == decode_utf8(v@),
            None => !valid_utf8(v@),
        },
{
    String::from_utf8(v).ok()
}

/// Writes the canonical JSON object for the claims.
#[verifier::rlimit(100)]
#[verifier::spinoff_prover]
pub fn payload_encode(c: &Claims) -> (r: Vec<u8>)
    ensures
        r@ == payload_spec(c@),
{
    let mut out: Vec<u8> = Vec::new();
    out.push(123);
    out.push(34);
    out.push(115);
    out.push(117);
    out.push(98);
    out.push(34);
    out.push(58);
    out.push(34);
    proof {
        reveal(lit_sub);
        assert(out@ =~= lit_sub());
    }
    let sub_bytes = c.sub.as_str().as_bytes();
    proof {
        assert(sub_bytes@ == encode_utf8(c.sub@));
    }
    push_escaped(&mut out, sub_bytes);
    let ghost q1 = out@;
    out.push(34);
    proof {
        assert(out@ =~= q1 + seq![34u8]);
    }
    let ghost g2 = out@;
    out.push(44);
    out.push(34);
    out.push(101);
    out.push(120);
    out.push(112);
    out.push(34);
    out.push(58);
    proof {
        reveal(lit_exp);
        assert(out@ =~= g2 + lit_exp());
    }
    push_dec(&mut out, c.exp);
    let ghost g4 = out@;
    out.push(44);
    out.push(34);
    out.push(105);
    out.push(97);
    out.push(116);
    out.push(34);
    out.push(58);
    proof {
        reveal(lit_iat);
        assert(out@ =~= g4 + lit_iat());
    }
    push_dec(&mut out, c.iat);
    let ghost g6 = out@;
    out.push(44);
    out.push(34);
    out.push(106);
    out.push(116);
    out.push(105);
    out.push(34);
    out.push(58);
    out.push(34);
    proof {
        reveal(lit_jti);
        assert(out@ =~= g6 + lit_jti());
    }
    let jti_bytes = c.jti.as_str().as_bytes();
    proof {
        assert(jti_bytes@ == encode_utf8(c.jti@));
    }
    push_escaped(&mut out, jti_bytes);
    let ghost q2 = out@;
    out.push(34);
    proof {
        assert(out@ =~= q2 + seq![34u8]);
    }
    let ghost g8 = out@;
    out.push(44);
    out.push(34);
    out.push(117);
    out.push(115);
    out.push(101);
    out.push(114);
    out.push(95);
    out.push(105);
    out.push(100);
    out.push(34);
    out.push(58);
    proof {
        reveal(lit_user_id);
        assert(out@ =~= g8 + lit_user_id());
    }
    push_dec_i32(&mut out, c.user_id);
    let ghost g10 = out@;
    out.push(44);
    out.push(34);
    out.push(101);
    out.push(109);
    out.push(97);
    out.push(105);
    out.push(108);
    out.push(34);
    out.push(58);
    out.push(34);
    proof {
        reveal(lit_email);
        assert(out@ =~= g10 + lit_email());
    }
    let email_bytes = c.email.as_str().as_bytes();
    proof {
        assert(email_bytes@ == encode_utf8(c.email@));
    }
    push_escaped(&mut out, email_bytes);
    let ghost q3 = out@;
    out.push(34);
    proof {
        assert(out@ =~= q3 + seq![34u8]);
    }
    let ghost g12 = out@;
    out.push(44);
    out.push(34);
    out.push(114);
    out.push(111);
    out.push(108);
    out.push(101);
    out.push(34);
    out.push(58);
    out.push(34);
    proof {
        reveal(lit_role);
        assert(out@ =~= g12 + lit_role());
    }
    let role_bytes = c.role.as_str().as_bytes();
    proof {
        assert(role_bytes@ == encode_utf8(c.role@));
    }
    push_escaped(&mut out, role_bytes);
    let ghost q4 = out@;
    out.push(34);
    proof {
        assert(out@ =~= q4 + seq![34u8]);
    }
    let ghost q5 = out@;
    out.push(125);
    proof {
        assert(out@ =~= q5 + seq![125u8]);
        reveal(payload_spec);
        assert(out@ == payload_spec(c@));
    }
    out
}

/// Whether the literal stands in `t` at position `pos`.
pub fn has_lit(t: &[u8], pos: usize, lit: &[u8]) -> (r: bool)
    requires
        pos <= t.len(),
    ensures
        r == (pos + lit@.len() <= t@.len() && t@.skip(pos as int).take(lit@.len() as int) == lit@),
{
    if t.len() - pos < lit.len() {
        return false;
    }
    let mut i: usize = 0;
    while i < lit.len()
        invariant
            pos + lit@.len() <= t@.len(),
            i <= lit@.len(),
            pos <= t.len(),
            forall|j: int| 0 <= j < i ==> t@[pos + j] == lit@[j],
        decreases lit.len() - i,
    {
        if t[pos + i] != lit[i] {
            proof {
                assert(t@.skip(pos as int).take(lit@.len() as int)[i as int] == t@[pos + i]);
            }
            return false;
        }
        i = i + 1;
    }
    proof {
        assert(t@.skip(pos as int).take(lit@.len() as int) =~= lit@);
    }
    true
}

/// Reads a canonical claims object; mirrors [`payload_decode_spec`].
#[verifier::rlimit(100)]
#[verifier::spinoff_prover]
pub fn payload_decode(t: &[u8]) -> (r: Option<Claims>)
    ensures
        match r {
            Some(c) => payload_decode_spec(t@) == Some(c@),
            None => payload_decode_spec(t@) is None,
        },
{
    let l_sub: [u8; 8] = [123, 34, 115, 117, 98, 34, 58, 34];
    let l_exp: [u8; 7] = [44, 34, 101, 120, 112, 34, 58];
    let l_iat: [u8; 7] = [44, 34, 105, 97, 116, 34, 58];
    let l_jti: [u8; 8] = [44, 34, 106, 116, 105, 34, 58, 34];
    let l_uid: [u8; 11] = [44, 34, 117, 115, 101, 114, 95, 105, 100, 34, 58];
    let l_email: [u8; 10] = [44, 34, 101, 109, 97, 105, 108, 34, 58, 34];
    let l_role: [u8; 9] = [44, 34, 114, 111, 108, 101, 34, 58, 34];
    proof {
        reveal(lit_sub);
        reveal(lit_exp);
        reveal(lit_iat);
        reveal(lit_jti);
        reveal(lit_user_id);
        reveal(lit_email);
        reveal(lit_role);
        assert(l_sub@ =~= lit_sub());
        assert(l_exp@ =~= lit_exp());
        assert(l_iat@ =~= lit_iat());
        assert(l_jti@ =~= lit_jti());
        assert(l_uid@ =~= lit_user_id());
        assert(l_email@ =~= lit_email());
        assert(l_role@ =~= lit_role());
    }
    if t.len() < 8 {
        return None;
    }
    proof {
        assert(t@.skip(0).take(8) =~= t@.take(8));
    }
    if !has_lit(t, 0, l_sub.as_slice()) {
        return None;
    }
    let (subv, p1) = match scan_string(t, 8) {
        Some(x) => x,
        None => {
            return None;
        },
    };
    if !has_lit(t, p1, l_exp.as_slice()) {
        return None;
    }
    let (exp, p2) = match scan_u64(t, p1 + 7) {
        Some(x) => x,
        None => {
            return None;
        },
    };
    if !has_lit(t, p2, l_iat.as_slice()) {
        return None;
    }
    let (iat, p3) = match scan_u64(t, p2 + 7) {
        Some(x) => x,
        None => {
            return None;
        },
    };
    if !has_lit(t, p3, l_jti.as_slice()) {
        return None;
    }
    let (jtiv, p4) = match scan_string(t, p3 + 8) {
        Some(x) => x,
        None => {
            return None;
        },
    };
    if !has_lit(t, p4, l_uid.as_slice()) {
        return None;
    }
    let (uid, p5) = match scan_i32(t, p4 + 11) {
        Some(x) => x,
        None => {
            return None;
        },
    };
    if !has_lit(t, p5, l_email.as_slice()) {
        return None;
    }
    let (emailv, p6) = match scan_string(t, p5 + 10) {
        Some(x) => x,
        None => {
            return None;
        },
    };
    if !has_lit(t, p6, l_role.as_slice()) {
        return None;
    }
    let (rolev, p7) = match scan_string(t, p6 + 9) {
        Some(x) => x,
        None => {
            return None;
        },
    };
    if p7 >= t.len() {
        return None;
    }
    if p7 + 1 != t.len() || t[p7] != 125 {
        return None;
    }
    let sub = match string_from_utf8(subv) {
        Some(s) => s,
        None => {
            return None;
        },
    };
    let jti = match string_from_utf8(jtiv) {
        Some(s) => s,
        None => {
            return None;
        },
    };
    let email = match string_from_utf8(emailv) {
        Some(s) => s,
        None => {
            return None;
        },
    };
    let role = match string_from_utf8(rolev) {
        Some(s) => s,
        None => {
            return None;
        },
    };
    let c = Claims { sub, exp, iat, jti, user_id: uid, email, role };
    proof {
        assert(payload_decode_spec(t@) == Some(c@));
    }
    Some(c)
}

} // verus!
