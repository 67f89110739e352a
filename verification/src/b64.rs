//! URL-safe base64 without padding, the alphabet and form used by the
//! compact signed-token encoding.
//!
//! The specification-level encoder [`b64_spec`] is the reference; the
//! decoder is strict and accepts exactly the encoder's outputs, so that a
//! token survives a round trip unchanged and every non-canonical input is
//! rejected.

use vstd::prelude::*;

verus! {

/// The alphabet byte for a 6-bit value: `A-Z`, `a-z`, `0-9`, `-`, `_`.
pub open spec fn b64c(v: u8) -> u8
    recommends
        v < 64,
{
    if v < 26 {
        (v + 65) as u8
    } else if v < 52 {
        (v + 71) as u8
    } else if v < 62 {
        (v - 4) as u8
    } else if v == 62 {
        45u8
    } else {
        95u8
    }
}

/// The 6-bit value of an alphabet byte, `None` outside the alphabet.
pub open spec fn b64v(c: u8) -> Option<u8> {
    if 65 <= c && c <= 90 {
        Some((c - 65) as u8)
    } else if 97 <= c && c <= 122 {
        Some((c - 71) as u8)
    } else if 48 <= c && c <= 57 {
        Some((c + 4) as u8)
    } else if c == 45 {
        Some(62u8)
    } else if c == 95 {
        Some(63u8)
    } else {
        None
    }
}

/// Encoding of a byte sequence: each group of three bytes becomes four
/// alphabet bytes; a final group of one or two bytes becomes two or three.
pub open spec fn b64_spec(s: Seq<u8>) -> Seq<u8>
    decreases s.len(),
{
    if s.len() == 0 {
        Seq::empty()
    } else if s.len() == 1 {
        seq![b64c(s[0] / 4), b64c(((s[0] % 4) * 16) as u8)]
    } else if s.len() == 2 {
        seq![
            b64c(s[0] / 4),
            b64c(((s[0] % 4) * 16 + s[1] / 16) as u8),
            b64c(((s[1] % 16) * 4) as u8),
        ]
    } else {
        seq![
            b64c(s[0] / 4),
            b64c(((s[0] % 4) * 16 + s[1] / 16) as u8),
            b64c(((s[1] % 16) * 4 + s[2] / 64) as u8),
            b64c((s[2] % 64) as u8),
        ] + b64_spec(s.skip(3))
    }
}

/// Strict decoding: `Some(b)` exactly when the input is `b64_spec(b)`.
pub open spec fn b64_decode_spec(t: Seq<u8>) -> Option<Seq<u8>>
    decreases t.len(),
{
    if t.len() == 0 {
        Some(Seq::empty())
    } else if t.len() == 1 {
        None
    } else if t.len() == 2 {
        match (b64v(t[0]), b64v(t[1])) {
            (Some(v0), Some(v1)) => if v1 % 16 == 0 {
                Some(seq![(v0 * 4 + v1 / 16) as u8])
            } else {
                None
            },
            _ => None,
        }
    } else if t.len() == 3 {
        match (b64v(t[0]), b64v(t[1]), b64v(t[2])) {
            (Some(v0), Some(v1), Some(v2)) => if v2 % 4 == 0 {
                Some(seq![(v0 * 4 + v1 / 16) as u8, ((v1 % 16) * 16 + v2 / 4) as u8])
            } else {
                None
            },
            _ => None,
        }
    } else {
        match (b64v(t[0]), b64v(t[1]), b64v(t[2]), b64v(t[3])) {
            (Some(v0), Some(v1), Some(v2), Some(v3)) => match b64_decode_spec(t.skip(4)) {
                Some(rest) => Some(
                    seq![
                        (v0 * 4 + v1 / 16) as u8,
                        ((v1 % 16) * 16 + v2 / 4) as u8,
                        ((v2 % 4) * 64 + v3) as u8,
                    ] + rest,
                ),
                None => None,
            },
            _ => None,
        }
    }
}

/// An alphabet byte decodes back to the value it encodes.
proof fn lemma_b64_cv(v: u8)
    requires
        v < 64,
    ensures
        b64v(b64c(v)) == Some(v),
{
}

/// Decoding is left inverse to encoding: every encoder output is accepted
/// and yields the original bytes.
pub proof fn lemma_b64_roundtrip(s: Seq<u8>)
    ensures
        b64_decode_spec(b64_spec(s)) == Some(s),
    decreases s.len(),
{
    if s.len() == 0 {
        assert(b64_decode_spec(b64_spec(s)) == Some(s));
    } else if s.len() == 1 {
        lemma_b64_cv(s[0] / 4);
        lemma_b64_cv(((s[0] % 4) * 16) as u8);
        assert(b64_decode_spec(b64_spec(s)) =~= Some(seq![s[0]]));
        assert(Some(seq![s[0]]) =~= Some(s));
    } else if s.len() == 2 {
        lemma_b64_cv(s[0] / 4);
        lemma_b64_cv(((s[0] % 4) * 16 + s[1] / 16) as u8);
        lemma_b64_cv(((s[1] % 16) * 4) as u8);
        assert(b64_decode_spec(b64_spec(s)) =~= Some(seq![s[0], s[1]]));
        assert(Some(seq![s[0], s[1]]) =~= Some(s));
    } else {
        lemma_b64_cv(s[0] / 4);
        lemma_b64_cv(((s[0] % 4) * 16 + s[1] / 16) as u8);
        lemma_b64_cv(((s[1] % 16) * 4 + s[2] / 64) as u8);
        lemma_b64_cv((s[2] % 64) as u8);
        lemma_b64_roundtrip(s.skip(3));
        let t = b64_spec(s);
        assert(t.len() >= 4);
        assert(t.skip(4) =~= b64_spec(s.skip(3)));
        assert(b64_decode_spec(t) =~= Some(seq![s[0], s[1], s[2]] + s.skip(3)));
        assert(seq![s[0], s[1], s[2]] + s.skip(3) =~= s);
    }
}

/// Decoding is strict: whatever it accepts re-encodes to the same text.
pub proof fn lemma_b64_canonical(t: Seq<u8>, b: Seq<u8>)
    requires
        b64_decode_spec(t) == Some(b),
    ensures
        b64_spec(b) == t,
    decreases t.len(),
{
    if t.len() == 0 {
        assert(b64_spec(b) =~= t);
    } else if t.len() == 2 {
        let v0 = b64v(t[0]).unwrap();
        let v1 = b64v(t[1]).unwrap();
        let b0 = (v0 * 4 + v1 / 16) as u8;
        assert(b0 / 4 == v0 && (b0 % 4) * 16 == v1);
        assert(b64c(v0) == t[0] && b64c(v1) == t[1]);
        assert(b64_spec(b) =~= t);
    } else if t.len() == 3 {
        let v0 = b64v(t[0]).unwrap();
        let v1 = b64v(t[1]).unwrap();
        let v2 = b64v(t[2]).unwrap();
        let b0 = (v0 * 4 + v1 / 16) as u8;
        let b1 = ((v1 % 16) * 16 + v2 / 4) as u8;
        assert(b0 / 4 == v0 && (b0 % 4) * 16 + b1 / 16 == v1 && (b1 % 16) * 4 == v2);
        assert(b64c(v0) == t[0] && b64c(v1) == t[1] && b64c(v2) == t[2]);
        assert(b64_spec(b) =~= t);
    } else {
        let v0 = b64v(t[0]).unwrap();
        let v1 = b64v(t[1]).unwrap();
        let v2 = b64v(t[2]).unwrap();
        let v3 = b64v(t[3]).unwrap();
        let rest = b64_decode_spec(t.skip(4)).unwrap();
        lemma_b64_canonical(t.skip(4), rest);
        let b0 = (v0 * 4 + v1 / 16) as u8;
        let b1 = ((v1 % 16) * 16 + v2 / 4) as u8;
        let b2 = ((v2 % 4) * 64 + v3) as u8;
        assert(b == seq![b0, b1, b2] + rest);
        assert(b.len() >= 3);
        assert(b[0] == b0 && b[1] == b1 && b[2] == b2);
        assert(b0 / 4 == v0 && (b0 % 4) * 16 + b1 / 16 == v1);
        assert((b1 % 16) * 4 + b2 / 64 == v2 && b2 % 64 == v3);
        assert(b64c(v0) == t[0] && b64c(v1) == t[1] && b64c(v2) == t[2] && b64c(v3) == t[3]);
        assert(b.skip(3) =~= rest);
        assert(b64_spec(b) =~= seq![t[0], t[1], t[2], t[3]] + t.skip(4));
        assert(seq![t[0], t[1], t[2], t[3]] + t.skip(4) =~= t);
    }
}

/// Every byte of an encoding lies in the alphabet.
pub proof fn lemma_b64_alphabet(s: Seq<u8>)
    ensures
        forall|i: int| 0 <= i < b64_spec(s).len() ==> (#[trigger] b64v(b64_spec(s)[i])) is Some,
    decreases s.len(),
{
    if s.len() >= 3 {
        lemma_b64_alphabet(s.skip(3));
        assert forall|i: int| 0 <= i < b64_spec(s).len() implies (#[trigger] b64v(
            b64_spec(s)[i],
        )) is Some by {
            if i >= 4 {
                assert(b64_spec(s)[i] == b64_spec(s.skip(3))[i - 4]);
            }
        }
    }
}

/// The alphabet byte for a 6-bit value.
pub fn b64_char(v: u8) -> (r: u8)
    requires
        v < 64,
    ensures
        r == b64c(v),
{
    if v < 26 {
        v + 65
    } else if v < 52 {
        v + 71
    } else if v < 62 {
        v - 4
    } else if v == 62 {
        45
    } else {
        95
    }
}

/// The 6-bit value of an alphabet byte, `None` outside the alphabet.
pub fn b64_val(c: u8) -> (r: Option<u8>)
    ensures
        r == b64v(c),
{
    if 65 <= c && c <= 90 {
        Some(c - 65)
    } else if 97 <= c && c <= 122 {
        Some(c - 71)
    } else if 48 <= c && c <= 57 {
        Some(c + 4)
    } else if c == 45 {
        Some(62)
    } else if c == 95 {
        Some(63)
    } else {
        None
    }
}

/// Encodes a byte slice in URL-safe base64 without padding.
pub fn b64_encode(s: &[u8]) -> (r: Vec<u8>)
    ensures
        r@ == b64_spec(s@),
{
    let mut r: Vec<u8> = Vec::new();
    let mut i: usize = 0;
    proof {
        assert(s@.skip(0) =~= s@);
        assert(r@ + b64_spec(s@) =~= b64_spec(s@));
    }
    while s.len() - i >= 3
        invariant
            i <= s.len(),
            r@ + b64_spec(s@.skip(i as int)) == b64_spec(s@),
        decreases s.len() - i,
    {
        let b0 = s[i];
        let b1 = s[i + 1];
        let b2 = s[i + 2];
        proof {
            let rem = s@.skip(i as int);
            assert(rem.len() >= 3);
            assert(rem[0] == b0 && rem[1] == b1 && rem[2] == b2);
            assert(rem.skip(3) =~= s@.skip(i + 3));
        }
        r.push(b64_char(b0 / 4));
        r.push(b64_char((b0 % 4) * 16 + b1 / 16));
        r.push(b64_char((b1 % 16) * 4 + b2 / 64));
        r.push(b64_char(b2 % 64));
        i = i + 3;
    }
    let rem = s.len() - i;
    if rem == 1 {
        let b0 = s[i];
        proof {
            let t = s@.skip(i as int);
            assert(t.len() == 1 && t[0] == b0);
        }
        r.push(b64_char(b0 / 4));
        r.push(b64_char((b0 % 4) * 16));
    } else if rem == 2 {
        let b0 = s[i];
        let b1 = s[i + 1];
        proof {
            let t = s@.skip(i as int);
            assert(t.len() == 2 && t[0] == b0 && t[1] == b1);
        }
        r.push(b64_char(b0 / 4));
        r.push(b64_char((b0 % 4) * 16 + b1 / 16));
        r.push(b64_char((b1 % 16) * 4));
    } else {
        proof {
            assert(s@.skip(i as int) =~= Seq::<u8>::empty());
        }
    }
    r
}

/// Strictly decodes URL-safe base64 without padding; rejects every input
/// that is not exactly an encoder output.
pub fn b64_decode(t: &[u8]) -> (r: Option<Vec<u8>>)
    ensures
        match r {
            Some(v) => b64_decode_spec(t@) == Some(v@),
            None => b64_decode_spec(t@) is None,
        },
{
    let mut out: Vec<u8> = Vec::new();
    let mut i: usize = 0;
    proof {
        assert(t@.skip(0) =~= t@);
        if b64_decode_spec(t@) is Some {
            assert(out@ + b64_decode_spec(t@).unwrap() =~= b64_decode_spec(t@).unwrap());
        }
    }
    while t.len() - i >= 4
        invariant
            i <= t.len(),
            b64_decode_spec(t@) == match b64_decode_spec(t@.skip(i as int)) {
                Some(rest) => Some(out@ + rest),
                None => None::<Seq<u8>>,
            },
        decreases t.len() - i,
    {
        proof {
            let rem = t@.skip(i as int);
            assert(rem.len() >= 4);
            assert(rem[0] == t@[i as int] && rem[1] == t@[i + 1] && rem[2] == t@[i + 2] && rem[3]
                == t@[i + 3]);
            assert(rem.skip(4) =~= t@.skip(i + 4));
        }
        let v0 = match b64_val(t[i]) {
            Some(v) => v,
            None => {
                return None;
            },
        };
        let v1 = match b64_val(t[i + 1]) {
            Some(v) => v,
            None => {
                return None;
            },
        };
        let v2 = match b64_val(t[i + 2]) {
            Some(v) => v,
            None => {
                return None;
            },
        };
        let v3 = match b64_val(t[i + 3]) {
            Some(v) => v,
            None => {
                return None;
            },
        };
        out.push(v0 * 4 + v1 / 16);
        out.push((v1 % 16) * 16 + v2 / 4);
        out.push((v2 % 4) * 64 + v3);
        i = i + 4;
    }
    let rem = t.len() - i;
    proof {
        let tail = t@.skip(i as int);
        assert(tail.len() == rem);
    }
    if rem == 0 {
        proof {
            assert(t@.skip(i as int) =~= Seq::<u8>::empty());
        }
        Some(out)
    } else if rem == 2 {
        proof {
            let tail = t@.skip(i as int);
            assert(tail[0] == t@[i as int] && tail[1] == t@[i + 1]);
        }
        let v0 = match b64_val(t[i]) {
            Some(v) => v,
            None => {
                return None;
            },
        };
        let v1 = match b64_val(t[i + 1]) {
            Some(v) => v,
            None => {
                return None;
            },
        };
        if v1 % 16 != 0 {
            return None;
        }
        out.push(v0 * 4 + v1 / 16);
        Some(out)
    } else if rem == 3 {
        proof {
            let tail = t@.skip(i as int);
            assert(tail[0] == t@[i as int] && tail[1] == t@[i + 1] && tail[2] == t@[i + 2]);
        }
        let v0 = match b64_val(t[i]) {
            Some(v) => v,
            None => {
                return None;
            },
        };
        let v1 = match b64_val(t[i + 1]) {
            Some(v) => v,
            None => {
                return None;
            },
        };
        let v2 = match b64_val(t[i + 2]) {
            Some(v) => v,
            None => {
                return None;
            },
        };
        if v2 % 4 != 0 {
            return None;
        }
        out.push(v0 * 4 + v1 / 16);
        out.push((v1 % 16) * 16 + v2 / 4);
        Some(out)
    } else {
        None
    }
}

} // verus!
