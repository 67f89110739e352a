//! The textual building blocks of the token payload: JSON string escaping
//! and decimal numbers, each with a strict scanner that accepts exactly the
//! writer's output.
//!
//! Escaping is canonical: `"` and `\` get a two-byte escape, control bytes
//! get `\u00` and two lowercase hex digits, and every other byte stands for
//! itself. The scanners reject every non-canonical spelling, so that
//! whatever they accept re-serializes to the very same bytes.

use vstd::prelude::*;

verus! {

/// An ASCII decimal digit.
pub open spec fn is_digit(c: u8) -> bool {
    48 <= c && c <= 57
}

/// The lowercase hex digit for a value below 16.
pub open spec fn hexd(v: u8) -> u8
    recommends
        v < 16,
{
    if v < 10 {
        (v + 48) as u8
    } else {
        (v + 87) as u8
    }
}

/// The value of a lowercase hex digit, `None` otherwise.
pub open spec fn hexv(c: u8) -> Option<u8> {
    if 48 <= c && c <= 57 {
        Some((c - 48) as u8)
    } else if 97 <= c && c <= 102 {
        Some((c - 87) as u8)
    } else {
        None
    }
}

/// The escape of one byte inside a JSON string literal.
pub open spec fn esc_byte(b: u8) -> Seq<u8> {
    if b == 34 {
        seq![92u8, 34u8]
    } else if b == 92 {
        seq![92u8, 92u8]
    } else if b < 32 {
        seq![92u8, 117u8, 48u8, 48u8, hexd(b / 16), hexd(b % 16)]
    } else {
        seq![b]
    }
}

/// The escape of a whole byte string.
pub open spec fn esc_spec(s: Seq<u8>) -> Seq<u8>
    decreases s.len(),
{
    if s.len() == 0 {
        Seq::empty()
    } else {
        esc_byte(s[0]) + esc_spec(s.skip(1))
    }
}

/// Scans an escaped string up to and including its closing quote.
///
/// Returns the unescaped content and the number of bytes consumed; `None`
/// when the text is not exactly the canonical escape of some content
/// followed by `"`.
pub open spec fn unesc_prefix(t: Seq<u8>) -> Option<(Seq<u8>, int)>
    decreases t.len(),
{
    if t.len() == 0 {
        None
    } else if t[0] == 34 {
        Some((Seq::empty(), 1))
    } else if t[0] == 92 {
        if t.len() < 2 {
            None
        } else if t[1] == 34 || t[1] == 92 {
            match unesc_prefix(t.skip(2)) {
                Some((s, n)) => Some((seq![t[1]] + s, n + 2)),
                None => None,
            }
        } else if t[1] == 117 {
            if t.len() < 6 {
                None
            } else if t[2] == 48 && t[3] == 48 {
                match (hexv(t[4]), hexv(t[5])) {
                    (Some(h), Some(l)) => {
                        let b = (h * 16 + l) as u8;
                        if b < 32 {
                            match unesc_prefix(t.skip(6)) {
                                Some((s, n)) => Some((seq![b] + s, n + 6)),
                                None => None,
                            }
                        } else {
                            None
                        }
                    },
                    _ => None,
                }
            } else {
                None
            }
        } else {
            None
        }
    } else if t[0] >= 32 {
        match unesc_prefix(t.skip(1)) {
            Some((s, n)) => Some((seq![t[0]] + s, n + 1)),
            None => None,
        }
    } else {
        None
    }
}

/// The scanner accepts every canonical escape followed by `"` and returns
/// exactly the original content.
pub proof fn lemma_esc_roundtrip(s: Seq<u8>, rest: Seq<u8>)
    ensures
        unesc_prefix(esc_spec(s) + seq![34u8] + rest) == Some((s, esc_spec(s).len() as int + 1)),
    decreases s.len(),
{
    let t = esc_spec(s) + seq![34u8] + rest;
    if s.len() == 0 {
        assert(t[0] == 34);
    } else {
        lemma_esc_roundtrip(s.skip(1), rest);
        let b = s[0];
        let e = esc_byte(b);
        let t2 = esc_spec(s.skip(1)) + seq![34u8] + rest;
        assert(t =~= e + t2);
        if b == 34 || b == 92 {
            assert(t[0] == 92 && t[1] == b);
            assert(t.skip(2) =~= t2);
            assert(seq![b] + s.skip(1) =~= s);
        } else if b < 32 {
            assert(t[0] == 92 && t[1] == 117 && t[2] == 48 && t[3] == 48);
            assert(t[4] == hexd(b / 16) && t[5] == hexd(b % 16));
            assert(hexv(hexd(b / 16)) == Some(b / 16));
            assert(hexv(hexd(b % 16)) == Some(b % 16));
            assert((b / 16) * 16 + b % 16 == b);
            assert(t.skip(6) =~= t2);
            assert(seq![b] + s.skip(1) =~= s);
        } else {
            assert(t[0] == b && b != 34 && b != 92 && b >= 32);
            assert(t.skip(1) =~= t2);
            assert(seq![b] + s.skip(1) =~= s);
        }
    }
}

/// The scanner is strict: whatever it accepts is the canonical escape of
/// what it returns, closed by `"`.
pub proof fn lemma_esc_canonical(t: Seq<u8>, s: Seq<u8>, n: int)
    requires
        unesc_prefix(t) == Some((s, n)),
    ensures
        1 <= n <= t.len(),
        t.take(n) == esc_spec(s) + seq![34u8],
    decreases t.len(),
{
    if t[0] == 34 {
        assert(t.take(1) =~= esc_spec(s) + seq![34u8]);
    } else if t[0] == 92 {
        if t[1] == 34 || t[1] == 92 {
            let (s2, n2) = unesc_prefix(t.skip(2)).unwrap();
            lemma_esc_canonical(t.skip(2), s2, n2);
            assert(s == seq![t[1]] + s2);
            assert(s[0] == t[1] && s.skip(1) =~= s2);
            assert(esc_byte(s[0]) =~= seq![92u8, t[1]]);
            assert(t.take(n) =~= seq![92u8, t[1]] + t.skip(2).take(n2));
            assert(t.take(n) =~= esc_spec(s) + seq![34u8]);
        } else {
            let h = hexv(t[4]).unwrap();
            let l = hexv(t[5]).unwrap();
            let b = (h * 16 + l) as u8;
            let (s2, n2) = unesc_prefix(t.skip(6)).unwrap();
            lemma_esc_canonical(t.skip(6), s2, n2);
            assert(s == seq![b] + s2);
            assert(s[0] == b && s.skip(1) =~= s2);
            assert(hexd(b / 16) == t[4] && hexd(b % 16) == t[5]) by {
                assert(b / 16 == h && b % 16 == l);
                assert(hexd(h) == t[4] && hexd(l) == t[5]);
            }
            assert(esc_byte(b) =~= seq![92u8, 117u8, 48u8, 48u8, t[4], t[5]]);
            assert(t.take(n) =~= esc_byte(b) + t.skip(6).take(n2));
            assert(t.take(n) =~= esc_spec(s) + seq![34u8]);
        }
    } else {
        let (s2, n2) = unesc_prefix(t.skip(1)).unwrap();
        lemma_esc_canonical(t.skip(1), s2, n2);
        assert(s == seq![t[0]] + s2);
        assert(s[0] == t[0] && s.skip(1) =~= s2);
        assert(esc_byte(s[0]) =~= seq![t[0]]);
        assert(t.take(n) =~= seq![t[0]] + t.skip(1).take(n2));
        assert(t.take(n) =~= esc_spec(s) + seq![34u8]);
    }
}

/// The decimal spelling of a natural number, most significant digit first.
pub open spec fn dec_spec(n: nat) -> Seq<u8>
    decreases n,
{
    if n < 10 {
        seq![(n + 48) as u8]
    } else {
        dec_spec(n / 10) + seq![((n % 10) + 48) as u8]
    }
}

/// The decimal spelling of a signed 32-bit value.
pub open spec fn dec_i32_spec(v: int) -> Seq<u8>
    recommends
        -0x8000_0000 <= v < 0x8000_0000,
{
    if v >= 0 {
        dec_spec(v as nat)
    } else {
        seq![45u8] + dec_spec((-v) as nat)
    }
}

/// How many digits stand at the front of the text.
pub open spec fn digit_run(t: Seq<u8>) -> int
    decreases t.len(),
{
    if t.len() == 0 || !is_digit(t[0]) {
        0
    } else {
        1 + digit_run(t.skip(1))
    }
}

/// The value of a digit string.
pub open spec fn dec_val(d: Seq<u8>) -> nat
    decreases d.len(),
{
    if d.len() == 0 {
        0
    } else {
        dec_val(d.take(d.len() - 1)) * 10 + (d.last() - 48) as nat
    }
}

/// Scans an unsigned decimal number at the front of the text: at least one
/// digit, no leading zero, value within `u64`.
pub open spec fn dec_prefix(t: Seq<u8>) -> Option<(nat, int)> {
    let k = digit_run(t);
    if k == 0 {
        None
    } else if t[0] == 48 && k > 1 {
        None
    } else if dec_val(t.take(k)) > u64::MAX {
        None
    } else {
        Some((dec_val(t.take(k)), k))
    }
}

/// Scans a signed decimal number within `i32`, rejecting `-0`.
pub open spec fn int_prefix(t: Seq<u8>) -> Option<(int, int)> {
    if t.len() > 0 && t[0] == 45 {
        match dec_prefix(t.skip(1)) {
            Some((n, k)) => if n == 0 || n > 0x8000_0000 {
                None
            } else {
                Some((-(n as int), k + 1))
            },
            None => None,
        }
    } else {
        match dec_prefix(t) {
            Some((n, k)) => if n > 0x7fff_ffff {
                None
            } else {
                Some((n as int, k))
            },
            None => None,
        }
    }
}

/// Every byte of a decimal spelling is a digit, and the first is zero only
/// for the number zero itself.
pub proof fn lemma_dec_digits(n: nat)
    ensures
        dec_spec(n).len() >= 1,
        forall|i: int| 0 <= i < dec_spec(n).len() ==> is_digit(#[trigger] dec_spec(n)[i]),
        n > 0 ==> dec_spec(n)[0] != 48,
        n == 0 ==> dec_spec(n) == seq![48u8],
    decreases n,
{
    if n < 10 {
        assert(dec_spec(n) =~= seq![(n + 48) as u8]);
    } else {
        lemma_dec_digits(n / 10);
        assert(dec_spec(n)[0] == dec_spec(n / 10)[0]);
        assert forall|i: int| 0 <= i < dec_spec(n).len() implies is_digit(
            #[trigger] dec_spec(n)[i],
        ) by {
            if i < dec_spec(n / 10).len() {
                assert(dec_spec(n)[i] == dec_spec(n / 10)[i]);
            }
        }
    }
}

/// A digit run stops exactly where the digits stop.
pub proof fn lemma_digit_run_eq(t: Seq<u8>, k: int)
    requires
        0 <= k <= t.len(),
        forall|i: int| 0 <= i < k ==> is_digit(#[trigger] t[i]),
        k == t.len() || !is_digit(t[k]),
    ensures
        digit_run(t) == k,
    decreases t.len(),
{
    if k == 0 {
    } else {
        assert(is_digit(t[0]));
        lemma_digit_run_eq(t.skip(1), k - 1);
    }
}

/// The digits that a digit run covers, and the byte after it.
pub proof fn lemma_digit_run_props(t: Seq<u8>)
    ensures
        0 <= digit_run(t) <= t.len(),
        forall|i: int| 0 <= i < digit_run(t) ==> is_digit(#[trigger] t[i]),
        digit_run(t) == t.len() || !is_digit(t[digit_run(t)]),
    decreases t.len(),
{
    if t.len() == 0 || !is_digit(t[0]) {
    } else {
        lemma_digit_run_props(t.skip(1));
        let k = digit_run(t);
        assert forall|i: int| 0 <= i < k implies is_digit(#[trigger] t[i]) by {
            if i > 0 {
                assert(is_digit(t.skip(1)[i - 1]));
            }
        }
    }
}

/// Reading the spelling of a number back gives the number.
pub proof fn lemma_dec_val_dec_spec(n: nat)
    ensures
        dec_val(dec_spec(n)) == n,
    decreases n,
{
    if n < 10 {
        let d = dec_spec(n);
        assert(d =~= seq![(n + 48) as u8]);
        assert(d.take(d.len() - 1) =~= Seq::<u8>::empty());
        assert(dec_val(d.take(d.len() - 1)) == 0);
        assert(dec_val(d) == (d.last() - 48) as nat);
    } else {
        lemma_dec_val_dec_spec(n / 10);
        let d = dec_spec(n);
        assert(d.len() >= 1);
        assert(d.take(d.len() - 1) =~= dec_spec(n / 10));
        assert(d.last() == ((n % 10) + 48) as u8);
        assert(dec_val(d) == dec_val(d.take(d.len() - 1)) * 10 + (d.last() - 48) as nat);
        assert(dec_val(d.take(d.len() - 1)) == n / 10);
        assert((d.last() - 48) as nat == n % 10);
        assert((n / 10) * 10 + n % 10 == n);
        assert(dec_val(d) == (n / 10) * 10 + n % 10);
    }
}

/// A nonempty digit string without a leading zero has a positive value.
proof fn lemma_dec_val_pos(d: Seq<u8>)
    requires
        d.len() >= 1,
        forall|i: int| 0 <= i < d.len() ==> is_digit(#[trigger] d[i]),
        d[0] != 48,
    ensures
        dec_val(d) >= 1,
    decreases d.len(),
{
    if d.len() == 1 {
        assert(is_digit(d[0]));
    } else {
        lemma_dec_val_pos(d.take(d.len() - 1));
    }
}

/// A canonical digit string is the spelling of its own value.
pub proof fn lemma_dec_spec_dec_val(d: Seq<u8>)
    requires
        d.len() >= 1,
        forall|i: int| 0 <= i < d.len() ==> is_digit(#[trigger] d[i]),
        d[0] != 48 || d.len() == 1,
    ensures
        dec_spec(dec_val(d)) == d,
    decreases d.len(),
{
    if d.len() == 1 {
        assert(is_digit(d[0]));
        assert(d.take(d.len() - 1) =~= Seq::<u8>::empty());
        assert(dec_val(d.take(d.len() - 1)) == 0);
        assert(dec_val(d) == (d[0] - 48) as nat);
        assert(dec_spec(dec_val(d)) =~= d);
    } else {
        let d2 = d.take(d.len() - 1);
        let l = (d.last() - 48) as nat;
        assert(is_digit(d.last()));
        assert(l < 10);
        lemma_dec_spec_dec_val(d2);
        lemma_dec_val_pos(d2);
        let v = dec_val(d);
        assert(v == dec_val(d2) * 10 + l);
        assert(v >= 10) by {
            assert(dec_val(d2) >= 1);
        }
        assert(v / 10 == dec_val(d2) && v % 10 == l) by (nonlinear_arith)
            requires
                v == dec_val(d2) * 10 + l,
                l < 10,
        ;
        assert(dec_spec(v) =~= dec_spec(dec_val(d2)) + seq![((v % 10) + 48) as u8]);
        assert(((v % 10) + 48) as u8 == d.last());
        assert(dec_spec(v) =~= d2 + seq![d.last()]);
        assert(d2 + seq![d.last()] =~= d);
    }
}

/// More digits never decrease the value.
pub proof fn lemma_dec_val_mono(d: Seq<u8>, i: int, j: int)
    requires
        0 <= i <= j <= d.len(),
    ensures
        dec_val(d.take(i)) <= dec_val(d.take(j)),
    decreases j - i,
{
    if i < j {
        lemma_dec_val_mono(d, i, j - 1);
        let dj = d.take(j);
        assert(dj.take(j - 1) =~= d.take(j - 1));
        assert(dec_val(dj) == dec_val(d.take(j - 1)) * 10 + (dj.last() - 48) as nat);
        assert(dec_val(d.take(j - 1)) * 10 >= dec_val(d.take(j - 1)));
    }
}

/// The number scanner accepts every spelled number followed by a non-digit
/// and returns exactly that number.
pub proof fn lemma_dec_prefix_roundtrip(n: u64, rest: Seq<u8>)
    requires
        rest.len() == 0 || !is_digit(rest[0]),
    ensures
        dec_prefix(dec_spec(n as nat) + rest) == Some((n as nat, dec_spec(n as nat).len() as int)),
{
    let d = dec_spec(n as nat);
    let t = d + rest;
    lemma_dec_digits(n as nat);
    lemma_dec_val_dec_spec(n as nat);
    lemma_digit_run_eq(t, d.len() as int);
    assert(t.take(d.len() as int) =~= d);
    assert(t[0] == d[0]);
}

/// The number scanner is strict: whatever it accepts is spelled canonically.
pub proof fn lemma_dec_prefix_canonical(t: Seq<u8>, n: nat, k: int)
    requires
        dec_prefix(t) == Some((n, k)),
    ensures
        1 <= k <= t.len(),
        t.take(k) == dec_spec(n),
        n <= u64::MAX,
        k == t.len() || !is_digit(t[k]),
{
    lemma_digit_run_props(t);
    let d = t.take(k);
    assert(d[0] == t[0]);
    lemma_dec_spec_dec_val(d);
}

/// The signed scanner accepts every spelled 32-bit value followed by a
/// non-digit.
pub proof fn lemma_int_prefix_roundtrip(v: i32, rest: Seq<u8>)
    requires
        rest.len() == 0 || !is_digit(rest[0]),
    ensures
        int_prefix(dec_i32_spec(v as int) + rest) == Some(
            (v as int, dec_i32_spec(v as int).len() as int),
        ),
{
    let t = dec_i32_spec(v as int) + rest;
    if v >= 0 {
        lemma_dec_prefix_roundtrip(v as u64, rest);
        lemma_dec_digits(v as nat);
        assert(t =~= dec_spec(v as nat) + rest);
        assert(t[0] != 45);
    } else {
        let m = (-(v as int)) as nat;
        lemma_dec_prefix_roundtrip(m as u64, rest);
        lemma_dec_digits(m);
        assert(t[0] == 45);
        assert(t.skip(1) =~= dec_spec(m) + rest);
        assert(m >= 1 && m <= 0x8000_0000);
    }
}

/// The signed scanner is strict.
pub proof fn lemma_int_prefix_canonical(t: Seq<u8>, v: int, k: int)
    requires
        int_prefix(t) == Some((v, k)),
    ensures
        1 <= k <= t.len(),
        t.take(k) == dec_i32_spec(v),
        -0x8000_0000 <= v < 0x8000_0000,
        k == t.len() || !is_digit(t[k]),
{
    if t.len() > 0 && t[0] == 45 {
        let (n, k2) = dec_prefix(t.skip(1)).unwrap();
        lemma_dec_prefix_canonical(t.skip(1), n, k2);
        assert(t.skip(1).take(k2) =~= dec_spec(n));
        assert(t.take(k) =~= seq![45u8] + t.skip(1).take(k2));
        if k < t.len() {
            assert(t[k] == t.skip(1)[k2]);
        }
    } else {
        let (n, k2) = dec_prefix(t).unwrap();
        lemma_dec_prefix_canonical(t, n, k2);
    }
}

/// Whether two byte slices hold the same bytes.
pub fn bytes_eq(a: &[u8], b: &[u8]) -> (r: bool)
    ensures
        r == (a@ == b@),
{
    if a.len() != b.len() {
        proof {
            assert(a@.len() != b@.len());
        }
        return false;
    }
    let mut i: usize = 0;
    while i < a.len()
        invariant
            i <= a.len(),
            a@.len() == b@.len(),
            forall|j: int| 0 <= j < i ==> a@[j] == b@[j],
        decreases a.len() - i,
    {
        if a[i] != b[i] {
            return false;
        }
        i = i + 1;
    }
    proof {
        assert(a@ =~= b@);
    }
    true
}

/// Appends the canonical escape of `s` to `out`.
pub fn push_escaped(out: &mut Vec<u8>, s: &[u8])
    ensures
        final(out)@ == old(out)@ + esc_spec(s@),
{
    let mut i: usize = 0;
    proof {
        assert(s@.skip(0) =~= s@);
        assert(out@ + esc_spec(s@) =~= old(out)@ + esc_spec(s@));
    }
    while i < s.len()
        invariant
            i <= s.len(),
            out@ + esc_spec(s@.skip(i as int)) == old(out)@ + esc_spec(s@),
        decreases s.len() - i,
    {
        let b = s[i];
        proof {
            let rem = s@.skip(i as int);
            assert(rem.len() >= 1 && rem[0] == b);
            assert(rem.skip(1) =~= s@.skip(i + 1));
            assert(esc_spec(rem) == esc_byte(b) + esc_spec(s@.skip(i + 1)));
        }
        if b == 34 {
            out.push(92);
            out.push(34);
        } else if b == 92 {
            out.push(92);
            out.push(92);
        } else if b < 32 {
            out.push(92);
            out.push(117);
            out.push(48);
            out.push(48);
            out.push(if b / 16 < 10 {
                b / 16 + 48
            } else {
                b / 16 + 87
            });
            out.push(if b % 16 < 10 {
                b % 16 + 48
            } else {
                b % 16 + 87
            });
        } else {
            out.push(b);
        }
        i = i + 1;
        proof {
            assert(out@ + esc_spec(s@.skip(i as int)) =~= old(out)@ + esc_spec(s@));
        }
    }
    proof {
        assert(s@.skip(s@.len() as int) =~= Seq::<u8>::empty());
        assert(out@ =~= out@ + esc_spec(s@.skip(s@.len() as int)));
    }
}

/// Appends the decimal spelling of `n` to `out`.
pub fn push_dec(out: &mut Vec<u8>, n: u64)
    ensures
        final(out)@ == old(out)@ + dec_spec(n as nat),
    decreases n,
{
    if n < 10 {
        out.push((n as u8) + 48);
        proof {
            assert(out@ =~= old(out)@ + dec_spec(n as nat));
        }
    } else {
        push_dec(out, n / 10);
        out.push(((n % 10) as u8) + 48);
        proof {
            assert(out@ =~= old(out)@ + dec_spec(n as nat));
        }
    }
}

/// Appends the decimal spelling of a signed 32-bit value to `out`.
pub fn push_dec_i32(out: &mut Vec<u8>, v: i32)
    ensures
        final(out)@ == old(out)@ + dec_i32_spec(v as int),
{
    if v < 0 {
        out.push(45);
        let m = -(v as i64);
        push_dec(out, m as u64);
        proof {
            assert(out@ =~= old(out)@ + dec_i32_spec(v as int));
        }
    } else {
        push_dec(out, v as u64);
    }
}

/// Scans an escaped string starting at `pos`, up to and including its
/// closing quote; mirrors [`unesc_prefix`] on the text from `pos`.
pub fn scan_string(t: &[u8], pos: usize) -> (r: Option<(Vec<u8>, usize)>)
    requires
        pos <= t.len(),
    ensures
        match r {
            Some((s, p)) => pos < p <= t@.len() && unesc_prefix(t@.skip(pos as int)) == Some(
                (s@, p - pos),
            ),
            None => unesc_prefix(t@.skip(pos as int)) is None,
        },
{
    let ghost whole = t@.skip(pos as int);
    let mut out: Vec<u8> = Vec::new();
    let mut i: usize = pos;
    proof {
        assert(out@ + whole =~= whole);
        if unesc_prefix(whole) is Some {
            let (s0, n0) = unesc_prefix(whole).unwrap();
            assert(out@ + s0 =~= s0);
        }
    }
    loop
        invariant
            pos <= i <= t.len(),
            unesc_prefix(whole) == match unesc_prefix(t@.skip(i as int)) {
                Some((s, n)) => Some((out@ + s, (i - pos) + n)),
                None => None::<(Seq<u8>, int)>,
            },
            whole == t@.skip(pos as int),
        decreases t.len() - i,
    {
        proof {
            let rem = t@.skip(i as int);
            assert(rem.len() == t@.len() - i);
        }
        if i >= t.len() {
            return None;
        }
        let c = t[i];
        proof {
            let rem = t@.skip(i as int);
            assert(rem[0] == c);
        }
        if c == 34 {
            proof {
                let rem = t@.skip(i as int);
                assert(unesc_prefix(rem) == Some((Seq::<u8>::empty(), 1int)));
                assert(out@ + Seq::<u8>::empty() =~= out@);
            }
            return Some((out, i + 1));
        } else if c == 92 {
            if t.len() - i < 2 {
                proof {
                    assert(t@.skip(i as int).len() < 2);
                }
                return None;
            }
            let c2 = t[i + 1];
            proof {
                let rem = t@.skip(i as int);
                assert(rem[1] == c2);
                assert(rem.skip(2) =~= t@.skip(i + 2));
            }
            if c2 == 34 || c2 == 92 {
                out.push(c2);
                proof {
                    let rem = t@.skip(i as int);
                    if unesc_prefix(t@.skip(i + 2)) is Some {
                        let (s2, n2) = unesc_prefix(t@.skip(i + 2)).unwrap();
                        assert(out@ + s2 =~= (out@.take(out@.len() - 1)) + (seq![c2] + s2));
                    }
                }
                i = i + 2;
            } else if c2 == 117 {
                if t.len() - i < 6 {
                    proof {
                        assert(t@.skip(i as int).len() < 6);
                    }
                    return None;
                }
                proof {
                    let rem = t@.skip(i as int);
                    assert(rem[2] == t@[i + 2] && rem[3] == t@[i + 3] && rem[4] == t@[i + 4]
                        && rem[5] == t@[i + 5]);
                    assert(rem.skip(6) =~= t@.skip(i + 6));
                }
                if t[i + 2] != 48 || t[i + 3] != 48 {
                    return None;
                }
                let h = match hex_val(t[i + 4]) {
                    Some(v) => v,
                    None => {
                        return None;
                    },
                };
                let l = match hex_val(t[i + 5]) {
                    Some(v) => v,
                    None => {
                        return None;
                    },
                };
                let b = h * 16 + l;
                if b >= 32 {
                    return None;
                }
                out.push(b);
                proof {
                    if unesc_prefix(t@.skip(i + 6)) is Some {
                        let (s2, n2) = unesc_prefix(t@.skip(i + 6)).unwrap();
                        assert(out@ + s2 =~= (out@.take(out@.len() - 1)) + (seq![b] + s2));
                    }
                }
                i = i + 6;
            } else {
                return None;
            }
        } else if c >= 32 {
            out.push(c);
            proof {
                let rem = t@.skip(i as int);
                assert(rem.skip(1) =~= t@.skip(i + 1));
                if unesc_prefix(t@.skip(i + 1)) is Some {
                    let (s2, n2) = unesc_prefix(t@.skip(i + 1)).unwrap();
                    assert(out@ + s2 =~= (out@.take(out@.len() - 1)) + (seq![c] + s2));
                }
            }
            i = i + 1;
        } else {
            return None;
        }
    }
}

/// The value of a lowercase hex digit.
fn hex_val(c: u8) -> (r: Option<u8>)
    ensures
        r == hexv(c),
{
    if 48 <= c && c <= 57 {
        Some(c - 48)
    } else if 97 <= c && c <= 102 {
        Some(c - 87)
    } else {
        None
    }
}

/// Scans an unsigned decimal number starting at `pos`; mirrors
/// [`dec_prefix`] on the text from `pos`.
pub fn scan_u64(t: &[u8], pos: usize) -> (r: Option<(u64, usize)>)
    requires
        pos <= t.len(),
    ensures
        match r {
            Some((n, p)) => pos < p <= t@.len() && dec_prefix(t@.skip(pos as int)) == Some(
                (n as nat, p - pos),
            ),
            None => dec_prefix(t@.skip(pos as int)) is None,
        },
{
    let ghost whole = t@.skip(pos as int);
    let mut j: usize = pos;
    while j < t.len() && 48 <= t[j] && t[j] <= 57
        invariant
            pos <= j <= t.len(),
            forall|m: int| pos <= m < j ==> is_digit(#[trigger] t@[m]),
        decreases t.len() - j,
    {
        j = j + 1;
    }
    proof {
        assert forall|m: int| 0 <= m < j - pos implies is_digit(#[trigger] whole[m]) by {
            assert(whole[m] == t@[pos + m]);
        }
        if j < t.len() {
            assert(whole[j - pos] == t@[j as int]);
            assert(!is_digit(t@[j as int]));
        }
        lemma_digit_run_eq(whole, j - pos);
    }
    if j == pos {
        return None;
    }
    if t[pos] == 48 && j - pos > 1 {
        proof {
            assert(whole[0] == t@[pos as int]);
        }
        return None;
    }
    let ghost d = whole.take(j - pos);
    let mut acc: u64 = 0;
    let mut m: usize = pos;
    proof {
        assert(d.take(0) =~= Seq::<u8>::empty());
    }
    while m < j
        invariant
            pos <= m <= j <= t.len(),
            d == whole.take(j - pos),
            whole == t@.skip(pos as int),
            forall|q: int| pos <= q < j ==> is_digit(#[trigger] t@[q]),
            acc as nat == dec_val(d.take(m - pos)),
            digit_run(whole) == j - pos,
        decreases j - m,
    {
        let dig = t[m] - 48;
        proof {
            let pre = d.take(m + 1 - pos);
            assert(pre.take(pre.len() - 1) =~= d.take(m - pos));
            assert(pre.last() == t@[m as int]);
            assert(is_digit(t@[m as int]));
            assert(dec_val(pre) == dec_val(d.take(m - pos)) * 10 + (t@[m as int] - 48) as nat);
        }
        if acc > (u64::MAX - (dig as u64)) / 10 {
            proof {
                let pre = d.take(m + 1 - pos);
                assert(acc as nat * 10 + dig as nat > u64::MAX) by (nonlinear_arith)
                    requires
                        acc > (u64::MAX - (dig as u64)) / 10,
                        dig < 10,
                ;
                lemma_dec_val_mono(d, m + 1 - pos, d.len() as int);
                assert(d.take(d.len() as int) =~= d);
                assert(dec_val(d) > u64::MAX);
            }
            return None;
        }
        proof {
            assert(acc * 10 + dig <= u64::MAX) by (nonlinear_arith)
                requires
                    acc <= (u64::MAX - (dig as u64)) / 10,
                    dig < 10,
            ;
        }
        acc = acc * 10 + (dig as u64);
        m = m + 1;
    }
    proof {
        assert(d.take(j - pos) =~= d);
        assert(dec_prefix(whole) == Some((acc as nat, (j - pos) as int)));
    }
    Some((acc, j))
}

/// Scans a signed decimal number within `i32` starting at `pos`; mirrors
/// [`int_prefix`] on the text from `pos`.
pub fn scan_i32(t: &[u8], pos: usize) -> (r: Option<(i32, usize)>)
    requires
        pos <= t.len(),
    ensures
        match r {
            Some((v, p)) => pos < p <= t@.len() && int_prefix(t@.skip(pos as int)) == Some(
                (v as int, p - pos),
            ),
            None => int_prefix(t@.skip(pos as int)) is None,
        },
{
    let ghost whole = t@.skip(pos as int);
    if pos < t.len() && t[pos] == 45 {
        proof {
            assert(whole[0] == 45);
            assert(whole.skip(1) =~= t@.skip(pos + 1));
        }
        match scan_u64(t, pos + 1) {
            Some((n, p)) => {
                if n == 0 || n > 0x8000_0000 {
                    return None;
                }
                let v = (-(n as i64)) as i32;
                Some((v, p))
            },
            None => None,
        }
    } else {
        proof {
            if whole.len() > 0 {
                assert(whole[0] == t@[pos as int]);
            }
        }
        match scan_u64(t, pos) {
            Some((n, p)) => {
                if n > 0x7fff_ffff {
                    return None;
                }
                Some((n as i32, p))
            },
            None => None,
        }
    }
}


/// Splitting a suffix of `t` at a known left part: the remainder starts
/// where the left part ends.
pub proof fn lemma_parts(t: Seq<u8>, p: int, a: Seq<u8>, b: Seq<u8>)
    requires
        0 <= p <= t.len(),
        t.skip(p) == a + b,
    ensures
        p + a.len() + b.len() == t.len(),
        t.skip(p + a.len()) == b,
        t.skip(p).take(a.len() as int) == a,
{
    assert(t.skip(p).len() == t.len() - p);
    assert forall|i: int| 0 <= i < b.len() implies t.skip(p + a.len())[i] == b[i] by {
        assert(t.skip(p)[a.len() + i] == (a + b)[a.len() + i]);
        assert(t.skip(p + a.len())[i] == t[p + a.len() + i]);
        assert(t.skip(p)[a.len() + i] == t[p + a.len() + i]);
    }
    assert(t.skip(p + a.len()) =~= b);
    assert forall|i: int| 0 <= i < a.len() implies t.skip(p).take(a.len() as int)[i] == a[i] by {
        assert(t.skip(p)[i] == (a + b)[i]);
    }
    assert(t.skip(p).take(a.len() as int) =~= a);
}

/// Joining two adjacent pieces of `t` back into one suffix.
pub proof fn lemma_join(t: Seq<u8>, p: int, a: Seq<u8>, b: Seq<u8>)
    requires
        0 <= p,
        p + a.len() + b.len() == t.len(),
        t.skip(p).take(a.len() as int) == a,
        t.skip(p + a.len()) == b,
    ensures
        t.skip(p) == a + b,
{
    assert forall|i: int| 0 <= i < a.len() + b.len() implies t.skip(p)[i] == (a + b)[i] by {
        if i < a.len() {
            assert(a[i] == t.skip(p).take(a.len() as int)[i]);
        } else {
            assert(b[i - a.len()] == t.skip(p + a.len())[i - a.len()]);
            assert(t.skip(p + a.len())[i - a.len()] == t[p + a.len() + (i - a.len())]);
            assert(t.skip(p)[i] == t[p + i]);
        }
    }
    assert(t.skip(p) =~= a + b);
}


/// Splitting a whole sequence at a known left part.
pub proof fn lemma_parts0(t: Seq<u8>, a: Seq<u8>, b: Seq<u8>)
    requires
        t == a + b,
    ensures
        a.len() + b.len() == t.len(),
        t.skip(a.len() as int) == b,
        t.take(a.len() as int) == a,
{
    assert(t.skip(a.len() as int) =~= b);
    assert(t.take(a.len() as int) =~= a);
}


/// A canonical escaped string with its closing quote, standing at `p` in
/// `t`: the scanner returns exactly it and stops right after the quote.
pub proof fn lemma_scan_str_at(t: Seq<u8>, p: int, x: Seq<u8>, rest: Seq<u8>)
    requires
        0 <= p <= t.len(),
        t.skip(p) == (esc_spec(x) + seq![34u8]) + rest,
    ensures
        unesc_prefix(t.skip(p)) == Some((x, esc_spec(x).len() as int + 1)),
        t.skip(p + esc_spec(x).len() + 1) == rest,
        p + esc_spec(x).len() + 1 + rest.len() == t.len(),
{
    lemma_esc_roundtrip(x, rest);
    lemma_parts(t, p, esc_spec(x) + seq![34u8], rest);
}

/// A spelled unsigned number standing at `p` in `t`, followed by a
/// non-digit: the scanner returns exactly it.
pub proof fn lemma_scan_dec_at(t: Seq<u8>, p: int, n: u64, rest: Seq<u8>)
    requires
        0 <= p <= t.len(),
        t.skip(p) == dec_spec(n as nat) + rest,
        rest.len() > 0,
        !is_digit(rest[0]),
    ensures
        dec_prefix(t.skip(p)) == Some((n as nat, dec_spec(n as nat).len() as int)),
        t.skip(p + dec_spec(n as nat).len()) == rest,
        p + dec_spec(n as nat).len() + rest.len() == t.len(),
{
    lemma_dec_prefix_roundtrip(n, rest);
    lemma_parts(t, p, dec_spec(n as nat), rest);
}

/// A spelled signed 32-bit number standing at `p` in `t`, followed by a
/// non-digit: the scanner returns exactly it.
pub proof fn lemma_scan_int_at(t: Seq<u8>, p: int, v: i32, rest: Seq<u8>)
    requires
        0 <= p <= t.len(),
        t.skip(p) == dec_i32_spec(v as int) + rest,
        rest.len() > 0,
        !is_digit(rest[0]),
    ensures
        int_prefix(t.skip(p)) == Some((v as int, dec_i32_spec(v as int).len() as int)),
        t.skip(p + dec_i32_spec(v as int).len()) == rest,
        p + dec_i32_spec(v as int).len() + rest.len() == t.len(),
{
    lemma_int_prefix_roundtrip(v, rest);
    lemma_parts(t, p, dec_i32_spec(v as int), rest);
}


/// Every byte of a signed decimal spelling is ASCII.
pub proof fn lemma_dec_i32_ascii(v: int)
    ensures
        forall|i: int| 0 <= i < dec_i32_spec(v).len() ==> dec_i32_spec(v)[i] < 128,
{
    if v >= 0 {
        lemma_dec_digits(v as nat);
        assert forall|i: int| 0 <= i < dec_i32_spec(v).len() implies dec_i32_spec(v)[i] < 128 by {
            assert(is_digit(dec_spec(v as nat)[i]));
        }
    } else {
        lemma_dec_digits((-v) as nat);
        assert forall|i: int| 0 <= i < dec_i32_spec(v).len() implies dec_i32_spec(v)[i] < 128 by {
            if i > 0 {
                assert(dec_i32_spec(v)[i] == dec_spec((-v) as nat)[i - 1]);
                assert(is_digit(dec_spec((-v) as nat)[i - 1]));
            }
        }
    }
}

} // verus!
