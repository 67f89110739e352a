//! The authentication interceptor: per request, extract, validate and
//! decode the bearer token, and hand the verified claims onward.
//!
//! The state machine per request is fixed: no Authorization header is a
//! terminal rejection; a header that does not carry the `Bearer ` scheme is
//! a terminal rejection; and a token the codec rejects is a terminal
//! rejection. Only then does the request proceed, carrying the decoded
//! claims. The interceptor never touches the account store: the token is
//! self-contained.

use vstd::prelude::*;
use vstd::string::StringSliceAdditionalSpecFns;

use crate::b64::{b64_spec, b64v};
use crate::claims::{Claims, ClaimsV};
use crate::jwt::{
    header_bytes, lemma_token_roundtrip, parse_token_bytes, parse_token_spec, signing_input,
    token_chars, token_spec,
};

verus! {

/// A gateway rejection: each maps to HTTP status 401 and one message.
#[derive(Debug, Clone, PartialEq, Eq)]
pub enum AuthReject {
    /// No Authorization header was presented.
    MissingHeader,
    /// The header does not carry the `Bearer ` scheme, or is not readable
    /// header text.
    BadScheme,
    /// The bearer token is malformed, tampered with, or expired.
    BadToken,
    /// No verified identity is attached, or its role does not match.
    InsufficientPermissions,
}

impl AuthReject {
    /// The message of this rejection.
    pub open spec fn spec_message(&self) -> Seq<char> {
        match self {
            AuthReject::MissingHeader => "Authorization header not found"@,
            AuthReject::BadScheme => "Invalid authorization header format"@,
            AuthReject::BadToken => "Invalid token format. Please log in again."@,
            AuthReject::InsufficientPermissions => "Insufficient permissions."@,
        }
    }

    /// The message shown to the client.
    pub fn message(&self) -> (r: String)
        ensures
            r@ == self.spec_message(),
    {
        match self {
            AuthReject::MissingHeader => "Authorization header not found".to_owned(),
            AuthReject::BadScheme => "Invalid authorization header format".to_owned(),
            AuthReject::BadToken => "Invalid token format. Please log in again.".to_owned(),
            AuthReject::InsufficientPermissions => "Insufficient permissions.".to_owned(),
        }
    }

    /// The HTTP status under which every gateway rejection is reported.
    pub fn status_code(&self) -> (r: u16)
        ensures
            r == 401,
    {
        401
    }
}

/// `Bearer ` — the authorization scheme prefix, space included.
pub open spec fn bearer_lit() -> Seq<u8> {
    seq![66u8, 101u8, 97u8, 114u8, 101u8, 114u8, 32u8]
}

/// The header value with every leading `Bearer ` removed, as
/// `trim_start_matches` strips a repeated prefix.
pub open spec fn strip_bearer(h: Seq<u8>) -> Seq<u8>
    decreases h.len(),
{
    if h.len() >= 7 && h.take(7) == bearer_lit() {
        strip_bearer(h.skip(7))
    } else {
        h
    }
}

/// An ASCII whitespace byte, as `str::trim` treats ASCII text.
pub open spec fn is_ws(b: u8) -> bool {
    b == 32 || (9 <= b && b <= 13)
}

/// The text without its leading whitespace.
pub open spec fn trim_start(t: Seq<u8>) -> Seq<u8>
    decreases t.len(),
{
    if t.len() > 0 && is_ws(t[0]) {
        trim_start(t.skip(1))
    } else {
        t
    }
}

/// The text without its trailing whitespace.
pub open spec fn trim_end(t: Seq<u8>) -> Seq<u8>
    decreases t.len(),
{
    if t.len() > 0 && is_ws(t[t.len() - 1]) {
        trim_end(t.take(t.len() - 1))
    } else {
        t
    }
}

/// The text without leading and trailing whitespace.
pub open spec fn trim_ws(t: Seq<u8>) -> Seq<u8> {
    trim_end(trim_start(t))
}

/// The header value an interceptor sees: absent, or some header text.
pub open spec fn header_view(h: Option<&str>) -> Option<Seq<u8>> {
    match h {
        Some(s) => Some(s.spec_bytes()),
        None => None,
    }
}

/// The whole decision of the authentication interceptor: which requests
/// are rejected with which message, and which claims are attached.
pub open spec fn authenticate_spec(header: Option<Seq<u8>>, secret: Seq<u8>, now: u64) -> Result<
    ClaimsV,
    AuthReject,
> {
    match header {
        None => Err(AuthReject::MissingHeader),
        Some(h) => if !(h.len() >= 7 && h.take(7) == bearer_lit()) {
            Err(AuthReject::BadScheme)
        } else {
            match parse_token_spec(trim_ws(strip_bearer(h)), secret, now) {
                Some(c) => Ok(c),
                None => Err(AuthReject::BadToken),
            }
        },
    }
}

/// Leading whitespace ends exactly where the whitespace ends.
proof fn lemma_trim_start_eq(t: Seq<u8>, k: int)
    requires
        0 <= k <= t.len(),
        forall|j: int| 0 <= j < k ==> is_ws(#[trigger] t[j]),
        k == t.len() || !is_ws(t[k]),
    ensures
        trim_start(t) == t.skip(k),
    decreases k,
{
    if k == 0 {
        assert(t.skip(0) =~= t);
    } else {
        assert(is_ws(t[0]));
        lemma_trim_start_eq(t.skip(1), k - 1);
        assert(t.skip(1).skip(k - 1) =~= t.skip(k));
    }
}

/// Trailing whitespace begins exactly where the whitespace begins.
proof fn lemma_trim_end_eq(t: Seq<u8>, k: int)
    requires
        0 <= k <= t.len(),
        forall|j: int| k <= j < t.len() ==> is_ws(#[trigger] t[j]),
        k == 0 || !is_ws(t[k - 1]),
    ensures
        trim_end(t) == t.take(k),
    decreases t.len(),
{
    if k == t.len() {
        if t.len() == 0 {
            assert(t.take(0) =~= t);
        } else {
            assert(!is_ws(t[t.len() - 1]));
            assert(t.take(t.len() as int) =~= t);
        }
    } else {
        assert(is_ws(t[t.len() - 1]));
        lemma_trim_end_eq(t.take(t.len() - 1), k);
        assert(t.take(t.len() - 1).take(k) =~= t.take(k));
    }
}

/// A token issued under a secret and presented as `Bearer <token>` passes
/// the authentication interceptor whole: the scheme check accepts the
/// header, stripping the scheme and trimming whitespace leave exactly the
/// token, and the codec accepts it. The token-byte premise is what
/// [`crate::jwt::generate_token_from_claims`] ensures of every token it
/// issues.
#[verifier::rlimit(100)]
#[verifier::spinoff_prover]
pub proof fn lemma_bearer_token_authenticates(c: ClaimsV, secret: Seq<u8>, now: u64)
    requires
        c.exp > now,
        token_chars(token_spec(c, secret)),
    ensures
        authenticate_spec(Some(bearer_lit() + token_spec(c, secret)), secret, now) == Ok::<
            ClaimsV,
            AuthReject,
        >(c),
{
    let t = token_spec(c, secret);
    let h = bearer_lit() + t;
    crate::jsontext::lemma_parts0(h, bearer_lit(), t);
    assert(h.take(7) == bearer_lit() && h.skip(7) == t);
    reveal(crate::jwt::header_bytes);
    let hb = header_bytes();
    assert(hb.len() == 27 && hb[0] == 123);
    let bh = b64_spec(hb);
    assert(bh.len() >= 4 && bh[0] == 101) by {
        assert(hb[0] / 4 == 30);
        assert(crate::b64::b64c(30) == 101);
    }
    assert(t[0] == 101) by {
        assert(signing_input(c)[0] == bh[0]);
        assert(t[0] == signing_input(c)[0]);
    }
    assert(strip_bearer(t) == t) by {
        if t.len() >= 7 {
            assert(t.take(7)[0] == t[0]);
            assert(bearer_lit()[0] == 66);
            assert(t.take(7) != bearer_lit());
        }
    }
    assert(strip_bearer(h) == t);
    assert(trim_start(t) == t) by {
        assert(!is_ws(t[0]));
        lemma_trim_start_eq(t, 0);
        assert(t.skip(0) =~= t);
    }
    assert(trim_end(t) == t) by {
        assert(t.len() >= 1);
        assert(b64v(t[t.len() - 1]) is Some || t[t.len() - 1] == 46);
        assert(!is_ws(t[t.len() - 1]));
        lemma_trim_end_eq(t, t.len() as int);
        assert(t.take(t.len() as int) =~= t);
    }
    assert(trim_ws(strip_bearer(h)) == t);
    lemma_token_roundtrip(c, secret, now);
    assert(h.len() >= 7);
}

/// Authenticates one request from its Authorization header: the full
/// interceptor decision, exactly as [`authenticate_spec`] states it.
#[verifier::rlimit(100)]
#[verifier::spinoff_prover]
pub fn authenticate(header: Option<&str>, secret: &[u8], now: u64) -> (r: Result<
    Claims,
    AuthReject,
>)
    ensures
        match r {
            Ok(c) => authenticate_spec(header_view(header), secret@, now) == Ok::<
                ClaimsV,
                AuthReject,
            >(c@),
            Err(e) => authenticate_spec(header_view(header), secret@, now) == Err::<
                ClaimsV,
                AuthReject,
            >(e),
        },
{
    let h = match header {
        Some(h) => h,
        None => {
            return Err(AuthReject::MissingHeader);
        },
    };
    let hb = h.as_bytes();
    let blit: [u8; 7] = [66, 101, 97, 114, 101, 114, 32];
    proof {
        assert(blit@ =~= bearer_lit());
        assert(hb@.skip(0) =~= hb@);
    }
    if !crate::claims::has_lit(hb, 0, blit.as_slice()) {
        proof {
            if hb@.len() >= 7 {
                assert(hb@.skip(0).take(7) =~= hb@.take(7));
            }
        }
        return Err(AuthReject::BadScheme);
    }
    proof {
        assert(hb@.skip(0).take(7) =~= hb@.take(7));
    }
    let mut pos: usize = 0;
    loop
        invariant
            pos <= hb.len(),
            blit@ == bearer_lit(),
            strip_bearer(hb@) == strip_bearer(hb@.skip(pos as int)),
        ensures
            pos <= hb.len(),
            strip_bearer(hb@) == hb@.skip(pos as int),
        decreases hb.len() - pos,
    {
        if hb.len() - pos < 7 {
            proof {
                assert(hb@.skip(pos as int).len() < 7);
            }
            break;
        }
        if !crate::claims::has_lit(hb, pos, blit.as_slice()) {
            proof {
                let w = hb@.skip(pos as int);
                assert(w.take(7) == w.take(blit@.len() as int));
            }
            break;
        }
        proof {
            let w = hb@.skip(pos as int);
            assert(w.take(7) =~= w.take(blit@.len() as int));
            assert(w.skip(7) =~= hb@.skip(pos + 7));
        }
        pos = pos + 7;
    }
    let mut a: usize = pos;
    while a < hb.len() && (hb[a] == 32 || (9 <= hb[a] && hb[a] <= 13))
        invariant
            pos <= a <= hb.len(),
            forall|j: int| pos <= j < a ==> is_ws(#[trigger] hb@[j]),
        decreases hb.len() - a,
    {
        a = a + 1;
    }
    let mut b: usize = hb.len();
    while b > a && (hb[b - 1] == 32 || (9 <= hb[b - 1] && hb[b - 1] <= 13))
        invariant
            a <= b <= hb.len(),
            forall|j: int| b <= j < hb@.len() ==> is_ws(#[trigger] hb@[j]),
        decreases b,
    {
        b = b - 1;
    }
    let tok = vstd::slice::slice_subrange(hb, a, b);
    proof {
        let w = hb@.skip(pos as int);
        assert forall|j: int| 0 <= j < a - pos implies is_ws(#[trigger] w[j]) by {
            assert(w[j] == hb@[pos + j]);
        }
        if a < hb@.len() {
            assert(w[a - pos] == hb@[a as int]);
        }
        lemma_trim_start_eq(w, a - pos);
        assert(w.skip(a - pos) =~= hb@.skip(a as int));
        let u = hb@.skip(a as int);
        assert forall|j: int| b - a <= j < u.len() implies is_ws(#[trigger] u[j]) by {
            assert(u[j] == hb@[a + j]);
        }
        if b > a {
            assert(u[b - a - 1] == hb@[b - 1]);
        }
        lemma_trim_end_eq(u, b - a);
        assert(u.take(b - a) =~= hb@.subrange(a as int, b as int));
        assert(trim_ws(strip_bearer(hb@)) == hb@.subrange(a as int, b as int));
    }
    match parse_token_bytes(tok, secret, now) {
        Ok(c) => Ok(c),
        Err(_) => Err(AuthReject::BadToken),
    }
}

/// The authentication interceptor's construction-time half: it holds the
/// process-wide signing secret, injected once at startup.
pub struct AuthMiddleware {
    /// The signing secret shared by every request.
    pub secret: Vec<u8>,
}

/// The per-route service of the authentication interceptor.
pub struct AuthMiddlewareService {
    /// The signing secret shared by every request.
    pub secret: Vec<u8>,
}

impl AuthMiddleware {
    /// Builds the interceptor around the process-wide signing secret.
    pub fn new(secret: Vec<u8>) -> (r: Self)
        ensures
            r.secret@ == secret@,
    {
        AuthMiddleware { secret }
    }

    /// Wraps one route: the service that authenticates its requests.
    pub fn new_transform(&self) -> (r: AuthMiddlewareService)
        ensures
            r.secret@ == self.secret@,
    {
        AuthMiddlewareService { secret: clone_bytes(&self.secret) }
    }
}

/// A copy of a byte vector, element for element.
fn clone_bytes(v: &Vec<u8>) -> (r: Vec<u8>)
    ensures
        r@ == v@,
{
    let mut out: Vec<u8> = Vec::new();
    let mut i: usize = 0;
    while i < v.len()
        invariant
            i <= v@.len(),
            out@ == v@.take(i as int),
        decreases v@.len() - i,
    {
        out.push(v[i]);
        proof {
            assert(v@.take(i + 1) =~= v@.take(i as int).push(v@[i as int]));
        }
        i = i + 1;
    }
    proof {
        assert(v@.take(v@.len() as int) =~= v@);
    }
    out
}

impl AuthMiddlewareService {
    /// Handles one request's Authorization header at the clock reading
    /// given: the full interceptor decision.
    pub fn call_at(&self, header: Option<&str>, now: u64) -> (r: Result<Claims, AuthReject>)
        ensures
            match r {
                Ok(c) => authenticate_spec(header_view(header), self.secret@, now) == Ok::<
                    ClaimsV,
                    AuthReject,
                >(c@),
                Err(e) => authenticate_spec(header_view(header), self.secret@, now) == Err::<
                    ClaimsV,
                    AuthReject,
                >(e),
            },
    {
        authenticate(header, self.secret.as_slice(), now)
    }

    /// Handles one request's Authorization header at the current clock
    /// reading.
    pub fn call(&self, header: Option<&str>) -> (r: Result<Claims, AuthReject>)
        ensures
            match r {
                Ok(c) => exists|now: u64|
                    authenticate_spec(header_view(header), self.secret@, now) == Ok::<
                        ClaimsV,
                        AuthReject,
                    >(c@),
                Err(e) => exists|now: u64|
                    authenticate_spec(header_view(header), self.secret@, now) == Err::<
                        ClaimsV,
                        AuthReject,
                    >(e),
            },
    {
        let now = crate::jwt::now_ts();
        self.call_at(header, now)
    }
}

} // verus!
