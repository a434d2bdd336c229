//! HS256 JSON Web Tokens: the signature check, the expiry check, and the
//! making of a token.
//!
//! A token is `header.payload.signature`, each part base64url without
//! padding; the signature is HMAC-SHA256 over `header.payload`.

use vstd::prelude::*;
use vstd::utf8::encode_utf8;
use base64::Engine;
use crate::json::{jarr, jfield, jnull, jobj, json_array, json_quote, json_quoted, JsonObj};
use crate::pm::tarball::base64;
use crate::text::{dec, lemma_split_on_prefix, owned, push_char, push_str, split_on, str_split};

verus! {

/// Why a token was refused.
#[derive(Debug)]
pub enum JwtError {
    MalformedToken,
    InvalidSignature,
    Expired,
    InvalidPayload(String),
}

/// The message of an error.
pub open spec fn jwt_error_text(e: JwtError) -> Seq<char> {
    match e {
        JwtError::MalformedToken => "Malformed JWT token"@,
        JwtError::InvalidSignature => "Invalid JWT signature"@,
        JwtError::Expired => "JWT token expired"@,
        JwtError::InvalidPayload(msg) => "Invalid JWT payload: "@ + msg@,
    }
}

impl JwtError {
    /// The message of the error.
    pub fn to_string(&self) -> (r: String)
        ensures
            r@ == jwt_error_text(*self),
    {
        match self {
            JwtError::MalformedToken => String::from_str("Malformed JWT token"),
            JwtError::InvalidSignature => String::from_str("Invalid JWT signature"),
            JwtError::Expired => String::from_str("JWT token expired"),
            JwtError::InvalidPayload(msg) => {
                let mut r = String::from_str("Invalid JWT payload: ");
                push_str(&mut r, msg.as_str());
                r
            },
        }
    }
}

/// The claims a token carries.
pub struct JwtClaims {
    pub sub: String,
    pub tenant_id: Option<String>,
    pub roles: Vec<String>,
    pub exp: u64,
    pub iat: u64,
}

// ---------------------------------------------------------------------------
// base64url and HMAC-SHA256
// ---------------------------------------------------------------------------

/// A base64 char in the URL-safe alphabet: `+` is `-`, `/` is `_`, and the
/// `=` padding is dropped.
pub open spec fn url_digit(c: char) -> Seq<char> {
    if c == '+' {
        seq!['-']
    } else if c == '/' {
        seq!['_']
    } else if c == '=' {
        seq![]
    } else {
        seq![c]
    }
}

pub open spec fn url_safe(s: Seq<char>) -> Seq<char>
    decreases s.len(),
{
    if s.len() == 0 {
        seq![]
    } else {
        url_digit(s[0]) + url_safe(s.drop_first())
    }
}

/// base64url without padding (RFC 4648, section 5) of the bytes.
pub open spec fn b64url(b: Seq<u8>) -> Seq<char> {
    url_safe(base64(b))
}

/// What `URL_SAFE_NO_PAD.decode` gives for a text: the bytes, or `None`
/// where the text is no base64url.
pub uninterp spec fn b64url_decoded(s: Seq<char>) -> Option<Seq<u8>>;

/// HMAC-SHA256 of the data under the key (RFC 2104): the 32-byte tag.
pub uninterp spec fn hmac_sha256(key: Seq<u8>, data: Seq<u8>) -> Seq<u8>;

pub open spec fn opt_bytes(o: Option<Vec<u8>>) -> Option<Seq<u8>> {
    match o {
        Some(b) => Some(b@),
        None => None,
    }
}

/// `base64::engine::general_purpose::URL_SAFE_NO_PAD.encode`: the base64url
/// text of the bytes, without `=` padding.
#[verifier::external_body]
fn b64url_encode(bytes: &[u8]) -> (r: String)
    ensures
        r@ == b64url(bytes@),
{
    base64::engine::general_purpose::URL_SAFE_NO_PAD.encode(bytes)
}

/// `base64::engine::general_purpose::URL_SAFE_NO_PAD.decode`: the bytes that
/// the text encodes, `None` where it is no unpadded base64url; the
/// encoding of some bytes decodes to those bytes.
#[verifier::external_body]
fn b64url_decode(s: &str) -> (r: Option<Vec<u8>>)
    ensures
        opt_bytes(r) == b64url_decoded(s@),
        forall|b: Seq<u8>| s@ == b64url(b) ==> opt_bytes(r) == Some(b),
{
    base64::engine::general_purpose::URL_SAFE_NO_PAD.decode(s).ok()
}

/// `ring::hmac::sign` with an `HMAC_SHA256` key: the tag of the data. (It
/// panics only for inputs beyond 2^61 bytes, which no machine holds.)
#[verifier::external_body]
fn hmac_sign(key: &[u8], data: &[u8]) -> (t: Vec<u8>)
    ensures
        t@ == hmac_sha256(key@, data@),
{
    let k = ring::hmac::Key::new(ring::hmac::HMAC_SHA256, key);
    ring::hmac::sign(&k, data).as_ref().to_vec()
}

/// `ring::hmac::verify` with an `HMAC_SHA256` key: whether the tag of the
/// data equals the given tag.
#[verifier::external_body]
fn hmac_verify(key: &[u8], data: &[u8], tag: &[u8]) -> (ok: bool)
    ensures
        ok == (hmac_sha256(key@, data@) == tag@),
{
    let k = ring::hmac::Key::new(ring::hmac::HMAC_SHA256, key);
    ring::hmac::verify(&k, data, tag).is_ok()
}

// ---------------------------------------------------------------------------
// Checking a token
// ---------------------------------------------------------------------------

pub open spec fn bytes_result(r: Result<Vec<u8>, JwtError>) -> Result<Seq<u8>, JwtError> {
    match r {
        Ok(b) => Ok(b@),
        Err(e) => Err(e),
    }
}

/// The signature check of a token: three `.`-separated parts, a decodable
/// signature that is the tag of `header.payload` under the secret, and a
/// decodable payload, whose bytes it gives.
pub open spec fn signature_check(token: Seq<char>, secret: Seq<u8>) -> Result<Seq<u8>, JwtError> {
    let parts = split_on(token, '.');
    if parts.len() != 3 {
        Err(JwtError::MalformedToken)
    } else {
        match b64url_decoded(parts[2]) {
            None => Err(JwtError::MalformedToken),
            Some(sig) => if hmac_sha256(secret, encode_utf8(parts[0] + seq!['.'] + parts[1]))
                != sig {
                Err(JwtError::InvalidSignature)
            } else {
                match b64url_decoded(parts[1]) {
                    None => Err(JwtError::MalformedToken),
                    Some(p) => Ok(p),
                }
            },
        }
    }
}

/// Checks the token's form and signature and gives the payload's bytes (the
/// claims' JSON). A token that `create_hs256` made with the same secret
/// passes, with the claims' JSON as its payload.
pub fn verify_signature(token: &str, secret: &[u8]) -> (r: Result<Vec<u8>, JwtError>)
    ensures
        bytes_result(r) == signature_check(token@, secret@),
        forall|c: JwtClaims|
            token@ == #[trigger] token_of(c, secret@) ==> bytes_result(r) == Ok::<Seq<u8>, JwtError>(
                encode_utf8(claims_json(c)),
            ),
        forall|c: JwtClaims, key: Seq<u8>|
            token@ == #[trigger] token_of(c, key) && hmac_sha256(secret@, encode_utf8(signing_input(c)))
                != hmac_sha256(key, encode_utf8(signing_input(c))) ==> r == Err::<Vec<u8>, JwtError>(
                JwtError::InvalidSignature,
            ),
{
    let parts = str_split(token, '.');
    let ghost pv = parts@.map_values(|p: String| p@);
    if parts.len() != 3 {
        proof {
            assert forall|c: JwtClaims| token@ == #[trigger] token_of(c, secret@) implies false by {
                lemma_token_parts(c, secret@);
            }
            assert forall|c: JwtClaims, key: Seq<u8>| token@ == #[trigger] token_of(c, key) implies false by {
                lemma_token_parts(c, key);
            }
        }
        return Err(JwtError::MalformedToken);
    }
    assert(pv[0] == parts[0]@ && pv[1] == parts[1]@ && pv[2] == parts[2]@);
    let sig_r = b64url_decode(parts[2].as_str());
    let pay_r = b64url_decode(parts[1].as_str());
    proof {
        assert forall|c: JwtClaims| token@ == #[trigger] token_of(c, secret@) implies signature_check(
            token@,
            secret@,
        ) == Ok::<Seq<u8>, JwtError>(encode_utf8(claims_json(c))) by {
            lemma_token_parts(c, secret@);
            let tag = hmac_sha256(secret@, encode_utf8(signing_input(c)));
            assert(parts[2]@ == b64url(tag));
            assert(parts[1]@ == b64url(encode_utf8(claims_json(c))));
            lemma_created_token_check(c, secret@);
        }
        assert forall|c: JwtClaims, key: Seq<u8>|
            token@ == #[trigger] token_of(c, key) && hmac_sha256(secret@, encode_utf8(signing_input(c)))
                != hmac_sha256(key, encode_utf8(signing_input(c))) implies sig_r is Some && sig_r.unwrap()@
            == hmac_sha256(key, encode_utf8(signing_input(c))) && pv[0] + seq!['.'] + pv[1] == signing_input(c) by {
            lemma_token_parts(c, key);
            let tag = hmac_sha256(key, encode_utf8(signing_input(c)));
            assert(parts[2]@ == b64url(tag));
            let q = split_on(token_of(c, key), '.');
            assert(q[0] + seq!['.'] + q[1] =~= signing_input(c));
        }
    }
    let sig = match sig_r {
        Some(b) => b,
        None => {
            return Err(JwtError::MalformedToken);
        },
    };
    let mut input = owned(parts[0].as_str());
    push_char(&mut input, '.');
    push_str(&mut input, parts[1].as_str());
    assert(input@ == pv[0] + seq!['.'] + pv[1]);
    if !hmac_verify(secret, input.as_str().as_bytes(), sig.as_slice()) {
        return Err(JwtError::InvalidSignature);
    }
    match pay_r {
        Some(p) => Ok(p),
        None => Err(JwtError::MalformedToken),
    }
}

/// The signature check of a token that `create_hs256` made, given that each
/// of its parts decodes to what it encodes.
proof fn lemma_created_token_check(c: JwtClaims, secret: Seq<u8>)
    requires
        b64url_decoded(b64url(encode_utf8(claims_json(c)))) == Some(encode_utf8(claims_json(c))),
        b64url_decoded(b64url(hmac_sha256(secret, encode_utf8(signing_input(c))))) == Some(
            hmac_sha256(secret, encode_utf8(signing_input(c))),
        ),
    ensures
        signature_check(token_of(c, secret), secret) == Ok::<Seq<u8>, JwtError>(
            encode_utf8(claims_json(c)),
        ),
{
    lemma_token_parts(c, secret);
    let parts = split_on(token_of(c, secret), '.');
    assert(parts[0] + seq!['.'] + parts[1] =~= signing_input(c));
}

/// The expiry check: a token whose `exp` is set and lies before `now` (in
/// seconds since the epoch) is refused.
pub fn check_expiry(claims: JwtClaims, now: u64) -> (r: Result<JwtClaims, JwtError>)
    ensures
        claims.exp > 0 && now > claims.exp ==> r matches Err(JwtError::Expired),
        !(claims.exp > 0 && now > claims.exp) ==> r == Ok::<JwtClaims, JwtError>(claims),
{
    if claims.exp > 0 && now > claims.exp {
        Err(JwtError::Expired)
    } else {
        Ok(claims)
    }
}

// ---------------------------------------------------------------------------
// Making a token
// ---------------------------------------------------------------------------

/// The header: `{"alg":"HS256","typ":"JWT"}`.
pub open spec fn header_json() -> Seq<char> {
    "{\"alg\":\"HS256\",\"typ\":\"JWT\"}"@
}

pub open spec fn opt_str_json(o: Option<String>) -> Seq<char> {
    match o {
        Some(s) => json_quote(s@),
        None => jnull(),
    }
}

/// The payload: the claims as a JSON object with its keys in order.
pub open spec fn claims_json(c: JwtClaims) -> Seq<char> {
    jobj(
        seq![
            jfield("exp"@, dec(c.exp as nat)),
            jfield("iat"@, dec(c.iat as nat)),
            jfield("roles"@, jarr(c.roles@.map_values(|r: String| json_quote(r@)))),
            jfield("sub"@, json_quote(c.sub@)),
            jfield("tenant_id"@, opt_str_json(c.tenant_id)),
        ],
    )
}

/// `header.payload`, each base64url.
pub open spec fn signing_input(c: JwtClaims) -> Seq<char> {
    b64url(encode_utf8(header_json())) + seq!['.'] + b64url(encode_utf8(claims_json(c)))
}

/// The token of the claims under the secret.
pub open spec fn token_of(c: JwtClaims, secret: Seq<u8>) -> Seq<char> {
    signing_input(c) + seq!['.'] + b64url(hmac_sha256(secret, encode_utf8(signing_input(c))))
}

proof fn lemma_url_safe_no_dot(s: Seq<char>)
    requires
        !s.contains('.'),
    ensures
        !url_safe(s).contains('.'),
    decreases s.len(),
{
    if s.len() > 0 {
        assert(!s.drop_first().contains('.')) by {
            if s.drop_first().contains('.') {
                let j = choose|j: int| 0 <= j < s.drop_first().len() && s.drop_first()[j] == '.';
                assert(s[j + 1] == '.');
            }
        }
        lemma_url_safe_no_dot(s.drop_first());
        let a = url_digit(s[0]);
        let b = url_safe(s.drop_first());
        assert(!a.contains('.'));
        assert forall|j: int| 0 <= j < (a + b).len() implies (a + b)[j] != '.' by {
            if j >= a.len() {
                assert((a + b)[j] == b[j - a.len()]);
            }
        }
    }
}

proof fn lemma_b64_digit_no_dot(v: nat)
    requires
        v < 64,
    ensures
        b64_digit_ok(v),
{
}

pub open spec fn b64_digit_ok(v: nat) -> bool {
    crate::pm::tarball::b64_digit(v) != '.'
}

proof fn lemma_base64_no_dot(b: Seq<u8>)
    ensures
        !base64(b).contains('.'),
    decreases b.len(),
{
    if b.len() > 0 {
        let g = if b.len() <= 3 { b } else { b.take(3) };
        let b0 = g[0] as nat;
        let b1 = if g.len() > 1 { g[1] as nat } else { 0 };
        let b2 = if g.len() > 2 { g[2] as nat } else { 0 };
        lemma_b64_digit_no_dot(b0 / 4);
        lemma_b64_digit_no_dot((b0 % 4) * 16 + b1 / 16);
        lemma_b64_digit_no_dot((b1 % 16) * 4 + b2 / 64);
        lemma_b64_digit_no_dot(b2 % 64);
        let grp = crate::pm::tarball::b64_group(g);
        assert(!grp.contains('.'));
        if b.len() > 3 {
            lemma_base64_no_dot(b.skip(3));
            let rest = base64(b.skip(3));
            assert forall|j: int| 0 <= j < (grp + rest).len() implies (grp + rest)[j] != '.' by {
                if j >= grp.len() {
                    assert((grp + rest)[j] == rest[j - grp.len()]);
                }
            }
        }
    }
}

proof fn lemma_b64url_no_dot(b: Seq<u8>)
    ensures
        !b64url(b).contains('.'),
{
    lemma_base64_no_dot(b);
    lemma_url_safe_no_dot(base64(b));
}

/// A token splits on `.` into its header, payload and signature.
proof fn lemma_token_parts(c: JwtClaims, secret: Seq<u8>)
    ensures
        split_on(token_of(c, secret), '.') == seq![
            b64url(encode_utf8(header_json())),
            b64url(encode_utf8(claims_json(c))),
            b64url(hmac_sha256(secret, encode_utf8(signing_input(c)))),
        ],
{
    let h = b64url(encode_utf8(header_json()));
    let p = b64url(encode_utf8(claims_json(c)));
    let s = b64url(hmac_sha256(secret, encode_utf8(signing_input(c))));
    lemma_b64url_no_dot(encode_utf8(header_json()));
    lemma_b64url_no_dot(encode_utf8(claims_json(c)));
    lemma_b64url_no_dot(hmac_sha256(secret, encode_utf8(signing_input(c))));
    assert(token_of(c, secret) =~= h + seq!['.'] + (p + seq!['.'] + s));
    lemma_split_on_prefix(h, '.', p + seq!['.'] + s);
    lemma_split_on_prefix(p, '.', s);
    assert(split_on(s, '.') == seq![s]);
    assert(seq![h] + (seq![p] + seq![s]) =~= seq![h, p, s]);
}

/// The JSON array of the roles.
fn roles_json(roles: &Vec<String>) -> (r: String)
    ensures
        r@ == jarr(roles@.map_values(|x: String| json_quote(x@))),
{
    let mut items: Vec<String> = Vec::new();
    let mut i: usize = 0;
    while i < roles.len()
        invariant
            i <= roles.len(),
            items@.map_values(|x: String| x@) =~= roles@.take(i as int).map_values(
                |x: String| json_quote(x@),
            ),
        decreases roles.len() - i,
    {
        let ghost before = items@.map_values(|x: String| x@);
        items.push(json_quoted(roles[i].as_str()));
        assert(items@.map_values(|x: String| x@) =~= before.push(json_quote(roles@[i as int]@)));
        assert(roles@.take(i + 1) =~= roles@.take(i as int).push(roles@[i as int]));
        i += 1;
    }
    assert(roles@.take(roles.len() as int) =~= roles@);
    json_array(&items)
}

/// The claims' JSON.
fn claims_text(claims: &JwtClaims) -> (r: String)
    ensures
        r@ == claims_json(*claims),
{
    let mut o = JsonObj::new();
    o.num_field("exp", claims.exp);
    o.num_field("iat", claims.iat);
    let roles = roles_json(&claims.roles);
    o.raw_field("roles", roles.as_str());
    o.str_field("sub", claims.sub.as_str());
    match &claims.tenant_id {
        Some(t) => o.str_field("tenant_id", t.as_str()),
        None => o.null_field("tenant_id"),
    }
    let r = o.finish();
    proof {
        assert(o.fields@ =~= seq![
            jfield("exp"@, dec(claims.exp as nat)),
            jfield("iat"@, dec(claims.iat as nat)),
            jfield("roles"@, jarr(claims.roles@.map_values(|x: String| json_quote(x@)))),
            jfield("sub"@, json_quote(claims.sub@)),
            jfield("tenant_id"@, opt_str_json(claims.tenant_id)),
        ]);
    }
    r
}

/// Makes the HS256 token of the claims under the secret.
pub fn create_hs256(claims: &JwtClaims, secret: &[u8]) -> (t: String)
    ensures
        t@ == token_of(*claims, secret@),
{
    let header = "{\"alg\":\"HS256\",\"typ\":\"JWT\"}";
    let h = b64url_encode(header.as_bytes());
    assert(h@ == b64url(encode_utf8(header_json())));
    let payload = claims_text(claims);
    let p = b64url_encode(payload.as_str().as_bytes());
    assert(p@ == b64url(encode_utf8(claims_json(*claims))));
    let mut input = h;
    push_char(&mut input, '.');
    push_str(&mut input, p.as_str());
    assert(input@ == signing_input(*claims));
    let tag = hmac_sign(secret, input.as_str().as_bytes());
    let sig = b64url_encode(tag.as_slice());
    let mut t = input;
    push_char(&mut t, '.');
    push_str(&mut t, sig.as_str());
    t
}

} // verus!
