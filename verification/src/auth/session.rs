//! Signed session tokens.
//!
//! A token is self-contained and stateless: its claims travel inside it and are
//! authenticated by an HMAC over the whole payload. There is no server-side
//! session table to keep consistent, which suits a daemon that must keep working
//! while the machine it manages is falling over.
//!
//! Losing the signing key invalidates every issued token, which is the correct
//! failure mode.
//!
//! There are two shapes of claim. [`Claims`] says when a session ends and when a
//! code was last shown; [`KindClaims`] says when it ends and whether it is a
//! session at all or only the enrolment of a device.

use crate::auth::crypto;
use crate::text;
use vstd::prelude::*;

verus! {

/// Bumped if the payload layout ever changes, so old tokens fail closed rather
/// than being misparsed into different claims.
pub open spec fn token_version() -> Seq<char> {
    "v1"@
}

#[derive(Debug, Clone, Copy, PartialEq, Eq, Structural)]
pub struct Claims {
    /// When the session itself expires.
    pub expires_at: u64,
    /// When a TOTP code was last successfully presented.
    pub totp_verified_at: u64,
}

/// What a token is good for.
#[derive(Debug, Clone, Copy, PartialEq, Eq, Structural)]
pub enum TokenKind {
    /// Authorises requests.
    Session,
    /// Proves that a browser is enrolled, and nothing more.
    Device,
}

#[derive(Debug, Clone, Copy, PartialEq, Eq, Structural)]
pub struct KindClaims {
    pub expires_at: u64,
    pub kind: TokenKind,
}

#[derive(Debug, Clone, Copy, PartialEq, Eq, Structural)]
pub enum TokenError {
    Malformed,
    BadSignature,
    Expired,
    WrongVersion,
}

impl TokenKind {
    /// How a kind is written in a token.
    pub open spec fn letter(self) -> Seq<char> {
        match self {
            TokenKind::Session => "s"@,
            TokenKind::Device => "d"@,
        }
    }

    pub fn as_str(&self) -> (r: &'static str)
        ensures
            r@ == self.letter(),
    {
        match self {
            TokenKind::Session => "s",
            TokenKind::Device => "d",
        }
    }
}

/// The kind that a letter stands for.
pub open spec fn kind_of(s: Seq<char>) -> Option<TokenKind> {
    if s == "s"@ {
        Some(TokenKind::Session)
    } else if s == "d"@ {
        Some(TokenKind::Device)
    } else {
        None
    }
}

// ---------------------------------------------------------------------------
// What a token is
// ---------------------------------------------------------------------------

/// The signature of a payload.
pub open spec fn signature(key: Seq<u8>, payload: Seq<char>) -> Seq<char> {
    text::hex_bytes(crypto::hmac_sha256(key, vstd::utf8::encode_utf8(payload)))
}

pub open spec fn payload(expires: Seq<char>, second: Seq<char>) -> Seq<char> {
    token_version() + "."@ + expires + "."@ + second
}

/// A token that carries two fields.
pub open spec fn sealed(key: Seq<u8>, expires: Seq<char>, second: Seq<char>) -> Seq<char> {
    payload(expires, second) + "."@ + signature(key, payload(expires, second))
}

/// The two fields of a token whose shape, version and signature are right. They
/// are looked at in that order.
pub open spec fn unsealed(key: Seq<u8>, token: Seq<char>) -> Result<
    (Seq<char>, Seq<char>),
    TokenError,
> {
    let p = text::split(text::trim(token), '.');
    if p.len() != 4 {
        Err(TokenError::Malformed)
    } else if p[0] != token_version() {
        Err(TokenError::WrongVersion)
    } else if signature(key, payload(p[1], p[2])) != p[3] {
        Err(TokenError::BadSignature)
    } else {
        Ok((p[1], p[2]))
    }
}

pub open spec fn issued(key: Seq<u8>, c: Claims) -> Seq<char> {
    sealed(key, text::dec(c.expires_at as nat), text::dec(c.totp_verified_at as nat))
}

pub open spec fn issued_kind(key: Seq<u8>, c: KindClaims) -> Seq<char> {
    sealed(key, text::dec(c.expires_at as nat), c.kind.letter())
}

/// What the fields of a genuine token say.
pub open spec fn read_claims(expires: Seq<char>, verified: Seq<char>, now: u64) -> Result<
    Claims,
    TokenError,
> {
    match (text::number(expires, u64::MAX as nat), text::number(verified, u64::MAX as nat)) {
        (Some(e), Some(v)) => if now >= e {
            Err(TokenError::Expired)
        } else {
            Ok(Claims { expires_at: e as u64, totp_verified_at: v as u64 })
        },
        _ => Err(TokenError::Malformed),
    }
}

pub open spec fn read_kind(expires: Seq<char>, kind: Seq<char>, now: u64) -> Result<
    KindClaims,
    TokenError,
> {
    match (text::number(expires, u64::MAX as nat), kind_of(kind)) {
        (Some(e), Some(k)) => if now >= e {
            Err(TokenError::Expired)
        } else {
            Ok(KindClaims { expires_at: e as u64, kind: k })
        },
        _ => Err(TokenError::Malformed),
    }
}

/// A token's claims, or why it has none.
pub open spec fn validated(key: Seq<u8>, token: Seq<char>, now: u64) -> Result<Claims, TokenError> {
    match unsealed(key, token) {
        Err(e) => Err(e),
        Ok((expires, verified)) => read_claims(expires, verified, now),
    }
}

pub open spec fn validated_kind(key: Seq<u8>, token: Seq<char>, now: u64) -> Result<
    KindClaims,
    TokenError,
> {
    match unsealed(key, token) {
        Err(e) => Err(e),
        Ok((expires, kind)) => read_kind(expires, kind, now),
    }
}

// ---------------------------------------------------------------------------
// The key
// ---------------------------------------------------------------------------

pub struct SessionKey {
    key: [u8; 32],
}

/// The claims that the fields of a genuine token hold.
pub fn claims_from(expires: &str, verified: &str, now: u64) -> (r: Result<Claims, TokenError>)
    ensures
        r == read_claims(expires@, verified@, now),
{
    match (text::parse_u64(expires), text::parse_u64(verified)) {
        (Some(expires_at), Some(totp_verified_at)) => {
            if now >= expires_at {
                Err(TokenError::Expired)
            } else {
                Ok(Claims { expires_at, totp_verified_at })
            }
        },
        _ => Err(TokenError::Malformed),
    }
}

/// The claims that the fields of a genuine token of a kind hold.
pub fn kind_claims_from(expires: &str, kind: &str, now: u64) -> (r: Result<KindClaims, TokenError>)
    ensures
        r == read_kind(expires@, kind@, now),
{
    let kind: Option<TokenKind> = if text::same(kind, "s") {
        Some(TokenKind::Session)
    } else if text::same(kind, "d") {
        Some(TokenKind::Device)
    } else {
        None
    };
    match (text::parse_u64(expires), kind) {
        (Some(expires_at), Some(kind)) => {
            if now >= expires_at {
                Err(TokenError::Expired)
            } else {
                Ok(KindClaims { expires_at, kind })
            }
        },
        _ => Err(TokenError::Malformed),
    }
}

/// The parts of a token of the right shape and version: the two fields and the
/// signature that it carries.
pub fn token_parts(token: &str) -> (r: Result<(String, String, String), TokenError>)
    ensures
        ({
            let p = text::split(text::trim(token@), '.');
            match r {
                Ok(t) => p.len() == 4 && p[0] == token_version() && p[1] == t.0@ && p[2] == t.1@
                    && p[3] == t.2@,
                Err(TokenError::Malformed) => p.len() != 4,
                Err(TokenError::WrongVersion) => p.len() == 4 && p[0] != token_version(),
                Err(_) => false,
            }
        }),
{
    let trimmed = text::trim_str(token);
    let mut parts = text::split_str(trimmed.as_str(), '.');
    if parts.len() != 4 {
        return Err(TokenError::Malformed);
    }
    let ghost p = text::split(text::trim(token@), '.');
    assert(text::strs(parts@)[0] == parts@[0]@);
    assert(text::strs(parts@)[1] == parts@[1]@);
    assert(text::strs(parts@)[2] == parts@[2]@);
    assert(text::strs(parts@)[3] == parts@[3]@);
    if !text::same(parts[0].as_str(), "v1") {
        return Err(TokenError::WrongVersion);
    }
    Ok((parts[1].clone(), parts[2].clone(), parts[3].clone()))
}

fn payload_text(expires: &str, second: &str) -> (r: String)
    ensures
        r@ == payload(expires@, second@),
{
    let mut out = "v1".to_string();
    out.append(".");
    out.append(expires);
    out.append(".");
    out.append(second);
    out
}

/// The key in the contents of a key file: its first bytes, where there are
/// enough. A file that was cut short holds none.
pub fn stored_key(contents: &[u8]) -> (r: Option<[u8; 32]>)
    ensures
        r is Some <==> contents@.len() >= 32,
        r matches Some(k) ==> k@ == contents@.take(32),
{
    if contents.len() < 32 {
        return None;
    }
    let mut key: [u8; 32] = [0; 32];
    let mut i: usize = 0;
    while i < 32
        invariant
            i <= 32,
            contents@.len() >= 32,
            forall|j: int| 0 <= j < i ==> key@[j] == contents@[j],
        decreases 32 - i,
    {
        key[i] = contents[i];
        i += 1;
    }
    assert(key@ =~= contents@.take(32));
    Some(key)
}

impl SessionKey {
    pub closed spec fn bytes(&self) -> Seq<u8> {
        self.key@
    }

    pub fn from_bytes(key: [u8; 32]) -> (r: Self)
        ensures
            r.bytes() == key@,
    {
        SessionKey { key }
    }

    fn sign(&self, payload: &str) -> (r: String)
        ensures
            r@ == signature(self.bytes(), payload@),
    {
        let code = crypto::hmac_sha256_of(self.key.as_slice(), payload.as_bytes());
        text::hex_of_bytes(code.as_slice())
    }

    fn seal(&self, expires: &str, second: &str) -> (r: String)
        ensures
            r@ == sealed(self.bytes(), expires@, second@),
    {
        let mut out = payload_text(expires, second);
        let mark = self.sign(out.as_str());
        out.append(".");
        out.append(mark.as_str());
        out
    }

    /// The two fields of a token, where its shape, version and signature are
    /// right.
    ///
    /// The signature is checked *before* the fields are read, and compared in
    /// constant time, so neither validity nor content is inferable from timing
    /// or from which error comes back for a forged token.
    fn unseal(&self, token: &str) -> (r: Result<(String, String), TokenError>)
        ensures
            match r {
                Ok(p) => unsealed(self.bytes(), token@) == Ok::<(Seq<char>, Seq<char>), TokenError>(
                    (p.0@, p.1@),
                ),
                Err(e) => unsealed(self.bytes(), token@) == Err::<
                    (Seq<char>, Seq<char>),
                    TokenError,
                >(e),
            },
    {
        let (expires, second, mark) = match token_parts(token) {
            Ok(p) => p,
            Err(e) => {
                return Err(e);
            },
        };
        let expected = self.sign(payload_text(expires.as_str(), second.as_str()).as_str());
        if !crypto::same_secret(expected.as_str(), mark.as_str()) {
            return Err(TokenError::BadSignature);
        }
        Ok((expires, second))
    }

    pub fn issue(&self, claims: Claims) -> (r: String)
        ensures
            r@ == issued(self.bytes(), claims),
    {
        let expires = text::dec_string(claims.expires_at);
        let verified = text::dec_string(claims.totp_verified_at);
        self.seal(expires.as_str(), verified.as_str())
    }

    /// Verify a token and return its claims.
    pub fn validate(&self, token: &str, now: u64) -> (r: Result<Claims, TokenError>)
        ensures
            r == validated(self.bytes(), token@, now),
    {
        match self.unseal(token) {
            Ok((expires, verified)) => claims_from(expires.as_str(), verified.as_str(), now),
            Err(e) => Err(e),
        }
    }

    /// A token of a kind.
    pub fn issue_kind(&self, claims: KindClaims) -> (r: String)
        ensures
            r@ == issued_kind(self.bytes(), claims),
    {
        let expires = text::dec_string(claims.expires_at);
        self.seal(expires.as_str(), claims.kind.as_str())
    }

    /// Verify a token of a kind and return its claims.
    pub fn validate_kind(&self, token: &str, now: u64) -> (r: Result<KindClaims, TokenError>)
        ensures
            r == validated_kind(self.bytes(), token@, now),
    {
        match self.unseal(token) {
            Ok((expires, kind)) => kind_claims_from(expires.as_str(), kind.as_str(), now),
            Err(e) => Err(e),
        }
    }
}

// ---------------------------------------------------------------------------
// Laws
// ---------------------------------------------------------------------------

proof fn lemma_hex_has_no_dot(b: Seq<u8>)
    ensures
        !text::hex_bytes(b).contains('.'),
        forall|i: int|
            0 <= i < text::hex_bytes(b).len() ==> !text::is_space(#[trigger] text::hex_bytes(b)[i]),
    decreases b.len(),
{
    if b.len() > 0 {
        let rest = b.drop_last();
        lemma_hex_has_no_dot(rest);
        let h = text::hex_bytes(b);
        let g = text::hex_bytes(rest);
        assert(h.len() == g.len() + 2);
        assert forall|i: int| 0 <= i < h.len() implies h[i] != '.' && !text::is_space(
            #[trigger] h[i],
        ) by {
            if i < g.len() {
                assert(h[i] == g[i]);
                assert(g.contains(g[i]));
            }
        }
    }
}

proof fn lemma_digits_have_no_dot(n: nat)
    ensures
        !text::dec(n).contains('.'),
{
    text::lemma_dec(n);
    assert forall|i: int| 0 <= i < text::dec(n).len() implies text::dec(n)[i] != '.' by {
        assert(text::is_digit(text::dec(n)[i]));
    }
}

/// A sealed token opens under its own key, whatever its fields, as long as they
/// hold no dot.
pub proof fn what_is_sealed_opens(key: Seq<u8>, expires: Seq<char>, second: Seq<char>)
    requires
        !expires.contains('.'),
        !second.contains('.'),
    ensures
        unsealed(key, sealed(key, expires, second)) == Ok::<(Seq<char>, Seq<char>), TokenError>(
            (expires, second),
        ),
{
    reveal_strlit("v1");
    reveal_strlit(".");
    let mark = signature(key, payload(expires, second));
    lemma_hex_has_no_dot(crypto::hmac_sha256(key, vstd::utf8::encode_utf8(payload(expires, second))));
    let t = sealed(key, expires, second);
    let v = "v1"@;
    assert(!v.contains('.'));
    // Neither end is white space.
    assert(t[0] == 'v');
    assert(t.last() == (if mark.len() > 0 {
        mark.last()
    } else {
        '.'
    }));
    text::lemma_trim_id(t);
    // The pieces between the dots.
    let rest1 = expires.push('.') + (second.push('.') + mark);
    assert(t =~= v.push('.') + rest1);
    text::lemma_split_cons(v, '.', rest1);
    text::lemma_split_cons(expires, '.', second.push('.') + mark);
    text::lemma_split_cons(second, '.', mark);
    text::lemma_split_one(mark, '.');
    let p = text::split(t, '.');
    assert(p =~= seq![v, expires, second, mark]);
}

/// Round trip: a token gives back exactly the claims it was issued for, up to
/// its expiry and not at it.
pub proof fn a_token_gives_back_its_claims(key: Seq<u8>, c: Claims, now: u64)
    ensures
        now < c.expires_at ==> validated(key, issued(key, c), now) == Ok::<Claims, TokenError>(c),
        now >= c.expires_at ==> validated(key, issued(key, c), now) == Err::<Claims, TokenError>(
            TokenError::Expired,
        ),
{
    lemma_digits_have_no_dot(c.expires_at as nat);
    lemma_digits_have_no_dot(c.totp_verified_at as nat);
    what_is_sealed_opens(
        key,
        text::dec(c.expires_at as nat),
        text::dec(c.totp_verified_at as nat),
    );
    text::lemma_number_dec(c.expires_at as nat, u64::MAX as nat);
    text::lemma_number_dec(c.totp_verified_at as nat, u64::MAX as nat);
}

/// The same of tokens of a kind.
pub proof fn a_kind_token_gives_back_its_claims(key: Seq<u8>, c: KindClaims, now: u64)
    ensures
        now < c.expires_at ==> validated_kind(key, issued_kind(key, c), now) == Ok::<
            KindClaims,
            TokenError,
        >(c),
        now >= c.expires_at ==> validated_kind(key, issued_kind(key, c), now) == Err::<
            KindClaims,
            TokenError,
        >(TokenError::Expired),
{
    reveal_strlit("s");
    reveal_strlit("d");
    assert("s"@[0] != "d"@[0]);
    lemma_digits_have_no_dot(c.expires_at as nat);
    assert(!c.kind.letter().contains('.'));
    what_is_sealed_opens(key, text::dec(c.expires_at as nat), c.kind.letter());
    text::lemma_number_dec(c.expires_at as nat, u64::MAX as nat);
}

/// One shape of token is never taken for the other.
pub proof fn the_two_shapes_are_apart(key: Seq<u8>, c: Claims, k: KindClaims, now: u64)
    ensures
        validated_kind(key, issued(key, c), now) == Err::<KindClaims, TokenError>(
            TokenError::Malformed,
        ),
        validated(key, issued_kind(key, k), now) == Err::<Claims, TokenError>(
            TokenError::Malformed,
        ),
{
    reveal_strlit("s");
    reveal_strlit("d");
    lemma_digits_have_no_dot(c.expires_at as nat);
    lemma_digits_have_no_dot(c.totp_verified_at as nat);
    lemma_digits_have_no_dot(k.expires_at as nat);
    let d = text::dec(c.totp_verified_at as nat);
    text::lemma_dec(c.totp_verified_at as nat);
    assert(text::is_digit(d[0]));
    assert(d != "s"@ && d != "d"@) by {
        assert("s"@[0] == 's' && "d"@[0] == 'd');
    }
    what_is_sealed_opens(key, text::dec(c.expires_at as nat), d);
    let l = k.kind.letter();
    assert(!l.contains('.'));
    assert(l.len() == 1 && !text::is_digit(l[0]) && l[0] != '+');
    what_is_sealed_opens(key, text::dec(k.expires_at as nat), l);
    assert(!text::all_digits(l));
}

/// A forged token is never reported as expired: that would confirm that its
/// signature was accepted.
pub proof fn the_signature_is_checked_before_expiry(key: Seq<u8>, token: Seq<char>, now: u64)
    ensures
        validated(key, token, now) == Err::<Claims, TokenError>(TokenError::Expired) || validated(
            key,
            token,
            now,
        ) is Ok ==> unsealed(key, token) is Ok,
        unsealed(key, token) == Err::<(Seq<char>, Seq<char>), TokenError>(TokenError::BadSignature)
            ==> validated(key, token, now) == Err::<Claims, TokenError>(TokenError::BadSignature)
            && validated_kind(key, token, now) == Err::<KindClaims, TokenError>(
            TokenError::BadSignature,
        ),
{
}

/// What is accepted carries the signature of its own payload under the key.
pub proof fn what_is_accepted_is_signed(key: Seq<u8>, token: Seq<char>, now: u64)
    requires
        validated(key, token, now) is Ok || validated_kind(key, token, now) is Ok,
    ensures
        ({
            let p = text::split(text::trim(token), '.');
            p.len() == 4 && p[3] == signature(key, payload(p[1], p[2]))
        }),
{
}

/// A token does not come back to life: expired at one time, it is expired at
/// every later one.
pub proof fn expiry_is_for_good(key: Seq<u8>, token: Seq<char>, now: u64, later: u64)
    requires
        now <= later,
        validated(key, token, now) == Err::<Claims, TokenError>(TokenError::Expired),
    ensures
        validated(key, token, later) == Err::<Claims, TokenError>(TokenError::Expired),
{
}

/// How a token is written: its version, when it ends, what it is, and the
/// signature of all that, with points between.
pub proof fn how_a_token_is_written(key: Seq<u8>, ends: u64)
    ensures
        ({
            let front = "v1"@ + "."@ + text::dec(ends as nat) + "."@;
            let mark = |p: Seq<char>|
                text::hex_bytes(crypto::hmac_sha256(key, vstd::utf8::encode_utf8(p)));
            &&& issued_kind(key, (KindClaims { expires_at: ends, kind: TokenKind::Session }))
                == front + "s"@ + "."@ + mark(front + "s"@)
            &&& issued_kind(key, (KindClaims { expires_at: ends, kind: TokenKind::Device }))
                == front + "d"@ + "."@ + mark(front + "d"@)
        }),
{
}

/// Why a token is refused: it has not four parts, or is of another version, or
/// its signature is not that of its parts.
pub proof fn why_a_token_is_refused(key: Seq<u8>, token: Seq<char>)
    ensures
        ({
            let p = text::split(text::trim(token), '.');
            let front = "v1"@ + "."@ + p[1] + "."@ + p[2];
            let mark = text::hex_bytes(crypto::hmac_sha256(key, vstd::utf8::encode_utf8(front)));
            let refused = |e: TokenError| Err::<(Seq<char>, Seq<char>), TokenError>(e);
            &&& unsealed(key, token) == refused(TokenError::Malformed) <==> p.len() != 4
            &&& unsealed(key, token) == refused(TokenError::WrongVersion) <==> p.len() == 4 && p[0]
                != "v1"@
            &&& unsealed(key, token) == refused(TokenError::BadSignature) <==> p.len() == 4 && p[0]
                == "v1"@ && p[3] != mark
            &&& unsealed(key, token) is Ok ==> unsealed(key, token)->Ok_0 == (p[1], p[2])
        }),
{
}

/// What a token says is read until it ends, and no longer; what is no number, or
/// no kind, is not read.
pub proof fn what_a_token_says(ends: u64, verified: u64, kind: Seq<char>, now: u64)
    ensures
        ({
            let e = text::dec(ends as nat);
            let v = text::dec(verified as nat);
            &&& now < ends ==> read_claims(e, v, now) == Ok::<Claims, TokenError>(
                Claims { expires_at: ends, totp_verified_at: verified },
            )
            &&& now >= ends ==> read_claims(e, v, now) == Err::<Claims, TokenError>(
                TokenError::Expired,
            )
            &&& now < ends && kind == "s"@ ==> read_kind(e, kind, now) == Ok::<
                KindClaims,
                TokenError,
            >(KindClaims { expires_at: ends, kind: TokenKind::Session })
            &&& now < ends && kind == "d"@ ==> read_kind(e, kind, now) == Ok::<
                KindClaims,
                TokenError,
            >(KindClaims { expires_at: ends, kind: TokenKind::Device })
            &&& kind != "s"@ && kind != "d"@ ==> read_kind(e, kind, now) == Err::<
                KindClaims,
                TokenError,
            >(TokenError::Malformed)
        }),
{
    reveal_strlit("s");
    reveal_strlit("d");
    assert("s"@[0] == 's' && "d"@[0] == 'd');
    text::lemma_number_dec(ends as nat, u64::MAX as nat);
    text::lemma_number_dec(verified as nat, u64::MAX as nat);
}

} // verus!
