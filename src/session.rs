//! Session issuer and verifier. A session is identified by an opaque token:
//! 32 random bytes written as 64 lowercase hex digits, stored with the
//! claims it grants. Verification looks the token up; an expired session is
//! deleted on the spot.
use vstd::prelude::*;

use crate::hasher::fill_random;
use crate::models::permissions::{AuthClaims, Permissions};
use crate::models::token::Token;
use crate::seqs::unique_by;
use crate::store::{by_token, session_of, Session, Store};

verus! {

/// How long a session stays valid, in seconds.
pub const SESSION_LIFETIME: i64 = 3600;

/// Random bytes behind one token.
pub const TOKEN_BYTES: usize = 32;

/// Length of a token in hex digits.
pub const TOKEN_LENGTH: usize = 64;

/// Why no token could be issued.
#[derive(Clone, Copy, Debug, PartialEq, Eq, Structural)]
pub enum TokenGenerateError {
    InternalServerError,
}

/// Why a presented token was refused.
#[derive(Clone, Copy, Debug, PartialEq, Eq, Structural)]
pub enum TokenVerificationError {
    InternalServerError,
    Unauthorized,
}

/// What a presented token turns out to be.
#[derive(Clone, Copy, Debug, PartialEq, Eq)]
pub enum TokenState {
    /// Not 64 lowercase hex digits.
    Malformed,
    /// Well formed, but no session is stored under it.
    NotFound,
    /// Its session has reached its expiry time.
    Expired,
    /// Its session is live and grants these claims.
    Valid(AuthClaims),
}

/// The ASCII code of the lowercase hex digit for `n` (below 16).
pub open spec fn hex_digit(n: int) -> u8 {
    if n < 10 {
        (48 + n) as u8
    } else {
        (87 + n) as u8
    }
}

/// Whether `c` is the ASCII code of a lowercase hex digit.
pub open spec fn is_hex_digit(c: u8) -> bool {
    (48 <= c <= 57) || (97 <= c <= 102)
}

/// `b` written in lowercase hex, two digits per byte, high digit first.
pub open spec fn hex_of(b: Seq<u8>) -> Seq<u8> {
    Seq::new(
        2 * b.len(),
        |i: int|
            if i % 2 == 0 {
                hex_digit(b[i / 2] as int / 16)
            } else {
                hex_digit(b[i / 2] as int % 16)
            },
    )
}

/// Whether `t` has the shape of a token.
pub open spec fn token_shape(t: Seq<u8>) -> bool {
    t.len() == TOKEN_LENGTH && forall|i: int| 0 <= i < t.len() ==> is_hex_digit(#[trigger] t[i])
}

/// Whether `c` is a lowercase hex digit.
pub open spec fn is_hex_char(c: char) -> bool {
    ('0' <= c <= '9') || ('a' <= c <= 'f')
}

/// Whether the text `t` has the shape of a token.
pub open spec fn token_text_shape(t: Seq<char>) -> bool {
    t.len() == TOKEN_LENGTH && forall|i: int| 0 <= i < t.len() ==> is_hex_char(#[trigger] t[i])
}

/// The bytes under which a token of ASCII text `t` is stored.
pub open spec fn token_key(t: Seq<char>) -> Seq<u8> {
    t.map_values(|c: char| c as u8)
}

/// The state of the token text `t` at time `now` against the stored
/// sessions.
pub open spec fn token_state(sessions: Seq<Session>, t: Seq<char>, now: i64) -> TokenState {
    if !token_text_shape(t) {
        TokenState::Malformed
    } else {
        match session_of(sessions, token_key(t)) {
            None => TokenState::NotFound,
            Some(c) => if now >= c.exp {
                TokenState::Expired
            } else {
                TokenState::Valid(c)
            },
        }
    }
}

/// What verification answers for a token in state `s`.
pub open spec fn verdict(s: TokenState) -> Result<AuthClaims, TokenVerificationError> {
    match s {
        TokenState::Valid(c) => Ok(c),
        _ => Err(TokenVerificationError::Unauthorized),
    }
}

/// The claims of a session issued for `sub` with `perms` at time `now`.
pub open spec fn issued_claims(sub: u64, perms: Permissions, now: i64) -> AuthClaims {
    AuthClaims { sub, perms, exp: (now + SESSION_LIFETIME) as i64 }
}

/// The scope of a session opened by logging in: every capability but the
/// developer's.
pub open spec fn login_scope() -> Seq<bool> {
    seq![false, true, true, true, true, true, true, true, true, true, true, true]
}

proof fn lemma_hex_digit(n: int)
    requires
        0 <= n < 16,
    ensures
        is_hex_digit(hex_digit(n)),
{
}

/// Writes `b` in lowercase hex.
pub fn hex_encode(b: &[u8]) -> (r: Vec<u8>)
    requires
        b@.len() <= usize::MAX / 2,
    ensures
        r@ == hex_of(b@),
{
    let mut r: Vec<u8> = Vec::new();
    let mut i: usize = 0;
    while i < b.len()
        invariant
            i <= b@.len() <= usize::MAX / 2,
            r@.len() == 2 * i,
            forall|j: int| 0 <= j < 2 * i ==> #[trigger] r@[j] == hex_of(b@)[j],
        decreases b@.len() - i,
    {
        let hi = b[i] / 16;
        let lo = b[i] % 16;
        let dh: u8 = if hi < 10 { 48 + hi } else { 87 + hi };
        let dl: u8 = if lo < 10 { 48 + lo } else { 87 + lo };
        r.push(dh);
        r.push(dl);
        proof {
            assert((2 * i) / 2 == i && (2 * i) % 2 == 0);
            assert((2 * i + 1) / 2 == i && (2 * i + 1) % 2 == 1);
        }
        i = i + 1;
    }
    assert(r@ =~= hex_of(b@));
    r
}

/// Hex of any bytes has the digits of a token; of 32 bytes, its length.
proof fn lemma_hex_shape(b: Seq<u8>)
    requires
        b.len() == TOKEN_BYTES,
    ensures
        token_shape(hex_of(b)),
{
    let h = hex_of(b);
    assert forall|i: int| 0 <= i < h.len() implies is_hex_digit(#[trigger] h[i]) by {
        if i % 2 == 0 {
            lemma_hex_digit(b[i / 2] as int / 16);
        } else {
            lemma_hex_digit(b[i / 2] as int % 16);
        }
    }
}

/// Whether `t` has the shape of a token.
pub fn has_token_shape(t: &[u8]) -> (r: bool)
    ensures
        r == token_shape(t@),
{
    if t.len() != TOKEN_LENGTH {
        return false;
    }
    let mut i: usize = 0;
    while i < t.len()
        invariant
            i <= t@.len(),
            forall|j: int| 0 <= j < i ==> is_hex_digit(#[trigger] t@[j]),
        decreases t@.len() - i,
    {
        let c = t[i];
        if !((48 <= c && c <= 57) || (97 <= c && c <= 102)) {
            return false;
        }
        i = i + 1;
    }
    true
}

/// Relies on std's String::from_utf8: bytes below 128 are valid UTF-8, and
/// each becomes the char with the same code.
#[verifier::external_body]
fn ascii_string(bytes: Vec<u8>) -> (r: String)
    requires
        forall|i: int| 0 <= i < bytes@.len() ==> bytes@[i] < 128,
    ensures
        r@ == bytes@.map_values(|c: u8| c as char),
{
    String::from_utf8(bytes).unwrap_or_default()
}

/// Relies on std's SystemTime::now with duration_since(UNIX_EPOCH), and on
/// chrono's DateTime::<Utc>::from_timestamp and timestamp: the current Unix
/// time in seconds as the system clock reports it, or `None` when the clock
/// reads before 1970 or beyond chrono's range. Unlike chrono's Utc::now, it
/// never panics.
#[verifier::external_body]
fn unix_now() -> (r: Option<i64>) {
    match std::time::SystemTime::now().duration_since(std::time::UNIX_EPOCH) {
        Ok(d) => match i64::try_from(d.as_secs()) {
            Ok(secs) => chrono::DateTime::<chrono::Utc>::from_timestamp(secs, d.subsec_nanos())
                .map(|t| t.timestamp()),
            Err(_) => None,
        },
        Err(_) => None,
    }
}

/// Issues a session for account `sub` with capabilities `perms` at time
/// `now`, identified by the token that `random` (32 bytes) spells in hex.
/// It fails when `random` has another length, when the expiry time does not
/// fit, or when that token is already in use; the store is then unchanged.
pub fn issue_session(store: &mut Store, sub: u64, perms: Permissions, now: i64, random: &[u8]) -> (r:
    Result<Token, TokenGenerateError>)
    requires
        old(store).wf(),
    ensures
        final(store).wf(),
        final(store).accounts() == old(store).accounts(),
        final(store).channels() == old(store).channels(),
        final(store).members() == old(store).members(),
        final(store).messages() == old(store).messages(),
        final(store).next_id() == old(store).next_id(),
        r is Err <==> random@.len() != TOKEN_BYTES || now > i64::MAX - SESSION_LIFETIME
            || session_of(old(store).sessions(), hex_of(random@)) is Some,
        r is Err ==> final(store).sessions() == old(store).sessions(),
        r is Ok ==> {
            let s = final(store).sessions().last();
            &&& final(store).sessions().len() == old(store).sessions().len() + 1
            &&& final(store).sessions().drop_last() == old(store).sessions()
            &&& s.token@ == hex_of(random@)
            &&& s.claims == issued_claims(sub, perms, now)
            &&& r->Ok_0.access_token@ == hex_of(random@).map_values(|c: u8| c as char)
        },
{
    if random.len() != TOKEN_BYTES || now > i64::MAX - SESSION_LIFETIME {
        return Err(TokenGenerateError::InternalServerError);
    }
    let key = hex_encode(random);
    proof {
        lemma_hex_shape(random@);
    }
    let claims = AuthClaims { sub, perms, exp: now + SESSION_LIFETIME };
    let text = ascii_string(key.clone());
    match store.insert_session(key, claims) {
        Ok(()) => {
            assert(final(store).sessions().drop_last() =~= old(store).sessions());
            Ok(Token { access_token: text })
        },
        Err(_) => Err(TokenGenerateError::InternalServerError),
    }
}

/// Issues a login session for account `sub`, valid for an hour from now,
/// with every capability but the developer's, under a fresh random token.
pub fn generate_token(store: &mut Store, sub: u64) -> (r: Result<Token, TokenGenerateError>)
    requires
        old(store).wf(),
    ensures
        final(store).wf(),
        final(store).accounts() == old(store).accounts(),
        final(store).channels() == old(store).channels(),
        final(store).members() == old(store).members(),
        final(store).messages() == old(store).messages(),
        final(store).next_id() == old(store).next_id(),
        r is Err ==> final(store).sessions() == old(store).sessions(),
        r is Ok ==> {
            let s = final(store).sessions().last();
            &&& final(store).sessions().len() == old(store).sessions().len() + 1
            &&& final(store).sessions().drop_last() == old(store).sessions()
            &&& token_shape(s.token@)
            &&& s.claims.sub == sub
            &&& s.claims.perms@ == login_scope()
            &&& s.claims.perms.bits() == 4094
            &&& r->Ok_0.access_token@ == s.token@.map_values(|c: u8| c as char)
        },
{
    let perms = Permissions::new(
        false,
        true,
        true,
        true,
        true,
        true,
        true,
        true,
        true,
        true,
        true,
        true,
    );
    let mut random: Vec<u8> = vec![0u8; TOKEN_BYTES];
    if fill_random(&mut random).is_err() {
        return Err(TokenGenerateError::InternalServerError);
    }
    let now = match unix_now() {
        Some(now) => now,
        None => return Err(TokenGenerateError::InternalServerError),
    };
    let r = issue_session(store, sub, perms, now, random.as_slice());
    proof {
        if r is Ok {
            lemma_hex_shape(random@);
        }
    }
    r
}

/// Text and stored bytes of a token agree: an ASCII text has the shape of
/// a token exactly when its bytes do, and those bytes are its key.
proof fn lemma_text_and_bytes(t: Seq<char>, b: Seq<u8>)
    requires
        vstd::utf8::is_ascii_chars(t),
        b.len() == t.len(),
        forall|i: int| 0 <= i < t.len() ==> #[trigger] b[i] == t[i] as u8,
    ensures
        token_key(t) == b,
        token_text_shape(t) == token_shape(b),
{
    assert(token_key(t) =~= b);
    if token_text_shape(t) {
        assert forall|i: int| 0 <= i < b.len() implies is_hex_digit(#[trigger] b[i]) by {
            assert(is_hex_char(t[i]));
        }
    }
    if token_shape(b) {
        assert forall|i: int| 0 <= i < t.len() implies is_hex_char(#[trigger] t[i]) by {
            assert(is_hex_digit(b[i]));
            assert('\0' <= t[i] <= '\u{7f}');
        }
    }
}

/// The text of the token stored under `b` is `b` read as characters.
proof fn lemma_bytes_as_text(b: Seq<u8>)
    requires
        token_shape(b),
    ensures
        token_text_shape(b.map_values(|c: u8| c as char)),
        token_key(b.map_values(|c: u8| c as char)) == b,
{
    let t = b.map_values(|c: u8| c as char);
    assert forall|i: int| 0 <= i < t.len() implies is_hex_char(#[trigger] t[i]) by {
        assert(is_hex_digit(b[i]));
    }
    assert(token_key(t) =~= b);
}

/// The key of a presented token, or `None` when its text does not have the
/// shape of a token.
fn token_bytes(token: &str) -> (r: Option<&[u8]>)
    ensures
        r is None <==> !token_text_shape(token@),
        r is Some ==> r->Some_0@ == token_key(token@),
{
    if !token.is_ascii() {
        proof {
            if token_text_shape(token@) {
                assert forall|i: int| 0 <= i < token@.len() implies '\0' <= #[trigger] token@[i]
                    <= '\u{7f}' by {
                    assert(is_hex_char(token@[i]));
                }
            }
        }
        return None;
    }
    let bytes = token.as_bytes();
    proof {
        vstd::utf8::is_ascii_chars_encode_utf8(token@);
        lemma_text_and_bytes(token@, bytes@);
    }
    if !has_token_shape(bytes) {
        return None;
    }
    Some(bytes)
}

/// Verifies a presented token at time `now`. Only a live session is
/// accepted; a malformed, unknown or expired token is unauthorized, and an
/// expired session is deleted.
pub fn verify_token_at(store: &mut Store, token: &str, now: i64) -> (r: Result<
    AuthClaims,
    TokenVerificationError,
>)
    requires
        old(store).wf(),
    ensures
        final(store).wf(),
        r == verdict(token_state(old(store).sessions(), token@, now)),
        final(store).accounts() == old(store).accounts(),
        final(store).channels() == old(store).channels(),
        final(store).members() == old(store).members(),
        final(store).messages() == old(store).messages(),
        final(store).next_id() == old(store).next_id(),
        token_state(old(store).sessions(), token@, now) == TokenState::Expired ==> {
            &&& session_of(final(store).sessions(), token_key(token@)) is None
            &&& forall|t: Seq<u8>|
                t != token_key(token@) ==> #[trigger] session_of(final(store).sessions(), t)
                    == session_of(old(store).sessions(), t)
        },
        token_state(old(store).sessions(), token@, now) != TokenState::Expired
            ==> final(store).sessions() == old(store).sessions(),
{
    let bytes = match token_bytes(token) {
        Some(b) => b,
        None => return Err(TokenVerificationError::Unauthorized),
    };
    match store.find_session(bytes) {
        None => Err(TokenVerificationError::Unauthorized),
        Some(claims) => {
            if now >= claims.exp {
                store.delete_session(bytes);
                Err(TokenVerificationError::Unauthorized)
            } else {
                Ok(claims)
            }
        },
    }
}

/// Verifies a presented token against the current time; see
/// `verify_token_at`. A malformed or unknown token is unauthorized before
/// the clock is read; a clock that cannot be read is an internal error.
pub fn verify_login_token(store: &mut Store, token: &str) -> (r: Result<
    AuthClaims,
    TokenVerificationError,
>)
    requires
        old(store).wf(),
    ensures
        final(store).wf(),
        final(store).accounts() == old(store).accounts(),
        final(store).channels() == old(store).channels(),
        final(store).members() == old(store).members(),
        final(store).messages() == old(store).messages(),
        r is Ok ==> token_text_shape(token@) && session_of(old(store).sessions(), token_key(token@))
            == Some(r->Ok_0),
        r is Err ==> r == Err::<AuthClaims, TokenVerificationError>(
            TokenVerificationError::Unauthorized,
        ) || (r == Err::<AuthClaims, TokenVerificationError>(
            TokenVerificationError::InternalServerError,
        ) && final(store).sessions() == old(store).sessions()),
        !token_text_shape(token@) || session_of(old(store).sessions(), token_key(token@)) is None
            ==> r == Err::<AuthClaims, TokenVerificationError>(
            TokenVerificationError::Unauthorized,
        ) && final(store).sessions() == old(store).sessions(),
{
    let bytes = match token_bytes(token) {
        Some(b) => b,
        None => return Err(TokenVerificationError::Unauthorized),
    };
    if store.find_session(bytes).is_none() {
        return Err(TokenVerificationError::Unauthorized);
    }
    match unix_now() {
        Some(now) => verify_token_at(store, token, now),
        None => {
            Err(TokenVerificationError::InternalServerError)
        },
    }
}

/// A session verifies, by the text of its token, from the moment it is
/// issued until its expiry time, and not from then on. `sessions` is the
/// store's sessions right after the issue, the new one last.
pub proof fn lemma_issue_then_verify(sessions: Seq<Session>, text: Seq<char>, t: i64)
    requires
        sessions.len() > 0,
        unique_by(sessions, by_token()),
        token_shape(sessions.last().token@),
        text == sessions.last().token@.map_values(|c: u8| c as char),
    ensures
        verdict(token_state(sessions, text, t)) == if t < sessions.last().claims.exp {
            Ok::<AuthClaims, TokenVerificationError>(sessions.last().claims)
        } else {
            Err(TokenVerificationError::Unauthorized)
        },
{
    let s = sessions.last();
    lemma_bytes_as_text(s.token@);
    let n = sessions.len() - 1;
    assert((by_token())(sessions[n]) == s.token@);
    let i = choose|i: int| 0 <= i < sessions.len() && (#[trigger] sessions[i]).token@ == s.token@;
    if i != n {
        assert((by_token())(sessions[i]) == s.token@);
    }
}

} // verus!
