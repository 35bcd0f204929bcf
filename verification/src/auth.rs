//! Token bookkeeping: the claims the engine consumes, and the decisions
//! around issuing and refreshing them. Signing and verifying the tokens
//! themselves is the authentication collaborator's work and stays outside
//! this library.

use vstd::prelude::*;

verus! {

/// Seconds in thirty days, the lifetime of both token kinds.
pub const TOKEN_LIFETIME_SECONDS: i64 = 2592000;

/// Whether a token grants access or only a refresh.
#[derive(Clone, Copy, Debug, PartialEq, Eq, Structural)]
pub enum TokenType {
    Access,
    Refresh,
}

/// The claims carried by a token.
#[derive(Clone, Copy, Debug, PartialEq, Eq, Structural)]
pub struct Claims {
    pub sub: i32,
    pub exp: i64,
    pub token_type: TokenType,
}

/// The caller whose identity a verified token established.
#[derive(Clone, Copy, Debug, PartialEq, Eq, Structural)]
pub struct AuthenticatedUser {
    pub id: i32,
}

/// A request to trade a refresh token for a new access token.
#[derive(Clone, Debug)]
pub struct RefreshRequest {
    pub refresh_token: String,
}

/// The fresh access token.
#[derive(Clone, Debug)]
pub struct RefreshResponse {
    pub access_token: String,
}

/// The claims of a token minted at `now` (Unix seconds): it names the user,
/// carries the requested kind, and expires thirty days later. The time bound
/// is a machine limit on the `i64` expiry.
pub fn claims_for(user_id: i32, token_type: TokenType, now: i64) -> (c: Claims)
    requires
        now + TOKEN_LIFETIME_SECONDS <= i64::MAX,
    ensures
        c.sub == user_id,
        c.token_type == token_type,
        c.exp == now + TOKEN_LIFETIME_SECONDS,
{
    Claims { sub: user_id, exp: now + TOKEN_LIFETIME_SECONDS, token_type }
}

/// Decide a refresh: only an unexpired refresh token names the user to mint
/// a new access token for.
pub fn refresh_decision(claims: &Claims, now: i64) -> (r: Option<i32>)
    ensures
        claims.token_type != TokenType::Refresh ==> r is None,
        claims.token_type == TokenType::Refresh && claims.exp <= now ==> r is None,
        claims.token_type == TokenType::Refresh && claims.exp > now ==> r == Some(claims.sub),
{
    if claims.token_type == TokenType::Refresh && claims.exp > now {
        Some(claims.sub)
    } else {
        None
    }
}

} // verus!
