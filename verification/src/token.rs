//! Holding an OAuth token and deciding when it is due for refresh. The
//! refresh call itself, and reading or writing the cached token, happen
//! outside this crate.

use vstd::prelude::*;

use crate::types::Token;

verus! {

/// Safety margin, in seconds, taken off a token's nominal lifetime.
pub const TOKEN_EXPIRY_MARGIN: u64 = 240;

/// Owns the current OAuth token.
pub struct TokenManager {
    token: Token,
}

impl TokenManager {
    /// The token held.
    pub closed spec fn spec_token(&self) -> Token {
        self.token
    }

    pub fn new(token: Token) -> (r: Self)
        ensures
            r.spec_token() == token,
    {
        TokenManager { token }
    }

    /// The token held, for inspection or persisting.
    pub fn current_token(&self) -> (r: &Token)
        ensures
            *r == self.spec_token(),
    {
        &self.token
    }

    /// Whether the token is due for refresh at the given Unix time: within
    /// the safety margin of the end of its nominal lifetime.
    pub fn is_expired(&self, now_unix: u64) -> (r: bool)
        ensures
            r == (now_unix + TOKEN_EXPIRY_MARGIN >= self.spec_token().obtained_at
                + self.spec_token().expires_in),
    {
        (now_unix as u128) + (TOKEN_EXPIRY_MARGIN as u128) >= (self.token.obtained_at as u128) + (
        self.token.expires_in as u128)
    }

    /// Replaces the held token, after a refresh done elsewhere.
    pub fn set_token(&mut self, token: Token)
        ensures
            final(self).spec_token() == token,
    {
        self.token = token;
    }
}

} // verus!
