//! Session identity: opaque 128-bit tokens and the store that binds them
//! to account ids.
//!
//! A token travels to the client as the canonical decimal rendering of its
//! value (the `user_token` cookie) and to storage as its 16 little-endian
//! bytes.  `validate` is the read-only capability every protected
//! operation consumes: it decodes a cookie value and looks the token up.

use crate::errors::LedgerError;
use crate::find::first_where;
use crate::find::lemma_first_where_all;
use crate::find::lemma_first_where_end;
use crate::find::lemma_first_where_found;
use crate::find::lemma_first_where_step;
use crate::numstr::dec_seq;
use crate::numstr::format_u128;
use crate::numstr::lemma_parse_of_dec_seq;
use crate::numstr::parse_u128;
use crate::numstr::spec_parse_u128;
use vstd::prelude::*;

verus! {

/// An opaque 128-bit session token.
#[derive(Clone, Copy, Debug, PartialEq, Eq, Structural)]
pub struct SessionToken(pub u128);

/// Byte `k` of the little-endian rendering of `n`.
pub open spec fn spec_le_byte(n: u128, k: int) -> u8 {
    ((n >> ((8 * k) as u128)) & 0xff) as u8
}

// rand_chacha's generator, declared so that its values can flow through
// verified signatures; Verus sees nothing inside it.
#[verifier::external_type_specification]
#[verifier::external_body]
pub struct ExChaCha8Rng(rand_chacha::ChaCha8Rng);

/// Relies on rand_core::RngCore::fill_bytes for ChaCha8Rng: it fills the
/// buffer with the generator's next bytes and returns them.  Nothing can
/// be promised of the values: they depend on the generator's state.
#[verifier::external_body]
fn draw_token_bytes(rng: &mut rand_chacha::ChaCha8Rng) -> (r: [u8; 16]) {
    let mut buf = [0u8; 16];
    rand_core::RngCore::fill_bytes(rng, &mut buf);
    buf
}

/// The 128-bit value read little-endian from the first `k` bytes.
pub open spec fn le_val(bs: Seq<u8>, k: int) -> u128
    decreases k,
{
    if k <= 0 {
        0
    } else {
        le_val(bs, k - 1) | ((bs[k - 1] as u128) << ((8 * (k - 1)) as u32))
    }
}

impl SessionToken {
    /// Build a token from sixteen freshly drawn bytes, read as a 128-bit
    /// little-endian integer.  The bytes come from the process's shared
    /// CSPRNG, which lives with the caller.
    pub fn generate_new(bytes: &[u8; 16]) -> (r: SessionToken)
        ensures
            r.0 == le_val(bytes@, 16),
    {
        let mut v: u128 = 0;
        let mut k: usize = 0;
        while k < 16
            invariant
                0 <= k <= 16,
                v == le_val(bytes@, k as int),
            decreases 16 - k,
        {
            let sh: u32 = 8 * (k as u32);
            v = v | ((bytes[k] as u128) << sh);
            k = k + 1;
        }
        SessionToken(v)
    }

    /// The value the session cookie carries: the canonical decimal string.
    pub fn into_cookie_value(self) -> (r: String)
        ensures
            r@ == dec_seq(self.0 as nat),
    {
        format_u128(self.0)
    }

    /// The value the session row stores: the 16 little-endian bytes.
    pub fn into_database_value(self) -> (r: Vec<u8>)
        ensures
            r@.len() == 16,
            forall|k: int| 0 <= k < 16 ==> r@[k] == spec_le_byte(self.0, k),
    {
        let mut r: Vec<u8> = Vec::new();
        let mut k: usize = 0;
        while k < 16
            invariant
                0 <= k <= 16,
                r@.len() == k,
                forall|j: int| 0 <= j < k ==> r@[j] == spec_le_byte(self.0, j),
            decreases 16 - k,
        {
            let sh: u128 = 8 * k as u128;
            let b: u8 = ((self.0 >> sh) & 0xff) as u8;
            r.push(b);
            k = k + 1;
        }
        r
    }

    /// Decode a cookie value; refused as `MalformedToken` exactly where
    /// `spec_parse_u128` refuses the string.
    pub fn to_token(value: String) -> (r: Result<SessionToken, LedgerError>)
        ensures
            match spec_parse_u128(value@) {
                Some(v) => r == Ok::<SessionToken, LedgerError>(SessionToken(v)),
                None => r == Err::<SessionToken, LedgerError>(LedgerError::MalformedToken),
            },
    {
        match parse_u128(value.as_str()) {
            Some(v) => Ok(SessionToken(v)),
            None => Err(LedgerError::MalformedToken),
        }
    }
}

/// Decoding the cookie value of a token always yields the token back.
pub proof fn lemma_cookie_round_trip(t: SessionToken)
    ensures
        spec_parse_u128(dec_seq(t.0 as nat)) == Some(t.0),
{
    lemma_parse_of_dec_seq(t.0);
}

/// Does a session row carry token `t`?
pub open spec fn token_matches(t: u128) -> spec_fn(SessionRow) -> bool {
    |row: SessionRow| row.token == t
}

/// One active login: a token bound to an account id.
#[derive(Clone, Copy, Debug, PartialEq, Eq, Structural)]
pub struct SessionRow {
    pub account_id: i32,
    pub token: u128,
}

/// The table of active sessions, in order of issue.
pub struct SessionStore {
    pub sessions: Vec<SessionRow>,
}

impl SessionStore {
    /// An empty store: nothing validates.
    pub fn new() -> (r: SessionStore)
        ensures
            r.sessions@ == Seq::<SessionRow>::empty(),
    {
        SessionStore { sessions: Vec::new() }
    }

    /// The account bound to token `t`: the first row that carries it.
    pub open spec fn spec_lookup(self, t: u128) -> Option<i32> {
        match first_where(self.sessions@, token_matches(t)) {
            Some(row) => Some(row.account_id),
            None => None,
        }
    }

    /// What validating a cookie value yields: decode, then look up.
    pub open spec fn spec_validate(self, s: Seq<char>) -> Option<i32> {
        match spec_parse_u128(s) {
            None => None,
            Some(t) => self.spec_lookup(t),
        }
    }

    /// Issue a session: draw sixteen bytes from the process's shared
    /// generator, build the token from them, and append the row binding
    /// it to the account.  Whatever the generator returned, the new row
    /// is the one appended and its token is the one handed back.
    pub fn new_session(&mut self, rng: &mut rand_chacha::ChaCha8Rng, account_id: i32) -> (r:
        SessionToken)
        ensures
            final(self).sessions@ == old(self).sessions@.push(
                SessionRow { account_id, token: r.0 },
            ),
    {
        let bytes = draw_token_bytes(rng);
        let token = SessionToken::generate_new(&bytes);
        self.sessions.push(SessionRow { account_id, token: token.0 });
        token
    }

    /// Look a decoded token up in the store.
    pub fn lookup_token(&self, t: u128) -> (r: Option<i32>)
        ensures
            r == self.spec_lookup(t),
    {
        let n = self.sessions.len();
        let mut i: usize = 0;
        proof {
            lemma_first_where_all(self.sessions@, token_matches(t));
        }
        while i < n
            invariant
                0 <= i <= n,
                n == self.sessions@.len(),
                first_where(self.sessions@, token_matches(t)) == first_where(
                    self.sessions@.skip(i as int),
                    token_matches(t),
                ),
            decreases n - i,
        {
            proof {
                lemma_first_where_step(self.sessions@, token_matches(t), i as int);
                assert(token_matches(t)(self.sessions@[i as int]) == (self.sessions@[i as int].token
                    == t));
            }
            if self.sessions[i].token == t {
                return Some(self.sessions[i].account_id);
            }
            i = i + 1;
        }
        proof {
            lemma_first_where_end(self.sessions@, token_matches(t));
        }
        None
    }

    /// Validate a cookie value: the bound account id, or nothing for a
    /// malformed or unknown token.
    pub fn validate(&self, cookie_value: &str) -> (r: Option<i32>)
        ensures
            r == self.spec_validate(cookie_value@),
    {
        match parse_u128(cookie_value) {
            Some(t) => self.lookup_token(t),
            None => None,
        }
    }

    /// Gate a protected operation: the account id of a valid session, or
    /// `NotLoggedIn` for a missing, malformed or unknown cookie.
    pub fn require_login(&self, cookie_value: Option<&str>) -> (r: Result<i32, LedgerError>)
        ensures
            match cookie_value {
                None => r == Err::<i32, LedgerError>(LedgerError::NotLoggedIn),
                Some(cv) => match self.spec_validate(cv@) {
                    Some(aid) => r == Ok::<i32, LedgerError>(aid),
                    None => r == Err::<i32, LedgerError>(LedgerError::NotLoggedIn),
                },
            },
    {
        match cookie_value {
            None => Err(LedgerError::NotLoggedIn),
            Some(cv) => match self.validate(cv) {
                Some(aid) => Ok(aid),
                None => Err(LedgerError::NotLoggedIn),
            },
        }
    }

    /// A cookie value that was never issued validates to no identity:
    /// if no stored row carries the token the value decodes to, `validate`
    /// yields `None` — in particular for any tampered or invented value.
    pub proof fn lemma_validate_unissued(self, s: Seq<char>)
        requires
            forall|i: int|
                0 <= i < self.sessions@.len() ==> Some(
                    #[trigger] self.sessions@[i].token,
                ) != spec_parse_u128(s),
        ensures
            self.spec_validate(s) is None,
    {
        match spec_parse_u128(s) {
            None => {},
            Some(t) => {
                let p = token_matches(t);
                lemma_first_where_found(self.sessions@, p);
                match first_where(self.sessions@, p) {
                    Some(row) => {
                        let j = choose|j: int|
                            0 <= j < self.sessions@.len() && self.sessions@.index(j) == row;
                        assert(Some(self.sessions@[j].token) == spec_parse_u128(s));
                    },
                    None => {},
                }
            },
        }
    }
}

} // verus!
