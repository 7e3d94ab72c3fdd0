//! The identity store: accounts and the login decision.
//!
//! The canonical login flow looks the username up and compares the
//! offered password against the stored credential; hashing schemes live
//! outside this core, which only decides over the plain values it is
//! handed.  The credential itself is never part of any result.

use crate::errors::LedgerError;
use crate::find::first_where;
use crate::find::lemma_first_where_all;
use crate::find::lemma_first_where_end;
use crate::find::lemma_first_where_found;
use crate::find::lemma_first_where_step;
use crate::strutil::str_eq;
use vstd::prelude::*;
use vstd::string::StringExecFns;

verus! {

/// One account: a unique username, its stored credential, and an
/// optional account type (`1` where none was recorded).
pub struct AccountRow {
    pub id: i32,
    pub username: String,
    pub password: String,
    pub account_type: Option<i32>,
}

/// Does an account carry this username?
pub open spec fn username_matches(name: Seq<char>) -> spec_fn(AccountRow) -> bool {
    |a: AccountRow| a.username@ == name
}

/// A login request: the username and the offered password.
pub struct LoginInfo {
    pub name: String,
    pub password: String,
}

/// The accounts table.
pub struct AccountStore {
    pub accounts: Vec<AccountRow>,
    pub next_account_id: i32,
}

impl AccountStore {
    /// Well-formedness: ids grow strictly and stay below the counter, and
    /// usernames are unique.
    pub open spec fn wf(self) -> bool {
        &&& forall|i: int, j: int|
            0 <= i < j < self.accounts@.len() ==> #[trigger] self.accounts@[i].id
                < #[trigger] self.accounts@[j].id
        &&& forall|i: int|
            0 <= i < self.accounts@.len() ==> #[trigger] self.accounts@[i].id
                < self.next_account_id
        &&& forall|i: int, j: int|
            0 <= i < j < self.accounts@.len() ==> #[trigger] self.accounts@[i].username@
                != #[trigger] self.accounts@[j].username@
    }

    /// An empty store.
    pub fn new() -> (r: AccountStore)
        ensures
            r.wf(),
            r.accounts@ == Seq::<AccountRow>::empty(),
    {
        AccountStore { accounts: Vec::new(), next_account_id: 1 }
    }

    /// The account registered under `name`.
    pub open spec fn spec_account_by_username(self, name: Seq<char>) -> Option<AccountRow> {
        first_where(self.accounts@, username_matches(name))
    }

    /// What a login decides: the account id and effective account type on
    /// a match, `InvalidCredentials` for an unknown username,
    /// `PasswordMismatch` for a wrong password.
    pub open spec fn spec_login(self, name: Seq<char>, password: Seq<char>) -> Result<
        (i32, i32),
        LedgerError,
    > {
        match self.spec_account_by_username(name) {
            None => Err(LedgerError::InvalidCredentials),
            Some(a) => if a.password@ != password {
                Err(LedgerError::PasswordMismatch)
            } else {
                Ok(
                    (
                        a.id,
                        match a.account_type {
                            Some(t) => t,
                            None => 1,
                        },
                    ),
                )
            },
        }
    }

    /// The index of the account registered under `name`.
    fn find_by_username(&self, name: &str) -> (r: Option<usize>)
        ensures
            match self.spec_account_by_username(name@) {
                Some(a) => r is Some && r.unwrap() < self.accounts@.len()
                    && self.accounts@[r.unwrap() as int] == a,
                None => r is None,
            },
    {
        let n = self.accounts.len();
        let mut i: usize = 0;
        proof {
            lemma_first_where_all(self.accounts@, username_matches(name@));
        }
        while i < n
            invariant
                0 <= i <= n,
                n == self.accounts@.len(),
                first_where(self.accounts@, username_matches(name@)) == first_where(
                    self.accounts@.skip(i as int),
                    username_matches(name@),
                ),
            decreases n - i,
        {
            proof {
                lemma_first_where_step(self.accounts@, username_matches(name@), i as int);
                assert(username_matches(name@)(self.accounts@[i as int]) == (self.accounts@[i as int].username@
                    == name@));
            }
            if str_eq(self.accounts[i].username.as_str(), name) {
                return Some(i);
            }
            i = i + 1;
        }
        proof {
            lemma_first_where_end(self.accounts@, username_matches(name@));
        }
        None
    }

    /// Register an account; `None` if the username is taken or the id
    /// space is exhausted.  Grown by the surrounding application at
    /// startup or signup; the login decision only reads the store.
    pub fn add_account(&mut self, username: &str, password: &str, account_type: Option<i32>) -> (r:
        Option<i32>)
        requires
            old(self).wf(),
        ensures
            final(self).wf(),
            match r {
                None => *final(self) == *old(self) && (old(self).spec_account_by_username(username@)
                    is Some || old(self).next_account_id == i32::MAX),
                Some(id) => {
                    &&& old(self).spec_account_by_username(username@) is None
                    &&& id == old(self).next_account_id
                    &&& final(self).accounts@.len() == old(self).accounts@.len() + 1
                    &&& final(self).accounts@.drop_last() == old(self).accounts@
                    &&& final(self).accounts@.last().id == id
                    &&& final(self).accounts@.last().username@ == username@
                    &&& final(self).accounts@.last().password@ == password@
                    &&& final(self).accounts@.last().account_type == account_type
                    &&& final(self).next_account_id == old(self).next_account_id + 1
                },
            },
    {
        match self.find_by_username(username) {
            Some(_) => None,
            None => {
                if self.next_account_id == i32::MAX {
                    return None;
                }
                let id = self.next_account_id;
                let row = AccountRow {
                    id,
                    username: String::from_str(username),
                    password: String::from_str(password),
                    account_type,
                };
                proof {
                    lemma_first_where_found(self.accounts@, username_matches(username@));
                    assert forall|i: int| 0 <= i < self.accounts@.len() implies #[trigger] self.accounts@[i].username@
                        != username@ by {
                        assert(!(username_matches(username@)(self.accounts@[i])));
                    }
                }
                self.accounts.push(row);
                proof {
                    assert(self.accounts@.drop_last() =~= old(self).accounts@);
                    assert forall|i: int, j: int|
                        0 <= i < j < self.accounts@.len() implies #[trigger] self.accounts@[i].username@
                        != #[trigger] self.accounts@[j].username@ by {
                        if j == self.accounts@.len() - 1 {
                            assert(self.accounts@[i] == old(self).accounts@[i]);
                        }
                    }
                }
                self.next_account_id = id + 1;
                Some(id)
            },
        }
    }
}

/// Decide a login request against the store, as `spec_login` says.
pub fn login(store: &AccountStore, info: &LoginInfo) -> (r: Result<(i32, i32), LedgerError>)
    ensures
        r == store.spec_login(info.name@, info.password@),
{
    match store.find_by_username(info.name.as_str()) {
        None => Err(LedgerError::InvalidCredentials),
        Some(k) => {
            if !str_eq(store.accounts[k].password.as_str(), info.password.as_str()) {
                Err(LedgerError::PasswordMismatch)
            } else {
                match store.accounts[k].account_type {
                    Some(t) => Ok((store.accounts[k].id, t)),
                    None => Ok((store.accounts[k].id, 1)),
                }
            }
        },
    }
}

} // verus!
