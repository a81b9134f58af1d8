//! Credential store: registration with a unique username, and login by
//! username and password.
use vstd::prelude::*;
use vstd::string::StringSliceAdditionalSpecFns;

use crate::hasher::{hash_password, hashes, lemma_hash_then_verify, verify_outcome, verify_password, Credential, CryptoError};
use crate::models::error::{LoginError, RegisterError};
use crate::models::token::Token;
use crate::session::{generate_token, token_shape};
use crate::store::{
    by_username, id_taken, name_taken, Account, Store, StoreError, MAX_USERNAME_LENGTH,
};

verus! {

/// The account called `name`, when there is one.
pub open spec fn account_named(accounts: Seq<Account>, name: Seq<char>) -> Account {
    let i = choose|i: int| 0 <= i < accounts.len() && (#[trigger] accounts[i]).username@ == name;
    accounts[i]
}

/// The store gained exactly one account, last, called `name`, and one
/// session, last, for that account.
pub open spec fn registered(old_store: Store, new_store: Store, name: Seq<char>) -> bool {
    let a = new_store.accounts().last();
    let s = new_store.sessions().last();
    &&& new_store.accounts().len() == old_store.accounts().len() + 1
    &&& new_store.accounts().drop_last() == old_store.accounts()
    &&& a.username@ == name
    &&& !id_taken(old_store.accounts(), a.id)
    &&& new_store.sessions().len() == old_store.sessions().len() + 1
    &&& new_store.sessions().drop_last() == old_store.sessions()
    &&& s.claims.sub == a.id
    &&& token_shape(s.token@)
}

/// Once a registration of `name` has succeeded, the name is taken, so
/// every later registration of it is a conflict; the new account's id was
/// not in use before.
pub proof fn lemma_register_then_conflict(old_store: Store, new_store: Store, name: Seq<char>)
    requires
        registered(old_store, new_store, name),
    ensures
        name_taken(new_store.accounts(), name),
        !id_taken(old_store.accounts(), new_store.accounts().last().id),
{
    let accs = new_store.accounts();
    let n = accs.len() - 1;
    assert((by_username())(accs[n]) == name);
}

/// After a registration of `name` with `password`, the password checks out
/// against the stored credential of the account called `name`, so a login
/// with it can only fail for internal reasons.
pub proof fn lemma_register_then_login(
    old_store: Store,
    new_store: Store,
    name: Seq<char>,
    password: Seq<u8>,
)
    requires
        new_store.wf(),
        registered(old_store, new_store, name),
        hashes(new_store.accounts().last().credential, password),
    ensures
        name_taken(new_store.accounts(), name),
        verify_outcome(
            account_named(new_store.accounts(), name).credential.salt@,
            password,
            account_named(new_store.accounts(), name).credential.digest@,
        ) == Ok::<bool, CryptoError>(true),
{
    let accs = new_store.accounts();
    let n = accs.len() - 1;
    assert((by_username())(accs[n]) == name);
    let k = choose|k: int| 0 <= k < accs.len() && (#[trigger] accs[k]).username@ == name;
    if k != n {
        assert((by_username())(accs[k]) == name);
    }
    lemma_hash_then_verify(accs[n].credential, password);
}

/// What login answers once the password check has returned `checked`: a
/// match goes on to open a session, a mismatch is unauthorized, and a
/// failure of the check itself is an internal error.
pub open spec fn login_outcome(checked: Result<bool, CryptoError>) -> Result<(), LoginError> {
    match checked {
        Ok(true) => Ok(()),
        Ok(false) => Err(LoginError::Unauthorized),
        Err(_) => Err(LoginError::InternalServerError),
    }
}

/// Turns the outcome of the password check into login's answer.
pub fn login_answer(checked: Result<bool, CryptoError>) -> (r: Result<(), LoginError>)
    ensures
        r == login_outcome(checked),
{
    match checked {
        Ok(true) => Ok(()),
        Ok(false) => Err(LoginError::Unauthorized),
        Err(_) => Err(LoginError::InternalServerError),
    }
}

impl Store {
    /// Adds an account with an already derived credential. The username must
    /// be free, which the store enforces in the same step as the insert, and
    /// at most 32 characters long; a longer one is refused by the store.
    pub fn register_account(&mut self, username: &str, credential: Credential) -> (r: Result<
        u64,
        RegisterError,
    >)
        requires
            old(self).wf(),
        ensures
            final(self).wf(),
            final(self).sessions() == old(self).sessions(),
            final(self).channels() == old(self).channels(),
            final(self).members() == old(self).members(),
            final(self).messages() == old(self).messages(),
            name_taken(old(self).accounts(), username@) <==> r == Err::<u64, RegisterError>(
                RegisterError::Conflict,
            ),
            r == Err::<u64, RegisterError>(RegisterError::InternalServerError) <==> !name_taken(
                old(self).accounts(),
                username@,
            ) && (username@.len() > MAX_USERNAME_LENGTH || old(self).next_id() == u64::MAX),
            r is Err ==> final(self).accounts() == old(self).accounts(),
            r is Ok ==> {
                let a = final(self).accounts().last();
                &&& final(self).accounts().len() == old(self).accounts().len() + 1
                &&& final(self).accounts().drop_last() == old(self).accounts()
                &&& a.id == r->Ok_0 && a.username@ == username@ && a.credential == credential
                &&& !id_taken(old(self).accounts(), a.id)
            },
    {
        match self.insert_account(username, credential) {
            Ok(id) => Ok(id),
            Err(StoreError::UniqueViolation) => Err(RegisterError::Conflict),
            Err(StoreError::Other) => Err(RegisterError::InternalServerError),
        }
    }

    /// Registers `username` with `password` and opens a first session for
    /// the new account, all or nothing: on any error the store keeps no new
    /// account and no new session. A taken username is a conflict; a
    /// username longer than 32 characters is refused by the store.
    pub fn register(&mut self, username: &str, password: &str) -> (r: Result<Token, RegisterError>)
        requires
            old(self).wf(),
        ensures
            final(self).wf(),
            final(self).channels() == old(self).channels(),
            final(self).members() == old(self).members(),
            final(self).messages() == old(self).messages(),
            name_taken(old(self).accounts(), username@) <==> r == Err::<Token, RegisterError>(
                RegisterError::Conflict,
            ),
            !name_taken(old(self).accounts(), username@) && username@.len() > MAX_USERNAME_LENGTH
                ==> r == Err::<Token, RegisterError>(RegisterError::InternalServerError)
                && final(self).accounts() == old(self).accounts(),
            r is Err ==> final(self).accounts() == old(self).accounts() && final(self).sessions()
                == old(self).sessions(),
            r is Ok ==> {
                &&& !name_taken(old(self).accounts(), username@)
                &&& registered(*old(self), *final(self), username@)
                &&& hashes(final(self).accounts().last().credential, password.spec_bytes())
                &&& r->Ok_0.access_token@ == final(self).sessions().last().token@.map_values(
                    |c: u8| c as char,
                )
            },
    {
        if self.find_account(username).is_some() {
            return Err(RegisterError::Conflict);
        }
        let credential = match hash_password(password.as_bytes()) {
            Ok(c) => c,
            Err(_) => return Err(RegisterError::InternalServerError),
        };
        let id = match self.register_account(username, credential) {
            Ok(id) => id,
            Err(e) => return Err(e),
        };
        match generate_token(self, id) {
            Ok(token) => Ok(token),
            Err(_) => {
                self.remove_last_account();
                Err(RegisterError::InternalServerError)
            },
        }
    }

    /// Logs in: checks `password` against the credential of the account
    /// called `username` and, when it matches, opens a session for that
    /// account. An unknown username answers `Unauthorized`; the outcome of
    /// the password check is turned into the answer by `login_answer`.
    pub fn login(&mut self, username: &str, password: &str) -> (r: Result<Token, LoginError>)
        requires
            old(self).wf(),
        ensures
            final(self).wf(),
            final(self).accounts() == old(self).accounts(),
            final(self).channels() == old(self).channels(),
            final(self).members() == old(self).members(),
            final(self).messages() == old(self).messages(),
            !name_taken(old(self).accounts(), username@) ==> r == Err::<Token, LoginError>(
                LoginError::Unauthorized,
            ),
            name_taken(old(self).accounts(), username@) && verify_outcome(
                account_named(old(self).accounts(), username@).credential.salt@,
                password.spec_bytes(),
                account_named(old(self).accounts(), username@).credential.digest@,
            ) != Ok::<bool, CryptoError>(true) ==> r is Err,
            r == Err::<Token, LoginError>(LoginError::Unauthorized) ==> !name_taken(
                old(self).accounts(),
                username@,
            ) || verify_outcome(
                account_named(old(self).accounts(), username@).credential.salt@,
                password.spec_bytes(),
                account_named(old(self).accounts(), username@).credential.digest@,
            ) == Ok::<bool, CryptoError>(false),
            r == Err::<Token, LoginError>(LoginError::InternalServerError) ==> name_taken(
                old(self).accounts(),
                username@,
            ),
            r is Err ==> final(self).sessions() == old(self).sessions(),
            r is Ok ==> {
                let s = final(self).sessions().last();
                &&& name_taken(old(self).accounts(), username@)
                &&& final(self).sessions().len() == old(self).sessions().len() + 1
                &&& final(self).sessions().drop_last() == old(self).sessions()
                &&& s.claims.sub == account_named(old(self).accounts(), username@).id
                &&& token_shape(s.token@)
                &&& r->Ok_0.access_token@ == s.token@.map_values(|c: u8| c as char)
            },
    {
        let i = match self.find_account(username) {
            Some(i) => i,
            None => return Err(LoginError::Unauthorized),
        };
        proof {
            let accs = self.accounts();
            let k = choose|k: int| 0 <= k < accs.len() && (#[trigger] accs[k]).username@ == username@;
            if k != i {
                assert((by_username())(accs[k]) == (by_username())(accs[i as int]));
            }
        }
        let account = self.account_at(i);
        let id = account.id;
        let checked = verify_password(
            account.credential.salt.as_slice(),
            password.as_bytes(),
            account.credential.digest.as_slice(),
        );
        if let Err(e) = login_answer(checked) {
            return Err(e);
        }
        match generate_token(self, id) {
            Ok(token) => Ok(token),
            Err(_) => Err(LoginError::InternalServerError),
        }
    }
}

} // verus!
