//! In-memory record store: accounts with their credentials, sessions keyed
//! by token, channels, memberships and messages. It enforces the uniqueness
//! constraints itself, so a conflicting insert is refused atomically.
use vstd::prelude::*;

use vstd::string::StrSliceExecFns;

use crate::hasher::Credential;
use crate::seqs::{has_key, lemma_unique_push, lemma_unique_remove, lemma_unique_update, unique_by};
use crate::models::channel::Channel;
use crate::models::member::{Member, UserRole};
use crate::models::message::Message;
use crate::models::permissions::AuthClaims;

verus! {

/// Longest username, in characters.
pub const MAX_USERNAME_LENGTH: usize = 32;

/// Most messages one listing returns.
pub const MESSAGE_PAGE: usize = 50;

/// A registered account.
#[derive(Clone, Debug)]
pub struct Account {
    pub id: u64,
    pub username: String,
    pub credential: Credential,
}

/// A stored session: the token's bytes and what it grants.
#[derive(Clone, Debug)]
pub struct Session {
    pub token: Vec<u8>,
    pub claims: AuthClaims,
}

/// Failure of a store write.
#[derive(Clone, Copy, Debug, PartialEq, Eq, Structural)]
pub enum StoreError {
    /// The record would break a uniqueness constraint.
    UniqueViolation,
    /// The store cannot take the record for another reason.
    Other,
}

/// Key of an account by name.
pub open spec fn by_username() -> spec_fn(Account) -> Seq<char> {
    |a: Account| a.username@
}

/// Key of an account by id.
pub open spec fn by_account_id() -> spec_fn(Account) -> u64 {
    |a: Account| a.id
}

/// Key of a session by token.
pub open spec fn by_token() -> spec_fn(Session) -> Seq<u8> {
    |s: Session| s.token@
}

/// Key of a channel by id.
pub open spec fn by_channel_id() -> spec_fn(Channel) -> u64 {
    |c: Channel| c.id
}

/// Key of a membership: its account and its channel.
pub open spec fn by_membership() -> spec_fn(Member) -> (u64, u64) {
    |m: Member| (m.user_id, m.channel_id)
}

/// Key of a message by id.
pub open spec fn by_message_id() -> spec_fn(Message) -> u64 {
    |m: Message| m.id
}

/// Whether some account is called `name`.
pub open spec fn name_taken(accounts: Seq<Account>, name: Seq<char>) -> bool {
    has_key(accounts, by_username(), name)
}

/// Whether some account has id `id`.
pub open spec fn id_taken(accounts: Seq<Account>, id: u64) -> bool {
    has_key(accounts, by_account_id(), id)
}

/// The claims stored under `token`, if any.
pub open spec fn session_of(sessions: Seq<Session>, token: Seq<u8>) -> Option<AuthClaims> {
    if has_key(sessions, by_token(), token) {
        let i = choose|i: int| 0 <= i < sessions.len() && (#[trigger] sessions[i]).token@ == token;
        Some(sessions[i].claims)
    } else {
        None
    }
}

/// The role `user` holds in `channel`, if it is a member.
pub open spec fn role_in(members: Seq<Member>, user: u64, channel: u64) -> Option<UserRole> {
    if has_key(members, by_membership(), (user, channel)) {
        let i = choose|i: int|
            0 <= i < members.len() && (#[trigger] members[i]).user_id == user
                && members[i].channel_id == channel;
        Some(members[i].role)
    } else {
        None
    }
}

/// Whether `channel` has an admin other than `user`.
pub open spec fn has_other_admin(members: Seq<Member>, channel: u64, user: u64) -> bool {
    exists|i: int|
        0 <= i < members.len() && (#[trigger] members[i]).channel_id == channel
            && members[i].role == UserRole::Admin && members[i].user_id != user
}

/// Whether some channel has id `id`.
pub open spec fn channel_exists(channels: Seq<Channel>, id: u64) -> bool {
    has_key(channels, by_channel_id(), id)
}

/// Whether `channel` has an admin.
pub open spec fn has_admin(members: Seq<Member>, channel: u64) -> bool {
    exists|i: int|
        0 <= i < members.len() && (#[trigger] members[i]).channel_id == channel && members[i].role
            == UserRole::Admin
}

/// Every channel has at least one admin.
pub open spec fn channels_have_admins(channels: Seq<Channel>, members: Seq<Member>) -> bool {
    forall|c: int| 0 <= c < channels.len() ==> has_admin(members, (#[trigger] channels[c]).id)
}

/// The first page of a listing.
pub open spec fn first_page<A>(s: Seq<A>) -> Seq<A> {
    if s.len() <= MESSAGE_PAGE {
        s
    } else {
        s.take(MESSAGE_PAGE as int)
    }
}

proof fn lemma_filter_step<A>(s: Seq<A>, p: spec_fn(A) -> bool, i: int)
    requires
        0 <= i < s.len(),
    ensures
        s.take(i + 1).filter(p) == if p(s[i]) {
            s.take(i).filter(p).push(s[i])
        } else {
            s.take(i).filter(p)
        },
{
    reveal(Seq::filter);
    assert(s.take(i + 1).drop_last() =~= s.take(i));
}

/// The filtered prefix up to `i` is a prefix of the filtered prefix up to `j`.
proof fn lemma_filter_prefix<A>(s: Seq<A>, p: spec_fn(A) -> bool, i: int, j: int)
    requires
        0 <= i <= j <= s.len(),
    ensures
        s.take(i).filter(p).len() <= s.take(j).filter(p).len(),
        s.take(j).filter(p).take(s.take(i).filter(p).len() as int) == s.take(i).filter(p),
    decreases j - i,
{
    if i < j {
        lemma_filter_prefix(s, p, i, j - 1);
        lemma_filter_step(s, p, j - 1);
        let a = s.take(i).filter(p);
        let b = s.take(j - 1).filter(p);
        if p(s[j - 1]) {
            assert(b.push(s[j - 1]).take(a.len() as int) =~= b.take(a.len() as int));
        }
    } else {
        assert(s.take(i).filter(p).take(s.take(i).filter(p).len() as int) =~= s.take(i).filter(p));
    }
}

/// The records of the service.
pub struct Store {
    accounts: Vec<Account>,
    sessions: Vec<Session>,
    channels: Vec<Channel>,
    members: Vec<Member>,
    messages: Vec<Message>,
    next_id: u64,
}

impl Store {
    /// The registered accounts, in order of registration.
    pub closed spec fn accounts(&self) -> Seq<Account> {
        self.accounts@
    }

    /// The stored sessions.
    pub closed spec fn sessions(&self) -> Seq<Session> {
        self.sessions@
    }

    /// The channels.
    pub closed spec fn channels(&self) -> Seq<Channel> {
        self.channels@
    }

    /// The membership rows.
    pub closed spec fn members(&self) -> Seq<Member> {
        self.members@
    }

    /// The messages, in order of posting.
    pub closed spec fn messages(&self) -> Seq<Message> {
        self.messages@
    }

    /// The id the next created record receives; every id in use is below it.
    pub closed spec fn next_id(&self) -> u64 {
        self.next_id
    }

    /// The uniqueness constraints: usernames, account ids, session tokens,
    /// channel ids, message ids and (account, channel) memberships are
    /// unique, and every id is below the next one to hand out.
    pub open spec fn wf(&self) -> bool {
        &&& unique_by(self.accounts(), by_username())
        &&& unique_by(self.accounts(), by_account_id())
        &&& forall|i: int|
            0 <= i < self.accounts().len() ==> (#[trigger] self.accounts()[i]).username@.len()
                <= MAX_USERNAME_LENGTH
        &&& forall|i: int|
            0 <= i < self.accounts().len() ==> (#[trigger] self.accounts()[i]).id < self.next_id()
        &&& unique_by(self.sessions(), by_token())
        &&& unique_by(self.channels(), by_channel_id())
        &&& forall|i: int|
            0 <= i < self.channels().len() ==> (#[trigger] self.channels()[i]).id < self.next_id()
        &&& unique_by(self.members(), by_membership())
        &&& forall|i: int|
            0 <= i < self.members().len() ==> channel_exists(
                self.channels(),
                (#[trigger] self.members()[i]).channel_id,
            )
        &&& unique_by(self.messages(), by_message_id())
        &&& forall|i: int|
            0 <= i < self.messages().len() ==> (#[trigger] self.messages()[i]).id < self.next_id()
    }

    /// An empty store.
    pub fn new() -> (r: Store)
        ensures
            r.wf(),
            channels_have_admins(r.channels(), r.members()),
            r.accounts().len() == 0,
            r.sessions().len() == 0,
            r.channels().len() == 0,
            r.members().len() == 0,
            r.messages().len() == 0,
    {
        Store {
            accounts: Vec::new(),
            sessions: Vec::new(),
            channels: Vec::new(),
            members: Vec::new(),
            messages: Vec::new(),
            next_id: 1,
        }
    }

    /// Hands out a fresh id, or `None` once ids are exhausted.
    fn fresh_id(&mut self) -> (r: Option<u64>)
        requires
            old(self).wf(),
        ensures
            final(self).wf(),
            final(self).accounts() == old(self).accounts(),
            final(self).sessions() == old(self).sessions(),
            final(self).channels() == old(self).channels(),
            final(self).members() == old(self).members(),
            final(self).messages() == old(self).messages(),
            r is None <==> old(self).next_id() == u64::MAX,
            r is Some ==> r->Some_0 == old(self).next_id() && final(self).next_id() == r->Some_0
                + 1,
            r is None ==> final(self).next_id() == old(self).next_id(),
    {
        if self.next_id == u64::MAX {
            None
        } else {
            let id = self.next_id;
            self.next_id = id + 1;
            assert(self.accounts() == old(self).accounts());
            assert(self.channels() == old(self).channels());
            assert(self.messages() == old(self).messages());
            assert(self.sessions() == old(self).sessions());
            assert(self.members() == old(self).members());
            Some(id)
        }
    }

    // ---- accounts ----

    /// The position of the account called `username`, if there is one.
    pub fn find_account(&self, username: &str) -> (r: Option<usize>)
        requires
            self.wf(),
        ensures
            r is None <==> !name_taken(self.accounts(), username@),
            r is Some ==> r->Some_0 < self.accounts().len() && self.accounts()[r->Some_0 as int].username@
                == username@,
    {
        let key = username.to_owned();
        let mut i: usize = 0;
        while i < self.accounts.len()
            invariant
                i <= self.accounts@.len(),
                key@ == username@,
                forall|j: int| 0 <= j < i ==> (#[trigger] self.accounts@[j]).username@ != username@,
            decreases self.accounts@.len() - i,
        {
            if self.accounts[i].username == key {
                return Some(i);
            }
            i = i + 1;
        }
        None
    }

    /// The account at position `i`.
    pub fn account_at(&self, i: usize) -> (r: &Account)
        requires
            i < self.accounts().len(),
        ensures
            *r == self.accounts()[i as int],
    {
        &self.accounts[i]
    }

    /// Whether an account has id `id`.
    pub fn has_account(&self, id: u64) -> (r: bool)
        ensures
            r == id_taken(self.accounts(), id),
    {
        let mut i: usize = 0;
        while i < self.accounts.len()
            invariant
                i <= self.accounts@.len(),
                forall|j: int| 0 <= j < i ==> (#[trigger] self.accounts@[j]).id != id,
            decreases self.accounts@.len() - i,
        {
            if self.accounts[i].id == id {
                return true;
            }
            i = i + 1;
        }
        false
    }

    /// Adds an account under a fresh id. The username must be unused (the
    /// check and the insert are one step) and at most 32 characters long.
    pub(crate) fn insert_account(&mut self, username: &str, credential: Credential) -> (r: Result<
        u64,
        StoreError,
    >)
        requires
            old(self).wf(),
        ensures
            final(self).wf(),
            final(self).sessions() == old(self).sessions(),
            final(self).channels() == old(self).channels(),
            final(self).members() == old(self).members(),
            final(self).messages() == old(self).messages(),
            name_taken(old(self).accounts(), username@) <==> r == Err::<u64, StoreError>(
                StoreError::UniqueViolation,
            ),
            !name_taken(old(self).accounts(), username@) && (username@.len() > MAX_USERNAME_LENGTH
                || old(self).next_id() == u64::MAX) <==> r == Err::<u64, StoreError>(
                StoreError::Other,
            ),
            r is Err ==> final(self).accounts() == old(self).accounts(),
            r is Ok ==> {
                &&& !name_taken(old(self).accounts(), username@)
                &&& !id_taken(old(self).accounts(), r->Ok_0)
                &&& final(self).accounts().len() == old(self).accounts().len() + 1
                &&& final(self).accounts().drop_last() == old(self).accounts()
                &&& final(self).accounts().last().id == r->Ok_0
                &&& final(self).accounts().last().username@ == username@
                &&& final(self).accounts().last().credential == credential
            },
    {
        if self.find_account(username).is_some() {
            return Err(StoreError::UniqueViolation);
        }
        if username.unicode_len() > MAX_USERNAME_LENGTH {
            return Err(StoreError::Other);
        }
        let id = match self.fresh_id() {
            Some(id) => id,
            None => return Err(StoreError::Other),
        };
        let account = Account { id, username: username.to_owned(), credential };
        self.accounts.push(account);
        assert(self.accounts@.drop_last() =~= old(self).accounts@);
        Ok(id)
    }

    /// Removes the most recently added account, undoing its registration.
    pub(crate) fn remove_last_account(&mut self)
        requires
            old(self).wf(),
            old(self).accounts().len() > 0,
        ensures
            final(self).wf(),
            final(self).accounts() == old(self).accounts().drop_last(),
            final(self).sessions() == old(self).sessions(),
            final(self).channels() == old(self).channels(),
            final(self).members() == old(self).members(),
            final(self).messages() == old(self).messages(),
            final(self).next_id() == old(self).next_id(),
    {
        let ghost before = self.accounts();
        let n = self.accounts.len() - 1;
        proof {
            lemma_unique_remove(before, by_username(), n as int);
            lemma_unique_remove(before, by_account_id(), n as int);
            assert(before.remove(n as int) =~= before.drop_last());
        }
        self.accounts.pop();
        proof {
            assert(self.accounts() =~= before.drop_last());
            assert(self.sessions() == old(self).sessions());
            assert(self.channels() == old(self).channels());
            assert(self.members() == old(self).members());
            assert(self.messages() == old(self).messages());
            assert forall|i: int| 0 <= i < self.accounts().len() implies (
            #[trigger] self.accounts()[i]).id < self.next_id() && self.accounts()[i].username@.len()
                <= MAX_USERNAME_LENGTH by {
                assert(self.accounts()[i] == before[i]);
            }
        }
    }

    // ---- sessions ----

    /// The claims stored under `token`, if any.
    pub fn find_session(&self, token: &[u8]) -> (r: Option<AuthClaims>)
        requires
            self.wf(),
        ensures
            r == session_of(self.sessions(), token@),
    {
        let mut i: usize = 0;
        while i < self.sessions.len()
            invariant
                self.wf(),
                i <= self.sessions@.len(),
                forall|j: int| 0 <= j < i ==> (#[trigger] self.sessions@[j]).token@ != token@,
            decreases self.sessions@.len() - i,
        {
            let s = &self.sessions[i];
            if s.token.len() == token.len() && openssl::memcmp::eq(s.token.as_slice(), token) {
                proof {
                    let k = choose|k: int|
                        0 <= k < self.sessions@.len() && (#[trigger] self.sessions@[k]).token@
                            == token@;
                    assert(k == i);
                }
                return Some(s.claims);
            }
            i = i + 1;
        }
        None
    }

    /// Stores a session under a token that is not in use yet.
    pub(crate) fn insert_session(&mut self, token: Vec<u8>, claims: AuthClaims) -> (r: Result<
        (),
        StoreError,
    >)
        requires
            old(self).wf(),
        ensures
            final(self).wf(),
            final(self).accounts() == old(self).accounts(),
            final(self).channels() == old(self).channels(),
            final(self).members() == old(self).members(),
            final(self).messages() == old(self).messages(),
            final(self).next_id() == old(self).next_id(),
            r is Err <==> session_of(old(self).sessions(), token@) is Some,
            r is Err ==> r == Err::<(), StoreError>(StoreError::UniqueViolation)
                && final(self).sessions() == old(self).sessions(),
            r is Ok ==> final(self).sessions() == old(self).sessions().push(
                Session { token, claims },
            ),
    {
        if self.find_session(token.as_slice()).is_some() {
            return Err(StoreError::UniqueViolation);
        }
        let ghost old_sessions = self.sessions();
        self.sessions.push(Session { token, claims });
        proof {
            assert(self.accounts() == old(self).accounts());
            assert(self.channels() == old(self).channels());
            assert(self.messages() == old(self).messages());
            assert(self.members() == old(self).members());
            let s = self.sessions();
            assert(s == old_sessions.push(Session { token, claims }));
            assert forall|i: int, j: int|
                0 <= i < s.len() && 0 <= j < s.len() && i != j implies (#[trigger] s[i]).token@ != (
            #[trigger] s[j]).token@ by {
                if i == old_sessions.len() as int {
                    assert(old_sessions[j] == s[j]);
                } else if j == old_sessions.len() as int {
                    assert(old_sessions[i] == s[i]);
                } else {
                    assert(old_sessions[i] == s[i]);
                    assert(old_sessions[j] == s[j]);
                }
            }
        }
        Ok(())
    }

    /// Removes the session stored under `token`; nothing happens when there
    /// is none, so removing twice is harmless.
    pub(crate) fn delete_session(&mut self, token: &[u8])
        requires
            old(self).wf(),
        ensures
            final(self).wf(),
            final(self).accounts() == old(self).accounts(),
            final(self).channels() == old(self).channels(),
            final(self).members() == old(self).members(),
            final(self).messages() == old(self).messages(),
            final(self).next_id() == old(self).next_id(),
            session_of(final(self).sessions(), token@) is None,
            session_of(old(self).sessions(), token@) is None ==> final(self).sessions() == old(
                self,
            ).sessions(),
            forall|t: Seq<u8>|
                t != token@ ==> #[trigger] session_of(final(self).sessions(), t) == session_of(
                    old(self).sessions(),
                    t,
                ),
    {
        let mut i: usize = 0;
        while i < self.sessions.len()
            invariant
                self.wf(),
                *self == *old(self),
                i <= self.sessions@.len(),
                forall|j: int| 0 <= j < i ==> (#[trigger] self.sessions@[j]).token@ != token@,
            decreases self.sessions@.len() - i,
        {
            if self.sessions[i].token.len() == token.len() && openssl::memcmp::eq(
                self.sessions[i].token.as_slice(),
                token,
            ) {
                let ghost before = self.sessions@;
                self.sessions.remove(i);
                proof {
                    assert(self.sessions@ =~= before.remove(i as int));
                    assert(self.accounts() == old(self).accounts());
                    assert(self.channels() == old(self).channels());
                    assert(self.messages() == old(self).messages());
                    assert(self.members() == old(self).members());
                    let s = self.sessions();
                    assert forall|a: int, b: int|
                        0 <= a < s.len() && 0 <= b < s.len() && a != b implies (#[trigger] s[a]).token@
                        != (#[trigger] s[b]).token@ by {
                        let a2 = if a < i { a } else { a + 1 };
                        let b2 = if b < i { b } else { b + 1 };
                        assert(s[a] == before[a2]);
                        assert(s[b] == before[b2]);
                    }
                    assert forall|t: Seq<u8>| t != token@ implies #[trigger] session_of(
                        self.sessions@,
                        t,
                    ) == session_of(before, t) by {
                        if exists|k: int|
                            0 <= k < before.len() && (#[trigger] before[k]).token@ == t {
                            let k = choose|k: int|
                                0 <= k < before.len() && (#[trigger] before[k]).token@ == t;
                            let k2 = if k < i {
                                k
                            } else {
                                k - 1
                            };
                            assert(self.sessions@[k2] == before[k]);
                        }
                        if exists|k: int|
                            0 <= k < self.sessions@.len() && (#[trigger] self.sessions@[k]).token@
                                == t {
                            let k = choose|k: int|
                                0 <= k < self.sessions@.len() && (
                                #[trigger] self.sessions@[k]).token@ == t;
                            let k2 = if k < i {
                                k
                            } else {
                                k + 1
                            };
                            assert(self.sessions@[k] == before[k2]);
                        }
                    }
                    assert forall|k: int| 0 <= k < self.sessions@.len() implies (
                    #[trigger] self.sessions@[k]).token@ != token@ by {
                        let k2 = if k < i {
                            k
                        } else {
                            k + 1
                        };
                        assert(self.sessions@[k] == before[k2]);
                    }
                }
                return ;
            }
            i = i + 1;
        }
    }

    // ---- channels ----

    /// Creates a channel under a fresh id.
    pub(crate) fn insert_channel(&mut self, name: String) -> (r: Result<u64, StoreError>)
        requires
            old(self).wf(),
        ensures
            final(self).wf(),
            final(self).accounts() == old(self).accounts(),
            final(self).sessions() == old(self).sessions(),
            final(self).members() == old(self).members(),
            final(self).messages() == old(self).messages(),
            r is Err <==> old(self).next_id() == u64::MAX,
            r is Err ==> r == Err::<u64, StoreError>(StoreError::Other) && final(self).channels()
                == old(self).channels(),
            r is Ok ==> !channel_exists(old(self).channels(), r->Ok_0) && final(self).channels()
                == old(self).channels().push(Channel { id: r->Ok_0, name }),
    {
        let id = match self.fresh_id() {
            Some(id) => id,
            None => return Err(StoreError::Other),
        };
        let ghost before = self.channels();
        proof {
            if channel_exists(before, id) {
                let i = choose|i: int| 0 <= i < before.len() && (#[trigger] before[i]).id == id;
                assert((by_channel_id())(before[i]) == id);
            }
            lemma_unique_push(before, by_channel_id(), Channel { id, name });
        }
        self.channels.push(Channel { id, name });
        proof {
            assert(self.channels() == before.push(Channel { id, name }));
            assert forall|i: int| 0 <= i < self.channels().len() implies (
            #[trigger] self.channels()[i]).id < self.next_id() by {
                if i < before.len() {
                    assert(self.channels()[i] == before[i]);
                }
            }
        }
        Ok(id)
    }

    /// The position of the channel with id `id`, if there is one.
    pub fn find_channel(&self, id: u64) -> (r: Option<usize>)
        requires
            self.wf(),
        ensures
            r is None <==> !channel_exists(self.channels(), id),
            r is Some ==> r->Some_0 < self.channels().len() && self.channels()[r->Some_0 as int].id
                == id,
    {
        let mut i: usize = 0;
        while i < self.channels.len()
            invariant
                i <= self.channels().len(),
                self.channels() == self.channels@,
                forall|j: int| 0 <= j < i ==> (#[trigger] self.channels()[j]).id != id,
            decreases self.channels@.len() - i,
        {
            if self.channels[i].id == id {
                return Some(i);
            }
            i = i + 1;
        }
        None
    }

    /// The channel at position `i`.
    pub fn channel_at(&self, i: usize) -> (r: &Channel)
        requires
            i < self.channels().len(),
        ensures
            *r == self.channels()[i as int],
    {
        &self.channels[i]
    }

    /// Renames the channel at position `i`.
    pub(crate) fn set_channel_name(&mut self, i: usize, name: String)
        requires
            old(self).wf(),
            i < old(self).channels().len(),
        ensures
            final(self).wf(),
            final(self).accounts() == old(self).accounts(),
            final(self).sessions() == old(self).sessions(),
            final(self).members() == old(self).members(),
            final(self).messages() == old(self).messages(),
            final(self).next_id() == old(self).next_id(),
            final(self).channels() == old(self).channels().update(
                i as int,
                Channel { id: old(self).channels()[i as int].id, name },
            ),
    {
        let id = self.channels[i].id;
        let ghost before = self.channels();
        proof {
            lemma_unique_update(before, by_channel_id(), i as int, Channel { id, name });
        }
        self.channels.set(i, Channel { id, name });
        proof {
            assert(self.channels() == before.update(i as int, Channel { id, name }));
            assert forall|j: int| 0 <= j < self.channels().len() implies (
            #[trigger] self.channels()[j]).id < self.next_id() by {
                assert(self.channels()[j].id == before[j].id);
            }
        }
    }

    /// Removes the channel at position `i` together with its memberships
    /// and its messages.
    pub(crate) fn remove_channel_at(&mut self, i: usize) -> (r: Channel)
        requires
            old(self).wf(),
            i < old(self).channels().len(),
        ensures
            final(self).wf(),
            r == old(self).channels()[i as int],
            final(self).accounts() == old(self).accounts(),
            final(self).sessions() == old(self).sessions(),
            final(self).next_id() == old(self).next_id(),
            final(self).channels() == old(self).channels().remove(i as int),
            forall|m: Member|
                #[trigger] final(self).members().contains(m) <==> old(self).members().contains(m)
                    && m.channel_id != r.id,
            forall|m: Message|
                #[trigger] final(self).messages().contains(m) <==> old(self).messages().contains(m)
                    && m.channel_id != r.id,
    {
        let id = self.channels[i].id;
        let ghost members0 = self.members();
        let mut k: usize = 0;
        while k < self.members.len()
            invariant
                self.wf(),
                self.accounts() == old(self).accounts(),
                self.sessions() == old(self).sessions(),
                self.channels() == old(self).channels(),
                self.messages() == old(self).messages(),
                self.next_id() == old(self).next_id(),
                members0 == old(self).members(),
                k <= self.members().len(),
                forall|j: int| 0 <= j < k ==> (#[trigger] self.members()[j]).channel_id != id,
                forall|m: Member| #[trigger] self.members().contains(m) ==> members0.contains(m),
                forall|m: Member|
                    members0.contains(m) && m.channel_id != id ==> #[trigger] self.members().contains(m),
            decreases self.members@.len() - k,
        {
            if self.members[k].channel_id == id {
                let ghost cur = self.members();
                proof {
                    lemma_unique_remove(cur, by_membership(), k as int);
                    assert forall|m: Member| members0.contains(m) && m.channel_id != id implies
                        #[trigger] cur.remove(k as int).contains(m) by {
                        assert(cur.contains(m));
                        let j = choose|j: int| 0 <= j < cur.len() && cur[j] == m;
                        assert(j != k);
                    }
                }
                self.members.remove(k);
                proof {
                    assert(self.members() == cur.remove(k as int));
                    assert forall|j: int| 0 <= j < k implies (#[trigger] self.members()[j]).channel_id != id by {
                        assert(self.members()[j] == cur[j]);
                    }
                }
            } else {
                k = k + 1;
            }
        }
        let ghost messages0 = self.messages();
        let mut k: usize = 0;
        while k < self.messages.len()
            invariant
                self.wf(),
                self.accounts() == old(self).accounts(),
                self.sessions() == old(self).sessions(),
                self.channels() == old(self).channels(),
                self.next_id() == old(self).next_id(),
                messages0 == old(self).messages(),
                k <= self.messages().len(),
                forall|m: Member|
                    #[trigger] self.members().contains(m) <==> old(self).members().contains(m)
                        && m.channel_id != id,
                forall|j: int| 0 <= j < k ==> (#[trigger] self.messages()[j]).channel_id != id,
                forall|m: Message| #[trigger] self.messages().contains(m) ==> messages0.contains(m),
                forall|m: Message|
                    messages0.contains(m) && m.channel_id != id ==> #[trigger] self.messages().contains(m),
            decreases self.messages@.len() - k,
        {
            if self.messages[k].channel_id == id {
                let ghost cur = self.messages();
                proof {
                    lemma_unique_remove(cur, by_message_id(), k as int);
                    assert forall|m: Message| messages0.contains(m) && m.channel_id != id implies
                        #[trigger] cur.remove(k as int).contains(m) by {
                        assert(cur.contains(m));
                        let j = choose|j: int| 0 <= j < cur.len() && cur[j] == m;
                        assert(j != k);
                    }
                }
                self.messages.remove(k);
                proof {
                    assert(self.messages() == cur.remove(k as int));
                    assert forall|j: int| 0 <= j < k implies (#[trigger] self.messages()[j]).channel_id != id by {
                        assert(self.messages()[j] == cur[j]);
                    }
                    assert forall|j: int| 0 <= j < self.messages().len() implies (
                    #[trigger] self.messages()[j]).id < self.next_id() by {
                        let j2 = if j < k { j } else { j + 1 };
                        assert(self.messages()[j] == cur[j2]);
                    }
                }
            } else {
                k = k + 1;
            }
        }
        let ghost before = self.channels();
        proof {
            lemma_unique_remove(before, by_channel_id(), i as int);
            assert forall|j: int| 0 <= j < self.members().len() implies (
            #[trigger] self.members()[j]).channel_id != id by {
                assert(self.members().contains(self.members()[j]));
            }
        }
        let channel = self.channels.remove(i);
        proof {
            assert(self.channels() == before.remove(i as int));
            assert forall|j: int| 0 <= j < self.channels().len() implies (
            #[trigger] self.channels()[j]).id < self.next_id() by {
                let j2 = if j < i { j } else { j + 1 };
                assert(self.channels()[j] == before[j2]);
            }
            assert forall|j: int| 0 <= j < self.members().len() implies channel_exists(
                self.channels(),
                (#[trigger] self.members()[j]).channel_id,
            ) by {
                assert(channel_exists(before, self.members()[j].channel_id));
                assert(self.members()[j].channel_id != id);
            }
        }
        proof {
            assert forall|m: Member| #[trigger] self.members().contains(m) implies m.channel_id != id by {
                let j = choose|j: int| 0 <= j < self.members().len() && self.members()[j] == m;
            }
            assert forall|m: Message| #[trigger] self.messages().contains(m) implies m.channel_id != id by {
                let j = choose|j: int| 0 <= j < self.messages().len() && self.messages()[j] == m;
            }
        }
        channel
    }

    // ---- memberships ----

    /// The position of `user`'s membership in `channel`, if any.
    pub fn find_membership(&self, user: u64, channel: u64) -> (r: Option<usize>)
        requires
            self.wf(),
        ensures
            r is None <==> role_in(self.members(), user, channel) is None,
            r is Some ==> {
                let m = self.members()[r->Some_0 as int];
                &&& r->Some_0 < self.members().len()
                &&& m.user_id == user && m.channel_id == channel
                &&& role_in(self.members(), user, channel) == Some(m.role)
            },
    {
        let mut i: usize = 0;
        while i < self.members.len()
            invariant
                self.wf(),
                i <= self.members().len(),
                self.members() == self.members@,
                forall|j: int|
                    0 <= j < i ==> !((#[trigger] self.members()[j]).user_id == user
                        && self.members()[j].channel_id == channel),
            decreases self.members@.len() - i,
        {
            let m = self.members[i];
            if m.user_id == user && m.channel_id == channel {
                proof {
                    assert((by_membership())(self.members()[i as int]) == (user, channel));
                    let k = choose|k: int|
                        0 <= k < self.members().len() && (#[trigger] self.members()[k]).user_id
                            == user && self.members()[k].channel_id == channel;
                    assert((by_membership())(self.members()[k]) == (user, channel));
                    assert(k == i);
                }
                return Some(i);
            }
            i = i + 1;
        }
        proof {
            if has_key(self.members(), by_membership(), (user, channel)) {
                let k = choose|k: int|
                    0 <= k < self.members().len() && (by_membership())(#[trigger] self.members()[k])
                        == (user, channel);
                assert(self.members()[k].user_id == user);
            }
        }
        None
    }

    /// The membership at position `i`.
    pub fn member_at(&self, i: usize) -> (r: Member)
        requires
            i < self.members().len(),
        ensures
            r == self.members()[i as int],
    {
        self.members[i]
    }

    /// Adds a membership; an account holds at most one per channel.
    pub(crate) fn insert_member(&mut self, m: Member) -> (r: Result<(), StoreError>)
        requires
            old(self).wf(),
            channel_exists(old(self).channels(), m.channel_id),
        ensures
            final(self).wf(),
            final(self).accounts() == old(self).accounts(),
            final(self).sessions() == old(self).sessions(),
            final(self).channels() == old(self).channels(),
            final(self).messages() == old(self).messages(),
            final(self).next_id() == old(self).next_id(),
            r is Err <==> role_in(old(self).members(), m.user_id, m.channel_id) is Some,
            r is Err ==> r == Err::<(), StoreError>(StoreError::UniqueViolation)
                && final(self).members() == old(self).members(),
            r is Ok ==> final(self).members() == old(self).members().push(m),
    {
        if self.find_membership(m.user_id, m.channel_id).is_some() {
            return Err(StoreError::UniqueViolation);
        }
        let ghost before = self.members();
        proof {
            lemma_unique_push(before, by_membership(), m);
        }
        self.members.push(m);
        proof {
            assert(self.members() == before.push(m));
            assert forall|j: int| 0 <= j < self.members().len() implies channel_exists(
                self.channels(),
                (#[trigger] self.members()[j]).channel_id,
            ) by {
                if j < before.len() {
                    assert(self.members()[j] == before[j]);
                }
            }
        }
        Ok(())
    }

    /// Gives the membership at position `i` the role `role`.
    pub(crate) fn set_member_role(&mut self, i: usize, role: UserRole)
        requires
            old(self).wf(),
            i < old(self).members().len(),
        ensures
            final(self).wf(),
            final(self).accounts() == old(self).accounts(),
            final(self).sessions() == old(self).sessions(),
            final(self).channels() == old(self).channels(),
            final(self).messages() == old(self).messages(),
            final(self).next_id() == old(self).next_id(),
            final(self).members() == old(self).members().update(
                i as int,
                Member { role, ..old(self).members()[i as int] },
            ),
    {
        let old_m = self.members[i];
        let m = Member { user_id: old_m.user_id, channel_id: old_m.channel_id, role };
        let ghost before = self.members();
        proof {
            lemma_unique_update(before, by_membership(), i as int, m);
        }
        self.members.set(i, m);
        proof {
            assert(self.members() == before.update(i as int, m));
        }
    }

    /// Removes the membership at position `i`.
    pub(crate) fn remove_member_at(&mut self, i: usize) -> (r: Member)
        requires
            old(self).wf(),
            i < old(self).members().len(),
        ensures
            final(self).wf(),
            r == old(self).members()[i as int],
            final(self).accounts() == old(self).accounts(),
            final(self).sessions() == old(self).sessions(),
            final(self).channels() == old(self).channels(),
            final(self).messages() == old(self).messages(),
            final(self).next_id() == old(self).next_id(),
            final(self).members() == old(self).members().remove(i as int),
    {
        let ghost before = self.members();
        proof {
            lemma_unique_remove(before, by_membership(), i as int);
        }
        let m = self.members.remove(i);
        proof {
            assert(self.members() == before.remove(i as int));
        }
        m
    }

    /// Whether `channel` has an admin other than `user`.
    pub fn other_admin_exists(&self, channel: u64, user: u64) -> (r: bool)
        ensures
            r == has_other_admin(self.members(), channel, user),
    {
        let mut i: usize = 0;
        while i < self.members.len()
            invariant
                i <= self.members().len(),
                self.members() == self.members@,
                forall|j: int|
                    0 <= j < i ==> !((#[trigger] self.members()[j]).channel_id == channel
                        && self.members()[j].role == UserRole::Admin && self.members()[j].user_id
                        != user),
            decreases self.members@.len() - i,
        {
            let m = self.members[i];
            if m.channel_id == channel && m.role == UserRole::Admin && m.user_id != user {
                return true;
            }
            i = i + 1;
        }
        false
    }

    /// The memberships of `channel`, in store order.
    pub fn members_of(&self, channel: u64) -> (r: Vec<Member>)
        ensures
            r@ == self.members().filter(|m: Member| m.channel_id == channel),
    {
        let ghost p = |m: Member| m.channel_id == channel;
        let mut r: Vec<Member> = Vec::new();
        let mut i: usize = 0;
        while i < self.members.len()
            invariant
                i <= self.members().len(),
                self.members() == self.members@,
                p == (|m: Member| m.channel_id == channel),
                r@ == self.members().take(i as int).filter(p),
            decreases self.members@.len() - i,
        {
            proof {
                lemma_filter_step(self.members(), p, i as int);
            }
            let m = self.members[i];
            if m.channel_id == channel {
                r.push(m);
            }
            i = i + 1;
        }
        assert(self.members().take(self.members().len() as int) == self.members());
        r
    }

    // ---- messages ----

    /// Stores a message from `user` in `channel` under a fresh id.
    pub(crate) fn insert_message(&mut self, user: u64, channel: u64, content: String) -> (r: Result<
        Message,
        StoreError,
    >)
        requires
            old(self).wf(),
        ensures
            final(self).wf(),
            final(self).accounts() == old(self).accounts(),
            final(self).sessions() == old(self).sessions(),
            final(self).channels() == old(self).channels(),
            final(self).members() == old(self).members(),
            r is Err <==> old(self).next_id() == u64::MAX,
            r is Err ==> r == Err::<Message, StoreError>(StoreError::Other)
                && final(self).messages() == old(self).messages(),
            r is Ok ==> {
                let m = r->Ok_0;
                &&& m.user_id == user && m.channel_id == channel && m.content == content
                &&& !has_key(old(self).messages(), by_message_id(), m.id)
                &&& final(self).messages() == old(self).messages().push(m)
            },
    {
        let id = match self.fresh_id() {
            Some(id) => id,
            None => return Err(StoreError::Other),
        };
        let m = Message { id, user_id: user, channel_id: channel, content };
        let ghost before = self.messages();
        proof {
            if has_key(before, by_message_id(), id) {
                let i = choose|i: int|
                    0 <= i < before.len() && (by_message_id())(#[trigger] before[i]) == id;
                assert(before[i].id < old(self).next_id());
            }
            lemma_unique_push(before, by_message_id(), m);
        }
        let copy = Message {
            id: m.id,
            user_id: m.user_id,
            channel_id: m.channel_id,
            content: m.content.clone(),
        };
        self.messages.push(m);
        proof {
            assert(self.messages() == before.push(m));
            assert forall|i: int| 0 <= i < self.messages().len() implies (
            #[trigger] self.messages()[i]).id < self.next_id() by {
                if i < before.len() {
                    assert(self.messages()[i] == before[i]);
                }
            }
        }
        Ok(copy)
    }

    /// The position of message `id` of `channel`, if there is one.
    pub fn find_message(&self, channel: u64, id: u64) -> (r: Option<usize>)
        ensures
            r is None <==> !exists|i: int|
                0 <= i < self.messages().len() && (#[trigger] self.messages()[i]).id == id
                    && self.messages()[i].channel_id == channel,
            r is Some ==> r->Some_0 < self.messages().len() && self.messages()[r->Some_0 as int].id
                == id && self.messages()[r->Some_0 as int].channel_id == channel,
    {
        let mut i: usize = 0;
        while i < self.messages.len()
            invariant
                i <= self.messages().len(),
                self.messages() == self.messages@,
                forall|j: int|
                    0 <= j < i ==> !((#[trigger] self.messages()[j]).id == id
                        && self.messages()[j].channel_id == channel),
            decreases self.messages@.len() - i,
        {
            if self.messages[i].id == id && self.messages[i].channel_id == channel {
                return Some(i);
            }
            i = i + 1;
        }
        None
    }

    /// The message at position `i`.
    pub fn message_at(&self, i: usize) -> (r: &Message)
        requires
            i < self.messages().len(),
        ensures
            *r == self.messages()[i as int],
    {
        &self.messages[i]
    }

    /// The first messages of `channel` in store order, at most a page.
    pub fn messages_of(&self, channel: u64) -> (r: Vec<Message>)
        ensures
            r@ == first_page(self.messages().filter(|m: Message| m.channel_id == channel)),
    {
        let ghost p = |m: Message| m.channel_id == channel;
        let mut r: Vec<Message> = Vec::new();
        let mut i: usize = 0;
        while i < self.messages.len() && r.len() < MESSAGE_PAGE
            invariant
                i <= self.messages().len(),
                self.messages() == self.messages@,
                p == (|m: Message| m.channel_id == channel),
                r@ == self.messages().take(i as int).filter(p),
                r@.len() <= MESSAGE_PAGE,
            decreases self.messages@.len() - i,
        {
            proof {
                lemma_filter_step(self.messages(), p, i as int);
            }
            let m = &self.messages[i];
            if m.channel_id == channel {
                r.push(
                    Message {
                        id: m.id,
                        user_id: m.user_id,
                        channel_id: m.channel_id,
                        content: m.content.clone(),
                    },
                );
            }
            i = i + 1;
        }
        proof {
            lemma_filter_prefix(self.messages(), p, i as int, self.messages().len() as int);
            assert(self.messages().take(self.messages().len() as int) == self.messages());
        }
        r
    }
}

} // verus!
