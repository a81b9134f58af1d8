//! Channel operations on behalf of an authenticated caller. Every one asks
//! the authorization evaluator first, with the caller's current membership
//! row; a caller outside the channel learns only that it is not found. The
//! operations that change memberships keep an admin in every channel.
use vstd::prelude::*;

use crate::authz::{
    can, can_change_role, can_remove_member, decision, removal_decision, role_change_decision,
    Action,
};
use crate::models::channel::{self, Channel, Error};
use crate::models::member::{self, Member, UserRole};
use crate::models::message::{self, Message};
use crate::store::{
    by_channel_id, by_membership, channel_exists, channels_have_admins, first_page, has_admin,
    has_other_admin, id_taken, role_in, Store,
};
use crate::seqs::{has_key, unique_by};

verus! {

/// The channel with id `id`, when there is one.
pub open spec fn channel_with(channels: Seq<Channel>, id: u64) -> Channel {
    let i = choose|i: int| 0 <= i < channels.len() && (#[trigger] channels[i]).id == id;
    channels[i]
}

/// The answer of an operation that the evaluator refused, or `ok`.
pub open spec fn gated<T>(d: Result<(), Error>, ok: Result<T, Error>) -> Result<T, Error> {
    match d {
        Err(e) => Err(e),
        Ok(()) => ok,
    }
}

/// The position of `user`'s membership in `channel`.
pub open spec fn membership_index(members: Seq<Member>, user: u64, channel: u64) -> int {
    choose|i: int|
        0 <= i < members.len() && (#[trigger] members[i]).user_id == user && members[i].channel_id
            == channel
}

/// The admins of each channel survive a change that keeps every membership
/// outside channel `ch`, when `ch` keeps an admin of its own.
proof fn lemma_admins_after_change(
    channels: Seq<Channel>,
    old_m: Seq<Member>,
    new_m: Seq<Member>,
    ch: u64,
)
    requires
        channels_have_admins(channels, old_m),
        forall|m: Member| old_m.contains(m) && m.channel_id != ch ==> #[trigger] new_m.contains(m),
        channel_exists(channels, ch) ==> has_admin(new_m, ch),
    ensures
        channels_have_admins(channels, new_m),
{
    assert forall|c: int| 0 <= c < channels.len() implies has_admin(new_m, (#[trigger] channels[c]).id) by {
        if channels[c].id == ch {
            assert((by_channel_id())(channels[c]) == ch);
            assert(channel_exists(channels, ch));
        } else {
            let w = choose|w: int|
                0 <= w < old_m.len() && (#[trigger] old_m[w]).channel_id == channels[c].id
                    && old_m[w].role == UserRole::Admin;
            assert(old_m.contains(old_m[w]));
            assert(new_m.contains(old_m[w]));
            let j = choose|j: int| 0 <= j < new_m.len() && new_m[j] == old_m[w];
            assert(new_m[j].channel_id == channels[c].id);
        }
    }
}

/// A role lookup that finds a membership names one at the chosen position.
proof fn lemma_role_in_index(members: Seq<Member>, user: u64, channel: u64)
    requires
        role_in(members, user, channel) is Some,
    ensures
        ({
            let k = membership_index(members, user, channel);
            &&& 0 <= k < members.len()
            &&& members[k].user_id == user && members[k].channel_id == channel
            &&& role_in(members, user, channel) == Some(members[k].role)
        }),
{
    let k = choose|k: int|
        0 <= k < members.len() && (by_membership())(#[trigger] members[k]) == (user, channel);
    assert(members[k].user_id == user && members[k].channel_id == channel);
}

proof fn lemma_has_admin_of_contains(ms: Seq<Member>, m: Member)
    requires
        ms.contains(m),
        m.role == UserRole::Admin,
    ensures
        has_admin(ms, m.channel_id),
{
    let j = choose|j: int| 0 <= j < ms.len() && ms[j] == m;
    assert(ms[j].channel_id == m.channel_id);
}

/// The role a membership ends up with when `patch` is applied to `current`.
pub open spec fn patched_role(current: UserRole, patch: Option<UserRole>) -> UserRole {
    match patch {
        Some(r) => r,
        None => current,
    }
}

/// The message `id` of `channel`, when there is one.
pub open spec fn message_with(messages: Seq<Message>, channel: u64, id: u64) -> Message {
    let i = choose|i: int|
        0 <= i < messages.len() && (#[trigger] messages[i]).id == id && messages[i].channel_id
            == channel;
    messages[i]
}

/// With unique memberships, the role lookup for the account and channel
/// of entry `k` finds entry `k`.
proof fn lemma_role_in_at(members: Seq<Member>, k: int)
    requires
        unique_by(members, by_membership()),
        0 <= k < members.len(),
    ensures
        role_in(members, members[k].user_id, members[k].channel_id) == Some(members[k].role),
{
    let key = (members[k].user_id, members[k].channel_id);
    assert((by_membership())(members[k]) == key);
    let j = choose|j: int|
        0 <= j < members.len() && (#[trigger] members[j]).user_id == key.0 && members[j].channel_id
            == key.1;
    if j != k {
        assert((by_membership())(members[j]) == key);
    }
}

/// With unique memberships, after removing entry `k` nobody holds that
/// entry's account and channel.
proof fn lemma_role_in_removed(members: Seq<Member>, k: int)
    requires
        unique_by(members, by_membership()),
        0 <= k < members.len(),
    ensures
        role_in(members.remove(k), members[k].user_id, members[k].channel_id) is None,
{
    crate::seqs::lemma_unique_remove(members, by_membership(), k);
}

impl Store {
    /// The caller's role in `channel`, read fresh from the membership rows.
    fn role_of(&self, caller: u64, channel: u64) -> (r: Option<UserRole>)
        requires
            self.wf(),
        ensures
            r == role_in(self.members(), caller, channel),
    {
        match self.find_membership(caller, channel) {
            Some(i) => Some(self.member_at(i).role),
            None => None,
        }
    }

    /// Decides whether `caller` may take `action` on `channel`.
    pub fn authorize(&self, caller: u64, channel: u64, action: Action) -> (r: Result<(), Error>)
        requires
            self.wf(),
        ensures
            r == decision(role_in(self.members(), caller, channel), action),
    {
        can(self.role_of(caller, channel), action)
    }

    /// The channel `id`, for a caller who may read it.
    pub fn get_channel_by_id(&self, caller: u64, id: u64) -> (r: Result<Channel, Error>)
        requires
            self.wf(),
        ensures
            r == gated(
                decision(role_in(self.members(), caller, id), Action::Read),
                Ok(channel_with(self.channels(), id)),
            ),
    {
        if let Err(e) = self.authorize(caller, id, Action::Read) {
            return Err(e);
        }
        self.find_existing_channel(caller, id)
    }

    /// The copy of channel `id`, which exists because `caller` is a member.
    fn find_existing_channel(&self, caller: u64, id: u64) -> (r: Result<Channel, Error>)
        requires
            self.wf(),
            role_in(self.members(), caller, id) is Some,
        ensures
            r == Ok::<Channel, Error>(channel_with(self.channels(), id)),
    {
        proof {
            lemma_role_in_index(self.members(), caller, id);
            let k = membership_index(self.members(), caller, id);
            assert(channel_exists(self.channels(), self.members()[k].channel_id));
        }
        match self.find_channel(id) {
            Some(i) => {
                let c = self.channel_at(i);
                proof {
                    let j = choose|j: int|
                        0 <= j < self.channels().len() && (#[trigger] self.channels()[j]).id == id;
                    if j != i {
                        assert((by_channel_id())(self.channels()[j]) == (by_channel_id())(
                            self.channels()[i as int],
                        ));
                    }
                }
                Ok(Channel { id: c.id, name: c.name.clone() })
            },
            None => Err(Error::NotFound),
        }
    }

    /// Renames channel `id`, for a caller who may update it.
    pub fn patch_channel_by_id(&mut self, caller: u64, id: u64, patch: channel::Patch) -> (r:
        Result<Channel, Error>)
        requires
            old(self).wf(),
        ensures
            final(self).wf(),
            final(self).accounts() == old(self).accounts(),
            final(self).sessions() == old(self).sessions(),
            final(self).members() == old(self).members(),
            final(self).messages() == old(self).messages(),
            channels_have_admins(old(self).channels(), old(self).members()) ==> channels_have_admins(
                final(self).channels(),
                final(self).members(),
            ),
            r is Err ==> final(self).channels() == old(self).channels(),
            r == gated(
                decision(role_in(old(self).members(), caller, id), Action::Update),
                Ok(
                    Channel {
                        id,
                        name: match patch.name {
                            Some(n) => n,
                            None => channel_with(old(self).channels(), id).name,
                        },
                    },
                ),
            ),
            r is Ok ==> final(self).channels().len() == old(self).channels().len() && forall|j: int|
                0 <= j < old(self).channels().len() ==> #[trigger] final(self).channels()[j] == if old(
                    self,
                ).channels()[j].id == id {
                    r->Ok_0
                } else {
                    old(self).channels()[j]
                },
    {
        if let Err(e) = self.authorize(caller, id, Action::Update) {
            return Err(e);
        }
        let current = self.find_existing_channel(caller, id);
        let i = match self.find_channel(id) {
            Some(i) => i,
            None => return Err(Error::NotFound),
        };
        let ghost before = self.channels();
        proof {
            let j = choose|j: int| 0 <= j < before.len() && (#[trigger] before[j]).id == id;
            if j != i {
                assert((by_channel_id())(before[j]) == (by_channel_id())(before[i as int]));
            }
        }
        let name = match patch.name {
            Some(n) => n,
            None => match current {
                Ok(c) => c.name,
                Err(e) => return Err(e),
            },
        };
        let result = Channel { id, name: name.clone() };
        self.set_channel_name(i, name);
        proof {
            assert forall|j: int| 0 <= j < before.len() implies #[trigger] self.channels()[j] == if before[j].id
                == id {
                result
            } else {
                before[j]
            } by {
                if j != i && before[j].id == id {
                    assert((by_channel_id())(before[j]) == (by_channel_id())(before[i as int]));
                }
            }
            if channels_have_admins(before, self.members()) {
                assert forall|c: int| 0 <= c < self.channels().len() implies has_admin(
                    self.members(),
                    (#[trigger] self.channels()[c]).id,
                ) by {
                    assert(self.channels()[c].id == before[c].id);
                }
            }
        }
        Ok(result)
    }

    /// Deletes channel `id` with its memberships and messages, for a caller
    /// who may delete it.
    pub fn remove_channel_by_id(&mut self, caller: u64, id: u64) -> (r: Result<Channel, Error>)
        requires
            old(self).wf(),
        ensures
            final(self).wf(),
            final(self).accounts() == old(self).accounts(),
            final(self).sessions() == old(self).sessions(),
            channels_have_admins(old(self).channels(), old(self).members()) ==> channels_have_admins(
                final(self).channels(),
                final(self).members(),
            ),
            r == gated(
                decision(role_in(old(self).members(), caller, id), Action::Delete),
                Ok(channel_with(old(self).channels(), id)),
            ),
            r is Err ==> final(self).channels() == old(self).channels() && final(self).members()
                == old(self).members() && final(self).messages() == old(self).messages(),
            r is Ok ==> {
                &&& !channel_exists(final(self).channels(), id)
                &&& forall|c: Channel|
                    #[trigger] final(self).channels().contains(c) <==> old(self).channels().contains(c)
                        && c.id != id
                &&& forall|m: Member|
                    #[trigger] final(self).members().contains(m) <==> old(self).members().contains(m)
                        && m.channel_id != id
                &&& forall|m: Message|
                    #[trigger] final(self).messages().contains(m) <==> old(self).messages().contains(m)
                        && m.channel_id != id
            },
    {
        if let Err(e) = self.authorize(caller, id, Action::Delete) {
            return Err(e);
        }
        let current = self.find_existing_channel(caller, id);
        let i = match self.find_channel(id) {
            Some(i) => i,
            None => return Err(Error::NotFound),
        };
        let ghost before = self.channels();
        let ghost members0 = self.members();
        proof {
            let j = choose|j: int| 0 <= j < before.len() && (#[trigger] before[j]).id == id;
            if j != i {
                assert((by_channel_id())(before[j]) == (by_channel_id())(before[i as int]));
            }
        }
        let removed = self.remove_channel_at(i);
        proof {
            crate::seqs::lemma_unique_remove(before, by_channel_id(), i as int);
            assert(!has_key(self.channels(), by_channel_id(), id));
            assert forall|c: Channel| #[trigger] self.channels().contains(c) <==> before.contains(c)
                && c.id != id by {
                if before.contains(c) && c.id != id {
                    let j = choose|j: int| 0 <= j < before.len() && before[j] == c;
                    assert(j != i);
                }
                if self.channels().contains(c) {
                    let j = choose|j: int| 0 <= j < self.channels().len() && self.channels()[j] == c;
                    assert((by_channel_id())(self.channels()[j]) == c.id);
                }
            }
            if channels_have_admins(before, members0) {
                assert forall|c: int| 0 <= c < self.channels().len() implies has_admin(
                    self.members(),
                    (#[trigger] self.channels()[c]).id,
                ) by {
                    let c2 = if c < i { c } else { c + 1 };
                    assert(self.channels()[c] == before[c2]);
                    assert(c2 != i);
                    assert((by_channel_id())(before[c2]) != (by_channel_id())(before[i as int]));
                    let w = choose|w: int|
                        0 <= w < members0.len() && (#[trigger] members0[w]).channel_id == before[c2].id
                            && members0[w].role == UserRole::Admin;
                    assert(members0.contains(members0[w]));
                    assert(self.members().contains(members0[w]));
                    let v = choose|v: int| 0 <= v < self.members().len() && self.members()[v] == members0[w];
                    assert(self.members()[v].channel_id == self.channels()[c].id);
                }
            }
        }
        match current {
            Ok(_) => Ok(removed),
            Err(e) => Err(e),
        }
    }

    /// Creates a channel; its creator becomes its admin.
    pub fn create_channel(&mut self, caller: u64, insert: channel::Insert) -> (r: Result<
        Channel,
        Error,
    >)
        requires
            old(self).wf(),
        ensures
            final(self).wf(),
            final(self).accounts() == old(self).accounts(),
            final(self).sessions() == old(self).sessions(),
            final(self).messages() == old(self).messages(),
            channels_have_admins(old(self).channels(), old(self).members()) ==> channels_have_admins(
                final(self).channels(),
                final(self).members(),
            ),
            r is Err <==> old(self).next_id() == u64::MAX,
            r is Err ==> r == Err::<Channel, Error>(Error::InternalServerError) && final(self).channels()
                == old(self).channels() && final(self).members() == old(self).members(),
            r is Ok ==> {
                let c = r->Ok_0;
                &&& c.name == insert.name
                &&& !channel_exists(old(self).channels(), c.id)
                &&& final(self).channels() == old(self).channels().push(c)
                &&& final(self).members() == old(self).members().push(
                    Member { user_id: caller, channel_id: c.id, role: UserRole::Admin },
                )
                &&& role_in(final(self).members(), caller, c.id) == Some(UserRole::Admin)
            },
    {
        let name = insert.name.clone();
        let id = match self.insert_channel(insert.name) {
            Ok(id) => id,
            Err(_) => return Err(Error::InternalServerError),
        };
        let ghost channels1 = self.channels();
        let ghost members0 = self.members();
        let admin = Member { user_id: caller, channel_id: id, role: UserRole::Admin };
        proof {
            let n = channels1.len() - 1;
            assert(channels1[n].id == id);
            assert((by_channel_id())(channels1[n]) == id);
            if role_in(members0, caller, id) is Some {
                lemma_role_in_index(members0, caller, id);
                let k = membership_index(members0, caller, id);
                assert(channel_exists(old(self).channels(), members0[k].channel_id));
            }
        }
        match self.insert_member(admin) {
            Ok(()) => {},
            Err(_) => return Err(Error::InternalServerError),
        }
        proof {
            lemma_role_in_at(self.members(), members0.len() as int);
            if channels_have_admins(old(self).channels(), members0) {
                let n = members0.len() as int;
                assert(self.members()[n] == admin);
                assert forall|c: int| 0 <= c < self.channels().len() implies has_admin(
                    self.members(),
                    (#[trigger] self.channels()[c]).id,
                ) by {
                    if c < old(self).channels().len() {
                        assert(self.channels()[c] == old(self).channels()[c]);
                        let w = choose|w: int|
                            0 <= w < members0.len() && (#[trigger] members0[w]).channel_id
                                == self.channels()[c].id && members0[w].role == UserRole::Admin;
                        assert(self.members()[w] == members0[w]);
                    }
                }
            }
        }
        Ok(Channel { id, name })
    }

    /// The memberships of channel `id`, for a caller who may read it.
    pub fn get_channel_members(&self, caller: u64, id: u64) -> (r: Result<Vec<Member>, Error>)
        requires
            self.wf(),
        ensures
            match decision(role_in(self.members(), caller, id), Action::Read) {
                Err(e) => r == Err::<Vec<Member>, Error>(e),
                Ok(()) => r is Ok && r->Ok_0@ == self.members().filter(
                    |m: Member| m.channel_id == id,
                ),
            },
    {
        if let Err(e) = self.authorize(caller, id, Action::Read) {
            return Err(e);
        }
        Ok(self.members_of(id))
    }

    /// `user`'s membership in `channel`, for a caller who may read the
    /// channel.
    pub fn get_channel_member(&self, caller: u64, channel: u64, user: u64) -> (r: Result<
        Member,
        Error,
    >)
        requires
            self.wf(),
        ensures
            r == gated(
                decision(role_in(self.members(), caller, channel), Action::Read),
                match role_in(self.members(), user, channel) {
                    Some(role) => Ok(Member { user_id: user, channel_id: channel, role }),
                    None => Err(Error::NotFound),
                },
            ),
    {
        if let Err(e) = self.authorize(caller, channel, Action::Read) {
            return Err(e);
        }
        match self.find_membership(user, channel) {
            Some(i) => Ok(self.member_at(i)),
            None => Err(Error::NotFound),
        }
    }

    /// Adds account `insert.user_id` to `channel` with `insert.role`, for a
    /// caller who may manage the channel's members. An unknown account is
    /// not found; an existing membership is a conflict.
    pub fn add_channel_member(&mut self, caller: u64, channel: u64, insert: member::Insert) -> (r:
        Result<Member, Error>)
        requires
            old(self).wf(),
        ensures
            final(self).wf(),
            final(self).accounts() == old(self).accounts(),
            final(self).sessions() == old(self).sessions(),
            final(self).channels() == old(self).channels(),
            final(self).messages() == old(self).messages(),
            channels_have_admins(old(self).channels(), old(self).members()) ==> channels_have_admins(
                final(self).channels(),
                final(self).members(),
            ),
            r == gated(
                decision(role_in(old(self).members(), caller, channel), Action::ManageMembers),
                if !id_taken(old(self).accounts(), insert.user_id) {
                    Err(Error::NotFound)
                } else if role_in(old(self).members(), insert.user_id, channel) is Some {
                    Err(Error::Conflict)
                } else {
                    Ok(Member { user_id: insert.user_id, channel_id: channel, role: insert.role })
                },
            ),
            r is Err ==> final(self).members() == old(self).members(),
            r is Ok ==> final(self).members() == old(self).members().push(r->Ok_0),
            r is Ok ==> role_in(final(self).members(), insert.user_id, channel) == Some(insert.role),
    {
        if let Err(e) = self.authorize(caller, channel, Action::ManageMembers) {
            return Err(e);
        }
        if !self.has_account(insert.user_id) {
            return Err(Error::NotFound);
        }
        let m = Member { user_id: insert.user_id, channel_id: channel, role: insert.role };
        proof {
            lemma_role_in_index(self.members(), caller, channel);
            let k = membership_index(self.members(), caller, channel);
            assert(channel_exists(self.channels(), self.members()[k].channel_id));
        }
        let ghost members0 = self.members();
        match self.insert_member(m) {
            Ok(()) => {},
            Err(_) => return Err(Error::Conflict),
        }
        proof {
            lemma_role_in_at(self.members(), members0.len() as int);
            if channels_have_admins(old(self).channels(), members0) {
                assert forall|c: int| 0 <= c < self.channels().len() implies has_admin(
                    self.members(),
                    (#[trigger] self.channels()[c]).id,
                ) by {
                    let w = choose|w: int|
                        0 <= w < members0.len() && (#[trigger] members0[w]).channel_id
                            == self.channels()[c].id && members0[w].role == UserRole::Admin;
                    assert(self.members()[w] == members0[w]);
                }
            }
        }
        Ok(m)
    }

    /// Changes `user`'s role in `channel`, for a caller who may manage the
    /// channel's members; the channel's last admin cannot step down.
    pub fn update_channel_member(
        &mut self,
        caller: u64,
        channel: u64,
        user: u64,
        patch: member::Patch,
    ) -> (r: Result<Member, Error>)
        requires
            old(self).wf(),
        ensures
            final(self).wf(),
            final(self).accounts() == old(self).accounts(),
            final(self).sessions() == old(self).sessions(),
            final(self).channels() == old(self).channels(),
            final(self).messages() == old(self).messages(),
            channels_have_admins(old(self).channels(), old(self).members()) ==> channels_have_admins(
                final(self).channels(),
                final(self).members(),
            ),
            r == gated(
                role_change_decision(
                    role_in(old(self).members(), caller, channel),
                    role_in(old(self).members(), user, channel),
                    patch.role,
                    caller == user,
                    has_other_admin(old(self).members(), channel, caller),
                ),
                Ok(
                    Member {
                        user_id: user,
                        channel_id: channel,
                        role: patched_role(
                            role_in(old(self).members(), user, channel)->Some_0,
                            patch.role,
                        ),
                    },
                ),
            ),
            r is Err ==> final(self).members() == old(self).members(),
            r is Ok ==> final(self).members() == old(self).members().update(
                membership_index(old(self).members(), user, channel),
                r->Ok_0,
            ),
            r is Ok ==> role_in(final(self).members(), user, channel) == Some(r->Ok_0.role),
    {
        let caller_role = self.role_of(caller, channel);
        let target = self.find_membership(user, channel);
        let target_role = match target {
            Some(i) => Some(self.member_at(i).role),
            None => None,
        };
        let other = self.other_admin_exists(channel, caller);
        if let Err(e) = can_change_role(caller_role, target_role, patch.role, caller == user, other) {
            return Err(e);
        }
        let i = match target {
            Some(i) => i,
            None => return Err(Error::NotFound),
        };
        let current = self.member_at(i);
        let role = match patch.role {
            Some(r) => r,
            None => current.role,
        };
        let updated = Member { user_id: user, channel_id: channel, role };
        let ghost members0 = self.members();
        proof {
            lemma_role_in_index(members0, user, channel);
            let k = membership_index(members0, user, channel);
            if k != i {
                assert((by_membership())(members0[k]) == (by_membership())(members0[i as int]));
            }
        }
        self.set_member_role(i, role);
        proof {
            assert(self.members() == members0.update(i as int, updated));
            lemma_role_in_at(self.members(), i as int);
            if channels_have_admins(old(self).channels(), members0) {
                let ms = self.members();
                assert forall|m: Member| members0.contains(m) && m.channel_id != channel implies #[trigger] ms.contains(m) by {
                    let j = choose|j: int| 0 <= j < members0.len() && members0[j] == m;
                    assert(j != i);
                    assert(ms[j] == m);
                }
                lemma_role_in_index(members0, caller, channel);
                let q = membership_index(members0, caller, channel);
                if caller != user {
                    assert(ms[q] == members0[q]);
                    assert(ms.contains(ms[q]));
                    lemma_has_admin_of_contains(ms, ms[q]);
                } else if other {
                    let o = choose|o: int|
                        0 <= o < members0.len() && (#[trigger] members0[o]).channel_id == channel
                            && members0[o].role == UserRole::Admin && members0[o].user_id != caller;
                    assert(ms[o] == members0[o]);
                    assert(ms.contains(ms[o]));
                    lemma_has_admin_of_contains(ms, ms[o]);
                } else {
                    assert(ms[i as int] == updated);
                    assert(ms.contains(updated));
                    lemma_has_admin_of_contains(ms, updated);
                }
                lemma_admins_after_change(old(self).channels(), members0, ms, channel);
            }
        }
        Ok(updated)
    }

    /// Removes `user` from `channel`. A caller may always leave, except the
    /// channel's last admin; removing someone else takes the right to manage
    /// the channel's members.
    pub fn remove_channel_member(&mut self, caller: u64, channel: u64, user: u64) -> (r: Result<
        Member,
        Error,
    >)
        requires
            old(self).wf(),
        ensures
            final(self).wf(),
            final(self).accounts() == old(self).accounts(),
            final(self).sessions() == old(self).sessions(),
            final(self).channels() == old(self).channels(),
            final(self).messages() == old(self).messages(),
            channels_have_admins(old(self).channels(), old(self).members()) ==> channels_have_admins(
                final(self).channels(),
                final(self).members(),
            ),
            r == gated(
                removal_decision(
                    role_in(old(self).members(), caller, channel),
                    caller == user,
                    role_in(old(self).members(), user, channel),
                    has_other_admin(old(self).members(), channel, caller),
                ),
                Ok(
                    Member {
                        user_id: user,
                        channel_id: channel,
                        role: role_in(old(self).members(), user, channel)->Some_0,
                    },
                ),
            ),
            r is Err ==> final(self).members() == old(self).members(),
            r is Ok ==> final(self).members() == old(self).members().remove(
                membership_index(old(self).members(), user, channel),
            ),
            r is Ok ==> role_in(final(self).members(), user, channel) is None,
    {
        let caller_role = self.role_of(caller, channel);
        let target = self.find_membership(user, channel);
        let target_role = match target {
            Some(i) => Some(self.member_at(i).role),
            None => None,
        };
        let other = self.other_admin_exists(channel, caller);
        if let Err(e) = can_remove_member(caller_role, caller == user, target_role, other) {
            return Err(e);
        }
        let i = match target {
            Some(i) => i,
            None => return Err(Error::NotFound),
        };
        let ghost members0 = self.members();
        proof {
            lemma_role_in_index(members0, user, channel);
            let k = membership_index(members0, user, channel);
            if k != i {
                assert((by_membership())(members0[k]) == (by_membership())(members0[i as int]));
            }
            crate::seqs::lemma_unique_remove(members0, by_membership(), i as int);
        }
        let removed = self.remove_member_at(i);
        proof {
            lemma_role_in_removed(members0, i as int);
            if channels_have_admins(old(self).channels(), members0) {
                let ms = self.members();
                assert forall|m: Member| members0.contains(m) && m.channel_id != channel implies #[trigger] ms.contains(m) by {
                    let j = choose|j: int| 0 <= j < members0.len() && members0[j] == m;
                    assert(j != i);
                }
                lemma_role_in_index(members0, caller, channel);
                let q = membership_index(members0, caller, channel);
                if caller != user {
                    assert(q != i);
                    lemma_has_admin_of_contains(ms, members0[q]);
                } else if other {
                    let o = choose|o: int|
                        0 <= o < members0.len() && (#[trigger] members0[o]).channel_id == channel
                            && members0[o].role == UserRole::Admin && members0[o].user_id != caller;
                    assert(o != i);
                    lemma_has_admin_of_contains(ms, members0[o]);
                } else if channel_exists(old(self).channels(), channel) {
                    let c = choose|c: int|
                        0 <= c < old(self).channels().len() && (by_channel_id())(
                            #[trigger] old(self).channels()[c],
                        ) == channel;
                    assert(has_admin(members0, old(self).channels()[c].id));
                    let w = choose|w: int|
                        0 <= w < members0.len() && (#[trigger] members0[w]).channel_id == channel
                            && members0[w].role == UserRole::Admin;
                    assert(w != i);
                    lemma_has_admin_of_contains(ms, members0[w]);
                }
                lemma_admins_after_change(old(self).channels(), members0, ms, channel);
            }
        }
        Ok(removed)
    }

    /// The first page of channel `id`'s messages, for a caller who may read
    /// it.
    pub fn get_channel_messages(&self, caller: u64, id: u64) -> (r: Result<Vec<Message>, Error>)
        requires
            self.wf(),
        ensures
            match decision(role_in(self.members(), caller, id), Action::Read) {
                Err(e) => r == Err::<Vec<Message>, Error>(e),
                Ok(()) => r is Ok && r->Ok_0@ == first_page(
                    self.messages().filter(|m: Message| m.channel_id == id),
                ),
            },
    {
        if let Err(e) = self.authorize(caller, id, Action::Read) {
            return Err(e);
        }
        Ok(self.messages_of(id))
    }

    /// Message `message_id` of `channel`, for a caller who may read it.
    pub fn get_channel_message(&self, caller: u64, channel: u64, message_id: u64) -> (r: Result<
        Message,
        Error,
    >)
        requires
            self.wf(),
        ensures
            r == gated(
                decision(role_in(self.members(), caller, channel), Action::Read),
                if exists|i: int|
                    0 <= i < self.messages().len() && (#[trigger] self.messages()[i]).id
                        == message_id && self.messages()[i].channel_id == channel {
                    Ok(message_with(self.messages(), channel, message_id))
                } else {
                    Err(Error::NotFound)
                },
            ),
    {
        if let Err(e) = self.authorize(caller, channel, Action::Read) {
            return Err(e);
        }
        match self.find_message(channel, message_id) {
            Some(i) => {
                let m = self.message_at(i);
                proof {
                    let j = choose|j: int|
                        0 <= j < self.messages().len() && (#[trigger] self.messages()[j]).id
                            == message_id && self.messages()[j].channel_id == channel;
                    if j != i {
                        assert(crate::store::by_message_id()(self.messages()[j])
                            == crate::store::by_message_id()(self.messages()[i as int]));
                    }
                }
                Ok(
                    Message {
                        id: m.id,
                        user_id: m.user_id,
                        channel_id: m.channel_id,
                        content: m.content.clone(),
                    },
                )
            },
            None => Err(Error::NotFound),
        }
    }

    /// Posts a message in `channel` as the caller, who must be allowed to
    /// post there.
    pub fn create_channel_message(
        &mut self,
        caller: u64,
        channel: u64,
        insert: message::Insert,
    ) -> (r: Result<Message, Error>)
        requires
            old(self).wf(),
        ensures
            final(self).wf(),
            final(self).accounts() == old(self).accounts(),
            final(self).sessions() == old(self).sessions(),
            final(self).channels() == old(self).channels(),
            final(self).members() == old(self).members(),
            match decision(role_in(old(self).members(), caller, channel), Action::Post) {
                Err(e) => r == Err::<Message, Error>(e),
                Ok(()) => (r is Err <==> old(self).next_id() == u64::MAX) && (r is Err ==> r
                    == Err::<Message, Error>(Error::InternalServerError)),
            },
            r is Err ==> final(self).messages() == old(self).messages(),
            r is Ok ==> {
                let m = r->Ok_0;
                &&& m.user_id == caller && m.channel_id == channel && m.content == insert.content
                &&& final(self).messages() == old(self).messages().push(m)
            },
    {
        if let Err(e) = self.authorize(caller, channel, Action::Post) {
            return Err(e);
        }
        match self.insert_message(caller, channel, insert.content) {
            Ok(m) => Ok(m),
            Err(_) => Err(Error::InternalServerError),
        }
    }
}

} // verus!
