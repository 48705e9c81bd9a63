use vstd::prelude::*;
use crate::email::{email_key, same_email};
use crate::gate::Gate;
use crate::model::{Invitation, InviteStatus, Member, Team, TeamError, User};
use crate::roles::{Role, RoleSet, CapabilitySet, capabilities_for, caps_of};

verus! {

/// The text of `s` with leading and trailing whitespace removed.
pub uninterp spec fn trimmed(s: Seq<char>) -> Seq<char>;

/// Relies on str::trim: strips whitespace from both ends; the result depends on
/// the characters alone, and an empty text stays empty.
#[verifier::external_body]
fn trim_text(s: &str) -> (r: String)
    ensures
        r@ == trimmed(s@),
        s@.len() == 0 ==> r@.len() == 0,
{
    s.trim().to_string()
}

/// Members of one team.
pub open spec fn in_team(team_id: u64) -> spec_fn(Member) -> bool {
    |m: Member| m.team_id == team_id
}

/// Pending invitations of one team.
pub open spec fn pending_in(team_id: u64) -> spec_fn(Invitation) -> bool {
    |v: Invitation| v.team_id == team_id && v.status == InviteStatus::Pending
}

/// `invs` with the status of the invitation numbered `id` replaced by `st`.
pub open spec fn set_status(invs: Seq<Invitation>, id: u64, st: InviteStatus) -> Seq<Invitation> {
    invs.map_values(|v: Invitation| if v.id == id { v.with_status(st) } else { v })
}

/// `teams` with the team numbered `id` renamed to `name`.
pub open spec fn rename_in(teams: Seq<Team>, id: u64, name: String) -> Seq<Team> {
    teams.map_values(|t: Team| if t.id == id { Team { id: t.id, name: Some(name) } } else { t })
}

/// The role set of a team's founder.
pub open spec fn founder_roles() -> RoleSet {
    RoleSet { admin: true, member: false, billing: false }
}

/// A member as a directory lists it, with whether the requester may remove them.
#[derive(Clone, Debug)]
pub struct MemberRow {
    pub member: Member,
    pub removable: bool,
}

/// A pending invitation as a directory lists it, with whether the requester may
/// revoke it.
#[derive(Clone, Debug)]
pub struct InviteRow {
    pub invitation: Invitation,
    pub revocable: bool,
}

/// One team's members, then its pending invitations, each in creation order.
#[derive(Clone, Debug)]
pub struct Directory {
    pub team: Team,
    pub members: Vec<MemberRow>,
    pub invitations: Vec<InviteRow>,
}

/// `rows` lists `ms` in order, each marked removable exactly when `gate` may remove it.
pub open spec fn member_rows(rows: Seq<MemberRow>, ms: Seq<Member>, gate: Gate) -> bool {
    &&& rows.len() == ms.len()
    &&& forall|i: int|
        0 <= i < rows.len() ==> (#[trigger] rows[i]).member == ms[i] && rows[i].removable
            == gate.may_remove(ms[i].email@)
}

/// `rows` lists `invs` in order, each marked revocable exactly when `gate` may manage members.
pub open spec fn invite_rows(rows: Seq<InviteRow>, invs: Seq<Invitation>, gate: Gate) -> bool {
    &&& rows.len() == invs.len()
    &&& forall|i: int|
        0 <= i < rows.len() ==> (#[trigger] rows[i]).invitation == invs[i] && rows[i].revocable
            == gate.may_manage()
}

/// Team ids present in `a` are present in `b` when `b` keeps `a`'s teams in place.
proof fn lemma_teams_kept(a: Store, b: Store)
    requires
        a.teams@.len() <= b.teams@.len(),
        forall|i: int| 0 <= i < a.teams@.len() ==> b.teams@[i].id == a.teams@[i].id,
    ensures
        forall|id: u64| a.has_team(id) ==> b.has_team(id),
{
    assert forall|id: u64| a.has_team(id) implies b.has_team(id) by {
        let k = choose|k: int| 0 <= k < a.teams@.len() && a.teams@[k].id == id;
        assert(b.teams@[k].id == id);
    }
}

/// The teams, members and invitations of the system, each kept in creation order.
pub struct Store {
    pub teams: Vec<Team>,
    pub members: Vec<Member>,
    pub invitations: Vec<Invitation>,
    pub next_id: u64,
}

impl Store {
    pub open spec fn has_team(self, team_id: u64) -> bool {
        exists|i: int| 0 <= i < self.teams@.len() && self.teams@[i].id == team_id
    }

    pub open spec fn team(self, team_id: u64) -> Option<Team> {
        if self.has_team(team_id) {
            Some(self.teams@[choose|i: int| 0 <= i < self.teams@.len() && self.teams@[i].id == team_id])
        } else {
            None
        }
    }

    pub open spec fn has_invitation(self, id: u64) -> bool {
        exists|i: int| 0 <= i < self.invitations@.len() && self.invitations@[i].id == id
    }

    pub open spec fn invitation(self, id: u64) -> Option<Invitation> {
        if self.has_invitation(id) {
            Some(self.invitations@[choose|i: int| 0 <= i < self.invitations@.len() && self.invitations@[i].id == id])
        } else {
            None
        }
    }

    pub open spec fn has_member(self, id: u64) -> bool {
        exists|i: int| 0 <= i < self.members@.len() && self.members@[i].id == id
    }

    pub open spec fn member(self, id: u64) -> Option<Member> {
        if self.has_member(id) {
            Some(self.members@[choose|i: int| 0 <= i < self.members@.len() && self.members@[i].id == id])
        } else {
            None
        }
    }

    pub open spec fn is_member(self, team_id: u64, user_id: u64) -> bool {
        exists|i: int|
            0 <= i < self.members@.len() && self.members@[i].team_id == team_id
                && self.members@[i].user_id == user_id
    }

    pub open spec fn membership(self, team_id: u64, user_id: u64) -> Option<Member> {
        if self.is_member(team_id, user_id) {
            Some(self.members@[choose|i: int|
                0 <= i < self.members@.len() && self.members@[i].team_id == team_id
                    && self.members@[i].user_id == user_id])
        } else {
            None
        }
    }

    /// Whether a pending invitation of `team_id` exists under the email key `key`.
    pub open spec fn has_pending(self, team_id: u64, key: Seq<u8>) -> bool {
        exists|i: int|
            0 <= i < self.invitations@.len() && self.invitations@[i].team_id == team_id
                && self.invitations@[i].status == InviteStatus::Pending
                && email_key(self.invitations@[i].email@) == key
    }

    pub open spec fn wf(self) -> bool {
        &&& forall|i: int, j: int|
            0 <= i < j < self.teams@.len() ==> self.teams@[i].id < self.teams@[j].id
        &&& forall|i: int, j: int|
            0 <= i < j < self.members@.len() ==> self.members@[i].id < self.members@[j].id
        &&& forall|i: int, j: int|
            0 <= i < j < self.invitations@.len() ==> self.invitations@[i].id
                < self.invitations@[j].id
        &&& forall|i: int| 0 <= i < self.teams@.len() ==> self.teams@[i].id < self.next_id
        &&& forall|i: int| 0 <= i < self.members@.len() ==> self.members@[i].id < self.next_id
        &&& forall|i: int|
            0 <= i < self.invitations@.len() ==> self.invitations@[i].id < self.next_id
        &&& forall|i: int|
            0 <= i < self.members@.len() ==> self.has_team(#[trigger] self.members@[i].team_id)
        &&& forall|i: int|
            0 <= i < self.invitations@.len() ==> self.has_team(
                #[trigger] self.invitations@[i].team_id,
            )
        &&& forall|i: int, j: int|
            0 <= i < self.members@.len() && 0 <= j < self.members@.len() && i != j
                && self.members@[i].team_id == self.members@[j].team_id
                ==> self.members@[i].user_id != self.members@[j].user_id
        &&& forall|i: int, j: int|
            0 <= i < self.invitations@.len() && 0 <= j < self.invitations@.len() && i != j
                && self.invitations@[i].status == InviteStatus::Pending
                && self.invitations@[j].status == InviteStatus::Pending
                && self.invitations@[i].team_id == self.invitations@[j].team_id
                ==> email_key(self.invitations@[i].email@) != email_key(
                self.invitations@[j].email@,
            )
        &&& forall|i: int|
            0 <= i < self.teams@.len() && (#[trigger] self.teams@[i]).name is Some
                ==> trimmed(self.teams@[i].name->0@).len() > 0
    }

    /// Whether `gate` lets its principal manage the members of `team_id`.
    pub open spec fn authorized(self, gate: Gate, team_id: u64) -> bool {
        gate.team_id == team_id && gate.may_manage() && self.has_team(team_id)
    }

    pub open spec fn create_error(
        self,
        gate: Gate,
        team_id: u64,
        email: Seq<char>,
        roles: Seq<Role>,
    ) -> Option<TeamError> {
        if !self.authorized(gate, team_id) {
            Some(TeamError::Unauthorized)
        } else if roles.len() == 0 {
            Some(TeamError::InvalidRoleSet)
        } else if self.has_pending(team_id, email_key(email)) {
            Some(TeamError::DuplicateInvitation)
        } else if self.next_id == u64::MAX {
            Some(TeamError::Unavailable)
        } else {
            None
        }
    }

    /// `new` is `self` with `inv` appended as a fresh pending invitation.
    pub open spec fn invite_created(
        self,
        new: Store,
        team_id: u64,
        email: Seq<char>,
        first_name: Seq<char>,
        last_name: Seq<char>,
        roles: Set<Role>,
        inv: Invitation,
    ) -> bool {
        &&& inv.id == self.next_id
        &&& inv.team_id == team_id
        &&& inv.email@ == email
        &&& inv.first_name@ == first_name
        &&& inv.last_name@ == last_name
        &&& inv.roles@ == roles
        &&& inv.status == InviteStatus::Pending
        &&& new.invitations@ == self.invitations@.push(inv)
        &&& new.teams@ == self.teams@
        &&& new.members@ == self.members@
        &&& new.next_id == self.next_id + 1
    }

    pub open spec fn revoke_error(self, gate: Gate, team_id: u64, id: u64) -> Option<TeamError> {
        if !self.authorized(gate, team_id) {
            Some(TeamError::Unauthorized)
        } else if !self.has_invitation(id) || self.invitation(id)->0.team_id != team_id {
            Some(TeamError::NotFound)
        } else if self.invitation(id)->0.status == InviteStatus::Revoked {
            Some(TeamError::AlreadyRevoked)
        } else if self.invitation(id)->0.status == InviteStatus::Accepted {
            Some(TeamError::InvalidState)
        } else {
            None
        }
    }

    pub open spec fn accept_error(self, id: u64, user: User) -> Option<TeamError> {
        if !self.has_invitation(id) {
            Some(TeamError::Unauthorized)
        } else if self.invitation(id)->0.status != InviteStatus::Pending {
            Some(TeamError::InvalidState)
        } else if email_key(user.email@) != email_key(self.invitation(id)->0.email@) {
            Some(TeamError::Unauthorized)
        } else if self.is_member(self.invitation(id)->0.team_id, user.id) {
            Some(TeamError::InvalidState)
        } else if self.next_id == u64::MAX {
            Some(TeamError::Unavailable)
        } else {
            None
        }
    }

    /// `new` is `self` with invitation `id` accepted and `m` added as its member.
    pub open spec fn invite_accepted(self, new: Store, id: u64, user: User, m: Member) -> bool {
        let inv = self.invitation(id)->0;
        &&& m.id == self.next_id
        &&& m.team_id == inv.team_id
        &&& m.user_id == user.id
        &&& m.email@ == user.email@
        &&& m.roles == inv.roles
        &&& new.invitations@ == set_status(self.invitations@, id, InviteStatus::Accepted)
        &&& new.members@ == self.members@.push(m)
        &&& new.teams@ == self.teams@
        &&& new.next_id == self.next_id + 1
    }

    pub open spec fn remove_error(self, gate: Gate, team_id: u64, member_id: u64) -> Option<TeamError> {
        if !self.authorized(gate, team_id) {
            Some(TeamError::Unauthorized)
        } else if !self.has_member(member_id) || self.member(member_id)->0.team_id != team_id {
            Some(TeamError::NotFound)
        } else if !gate.may_remove(self.member(member_id)->0.email@) {
            Some(TeamError::Unauthorized)
        } else {
            None
        }
    }

    pub open spec fn rename_error(self, gate: Gate, team_id: u64, name: Seq<char>) -> Option<TeamError> {
        if !self.authorized(gate, team_id) {
            Some(TeamError::Unauthorized)
        } else if trimmed(name).len() == 0 {
            Some(TeamError::InvalidArgument)
        } else {
            None
        }
    }

    /// An empty store.
    pub fn new() -> (s: Store)
        ensures
            s.wf(),
            s.teams@.len() == 0,
            s.members@.len() == 0,
            s.invitations@.len() == 0,
            s.next_id == 1,
    {
        Store { teams: Vec::new(), members: Vec::new(), invitations: Vec::new(), next_id: 1 }
    }

    fn find_team(&self, team_id: u64) -> (r: Option<usize>)
        requires
            self.wf(),
        ensures
            match r {
                Some(i) => i < self.teams@.len() && self.teams@[i as int].id == team_id
                    && self.team(team_id) == Some(self.teams@[i as int]),
                None => !self.has_team(team_id),
            },
    {
        let mut i: usize = 0;
        while i < self.teams.len()
            invariant
                self.wf(),
                i <= self.teams@.len(),
                forall|k: int| 0 <= k < i ==> self.teams@[k].id != team_id,
            decreases self.teams@.len() - i,
        {
            if self.teams[i].id == team_id {
                proof {
                    let k = choose|k: int| 0 <= k < self.teams@.len() && self.teams@[k].id == team_id;
                    assert(k == i);
                }
                return Some(i);
            }
            i = i + 1;
        }
        None
    }

    fn find_invitation(&self, id: u64) -> (r: Option<usize>)
        requires
            self.wf(),
        ensures
            match r {
                Some(i) => i < self.invitations@.len() && self.invitations@[i as int].id == id
                    && self.invitation(id) == Some(self.invitations@[i as int]),
                None => !self.has_invitation(id),
            },
    {
        let mut i: usize = 0;
        while i < self.invitations.len()
            invariant
                self.wf(),
                i <= self.invitations@.len(),
                forall|k: int| 0 <= k < i ==> self.invitations@[k].id != id,
            decreases self.invitations@.len() - i,
        {
            if self.invitations[i].id == id {
                proof {
                    let k = choose|k: int| 0 <= k < self.invitations@.len() && self.invitations@[k].id == id;
                    assert(k == i);
                }
                return Some(i);
            }
            i = i + 1;
        }
        None
    }

    fn find_member(&self, id: u64) -> (r: Option<usize>)
        requires
            self.wf(),
        ensures
            match r {
                Some(i) => i < self.members@.len() && self.members@[i as int].id == id
                    && self.member(id) == Some(self.members@[i as int]),
                None => !self.has_member(id),
            },
    {
        let mut i: usize = 0;
        while i < self.members.len()
            invariant
                self.wf(),
                i <= self.members@.len(),
                forall|k: int| 0 <= k < i ==> self.members@[k].id != id,
            decreases self.members@.len() - i,
        {
            if self.members[i].id == id {
                proof {
                    let k = choose|k: int| 0 <= k < self.members@.len() && self.members@[k].id == id;
                    assert(k == i);
                }
                return Some(i);
            }
            i = i + 1;
        }
        None
    }

    fn find_membership(&self, team_id: u64, user_id: u64) -> (r: Option<usize>)
        requires
            self.wf(),
        ensures
            match r {
                Some(i) => i < self.members@.len() && self.members@[i as int].team_id == team_id
                    && self.members@[i as int].user_id == user_id
                    && self.membership(team_id, user_id) == Some(self.members@[i as int]),
                None => !self.is_member(team_id, user_id),
            },
    {
        let mut i: usize = 0;
        while i < self.members.len()
            invariant
                self.wf(),
                i <= self.members@.len(),
                forall|k: int|
                    0 <= k < i ==> !(self.members@[k].team_id == team_id
                        && self.members@[k].user_id == user_id),
            decreases self.members@.len() - i,
        {
            if self.members[i].team_id == team_id && self.members[i].user_id == user_id {
                proof {
                    let k = choose|k: int|
                        0 <= k < self.members@.len() && self.members@[k].team_id == team_id
                            && self.members@[k].user_id == user_id;
                    assert(k == i);
                }
                return Some(i);
            }
            i = i + 1;
        }
        None
    }

    fn find_pending(&self, team_id: u64, email: &str) -> (r: bool)
        ensures
            r == self.has_pending(team_id, email_key(email@)),
    {
        let mut i: usize = 0;
        while i < self.invitations.len()
            invariant
                i <= self.invitations@.len(),
                forall|k: int|
                    0 <= k < i ==> !(self.invitations@[k].team_id == team_id
                        && self.invitations@[k].status == InviteStatus::Pending
                        && email_key(self.invitations@[k].email@) == email_key(email@)),
            decreases self.invitations@.len() - i,
        {
            let v = &self.invitations[i];
            if v.team_id == team_id && v.status == InviteStatus::Pending
                && same_email(v.email.as_str(), email) {
                return true;
            }
            i = i + 1;
        }
        false
    }

    /// Creates a team with no name yet, whose founder becomes its first member
    /// with the admin role.
    pub fn create_team(&mut self, founder: &User) -> (r: Result<u64, TeamError>)
        requires
            old(self).wf(),
        ensures
            final(self).wf(),
            match r {
                Ok(id) => old(self).next_id < u64::MAX - 1
                    && id == old(self).next_id
                    && final(self).teams@ == old(self).teams@.push(Team { id, name: None })
                    && final(self).members@.len() == old(self).members@.len() + 1
                    && final(self).members@.drop_last() == old(self).members@
                    && final(self).members@.last().id == id + 1
                    && final(self).members@.last().team_id == id
                    && final(self).members@.last().user_id == founder.id
                    && final(self).members@.last().email@ == founder.email@
                    && final(self).members@.last().roles == founder_roles()
                    && final(self).invitations@ == old(self).invitations@
                    && final(self).next_id == old(self).next_id + 2,
                Err(e) => e == TeamError::Unavailable && old(self).next_id >= u64::MAX - 1
                    && *final(self) == *old(self),
            },
    {
        if self.next_id >= u64::MAX - 1 {
            return Err(TeamError::Unavailable);
        }
        let ghost pre = *self;
        let id = self.next_id;
        self.teams.push(Team { id, name: None });
        let m = Member {
            id: id + 1,
            team_id: id,
            user_id: founder.id,
            email: founder.email.clone(),
            roles: RoleSet { admin: true, member: false, billing: false },
        };
        self.members.push(m);
        self.next_id = id + 2;
        proof {
            lemma_teams_kept(pre, *self);
            assert(self.teams@[self.teams@.len() - 1].id == id);
            assert(self.has_team(id));
            assert(self.members@.drop_last() == pre.members@);
        }
        Ok(id)
    }

    /// The authorization context of `user` acting on `team_id`: the capabilities
    /// their roles there grant, or none when they are not a member.
    pub fn gate_for(&self, team_id: u64, user: &User) -> (g: Gate)
        requires
            self.wf(),
        ensures
            g.team_id == team_id,
            g.user_id == user.id,
            g.email@ == user.email@,
            g.caps@ == match self.membership(team_id, user.id) {
                Some(m) => caps_of(m.roles@),
                None => Set::<crate::roles::Capability>::empty(),
            },
    {
        let caps = match self.find_membership(team_id, user.id) {
            Some(i) => capabilities_for(self.members[i].roles),
            None => CapabilitySet::none(),
        };
        Gate { team_id, user_id: user.id, email: user.email.clone(), caps }
    }

    /// Issues a pending invitation for `email` under `roles`.
    pub fn create_invite(
        &mut self,
        gate: &Gate,
        team_id: u64,
        email: String,
        first_name: String,
        last_name: String,
        roles: &Vec<Role>,
    ) -> (r: Result<Invitation, TeamError>)
        requires
            old(self).wf(),
        ensures
            final(self).wf(),
            match r {
                Ok(inv) => old(self).create_error(*gate, team_id, email@, roles@) is None
                    && old(self).invite_created(
                    *final(self),
                    team_id,
                    email@,
                    first_name@,
                    last_name@,
                    roles@.to_set(),
                    inv,
                ),
                Err(e) => old(self).create_error(*gate, team_id, email@, roles@) == Some(e)
                    && *final(self) == *old(self),
            },
    {
        if !(gate.team_id == team_id && gate.can_invite()) || self.find_team(team_id).is_none() {
            return Err(TeamError::Unauthorized);
        }
        if roles.len() == 0 {
            return Err(TeamError::InvalidRoleSet);
        }
        if self.find_pending(team_id, email.as_str()) {
            return Err(TeamError::DuplicateInvitation);
        }
        if self.next_id == u64::MAX {
            return Err(TeamError::Unavailable);
        }
        let ghost pre = *self;
        let inv = Invitation {
            id: self.next_id,
            team_id,
            email,
            first_name,
            last_name,
            roles: RoleSet::from_roles(roles),
            status: InviteStatus::Pending,
        };
        let out = inv.duplicate();
        self.invitations.push(inv);
        self.next_id = self.next_id + 1;
        proof {
            let n = pre.invitations@.len() as int;
            assert forall|i: int, j: int|
                0 <= i < self.invitations@.len() && 0 <= j < self.invitations@.len() && i != j
                    && self.invitations@[i].status == InviteStatus::Pending
                    && self.invitations@[j].status == InviteStatus::Pending
                    && self.invitations@[i].team_id == self.invitations@[j].team_id
                    implies email_key(self.invitations@[i].email@) != email_key(
                    self.invitations@[j].email@,
                ) by {
                if i == n {
                    assert(pre.invitations@[j] == self.invitations@[j]);
                } else if j == n {
                    assert(pre.invitations@[i] == self.invitations@[i]);
                } else {
                    assert(pre.invitations@[i] == self.invitations@[i]);
                    assert(pre.invitations@[j] == self.invitations@[j]);
                }
            }
        }
        Ok(out)
    }

    /// Revokes a pending invitation; revoking one twice is reported.
    pub fn revoke_invite(&mut self, gate: &Gate, team_id: u64, id: u64) -> (r: Result<(), TeamError>)
        requires
            old(self).wf(),
        ensures
            final(self).wf(),
            match r {
                Ok(()) => old(self).revoke_error(*gate, team_id, id) is None
                    && final(self).invitations@ == set_status(
                    old(self).invitations@,
                    id,
                    InviteStatus::Revoked,
                )
                    && final(self).teams@ == old(self).teams@
                    && final(self).members@ == old(self).members@
                    && final(self).next_id == old(self).next_id,
                Err(e) => old(self).revoke_error(*gate, team_id, id) == Some(e)
                    && *final(self) == *old(self),
            },
    {
        if !(gate.team_id == team_id && gate.can_invite()) || self.find_team(team_id).is_none() {
            return Err(TeamError::Unauthorized);
        }
        let idx = match self.find_invitation(id) {
            Some(i) => i,
            None => return Err(TeamError::NotFound),
        };
        if self.invitations[idx].team_id != team_id {
            return Err(TeamError::NotFound);
        }
        if self.invitations[idx].status == InviteStatus::Revoked {
            return Err(TeamError::AlreadyRevoked);
        }
        if self.invitations[idx].status == InviteStatus::Accepted {
            return Err(TeamError::InvalidState);
        }
        self.set_invitation_status(idx, InviteStatus::Revoked);
        Ok(())
    }

    /// Moves the invitation at `idx` out of `Pending`.
    fn set_invitation_status(&mut self, idx: usize, st: InviteStatus)
        requires
            old(self).wf(),
            idx < old(self).invitations@.len(),
            old(self).invitations@[idx as int].status == InviteStatus::Pending,
            st != InviteStatus::Pending,
        ensures
            final(self).wf(),
            final(self).invitations@ == set_status(
                old(self).invitations@,
                old(self).invitations@[idx as int].id,
                st,
            ),
            final(self).teams@ == old(self).teams@,
            final(self).members@ == old(self).members@,
            final(self).next_id == old(self).next_id,
    {
        let ghost pre = *self;
        let updated = self.invitations[idx].duplicate_with(st);
        self.invitations.set(idx, updated);
        proof {
            let id = pre.invitations@[idx as int].id;
            assert forall|k: int| 0 <= k < pre.invitations@.len() && k != idx implies
                pre.invitations@[k].id != id by {
                if k < idx {
                    assert(pre.invitations@[k].id < id);
                } else {
                    assert(id < pre.invitations@[k].id);
                }
            }
            assert(self.invitations@ =~= set_status(pre.invitations@, id, st));
        }
    }

    /// Accepts a pending invitation addressed to `user`'s email (ignoring ASCII
    /// case), making `user` a member of its team with its roles.
    pub fn accept_invite(&mut self, id: u64, user: &User) -> (r: Result<Member, TeamError>)
        requires
            old(self).wf(),
        ensures
            final(self).wf(),
            match r {
                Ok(m) => old(self).accept_error(id, *user) is None
                    && old(self).invite_accepted(*final(self), id, *user, m),
                Err(e) => old(self).accept_error(id, *user) == Some(e)
                    && *final(self) == *old(self),
            },
    {
        let idx = match self.find_invitation(id) {
            Some(i) => i,
            None => return Err(TeamError::Unauthorized),
        };
        if self.invitations[idx].status != InviteStatus::Pending {
            return Err(TeamError::InvalidState);
        }
        if !same_email(user.email.as_str(), self.invitations[idx].email.as_str()) {
            return Err(TeamError::Unauthorized);
        }
        let team_id = self.invitations[idx].team_id;
        if self.find_membership(team_id, user.id).is_some() {
            return Err(TeamError::InvalidState);
        }
        if self.next_id == u64::MAX {
            return Err(TeamError::Unavailable);
        }
        let ghost pre = *self;
        let m = Member {
            id: self.next_id,
            team_id,
            user_id: user.id,
            email: user.email.clone(),
            roles: self.invitations[idx].roles,
        };
        self.set_invitation_status(idx, InviteStatus::Accepted);
        let ghost mid = *self;
        self.members.push(m.duplicate());
        self.next_id = self.next_id + 1;
        proof {
            let n = pre.members@.len() as int;
            assert(pre.has_team(team_id));
            assert forall|i: int, j: int|
                0 <= i < self.members@.len() && 0 <= j < self.members@.len() && i != j
                    && self.members@[i].team_id == self.members@[j].team_id
                    implies self.members@[i].user_id != self.members@[j].user_id by {
                if i == n {
                    assert(pre.members@[j] == self.members@[j]);
                } else if j == n {
                    assert(pre.members@[i] == self.members@[i]);
                } else {
                    assert(pre.members@[i] == self.members@[i]);
                    assert(pre.members@[j] == self.members@[j]);
                }
            }
        }
        Ok(m)
    }

    /// Removes a member from the team; nobody may remove themself.
    pub fn remove_member(&mut self, gate: &Gate, team_id: u64, member_id: u64) -> (r: Result<(), TeamError>)
        requires
            old(self).wf(),
        ensures
            final(self).wf(),
            match r {
                Ok(()) => old(self).remove_error(*gate, team_id, member_id) is None
                    && (exists|i: int|
                    0 <= i < old(self).members@.len() && old(self).members@[i].id == member_id
                        && final(self).members@ == old(self).members@.remove(i))
                    && !final(self).has_member(member_id)
                    && final(self).teams@ == old(self).teams@
                    && final(self).invitations@ == old(self).invitations@
                    && final(self).next_id == old(self).next_id,
                Err(e) => old(self).remove_error(*gate, team_id, member_id) == Some(e)
                    && *final(self) == *old(self),
            },
    {
        if !(gate.team_id == team_id && gate.can_invite()) || self.find_team(team_id).is_none() {
            return Err(TeamError::Unauthorized);
        }
        let idx = match self.find_member(member_id) {
            Some(i) => i,
            None => return Err(TeamError::NotFound),
        };
        if self.members[idx].team_id != team_id {
            return Err(TeamError::NotFound);
        }
        if !gate.can_remove(&self.members[idx].email) {
            return Err(TeamError::Unauthorized);
        }
        let ghost pre = *self;
        self.members.remove(idx);
        proof {
            let s = pre.members@;
            assert forall|k: int| 0 <= k < self.members@.len() implies
                #[trigger] self.members@[k] == (if k < idx { s[k] } else { s[k + 1] }) by {}
            assert forall|k: int| 0 <= k < s.len() && k != idx implies s[k].id != member_id by {
                if k < idx {
                    assert(s[k].id < s[idx as int].id);
                } else {
                    assert(s[idx as int].id < s[k].id);
                }
            }
            assert(!self.has_member(member_id));
            assert forall|i: int, j: int|
                0 <= i < self.members@.len() && 0 <= j < self.members@.len() && i != j
                    && self.members@[i].team_id == self.members@[j].team_id
                    implies self.members@[i].user_id != self.members@[j].user_id by {
                let a = if i < idx { i } else { i + 1 };
                let b = if j < idx { j } else { j + 1 };
                assert(s[a] == self.members@[i]);
                assert(s[b] == self.members@[j]);
            }
            assert forall|i: int, j: int| 0 <= i < j < self.members@.len() implies
                self.members@[i].id < self.members@[j].id by {
                let a = if i < idx { i } else { i + 1 };
                let b = if j < idx { j } else { j + 1 };
                assert(s[a] == self.members@[i]);
                assert(s[b] == self.members@[j]);
            }
        }
        Ok(())
    }

    /// Sets the team's display name; a blank name is refused.
    pub fn set_team_name(&mut self, gate: &Gate, team_id: u64, new_name: String) -> (r: Result<Team, TeamError>)
        requires
            old(self).wf(),
        ensures
            final(self).wf(),
            match r {
                Ok(t) => old(self).rename_error(*gate, team_id, new_name@) is None
                    && t.id == team_id && t.name == Some(new_name)
                    && final(self).teams@ == rename_in(old(self).teams@, team_id, new_name)
                    && final(self).team(team_id) == Some(t)
                    && final(self).members@ == old(self).members@
                    && final(self).invitations@ == old(self).invitations@
                    && final(self).next_id == old(self).next_id,
                Err(e) => old(self).rename_error(*gate, team_id, new_name@) == Some(e)
                    && *final(self) == *old(self),
            },
    {
        if !(gate.team_id == team_id && gate.can_invite()) {
            return Err(TeamError::Unauthorized);
        }
        let idx = match self.find_team(team_id) {
            Some(i) => i,
            None => return Err(TeamError::Unauthorized),
        };
        let t = trim_text(new_name.as_str());
        if t.as_str().is_empty() {
            return Err(TeamError::InvalidArgument);
        }
        let ghost pre = *self;
        let team = Team { id: team_id, name: Some(new_name) };
        let out = team.duplicate();
        self.teams.set(idx, team);
        proof {
            assert forall|k: int| 0 <= k < pre.teams@.len() && k != idx implies
                pre.teams@[k].id != team_id by {
                if k < idx {
                    assert(pre.teams@[k].id < team_id);
                } else {
                    assert(team_id < pre.teams@[k].id);
                }
            }
            assert(self.teams@ =~= rename_in(pre.teams@, team_id, new_name));
            lemma_teams_kept(pre, *self);
            let k = choose|k: int| 0 <= k < self.teams@.len() && self.teams@[k].id == team_id;
            assert(k == idx);
        }
        Ok(out)
    }

    /// The members of `team_id`, in creation order.
    pub fn members_of(&self, team_id: u64) -> (r: Vec<Member>)
        ensures
            r@ == self.members@.filter(in_team(team_id)),
    {
        let mut out: Vec<Member> = Vec::new();
        let mut i: usize = 0;
        while i < self.members.len()
            invariant
                i <= self.members@.len(),
                out@ == self.members@.subrange(0, i as int).filter(in_team(team_id)),
            decreases self.members@.len() - i,
        {
            proof {
                let s = self.members@.subrange(0, i as int + 1);
                assert(s.drop_last() == self.members@.subrange(0, i as int));
                assert(s.last() == self.members@[i as int]);
                reveal(Seq::filter);
            }
            if self.members[i].team_id == team_id {
                out.push(self.members[i].duplicate());
            }
            i = i + 1;
        }
        assert(self.members@.subrange(0, self.members@.len() as int) == self.members@);
        out
    }

    /// The pending invitations of `team_id`, in creation order.
    pub fn pending_invitations(&self, team_id: u64) -> (r: Vec<Invitation>)
        ensures
            r@ == self.invitations@.filter(pending_in(team_id)),
    {
        let mut out: Vec<Invitation> = Vec::new();
        let mut i: usize = 0;
        while i < self.invitations.len()
            invariant
                i <= self.invitations@.len(),
                out@ == self.invitations@.subrange(0, i as int).filter(pending_in(team_id)),
            decreases self.invitations@.len() - i,
        {
            proof {
                let s = self.invitations@.subrange(0, i as int + 1);
                assert(s.drop_last() == self.invitations@.subrange(0, i as int));
                assert(s.last() == self.invitations@[i as int]);
                reveal(Seq::filter);
            }
            if self.invitations[i].team_id == team_id
                && self.invitations[i].status == InviteStatus::Pending {
                out.push(self.invitations[i].duplicate());
            }
            i = i + 1;
        }
        assert(self.invitations@.subrange(0, self.invitations@.len() as int) == self.invitations@);
        out
    }

    /// The team's directory as `gate`'s principal sees it: refused unless they
    /// are a member of the team.
    pub fn directory(&self, gate: &Gate, team_id: u64) -> (r: Result<Directory, TeamError>)
        requires
            self.wf(),
        ensures
            match r {
                Ok(d) => gate.team_id == team_id && self.is_member(team_id, gate.user_id)
                    && self.team(team_id) == Some(d.team)
                    && member_rows(d.members@, self.members@.filter(in_team(team_id)), *gate)
                    && invite_rows(
                    d.invitations@,
                    self.invitations@.filter(pending_in(team_id)),
                    *gate,
                ),
                Err(e) => e == TeamError::Unauthorized && !(gate.team_id == team_id
                    && self.is_member(team_id, gate.user_id)),
            },
    {
        if gate.team_id != team_id || self.find_membership(team_id, gate.user_id).is_none() {
            return Err(TeamError::Unauthorized);
        }
        let ghost k = choose|k: int|
            0 <= k < self.members@.len() && self.members@[k].team_id == team_id
                && self.members@[k].user_id == gate.user_id;
        assert(self.has_team(self.members@[k].team_id));
        let idx = match self.find_team(team_id) {
            Some(i) => i,
            None => return Err(TeamError::Unauthorized),
        };
        let team = self.teams[idx].duplicate();
        let ms = self.members_of(team_id);
        let mut member_list: Vec<MemberRow> = Vec::new();
        let mut i: usize = 0;
        while i < ms.len()
            invariant
                i <= ms@.len(),
                member_rows(member_list@, ms@.subrange(0, i as int), *gate),
            decreases ms@.len() - i,
        {
            let removable = gate.can_remove(&ms[i].email);
            member_list.push(MemberRow { member: ms[i].duplicate(), removable });
            i = i + 1;
        }
        assert(ms@.subrange(0, ms@.len() as int) == ms@);
        let invs = self.pending_invitations(team_id);
        let revocable = gate.can_invite();
        let mut invite_list: Vec<InviteRow> = Vec::new();
        let mut j: usize = 0;
        while j < invs.len()
            invariant
                j <= invs@.len(),
                revocable == gate.may_manage(),
                invite_rows(invite_list@, invs@.subrange(0, j as int), *gate),
            decreases invs@.len() - j,
        {
            invite_list.push(InviteRow { invitation: invs[j].duplicate(), revocable });
            j = j + 1;
        }
        assert(invs@.subrange(0, invs@.len() as int) == invs@);
        Ok(Directory { team, members: member_list, invitations: invite_list })
    }
}

} // verus!
