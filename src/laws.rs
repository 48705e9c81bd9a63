use vstd::prelude::*;
use crate::email::email_key;
use crate::gate::Gate;
use crate::model::{Invitation, InviteStatus, Member, TeamError, User};
use crate::roles::Role;
use crate::store::Store;

verus! {

/// A principal without the manage-members capability can neither issue an
/// invitation nor remove a member: both are refused as unauthorized, whatever
/// the team, the email, the roles or the member.
pub proof fn lemma_unprivileged_refused(
    s: Store,
    gate: Gate,
    team_id: u64,
    email: Seq<char>,
    roles: Seq<Role>,
    member_id: u64,
)
    requires
        !gate.may_manage(),
    ensures
        s.create_error(gate, team_id, email, roles) == Some(TeamError::Unauthorized),
        s.remove_error(gate, team_id, member_id) == Some(TeamError::Unauthorized),
{
}

/// Nobody may remove themself: `can_remove` is false for the principal's own
/// email, whatever capabilities they hold, so removing a member with that email
/// is always refused.
pub proof fn lemma_no_self_removal(s: Store, gate: Gate, team_id: u64, member_id: u64)
    ensures
        !gate.may_remove(gate.email@),
        s.has_member(member_id) && s.member(member_id)->0.email@ == gate.email@
            ==> s.remove_error(gate, team_id, member_id) is Some,
{
}

/// In a well-formed store a team has at most one pending invitation per email.
pub proof fn lemma_single_pending(s: Store, i: int, j: int)
    requires
        s.wf(),
        0 <= i < s.invitations@.len(),
        0 <= j < s.invitations@.len(),
        s.invitations@[i].status == InviteStatus::Pending,
        s.invitations@[j].status == InviteStatus::Pending,
        s.invitations@[i].team_id == s.invitations@[j].team_id,
        email_key(s.invitations@[i].email@) == email_key(s.invitations@[j].email@),
    ensures
        i == j,
{
}

/// Of two invitations for the same team and email, only the first is issued:
/// once one is created, a second one with any roles is refused, as a duplicate
/// whenever its role set is not empty.
pub proof fn lemma_second_invite_refused(
    s0: Store,
    s1: Store,
    gate: Gate,
    team_id: u64,
    email: Seq<char>,
    first_name: Seq<char>,
    last_name: Seq<char>,
    roles: Seq<Role>,
    inv: Invitation,
    email2: Seq<char>,
    roles2: Seq<Role>,
)
    requires
        s0.create_error(gate, team_id, email, roles) is None,
        s0.invite_created(s1, team_id, email, first_name, last_name, roles.to_set(), inv),
        email_key(email2) == email_key(email),
    ensures
        s1.create_error(gate, team_id, email2, roles2) is Some,
        roles2.len() > 0 ==> s1.create_error(gate, team_id, email2, roles2) == Some(
            TeamError::DuplicateInvitation,
        ),
{
    let n = s0.invitations@.len() as int;
    assert(s1.invitations@[n] == inv);
    assert(s1.has_pending(team_id, email_key(email2)));
}

/// Acceptance happens at most once: after an invitation has been accepted, every
/// further acceptance of it, by anyone, fails with `InvalidState`.
pub proof fn lemma_accept_once(s0: Store, s1: Store, id: u64, user: User, m: Member, other: User)
    requires
        s0.accept_error(id, user) is None,
        s0.invite_accepted(s1, id, user, m),
    ensures
        s1.accept_error(id, other) == Some(TeamError::InvalidState),
{
    let k0 = choose|k: int| 0 <= k < s0.invitations@.len() && s0.invitations@[k].id == id;
    assert(s1.invitations@[k0].id == id);
    assert(s1.has_invitation(id));
    let k = choose|k: int| 0 <= k < s1.invitations@.len() && s1.invitations@[k].id == id;
    assert(s0.invitations@[k].id == id);
    assert(s1.invitations@[k].status == InviteStatus::Accepted);
}

/// Revocation happens at most once: after an invitation has been revoked, a
/// second revocation through the same gate fails with `AlreadyRevoked`.
pub proof fn lemma_revoke_once(s0: Store, s1: Store, gate: Gate, team_id: u64, id: u64)
    requires
        s0.wf(),
        s0.revoke_error(gate, team_id, id) is None,
        s1.invitations@ == crate::store::set_status(s0.invitations@, id, InviteStatus::Revoked),
        s1.teams@ == s0.teams@,
    ensures
        s1.revoke_error(gate, team_id, id) == Some(TeamError::AlreadyRevoked),
{
    let k0 = choose|k: int| 0 <= k < s0.invitations@.len() && s0.invitations@[k].id == id;
    assert(s1.invitations@[k0].id == id);
    assert(s1.has_invitation(id));
    let k = choose|k: int| 0 <= k < s1.invitations@.len() && s1.invitations@[k].id == id;
    assert(s0.invitations@[k].id == id);
    assert(s1.invitations@[k].status == InviteStatus::Revoked);
    assert(s1.invitations@[k].team_id == s0.invitations@[k].team_id);
    let j = choose|j: int| 0 <= j < s0.invitations@.len() && s0.invitations@[j].id == id;
    if k < j {
        assert(s0.invitations@[k].id < s0.invitations@[j].id);
    }
    if j < k {
        assert(s0.invitations@[j].id < s0.invitations@[k].id);
    }
    assert(s0.invitation(id)->0.team_id == team_id);
    assert(s1.has_team(team_id) == s0.has_team(team_id));
}

/// An invitation that was just issued can be accepted by a non-member whose
/// email matches it, and the member that acceptance creates holds exactly the
/// invitation's roles, in the invitation's team.
pub proof fn lemma_invite_then_accept(
    s0: Store,
    s1: Store,
    gate: Gate,
    team_id: u64,
    email: Seq<char>,
    first_name: Seq<char>,
    last_name: Seq<char>,
    roles: Seq<Role>,
    inv: Invitation,
    user: User,
)
    requires
        s0.wf(),
        s0.create_error(gate, team_id, email, roles) is None,
        s0.invite_created(s1, team_id, email, first_name, last_name, roles.to_set(), inv),
    ensures
        s1.invitation(inv.id) == Some(inv),
        email_key(user.email@) == email_key(email) && !s1.is_member(team_id, user.id)
            && s1.next_id != u64::MAX ==> s1.accept_error(inv.id, user) is None,
        forall|s2: Store, m: Member|
            s1.invite_accepted(s2, inv.id, user, m) ==> m.roles@ == roles.to_set()
                && m.team_id == team_id && m.roles == inv.roles,
{
    let n = s0.invitations@.len() as int;
    assert(s1.invitations@[n] == inv);
    assert(s1.has_invitation(inv.id));
    let k = choose|k: int| 0 <= k < s1.invitations@.len() && s1.invitations@[k].id == inv.id;
    if k < n {
        assert(s0.invitations@[k].id < s0.next_id);
    }
    assert(k == n);
}

} // verus!
