use vstd::prelude::*;
use crate::roles::RoleSet;

verus! {

/// An authenticated user acting on a team.
#[derive(Clone, Debug)]
pub struct User {
    pub id: u64,
    pub email: String,
    pub first_name: Option<String>,
    pub last_name: Option<String>,
}

/// A team; its display name stays unset until an authorized member sets it.
#[derive(Clone, Debug)]
pub struct Team {
    pub id: u64,
    pub name: Option<String>,
}

/// An active participant of one team.
#[derive(Clone, Debug)]
pub struct Member {
    pub id: u64,
    pub team_id: u64,
    pub user_id: u64,
    pub email: String,
    pub roles: RoleSet,
}

/// The lifecycle of an invitation: `Pending` moves to `Accepted` or `Revoked`,
/// both terminal.
#[derive(Clone, Copy, Debug, PartialEq, Eq, Structural)]
pub enum InviteStatus {
    Pending,
    Accepted,
    Revoked,
}

/// An invitation to join a team under a set of roles.
#[derive(Clone, Debug)]
pub struct Invitation {
    pub id: u64,
    pub team_id: u64,
    pub email: String,
    pub first_name: String,
    pub last_name: String,
    pub roles: RoleSet,
    pub status: InviteStatus,
}

/// Why a command was refused.
#[derive(Clone, Copy, Debug, PartialEq, Eq, Structural)]
pub enum TeamError {
    /// A capability or ownership check failed.
    Unauthorized,
    /// The referenced entity is absent or belongs to another team.
    NotFound,
    /// A pending invitation already exists for this team and email.
    DuplicateInvitation,
    /// The invitation was already revoked.
    AlreadyRevoked,
    /// The requested lifecycle transition is not allowed.
    InvalidState,
    /// A malformed argument, such as a blank team name.
    InvalidArgument,
    /// An invitation was asked for with no role.
    InvalidRoleSet,
    /// The store cannot take the change now; the only error worth retrying.
    Unavailable,
}

/// Which onboarding details are still missing. Advisory: invitations may be
/// issued regardless, and callers decide whether to surface the gaps.
#[derive(Clone, Copy, Debug, PartialEq, Eq, Structural)]
pub struct OnboardingStatus {
    pub team_name_missing: bool,
    pub principal_name_missing: bool,
}

fn copy_opt(s: &Option<String>) -> (r: Option<String>)
    ensures
        r == *s,
{
    match s {
        Some(v) => Some(v.clone()),
        None => None,
    }
}

impl User {
    /// A field-for-field copy.
    pub fn duplicate(&self) -> (r: User)
        ensures
            r == *self,
    {
        User {
            id: self.id,
            email: self.email.clone(),
            first_name: copy_opt(&self.first_name),
            last_name: copy_opt(&self.last_name),
        }
    }
}

impl Team {
    /// A field-for-field copy.
    pub fn duplicate(&self) -> (r: Team)
        ensures
            r == *self,
    {
        Team { id: self.id, name: copy_opt(&self.name) }
    }
}

impl Member {
    /// A field-for-field copy.
    pub fn duplicate(&self) -> (r: Member)
        ensures
            r == *self,
    {
        Member {
            id: self.id,
            team_id: self.team_id,
            user_id: self.user_id,
            email: self.email.clone(),
            roles: self.roles,
        }
    }
}

impl Invitation {
    pub open spec fn with_status(self, st: InviteStatus) -> Invitation {
        Invitation {
            id: self.id,
            team_id: self.team_id,
            email: self.email,
            first_name: self.first_name,
            last_name: self.last_name,
            roles: self.roles,
            status: st,
        }
    }

    /// A copy with its status replaced.
    pub fn duplicate_with(&self, st: InviteStatus) -> (r: Invitation)
        ensures
            r == self.with_status(st),
    {
        Invitation {
            id: self.id,
            team_id: self.team_id,
            email: self.email.clone(),
            first_name: self.first_name.clone(),
            last_name: self.last_name.clone(),
            roles: self.roles,
            status: st,
        }
    }

    /// A field-for-field copy.
    pub fn duplicate(&self) -> (r: Invitation)
        ensures
            r == *self,
    {
        self.duplicate_with(self.status)
    }
}

/// Reports which onboarding details are missing: the team's name and the
/// principal's first name.
pub fn onboarding_complete(team: &Team, principal: &User) -> (r: OnboardingStatus)
    ensures
        r.team_name_missing == team.name.is_none(),
        r.principal_name_missing == principal.first_name.is_none(),
{
    OnboardingStatus {
        team_name_missing: team.name.is_none(),
        principal_name_missing: principal.first_name.is_none(),
    }
}

} // verus!
