use vstd::prelude::*;
use crate::roles::{Capability, CapabilitySet};

verus! {

/// The authorization context of one request: the acting principal, the team
/// acted on, and the capabilities the principal's roles grant there.
#[derive(Clone, Debug)]
pub struct Gate {
    pub team_id: u64,
    pub user_id: u64,
    pub email: String,
    pub caps: CapabilitySet,
}

impl Gate {
    pub open spec fn may_manage(self) -> bool {
        self.caps@.contains(Capability::ManageMembers)
    }

    pub open spec fn may_remove(self, target_email: Seq<char>) -> bool {
        self.may_manage() && self.email@ != target_email
    }

    /// Whether the principal may issue and revoke invitations.
    pub fn can_invite(&self) -> (r: bool)
        ensures
            r == self.may_manage(),
    {
        self.caps.manage_members
    }

    /// Whether the principal may remove the member with `target_email`; never
    /// their own address.
    pub fn can_remove(&self, target_email: &String) -> (r: bool)
        ensures
            r == self.may_remove(target_email@),
    {
        let same = self.email == *target_email;
        self.can_invite() && !same
    }
}

} // verus!
