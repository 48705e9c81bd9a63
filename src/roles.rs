use vstd::prelude::*;

verus! {

/// A role tag held by a member or an invitation.
#[derive(Clone, Copy, Debug, PartialEq, Eq, Structural)]
pub enum Role {
    Admin,
    Member,
    Billing,
}

/// A named permission derived from role grants.
#[derive(Clone, Copy, Debug, PartialEq, Eq, Structural)]
pub enum Capability {
    ManageMembers,
    ManageBilling,
}

/// Whether holding role `r` grants capability `c`.
pub open spec fn grants(r: Role, c: Capability) -> bool {
    match r {
        Role::Admin => true,
        Role::Member => false,
        Role::Billing => c == Capability::ManageBilling,
    }
}

/// The capabilities granted by a set of roles: the union over its roles.
pub open spec fn caps_of(roles: Set<Role>) -> Set<Capability> {
    Set::new(|c: Capability| exists|r: Role| roles.contains(r) && #[trigger] grants(r, c))
}

/// A set of roles, one flag per role tag, so duplicates collapse by construction.
#[derive(Clone, Copy, Debug, PartialEq, Eq, Structural)]
pub struct RoleSet {
    pub admin: bool,
    pub member: bool,
    pub billing: bool,
}

impl RoleSet {
    pub open spec fn has(self, r: Role) -> bool {
        match r {
            Role::Admin => self.admin,
            Role::Member => self.member,
            Role::Billing => self.billing,
        }
    }

    pub open spec fn view(self) -> Set<Role> {
        Set::new(|r: Role| self.has(r))
    }

    /// Collects the roles of `roles` into a set, ignoring order and repeats.
    pub fn from_roles(roles: &Vec<Role>) -> (r: RoleSet)
        ensures
            r@ == roles@.to_set(),
    {
        let mut out = RoleSet { admin: false, member: false, billing: false };
        let mut i: usize = 0;
        while i < roles.len()
            invariant
                i <= roles@.len(),
                forall|x: Role| out.has(x) <==> roles@.subrange(0, i as int).contains(x),
            decreases roles@.len() - i,
        {
            let ghost before = out;
            match roles[i] {
                Role::Admin => { out.admin = true; },
                Role::Member => { out.member = true; },
                Role::Billing => { out.billing = true; },
            }
            proof {
                let s = roles@.subrange(0, i as int);
                let t = roles@.subrange(0, i as int + 1);
                assert(t == s.push(roles@[i as int]));
                assert forall|x: Role| out.has(x) <==> t.contains(x) by {
                    assert(out.has(x) == (before.has(x) || x == roles@[i as int]));
                    assert(before.has(x) == s.contains(x));
                    if t.contains(x) && x != roles@[i as int] {
                        let k = choose|k: int| 0 <= k < t.len() && t[k] == x;
                        assert(s[k] == x);
                    }
                    if s.contains(x) {
                        let k = choose|k: int| 0 <= k < s.len() && s[k] == x;
                        assert(t[k] == x);
                    }
                    if x == roles@[i as int] {
                        assert(t[i as int] == x);
                    }
                }
            }
            i = i + 1;
        }
        assert(roles@.subrange(0, roles@.len() as int) == roles@);
        assert(out@ =~= roles@.to_set());
        out
    }
}

/// A set of capabilities, one flag per capability.
#[derive(Clone, Copy, Debug, PartialEq, Eq, Structural)]
pub struct CapabilitySet {
    pub manage_members: bool,
    pub manage_billing: bool,
}

impl CapabilitySet {
    pub open spec fn has(self, c: Capability) -> bool {
        match c {
            Capability::ManageMembers => self.manage_members,
            Capability::ManageBilling => self.manage_billing,
        }
    }

    pub open spec fn view(self) -> Set<Capability> {
        Set::new(|c: Capability| self.has(c))
    }

    /// The set holding no capability.
    pub fn none() -> (r: CapabilitySet)
        ensures
            r@ == Set::<Capability>::empty(),
    {
        let r = CapabilitySet { manage_members: false, manage_billing: false };
        assert(r@ =~= Set::<Capability>::empty());
        r
    }
}

/// Translates role grants into capabilities: the union of what each held role grants.
pub fn capabilities_for(roles: RoleSet) -> (r: CapabilitySet)
    ensures
        r@ == caps_of(roles@),
{
    let r = CapabilitySet {
        manage_members: roles.admin,
        manage_billing: roles.admin || roles.billing,
    };
    proof {
        assert forall|c: Capability| r@.contains(c) <==> caps_of(roles@).contains(c) by {
            if r@.contains(c) {
                if roles.admin {
                    assert(roles@.contains(Role::Admin) && grants(Role::Admin, c));
                } else {
                    assert(roles@.contains(Role::Billing) && grants(Role::Billing, c));
                }
            }
            if caps_of(roles@).contains(c) {
                let w = choose|w: Role| roles@.contains(w) && #[trigger] grants(w, c);
                assert(roles.has(w));
            }
        }
        assert(r@ =~= caps_of(roles@));
    }
    r
}

/// Adding roles never takes a capability away: capabilities are a union over roles.
pub proof fn lemma_capabilities_monotonic(a: Set<Role>, b: Set<Role>)
    requires
        a.subset_of(b),
    ensures
        caps_of(a).subset_of(caps_of(b)),
{
    assert forall|c: Capability| caps_of(a).contains(c) implies caps_of(b).contains(c) by {
        let w = choose|w: Role| a.contains(w) && #[trigger] grants(w, c);
        assert(b.contains(w) && grants(w, c));
    }
}

} // verus!
