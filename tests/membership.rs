use team_members::email::same_email;
use team_members::gate::Gate;
use team_members::model::{onboarding_complete, InviteStatus, Team, TeamError, User};
use team_members::roles::{capabilities_for, Role, RoleSet};
use team_members::store::Store;

fn user(id: u64, email: &str) -> User {
    User { id, email: email.to_string(), first_name: None, last_name: None }
}

/// A store with one team founded by `admin`, plus `member` who joined through an
/// invitation under the plain member role.
fn team_with_member(admin: &User, member: &User) -> (Store, u64, u64, u64) {
    let mut s = Store::new();
    let team = s.create_team(admin).unwrap();
    let admin_member_id = s.members[0].id;
    let g = s.gate_for(team, admin);
    let inv = s
        .create_invite(&g, team, member.email.clone(), "M".to_string(), "N".to_string(), &vec![Role::Member])
        .unwrap();
    let m = s.accept_invite(inv.id, member).unwrap();
    (s, team, admin_member_id, m.id)
}

#[test]
fn remove_member_scenario() {
    let a = user(1, "a@x.com");
    let m = user(2, "m@x.com");
    let (mut s, team, a_id, m_id) = team_with_member(&a, &m);
    let gm = s.gate_for(team, &m);
    assert_eq!(s.remove_member(&gm, team, a_id), Err(TeamError::Unauthorized));
    let ga = s.gate_for(team, &a);
    assert_eq!(s.remove_member(&ga, team, m_id), Ok(()));
    let d = s.directory(&ga, team).unwrap();
    assert_eq!(d.members.len(), 1);
    assert!(d.members.iter().all(|row| row.member.id != m_id));
    assert_eq!(d.members[0].member.id, a_id);
}

#[test]
fn set_team_name_scenario() {
    let a = user(1, "a@x.com");
    let mut s = Store::new();
    let team = s.create_team(&a).unwrap();
    let g = s.gate_for(team, &a);
    assert!(matches!(s.set_team_name(&g, team, String::new()), Err(TeamError::InvalidArgument)));
    let t = s.set_team_name(&g, team, "Acme".to_string()).unwrap();
    assert_eq!(t.name.as_deref(), Some("Acme"));
    let d = s.directory(&g, team).unwrap();
    assert_eq!(d.team.name.as_deref(), Some("Acme"));
}

#[test]
fn blank_team_name_is_refused() {
    let a = user(1, "a@x.com");
    let mut s = Store::new();
    let team = s.create_team(&a).unwrap();
    let g = s.gate_for(team, &a);
    assert!(matches!(s.set_team_name(&g, team, "  \t ".to_string()), Err(TeamError::InvalidArgument)));
    assert!(s.teams[0].name.is_none());
    let t = s.set_team_name(&g, team, "  Acme ".to_string()).unwrap();
    assert_eq!(t.name.as_deref(), Some("  Acme "));
}

#[test]
fn revoke_twice_scenario() {
    let a = user(1, "a@x.com");
    let mut s = Store::new();
    let team = s.create_team(&a).unwrap();
    let g = s.gate_for(team, &a);
    let inv = s
        .create_invite(&g, team, "b@x.com".to_string(), "B".to_string(), "C".to_string(), &vec![Role::Member])
        .unwrap();
    assert_eq!(s.revoke_invite(&g, team, inv.id), Ok(()));
    assert_eq!(s.revoke_invite(&g, team, inv.id), Err(TeamError::AlreadyRevoked));
    assert_eq!(s.invitations[0].status, InviteStatus::Revoked);
}

#[test]
fn invite_then_accept_keeps_roles() {
    let a = user(1, "a@x.com");
    let mut s = Store::new();
    let team = s.create_team(&a).unwrap();
    let g = s.gate_for(team, &a);
    let roles = vec![Role::Billing, Role::Member, Role::Billing];
    let inv = s
        .create_invite(&g, team, "new@x.com".to_string(), "N".to_string(), "W".to_string(), &roles)
        .unwrap();
    assert_eq!(inv.roles, RoleSet { admin: false, member: true, billing: true });
    assert_eq!(inv.status, InviteStatus::Pending);
    let m = s.accept_invite(inv.id, &user(5, "New@X.com")).unwrap();
    assert_eq!(m.roles, inv.roles);
    assert_eq!(m.team_id, team);
    assert_eq!(m.user_id, 5);
    assert_eq!(s.invitations[0].status, InviteStatus::Accepted);
}

#[test]
fn accept_is_exactly_once() {
    let a = user(1, "a@x.com");
    let mut s = Store::new();
    let team = s.create_team(&a).unwrap();
    let g = s.gate_for(team, &a);
    let inv = s
        .create_invite(&g, team, "b@x.com".to_string(), "B".to_string(), "C".to_string(), &vec![Role::Admin])
        .unwrap();
    assert!(s.accept_invite(inv.id, &user(2, "b@x.com")).is_ok());
    assert!(matches!(s.accept_invite(inv.id, &user(2, "b@x.com")), Err(TeamError::InvalidState)));
    assert!(matches!(s.accept_invite(inv.id, &user(3, "b@x.com")), Err(TeamError::InvalidState)));
    assert_eq!(s.members.len(), 2);
}

#[test]
fn duplicate_pending_invitation_is_refused() {
    let a = user(1, "a@x.com");
    let mut s = Store::new();
    let team = s.create_team(&a).unwrap();
    let g = s.gate_for(team, &a);
    assert!(s
        .create_invite(&g, team, "b@x.com".to_string(), "B".to_string(), "C".to_string(), &vec![Role::Member])
        .is_ok());
    assert!(matches!(
        s.create_invite(&g, team, "B@X.COM".to_string(), "B".to_string(), "C".to_string(), &vec![Role::Admin]),
        Err(TeamError::DuplicateInvitation)
    ));
    assert_eq!(s.invitations.len(), 1);
    let first = s.invitations[0].id;
    s.revoke_invite(&g, team, first).unwrap();
    assert!(s
        .create_invite(&g, team, "b@x.com".to_string(), "B".to_string(), "C".to_string(), &vec![Role::Member])
        .is_ok());
}

#[test]
fn unprivileged_principal_is_refused() {
    let a = user(1, "a@x.com");
    let m = user(2, "m@x.com");
    let (mut s, team, a_id, _) = team_with_member(&a, &m);
    let gm = s.gate_for(team, &m);
    assert!(!gm.can_invite());
    assert!(matches!(
        s.create_invite(&gm, team, "c@x.com".to_string(), "C".to_string(), "D".to_string(), &vec![Role::Member]),
        Err(TeamError::Unauthorized)
    ));
    assert_eq!(s.remove_member(&gm, team, a_id), Err(TeamError::Unauthorized));
    assert_eq!(s.remove_member(&gm, team, 999), Err(TeamError::Unauthorized));
    let outsider = s.gate_for(team, &user(9, "z@x.com"));
    assert!(matches!(
        s.create_invite(&outsider, team, "c@x.com".to_string(), "C".to_string(), "D".to_string(), &vec![Role::Member]),
        Err(TeamError::Unauthorized)
    ));
}

#[test]
fn self_removal_is_refused() {
    let a = user(1, "a@x.com");
    let mut s = Store::new();
    let team = s.create_team(&a).unwrap();
    let g = s.gate_for(team, &a);
    assert!(g.can_invite());
    assert!(!g.can_remove(&"a@x.com".to_string()));
    assert!(g.can_remove(&"b@x.com".to_string()));
    let own = s.members[0].id;
    assert_eq!(s.remove_member(&g, team, own), Err(TeamError::Unauthorized));
    assert_eq!(s.members.len(), 1);
}

#[test]
fn invitation_needs_a_role() {
    let a = user(1, "a@x.com");
    let mut s = Store::new();
    let team = s.create_team(&a).unwrap();
    let g = s.gate_for(team, &a);
    assert!(matches!(
        s.create_invite(&g, team, "b@x.com".to_string(), "B".to_string(), "C".to_string(), &vec![]),
        Err(TeamError::InvalidRoleSet)
    ));
    assert!(s.invitations.is_empty());
}

#[test]
fn revoke_unknown_or_foreign_invitation() {
    let a = user(1, "a@x.com");
    let b = user(2, "b@x.com");
    let mut s = Store::new();
    let t1 = s.create_team(&a).unwrap();
    let t2 = s.create_team(&b).unwrap();
    let g1 = s.gate_for(t1, &a);
    let g2 = s.gate_for(t2, &b);
    let inv = s
        .create_invite(&g2, t2, "c@x.com".to_string(), "C".to_string(), "D".to_string(), &vec![Role::Member])
        .unwrap();
    assert_eq!(s.revoke_invite(&g1, t1, 12345), Err(TeamError::NotFound));
    assert_eq!(s.revoke_invite(&g1, t1, inv.id), Err(TeamError::NotFound));
    assert_eq!(s.revoke_invite(&g1, t2, inv.id), Err(TeamError::Unauthorized));
    assert_eq!(s.remove_member(&g1, t1, 12345), Err(TeamError::NotFound));
}

#[test]
fn revoking_an_accepted_invitation_is_invalid() {
    let a = user(1, "a@x.com");
    let mut s = Store::new();
    let team = s.create_team(&a).unwrap();
    let g = s.gate_for(team, &a);
    let inv = s
        .create_invite(&g, team, "b@x.com".to_string(), "B".to_string(), "C".to_string(), &vec![Role::Member])
        .unwrap();
    s.accept_invite(inv.id, &user(2, "b@x.com")).unwrap();
    assert_eq!(s.revoke_invite(&g, team, inv.id), Err(TeamError::InvalidState));
}

#[test]
fn accept_by_wrong_email_or_unknown_id() {
    let a = user(1, "a@x.com");
    let mut s = Store::new();
    let team = s.create_team(&a).unwrap();
    let g = s.gate_for(team, &a);
    let inv = s
        .create_invite(&g, team, "b@x.com".to_string(), "B".to_string(), "C".to_string(), &vec![Role::Member])
        .unwrap();
    assert!(matches!(s.accept_invite(inv.id, &user(3, "c@x.com")), Err(TeamError::Unauthorized)));
    assert!(matches!(s.accept_invite(777, &user(2, "b@x.com")), Err(TeamError::Unauthorized)));
    assert_eq!(s.invitations[0].status, InviteStatus::Pending);
}

#[test]
fn existing_member_cannot_accept_again() {
    let a = user(1, "a@x.com");
    let mut s = Store::new();
    let team = s.create_team(&a).unwrap();
    let g = s.gate_for(team, &a);
    let inv = s
        .create_invite(&g, team, "a@x.com".to_string(), "A".to_string(), "B".to_string(), &vec![Role::Member])
        .unwrap();
    assert!(matches!(s.accept_invite(inv.id, &a), Err(TeamError::InvalidState)));
    assert_eq!(s.members.len(), 1);
}

#[test]
fn directory_rows_and_access() {
    let a = user(1, "a@x.com");
    let m = user(2, "m@x.com");
    let (mut s, team, a_id, m_id) = team_with_member(&a, &m);
    let ga = s.gate_for(team, &a);
    s.create_invite(&ga, team, "p@x.com".to_string(), "P".to_string(), "Q".to_string(), &vec![Role::Billing])
        .unwrap();
    let d = s.directory(&ga, team).unwrap();
    assert_eq!(d.members.len(), 2);
    assert_eq!(d.members[0].member.id, a_id);
    assert!(!d.members[0].removable);
    assert_eq!(d.members[1].member.id, m_id);
    assert!(d.members[1].removable);
    assert_eq!(d.invitations.len(), 1);
    assert_eq!(d.invitations[0].invitation.email, "p@x.com");
    assert!(d.invitations[0].revocable);
    let gm = s.gate_for(team, &m);
    let dm = s.directory(&gm, team).unwrap();
    assert!(dm.members.iter().all(|r| !r.removable));
    assert!(dm.invitations.iter().all(|r| !r.revocable));
    let outsider = s.gate_for(team, &user(9, "z@x.com"));
    assert!(matches!(s.directory(&outsider, team), Err(TeamError::Unauthorized)));
}

#[test]
fn listings_are_per_team_in_creation_order() {
    let a = user(1, "a@x.com");
    let b = user(2, "b@x.com");
    let mut s = Store::new();
    let t1 = s.create_team(&a).unwrap();
    let t2 = s.create_team(&b).unwrap();
    let g1 = s.gate_for(t1, &a);
    let i1 = s.create_invite(&g1, t1, "c@x.com".to_string(), "C".to_string(), "D".to_string(), &vec![Role::Member]).unwrap();
    let i2 = s.create_invite(&g1, t1, "d@x.com".to_string(), "D".to_string(), "E".to_string(), &vec![Role::Member]).unwrap();
    let pend = s.pending_invitations(t1);
    assert_eq!(pend.len(), 2);
    assert_eq!(pend[0].id, i1.id);
    assert_eq!(pend[1].id, i2.id);
    assert!(s.pending_invitations(t2).is_empty());
    assert_eq!(s.members_of(t1).len(), 1);
    assert_eq!(s.members_of(t2)[0].user_id, 2);
}

#[test]
fn capabilities_follow_roles() {
    let admin = capabilities_for(RoleSet { admin: true, member: false, billing: false });
    assert!(admin.manage_members && admin.manage_billing);
    let billing = capabilities_for(RoleSet { admin: false, member: true, billing: true });
    assert!(!billing.manage_members && billing.manage_billing);
    let none = capabilities_for(RoleSet { admin: false, member: true, billing: false });
    assert!(!none.manage_members && !none.manage_billing);
    let r = RoleSet::from_roles(&vec![Role::Admin, Role::Admin]);
    assert_eq!(r, RoleSet { admin: true, member: false, billing: false });
    assert_eq!(RoleSet::from_roles(&vec![]), RoleSet { admin: false, member: false, billing: false });
}

#[test]
fn email_comparison_ignores_ascii_case() {
    assert!(same_email("A@X.com", "a@x.COM"));
    assert!(!same_email("a@x.com", "a@x.co"));
    assert!(!same_email("a@x.com", "b@x.com"));
    assert!(same_email("", ""));
}

#[test]
fn onboarding_reports_missing_names() {
    let t = Team { id: 1, name: None };
    let u = user(1, "a@x.com");
    let st = onboarding_complete(&t, &u);
    assert!(st.team_name_missing && st.principal_name_missing);
    let t2 = Team { id: 1, name: Some("Acme".to_string()) };
    let u2 = User { id: 1, email: "a@x.com".to_string(), first_name: Some("Ann".to_string()), last_name: None };
    let st2 = onboarding_complete(&t2, &u2);
    assert!(!st2.team_name_missing && !st2.principal_name_missing);
}

#[test]
fn gate_from_foreign_team_is_refused() {
    let a = user(1, "a@x.com");
    let b = user(2, "b@x.com");
    let mut s = Store::new();
    let t1 = s.create_team(&a).unwrap();
    let t2 = s.create_team(&b).unwrap();
    let g1: Gate = s.gate_for(t1, &a);
    assert!(matches!(s.set_team_name(&g1, t2, "Other".to_string()), Err(TeamError::Unauthorized)));
    assert!(matches!(s.directory(&g1, t2), Err(TeamError::Unauthorized)));
}
