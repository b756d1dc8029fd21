use aio_plugin_rbac::error::AccessError;
use aio_plugin_rbac::model::UserItem;
use aio_plugin_rbac::mutation::{Command, Mutation, Query, Reply, Write};
use aio_plugin_rbac::view::build_view;

/// A tenant database in memory, queried the way the server's SQL does.
#[derive(Clone, Default)]
struct Db {
    users: Vec<String>,
    memberships: Vec<(String, String, String)>,
    member_roles: Vec<(String, String, String)>,
    role_permissions: Vec<(String, String, String)>,
    sessions: Vec<(String, String)>,
}

impl Db {
    fn roles_of(&self, t: &str, u: &str) -> Vec<String> {
        self.member_roles.iter().filter(|r| r.0 == t && r.1 == u).map(|r| r.2.clone()).collect()
    }
    fn perms_of(&self, t: &str, role: &str) -> Vec<String> {
        self.role_permissions.iter().filter(|p| p.0 == t && p.1 == role).map(|p| p.2.clone()).collect()
    }
    fn is_member(&self, t: &str, u: &str) -> bool {
        self.memberships.iter().any(|m| m.0 == t && m.1 == u)
    }
    fn manages(&self, t: &str, u: &str) -> bool {
        self.roles_of(t, u).iter().any(|r| self.perms_of(t, r).iter().any(|p| p == "rbac:manage"))
    }
    fn answer(&self, t: &str, actor: &str, q: Query) -> Reply {
        match q {
            Query::ActorIsManager => Reply::Flag(self.is_member(t, actor) && self.manages(t, actor)),
            Query::RoleExists { role } => Reply::Flag(!self.perms_of(t, &role).is_empty()),
            Query::RolePermissions { role } => Reply::Names(self.perms_of(t, &role)),
            Query::GrantedPermissions => {
                let mut g: Vec<String> = Vec::new();
                for r in self.roles_of(t, actor) {
                    for p in self.perms_of(t, &r) {
                        if !g.contains(&p) {
                            g.push(p);
                        }
                    }
                }
                Reply::Names(g)
            }
            Query::ActorIsPlatformAdmin => {
                Reply::Flag(self.roles_of(t, actor).iter().any(|r| r == "platform-admin"))
            }
            Query::RoleAssigned { role } => {
                Reply::Flag(self.member_roles.iter().any(|r| r.0 == t && r.2 == role))
            }
            Query::IsMember { user } => Reply::Flag(self.is_member(t, &user)),
            Query::MemberRoles { user } => Reply::Names(self.roles_of(t, &user)),
            Query::Managers => {
                let mut m: Vec<String> = Vec::new();
                for (tt, u, _) in &self.memberships {
                    if tt == t && self.manages(t, u) && !m.contains(u) {
                        m.push(u.clone());
                    }
                }
                Reply::Names(m)
            }
        }
    }
    fn apply(&mut self, t: &str, w: Write) {
        match w {
            Write::ClearRolePermissions { role } => self.role_permissions.retain(|p| !(p.0 == t && p.1 == role)),
            Write::AddRolePermission { role, permission } => {
                self.role_permissions.push((t.into(), role, permission))
            }
            Write::RenameMember { user, name } => {
                for m in self.memberships.iter_mut() {
                    if m.0 == t && m.1 == user {
                        m.2 = name.clone();
                    }
                }
            }
            Write::ClearMemberRoles { user } => self.member_roles.retain(|r| !(r.0 == t && r.1 == user)),
            Write::AddMemberRole { user, role } => {
                let row = (t.to_string(), user, role);
                if !self.member_roles.contains(&row) {
                    self.member_roles.push(row);
                }
            }
            Write::EndSessions { user } => self.sessions.retain(|s| !(s.0 == t && s.1 == user)),
            Write::DropMembership { user } => self.memberships.retain(|m| !(m.0 == t && m.1 == user)),
        }
    }
    /// Runs a mutation in a transaction: its writes stay only when it commits.
    fn run(&mut self, t: &str, actor: &str, m: Result<Mutation, AccessError>) -> Result<(), AccessError> {
        let mut m = m?;
        let mut work = self.clone();
        let mut reply = Reply::Done;
        loop {
            assert!(m.accepts(&reply));
            let reply_next = match m.advance(reply) {
                Command::Open => Reply::Done,
                Command::Query(q) => work.answer(t, actor, q),
                Command::Write(w) => {
                    work.apply(t, w);
                    Reply::Done
                }
                Command::Commit => {
                    *self = work.clone();
                    Reply::Done
                }
                Command::Finish(r) => return r,
            };
            reply = reply_next;
        }
    }
    fn initialize(&mut self) {
        let tenants: Vec<String> = {
            let mut ts: Vec<String> = self.memberships.iter().map(|m| m.0.clone()).collect();
            ts.dedup();
            ts
        };
        for t in tenants {
            self.role_permissions.push((t, "member".into(), "workspace:view".into()));
        }
        for p in ["plugin:manage", "tenant:manage", "rbac:manage", "dictionary:manage", "file:manage"] {
            let holders: Vec<(String, String)> = self
                .member_roles
                .iter()
                .filter(|r| r.2 == "platform-admin" || r.2 == "tenant-admin")
                .map(|r| (r.0.clone(), r.2.clone()))
                .collect();
            for (t, role) in holders {
                let row = (t, role, p.to_string());
                if !self.role_permissions.contains(&row) {
                    self.role_permissions.push(row);
                }
            }
        }
    }
    fn view(&self, t: &str, actor: &str) -> aio_plugin_rbac::model::AccessControlView {
        let mut users: Vec<UserItem> = self
            .memberships
            .iter()
            .filter(|m| m.0 == t)
            .map(|m| {
                let mut roles = self.roles_of(t, &m.1);
                roles.sort();
                UserItem { id: m.1.clone(), account: m.1.clone(), display_name: m.2.clone(), roles }
            })
            .collect();
        users.sort_by(|a, b| a.account.cmp(&b.account));
        let rows = self
            .role_permissions
            .iter()
            .filter(|p| p.0 == t)
            .map(|p| (p.1.clone(), p.2.clone()))
            .collect();
        build_view(users, rows, actor)
    }
}

fn s(x: &str) -> String {
    x.to_string()
}

#[test]
fn tenant_role_crud_preserves_authority_and_memberships() {
    let tenant = "rbac-test";
    let other = "rbac-test-other";
    let (a, b, member, outsider) = ("rbac-test-a", "rbac-test-b", "rbac-test-member", "rbac-test-outsider");
    let mut db = Db::default();
    for id in [a, b, member, outsider] {
        db.users.push(s(id));
        let t = if id == outsider { other } else { tenant };
        db.memberships.push((s(t), s(id), s(id)));
    }
    for id in [a, b] {
        db.member_roles.push((s(tenant), s(id), s("tenant-admin")));
    }
    db.initialize();

    let r = db.run(tenant, a, Mutation::save_role(s(a), s("editor"), &["file:manage".into()], true));
    assert_eq!(r, Ok(()));
    let r = db.run(tenant, a, Mutation::save_role(s(a), s("editor"), &["file:manage".into()], true));
    assert_eq!(r, Err(AccessError::RoleExists));
    let r = db.run(tenant, a, Mutation::set_member_roles(s(a), s(member), &["member".into(), "editor".into()], false));
    assert_eq!(r, Ok(()));
    assert_eq!(db.run(tenant, a, Mutation::delete_role(s("editor"))), Err(AccessError::RoleInUse));
    assert_eq!(db.run(tenant, a, Mutation::update_member(s(member), "新的租户昵称")), Ok(()));
    let view = db.view(tenant, a);
    assert_eq!(view.users.iter().find(|u| u.id == member).unwrap().display_name, "新的租户昵称");
    assert_eq!(view.roles.iter().find(|r| r.id == "editor").unwrap().member_count, 1);
    assert!(view.users.iter().all(|u| u.id != outsider));
    assert_eq!(db.run(tenant, a, Mutation::update_member(s(outsider), "越权")), Err(AccessError::NotMember));
    assert!(db.run(tenant, a, Mutation::set_member_roles(s(a), s(outsider), &["editor".into()], false)).is_err());
    assert_eq!(
        db.run(tenant, a, Mutation::save_role(s(a), s("tenant-admin"), &["workspace:view".into()], false)),
        Err(AccessError::SystemRoleReadOnly)
    );
    assert_eq!(db.run(tenant, a, Mutation::delete_role(s("member"))), Err(AccessError::SystemRoleUndeletable));
    assert_eq!(db.run(tenant, a, Mutation::remove_member(s(a), s(a))), Err(AccessError::RemoveSelf));
    assert_eq!(
        db.run(tenant, a, Mutation::set_member_roles(s(a), s(a), &["member".into()], false)),
        Err(AccessError::SelfRevoke)
    );

    assert_eq!(db.run(tenant, a, Mutation::save_role(s(a), s("limited-manager"), &["rbac:manage".into()], true)), Ok(()));
    assert_eq!(db.run(tenant, a, Mutation::set_member_roles(s(a), s(member), &["limited-manager".into()], false)), Ok(()));
    assert_eq!(
        db.run(tenant, member, Mutation::save_role(s(member), s("escalation"), &["file:manage".into()], true)),
        Err(AccessError::NotGrantable)
    );
    assert!(db.run(tenant, member, Mutation::set_member_roles(s(member), s(member), &["tenant-admin".into()], false)).is_err());
    assert!(db.run(tenant, member, Mutation::remove_member(s(member), s(a))).is_err());
    assert_eq!(db.run(tenant, a, Mutation::set_member_roles(s(a), s(member), &["member".into()], false)), Ok(()));
    assert_eq!(
        db.run(tenant, member, Mutation::save_role(s(member), s("denied"), &["workspace:view".into()], true)),
        Err(AccessError::NotManager)
    );
    assert_eq!(db.run(tenant, a, Mutation::delete_role(s("editor"))), Ok(()));
    assert_eq!(db.run(tenant, a, Mutation::delete_role(s("limited-manager"))), Ok(()));
    db.sessions.push((s(tenant), s(member)));
    assert_eq!(db.run(tenant, a, Mutation::remove_member(s(a), s(member))), Ok(()));
    assert!(!db.sessions.iter().any(|x| x.1 == member));
    assert!(db.users.iter().any(|u| u == member));

    let one = db.run(tenant, a, Mutation::remove_member(s(a), s(b)));
    let two = db.run(tenant, b, Mutation::remove_member(s(b), s(a)));
    assert_ne!(one.is_ok(), two.is_ok(), "并发撤销不能移除全部管理员");
    assert_eq!(db.view(tenant, a).users.len(), 1);
}

#[test]
fn refused_mutation_keeps_nothing_it_wrote() {
    let mut db = Db::default();
    db.memberships.push((s("t"), s("a"), s("a")));
    db.member_roles.push((s("t"), s("a"), s("tenant-admin")));
    db.initialize();
    let before = db.role_permissions.clone();
    // Taking tenant-admin from the only manager would leave the tenant unmanaged.
    let r = db.run("t", "a", Mutation::set_member_roles(s("a"), s("a"), &["member".into()], false));
    assert_eq!(r, Err(AccessError::LastManager));
    assert_eq!(db.role_permissions, before);
    assert_eq!(db.roles_of("t", "a"), vec![s("tenant-admin")]);
}

#[test]
fn platform_admin_role_needs_a_platform_admin() {
    let mut db = Db::default();
    db.memberships.push((s("t"), s("a"), s("a")));
    db.memberships.push((s("t"), s("u"), s("u")));
    db.member_roles.push((s("t"), s("a"), s("tenant-admin")));
    db.role_permissions.push((s("t"), s("platform-admin"), s("plugin:manage")));
    db.initialize();
    let r = db.run("t", "a", Mutation::set_member_roles(s("a"), s("u"), &["platform-admin".into()], true));
    assert_eq!(r, Err(AccessError::PlatformAdminOnly));
    db.member_roles.push((s("t"), s("a"), s("platform-admin")));
    let r = db.run("t", "a", Mutation::set_member_roles(s("a"), s("u"), &["platform-admin".into()], true));
    assert_eq!(r, Ok(()));
}

#[test]
fn unknown_roles_and_too_many_roles_are_refused() {
    let mut db = Db::default();
    db.memberships.push((s("t"), s("a"), s("a")));
    db.memberships.push((s("t"), s("u"), s("u")));
    db.member_roles.push((s("t"), s("a"), s("tenant-admin")));
    db.initialize();
    assert_eq!(
        db.run("t", "a", Mutation::set_member_roles(s("a"), s("u"), &["ghost".into()], true)),
        Err(AccessError::RoleNotFound)
    );
    assert_eq!(
        db.run("t", "a", Mutation::save_role(s("a"), s("ghost"), &["file:manage".into()], false)),
        Err(AccessError::RoleNotFound)
    );
    assert_eq!(db.run("t", "a", Mutation::delete_role(s("ghost"))), Err(AccessError::RoleNotFound));
    let many: Vec<String> = (0..129).map(|i| format!("r{i}")).collect();
    assert!(matches!(Mutation::set_member_roles(s("a"), s("u"), &many, true), Err(AccessError::TooManyRoles)));
    assert_eq!(
        db.run("t", "a", Mutation::update_member(s("u"), "   ")),
        Err(AccessError::InvalidDisplayName)
    );
}

#[test]
fn last_manager_cannot_be_removed() {
    // The managers check fails with LastManager when nobody manages any more.
    let mut m = Mutation::remove_member(s("a"), s("u")).unwrap();
    let mut reply = Reply::Done;
    let mut answered_managers = false;
    loop {
        match m.advance(reply) {
            Command::Query(Query::Managers) => {
                answered_managers = true;
                reply = Reply::Names(vec![]);
            }
            Command::Query(Query::MemberRoles { .. }) => reply = Reply::Names(vec![]),
            Command::Query(_) => reply = Reply::Flag(true),
            Command::Finish(r) => {
                assert_eq!(r, Err(AccessError::LastManager));
                break;
            }
            _ => reply = Reply::Done,
        }
    }
    assert!(answered_managers);
    // A finished mutation keeps answering with its outcome.
    assert!(matches!(m.advance(Reply::Done), Command::Finish(Err(AccessError::LastManager))));
}

#[test]
fn the_view_offers_exactly_what_saving_accepts() {
    let mut db = Db::default();
    db.memberships.push((s("t"), s("a"), s("a")));
    db.memberships.push((s("t"), s("m"), s("m")));
    db.member_roles.push((s("t"), s("a"), s("tenant-admin")));
    db.initialize();
    assert_eq!(db.run("t", "a", Mutation::save_role(s("a"), s("limited"), &["rbac:manage".into()], true)), Ok(()));
    assert_eq!(db.run("t", "a", Mutation::set_member_roles(s("a"), s("m"), &["limited".into()], false)), Ok(()));
    let offered = db.view("t", "m").grantable_permissions;
    assert_eq!(offered, vec![s("rbac:manage"), s("workspace:view")]);
    assert_eq!(db.run("t", "m", Mutation::save_role(s("m"), s("mine"), &offered, true)), Ok(()));
    assert_eq!(
        db.run("t", "m", Mutation::save_role(s("m"), s("more"), &["file:manage".into()], true)),
        Err(AccessError::NotGrantable)
    );
}
