//! The decisions of the tenant access mutations: saving and deleting roles,
//! renaming members, assigning roles and removing members.
//!
//! A mutation is a plan of steps that runs inside one database transaction:
//! opening it (which locks the tenant), queries whose answers are checked,
//! writes, and the commit. The caller performs each command the mutation
//! gives and hands back what the database answered; a refused check ends the
//! mutation with its refusal and without a commit, so the transaction is
//! dropped and nothing it wrote stays.
use vstd::prelude::*;

use crate::error::AccessError;
use crate::model::{is_system_role, system_role};
use crate::text::{contains_str, same_elements, str_eq, strictly_sorted, views};
use crate::text::trimmed;
use crate::validation::{normalize_display_name, valid_display_name, validate, validation_error};
use crate::model::UserModel;
use crate::view::{base_permission, first_with_id, grantable};

verus! {

/// A condition checked against the answer to a query.
pub enum Check {
    /// The actor still holds `rbac:manage` in the tenant.
    ActorManages,
    /// The role exists exactly when it is being updated rather than created;
    /// an existing role's current permissions must be grantable by the actor.
    RoleExistence { role: String, create: bool },
    /// The role exists and all its permissions are grantable by the actor.
    RoleGrantable { role: String },
    /// As `RoleGrantable`, and only a platform admin manages `platform-admin`.
    RoleManageable { role: String },
    /// Each permission is the base permission or one the actor holds.
    Grantable { permissions: Vec<String> },
    /// The actor holds `platform-admin` in the tenant.
    PlatformAdmin,
    /// No member holds the role.
    RoleUnassigned { role: String },
    /// The user is a member of the tenant.
    Member { user: String },
    /// Every role the member holds is manageable by the actor.
    MemberRolesManageable { user: String },
    /// Some member still manages the tenant, and the actor is one of them.
    ManagersRemain { actor: String },
}

/// A change made inside the transaction.
pub enum Write {
    ClearRolePermissions { role: String },
    AddRolePermission { role: String, permission: String },
    RenameMember { user: String, name: String },
    ClearMemberRoles { user: String },
    AddMemberRole { user: String, role: String },
    EndSessions { user: String },
    DropMembership { user: String },
}

/// A query whose answer a check needs.
pub enum Query {
    /// Flag: the actor holds `rbac:manage`.
    ActorIsManager,
    /// Flag: some permission row names the role.
    RoleExists { role: String },
    /// Names: the permissions of the role.
    RolePermissions { role: String },
    /// Names: the permissions of the roles the actor holds.
    GrantedPermissions,
    /// Flag: the actor holds `platform-admin`.
    ActorIsPlatformAdmin,
    /// Flag: some member holds the role.
    RoleAssigned { role: String },
    /// Flag: the user is a member.
    IsMember { user: String },
    /// Names: the roles the member holds.
    MemberRoles { user: String },
    /// Names: the members that hold `rbac:manage`.
    Managers,
}

/// A step of a plan.
pub enum Step {
    /// Begin the transaction and lock the tenant.
    Open,
    Check(Check),
    Write(Write),
    Commit,
}

/// What the caller does next.
pub enum Command {
    Open,
    Query(Query),
    Write(Write),
    Commit,
    /// The mutation is over: committed (`Ok`) or refused (`Err`, the
    /// transaction is dropped).
    Finish(Result<(), AccessError>),
}

/// What the database answered.
pub enum Reply {
    Flag(bool),
    Names(Vec<String>),
    Done,
}

/// What a mutation waits for.
pub enum Waiting {
    /// The completion of the open, a write or the commit (or the start).
    Ack,
    /// The answer to the query of this check.
    Answer(Check),
    /// Nothing more: the mutation is over.
    Finished(Result<(), AccessError>),
}

/// A running mutation: what it waits for and the steps still to come.
pub struct Mutation {
    pub pending: Vec<Step>,
    pub waiting: Waiting,
}

/// The query a check asks.
pub open spec fn query_for(c: Check) -> Query {
    match c {
        Check::ActorManages => Query::ActorIsManager,
        Check::RoleExistence { role, create } => Query::RoleExists { role },
        Check::RoleGrantable { role } => Query::RolePermissions { role },
        Check::RoleManageable { role } => Query::RolePermissions { role },
        Check::Grantable { permissions } => Query::GrantedPermissions,
        Check::PlatformAdmin => Query::ActorIsPlatformAdmin,
        Check::RoleUnassigned { role } => Query::RoleAssigned { role },
        Check::Member { user } => Query::IsMember { user },
        Check::MemberRolesManageable { user } => Query::MemberRoles { user },
        Check::ManagersRemain { actor } => Query::Managers,
    }
}

/// Whether the answer to a check's query is a list of names (else a flag).
pub open spec fn wants_names(c: Check) -> bool {
    match c {
        Check::RoleGrantable { .. } => true,
        Check::RoleManageable { .. } => true,
        Check::Grantable { .. } => true,
        Check::MemberRolesManageable { .. } => true,
        Check::ManagersRemain { .. } => true,
        _ => false,
    }
}

/// Whether a reply fits what the mutation waits for.
pub open spec fn fits(w: Waiting, reply: Reply) -> bool {
    match w {
        Waiting::Ack => reply is Done,
        Waiting::Answer(c) => if wants_names(c) {
            reply is Names
        } else {
            reply is Flag
        },
        Waiting::Finished(_) => true,
    }
}

/// Every permission is the base permission or among `granted`.
pub open spec fn all_grantable(permissions: Seq<Seq<char>>, granted: Seq<Seq<char>>) -> bool {
    forall|i: int|
        0 <= i < permissions.len() ==> #[trigger] permissions[i] == base_permission()
            || granted.contains(permissions[i])
}

/// The steps that an answer adds in front of the rest of the plan, or the
/// refusal it causes.
pub open spec fn outcome(c: Check, reply: Reply) -> Result<Seq<Step>, AccessError> {
    match c {
        Check::ActorManages => if reply == Reply::Flag(true) {
            Ok(Seq::empty())
        } else {
            Err(AccessError::NotManager)
        },
        Check::RoleExistence { role, create } => {
            let exists = reply == Reply::Flag(true);
            if exists == create {
                Err(if create { AccessError::RoleExists } else { AccessError::RoleNotFound })
            } else if exists {
                Ok(seq![Step::Check(Check::RoleGrantable { role })])
            } else {
                Ok(Seq::empty())
            }
        },
        Check::RoleGrantable { role } => match reply {
            Reply::Names(ps) => if ps@.len() == 0 {
                Err(AccessError::RoleNotFound)
            } else {
                Ok(seq![Step::Check(Check::Grantable { permissions: ps })])
            },
            _ => Err(AccessError::RoleNotFound),
        },
        Check::RoleManageable { role } => match reply {
            Reply::Names(ps) => if ps@.len() == 0 {
                Err(AccessError::RoleNotFound)
            } else if role@ == "platform-admin"@ {
                Ok(
                    seq![
                        Step::Check(Check::Grantable { permissions: ps }),
                        Step::Check(Check::PlatformAdmin),
                    ],
                )
            } else {
                Ok(seq![Step::Check(Check::Grantable { permissions: ps })])
            },
            _ => Err(AccessError::RoleNotFound),
        },
        Check::Grantable { permissions } => match reply {
            Reply::Names(granted) => if all_grantable(views(permissions@), views(granted@)) {
                Ok(Seq::empty())
            } else {
                Err(AccessError::NotGrantable)
            },
            _ => Err(AccessError::NotGrantable),
        },
        Check::PlatformAdmin => if reply == Reply::Flag(true) {
            Ok(Seq::empty())
        } else {
            Err(AccessError::PlatformAdminOnly)
        },
        Check::RoleUnassigned { role } => if reply == Reply::Flag(false) {
            Ok(Seq::empty())
        } else {
            Err(AccessError::RoleInUse)
        },
        Check::Member { user } => if reply == Reply::Flag(true) {
            Ok(Seq::empty())
        } else {
            Err(AccessError::NotMember)
        },
        Check::MemberRolesManageable { user } => match reply {
            Reply::Names(roles) => Ok(manageable_checks(roles@)),
            _ => Ok(Seq::empty()),
        },
        Check::ManagersRemain { actor } => match reply {
            Reply::Names(managers) => if managers@.len() == 0 {
                Err(AccessError::LastManager)
            } else if !views(managers@).contains(actor@) {
                Err(AccessError::SelfRevoke)
            } else {
                Ok(Seq::empty())
            },
            _ => Err(AccessError::LastManager),
        },
    }
}

/// One `RoleManageable` check per role, in order.
pub open spec fn manageable_checks(roles: Seq<String>) -> Seq<Step> {
    roles.map_values(|r: String| Step::Check(Check::RoleManageable { role: r }))
}

/// The command that starts a step.
pub open spec fn command_for(s: Step) -> Command {
    match s {
        Step::Open => Command::Open,
        Step::Check(c) => Command::Query(query_for(c)),
        Step::Write(w) => Command::Write(w),
        Step::Commit => Command::Commit,
    }
}

/// What a mutation waits for once a step has started.
pub open spec fn waiting_for(s: Step) -> Waiting {
    match s {
        Step::Check(c) => Waiting::Answer(c),
        _ => Waiting::Ack,
    }
}

/// Starts the next step of `pending`, or finishes when there is none: the
/// steps left, what is then waited for, and the command.
pub open spec fn proceed(pending: Seq<Step>) -> (Seq<Step>, Waiting, Command) {
    if pending.len() == 0 {
        (pending, Waiting::Finished(Ok(())), Command::Finish(Ok(())))
    } else {
        (pending.drop_first(), waiting_for(pending[0]), command_for(pending[0]))
    }
}


/// One move of a mutation: from what it waits for, the steps to come and the
/// reply, the steps then to come, what it then waits for, and the command. A
/// finished mutation stays finished; a refused answer finishes it with the
/// refusal; otherwise the next step starts.
pub open spec fn step(w: Waiting, pending: Seq<Step>, reply: Reply) -> (Seq<Step>, Waiting, Command) {
    match w {
        Waiting::Finished(r) => (pending, w, Command::Finish(r)),
        Waiting::Ack => proceed(pending),
        Waiting::Answer(c) => match outcome(c, reply) {
            Err(e) => (pending, Waiting::Finished(Err(e)), Command::Finish(Err(e))),
            Ok(front) => proceed(front + pending),
        },
    }
}

/// The commands a mutation gives for a sequence of replies.
pub open spec fn commands(w: Waiting, pending: Seq<Step>, replies: Seq<Reply>) -> Seq<Command>
    decreases replies.len(),
{
    if replies.len() == 0 {
        Seq::empty()
    } else {
        let (p, w2, c) = step(w, pending, replies[0]);
        seq![c] + commands(w2, p, replies.drop_first())
    }
}

/// Whether a step list holds checks only.
pub open spec fn only_checks(steps: Seq<Step>) -> bool {
    forall|i: int| 0 <= i < steps.len() ==> #[trigger] steps[i] is Check
}

fn query_of(c: &Check) -> (q: Query)
    ensures
        q == query_for(*c),
{
    match c {
        Check::ActorManages => Query::ActorIsManager,
        Check::RoleExistence { role, create } => Query::RoleExists { role: role.clone() },
        Check::RoleGrantable { role } => Query::RolePermissions { role: role.clone() },
        Check::RoleManageable { role } => Query::RolePermissions { role: role.clone() },
        Check::Grantable { permissions } => Query::GrantedPermissions,
        Check::PlatformAdmin => Query::ActorIsPlatformAdmin,
        Check::RoleUnassigned { role } => Query::RoleAssigned { role: role.clone() },
        Check::Member { user } => Query::IsMember { user: user.clone() },
        Check::MemberRolesManageable { user } => Query::MemberRoles { user: user.clone() },
        Check::ManagersRemain { actor } => Query::Managers,
    }
}

/// Whether every permission is the base permission or among `granted`.
pub fn permissions_grantable(permissions: &Vec<String>, granted: &Vec<String>) -> (r: bool)
    ensures
        r == all_grantable(views(permissions@), views(granted@)),
{
    let mut i: usize = 0;
    while i < permissions.len()
        invariant
            i <= permissions.len(),
            forall|k: int|
                0 <= k < i ==> permissions@[k]@ == base_permission() || views(
                    granted@,
                ).contains(permissions@[k]@),
        decreases permissions.len() - i,
    {
        if !(str_eq(permissions[i].as_str(), "workspace:view") || contains_str(
            granted,
            permissions[i].as_str(),
        )) {
            assert(views(permissions@)[i as int] == permissions@[i as int]@);
            return false;
        }
        i = i + 1;
    }
    assert forall|k: int| 0 <= k < views(permissions@).len() implies #[trigger] views(
        permissions@,
    )[k] == base_permission() || views(granted@).contains(views(permissions@)[k]) by {
        assert(views(permissions@)[k] == permissions@[k]@);
    }
    true
}

/// Moves the names into `RoleManageable` checks in front of `pending`.
fn prepend_manageable(roles: Vec<String>, pending: &mut Vec<Step>)
    ensures
        final(pending)@ == manageable_checks(roles@) + old(pending)@,
{
    let mut roles = roles;
    let ghost all = roles@;
    while roles.len() > 0
        invariant
            all.len() >= roles@.len(),
            roles@ == all.take(roles@.len() as int),
            pending@ == manageable_checks(all.skip(roles@.len() as int)) + old(pending)@,
        decreases roles.len(),
    {
        let ghost n = roles@.len();
        let role = roles.pop().unwrap();
        proof {
            assert(role == all[n - 1]);
            assert(roles@ =~= all.take(n - 1));
            assert(manageable_checks(all.skip(n - 1)) =~= seq![
                Step::Check(Check::RoleManageable { role: all[n - 1] }),
            ] + manageable_checks(all.skip(n as int)));
        }
        pending.insert(0, Step::Check(Check::RoleManageable { role }));
        proof {
            assert(pending@ =~= manageable_checks(all.skip(n - 1)) + old(pending)@);
        }
    }
    assert(all.skip(0) =~= all);
}

impl Mutation {
    /// A mutation that will run `plan` from its first step.
    pub fn new(plan: Vec<Step>) -> (m: Mutation)
        ensures
            m.pending@ == plan@,
            m.waiting is Ack,
    {
        Mutation { pending: plan, waiting: Waiting::Ack }
    }

    /// Whether `reply` is the sort of answer this mutation waits for.
    pub fn accepts(&self, reply: &Reply) -> (r: bool)
        ensures
            r == fits(self.waiting, *reply),
    {
        match &self.waiting {
            Waiting::Ack => matches!(reply, Reply::Done),
            Waiting::Answer(c) => {
                let names = match c {
                    Check::RoleGrantable { .. } => true,
                    Check::RoleManageable { .. } => true,
                    Check::Grantable { .. } => true,
                    Check::MemberRolesManageable { .. } => true,
                    Check::ManagersRemain { .. } => true,
                    _ => false,
                };
                if names {
                    matches!(reply, Reply::Names(_))
                } else {
                    matches!(reply, Reply::Flag(_))
                }
            },
            Waiting::Finished(_) => true,
        }
    }

    /// Starts the next step, or finishes when none is left.
    fn start_next(&mut self) -> (cmd: Command)
        ensures
            (final(self).pending@, final(self).waiting, cmd) == proceed(old(self).pending@),
    {
        if self.pending.len() == 0 {
            self.waiting = Waiting::Finished(Ok(()));
            return Command::Finish(Ok(()));
        }
        let step = self.pending.remove(0);
        match step {
            Step::Open => {
                self.waiting = Waiting::Ack;
                Command::Open
            },
            Step::Check(c) => {
                let q = query_of(&c);
                self.waiting = Waiting::Answer(c);
                Command::Query(q)
            },
            Step::Write(w) => {
                self.waiting = Waiting::Ack;
                Command::Write(w)
            },
            Step::Commit => {
                self.waiting = Waiting::Ack;
                Command::Commit
            },
        }
    }

    /// Takes the answer to the last command and gives the next command. The
    /// first call, which starts the mutation, passes `Reply::Done`.
    pub fn advance(&mut self, reply: Reply) -> (cmd: Command)
        requires
            fits(old(self).waiting, reply),
        ensures
            (final(self).pending@, final(self).waiting, cmd) == step(
                old(self).waiting,
                old(self).pending@,
                reply,
            ),
    {
        let mut waiting = Waiting::Ack;
        std::mem::swap(&mut waiting, &mut self.waiting);
        match waiting {
            Waiting::Finished(r) => {
                self.waiting = Waiting::Finished(r);
                Command::Finish(r)
            },
            Waiting::Ack => self.start_next(),
            Waiting::Answer(c) => {
                match self.answer(c, reply) {
                    Err(e) => {
                        self.waiting = Waiting::Finished(Err(e));
                        Command::Finish(Err(e))
                    },
                    Ok(()) => self.start_next(),
                }
            },
        }
    }

    /// Applies a check to its answer: the steps it adds go in front of the
    /// pending ones.
    fn answer(&mut self, c: Check, reply: Reply) -> (r: Result<(), AccessError>)
        requires
            fits(Waiting::Answer(c), reply),
        ensures
            match outcome(c, reply) {
                Err(e) => r == Err::<(), AccessError>(e) && final(self).pending@ == old(
                    self,
                ).pending@,
                Ok(front) => r is Ok && final(self).pending@ == front + old(self).pending@,
            },
    {
        match c {
            Check::ActorManages => match reply {
                Reply::Flag(true) => Ok(()),
                _ => Err(AccessError::NotManager),
            },
            Check::RoleExistence { role, create } => {
                let exists = match reply {
                    Reply::Flag(b) => b,
                    _ => false,
                };
                if exists == create {
                    Err(if create { AccessError::RoleExists } else { AccessError::RoleNotFound })
                } else {
                    let ghost r = role;
                    if exists {
                        self.pending.insert(0, Step::Check(Check::RoleGrantable { role }));
                        assert(self.pending@ =~= seq![
                            Step::Check(Check::RoleGrantable { role: r }),
                        ] + old(self).pending@);
                    } else {
                        assert(self.pending@ =~= Seq::<Step>::empty() + old(self).pending@);
                    }
                    Ok(())
                }
            },
            Check::RoleGrantable { role } => match reply {
                Reply::Names(ps) => {
                    if ps.len() == 0 {
                        Err(AccessError::RoleNotFound)
                    } else {
                        let ghost p = ps;
                        self.pending.insert(0, Step::Check(Check::Grantable { permissions: ps }));
                        assert(self.pending@ =~= seq![
                            Step::Check(Check::Grantable { permissions: p }),
                        ] + old(self).pending@);
                        Ok(())
                    }
                },
                _ => Err(AccessError::RoleNotFound),
            },
            Check::RoleManageable { role } => match reply {
                Reply::Names(ps) => {
                    if ps.len() == 0 {
                        Err(AccessError::RoleNotFound)
                    } else {
                        let ghost p = ps;
                        if str_eq(role.as_str(), "platform-admin") {
                            self.pending.insert(0, Step::Check(Check::PlatformAdmin));
                            self.pending.insert(
                                0,
                                Step::Check(Check::Grantable { permissions: ps }),
                            );
                            assert(self.pending@ =~= seq![
                                Step::Check(Check::Grantable { permissions: p }),
                                Step::Check(Check::PlatformAdmin),
                            ] + old(self).pending@);
                        } else {
                            self.pending.insert(
                                0,
                                Step::Check(Check::Grantable { permissions: ps }),
                            );
                            assert(self.pending@ =~= seq![
                                Step::Check(Check::Grantable { permissions: p }),
                            ] + old(self).pending@);
                        }
                        Ok(())
                    }
                },
                _ => Err(AccessError::RoleNotFound),
            },
            Check::Grantable { permissions } => match reply {
                Reply::Names(granted) => {
                    if permissions_grantable(&permissions, &granted) {
                        assert(Seq::<Step>::empty() + old(self).pending@ =~= old(self).pending@);
                        Ok(())
                    } else {
                        Err(AccessError::NotGrantable)
                    }
                },
                _ => Err(AccessError::NotGrantable),
            },
            Check::PlatformAdmin => match reply {
                Reply::Flag(true) => {
                    assert(Seq::<Step>::empty() + old(self).pending@ =~= old(self).pending@);
                    Ok(())
                },
                _ => Err(AccessError::PlatformAdminOnly),
            },
            Check::RoleUnassigned { role } => match reply {
                Reply::Flag(false) => {
                    assert(Seq::<Step>::empty() + old(self).pending@ =~= old(self).pending@);
                    Ok(())
                },
                _ => Err(AccessError::RoleInUse),
            },
            Check::Member { user } => match reply {
                Reply::Flag(true) => {
                    assert(Seq::<Step>::empty() + old(self).pending@ =~= old(self).pending@);
                    Ok(())
                },
                _ => Err(AccessError::NotMember),
            },
            Check::MemberRolesManageable { user } => match reply {
                Reply::Names(roles) => {
                    prepend_manageable(roles, &mut self.pending);
                    Ok(())
                },
                _ => Ok(()),
            },
            Check::ManagersRemain { actor } => match reply {
                Reply::Names(managers) => {
                    if managers.len() == 0 {
                        Err(AccessError::LastManager)
                    } else if !contains_str(&managers, actor.as_str()) {
                        Err(AccessError::SelfRevoke)
                    } else {
                        assert(Seq::<Step>::empty() + old(self).pending@ =~= old(self).pending@);
                        Ok(())
                    }
                },
                _ => Err(AccessError::LastManager),
            },
        }
    }
}


// ---------------------------------------------------------------------------
// Plans
// ---------------------------------------------------------------------------
/// One `AddRolePermission` write per permission, in order.
pub open spec fn role_permission_writes(role: String, permissions: Seq<String>) -> Seq<Step> {
    permissions.map_values(
        |p: String| Step::Write(Write::AddRolePermission { role: role, permission: p }),
    )
}

/// One `AddMemberRole` write per role, in order.
pub open spec fn member_role_writes(user: String, roles: Seq<String>) -> Seq<Step> {
    roles.map_values(|r: String| Step::Write(Write::AddMemberRole { user: user, role: r }))
}

/// Saving a role: the role must exist exactly when it is updated, its current
/// and new permissions must be grantable, its permissions are replaced, and
/// the tenant must still be managed by the actor afterwards.
pub open spec fn save_role_plan(actor: String, role: String, permissions: Vec<String>, create: bool) -> Seq<Step> {
    seq![
        Step::Open,
        Step::Check(Check::ActorManages),
        Step::Check(Check::RoleExistence { role: role, create: create }),
        Step::Check(Check::Grantable { permissions: permissions }),
        Step::Write(Write::ClearRolePermissions { role: role }),
    ] + role_permission_writes(role, permissions@) + seq![
        Step::Check(Check::ManagersRemain { actor: actor }),
        Step::Commit,
    ]
}

/// Deleting a role: it must exist, be grantable by the actor and be held by
/// nobody.
pub open spec fn delete_role_plan(role: String) -> Seq<Step> {
    seq![
        Step::Open,
        Step::Check(Check::ActorManages),
        Step::Check(Check::RoleGrantable { role: role }),
        Step::Check(Check::RoleUnassigned { role: role }),
        Step::Write(Write::ClearRolePermissions { role: role }),
        Step::Commit,
    ]
}

/// Renaming a member: the user must be a member whose roles the actor manages.
pub open spec fn update_member_plan(user: String, name: String) -> Seq<Step> {
    seq![
        Step::Open,
        Step::Check(Check::ActorManages),
        Step::Check(Check::Member { user: user }),
        Step::Check(Check::MemberRolesManageable { user: user }),
        Step::Write(Write::RenameMember { user: user, name: name }),
        Step::Commit,
    ]
}

/// Assigning roles: the actor must manage the member's current roles and the
/// new ones; the new roles replace the old ones unless `append`, and the
/// tenant must still be managed by the actor afterwards.
pub open spec fn set_member_roles_plan(actor: String, user: String, roles: Seq<String>, append: bool) -> Seq<Step> {
    seq![
        Step::Open,
        Step::Check(Check::ActorManages),
        Step::Check(Check::Member { user: user }),
        Step::Check(Check::MemberRolesManageable { user: user }),
    ] + manageable_checks(roles) + (if append {
        Seq::empty()
    } else {
        seq![Step::Write(Write::ClearMemberRoles { user: user })]
    }) + member_role_writes(user, roles) + seq![
        Step::Check(Check::ManagersRemain { actor: actor }),
        Step::Commit,
    ]
}

/// Removing a member: the actor must manage the member's roles; the member's
/// roles, sessions and membership go, and the tenant must still be managed by
/// the actor afterwards.
pub open spec fn remove_member_plan(actor: String, user: String) -> Seq<Step> {
    seq![
        Step::Open,
        Step::Check(Check::ActorManages),
        Step::Check(Check::Member { user: user }),
        Step::Check(Check::MemberRolesManageable { user: user }),
        Step::Write(Write::ClearMemberRoles { user: user }),
        Step::Write(Write::EndSessions { user: user }),
        Step::Write(Write::DropMembership { user: user }),
        Step::Check(Check::ManagersRemain { actor: actor }),
        Step::Commit,
    ]
}

fn push_role_permission_writes(plan: &mut Vec<Step>, role: &String, permissions: &Vec<String>)
    ensures
        final(plan)@ == old(plan)@ + role_permission_writes(*role, permissions@),
{
    let mut i: usize = 0;
    while i < permissions.len()
        invariant
            i <= permissions.len(),
            plan@ == old(plan)@ + role_permission_writes(*role, permissions@.take(i as int)),
        decreases permissions.len() - i,
    {
        plan.push(
            Step::Write(Write::AddRolePermission { role: role.clone(), permission: permissions[i].clone() }),
        );
        assert(permissions@.take(i + 1) =~= permissions@.take(i as int).push(permissions@[i as int]));
        assert(plan@ =~= old(plan)@ + role_permission_writes(*role, permissions@.take(i + 1)));
        i = i + 1;
    }
    assert(permissions@.take(permissions.len() as int) =~= permissions@);
}

fn push_member_role_steps(plan: &mut Vec<Step>, user: &String, roles: &[String], writes: bool)
    ensures
        final(plan)@ == old(plan)@ + if writes {
            member_role_writes(*user, roles@)
        } else {
            manageable_checks(roles@)
        },
{
    let mut i: usize = 0;
    while i < roles.len()
        invariant
            i <= roles@.len(),
            plan@ == old(plan)@ + if writes {
                member_role_writes(*user, roles@.take(i as int))
            } else {
                manageable_checks(roles@.take(i as int))
            },
        decreases roles@.len() - i,
    {
        if writes {
            plan.push(Step::Write(Write::AddMemberRole { user: user.clone(), role: roles[i].clone() }));
        } else {
            plan.push(Step::Check(Check::RoleManageable { role: roles[i].clone() }));
        }
        assert(roles@.take(i + 1) =~= roles@.take(i as int).push(roles@[i as int]));
        proof {
            if writes {
                assert(plan@ =~= old(plan)@ + member_role_writes(*user, roles@.take(i + 1)));
            } else {
                assert(plan@ =~= old(plan)@ + manageable_checks(roles@.take(i + 1)));
            }
        }
        i = i + 1;
    }
    assert(roles@.take(roles@.len() as int) =~= roles@);
}

impl Mutation {
    /// Saves the permissions of a role that `create` says is new or existing.
    /// The id and permissions are checked first, and built-in roles cannot be
    /// saved; the saved permissions are the given ones sorted without
    /// repetition.
    pub fn save_role(actor: String, role: String, permissions: &[String], create: bool) -> (r: Result<
        Mutation,
        AccessError,
    >)
        ensures
            validation_error(role@, permissions@) matches Some(e) ==> r == Err::<
                Mutation,
                AccessError,
            >(e),
            validation_error(role@, permissions@) is None && system_role(role@) ==> r == Err::<
                Mutation,
                AccessError,
            >(AccessError::SystemRoleReadOnly),
            validation_error(role@, permissions@) is None && !system_role(role@) ==> (r matches Ok(
                m,
            ) && m.waiting is Ack && exists|ps: Vec<String>|
                strictly_sorted(views(ps@)) && same_elements(views(ps@), views(permissions@))
                    && m.pending@ == save_role_plan(actor, role, ps, create)),
    {
        let ps = match validate(role.as_str(), permissions) {
            Ok(ps) => ps,
            Err(e) => return Err(e),
        };
        if is_system_role(role.as_str()) {
            return Err(AccessError::SystemRoleReadOnly);
        }
        let ghost kept = ps;
        let mut plan: Vec<Step> = Vec::new();
        plan.push(Step::Open);
        plan.push(Step::Check(Check::ActorManages));
        plan.push(Step::Check(Check::RoleExistence { role: role.clone(), create }));
        let mut writes: Vec<Step> = Vec::new();
        writes.push(Step::Write(Write::ClearRolePermissions { role: role.clone() }));
        push_role_permission_writes(&mut writes, &role, &ps);
        plan.push(Step::Check(Check::Grantable { permissions: ps }));
        plan.append(&mut writes);
        plan.push(Step::Check(Check::ManagersRemain { actor }));
        plan.push(Step::Commit);
        let m = Mutation::new(plan);
        assert(m.pending@ =~= save_role_plan(actor, role, kept, create));
        Ok(m)
    }

    /// Deletes a role that is not built in.
    pub fn delete_role(role: String) -> (r: Result<Mutation, AccessError>)
        ensures
            system_role(role@) ==> r == Err::<Mutation, AccessError>(
                AccessError::SystemRoleUndeletable,
            ),
            !system_role(role@) ==> (r matches Ok(m) && m.waiting is Ack && m.pending@
                == delete_role_plan(role)),
    {
        if is_system_role(role.as_str()) {
            return Err(AccessError::SystemRoleUndeletable);
        }
        let mut plan: Vec<Step> = Vec::new();
        plan.push(Step::Open);
        plan.push(Step::Check(Check::ActorManages));
        plan.push(Step::Check(Check::RoleGrantable { role: role.clone() }));
        plan.push(Step::Check(Check::RoleUnassigned { role: role.clone() }));
        plan.push(Step::Write(Write::ClearRolePermissions { role: role.clone() }));
        plan.push(Step::Commit);
        let m = Mutation::new(plan);
        assert(m.pending@ =~= delete_role_plan(role));
        Ok(m)
    }

    /// Renames a member; the name is trimmed and must then have 1 to 96
    /// characters.
    pub fn update_member(user: String, name: &str) -> (r: Result<Mutation, AccessError>)
        ensures
            !valid_display_name(name@) ==> r == Err::<Mutation, AccessError>(
                AccessError::InvalidDisplayName,
            ),
            valid_display_name(name@) ==> (r matches Ok(m) && m.waiting is Ack && exists|
                t: String,
            | t@ == trimmed(name@) && m.pending@ == update_member_plan(user, t)),
    {
        let t = match normalize_display_name(name) {
            Ok(t) => t,
            Err(e) => return Err(e),
        };
        let ghost kept = t;
        let mut plan: Vec<Step> = Vec::new();
        plan.push(Step::Open);
        plan.push(Step::Check(Check::ActorManages));
        plan.push(Step::Check(Check::Member { user: user.clone() }));
        plan.push(Step::Check(Check::MemberRolesManageable { user: user.clone() }));
        plan.push(Step::Write(Write::RenameMember { user: user.clone(), name: t }));
        plan.push(Step::Commit);
        let m = Mutation::new(plan);
        assert(m.pending@ =~= update_member_plan(user, kept));
        Ok(m)
    }

    /// Gives a member at most 128 roles, in place of its roles or, with
    /// `append`, in addition to them.
    pub fn set_member_roles(actor: String, user: String, roles: &[String], append: bool) -> (r:
        Result<Mutation, AccessError>)
        ensures
            roles@.len() > 128 ==> r == Err::<Mutation, AccessError>(AccessError::TooManyRoles),
            roles@.len() <= 128 ==> (r matches Ok(m) && m.waiting is Ack && m.pending@
                == set_member_roles_plan(actor, user, roles@, append)),
    {
        if roles.len() > 128 {
            return Err(AccessError::TooManyRoles);
        }
        let mut plan: Vec<Step> = Vec::new();
        plan.push(Step::Open);
        plan.push(Step::Check(Check::ActorManages));
        plan.push(Step::Check(Check::Member { user: user.clone() }));
        plan.push(Step::Check(Check::MemberRolesManageable { user: user.clone() }));
        push_member_role_steps(&mut plan, &user, roles, false);
        if !append {
            plan.push(Step::Write(Write::ClearMemberRoles { user: user.clone() }));
        }
        push_member_role_steps(&mut plan, &user, roles, true);
        plan.push(Step::Check(Check::ManagersRemain { actor }));
        plan.push(Step::Commit);
        let m = Mutation::new(plan);
        assert(m.pending@ =~= set_member_roles_plan(actor, user, roles@, append));
        Ok(m)
    }

    /// Removes a member other than the actor from the tenant.
    pub fn remove_member(actor: String, user: String) -> (r: Result<Mutation, AccessError>)
        ensures
            actor@ == user@ ==> r == Err::<Mutation, AccessError>(AccessError::RemoveSelf),
            actor@ != user@ ==> (r matches Ok(m) && m.waiting is Ack && m.pending@
                == remove_member_plan(actor, user)),
    {
        if str_eq(actor.as_str(), user.as_str()) {
            return Err(AccessError::RemoveSelf);
        }
        let mut plan: Vec<Step> = Vec::new();
        plan.push(Step::Open);
        plan.push(Step::Check(Check::ActorManages));
        plan.push(Step::Check(Check::Member { user: user.clone() }));
        plan.push(Step::Check(Check::MemberRolesManageable { user: user.clone() }));
        plan.push(Step::Write(Write::ClearMemberRoles { user: user.clone() }));
        plan.push(Step::Write(Write::EndSessions { user: user.clone() }));
        plan.push(Step::Write(Write::DropMembership { user: user.clone() }));
        plan.push(Step::Check(Check::ManagersRemain { actor }));
        plan.push(Step::Commit);
        let m = Mutation::new(plan);
        assert(m.pending@ =~= remove_member_plan(actor, user));
        Ok(m)
    }
}


// ---------------------------------------------------------------------------
// Laws
// ---------------------------------------------------------------------------
/// The plan opens the transaction, then re-checks that the actor manages the
/// tenant, and commits once, at its end.
pub open spec fn guarded(plan: Seq<Step>) -> bool {
    &&& plan.len() >= 3
    &&& plan[0] is Open
    &&& plan[1] == Step::Check(Check::ActorManages)
    &&& plan.last() is Commit
    &&& forall|i: int| 1 <= i < plan.len() - 1 ==> !(#[trigger] plan[i] is Commit) && !(plan[i] is Open)
}

/// No check of the plan comes after a write, but the check that the tenant is
/// still managed.
pub open spec fn checks_before_writes(plan: Seq<Step>) -> bool {
    forall|i: int, j: int|
        0 <= i < j < plan.len() && #[trigger] plan[i] is Write && #[trigger] plan[j] is Check
            ==> plan[j] matches Step::Check(Check::ManagersRemain { .. })
}

/// The last check of the plan, just before the commit, is that `actor` still
/// manages the tenant.
pub open spec fn ends_with_manager_check(plan: Seq<Step>, actor: String) -> bool {
    plan.len() >= 2 && plan[plan.len() - 2] == Step::Check(Check::ManagersRemain { actor: actor })
}

/// Every mutation opens the transaction, re-checks that the actor manages the
/// tenant before anything else, commits only at its end, and writes only once
/// every check but the final manager check has passed.
pub proof fn law_plans_are_guarded(
    actor: String,
    role: String,
    permissions: Vec<String>,
    create: bool,
    user: String,
    name: String,
    roles: Seq<String>,
    append: bool,
)
    ensures
        guarded(save_role_plan(actor, role, permissions, create)),
        guarded(delete_role_plan(role)),
        guarded(update_member_plan(user, name)),
        guarded(set_member_roles_plan(actor, user, roles, append)),
        guarded(remove_member_plan(actor, user)),
        checks_before_writes(save_role_plan(actor, role, permissions, create)),
        checks_before_writes(delete_role_plan(role)),
        checks_before_writes(update_member_plan(user, name)),
        checks_before_writes(set_member_roles_plan(actor, user, roles, append)),
        checks_before_writes(remove_member_plan(actor, user)),
{
    let sp = save_role_plan(actor, role, permissions, create);
    let w = role_permission_writes(role, permissions@);
    assert(sp.len() == 7 + w.len());
    assert forall|i: int| 5 <= i < 5 + w.len() implies #[trigger] sp[i] is Write by {
        assert(sp[i] == w[i - 5]);
    }
    assert(sp.last() is Commit);
    let mp = set_member_roles_plan(actor, user, roles, append);
    let c = manageable_checks(roles);
    let cl: int = if append { 0 } else { 1 };
    let mw = member_role_writes(user, roles);
    assert(mp.len() == 6 + c.len() + cl + mw.len());
    assert forall|i: int| 4 <= i < 4 + c.len() implies #[trigger] mp[i] is Check && !(mp[i] matches Step::Check(Check::ManagersRemain { .. })) by {
        assert(mp[i] == c[i - 4]);
    }
    assert forall|i: int| 4 + c.len() <= i < 4 + c.len() + cl + mw.len() implies #[trigger] mp[i] is Write by {
        if i < 4 + c.len() + cl {
        } else {
            assert(mp[i] == mw[i - 4 - c.len() - cl]);
        }
    }
    assert(mp.last() is Commit);
    assert(mp[mp.len() - 2] == Step::Check(Check::ManagersRemain { actor: actor }));
    assert(sp[sp.len() - 2] == Step::Check(Check::ManagersRemain { actor: actor }));
}

/// Saving a role, assigning roles and removing a member check, after their
/// writes and just before the commit, that the actor still manages the
/// tenant: no such mutation leaves a tenant without a manager or takes the
/// actor's own management away.
pub proof fn law_manager_check_before_commit(
    actor: String,
    role: String,
    permissions: Vec<String>,
    create: bool,
    user: String,
    roles: Seq<String>,
    append: bool,
)
    ensures
        ends_with_manager_check(save_role_plan(actor, role, permissions, create), actor),
        ends_with_manager_check(set_member_roles_plan(actor, user, roles, append), actor),
        ends_with_manager_check(remove_member_plan(actor, user), actor),
{
    let sp = save_role_plan(actor, role, permissions, create);
    assert(sp[sp.len() - 2] == Step::Check(Check::ManagersRemain { actor: actor }));
    let mp = set_member_roles_plan(actor, user, roles, append);
    assert(mp[mp.len() - 2] == Step::Check(Check::ManagersRemain { actor: actor }));
}

/// An answer only ever adds checks in front of the rest of the plan: no
/// answer adds a write or a commit.
pub proof fn law_answers_add_only_checks(c: Check, reply: Reply)
    ensures
        outcome(c, reply) matches Ok(front) ==> only_checks(front),
{
    if let Check::MemberRolesManageable { user } = c {
        if let Reply::Names(roles) = reply {
            let front = manageable_checks(roles@);
            assert forall|i: int| 0 <= i < front.len() implies #[trigger] front[i] is Check by {
                assert(front[i] == Step::Check(Check::RoleManageable { role: roles@[i] }));
            }
        }
    }
}


/// What the roles page offers to grant is what saving a role accepts: when
/// the granted permissions answered for the actor are those of the roles the
/// actor holds, a list of permissions passes the grant check exactly when the
/// view lists each of them as grantable.
pub proof fn law_view_offers_what_saving_accepts(
    users: Seq<UserModel>,
    rows: Seq<(Seq<char>, Seq<char>)>,
    actor: Seq<char>,
    i: int,
    granted: Seq<Seq<char>>,
    permissions: Seq<Seq<char>>,
)
    requires
        first_with_id(users, actor, i),
        forall|x: Seq<char>|
            granted.contains(x) <==> exists|j: int|
                0 <= j < rows.len() && #[trigger] rows[j].1 == x && users[i].roles.contains(
                    rows[j].0,
                ),
    ensures
        all_grantable(permissions, granted) <==> forall|k: int|
            0 <= k < permissions.len() ==> grantable(users, rows, actor, #[trigger] permissions[k]),
{
    assert forall|x: Seq<char>| x == base_permission() || granted.contains(x) <==> grantable(
        users,
        rows,
        actor,
        x,
    ) by {
        if granted.contains(x) {
            let j = choose|j: int|
                0 <= j < rows.len() && #[trigger] rows[j].1 == x && users[i].roles.contains(
                    rows[j].0,
                );
            assert(first_with_id(users, actor, i) && rows[j].1 == x);
        }
        if grantable(users, rows, actor, x) && x != base_permission() {
            let (a, j) = choose|a: int, j: int|
                #![trigger first_with_id(users, actor, a), rows[j]]
                first_with_id(users, actor, a) && 0 <= j < rows.len() && rows[j].1 == x
                    && users[a].roles.contains(rows[j].0);
            if a < i {
                assert(users[a].id != actor);
            } else if a > i {
                assert(users[i].id != actor);
            }
            assert(rows[j].1 == x);
        }
    }
    if all_grantable(permissions, granted) {
        assert forall|k: int| 0 <= k < permissions.len() implies grantable(
            users,
            rows,
            actor,
            #[trigger] permissions[k],
        ) by {
            assert(permissions[k] == base_permission() || granted.contains(permissions[k]));
        }
    }
    if forall|k: int|
        0 <= k < permissions.len() ==> grantable(users, rows, actor, #[trigger] permissions[k]) {
        assert forall|k: int| 0 <= k < permissions.len() implies #[trigger] permissions[k]
            == base_permission() || granted.contains(permissions[k]) by {
            assert(grantable(users, rows, actor, permissions[k]));
        }
    }
}


/// A mutation that has not committed yet: either refused, or with the commit
/// as the last of its steps to come and nowhere else among them.
pub open spec fn uncommitted(w: Waiting, pending: Seq<Step>) -> bool {
    match w {
        Waiting::Finished(r) => r is Err,
        _ => pending.len() > 0 && pending.last() is Commit && forall|i: int|
            0 <= i < pending.len() - 1 ==> !(#[trigger] pending[i] is Commit),
    }
}

proof fn lemma_finished_stays(r: Result<(), AccessError>, pending: Seq<Step>, replies: Seq<Reply>)
    ensures
        forall|j: int|
            0 <= j < commands(Waiting::Finished(r), pending, replies).len() ==> #[trigger] commands(
                Waiting::Finished(r),
                pending,
                replies,
            )[j] == Command::Finish(r),
    decreases replies.len(),
{
    if replies.len() > 0 {
        lemma_finished_stays(r, pending, replies.drop_first());
        let cs = commands(Waiting::Finished(r), pending, replies);
        let rest = commands(Waiting::Finished(r), pending, replies.drop_first());
        assert(cs =~= seq![Command::Finish(r)] + rest);
        assert forall|j: int| 0 <= j < cs.len() implies #[trigger] cs[j] == Command::Finish(r) by {
            if j > 0 {
                assert(cs[j] == rest[j - 1]);
            }
        }
    }
}

proof fn lemma_finish_sets_finished(w: Waiting, pending: Seq<Step>, reply: Reply)
    ensures
        step(w, pending, reply).2 matches Command::Finish(r) ==> step(w, pending, reply).1
            == Waiting::Finished(r),
{
}

/// Once a mutation finishes, every later command is the same `Finish`: a
/// refused mutation never commits afterwards, whatever it is told.
pub proof fn law_finish_is_final(w: Waiting, pending: Seq<Step>, replies: Seq<Reply>)
    ensures
        forall|i: int, j: int|
            0 <= i < j < commands(w, pending, replies).len() && (#[trigger] commands(
                w,
                pending,
                replies,
            )[i]) is Finish ==> #[trigger] commands(w, pending, replies)[j] == commands(
                w,
                pending,
                replies,
            )[i],
    decreases replies.len(),
{
    if replies.len() > 0 {
        let cs = commands(w, pending, replies);
        let (p, w2, c0) = step(w, pending, replies[0]);
        let rest = commands(w2, p, replies.drop_first());
        assert(cs =~= seq![c0] + rest);
        law_finish_is_final(w2, p, replies.drop_first());
        lemma_finish_sets_finished(w, pending, replies[0]);
        if let Command::Finish(r) = c0 {
            lemma_finished_stays(r, p, replies.drop_first());
        }
        assert forall|i: int, j: int| 0 <= i < j < cs.len() && (#[trigger] cs[i]) is Finish implies #[trigger] cs[j]
            == cs[i] by {
            assert(cs[j] == rest[j - 1]);
            if i > 0 {
                assert(cs[i] == rest[i - 1]);
            }
        }
    }
}

proof fn lemma_proceed_uncommitted(q: Seq<Step>)
    requires
        q.len() > 0,
        q.last() is Commit,
        forall|i: int| 0 <= i < q.len() - 1 ==> !(#[trigger] q[i] is Commit),
    ensures
        proceed(q).2 is Commit || (uncommitted(proceed(q).1, proceed(q).0) && !(proceed(
            q,
        ).2 is Finish)),
{
    if q.len() > 1 {
        let p = q.drop_first();
        assert(!(q[0] is Commit));
        assert(p.last() == q.last());
        assert forall|i: int| 0 <= i < p.len() - 1 implies !(#[trigger] p[i] is Commit) by {
            assert(p[i] == q[i + 1]);
        }
    } else {
        assert(q[0] == q.last());
    }
}

/// A mutation that has not committed reports success only after giving the
/// commit command: success is never reported for writes that were dropped.
pub proof fn law_success_follows_commit(w: Waiting, pending: Seq<Step>, replies: Seq<Reply>)
    requires
        uncommitted(w, pending),
    ensures
        forall|j: int|
            0 <= j < commands(w, pending, replies).len() && #[trigger] commands(
                w,
                pending,
                replies,
            )[j] == Command::Finish(Ok(())) ==> exists|i: int|
                0 <= i < j && #[trigger] commands(w, pending, replies)[i] is Commit,
    decreases replies.len(),
{
    if replies.len() > 0 {
        let cs = commands(w, pending, replies);
        let (p, w2, c0) = step(w, pending, replies[0]);
        let rest = commands(w2, p, replies.drop_first());
        assert(cs =~= seq![c0] + rest);
        match w {
            Waiting::Finished(r) => {},
            Waiting::Ack => {
                lemma_proceed_uncommitted(pending);
            },
            Waiting::Answer(c) => {
                if let Ok(front) = outcome(c, replies[0]) {
                    law_answers_add_only_checks(c, replies[0]);
                    let q = front + pending;
                    assert(q.last() == pending.last());
                    assert forall|i: int| 0 <= i < q.len() - 1 implies !(#[trigger] q[i] is Commit) by {
                        if i < front.len() {
                            assert(front[i] is Check);
                        } else {
                            assert(q[i] == pending[i - front.len()]);
                        }
                    }
                    lemma_proceed_uncommitted(q);
                }
            },
        }
        if !(c0 is Commit) {
            law_success_follows_commit(w2, p, replies.drop_first());
        }
        assert forall|j: int|
            0 <= j < cs.len() && #[trigger] cs[j] == Command::Finish(Ok(())) implies exists|i: int|
                0 <= i < j && #[trigger] cs[i] is Commit by {
            if c0 is Commit {
                assert(cs[0] is Commit);
            } else {
                assert(cs[j] == rest[j - 1]);
                let i = choose|i: int| 0 <= i < j - 1 && #[trigger] rest[i] is Commit;
                assert(cs[i + 1] == rest[i]);
            }
        }
    }
}

/// Every mutation starts uncommitted: its plan commits once, at its end.
pub proof fn law_plans_start_uncommitted(plan: Seq<Step>)
    requires
        guarded(plan),
    ensures
        uncommitted(Waiting::Ack, plan),
{
}


/// The plan asks check `c` before making any write.
pub open spec fn checks_before_writing(plan: Seq<Step>, c: Check) -> bool {
    exists|i: int|
        0 <= i < plan.len() && #[trigger] plan[i] == Step::Check(c) && forall|j: int|
            0 <= j < i ==> !(#[trigger] plan[j] is Write)
}

proof fn lemma_check_at(plan: Seq<Step>, c: Check, i: int)
    requires
        0 <= i < plan.len(),
        plan[i] == Step::Check(c),
        forall|j: int| 0 <= j < i ==> !(#[trigger] plan[j] is Write),
    ensures
        checks_before_writing(plan, c),
{
}

/// Before writing anything, each mutation checks what the rules demand:
/// saving a role, that the actor manages the tenant, that the role exists
/// exactly when it is updated and that the new permissions are grantable;
/// deleting a role, that it exists with grantable permissions and is held by
/// nobody; renaming, assigning roles to or removing a member, that the user is
/// a member whose every role the actor manages, and, when assigning, that the
/// actor manages every new role.
pub proof fn law_mutations_check_before_writing(
    actor: String,
    role: String,
    permissions: Vec<String>,
    create: bool,
    user: String,
    name: String,
    roles: Seq<String>,
    append: bool,
)
    ensures
        checks_before_writing(save_role_plan(actor, role, permissions, create), Check::ActorManages),
        checks_before_writing(
            save_role_plan(actor, role, permissions, create),
            Check::RoleExistence { role: role, create: create },
        ),
        checks_before_writing(
            save_role_plan(actor, role, permissions, create),
            Check::Grantable { permissions: permissions },
        ),
        checks_before_writing(delete_role_plan(role), Check::ActorManages),
        checks_before_writing(delete_role_plan(role), Check::RoleGrantable { role: role }),
        checks_before_writing(delete_role_plan(role), Check::RoleUnassigned { role: role }),
        checks_before_writing(update_member_plan(user, name), Check::ActorManages),
        checks_before_writing(update_member_plan(user, name), Check::Member { user: user }),
        checks_before_writing(
            update_member_plan(user, name),
            Check::MemberRolesManageable { user: user },
        ),
        checks_before_writing(set_member_roles_plan(actor, user, roles, append), Check::ActorManages),
        checks_before_writing(
            set_member_roles_plan(actor, user, roles, append),
            Check::Member { user: user },
        ),
        checks_before_writing(
            set_member_roles_plan(actor, user, roles, append),
            Check::MemberRolesManageable { user: user },
        ),
        forall|k: int|
            0 <= k < roles.len() ==> checks_before_writing(
                set_member_roles_plan(actor, user, roles, append),
                Check::RoleManageable { role: #[trigger] roles[k] },
            ),
        checks_before_writing(remove_member_plan(actor, user), Check::ActorManages),
        checks_before_writing(remove_member_plan(actor, user), Check::Member { user: user }),
        checks_before_writing(
            remove_member_plan(actor, user),
            Check::MemberRolesManageable { user: user },
        ),
{
    let sp = save_role_plan(actor, role, permissions, create);
    lemma_check_at(sp, Check::ActorManages, 1);
    lemma_check_at(sp, Check::RoleExistence { role: role, create: create }, 2);
    lemma_check_at(sp, Check::Grantable { permissions: permissions }, 3);
    let dp = delete_role_plan(role);
    lemma_check_at(dp, Check::ActorManages, 1);
    lemma_check_at(dp, Check::RoleGrantable { role: role }, 2);
    lemma_check_at(dp, Check::RoleUnassigned { role: role }, 3);
    let up = update_member_plan(user, name);
    lemma_check_at(up, Check::ActorManages, 1);
    lemma_check_at(up, Check::Member { user: user }, 2);
    lemma_check_at(up, Check::MemberRolesManageable { user: user }, 3);
    let mp = set_member_roles_plan(actor, user, roles, append);
    let c = manageable_checks(roles);
    lemma_check_at(mp, Check::ActorManages, 1);
    lemma_check_at(mp, Check::Member { user: user }, 2);
    lemma_check_at(mp, Check::MemberRolesManageable { user: user }, 3);
    assert forall|k: int| 0 <= k < roles.len() implies checks_before_writing(
        mp,
        Check::RoleManageable { role: #[trigger] roles[k] },
    ) by {
        assert(mp[4 + k] == c[k]);
        assert forall|j: int| 0 <= j < 4 + k implies !(#[trigger] mp[j] is Write) by {
            if j >= 4 {
                assert(mp[j] == c[j - 4]);
            }
        }
        lemma_check_at(mp, Check::RoleManageable { role: roles[k] }, 4 + k);
    }
    let rp = remove_member_plan(actor, user);
    lemma_check_at(rp, Check::ActorManages, 1);
    lemma_check_at(rp, Check::Member { user: user }, 2);
    lemma_check_at(rp, Check::MemberRolesManageable { user: user }, 3);
}

/// What the checks demand of their answers. The actor must hold
/// `rbac:manage`; a member's roles each become a check that the actor manages
/// them; managing a role needs it to exist and its permissions to be
/// grantable, and a platform admin for `platform-admin`; permissions are
/// grantable when each is `workspace:view` or among those granted to the
/// actor; the managers left must include the actor.
pub proof fn law_check_meanings(
    role: String,
    user: String,
    actor: String,
    names: Vec<String>,
    permissions: Vec<String>,
    reply: Reply,
)
    ensures
        outcome(Check::ActorManages, reply) is Ok <==> reply == Reply::Flag(true),
        outcome(Check::PlatformAdmin, reply) is Ok <==> reply == Reply::Flag(true),
        outcome(Check::RoleExistence { role: role, create: true }, Reply::Flag(true)) == Err::<
            Seq<Step>,
            AccessError,
        >(AccessError::RoleExists),
        outcome(Check::RoleExistence { role: role, create: true }, Reply::Flag(false)) == Ok::<
            Seq<Step>,
            AccessError,
        >(Seq::empty()),
        outcome(Check::RoleExistence { role: role, create: false }, Reply::Flag(false)) == Err::<
            Seq<Step>,
            AccessError,
        >(AccessError::RoleNotFound),
        outcome(Check::RoleExistence { role: role, create: false }, Reply::Flag(true)) == Ok::<
            Seq<Step>,
            AccessError,
        >(seq![Step::Check(Check::RoleGrantable { role: role })]),
        names@.len() == 0 ==> outcome(Check::RoleGrantable { role: role }, Reply::Names(names))
            == Err::<Seq<Step>, AccessError>(AccessError::RoleNotFound),
        names@.len() > 0 ==> outcome(Check::RoleGrantable { role: role }, Reply::Names(names))
            == Ok::<Seq<Step>, AccessError>(
            seq![Step::Check(Check::Grantable { permissions: names })],
        ),
        names@.len() == 0 ==> outcome(Check::ManagersRemain { actor: actor }, Reply::Names(names))
            == Err::<Seq<Step>, AccessError>(AccessError::LastManager),
        outcome(Check::Member { user: user }, reply) is Ok <==> reply == Reply::Flag(true),
        outcome(Check::RoleUnassigned { role: role }, reply) is Ok <==> reply == Reply::Flag(false),
        outcome(Check::MemberRolesManageable { user: user }, Reply::Names(names)) == Ok::<
            Seq<Step>,
            AccessError,
        >(
            Seq::new(
                names@.len(),
                |k: int| Step::Check(Check::RoleManageable { role: names@[k] }),
            ),
        ),
        names@.len() == 0 ==> outcome(
            Check::RoleManageable { role: role },
            Reply::Names(names),
        ) is Err,
        names@.len() > 0 ==> (outcome(
            Check::RoleManageable { role: role },
            Reply::Names(names),
        ) matches Ok(front) && front.len() >= 1 && front[0] == Step::Check(
            Check::Grantable { permissions: names },
        ) && (front.len() == 2 <==> role@ == "platform-admin"@) && front.len() <= 2 && (
        front.len() == 2 ==> front[1] == Step::Check(Check::PlatformAdmin))),
        outcome(Check::Grantable { permissions: permissions }, Reply::Names(names)) is Ok <==> (
        forall|i: int|
            0 <= i < permissions@.len() ==> (#[trigger] permissions@[i])@ == "workspace:view"@
                || exists|j: int| 0 <= j < names@.len() && (#[trigger] names@[j])@
                == permissions@[i]@),
        outcome(Check::ManagersRemain { actor: actor }, Reply::Names(names)) is Ok <==> exists|
            j: int,
        | 0 <= j < names@.len() && (#[trigger] names@[j])@ == actor@,
{
    assert(manageable_checks(names@) =~= Seq::new(
        names@.len(),
        |k: int| Step::Check(Check::RoleManageable { role: names@[k] }),
    ));
    let pv = views(permissions@);
    let gv = views(names@);
    assert(all_grantable(pv, gv) <==> forall|i: int|
        0 <= i < permissions@.len() ==> (#[trigger] permissions@[i])@ == "workspace:view"@
            || exists|j: int| 0 <= j < names@.len() && (#[trigger] names@[j])@
            == permissions@[i]@) by {
        if all_grantable(pv, gv) {
            assert forall|i: int| 0 <= i < permissions@.len() implies (
            #[trigger] permissions@[i])@ == "workspace:view"@ || exists|j: int|
                0 <= j < names@.len() && (#[trigger] names@[j])@ == permissions@[i]@ by {
                assert(pv[i] == permissions@[i]@);
                if gv.contains(pv[i]) {
                    let j = choose|j: int| 0 <= j < gv.len() && gv[j] == pv[i];
                    assert(names@[j]@ == gv[j]);
                }
            }
        }
        if forall|i: int|
            0 <= i < permissions@.len() ==> (#[trigger] permissions@[i])@ == "workspace:view"@
                || exists|j: int| 0 <= j < names@.len() && (#[trigger] names@[j])@
                == permissions@[i]@ {
            assert forall|i: int| 0 <= i < pv.len() implies #[trigger] pv[i] == base_permission()
                || gv.contains(pv[i]) by {
                assert(pv[i] == permissions@[i]@);
                if pv[i] != base_permission() {
                    let j = choose|j: int| 0 <= j < names@.len() && (#[trigger] names@[j])@
                        == permissions@[i]@;
                    assert(gv[j] == names@[j]@);
                }
            }
        }
    }
    if gv.contains(actor@) {
        let j = choose|j: int| 0 <= j < gv.len() && gv[j] == actor@;
        assert(names@[j]@ == gv[j]);
    }
    if exists|j: int| 0 <= j < names@.len() && (#[trigger] names@[j])@ == actor@ {
        let j = choose|j: int| 0 <= j < names@.len() && (#[trigger] names@[j])@ == actor@;
        assert(gv[j] == names@[j]@);
    }
}


/// The writes among the steps, in order.
pub open spec fn writes_of(steps: Seq<Step>) -> Seq<Write>
    decreases steps.len(),
{
    if steps.len() == 0 {
        Seq::empty()
    } else {
        let rest = writes_of(steps.drop_first());
        match steps[0] {
            Step::Write(w) => seq![w] + rest,
            _ => rest,
        }
    }
}

/// The writes among the commands, in order.
pub open spec fn written(cs: Seq<Command>) -> Seq<Write>
    decreases cs.len(),
{
    if cs.len() == 0 {
        Seq::empty()
    } else {
        let rest = written(cs.drop_first());
        match cs[0] {
            Command::Write(w) => seq![w] + rest,
            _ => rest,
        }
    }
}

proof fn lemma_written_cons(c: Command, rest: Seq<Command>)
    ensures
        written(seq![c] + rest) == match c {
            Command::Write(w) => seq![w] + written(rest),
            _ => written(rest),
        },
{
    assert((seq![c] + rest)[0] == c);
    assert((seq![c] + rest).drop_first() =~= rest);
}

proof fn lemma_writes_of_checks_first(front: Seq<Step>, pending: Seq<Step>)
    requires
        only_checks(front),
    ensures
        writes_of(front + pending) == writes_of(pending),
    decreases front.len(),
{
    if front.len() > 0 {
        assert((front + pending)[0] == front[0]);
        assert((front + pending).drop_first() =~= front.drop_first() + pending);
        assert(front[0] is Check);
        assert forall|i: int| 0 <= i < front.drop_first().len() implies #[trigger] front.drop_first()[i] is Check by {
            assert(front.drop_first()[i] == front[i + 1]);
        }
        lemma_writes_of_checks_first(front.drop_first(), pending);
    } else {
        assert(front + pending =~= pending);
    }
}

/// When a mutation that has not committed gives the commit command, the
/// writes it gave before are exactly the writes of its steps, in order: a
/// committed mutation made every write of its plan and no other.
pub proof fn law_commit_follows_all_writes(w: Waiting, pending: Seq<Step>, replies: Seq<Reply>, i: int)
    requires
        uncommitted(w, pending),
        0 <= i < commands(w, pending, replies).len(),
        commands(w, pending, replies)[i] is Commit,
    ensures
        written(commands(w, pending, replies).take(i)) == writes_of(pending),
    decreases replies.len(),
{
    let cs = commands(w, pending, replies);
    let (p, w2, c0) = step(w, pending, replies[0]);
    let rest = commands(w2, p, replies.drop_first());
    assert(cs =~= seq![c0] + rest);
    if let Waiting::Finished(r) = w {
        lemma_finished_stays(r, pending, replies);
        assert(cs[i] == Command::Finish(r));
        return;
    }
    // the steps that were then to come, with whatever the answer added in front
    let q: Seq<Step> = match w {
        Waiting::Answer(c) => match outcome(c, replies[0]) {
            Ok(front) => front + pending,
            Err(_) => pending,
        },
        _ => pending,
    };
    if let Waiting::Answer(c) = w {
        if let Err(e) = outcome(c, replies[0]) {
            lemma_finished_stays(Err(e), p, replies.drop_first());
            if i > 0 {
                assert(cs[i] == rest[i - 1]);
            }
            assert(false);
        } else if let Ok(front) = outcome(c, replies[0]) {
            law_answers_add_only_checks(c, replies[0]);
            lemma_writes_of_checks_first(front, pending);
            assert(q.last() == pending.last());
            assert forall|k: int| 0 <= k < q.len() - 1 implies !(#[trigger] q[k] is Commit) by {
                if k < front.len() {
                    assert(front[k] is Check);
                } else {
                    assert(q[k] == pending[k - front.len()]);
                }
            }
        }
    }
    assert(writes_of(q) == writes_of(pending));
    assert(q.len() > 0 && q.last() is Commit);
    assert((p, w2, c0) == proceed(q));
    lemma_proceed_uncommitted(q);
    if i == 0 {
        // the commit started at once: it was the only step left
        assert(c0 is Commit);
        if q.len() > 1 {
            assert(!(q[0] is Commit));
        }
        assert(q.len() == 1);
        assert(q[0] is Commit);
        assert(q.drop_first() =~= Seq::<Step>::empty());
        assert(writes_of(q) == writes_of(q.drop_first()));
        assert(cs.take(0) =~= Seq::<Command>::empty());
    } else {
        assert(cs[i] == rest[i - 1]);
        if c0 is Commit {
            assert(q.len() == 1) by {
                if q.len() > 1 {
                    assert(!(q[0] is Commit));
                }
            }
            assert(p =~= Seq::<Step>::empty());
            assert(w2 is Ack);
            assert(replies.drop_first().len() > 0);
            let (p2, w3, c1) = step(w2, p, replies.drop_first()[0]);
            assert(c1 is Finish);
            lemma_finished_stays(Ok(()), p2, replies.drop_first().drop_first());
            let rest2 = commands(w3, p2, replies.drop_first().drop_first());
            assert(rest =~= seq![c1] + rest2);
            if i - 1 > 0 {
                assert(rest[i - 1] == rest2[i - 2]);
            }
            assert(false);
        }
        law_commit_follows_all_writes(w2, p, replies.drop_first(), i - 1);
        assert(cs.take(i) =~= seq![c0] + rest.take(i - 1));
        lemma_written_cons(c0, rest.take(i - 1));
        assert(q[0] == q[0]);
        assert(q =~= seq![q[0]] + q.drop_first());
        assert(writes_of(q) == match q[0] {
            Step::Write(x) => seq![x] + writes_of(q.drop_first()),
            _ => writes_of(q.drop_first()),
        });
        assert(p == q.drop_first());
        assert(c0 == command_for(q[0]));
    }
}

} // verus!
