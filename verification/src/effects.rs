//! What the writes of a mutation do to a tenant, and what each committed
//! mutation leaves behind.
//!
//! A tenant is modelled by its rows: the `(role, permission)` rows, the
//! `(user, role)` assignments, the members with their display names, and the
//! users that have sessions. Each write changes these rows as its SQL does;
//! checks, the open and the commit change nothing. A mutation that commits
//! has made exactly the writes of its plan, in order
//! (`law_committed_run_has_the_plan_effect`), so the laws below say what each
//! committed mutation leaves behind.
use vstd::prelude::*;

use crate::mutation::{
    Check, Reply, Step, Waiting, Write, commands, law_commit_follows_all_writes, uncommitted,
    writes_of, written, delete_role_plan, manageable_checks, member_role_writes,
    remove_member_plan, role_permission_writes, save_role_plan, set_member_roles_plan,
    update_member_plan,
};
use crate::text::views;

verus! {

/// The rows of one tenant.
pub struct TenantRows {
    /// `(role, permission)`: the role carries the permission.
    pub role_permissions: Set<(Seq<char>, Seq<char>)>,
    /// `(user, role)`: the user holds the role.
    pub member_roles: Set<(Seq<char>, Seq<char>)>,
    /// The members and their display names.
    pub members: Map<Seq<char>, Seq<char>>,
    /// The users that have a session.
    pub sessions: Set<Seq<char>>,
}

/// The rows once a write is done.
pub open spec fn after_write(s: TenantRows, w: Write) -> TenantRows {
    match w {
        Write::ClearRolePermissions { role } => TenantRows {
            role_permissions: s.role_permissions.filter(
                |r: (Seq<char>, Seq<char>)| r.0 != role@,
            ),
            ..s
        },
        Write::AddRolePermission { role, permission } => TenantRows {
            role_permissions: s.role_permissions.insert((role@, permission@)),
            ..s
        },
        Write::RenameMember { user, name } => TenantRows {
            members: if s.members.dom().contains(user@) {
                s.members.insert(user@, name@)
            } else {
                s.members
            },
            ..s
        },
        Write::ClearMemberRoles { user } => TenantRows {
            member_roles: s.member_roles.filter(|r: (Seq<char>, Seq<char>)| r.0 != user@),
            ..s
        },
        Write::AddMemberRole { user, role } => TenantRows {
            member_roles: s.member_roles.insert((user@, role@)),
            ..s
        },
        Write::EndSessions { user } => TenantRows { sessions: s.sessions.remove(user@), ..s },
        Write::DropMembership { user } => TenantRows { members: s.members.remove(user@), ..s },
    }
}

/// The rows once a step is done: only writes change them.
pub open spec fn after_step(s: TenantRows, step: Step) -> TenantRows {
    match step {
        Step::Write(w) => after_write(s, w),
        _ => s,
    }
}

/// The rows once the steps are done, in order.
pub open spec fn after_steps(s: TenantRows, steps: Seq<Step>) -> TenantRows
    decreases steps.len(),
{
    if steps.len() == 0 {
        s
    } else {
        after_steps(after_step(s, steps[0]), steps.drop_first())
    }
}

proof fn lemma_after_concat(s: TenantRows, a: Seq<Step>, b: Seq<Step>)
    ensures
        after_steps(s, a + b) == after_steps(after_steps(s, a), b),
    decreases a.len(),
{
    if a.len() == 0 {
        assert(a + b =~= b);
    } else {
        assert((a + b)[0] == a[0]);
        assert((a + b).drop_first() =~= a.drop_first() + b);
        lemma_after_concat(after_step(s, a[0]), a.drop_first(), b);
    }
}

proof fn lemma_after_single(s: TenantRows, x: Step)
    ensures
        after_steps(s, seq![x]) == after_step(s, x),
{
    assert(seq![x].drop_first() =~= Seq::<Step>::empty());
    assert(seq![x][0] == x);
    assert(after_steps(after_step(s, x), Seq::<Step>::empty()) == after_step(s, x));
}

proof fn lemma_after_no_writes(s: TenantRows, a: Seq<Step>)
    requires
        forall|i: int| 0 <= i < a.len() ==> !(#[trigger] a[i] is Write),
    ensures
        after_steps(s, a) == s,
    decreases a.len(),
{
    if a.len() > 0 {
        assert(!(a[0] is Write));
        assert forall|i: int| 0 <= i < a.drop_first().len() implies !(
        #[trigger] a.drop_first()[i] is Write) by {
            assert(a.drop_first()[i] == a[i + 1]);
        }
        lemma_after_no_writes(s, a.drop_first());
    }
}

proof fn lemma_manageable_checks_no_writes(roles: Seq<String>)
    ensures
        forall|i: int|
            0 <= i < manageable_checks(roles).len() ==> !(#[trigger] manageable_checks(roles)[i] is Write),
{
    assert forall|i: int| 0 <= i < manageable_checks(roles).len() implies !(
    #[trigger] manageable_checks(roles)[i] is Write) by {
        assert(manageable_checks(roles)[i] == Step::Check(Check::RoleManageable { role: roles[i] }));
    }
}

#[verifier::spinoff_prover]
proof fn lemma_role_permission_writes(s: TenantRows, role: String, ps: Seq<String>)
    ensures
        forall|r: (Seq<char>, Seq<char>)|
            after_steps(s, role_permission_writes(role, ps)).role_permissions.contains(r) <==> (
            s.role_permissions.contains(r) || (r.0 == role@ && views(ps).contains(r.1))),
        after_steps(s, role_permission_writes(role, ps)).member_roles == s.member_roles,
        after_steps(s, role_permission_writes(role, ps)).members == s.members,
        after_steps(s, role_permission_writes(role, ps)).sessions == s.sessions,
    decreases ps.len(),
{
    if ps.len() == 0 {
        assert(role_permission_writes(role, ps) =~= Seq::<Step>::empty());
    } else {
        let init = ps.drop_last();
        let last = ps.last();
        let w = Step::Write(Write::AddRolePermission { role: role, permission: last });
        assert(role_permission_writes(role, ps) =~= role_permission_writes(role, init) + seq![w]);
        lemma_role_permission_writes(s, role, init);
        let mid = after_steps(s, role_permission_writes(role, init));
        lemma_after_concat(s, role_permission_writes(role, init), seq![w]);
        lemma_after_single(mid, w);
        assert(views(ps) =~= views(init).push(last@));
        assert forall|r: (Seq<char>, Seq<char>)|
            after_steps(s, role_permission_writes(role, ps)).role_permissions.contains(r) <==> (
            s.role_permissions.contains(r) || (r.0 == role@ && views(ps).contains(r.1))) by {
            if views(init).contains(r.1) {
                let k = choose|k: int| 0 <= k < views(init).len() && views(init)[k] == r.1;
                assert(views(ps)[k] == r.1);
            }
            if views(ps).contains(r.1) && r.1 != last@ {
                let k = choose|k: int| 0 <= k < views(ps).len() && views(ps)[k] == r.1;
                assert(k < views(init).len());
                assert(views(init)[k] == r.1);
            }
            if r.1 == last@ {
                assert(views(ps)[ps.len() - 1] == r.1);
            }
        }
    }
}

#[verifier::spinoff_prover]
proof fn lemma_member_role_writes(s: TenantRows, user: String, roles: Seq<String>)
    ensures
        forall|r: (Seq<char>, Seq<char>)|
            after_steps(s, member_role_writes(user, roles)).member_roles.contains(r) <==> (
            s.member_roles.contains(r) || (r.0 == user@ && views(roles).contains(r.1))),
        after_steps(s, member_role_writes(user, roles)).role_permissions == s.role_permissions,
        after_steps(s, member_role_writes(user, roles)).members == s.members,
        after_steps(s, member_role_writes(user, roles)).sessions == s.sessions,
    decreases roles.len(),
{
    if roles.len() == 0 {
        assert(member_role_writes(user, roles) =~= Seq::<Step>::empty());
    } else {
        let init = roles.drop_last();
        let last = roles.last();
        let w = Step::Write(Write::AddMemberRole { user: user, role: last });
        assert(member_role_writes(user, roles) =~= member_role_writes(user, init) + seq![w]);
        lemma_member_role_writes(s, user, init);
        let mid = after_steps(s, member_role_writes(user, init));
        lemma_after_concat(s, member_role_writes(user, init), seq![w]);
        lemma_after_single(mid, w);
        assert(views(roles) =~= views(init).push(last@));
        assert forall|r: (Seq<char>, Seq<char>)|
            after_steps(s, member_role_writes(user, roles)).member_roles.contains(r) <==> (
            s.member_roles.contains(r) || (r.0 == user@ && views(roles).contains(r.1))) by {
            if views(init).contains(r.1) {
                let k = choose|k: int| 0 <= k < views(init).len() && views(init)[k] == r.1;
                assert(views(roles)[k] == r.1);
            }
            if views(roles).contains(r.1) && r.1 != last@ {
                let k = choose|k: int| 0 <= k < views(roles).len() && views(roles)[k] == r.1;
                assert(k < views(init).len());
                assert(views(init)[k] == r.1);
            }
            if r.1 == last@ {
                assert(views(roles)[roles.len() - 1] == r.1);
            }
        }
    }
}


proof fn lemma_role_permission_writes_at(
    s: TenantRows,
    role: String,
    ps: Seq<String>,
    r: (Seq<char>, Seq<char>),
)
    ensures
        after_steps(s, role_permission_writes(role, ps)).role_permissions.contains(r) <==> (
        s.role_permissions.contains(r) || (r.0 == role@ && views(ps).contains(r.1))),
{
    lemma_role_permission_writes(s, role, ps);
}

proof fn lemma_member_role_writes_at(
    s: TenantRows,
    user: String,
    roles: Seq<String>,
    r: (Seq<char>, Seq<char>),
)
    ensures
        after_steps(s, member_role_writes(user, roles)).member_roles.contains(r) <==> (
        s.member_roles.contains(r) || (r.0 == user@ && views(roles).contains(r.1))),
{
    lemma_member_role_writes(s, user, roles);
}

/// After a committed save of a role, the role carries exactly the permissions
/// saved (the validated ones): none of the permissions it had before stays
/// unless it was given again. No other role, assignment, member or session
/// changes.
#[verifier::spinoff_prover]
pub proof fn law_saved_role_has_exactly_the_given_permissions(
    s: TenantRows,
    actor: String,
    role: String,
    permissions: Vec<String>,
    create: bool,
)
    ensures
        forall|p: Seq<char>|
            after_steps(s, save_role_plan(actor, role, permissions, create)).role_permissions.contains(
                (role@, p),
            ) <==> views(permissions@).contains(p),
        forall|r: Seq<char>, p: Seq<char>|
            r != role@ ==> (after_steps(
                s,
                save_role_plan(actor, role, permissions, create),
            ).role_permissions.contains((r, p)) <==> s.role_permissions.contains((r, p))),
        after_steps(s, save_role_plan(actor, role, permissions, create)).member_roles
            == s.member_roles,
        after_steps(s, save_role_plan(actor, role, permissions, create)).members == s.members,
        after_steps(s, save_role_plan(actor, role, permissions, create)).sessions == s.sessions,
{
    let checks = seq![
        Step::Open,
        Step::Check(Check::ActorManages),
        Step::Check(Check::RoleExistence { role: role, create: create }),
        Step::Check(Check::Grantable { permissions: permissions }),
    ];
    let clear = seq![Step::Write(Write::ClearRolePermissions { role: role })];
    let w = role_permission_writes(role, permissions@);
    let tail = seq![Step::Check(Check::ManagersRemain { actor: actor }), Step::Commit];
    let plan = save_role_plan(actor, role, permissions, create);
    assert(plan =~= ((checks + clear) + w) + tail);
    lemma_after_concat(s, (checks + clear) + w, tail);
    lemma_after_concat(s, checks + clear, w);
    lemma_after_concat(s, checks, clear);
    lemma_after_no_writes(s, checks);
    lemma_after_single(s, clear[0]);
    let cleared = after_step(s, clear[0]);
    assert forall|r: (Seq<char>, Seq<char>)|
        cleared.role_permissions.contains(r) <==> (s.role_permissions.contains(r) && r.0 != role@) by {
        assert(s.role_permissions.filter(|r: (Seq<char>, Seq<char>)| r.0 != role@).contains(r)
            <==> (s.role_permissions.contains(r) && r.0 != role@));
    }
    lemma_role_permission_writes(cleared, role, permissions@);
    let written = after_steps(cleared, w);
    lemma_after_no_writes(written, tail);
    assert forall|p: Seq<char>|
        written.role_permissions.contains((role@, p)) <==> views(permissions@).contains(p) by {
        lemma_role_permission_writes_at(cleared, role, permissions@, (role@, p));
        assert(!cleared.role_permissions.contains((role@, p)));
    }
}

/// After a committed delete of a role, the role carries no permission: it no
/// longer exists. No other role, assignment, member or session changes.
#[verifier::spinoff_prover]
pub proof fn law_deleted_role_has_no_permissions(s: TenantRows, role: String)
    ensures
        forall|p: Seq<char>|
            !after_steps(s, delete_role_plan(role)).role_permissions.contains((role@, p)),
        forall|r: Seq<char>, p: Seq<char>|
            r != role@ ==> (after_steps(s, delete_role_plan(role)).role_permissions.contains(
                (r, p),
            ) <==> s.role_permissions.contains((r, p))),
        after_steps(s, delete_role_plan(role)).member_roles == s.member_roles,
        after_steps(s, delete_role_plan(role)).members == s.members,
        after_steps(s, delete_role_plan(role)).sessions == s.sessions,
{
    let checks = seq![
        Step::Open,
        Step::Check(Check::ActorManages),
        Step::Check(Check::RoleGrantable { role: role }),
        Step::Check(Check::RoleUnassigned { role: role }),
    ];
    let clear = seq![Step::Write(Write::ClearRolePermissions { role: role })];
    let tail = seq![Step::Commit];
    assert(delete_role_plan(role) =~= (checks + clear) + tail);
    lemma_after_concat(s, checks + clear, tail);
    lemma_after_concat(s, checks, clear);
    lemma_after_no_writes(s, checks);
    lemma_after_single(s, clear[0]);
    let cleared = after_step(s, clear[0]);
    assert forall|r: (Seq<char>, Seq<char>)|
        cleared.role_permissions.contains(r) <==> (s.role_permissions.contains(r) && r.0 != role@) by {
        assert(s.role_permissions.filter(|r: (Seq<char>, Seq<char>)| r.0 != role@).contains(r)
            <==> (s.role_permissions.contains(r) && r.0 != role@));
    }
    lemma_after_no_writes(cleared, tail);
}

/// After a committed rename, the member has the new name, if it was a member;
/// nothing else changes.
#[verifier::spinoff_prover]
pub proof fn law_renamed_member_has_the_new_name(s: TenantRows, user: String, name: String)
    ensures
        after_steps(s, update_member_plan(user, name)).members == if s.members.dom().contains(
            user@,
        ) {
            s.members.insert(user@, name@)
        } else {
            s.members
        },
        after_steps(s, update_member_plan(user, name)).role_permissions == s.role_permissions,
        after_steps(s, update_member_plan(user, name)).member_roles == s.member_roles,
        after_steps(s, update_member_plan(user, name)).sessions == s.sessions,
{
    let checks = seq![
        Step::Open,
        Step::Check(Check::ActorManages),
        Step::Check(Check::Member { user: user }),
        Step::Check(Check::MemberRolesManageable { user: user }),
    ];
    let write = seq![Step::Write(Write::RenameMember { user: user, name: name })];
    let tail = seq![Step::Commit];
    assert(update_member_plan(user, name) =~= (checks + write) + tail);
    lemma_after_concat(s, checks + write, tail);
    lemma_after_concat(s, checks, write);
    lemma_after_no_writes(s, checks);
    lemma_after_single(s, write[0]);
    lemma_after_no_writes(after_step(s, write[0]), tail);
}

/// After a committed assignment, the member holds exactly the given roles,
/// together with the roles it held before when `append`; no other member's
/// roles, no role's permissions, member or session changes.
#[verifier::spinoff_prover]
pub proof fn law_assigned_member_holds_the_given_roles(
    s: TenantRows,
    actor: String,
    user: String,
    roles: Seq<String>,
    append: bool,
)
    ensures
        forall|r: Seq<char>|
            after_steps(s, set_member_roles_plan(actor, user, roles, append)).member_roles.contains(
                (user@, r),
            ) <==> (views(roles).contains(r) || (append && s.member_roles.contains((user@, r)))),
        forall|u: Seq<char>, r: Seq<char>|
            u != user@ ==> (after_steps(
                s,
                set_member_roles_plan(actor, user, roles, append),
            ).member_roles.contains((u, r)) <==> s.member_roles.contains((u, r))),
        after_steps(s, set_member_roles_plan(actor, user, roles, append)).role_permissions
            == s.role_permissions,
        after_steps(s, set_member_roles_plan(actor, user, roles, append)).members == s.members,
        after_steps(s, set_member_roles_plan(actor, user, roles, append)).sessions == s.sessions,
{
    let head = seq![
        Step::Open,
        Step::Check(Check::ActorManages),
        Step::Check(Check::Member { user: user }),
        Step::Check(Check::MemberRolesManageable { user: user }),
    ];
    let checks = manageable_checks(roles);
    let clear: Seq<Step> = if append {
        Seq::empty()
    } else {
        seq![Step::Write(Write::ClearMemberRoles { user: user })]
    };
    let w = member_role_writes(user, roles);
    let tail = seq![Step::Check(Check::ManagersRemain { actor: actor }), Step::Commit];
    let plan = set_member_roles_plan(actor, user, roles, append);
    assert(plan =~= (((head + checks) + clear) + w) + tail);
    lemma_after_concat(s, ((head + checks) + clear) + w, tail);
    lemma_after_concat(s, (head + checks) + clear, w);
    lemma_after_concat(s, head + checks, clear);
    lemma_manageable_checks_no_writes(roles);
    assert forall|i: int| 0 <= i < (head + checks).len() implies !(#[trigger] (head
        + checks)[i] is Write) by {
        if i >= head.len() {
            assert((head + checks)[i] == checks[i - head.len()]);
        }
    }
    lemma_after_no_writes(s, head + checks);
    let cleared = after_steps(s, clear);
    if append {
        assert(cleared == s);
    } else {
        lemma_after_single(s, clear[0]);
        assert forall|r: (Seq<char>, Seq<char>)|
            cleared.member_roles.contains(r) <==> (s.member_roles.contains(r) && r.0 != user@) by {
            assert(s.member_roles.filter(|r: (Seq<char>, Seq<char>)| r.0 != user@).contains(r)
                <==> (s.member_roles.contains(r) && r.0 != user@));
        }
    }
    lemma_member_role_writes(cleared, user, roles);
    let written = after_steps(cleared, w);
    lemma_after_no_writes(written, tail);
    assert forall|r: Seq<char>|
        written.member_roles.contains((user@, r)) <==> (views(roles).contains(r) || (append
            && s.member_roles.contains((user@, r)))) by {
        lemma_member_role_writes_at(cleared, user, roles, (user@, r));
        if !append {
            assert(!cleared.member_roles.contains((user@, r)));
        }
    }
}

/// After a committed removal, the user holds no role in the tenant, has no
/// session in it and is no member of it; other users' rows and the roles'
/// permissions do not change.
#[verifier::spinoff_prover]
pub proof fn law_removed_member_leaves_nothing(s: TenantRows, actor: String, user: String)
    ensures
        forall|r: Seq<char>|
            !after_steps(s, remove_member_plan(actor, user)).member_roles.contains((user@, r)),
        !after_steps(s, remove_member_plan(actor, user)).members.dom().contains(user@),
        !after_steps(s, remove_member_plan(actor, user)).sessions.contains(user@),
        forall|u: Seq<char>, r: Seq<char>|
            u != user@ ==> (after_steps(s, remove_member_plan(actor, user)).member_roles.contains(
                (u, r),
            ) <==> s.member_roles.contains((u, r))),
        forall|u: Seq<char>|
            u != user@ ==> (after_steps(s, remove_member_plan(actor, user)).members.dom().contains(
                u,
            ) <==> s.members.dom().contains(u)),
        forall|u: Seq<char>|
            u != user@ ==> (after_steps(s, remove_member_plan(actor, user)).sessions.contains(u)
                <==> s.sessions.contains(u)),
        after_steps(s, remove_member_plan(actor, user)).role_permissions == s.role_permissions,
{
    let checks = seq![
        Step::Open,
        Step::Check(Check::ActorManages),
        Step::Check(Check::Member { user: user }),
        Step::Check(Check::MemberRolesManageable { user: user }),
    ];
    let w1 = Step::Write(Write::ClearMemberRoles { user: user });
    let w2 = Step::Write(Write::EndSessions { user: user });
    let w3 = Step::Write(Write::DropMembership { user: user });
    let tail = seq![Step::Check(Check::ManagersRemain { actor: actor }), Step::Commit];
    assert(remove_member_plan(actor, user) =~= (((checks + seq![w1]) + seq![w2]) + seq![w3])
        + tail);
    lemma_after_concat(s, ((checks + seq![w1]) + seq![w2]) + seq![w3], tail);
    lemma_after_concat(s, (checks + seq![w1]) + seq![w2], seq![w3]);
    lemma_after_concat(s, checks + seq![w1], seq![w2]);
    lemma_after_concat(s, checks, seq![w1]);
    lemma_after_no_writes(s, checks);
    lemma_after_single(s, w1);
    let t1 = after_step(s, w1);
    assert forall|r: (Seq<char>, Seq<char>)|
        t1.member_roles.contains(r) <==> (s.member_roles.contains(r) && r.0 != user@) by {
        assert(s.member_roles.filter(|r: (Seq<char>, Seq<char>)| r.0 != user@).contains(r)
            <==> (s.member_roles.contains(r) && r.0 != user@));
    }
    lemma_after_single(t1, w2);
    let t2 = after_step(t1, w2);
    lemma_after_single(t2, w3);
    let t3 = after_step(t2, w3);
    lemma_after_no_writes(t3, tail);
}


/// The rows once the writes are done, in order.
pub open spec fn after_writes(s: TenantRows, ws: Seq<Write>) -> TenantRows
    decreases ws.len(),
{
    if ws.len() == 0 {
        s
    } else {
        after_writes(after_write(s, ws[0]), ws.drop_first())
    }
}

proof fn lemma_after_steps_is_after_writes(s: TenantRows, steps: Seq<Step>)
    ensures
        after_steps(s, steps) == after_writes(s, writes_of(steps)),
    decreases steps.len(),
{
    if steps.len() > 0 {
        lemma_after_steps_is_after_writes(after_step(s, steps[0]), steps.drop_first());
        let rest = writes_of(steps.drop_first());
        if let Step::Write(w) = steps[0] {
            let ws = seq![w] + rest;
            assert(ws[0] == w);
            assert(ws.drop_first() =~= rest);
        }
    }
}

/// A mutation that commits leaves the tenant as its plan's writes do: the
/// writes it gave before the commit, done in order on the rows it started
/// from, give the rows that the plan's steps give.
pub proof fn law_committed_run_has_the_plan_effect(
    s: TenantRows,
    w: Waiting,
    pending: Seq<Step>,
    replies: Seq<Reply>,
    i: int,
)
    requires
        uncommitted(w, pending),
        0 <= i < commands(w, pending, replies).len(),
        commands(w, pending, replies)[i] is Commit,
    ensures
        after_writes(s, written(commands(w, pending, replies).take(i))) == after_steps(s, pending),
{
    law_commit_follows_all_writes(w, pending, replies, i);
    lemma_after_steps_is_after_writes(s, pending);
}

} // verus!
