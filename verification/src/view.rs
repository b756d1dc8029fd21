//! What the admin pages see of a tenant: its members, its roles with their
//! permissions and holders, and the permissions the viewer may grant.
use vstd::prelude::*;

use crate::model::{AccessControlView, RoleItem, UserItem, UserModel, user_models};
use crate::text::{
    contains_str, same_elements, sorted_unique, str_eq, strictly_sorted, views,
};

verus! {

/// The permission that every member may be given, whoever grants it.
pub open spec fn base_permission() -> Seq<char> {
    "workspace:view"@
}

/// A `(role, permission)` row as character sequences.
pub open spec fn row_models(rows: Seq<(String, String)>) -> Seq<(Seq<char>, Seq<char>)> {
    rows.map_values(|r: (String, String)| (r.0@, r.1@))
}

/// The roles named by the rows, in row order.
pub open spec fn row_roles(rows: Seq<(Seq<char>, Seq<char>)>) -> Seq<Seq<char>> {
    rows.map_values(|r: (Seq<char>, Seq<char>)| r.0)
}

/// The permissions that the rows give `role`, in row order.
pub open spec fn perms_of(rows: Seq<(Seq<char>, Seq<char>)>, role: Seq<char>) -> Seq<Seq<char>>
    decreases rows.len(),
{
    if rows.len() == 0 {
        Seq::empty()
    } else {
        let prev = perms_of(rows.drop_last(), role);
        if rows.last().0 == role {
            prev.push(rows.last().1)
        } else {
            prev
        }
    }
}

/// The ids of a list of roles.
pub open spec fn role_ids(roles: Seq<RoleItem>) -> Seq<Seq<char>> {
    roles.map_values(|r: RoleItem| r.id@)
}

/// How many members hold `role`.
pub open spec fn holders(users: Seq<UserModel>, role: Seq<char>) -> nat
    decreases users.len(),
{
    if users.len() == 0 {
        0
    } else {
        holders(users.drop_last(), role) + if users.last().roles.contains(role) {
            1nat
        } else {
            0nat
        }
    }
}

/// `i` is the first member whose id is `id`.
pub open spec fn first_with_id(users: Seq<UserModel>, id: Seq<char>, i: int) -> bool {
    &&& 0 <= i < users.len()
    &&& users[i].id == id
    &&& forall|k: int| 0 <= k < i ==> users[k].id != id
}

/// A permission that the member `actor` may grant: the base permission, or a
/// permission of a role that the actor holds (the first member with that id).
pub open spec fn grantable(
    users: Seq<UserModel>,
    rows: Seq<(Seq<char>, Seq<char>)>,
    actor: Seq<char>,
    p: Seq<char>,
) -> bool {
    ||| p == base_permission()
    ||| exists|i: int, j: int|
        #![trigger first_with_id(users, actor, i), rows[j]]
        first_with_id(users, actor, i) && 0 <= j < rows.len() && rows[j].1 == p
            && users[i].roles.contains(rows[j].0)
}

proof fn lemma_perms_of_contains(rows: Seq<(Seq<char>, Seq<char>)>, role: Seq<char>, p: Seq<char>)
    ensures
        perms_of(rows, role).contains(p) <==> exists|j: int|
            0 <= j < rows.len() && #[trigger] rows[j] == (role, p),
    decreases rows.len(),
{
    if rows.len() > 0 {
        let init = rows.drop_last();
        lemma_perms_of_contains(init, role, p);
        let prev = perms_of(init, role);
        if perms_of(rows, role).contains(p) {
            if prev.contains(p) {
                let j = choose|j: int| 0 <= j < init.len() && #[trigger] init[j] == (role, p);
                assert(rows[j] == (role, p));
            } else {
                assert(rows[rows.len() - 1] == (role, p));
            }
        }
        if exists|j: int| 0 <= j < rows.len() && #[trigger] rows[j] == (role, p) {
            let j = choose|j: int| 0 <= j < rows.len() && #[trigger] rows[j] == (role, p);
            if j < rows.len() - 1 {
                assert(init[j] == (role, p));
                assert(prev.contains(p));
                if rows.last().0 == role {
                    let k = choose|k: int| 0 <= k < prev.len() && prev[k] == p;
                    assert(prev.push(rows.last().1)[k] == p);
                }
            } else {
                assert(perms_of(rows, role).last() == p);
            }
        }
    }
}

/// The permissions of `role` in the rows, in row order.
fn collect_permissions(rows: &Vec<(String, String)>, role: &String) -> (res: Vec<String>)
    ensures
        views(res@) == perms_of(row_models(rows@), role@),
{
    let mut res: Vec<String> = Vec::new();
    let mut j: usize = 0;
    while j < rows.len()
        invariant
            j <= rows.len(),
            views(res@) == perms_of(row_models(rows@).take(j as int), role@),
        decreases rows.len() - j,
    {
        let ghost before = res@;
        if str_eq(rows[j].0.as_str(), role.as_str()) {
            res.push(rows[j].1.clone());
        }
        proof {
            let m = row_models(rows@);
            assert(m.take(j + 1).drop_last() =~= m.take(j as int));
            assert(m.take(j + 1).last() == m[j as int]);
            if rows@[j as int].0@ == role@ {
                assert(views(res@) =~= views(before).push(rows@[j as int].1@));
            } else {
                assert(views(res@) =~= views(before));
            }
        }
        j = j + 1;
    }
    assert(row_models(rows@).take(rows.len() as int) =~= row_models(rows@));
    res
}

/// How many of the members hold `role`.
fn count_holders(users: &Vec<UserItem>, role: &String) -> (n: usize)
    ensures
        n == holders(user_models(users@), role@),
{
    let mut n: usize = 0;
    let mut j: usize = 0;
    while j < users.len()
        invariant
            j <= users.len(),
            n == holders(user_models(users@).take(j as int), role@),
            n <= j,
        decreases users.len() - j,
    {
        let ghost m = user_models(users@);
        proof {
            assert(m.take(j + 1).drop_last() =~= m.take(j as int));
            assert(m.take(j + 1).last() == m[j as int]);
        }
        if contains_str(&users[j].roles, role.as_str()) {
            n = n + 1;
        }
        j = j + 1;
    }
    assert(user_models(users@).take(users.len() as int) =~= user_models(users@));
    n
}

/// The index of the first member with id `id`, if any.
fn find_member(users: &Vec<UserItem>, id: &str) -> (r: Option<usize>)
    ensures
        r matches Some(i) ==> first_with_id(user_models(users@), id@, i as int),
        r is None ==> forall|k: int| 0 <= k < users@.len() ==> users@[k].id@ != id@,
{
    let mut i: usize = 0;
    while i < users.len()
        invariant
            i <= users.len(),
            forall|k: int| 0 <= k < i ==> users@[k].id@ != id@,
        decreases users.len() - i,
    {
        if str_eq(users[i].id.as_str(), id) {
            return Some(i);
        }
        i = i + 1;
    }
    None
}

/// Builds what the admin pages show from the tenant's members, in the order
/// given, and its `(role, permission)` rows: one role per role named in the
/// rows, in increasing order of id, with its permissions in row order and the
/// number of members holding it, and the permissions that `actor_id` may
/// grant, in increasing order without repetition.
pub fn build_view(users: Vec<UserItem>, permission_rows: Vec<(String, String)>, actor_id: &str) -> (v:
    AccessControlView)
    ensures
        v.users == users,
        v.current_user_id@ == actor_id@,
        strictly_sorted(role_ids(v.roles@)),
        same_elements(
            role_ids(v.roles@),
            row_roles(row_models(permission_rows@)),
        ),
        forall|k: int|
            0 <= k < v.roles@.len() ==> views(#[trigger] v.roles@[k].permissions@) == perms_of(
                row_models(permission_rows@),
                v.roles@[k].id@,
            ) && v.roles@[k].member_count == holders(user_models(users@), v.roles@[k].id@),
        strictly_sorted(views(v.grantable_permissions@)),
        forall|p: Seq<char>|
            views(v.grantable_permissions@).contains(p) <==> grantable(
                user_models(users@),
                row_models(permission_rows@),
                actor_id@,
                p,
            ),
{
    let rows = permission_rows;
    let ghost rm = row_models(rows@);
    // the roles named by the rows
    let mut names: Vec<String> = Vec::new();
    let mut j: usize = 0;
    while j < rows.len()
        invariant
            j <= rows.len(),
            rm == row_models(rows@),
            views(names@) == row_roles(rm).take(j as int),
        decreases rows.len() - j,
    {
        let ghost before = views(names@);
        names.push(rows[j].0.clone());
        assert(row_roles(rm)[j as int] == rows@[j as int].0@);
        assert(views(names@) =~= before.push(rows@[j as int].0@));
        assert(views(names@) =~= row_roles(rm).take(j + 1));
        j = j + 1;
    }
    assert(row_roles(rm).take(rows.len() as int) =~= row_roles(rm));
    let keys = sorted_unique(names);
    // one role per name
    let mut roles: Vec<RoleItem> = Vec::new();
    let mut k: usize = 0;
    while k < keys.len()
        invariant
            k <= keys.len(),
            rm == row_models(rows@),
            roles@.len() == k,
            forall|q: int|
                0 <= q < k ==> (#[trigger] roles@[q]).id@ == keys@[q]@ && views(
                    roles@[q].permissions@,
                ) == perms_of(rm, keys@[q]@) && roles@[q].member_count == holders(
                    user_models(users@),
                    keys@[q]@,
                ),
        decreases keys.len() - k,
    {
        let permissions = collect_permissions(&rows, &keys[k]);
        let member_count = count_holders(&users, &keys[k]);
        roles.push(RoleItem { id: keys[k].clone(), permissions, member_count });
        k = k + 1;
    }
    let ghost ids = role_ids(roles@);
    assert(ids =~= views(keys@));
    // what the actor may grant
    let mut granted: Vec<String> = Vec::new();
    granted.push("workspace:view".to_owned());
    let actor = find_member(&users, actor_id);
    let ghost um = user_models(users@);
    proof {
        assert(views(granted@) =~= seq![base_permission()]);
        assert forall|p: Seq<char>| views(granted@).contains(p) <==> p == base_permission() by {
            if p == base_permission() {
                assert(views(granted@)[0] == p);
            }
        }
    }
    match actor {
        Some(a) => {
            let mut q: usize = 0;
            while q < roles.len()
                invariant
                    q <= roles.len(),
                    a < users.len(),
                    um == user_models(users@),
                    rm == row_models(rows@),
                    roles@.len() == keys@.len(),
                    forall|t: int|
                        0 <= t < roles@.len() ==> (#[trigger] roles@[t]).id@ == keys@[t]@
                            && views(roles@[t].permissions@) == perms_of(rm, keys@[t]@),
                    forall|p: Seq<char>|
                        views(granted@).contains(p) <==> (p == base_permission() || exists|t: int|
                            0 <= t < q && um[a as int].roles.contains(keys@[t]@) && perms_of(
                                rm,
                                keys@[t]@,
                            ).contains(p)),
                decreases roles.len() - q,
            {
                let ghost before = views(granted@);
                if contains_str(&users[a].roles, roles[q].id.as_str()) {
                    let mut e: usize = 0;
                    while e < roles[q].permissions.len()
                        invariant
                            q < roles.len(),
                            e <= roles@[q as int].permissions@.len(),
                            views(granted@) =~= before + views(roles@[q as int].permissions@).take(
                                e as int,
                            ),
                        decreases roles@[q as int].permissions@.len() - e,
                    {
                        let ghost prior = views(granted@);
                        granted.push(roles[q].permissions[e].clone());
                        assert(views(granted@) =~= prior.push(roles@[q as int].permissions@[e as int]@));
                        assert(views(roles@[q as int].permissions@).take(e + 1) =~= views(
                            roles@[q as int].permissions@,
                        ).take(e as int).push(roles@[q as int].permissions@[e as int]@));
                        e = e + 1;
                    }
                }
                proof {
                    assert(views(roles@[q as int].permissions@).take(
                        roles@[q as int].permissions@.len() as int,
                    ) =~= views(roles@[q as int].permissions@));
                    let has = um[a as int].roles.contains(keys@[q as int]@);
                    assert(um[a as int].roles == views(users@[a as int].roles@));
                    assert forall|p: Seq<char>|
                        views(granted@).contains(p) <==> (p == base_permission() || exists|t: int|
                            0 <= t < q + 1 && um[a as int].roles.contains(keys@[t]@) && perms_of(
                                rm,
                                keys@[t]@,
                            ).contains(p)) by {
                        let now = views(granted@);
                        let added = perms_of(rm, keys@[q as int]@);
                        if has {
                            assert(now =~= before + added);
                            if now.contains(p) {
                                let i = choose|i: int| 0 <= i < now.len() && now[i] == p;
                                if i >= before.len() {
                                    assert(added[i - before.len()] == p);
                                } else {
                                    assert(before[i] == p);
                                }
                            }
                            if added.contains(p) {
                                let i = choose|i: int| 0 <= i < added.len() && added[i] == p;
                                assert(now[before.len() + i] == p);
                            }
                            if before.contains(p) {
                                let i = choose|i: int| 0 <= i < before.len() && before[i] == p;
                                assert(now[i] == p);
                            }
                        } else {
                            assert(now =~= before);
                        }
                    }
                }
                q = q + 1;
            }
            proof {
                assert forall|p: Seq<char>|
                    views(granted@).contains(p) <==> grantable(um, rm, actor_id@, p) by {
                    if exists|t: int|
                        0 <= t < roles@.len() && um[a as int].roles.contains(keys@[t]@)
                            && perms_of(rm, keys@[t]@).contains(p) {
                        let t = choose|t: int|
                            0 <= t < roles@.len() && um[a as int].roles.contains(keys@[t]@)
                                && perms_of(rm, keys@[t]@).contains(p);
                        lemma_perms_of_contains(rm, keys@[t]@, p);
                        let j = choose|j: int| 0 <= j < rm.len() && #[trigger] rm[j] == (keys@[t]@, p);
                        assert(rm[j].1 == p);
                        assert(first_with_id(um, actor_id@, a as int));
                    }
                    if exists|i: int, j: int|
                        #![trigger first_with_id(um, actor_id@, i), rm[j]]
                        first_with_id(um, actor_id@, i) && 0 <= j < rm.len() && rm[j].1 == p
                            && um[i].roles.contains(rm[j].0) {
                        let (i, j) = choose|i: int, j: int|
                            #![trigger first_with_id(um, actor_id@, i), rm[j]]
                            first_with_id(um, actor_id@, i) && 0 <= j < rm.len() && rm[j].1
                                == p && um[i].roles.contains(rm[j].0);
                        assert(i == a);
                        assert(row_roles(rm)[j] == rm[j].0);
                        assert(views(keys@).contains(rm[j].0));
                        let t = choose|t: int| 0 <= t < views(keys@).len() && views(keys@)[t] == rm[j].0;
                        assert(rm[j] == (keys@[t]@, p));
                        lemma_perms_of_contains(rm, keys@[t]@, p);
                    }
                }
            }
        },
        None => {
            proof {
                assert forall|p: Seq<char>|
                    views(granted@).contains(p) <==> grantable(um, rm, actor_id@, p) by {
                    if exists|i: int, j: int|
                        #![trigger first_with_id(um, actor_id@, i), rm[j]]
                        first_with_id(um, actor_id@, i) && 0 <= j < rm.len() && rm[j].1 == p
                            && um[i].roles.contains(rm[j].0) {
                        let (i, j) = choose|i: int, j: int|
                            #![trigger first_with_id(um, actor_id@, i), rm[j]]
                            first_with_id(um, actor_id@, i) && 0 <= j < rm.len() && rm[j].1
                                == p && um[i].roles.contains(rm[j].0);
                        assert(users@[i].id@ == um[i].id);
                        assert(false);
                    }
                }
            }
        },
    }
    let grantable_permissions = sorted_unique(granted);
    AccessControlView {
        users,
        roles,
        current_user_id: actor_id.to_owned(),
        grantable_permissions,
    }
}

} // verus!
