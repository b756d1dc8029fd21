//! What the admin pages compute: their place in the admin shell, the
//! permission list typed in a dialog, the selections of the role and
//! permission check boxes, the texts that tables search, and the message of a
//! refused request.
use vstd::prelude::*;

use crate::model::{RoleItem, UserItem, label_of, permission_label};
use crate::text::{chars_of, str_eq, trim, trimmed, views};

verus! {

// ---------------------------------------------------------------------------
// Pages
// ---------------------------------------------------------------------------
/// A scene of the admin shell.
pub struct SceneSpec {
    pub id: &'static str,
    pub label: &'static str,
}

/// A group of the admin shell's menu.
pub struct MenuGroupSpec {
    pub id: String,
    pub label: String,
    pub icon: Option<String>,
}

/// A page that the plugin adds to the admin shell (its component is chosen
/// by its id).
pub struct PageSpec {
    pub id: &'static str,
    pub label: &'static str,
    pub icon: Option<&'static str>,
    pub scene: SceneSpec,
    pub menu_path: Vec<MenuGroupSpec>,
    pub required_permission: Option<&'static str>,
}

/// The client plugin of access control.
#[derive(Debug)]
pub struct AccessControlPlugin;

/// The scene "系统" with id `system`.
pub open spec fn is_system_scene(s: SceneSpec) -> bool {
    s.id@ == "system"@ && s.label@ == "系统"@
}

/// The menu path made of the one group "系统管理" (`system-management`, icon
/// `settings`).
pub open spec fn is_system_management_path(p: Seq<MenuGroupSpec>) -> bool {
    &&& p.len() == 1
    &&& p[0].id@ == "system-management"@
    &&& p[0].label@ == "系统管理"@
    &&& p[0].icon matches Some(i) && i@ == "settings"@
}

pub fn system_scene() -> (s: SceneSpec)
    ensures
        is_system_scene(s),
{
    SceneSpec { id: "system", label: "系统" }
}

pub fn system_management_path() -> (p: Vec<MenuGroupSpec>)
    ensures
        is_system_management_path(p@),
{
    let mut p: Vec<MenuGroupSpec> = Vec::new();
    p.push(
        MenuGroupSpec {
            id: "system-management".to_owned(),
            label: "系统管理".to_owned(),
            icon: Some("settings".to_owned()),
        },
    );
    p
}

impl AccessControlPlugin {
    /// The users page and the roles page, both in the system scene under
    /// "系统管理" and both requiring `rbac:manage`.
    pub fn pages(&self) -> (pages: Vec<PageSpec>)
        ensures
            pages@.len() == 2,
            pages@[0].id@ == "users"@,
            pages@[0].label@ == "用户管理"@,
            pages@[0].icon matches Some(i) && i@ == "user"@,
            pages@[1].id@ == "roles"@,
            pages@[1].label@ == "角色管理"@,
            pages@[1].icon matches Some(i) && i@ == "shield"@,
            forall|k: int|
                0 <= k < 2 ==> is_system_scene(#[trigger] pages@[k].scene)
                    && is_system_management_path(pages@[k].menu_path@)
                    && (pages@[k].required_permission matches Some(q) && q@ == "rbac:manage"@),
    {
        let mut pages: Vec<PageSpec> = Vec::new();
        pages.push(
            PageSpec {
                id: "users",
                label: "用户管理",
                icon: Some("user"),
                scene: system_scene(),
                menu_path: system_management_path(),
                required_permission: Some("rbac:manage"),
            },
        );
        pages.push(
            PageSpec {
                id: "roles",
                label: "角色管理",
                icon: Some("shield"),
                scene: system_scene(),
                menu_path: system_management_path(),
                required_permission: Some("rbac:manage"),
            },
        );
        pages
    }
}

// ---------------------------------------------------------------------------
// The permission list of the new-role dialog
// ---------------------------------------------------------------------------
/// The pieces of `s` between the separators (`str::split`): one more piece
/// than there are separators.
pub open spec fn split_on(s: Seq<char>, sep: char) -> Seq<Seq<char>>
    decreases s.len(),
{
    if s.len() == 0 {
        seq![Seq::empty()]
    } else {
        let prev = split_on(s.drop_last(), sep);
        if s.last() == sep {
            prev.push(Seq::empty())
        } else {
            prev.update(prev.len() - 1, prev.last().push(s.last()))
        }
    }
}

/// The pieces trimmed, without the empty ones.
pub open spec fn listed(pieces: Seq<Seq<char>>) -> Seq<Seq<char>>
    decreases pieces.len(),
{
    if pieces.len() == 0 {
        Seq::empty()
    } else {
        let prev = listed(pieces.drop_last());
        let t = trimmed(pieces.last());
        if t.len() > 0 {
            prev.push(t)
        } else {
            prev
        }
    }
}

proof fn lemma_split_step(s: Seq<char>, sep: char, i: int, start: int, done: Seq<Seq<char>>)
    requires
        0 <= start <= i < s.len(),
        split_on(s.take(i), sep) == done.push(s.subrange(start, i)),
    ensures
        s[i] == sep ==> split_on(s.take(i + 1), sep) == done.push(s.subrange(start, i)).push(
            s.subrange(i + 1, i + 1),
        ),
        s[i] != sep ==> split_on(s.take(i + 1), sep) == done.push(s.subrange(start, i + 1)),
{
    let t = s.take(i + 1);
    assert(t.drop_last() =~= s.take(i));
    assert(t.last() == s[i]);
    assert(s.subrange(i + 1, i + 1) =~= Seq::<char>::empty());
    let prev = done.push(s.subrange(start, i));
    if s[i] != sep {
        assert(s.subrange(start, i).push(s[i]) =~= s.subrange(start, i + 1));
        assert(prev.update(prev.len() - 1, prev.last().push(s[i])) =~= done.push(
            s.subrange(start, i + 1),
        ));
    }
}

/// The permissions typed in the new-role dialog: the comma-separated pieces,
/// trimmed, without the empty ones.
pub fn parse_permission_list(input: &str) -> (r: Vec<String>)
    ensures
        views(r@) == listed(split_on(input@, ',')),
{
    let c = chars_of(input);
    let mut res: Vec<String> = Vec::new();
    let mut start: usize = 0;
    let mut i: usize = 0;
    let ghost mut done: Seq<Seq<char>> = Seq::empty();
    assert(input@.take(0) =~= Seq::<char>::empty());
    assert(split_on(input@.take(0), ',') =~= done.push(input@.subrange(0, 0)));
    while i < c.len()
        invariant
            c@ == input@,
            start <= i <= c.len(),
            split_on(input@.take(i as int), ',') == done.push(input@.subrange(start as int, i as int)),
            views(res@) == listed(done),
        decreases c.len() - i,
    {
        proof {
            lemma_split_step(input@, ',', i as int, start as int, done);
        }
        if c[i] == ',' {
            let piece = trim(input.substring_char(start, i));
            let ghost whole = done.push(input@.subrange(start as int, i as int));
            assert(whole.drop_last() =~= done);
            if piece.as_str().unicode_len() > 0 {
                res.push(piece);
                assert(views(res@) =~= listed(whole));
            }
            proof {
                done = whole;
            }
            start = i + 1;
        }
        i = i + 1;
    }
    let piece = trim(input.substring_char(start, c.len()));
    let ghost whole = done.push(input@.subrange(start as int, c.len() as int));
    assert(whole.drop_last() =~= done);
    assert(input@.take(c.len() as int) =~= input@);
    if piece.as_str().unicode_len() > 0 {
        res.push(piece);
        assert(views(res@) =~= listed(whole));
    }
    res
}

// ---------------------------------------------------------------------------
// Check-box selections
// ---------------------------------------------------------------------------
/// `s` without the strings equal to `v`, in order.
pub open spec fn without(s: Seq<Seq<char>>, v: Seq<char>) -> Seq<Seq<char>>
    decreases s.len(),
{
    if s.len() == 0 {
        Seq::empty()
    } else {
        let prev = without(s.drop_last(), v);
        if s.last() == v {
            prev
        } else {
            prev.push(s.last())
        }
    }
}

/// The selection once the box of `v` is set to `checked`: `v` removed, then
/// appended if checked.
pub open spec fn toggled(s: Seq<Seq<char>>, v: Seq<char>, checked: bool) -> Seq<Seq<char>> {
    without(s, v) + if checked {
        seq![v]
    } else {
        Seq::empty()
    }
}

proof fn lemma_without_contains(s: Seq<Seq<char>>, v: Seq<char>, x: Seq<char>)
    ensures
        without(s, v).contains(x) <==> (x != v && s.contains(x)),
    decreases s.len(),
{
    if s.len() > 0 {
        let init = s.drop_last();
        lemma_without_contains(init, v, x);
        let prev = without(init, v);
        if without(s, v).contains(x) {
            if prev.contains(x) {
                let k = choose|k: int| 0 <= k < init.len() && init[k] == x;
                assert(s[k] == x);
            } else {
                assert(s.last() == x);
                assert(s[s.len() - 1] == x);
            }
        }
        if x != v && s.contains(x) {
            let k = choose|k: int| 0 <= k < s.len() && s[k] == x;
            if k < s.len() - 1 {
                assert(init[k] == x);
                let j = choose|j: int| 0 <= j < prev.len() && prev[j] == x;
                if s.last() != v {
                    assert(prev.push(s.last())[j] == x);
                }
            } else {
                assert(without(s, v).last() == x);
            }
        }
    }
}

proof fn lemma_without_absent(s: Seq<Seq<char>>, v: Seq<char>)
    requires
        !s.contains(v),
    ensures
        without(s, v) == s,
    decreases s.len(),
{
    if s.len() > 0 {
        let init = s.drop_last();
        assert forall|x: Seq<char>| init.contains(x) implies s.contains(x) by {
            let k = choose|k: int| 0 <= k < init.len() && init[k] == x;
            assert(s[k] == x);
        }
        lemma_without_absent(init, v);
        assert(s.last() != v) by {
            assert(s[s.len() - 1] == s.last());
        }
        assert(init.push(s.last()) =~= s);
    }
}

proof fn lemma_without_append(a: Seq<Seq<char>>, b: Seq<Seq<char>>, v: Seq<char>)
    ensures
        without(a + b, v) == without(a, v) + without(b, v),
    decreases b.len(),
{
    if b.len() == 0 {
        assert(a + b =~= a);
        assert(without(a, v) + without(b, v) =~= without(a, v));
    } else {
        lemma_without_append(a, b.drop_last(), v);
        assert((a + b).drop_last() =~= a + b.drop_last());
        assert((a + b).last() == b.last());
        if b.last() != v {
            assert(without(a, v) + without(b.drop_last(), v).push(b.last()) =~= (without(a, v)
                + without(b.drop_last(), v)).push(b.last()));
        }
    }
}

/// Sets the box of `value`: every copy of `value` leaves the selection and,
/// when `checked`, `value` is added at its end.
pub fn toggle_selection(selected: &mut Vec<String>, value: &str, checked: bool)
    ensures
        views(final(selected)@) == toggled(views(old(selected)@), value@, checked),
{
    let mut kept: Vec<String> = Vec::new();
    let mut i: usize = 0;
    while i < selected.len()
        invariant
            selected@ == old(selected)@,
            i <= selected.len(),
            views(kept@) == without(views(selected@).take(i as int), value@),
        decreases selected.len() - i,
    {
        let ghost before = views(kept@);
        if !str_eq(selected[i].as_str(), value) {
            kept.push(selected[i].clone());
        }
        proof {
            let s = views(selected@);
            assert(s.take(i + 1).drop_last() =~= s.take(i as int));
            assert(s.take(i + 1).last() == selected@[i as int]@);
            if selected@[i as int]@ != value@ {
                assert(views(kept@) =~= before.push(selected@[i as int]@));
            } else {
                assert(views(kept@) =~= before);
            }
        }
        i = i + 1;
    }
    assert(views(selected@).take(selected.len() as int) =~= views(selected@));
    let ghost w = views(kept@);
    if checked {
        kept.push(value.to_owned());
        assert(views(kept@) =~= w + seq![value@]);
    } else {
        assert(views(kept@) =~= w + Seq::<Seq<char>>::empty());
    }
    *selected = kept;
}

/// After setting the box of `v`, the selection holds `v` exactly when the box
/// is checked and holds every other string exactly when it did before.
pub proof fn law_toggle_membership(s: Seq<Seq<char>>, v: Seq<char>, checked: bool, x: Seq<char>)
    ensures
        toggled(s, v, checked).contains(x) <==> if x == v {
            checked
        } else {
            s.contains(x)
        },
{
    lemma_without_contains(s, v, x);
    let t = toggled(s, v, checked);
    let w = without(s, v);
    if t.contains(x) {
        let k = choose|k: int| 0 <= k < t.len() && t[k] == x;
        if k < w.len() {
            assert(w[k] == x);
        }
    }
    if w.contains(x) {
        let k = choose|k: int| 0 <= k < w.len() && w[k] == x;
        assert(t[k] == x);
    }
    if x == v && checked {
        assert(t[w.len() as int] == x);
    }
}

/// Setting a box twice to the same state is the same as setting it once.
pub proof fn law_toggle_idempotent(s: Seq<Seq<char>>, v: Seq<char>, checked: bool)
    ensures
        toggled(toggled(s, v, checked), v, checked) == toggled(s, v, checked),
{
    let w = without(s, v);
    lemma_without_contains(s, v, v);
    lemma_without_absent(w, v);
    let tail: Seq<Seq<char>> = if checked {
        seq![v]
    } else {
        Seq::empty()
    };
    lemma_without_append(w, tail, v);
    if checked {
        assert(seq![v].drop_last() =~= Seq::<Seq<char>>::empty());
        assert(without(Seq::<Seq<char>>::empty(), v) == Seq::<Seq<char>>::empty());
        assert(seq![v].last() == v);
        assert(without(seq![v], v) == Seq::<Seq<char>>::empty());
    }
    assert(without(w + tail, v) =~= w);
}

/// Checking then unchecking a box that was not checked gives back the
/// selection as it was.
pub proof fn law_check_then_uncheck(s: Seq<Seq<char>>, v: Seq<char>)
    requires
        !s.contains(v),
    ensures
        toggled(toggled(s, v, true), v, false) == s,
{
    law_toggle_idempotent(s, v, false);
    lemma_without_absent(s, v);
    let w = without(s, v);
    lemma_without_append(w, seq![v], v);
    assert(seq![v].drop_last() =~= Seq::<Seq<char>>::empty());
    assert(without(Seq::<Seq<char>>::empty(), v) == Seq::<Seq<char>>::empty());
    assert(seq![v].last() == v);
    assert(without(seq![v], v) == Seq::<Seq<char>>::empty());
    assert(toggled(s, v, true) == w + seq![v]);
    assert(without(w + seq![v], v) =~= without(w, v));
    assert(toggled(toggled(s, v, true), v, false) =~= without(w, v));
    assert(toggled(s, v, false) =~= w);
}

// ---------------------------------------------------------------------------
// Search texts
// ---------------------------------------------------------------------------
/// The strings joined with `sep` between them (`[T]::join`).
pub open spec fn joined(items: Seq<Seq<char>>, sep: Seq<char>) -> Seq<char>
    decreases items.len(),
{
    if items.len() == 0 {
        Seq::empty()
    } else if items.len() == 1 {
        items[0]
    } else {
        joined(items.drop_last(), sep) + sep + items.last()
    }
}

/// Each permission followed by a space and its label.
pub open spec fn labelled(permissions: Seq<Seq<char>>) -> Seq<Seq<char>> {
    permissions.map_values(|p: Seq<char>| p + " "@ + label_of(p))
}

/// The labels of the permissions.
pub open spec fn labels(permissions: Seq<Seq<char>>) -> Seq<Seq<char>> {
    permissions.map_values(|p: Seq<char>| label_of(p))
}

/// Appends `items` to `out` with `sep` between them.
fn append_joined(out: &mut String, items: &Vec<String>, sep: &str)
    ensures
        final(out)@ == old(out)@ + joined(views(items@), sep@),
{
    let mut i: usize = 0;
    while i < items.len()
        invariant
            i <= items.len(),
            out@ == old(out)@ + joined(views(items@).take(i as int), sep@),
        decreases items.len() - i,
    {
        let ghost before = out@;
        let ghost v = views(items@);
        assert(v.take(i + 1).drop_last() =~= v.take(i as int));
        if i > 0 {
            out.append(sep);
        }
        out.append(items[i].as_str());
        proof {
            assert(v.take(i + 1).last() == items@[i as int]@);
            if i == 0 {
                assert(v.take(1)[0] == items@[0]@);
                assert(v.take(0) =~= Seq::<Seq<char>>::empty());
                assert(out@ =~= old(out)@ + joined(v.take(1), sep@));
            } else {
                assert(out@ =~= old(out)@ + joined(v.take(i + 1), sep@));
            }
        }
        i = i + 1;
    }
    assert(views(items@).take(items.len() as int) =~= views(items@));
}

/// The text the roles table searches: the id, then each permission with its
/// label.
pub fn role_search_text(role: &RoleItem) -> (r: String)
    ensures
        r@ == role.id@ + " "@ + joined(labelled(views(role.permissions@)), " "@),
{
    let mut items: Vec<String> = Vec::new();
    let mut i: usize = 0;
    while i < role.permissions.len()
        invariant
            i <= role.permissions.len(),
            views(items@) == labelled(views(role.permissions@)).take(i as int),
        decreases role.permissions.len() - i,
    {
        let p = role.permissions[i].as_str();
        let mut item = p.to_owned();
        item.append(" ");
        item.append(permission_label(p));
        let ghost before = views(items@);
        assert(item@ == p@ + " "@ + label_of(p@));
        items.push(item);
        assert(views(role.permissions@)[i as int] == p@);
        assert(labelled(views(role.permissions@))[i as int] == p@ + " "@ + label_of(p@));
        assert(views(items@) =~= before.push(p@ + " "@ + label_of(p@)));
        assert(views(items@) =~= labelled(views(role.permissions@)).take(i + 1));
        i = i + 1;
    }
    assert(labelled(views(role.permissions@)).take(role.permissions.len() as int) =~= labelled(
        views(role.permissions@),
    ));
    let mut out = role.id.clone();
    out.append(" ");
    append_joined(&mut out, &items, " ");
    out
}

/// The text the users table searches: the display name, the account and the
/// roles.
pub fn user_search_text(user: &UserItem) -> (r: String)
    ensures
        r@ == user.display_name@ + " "@ + user.account@ + " "@ + joined(views(user.roles@), " "@),
{
    let mut out = user.display_name.clone();
    out.append(" ");
    out.append(user.account.as_str());
    out.append(" ");
    append_joined(&mut out, &user.roles, " ");
    out
}

/// The labels of a role's permissions as shown where roles are assigned.
pub fn permission_labels(permissions: &Vec<String>) -> (r: String)
    ensures
        r@ == joined(labels(views(permissions@)), "、"@),
{
    let mut items: Vec<String> = Vec::new();
    let mut i: usize = 0;
    while i < permissions.len()
        invariant
            i <= permissions.len(),
            views(items@) == labels(views(permissions@)).take(i as int),
        decreases permissions.len() - i,
    {
        let ghost before = views(items@);
        let l = permission_label(permissions[i].as_str()).to_owned();
        items.push(l);
        assert(views(permissions@)[i as int] == permissions@[i as int]@);
        assert(labels(views(permissions@))[i as int] == label_of(permissions@[i as int]@));
        assert(views(items@) =~= before.push(label_of(permissions@[i as int]@)));
        assert(views(items@) =~= labels(views(permissions@)).take(i + 1));
        i = i + 1;
    }
    assert(labels(views(permissions@)).take(permissions.len() as int) =~= labels(
        views(permissions@),
    ));
    let mut out = String::new();
    append_joined(&mut out, &items, "、");
    assert(out@ =~= joined(labels(views(permissions@)), "、"@));
    out
}

// ---------------------------------------------------------------------------
// Refused requests
// ---------------------------------------------------------------------------
/// The message shown for a refused request: the `error` of its JSON body
/// when the body is one, else the body itself.
pub fn response_error_text(body: String, parsed_error: Option<String>) -> (r: String)
    ensures
        r == match parsed_error {
            Some(e) => e,
            None => body,
        },
{
    match parsed_error {
        Some(e) => e,
        None => body,
    }
}

} // verus!
