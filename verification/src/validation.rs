//! The shape of role ids, permissions and display names.
use vstd::prelude::*;

use crate::error::AccessError;
use crate::text::{
    ascii_alnum, chars_of, is_ascii_alnum, lemma_less_irreflexive, same_elements, sorted_unique,
    strictly_sorted, trim, trimmed, views,
};

verus! {

/// Characters allowed in a role id.
pub open spec fn role_id_char(c: char) -> bool {
    is_ascii_alnum(c) || c == '-' || c == '_'
}

/// A role id: 1 to 64 letters, digits, hyphens or underscores.
pub open spec fn valid_role_id(role: Seq<char>) -> bool {
    &&& 0 < role.len() <= 64
    &&& forall|i: int| 0 <= i < role.len() ==> role_id_char(#[trigger] role[i])
}

/// Characters allowed in a permission.
pub open spec fn permission_char(c: char) -> bool {
    is_ascii_alnum(c) || c == ':' || c == '-' || c == '_' || c == '.'
}

/// The first `:` of `p` has something on both sides (`domain:action`).
pub open spec fn domain_action(p: Seq<char>) -> bool {
    exists|i: int|
        0 < i && i + 1 < p.len() && #[trigger] p[i] == ':' && forall|j: int|
            0 <= j < i ==> p[j] != ':'
}

/// A permission: at most 128 allowed characters in the form `domain:action`.
pub open spec fn valid_permission(p: Seq<char>) -> bool {
    &&& p.len() <= 128
    &&& domain_action(p)
    &&& forall|i: int| 0 <= i < p.len() ==> permission_char(#[trigger] p[i])
}

/// Whether every permission of a list is well formed.
pub open spec fn all_valid_permissions(ps: Seq<String>) -> bool {
    forall|i: int| 0 <= i < ps.len() ==> valid_permission(#[trigger] ps[i]@)
}

pub fn check_role_id(role: &str) -> (r: bool)
    ensures
        r == valid_role_id(role@),
{
    let c = chars_of(role);
    if c.len() == 0 || c.len() > 64 {
        return false;
    }
    let mut i: usize = 0;
    while i < c.len()
        invariant
            c@ == role@,
            i <= c.len(),
            forall|k: int| 0 <= k < i ==> role_id_char(c@[k]),
        decreases c.len() - i,
    {
        let ch = c[i];
        if !(ascii_alnum(ch) || ch == '-' || ch == '_') {
            return false;
        }
        i = i + 1;
    }
    true
}

pub fn check_permission(p: &str) -> (r: bool)
    ensures
        r == valid_permission(p@),
{
    let c = chars_of(p);
    if c.len() > 128 {
        return false;
    }
    let mut i: usize = 0;
    while i < c.len()
        invariant
            c@ == p@,
            i <= c.len(),
            forall|k: int| 0 <= k < i ==> permission_char(c@[k]),
        decreases c.len() - i,
    {
        let ch = c[i];
        if !(ascii_alnum(ch) || ch == ':' || ch == '-' || ch == '_' || ch == '.') {
            return false;
        }
        i = i + 1;
    }
    let mut colon: usize = 0;
    while colon < c.len() && c[colon] != ':'
        invariant
            c@ == p@,
            colon <= c.len(),
            forall|k: int| 0 <= k < colon ==> c@[k] != ':',
        decreases c.len() - colon,
    {
        colon = colon + 1;
    }
    if colon < c.len() && 0 < colon && colon + 1 < c.len() {
        assert(p@[colon as int] == ':');
        true
    } else {
        proof {
            if domain_action(p@) {
                let w = choose|w: int|
                    0 < w && w + 1 < p@.len() && #[trigger] p@[w] == ':' && forall|j: int|
                        0 <= j < w ==> p@[j] != ':';
                if w < colon {
                } else if w > colon {
                    assert(p@[colon as int] != ':');
                }
            }
        }
        false
    }
}

/// Why a role id and its permission list are refused, checked in this order:
/// the id, the number of permissions, then each permission.
pub open spec fn validation_error(role: Seq<char>, permissions: Seq<String>) -> Option<AccessError> {
    if !valid_role_id(role) {
        Some(AccessError::InvalidRoleId)
    } else if !(0 < permissions.len() <= 128) {
        Some(AccessError::PermissionCount)
    } else if !all_valid_permissions(permissions) {
        Some(AccessError::InvalidPermission)
    } else {
        None
    }
}

/// Checks a role id and its permissions and gives the permissions sorted and
/// without repetition.
pub fn validate(role: &str, permissions: &[String]) -> (r: Result<Vec<String>, AccessError>)
    ensures
        match validation_error(role@, permissions@) {
            Some(e) => r == Err::<Vec<String>, AccessError>(e),
            None => r matches Ok(v) && strictly_sorted(views(v@)) && same_elements(
                views(v@),
                views(permissions@),
            ),
        },
{
    if !check_role_id(role) {
        return Err(AccessError::InvalidRoleId);
    }
    if permissions.len() == 0 || permissions.len() > 128 {
        return Err(AccessError::PermissionCount);
    }
    let mut copy: Vec<String> = Vec::new();
    let mut i: usize = 0;
    while i < permissions.len()
        invariant
            valid_role_id(role@),
            0 < permissions@.len() <= 128,
            i <= permissions@.len(),
            copy@ == permissions@.take(i as int),
            forall|k: int| 0 <= k < i ==> valid_permission(permissions@[k]@),
        decreases permissions@.len() - i,
    {
        if !check_permission(permissions[i].as_str()) {
            return Err(AccessError::InvalidPermission);
        }
        copy.push(permissions[i].clone());
        assert(copy@ =~= permissions@.take(i + 1));
        i = i + 1;
    }
    assert(copy@ =~= permissions@);
    Ok(sorted_unique(copy))
}

/// A display name once trimmed: 1 to 96 characters.
pub open spec fn valid_display_name(name: Seq<char>) -> bool {
    0 < trimmed(name).len() <= 96
}

/// Trims a display name and checks its length.
pub fn normalize_display_name(name: &str) -> (r: Result<String, AccessError>)
    ensures
        valid_display_name(name@) ==> (r matches Ok(t) && t@ == trimmed(name@)),
        !valid_display_name(name@) ==> r == Err::<String, AccessError>(
            AccessError::InvalidDisplayName,
        ),
{
    let t = trim(name);
    let n = t.as_str().unicode_len();
    if n == 0 || n > 96 {
        Err(AccessError::InvalidDisplayName)
    } else {
        Ok(t)
    }
}


/// The permissions that validation gives back pass validation again with the
/// same role id, and there are no more of them than were given: a role read
/// back can be saved again unchanged.
pub proof fn law_validated_permissions_validate(role: Seq<char>, ps: Seq<String>, v: Seq<String>)
    requires
        validation_error(role, ps) is None,
        strictly_sorted(views(v)),
        same_elements(views(v), views(ps)),
    ensures
        validation_error(role, v) is None,
        v.len() <= ps.len(),
{
    let a = views(v);
    let b = views(ps);
    assert forall|i: int, j: int| 0 <= i < a.len() && 0 <= j < a.len() && i != j implies a[i]
        != a[j] by {
        if i < j {
            assert(crate::text::seq_less(a[i], a[j]));
        } else {
            assert(crate::text::seq_less(a[j], a[i]));
        }
        if a[i] == a[j] {
            lemma_less_irreflexive(a[i]);
        }
    }
    assert(a.no_duplicates());
    a.unique_seq_to_set();
    assert(a.to_set() =~= b.to_set());
    b.lemma_cardinality_of_set();
    assert(b[0] == ps[0]@);
    assert(b.contains(b[0]));
    assert(a.contains(b[0]));
    assert forall|i: int| 0 <= i < v.len() implies valid_permission(#[trigger] v[i]@) by {
        assert(a[i] == v[i]@);
        assert(a.contains(a[i]));
        assert(b.contains(a[i]));
        let k = choose|k: int| 0 <= k < b.len() && b[k] == a[i];
        assert(b[k] == ps[k]@);
    }
}

} // verus!
