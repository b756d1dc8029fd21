//! The data exchanged between the access-control server and its admin pages,
//! with the built-in role names and the display labels of permissions.
use vstd::prelude::*;

use crate::text::{str_eq, views};

verus! {

/// Everything the admin pages show for one tenant.
#[derive(Clone, Debug, PartialEq, Eq)]
pub struct AccessControlView {
    pub users: Vec<UserItem>,
    pub roles: Vec<RoleItem>,
    pub current_user_id: String,
    pub grantable_permissions: Vec<String>,
}

/// A member of the tenant with the roles assigned to it there.
#[derive(Clone, Debug, PartialEq, Eq)]
pub struct UserItem {
    pub id: String,
    pub account: String,
    pub display_name: String,
    pub roles: Vec<String>,
}

/// A role of the tenant, its permissions and how many members hold it.
#[derive(Clone, Debug, PartialEq, Eq)]
pub struct RoleItem {
    pub id: String,
    pub permissions: Vec<String>,
    pub member_count: usize,
}

#[derive(Clone, Debug, PartialEq, Eq)]
pub struct CreateUserRequest {
    pub account: String,
    pub display_name: String,
    pub password: String,
}

#[derive(Clone, Debug, PartialEq, Eq)]
pub struct CreateRoleRequest {
    pub role_id: String,
    pub permissions: Vec<String>,
}

#[derive(Clone, Debug, PartialEq, Eq)]
pub struct AssignRoleRequest {
    pub user_id: String,
    pub role_id: String,
}

#[derive(Clone, Debug, PartialEq, Eq)]
pub struct UpdateMemberRequest {
    pub display_name: String,
}

#[derive(Clone, Debug, PartialEq, Eq)]
pub struct UpdateMemberRolesRequest {
    pub roles: Vec<String>,
}

/// The envelope of a successful answer.
#[derive(Clone, Debug, PartialEq, Eq)]
pub struct AccessControlResponse<T> {
    pub data: T,
}

/// The envelope of a refused request.
#[derive(Clone, Debug, PartialEq, Eq)]
pub struct AccessControlErrorResponse {
    pub error: String,
}

/// A member as character sequences.
pub struct UserModel {
    pub id: Seq<char>,
    pub account: Seq<char>,
    pub display_name: Seq<char>,
    pub roles: Seq<Seq<char>>,
}

/// A role as character sequences.
pub struct RoleModel {
    pub id: Seq<char>,
    pub permissions: Seq<Seq<char>>,
    pub member_count: nat,
}

impl View for UserItem {
    type V = UserModel;

    open spec fn view(&self) -> UserModel {
        UserModel {
            id: self.id@,
            account: self.account@,
            display_name: self.display_name@,
            roles: views(self.roles@),
        }
    }
}

impl View for RoleItem {
    type V = RoleModel;

    open spec fn view(&self) -> RoleModel {
        RoleModel {
            id: self.id@,
            permissions: views(self.permissions@),
            member_count: self.member_count as nat,
        }
    }
}

/// The members of a list as models.
pub open spec fn user_models(users: Seq<UserItem>) -> Seq<UserModel> {
    users.map_values(|u: UserItem| u@)
}

/// The roles of a list as models.
pub open spec fn role_models(roles: Seq<RoleItem>) -> Seq<RoleModel> {
    roles.map_values(|r: RoleItem| r@)
}

/// The roles that every tenant has and that cannot be edited or deleted.
pub open spec fn system_role(id: Seq<char>) -> bool {
    id == "platform-admin"@ || id == "tenant-admin"@ || id == "member"@
}

pub fn is_system_role(id: &str) -> (r: bool)
    ensures
        r == system_role(id@),
{
    str_eq(id, "platform-admin") || str_eq(id, "tenant-admin") || str_eq(id, "member")
}

/// The label shown for a permission: a fixed text for the known ones, the
/// permission itself otherwise.
pub open spec fn label_of(permission: Seq<char>) -> Seq<char> {
    if permission == "workspace:view"@ {
        "访问工作区"@
    } else if permission == "rbac:manage"@ {
        "管理用户与角色"@
    } else if permission == "tenant:manage"@ {
        "管理租户"@
    } else if permission == "plugin:manage"@ {
        "管理插件"@
    } else if permission == "dictionary:manage"@ {
        "管理字典"@
    } else if permission == "file:manage"@ {
        "管理文件"@
    } else {
        permission
    }
}

pub fn permission_label(permission: &str) -> (r: &str)
    ensures
        r@ == label_of(permission@),
{
    if str_eq(permission, "workspace:view") {
        "访问工作区"
    } else if str_eq(permission, "rbac:manage") {
        "管理用户与角色"
    } else if str_eq(permission, "tenant:manage") {
        "管理租户"
    } else if str_eq(permission, "plugin:manage") {
        "管理插件"
    } else if str_eq(permission, "dictionary:manage") {
        "管理字典"
    } else if str_eq(permission, "file:manage") {
        "管理文件"
    } else {
        permission
    }
}


/// The permissions given to the `platform-admin` and `tenant-admin` roles
/// wherever someone holds them when the plugin starts; the `member` role is
/// given `workspace:view`.
pub fn administrator_permissions() -> (ps: Vec<&'static str>)
    ensures
        ps@.len() == 5,
        ps@[0]@ == "plugin:manage"@,
        ps@[1]@ == "tenant:manage"@,
        ps@[2]@ == "rbac:manage"@,
        ps@[3]@ == "dictionary:manage"@,
        ps@[4]@ == "file:manage"@,
{
    let mut ps: Vec<&'static str> = Vec::new();
    ps.push("plugin:manage");
    ps.push("tenant:manage");
    ps.push("rbac:manage");
    ps.push("dictionary:manage");
    ps.push("file:manage");
    ps
}

} // verus!
