use aio_plugin_rbac::error::AccessError;
use aio_plugin_rbac::model::{is_system_role, permission_label};

#[test]
fn system_roles_are_the_three_built_in_ones() {
    assert!(is_system_role("platform-admin"));
    assert!(is_system_role("tenant-admin"));
    assert!(is_system_role("member"));
    assert!(!is_system_role("editor"));
    assert!(!is_system_role("Member"));
}

#[test]
fn permission_labels_name_known_permissions() {
    assert_eq!(permission_label("workspace:view"), "访问工作区");
    assert_eq!(permission_label("rbac:manage"), "管理用户与角色");
    assert_eq!(permission_label("tenant:manage"), "管理租户");
    assert_eq!(permission_label("plugin:manage"), "管理插件");
    assert_eq!(permission_label("dictionary:manage"), "管理字典");
    assert_eq!(permission_label("file:manage"), "管理文件");
    assert_eq!(permission_label("report:export"), "report:export");
}

#[test]
fn error_messages() {
    assert_eq!(AccessError::RoleExists.message(), "角色已存在");
    assert_eq!(AccessError::LastManager.message(), "不能移除当前租户最后一个权限管理员");
    assert_eq!(AccessError::RemoveSelf.message(), "不能将自己移出当前租户");
}
