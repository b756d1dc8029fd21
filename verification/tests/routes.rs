use aio_plugin_rbac::error::AccessError;
use aio_plugin_rbac::routes::{authorize_manager, check_role_path, AccessControlHttpError};

#[test]
fn callers_need_a_session_with_rbac_manage() {
    let e = authorize_manager(None).unwrap_err();
    assert_eq!((e.status, e.message.as_str()), (401, "会话无效或已过期"));
    let viewer = vec!["workspace:view".to_string()];
    let e = authorize_manager(Some(&viewer)).unwrap_err();
    assert_eq!((e.status, e.message.as_str()), (403, "当前角色没有权限管理权限"));
    let manager = vec!["workspace:view".to_string(), "rbac:manage".into()];
    assert!(authorize_manager(Some(&manager)).is_ok());
}

#[test]
fn role_ids_cannot_change_on_update() {
    assert!(check_role_path("editor", "editor").is_ok());
    let e = check_role_path("editor", "writer").unwrap_err();
    assert_eq!((e.status, e.message.as_str()), (403, "角色 ID 不可更改"));
}

#[test]
fn rule_refusals_are_bad_requests() {
    let e = AccessControlHttpError::from_access(AccessError::RoleInUse);
    assert_eq!(e.status, 400);
    assert_eq!(e.message, "角色仍分配给用户，请先撤销该角色分配");
}
