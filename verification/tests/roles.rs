use aio_plugin_rbac::error::AccessError;
use aio_plugin_rbac::validation::{check_permission, check_role_id, normalize_display_name, validate};

#[test]
fn validates_roles_and_deduplicates_permissions() {
    assert_eq!(
        validate("editor", &["file:manage".into(), "file:manage".into()])
            .unwrap()
            .len(),
        1
    );
    assert!(validate("bad/id", &["file:manage".into()]).is_err());
    assert!(validate("editor", &["file:".into()]).is_err());
    assert!(validate("editor", &[]).is_err());
}

#[test]
fn validate_sorts_and_deduplicates() {
    let out = validate(
        "editor",
        &["tenant:manage".into(), "file:manage".into(), "tenant:manage".into(), "a:b".into()],
    )
    .unwrap();
    assert_eq!(out, vec!["a:b".to_string(), "file:manage".into(), "tenant:manage".into()]);
}

#[test]
fn validate_reports_each_refusal() {
    assert_eq!(validate("", &["a:b".into()]), Err(AccessError::InvalidRoleId));
    assert_eq!(validate(&"x".repeat(65), &["a:b".into()]), Err(AccessError::InvalidRoleId));
    assert!(validate(&"x".repeat(64), &["a:b".into()]).is_ok());
    assert_eq!(validate("编辑", &["a:b".into()]), Err(AccessError::InvalidRoleId));
    assert_eq!(validate("editor", &[]), Err(AccessError::PermissionCount));
    let many: Vec<String> = (0..129).map(|i| format!("p:{i}")).collect();
    assert_eq!(validate("editor", &many), Err(AccessError::PermissionCount));
    assert_eq!(validate("editor", &many[..128]).unwrap().len(), 128);
    assert_eq!(validate("editor", &["file".into()]), Err(AccessError::InvalidPermission));
    assert_eq!(validate("editor", &[":manage".into()]), Err(AccessError::InvalidPermission));
    assert_eq!(validate("bad id", &[":manage".into()]), Err(AccessError::InvalidRoleId));
}

#[test]
fn role_id_and_permission_shapes() {
    assert!(check_role_id("tenant-admin_2"));
    assert!(!check_role_id("tenant admin"));
    assert!(check_permission("a:b:c"));
    assert!(check_permission("a::"));
    assert!(!check_permission("a:"));
    assert!(check_permission("plugin.x:manage-all_1"));
    assert!(!check_permission("file:manage!"));
    assert!(check_permission(&format!("a:{}", "b".repeat(126))));
    assert!(!check_permission(&format!("a:{}", "b".repeat(127))));
}

#[test]
fn display_names_are_trimmed_and_bounded() {
    assert_eq!(normalize_display_name("  新的租户昵称\t").unwrap(), "新的租户昵称");
    assert_eq!(normalize_display_name(" \u{3000} "), Err(AccessError::InvalidDisplayName));
    assert_eq!(normalize_display_name(&"名".repeat(96)).unwrap().chars().count(), 96);
    assert_eq!(normalize_display_name(&"名".repeat(97)), Err(AccessError::InvalidDisplayName));
}

#[test]
fn validated_permissions_validate_again_unchanged() {
    let once = validate("editor", &["b:c".into(), "a:b".into(), "b:c".into()]).unwrap();
    let twice = validate("editor", &once).unwrap();
    assert_eq!(once, twice);
}
