use aio_plugin_rbac::model::UserItem;
use aio_plugin_rbac::view::build_view;

fn user(id: &str, roles: &[&str]) -> UserItem {
    UserItem {
        id: id.into(),
        account: format!("acc-{id}"),
        display_name: id.to_uppercase(),
        roles: roles.iter().map(|r| r.to_string()).collect(),
    }
}

fn row(role: &str, p: &str) -> (String, String) {
    (role.into(), p.into())
}

#[test]
fn view_groups_roles_counts_holders_and_lists_grantable_permissions() {
    let users = vec![user("u1", &["editor", "member"]), user("u2", &["member"]), user("u3", &[])];
    let rows = vec![
        row("member", "workspace:view"),
        row("editor", "file:manage"),
        row("editor", "dictionary:manage"),
        row("auditor", "report:view"),
    ];
    let v = build_view(users.clone(), rows, "u1");
    assert_eq!(v.users, users);
    assert_eq!(v.current_user_id, "u1");
    let ids: Vec<&str> = v.roles.iter().map(|r| r.id.as_str()).collect();
    assert_eq!(ids, vec!["auditor", "editor", "member"]);
    assert_eq!(v.roles[1].permissions, vec!["file:manage".to_string(), "dictionary:manage".into()]);
    assert_eq!(v.roles[0].member_count, 0);
    assert_eq!(v.roles[1].member_count, 1);
    assert_eq!(v.roles[2].member_count, 2);
    assert_eq!(
        v.grantable_permissions,
        vec!["dictionary:manage".to_string(), "file:manage".into(), "workspace:view".into()]
    );
}

#[test]
fn unknown_viewer_may_grant_only_the_base_permission() {
    let v = build_view(vec![user("u1", &["editor"])], vec![row("editor", "file:manage")], "nobody");
    assert_eq!(v.grantable_permissions, vec!["workspace:view".to_string()]);
    let empty = build_view(vec![], vec![], "u1");
    assert!(empty.roles.is_empty());
    assert_eq!(empty.grantable_permissions, vec!["workspace:view".to_string()]);
}

#[test]
fn roles_sort_by_code_point_and_first_matching_member_counts() {
    let users = vec![user("a", &["Z"]), user("a", &["b"])];
    let rows = vec![row("b", "x:y"), row("Z", "p:q"), row("é", "e:e")];
    let v = build_view(users, rows, "a");
    let ids: Vec<&str> = v.roles.iter().map(|r| r.id.as_str()).collect();
    assert_eq!(ids, vec!["Z", "b", "é"]);
    assert_eq!(v.grantable_permissions, vec!["p:q".to_string(), "workspace:view".into()]);
}
