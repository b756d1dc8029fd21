use aio_plugin_rbac::client::{
    parse_permission_list, permission_labels, response_error_text, role_search_text,
    toggle_selection, user_search_text, AccessControlPlugin,
};
use aio_plugin_rbac::model::{RoleItem, UserItem};

fn strings(xs: &[&str]) -> Vec<String> {
    xs.iter().map(|x| x.to_string()).collect()
}

#[test]
fn plugin_adds_users_and_roles_pages() {
    let pages = AccessControlPlugin.pages();
    assert_eq!(pages.len(), 2);
    assert_eq!((pages[0].id, pages[0].label, pages[0].icon), ("users", "用户管理", Some("user")));
    assert_eq!((pages[1].id, pages[1].label, pages[1].icon), ("roles", "角色管理", Some("shield")));
    for p in &pages {
        assert_eq!((p.scene.id, p.scene.label), ("system", "系统"));
        assert_eq!(p.required_permission, Some("rbac:manage"));
        assert_eq!(p.menu_path.len(), 1);
        assert_eq!(p.menu_path[0].id, "system-management");
        assert_eq!(p.menu_path[0].label, "系统管理");
        assert_eq!(p.menu_path[0].icon.as_deref(), Some("settings"));
    }
}

#[test]
fn permission_list_is_split_trimmed_and_filtered() {
    assert_eq!(parse_permission_list(" plugin:manage , file:manage,, ,x"), strings(&["plugin:manage", "file:manage", "x"]));
    assert_eq!(parse_permission_list(""), Vec::<String>::new());
    assert_eq!(parse_permission_list(",,"), Vec::<String>::new());
    assert_eq!(parse_permission_list("a b,\u{3000}c\u{3000}"), strings(&["a b", "c"]));
}

#[test]
fn toggling_a_box_moves_the_value_to_the_end_or_drops_it() {
    let mut sel = strings(&["a", "b", "a", "c"]);
    toggle_selection(&mut sel, "a", true);
    assert_eq!(sel, strings(&["b", "c", "a"]));
    toggle_selection(&mut sel, "a", true);
    assert_eq!(sel, strings(&["b", "c", "a"]));
    toggle_selection(&mut sel, "b", false);
    assert_eq!(sel, strings(&["c", "a"]));
    let mut sel2 = strings(&["c"]);
    toggle_selection(&mut sel2, "d", true);
    toggle_selection(&mut sel2, "d", false);
    assert_eq!(sel2, strings(&["c"]));
}

#[test]
fn search_texts_and_labels() {
    let role = RoleItem { id: "editor".into(), permissions: strings(&["file:manage", "x:y"]), member_count: 2 };
    assert_eq!(role_search_text(&role), "editor file:manage 管理文件 x:y x:y");
    let bare = RoleItem { id: "r".into(), permissions: vec![], member_count: 0 };
    assert_eq!(role_search_text(&bare), "r ");
    let user = UserItem { id: "1".into(), account: "alice".into(), display_name: "Alice".into(), roles: strings(&["member", "editor"]) };
    assert_eq!(user_search_text(&user), "Alice alice member editor");
    assert_eq!(permission_labels(&strings(&["workspace:view", "rbac:manage"])), "访问工作区、管理用户与角色");
    assert_eq!(permission_labels(&vec![]), "");
}

#[test]
fn refused_request_message_prefers_the_json_error() {
    assert_eq!(response_error_text("{\"error\":\"x\"}".into(), Some("x".into())), "x");
    assert_eq!(response_error_text("plain".into(), None), "plain");
}
