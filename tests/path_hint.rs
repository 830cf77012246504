use speakeasy_rust_sdk::path_hint::normalize_path_hint;

#[test]
fn path_hint_run() {
    let cases = vec![
        // simple path
        ("/hello/world", "/hello/world"),
        // simple path with wildcard
        ("/hello/*", "/hello/{wildcard}"),
        // path with mix formats
        ("/user/{id}/account/:action", "/user/{id}/account/{action}"),
        // path with multiple of the same format
        ("/user/:id/account/:action", "/user/{id}/account/{action}"),
        // path with multiple of the same format (:)
        ("/user/{id}/account/{action}", "/user/{id}/account/{action}"),
        // does not normalize unknown format
        ("/user/<id>/account/<action>", "/user/<id>/account/<action>"),
        // keeps trailing slash
        ("/user/{id}/account/{action}/", "/user/{id}/account/{action}/"),
    ];
    for (path_hint, expected) in cases {
        assert_eq!(normalize_path_hint(path_hint.to_string()), expected);
    }
}

#[test]
fn both_template_styles_meet() {
    let colon = normalize_path_hint("/user/:id/account/:action".to_string());
    let brace = normalize_path_hint("/user/{id}/account/{action}".to_string());
    assert_eq!(colon, brace);
    assert_eq!(colon, "/user/{id}/account/{action}");
    assert_eq!(normalize_path_hint("/user/<id>".to_string()), "/user/<id>");
    assert_eq!(normalize_path_hint("/hello/*".to_string()), "/hello/{wildcard}");
}

#[test]
fn path_hint_edges() {
    assert_eq!(normalize_path_hint(String::new()), "");
    assert_eq!(normalize_path_hint("/a/:b/".to_string()), "/a/{b}/");
    assert_eq!(normalize_path_hint("*".to_string()), "{wildcard}");
    assert_eq!(normalize_path_hint("/files/*/x".to_string()), "/files/{wildcard}/x");
}
