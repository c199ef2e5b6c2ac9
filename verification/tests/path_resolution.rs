use dir_browser::paths::{convert_to_absolute_path, join_path, resolve, split_path};

fn segs(parts: &[&str]) -> Vec<String> {
    parts.iter().map(|p| p.to_string()).collect()
}

#[test]
fn split_drops_empty_and_dot_segments() {
    assert_eq!(split_path("/home//user/./x/.."), segs(&["home", "user", "x", ".."]));
    assert_eq!(split_path("./a/b/"), segs(&["a", "b"]));
    assert_eq!(split_path(""), segs(&[]));
    assert_eq!(split_path("/"), segs(&[]));
}

#[test]
fn join_renders_absolute_paths() {
    assert_eq!(join_path(&segs(&[])), "/");
    assert_eq!(join_path(&segs(&["a", "b"])), "/a/b");
}

#[test]
fn resolve_descend_then_up_cancels() {
    let ab_up = segs(&["a", "b", ".."]);
    let a = segs(&["a"]);
    assert_eq!(resolve("/home/user", &ab_up), resolve("/home/user", &a));
    assert_eq!(resolve("/home/user", &ab_up), "/home/user/a");
    assert_eq!(resolve("/home/user", &segs(&["a", "b"])), "/home/user/a/b");
}

#[test]
fn resolve_double_up_ascends_exactly_two() {
    let toks = segs(&["..", ".."]);
    let once = resolve("/home/user", &toks);
    assert_eq!(once, "/");
    let again = resolve(once.as_str(), &segs(&[]));
    assert_eq!(again, "/");
}

#[test]
fn resolve_empty_tokens_returns_anchor() {
    assert_eq!(resolve("/home/user", &segs(&[])), "/home/user");
}

#[test]
fn convert_to_absolute_path_appends() {
    assert_eq!(
        convert_to_absolute_path("/home/user".to_string(), "./a/b/".to_string()),
        "/home/user/a/b"
    );
}

#[test]
fn convert_to_absolute_path_keeps_anchor_for_here() {
    assert_eq!(
        convert_to_absolute_path("/home/user".to_string(), "./".to_string()),
        "/home/user"
    );
}

#[test]
fn convert_to_absolute_path_ascends() {
    assert_eq!(
        convert_to_absolute_path("/home/user".to_string(), "./../../".to_string()),
        "/"
    );
    assert_eq!(
        convert_to_absolute_path("/home/user".to_string(), "./a/../".to_string()),
        "/home/user"
    );
    assert_eq!(
        convert_to_absolute_path("/home/user".to_string(), "./a/b/../".to_string()),
        "/home/user/a"
    );
}
