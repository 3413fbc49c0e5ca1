use bootstrapper::paths::sanitize_path;

#[test]
fn test_sanitize_path_empty() {
    assert_eq!(sanitize_path("").unwrap(), "");
}

#[test]
fn test_sanitize_path_dot() {
    assert_eq!(sanitize_path(".").unwrap(), "");
}

#[test]
fn test_sanitize_path_dotdot() {
    assert!(sanitize_path("..").is_none());
}

#[test]
fn sanitize_strips_leading_root() {
    assert_eq!(sanitize_path("/foo").unwrap(), "foo");
}

#[test]
fn sanitize_collapses_dot_components() {
    assert_eq!(sanitize_path("./a/./b").unwrap(), "a/b");
}

#[test]
fn sanitize_rejects_escape() {
    assert!(sanitize_path("a/../../etc").is_none());
}

#[test]
fn sanitize_resolves_inner_dotdot() {
    assert_eq!(sanitize_path("a/b/../c").unwrap(), "a/c");
}

#[test]
fn sanitize_absolute_dotdot_stays_at_root() {
    assert_eq!(sanitize_path("/../a").unwrap(), "a");
}

#[test]
fn sanitize_collapses_repeated_separators() {
    assert_eq!(sanitize_path("a//b///c/").unwrap(), "a/b/c");
}
