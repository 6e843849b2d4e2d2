use figma_framelink_cli::path_util::{last_name_of, normalize, resolve_local_path};

#[test]
fn relative_resolves_inside() {
    assert_eq!(
        resolve_local_path("public/images", "/proj", None).unwrap(),
        "/proj/public/images"
    );
}

#[test]
fn absolute_inside_accepted() {
    assert_eq!(
        resolve_local_path("/proj/a/b", "/proj", None).unwrap(),
        "/proj/a/b"
    );
}

#[test]
fn outside_rejected() {
    assert!(resolve_local_path("../../etc", "/proj", None).is_err());
    assert!(resolve_local_path("/etc/passwd", "/proj", None).is_err());
}

#[test]
fn leading_slash_hint_errors() {
    let err = resolve_local_path("/public/images", "/proj", None).unwrap_err();
    assert!(err.contains("drop the leading slash"));
}

#[test]
fn dots_and_backslashes_are_resolved() {
    assert_eq!(resolve_local_path("a\\..\\b/./c", "/proj", None).unwrap(), "/proj/b/c");
    assert_eq!(resolve_local_path("a/../../proj/b", "/proj", None).unwrap(), "/proj/b");
    assert_eq!(resolve_local_path("/projects/b", "/proj", None).is_err(), true);
}

#[test]
fn base_is_taken_from_the_current_directory() {
    assert_eq!(resolve_local_path("img", "out", Some("/home/me")).unwrap(), "/home/me/out/img");
}

#[test]
fn drives_are_rejected() {
    assert!(resolve_local_path("C:\\images", "/proj", None).is_err());
}

#[test]
fn last_names() {
    assert_eq!(last_name_of("/out/a.png").as_deref(), Some("a.png"));
    assert_eq!(last_name_of("/out/a/..").as_deref(), None);
    assert_eq!(last_name_of("/").as_deref(), None);
}

#[test]
fn resolved_paths_resolve_to_themselves() {
    for raw in ["a/./b/../c", "x//y/", ".", "a/b/../.."] {
        let once = resolve_local_path(raw, "/proj", None).unwrap();
        assert_eq!(resolve_local_path(&once, "/proj", None).unwrap(), once);
        assert!(!once.split('/').any(|n| n == "." || n == ".."), "{once}");
    }
    assert_eq!(resolve_local_path("a/..", ".", None).unwrap(), ".");
}

#[test]
fn normal_paths_stay_as_they_are() {
    let cases = [
        ("a/./b/../c", "a/c"),
        ("../../a//b/", "a/b"),
        ("/../a/.", "/a"),
        ("a/..", "."),
        ("", "."),
        ("/", "/"),
    ];
    for (path, normal) in cases {
        assert_eq!(normalize(path), normal);
        assert_eq!(normalize(normal), normal);
    }
}
