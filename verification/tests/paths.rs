use module_resolver::pathops::{
    ends_with_str, path_extension, path_join, path_parent, path_starts_with, path_with_file_name,
    to_forward_slashes, trim_leading_seps,
};
use module_resolver::utils::{normalize_path, relative_to};

#[test]
fn normalize_collapses_dot_and_dotdot() {
    assert_eq!(normalize_path("/a/./b/../c"), "/a/c");
    assert_eq!(normalize_path("/proj/src/../lib/x.js"), "/proj/lib/x.js");
    assert_eq!(normalize_path("a/./b"), "a/b");
}

#[test]
fn normalize_keeps_plain_paths() {
    assert_eq!(normalize_path("/a/b/c"), "/a/b/c");
    assert_eq!(normalize_path("a"), "a");
    assert_eq!(normalize_path(""), "");
}

#[test]
fn normalize_edge_cases() {
    assert_eq!(normalize_path("/"), "/");
    assert_eq!(normalize_path("/.."), "/");
    assert_eq!(normalize_path("../a"), "a");
    assert_eq!(normalize_path(".."), "");
    assert_eq!(normalize_path("a//b/"), "a/b");
    assert_eq!(normalize_path("./a"), "a");
}

#[test]
fn normalize_is_idempotent_on_samples() {
    let samples = [
        "/a/./b/../c",
        "a/../../b",
        "//x//y//",
        "",
        "/",
        "..",
        "./././z",
        "/proj/src/./b",
    ];
    for s in samples {
        let once = normalize_path(s);
        let twice = normalize_path(&once);
        assert_eq!(twice, once);
    }
}

#[test]
fn join_behaves_like_std_paths() {
    assert_eq!(path_join("/a", "b"), "/a/b");
    assert_eq!(path_join("/a/", "b"), "/a/b");
    assert_eq!(path_join("", "b"), "b");
    assert_eq!(path_join("/a", "/x"), "/x");
    assert_eq!(path_join("/proj", "src/a.js"), "/proj/src/a.js");
}

#[test]
fn parent_drops_the_last_segment() {
    assert_eq!(path_parent("/a/b"), Some("/a".to_string()));
    assert_eq!(path_parent("/a"), Some("/".to_string()));
    assert_eq!(path_parent("a"), Some("".to_string()));
    assert_eq!(path_parent("/"), None);
    assert_eq!(path_parent(""), None);
}

#[test]
fn with_file_name_replaces_the_last_segment() {
    assert_eq!(path_with_file_name("/proj/src/a.js", "./b"), "/proj/src/./b");
    assert_eq!(path_with_file_name("/proj/src/a.js", "b.ts"), "/proj/src/b.ts");
    assert_eq!(path_with_file_name("a", "b"), "b");
}

#[test]
fn extension_reads_the_file_name_suffix() {
    assert_eq!(path_extension("/a/b.ts"), Some("ts".to_string()));
    assert_eq!(path_extension("/a/b.test.js"), Some("js".to_string()));
    assert_eq!(path_extension("/a/.hidden"), None);
    assert_eq!(path_extension("/a/b"), None);
    assert_eq!(path_extension("a.d/b"), None);
}

#[test]
fn starts_with_compares_whole_components() {
    assert!(path_starts_with("/proj/src", "/proj"));
    assert!(path_starts_with("/proj", "/proj"));
    assert!(!path_starts_with("/project", "/proj"));
    assert!(path_starts_with("/anything", "/"));
    assert!(path_starts_with("/anything", ""));
}

#[test]
fn small_string_helpers() {
    assert_eq!(trim_leading_seps("///abs/mod"), "abs/mod");
    assert_eq!(trim_leading_seps("abs"), "abs");
    assert_eq!(to_forward_slashes("a\\b\\c"), "a/b/c");
    assert_eq!(to_forward_slashes("a/b"), "a/b");
    assert!(ends_with_str("m.css", ".css"));
    assert!(!ends_with_str("ss", ".css"));
}

#[test]
fn relative_paths_reach_their_target() {
    assert_eq!(relative_to("/proj/src", "/proj/src/b.js"), "./b.js");
    assert_eq!(relative_to("/proj/src", "/proj/node_modules/p/i.js"), "../node_modules/p/i.js");
    assert_eq!(relative_to("/a/b/c", "/x.js"), "../../../x.js");
    assert_eq!(relative_to("/a/b", "/a/b/c/d.js"), "./c/d.js");
    assert_eq!(relative_to("/a/b", "/a/b"), ".");
    assert_eq!(relative_to("/a/b", "/a"), "..");
    assert_eq!(relative_to("/a/b/c", "/a"), "../..");
}
