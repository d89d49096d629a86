use module_resolver::module_resolver::{
    is_builtin_module, is_default_extension, is_style, process_transform, replace_to_js_extension,
    resolve_file_path, resolve_node_modules_file, resolve_required_file_path, Diagnostic, Span,
};

fn span() -> Span {
    Span { lo: 7, hi: 21 }
}

#[test]
fn builtin_modules_are_recognized() {
    assert!(is_builtin_module("fs"));
    assert!(is_builtin_module("path"));
    assert!(is_builtin_module("node:fs"));
    assert!(is_builtin_module("fs/promises"));
    assert!(is_builtin_module("node:fs/promises"));
    assert!(!is_builtin_module("lodash"));
    assert!(!is_builtin_module("fsx"));
    assert!(!is_builtin_module("node:lodash"));
}

#[test]
fn style_specifiers_are_recognized() {
    assert!(is_style("./x.css"));
    assert!(is_style("a/b.scss"));
    assert!(is_style("theme.sass"));
    assert!(!is_style("x.cssx"));
    assert!(!is_style("style.less"));
}

#[test]
fn default_extensions_are_recognized() {
    assert!(is_default_extension("/x/y.js"));
    assert!(is_default_extension("/x/y.tsx"));
    assert!(is_default_extension("a.json"));
    assert!(!is_default_extension("/x/y.scss"));
    assert!(!is_default_extension("/x/y"));
    assert!(!is_default_extension("/x/.ts"));
}

#[test]
fn compile_extensions_rewrite_to_js() {
    assert_eq!(replace_to_js_extension("a/b.ts"), "a/b.js");
    assert_eq!(replace_to_js_extension("a/b.jsx"), "a/b.js");
    assert_eq!(replace_to_js_extension("a/b.tsx"), "a/b.js");
    assert_eq!(replace_to_js_extension("a/b.js"), "a/b.js");
    assert_eq!(replace_to_js_extension("a/b.json"), "a/b.json");
    assert_eq!(replace_to_js_extension("a/b"), "a/b");
    assert_eq!(replace_to_js_extension("a.test.ts"), "a.test.js");
}

#[test]
fn required_paths_resolve_without_the_filesystem() {
    assert_eq!(
        resolve_required_file_path("/proj", "src/a.js", "./b"),
        "/proj/src/b"
    );
    assert_eq!(
        resolve_required_file_path("/proj", "src/a.js", "../c"),
        "/proj/c"
    );
    assert_eq!(
        resolve_required_file_path("/proj", "src/a.js", "/lib/x"),
        "/proj/lib/x"
    );
    assert_eq!(
        resolve_required_file_path("/proj", "src/a.js", "/lib/../x"),
        "/proj/x"
    );
    assert_eq!(
        resolve_required_file_path("/proj", "/proj/src/a.js", "./b"),
        "/proj/src/b"
    );
}

#[test]
fn externals_and_builtins_pass_through() {
    let externals = vec!["react".to_string(), "lodash".to_string()];
    let mut diags: Vec<Diagnostic> = Vec::new();
    let r = process_transform(span(), "/proj", "src/a.js", "fs", &externals, &mut diags);
    assert!(r.absolute_path.is_none());
    assert!(r.transformed_path.is_none());
    let r = process_transform(span(), "/proj", "src/a.js", "react", &externals, &mut diags);
    assert!(r.absolute_path.is_none());
    assert!(r.transformed_path.is_none());
    assert!(diags.is_empty());
}

#[test]
fn local_file_resolves_and_rewrites() {
    let td = tempfile::tempdir().unwrap();
    let root = td.path().to_str().unwrap().to_string();
    fs_err::create_dir_all(format!("{}/src", root)).unwrap();
    fs_err::write(format!("{}/src/a.js", root), "const b = require(\"./b\")").unwrap();
    fs_err::write(format!("{}/src/b.ts", root), "export {}").unwrap();

    let filename = format!("{}/src/a.js", root);
    let mut diags: Vec<Diagnostic> = Vec::new();
    let r = process_transform(span(), &root, &filename, "./b", &Vec::new(), &mut diags);
    assert_eq!(r.absolute_path, Some(format!("{}/src/b.ts", root)));
    assert_eq!(r.transformed_path, Some("./b.js".to_string()));
    assert!(diags.is_empty());
}

#[test]
fn missing_file_reports_one_diagnostic() {
    let td = tempfile::tempdir().unwrap();
    let root = td.path().to_str().unwrap().to_string();
    fs_err::create_dir_all(format!("{}/src", root)).unwrap();
    fs_err::write(format!("{}/src/a.js", root), "const b = require(\"./b\")").unwrap();

    let filename = format!("{}/src/a.js", root);
    let mut diags: Vec<Diagnostic> = Vec::new();
    let r = process_transform(span(), &root, &filename, "./b", &Vec::new(), &mut diags);
    assert!(r.absolute_path.is_none());
    assert!(r.transformed_path.is_none());
    assert_eq!(diags.len(), 1);
    assert_eq!(diags[0].span, span());
    assert!(diags[0].message.contains("./b"));
    assert!(diags[0].message.contains(&filename));
}

#[test]
fn extension_probing_prefers_the_listed_order() {
    let td = tempfile::tempdir().unwrap();
    let root = td.path().to_str().unwrap().to_string();
    fs_err::create_dir_all(format!("{}/src", root)).unwrap();
    fs_err::write(format!("{}/src/m.js", root), "").unwrap();
    fs_err::write(format!("{}/src/m.ts", root), "").unwrap();
    let r = resolve_file_path(&format!("{}/src/m", root));
    assert_eq!(r, Some(format!("{}/src/m.js", root)));
}

#[test]
fn index_fallback_resolves_directories() {
    let td = tempfile::tempdir().unwrap();
    let root = td.path().to_str().unwrap().to_string();
    fs_err::create_dir_all(format!("{}/src/utils", root)).unwrap();
    fs_err::write(format!("{}/src/utils/index.ts", root), "").unwrap();
    let r = resolve_file_path(&format!("{}/src/utils", root));
    assert_eq!(r, Some(format!("{}/src/utils/index.ts", root)));
}

#[test]
fn existing_path_with_default_extension_wins() {
    let td = tempfile::tempdir().unwrap();
    let root = td.path().to_str().unwrap().to_string();
    fs_err::create_dir_all(format!("{}/src", root)).unwrap();
    fs_err::write(format!("{}/src/m.ts", root), "").unwrap();
    let r = resolve_file_path(&format!("{}/src/m.ts", root));
    assert_eq!(r, Some(format!("{}/src/m.ts", root)));
}

#[test]
fn package_main_field_resolves() {
    let td = tempfile::tempdir().unwrap();
    let root = td.path().to_str().unwrap().to_string();
    fs_err::create_dir_all(format!("{}/src", root)).unwrap();
    fs_err::create_dir_all(format!("{}/node_modules/pkg/lib", root)).unwrap();
    fs_err::write(format!("{}/src/a.js", root), "").unwrap();
    fs_err::write(
        format!("{}/node_modules/pkg/package.json", root),
        "{\"main\": \"lib/index.js\"}",
    )
    .unwrap();
    fs_err::write(format!("{}/node_modules/pkg/lib/index.js", root), "").unwrap();

    let filename = format!("{}/src/a.js", root);
    let r = resolve_node_modules_file(&root, &filename, "pkg");
    assert_eq!(r, Some(format!("{}/node_modules/pkg/lib/index.js", root)));

    let mut diags: Vec<Diagnostic> = Vec::new();
    let r = process_transform(span(), &root, &filename, "pkg", &Vec::new(), &mut diags);
    assert_eq!(
        r.absolute_path,
        Some(format!("{}/node_modules/pkg/lib/index.js", root))
    );
    assert_eq!(
        r.transformed_path,
        Some("../node_modules/pkg/lib/index.js".to_string())
    );
    assert!(diags.is_empty());
}

#[test]
fn package_module_field_is_the_fallback() {
    let td = tempfile::tempdir().unwrap();
    let root = td.path().to_str().unwrap().to_string();
    fs_err::create_dir_all(format!("{}/node_modules/pkg/es", root)).unwrap();
    fs_err::write(format!("{}/a.js", root), "").unwrap();
    fs_err::write(
        format!("{}/node_modules/pkg/package.json", root),
        "{\"main\": \"missing.js\", \"module\": \"es/index.js\"}",
    )
    .unwrap();
    fs_err::write(format!("{}/node_modules/pkg/es/index.js", root), "").unwrap();
    let filename = format!("{}/a.js", root);
    let r = resolve_node_modules_file(&root, &filename, "pkg");
    assert_eq!(r, Some(format!("{}/node_modules/pkg/es/index.js", root)));
}

#[test]
fn malformed_package_manifest_degrades_to_no_entry() {
    let td = tempfile::tempdir().unwrap();
    let root = td.path().to_str().unwrap().to_string();
    fs_err::create_dir_all(format!("{}/node_modules/pkg", root)).unwrap();
    fs_err::write(format!("{}/a.js", root), "").unwrap();
    fs_err::write(
        format!("{}/node_modules/pkg/package.json", root),
        "{not valid json",
    )
    .unwrap();
    let filename = format!("{}/a.js", root);
    assert_eq!(resolve_node_modules_file(&root, &filename, "pkg"), None);
}

#[test]
fn nearest_node_modules_wins() {
    let td = tempfile::tempdir().unwrap();
    let root = td.path().to_str().unwrap().to_string();
    fs_err::create_dir_all(format!("{}/src/deep/node_modules", root)).unwrap();
    fs_err::create_dir_all(format!("{}/node_modules", root)).unwrap();
    fs_err::write(format!("{}/src/deep/a.js", root), "").unwrap();
    fs_err::write(format!("{}/src/deep/node_modules/pkg.js", root), "").unwrap();
    fs_err::write(format!("{}/node_modules/pkg.js", root), "").unwrap();
    let filename = format!("{}/src/deep/a.js", root);
    let r = resolve_node_modules_file(&root, &filename, "pkg");
    assert_eq!(r, Some(format!("{}/src/deep/node_modules/pkg.js", root)));
}

#[test]
fn node_modules_probing_handles_plain_files() {
    let td = tempfile::tempdir().unwrap();
    let root = td.path().to_str().unwrap().to_string();
    fs_err::create_dir_all(format!("{}/node_modules/pkg", root)).unwrap();
    fs_err::write(format!("{}/a.js", root), "").unwrap();
    fs_err::write(format!("{}/node_modules/pkg/index.ts", root), "").unwrap();
    let filename = format!("{}/a.js", root);
    let r = resolve_node_modules_file(&root, &filename, "pkg");
    assert_eq!(r, Some(format!("{}/node_modules/pkg/index.ts", root)));
}

#[test]
fn packages_outside_the_root_are_not_found() {
    let td = tempfile::tempdir().unwrap();
    let base = td.path().to_str().unwrap().to_string();
    fs_err::create_dir_all(format!("{}/node_modules/pkg", base)).unwrap();
    fs_err::write(format!("{}/node_modules/pkg/index.js", base), "").unwrap();
    fs_err::create_dir_all(format!("{}/proj/src", base)).unwrap();
    fs_err::write(format!("{}/proj/src/a.js", base), "").unwrap();
    let root = format!("{}/proj", base);
    let filename = format!("{}/proj/src/a.js", base);
    assert_eq!(resolve_node_modules_file(&root, &filename, "pkg"), None);
}

#[test]
fn absent_project_root_accepts_the_computed_path() {
    let mut diags: Vec<Diagnostic> = Vec::new();
    let r = process_transform(
        span(),
        "/no_such_dir_for_these_tests",
        "src/a.ts",
        "./b.ts",
        &Vec::new(),
        &mut diags,
    );
    assert_eq!(r.absolute_path, Some("/src/b.ts".to_string()));
    assert_eq!(r.transformed_path, Some("/src/b.js".to_string()));
    assert!(diags.is_empty());
}
