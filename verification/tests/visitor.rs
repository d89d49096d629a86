use module_resolver::module_resolver::{
    module_items_to_keep, ModuleItem, ModuleResolverVisit, Span,
};
use module_resolver::transform::{metadata_from_visit, TransformerCustomOptions};

fn span_at(lo: u32) -> Span {
    Span { lo, hi: lo + 10 }
}

fn visit_for(root: &str, filename: &str) -> ModuleResolverVisit {
    ModuleResolverVisit::new(root.to_string(), filename.to_string(), Vec::new())
}

#[test]
fn shadowed_require_is_not_resolved() {
    let td = tempfile::tempdir().unwrap();
    let root = td.path().to_str().unwrap().to_string();
    fs_err::write(format!("{}/x.js", root), "").unwrap();
    fs_err::write(format!("{}/y.js", root), "").unwrap();
    fs_err::write(format!("{}/main.js", root), "").unwrap();

    let filename = format!("{}/main.js", root);
    let mut v = visit_for(&root, &filename);

    // function f(require) { require("./x") }
    let params = vec!["require".to_string()];
    let saved = v.enter_function_scope(&params);
    assert_eq!(v.require_as_scope_bind_depth, 1);
    let inner = v.visit_call_expr(span_at(1), Some("require"), 1, Some("./x"));
    assert_eq!(inner, None);
    v.leave_function_scope(saved);
    assert_eq!(v.require_as_scope_bind_depth, 0);

    // require("./y") at the top level
    let outer = v.visit_call_expr(span_at(2), Some("require"), 1, Some("./y"));
    assert_eq!(outer, Some("./y.js".to_string()));

    let meta = metadata_from_visit(v);
    assert!(meta.requires.contains(&format!("{}/y.js", root)));
    assert!(!meta.requires.iter().any(|p| p.ends_with("/x.js")));
}

#[test]
fn scopes_without_require_do_not_shadow() {
    let td = tempfile::tempdir().unwrap();
    let root = td.path().to_str().unwrap().to_string();
    fs_err::write(format!("{}/x.js", root), "").unwrap();
    fs_err::write(format!("{}/main.js", root), "").unwrap();

    let filename = format!("{}/main.js", root);
    let mut v = visit_for(&root, &filename);
    let params = vec!["a".to_string(), "b".to_string()];
    let saved = v.enter_function_scope(&params);
    assert_eq!(v.require_as_scope_bind_depth, 0);
    let r = v.visit_call_expr(span_at(3), Some("require"), 1, Some("./x"));
    assert_eq!(r, Some("./x.js".to_string()));
    v.leave_function_scope(saved);
}

#[test]
fn only_bare_require_calls_with_one_string_argument_count() {
    let td = tempfile::tempdir().unwrap();
    let root = td.path().to_str().unwrap().to_string();
    fs_err::write(format!("{}/x.js", root), "").unwrap();
    fs_err::write(format!("{}/main.js", root), "").unwrap();

    let filename = format!("{}/main.js", root);
    let mut v = visit_for(&root, &filename);
    assert_eq!(v.visit_call_expr(span_at(4), Some("import_"), 1, Some("./x")), None);
    assert_eq!(v.visit_call_expr(span_at(5), None, 1, Some("./x")), None);
    assert_eq!(v.visit_call_expr(span_at(6), Some("require"), 2, Some("./x")), None);
    assert_eq!(v.visit_call_expr(span_at(7), Some("require"), 1, None), None);
    assert!(v.requires.is_empty());
    assert!(v.diagnostics.is_empty());
}

#[test]
fn resolved_paths_are_collected_once() {
    let td = tempfile::tempdir().unwrap();
    let root = td.path().to_str().unwrap().to_string();
    fs_err::write(format!("{}/x.js", root), "").unwrap();
    fs_err::write(format!("{}/main.js", root), "").unwrap();

    let filename = format!("{}/main.js", root);
    let mut v = visit_for(&root, &filename);
    let a = v.visit_call_expr(span_at(8), Some("require"), 1, Some("./x"));
    let b = v.visit_call_expr(span_at(9), Some("require"), 1, Some("./x"));
    assert_eq!(a, b);
    assert_eq!(v.requires.len(), 1);
    assert_eq!(v.requires[0], format!("{}/x.js", root));
}

#[test]
fn import_declarations_resolve_like_requires() {
    let td = tempfile::tempdir().unwrap();
    let root = td.path().to_str().unwrap().to_string();
    fs_err::write(format!("{}/dep.ts", root), "").unwrap();
    fs_err::write(format!("{}/main.js", root), "").unwrap();

    let filename = format!("{}/main.js", root);
    let mut v = visit_for(&root, &filename);
    let r = v.visit_import_decl(span_at(10), "./dep");
    assert_eq!(r, Some("./dep.js".to_string()));
    assert_eq!(v.requires, vec![format!("{}/dep.ts", root)]);
}

#[test]
fn style_imports_are_skipped_but_style_requires_are_resolved() {
    let td = tempfile::tempdir().unwrap();
    let root = td.path().to_str().unwrap().to_string();
    fs_err::write(format!("{}/x.css", root), "").unwrap();
    fs_err::write(format!("{}/main.js", root), "").unwrap();

    let filename = format!("{}/main.js", root);
    let mut v = visit_for(&root, &filename);

    // an import of a style file is skipped outright: no rewrite, no report
    let r = v.visit_import_decl(span_at(11), "./x.css");
    assert_eq!(r, None);
    assert!(v.diagnostics.is_empty());
    assert!(v.requires.is_empty());

    // a require of the same style file goes through ordinary resolution,
    // which probes for x.css.js and the like and therefore fails loudly
    let r = v.visit_call_expr(span_at(12), Some("require"), 1, Some("./x.css"));
    assert_eq!(r, None);
    assert_eq!(v.diagnostics.len(), 1);
    assert_eq!(v.diagnostics[0].span, span_at(12));
    assert!(v.requires.is_empty());
}

#[test]
fn unresolved_require_reports_and_leaves_the_call() {
    let td = tempfile::tempdir().unwrap();
    let root = td.path().to_str().unwrap().to_string();
    fs_err::write(format!("{}/main.js", root), "").unwrap();

    let filename = format!("{}/main.js", root);
    let mut v = visit_for(&root, &filename);
    let r = v.visit_call_expr(span_at(13), Some("require"), 1, Some("./missing"));
    assert_eq!(r, None);
    assert_eq!(v.diagnostics.len(), 1);
    assert_eq!(v.diagnostics[0].span, span_at(13));
    assert!(v.diagnostics[0].message.contains("./missing"));
    assert!(v.requires.is_empty());
}

#[test]
fn external_packages_pass_through_the_visitor() {
    let td = tempfile::tempdir().unwrap();
    let root = td.path().to_str().unwrap().to_string();
    fs_err::write(format!("{}/main.js", root), "").unwrap();

    let filename = format!("{}/main.js", root);
    let opts = TransformerCustomOptions {
        external_packages: vec!["react".to_string()],
    };
    let mut v = ModuleResolverVisit::new(
        root.clone(),
        filename.clone(),
        opts.external_packages.clone(),
    );
    assert_eq!(v.visit_call_expr(span_at(14), Some("require"), 1, Some("react")), None);
    assert_eq!(v.visit_import_decl(span_at(15), "react"), None);
    assert!(v.requires.is_empty());
    assert!(v.diagnostics.is_empty());
}

#[test]
fn default_options_have_no_externals() {
    let opts = TransformerCustomOptions::default();
    assert!(opts.external_packages.is_empty());
}

#[test]
fn style_imports_are_removed_from_the_item_list() {
    let items = vec![
        ModuleItem::ImportDecl { specifier: "./x.css".to_string() },
        ModuleItem::Other,
        ModuleItem::ImportDecl { specifier: "./y.js".to_string() },
        ModuleItem::ImportDecl { specifier: "theme.scss".to_string() },
        ModuleItem::ImportDecl { specifier: "deep.sass".to_string() },
    ];
    let keep = module_items_to_keep(&items);
    assert_eq!(keep, vec![false, true, true, false, false]);
}
