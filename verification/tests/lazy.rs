use nullstack_swc::loaders::replace_lazy_on_module::{resolve_path, LazyImport, LeadingImport, ReplaceLazyVisitor};

fn default_import(source: &str, local: &str) -> LeadingImport {
    LeadingImport { source: source.to_string(), specifier_count: 1, default_local: Some(local.to_string()) }
}

fn named_import(source: &str) -> LeadingImport {
    LeadingImport { source: source.to_string(), specifier_count: 1, default_local: None }
}

fn lazy(name: &str, hash: &str, path: &str) -> (String, String, String) {
    (name.to_string(), hash.to_string(), path.to_string())
}

fn summary(v: Vec<Option<LazyImport>>) -> Vec<Option<(String, String, String)>> {
    v.into_iter().map(|o| o.map(|l| (l.constant_name, l.file_hash, l.import_path))).collect()
}

/// Walks the lookup of a module whose class extends `Nullstack` and renders the given
/// elements, with the identifiers used elsewhere.
fn run(file: &str, is_dev: bool, imports: Vec<LeadingImport>, elements: &[(&str, bool)], idents: &[&str]) -> Vec<Option<(String, String, String)>> {
    let mut v = ReplaceLazyVisitor::new(file.to_string(), is_dev);
    v.begin_module(&imports);
    assert!(!v.walks_element_children());
    v.on_ident("Component");
    for i in idents {
        v.on_ident(i);
    }
    v.on_ident("render");
    for (tag, route) in elements {
        let attrs: Vec<Option<String>> = if *route {
            vec![Some("route".to_string()), None]
        } else {
            vec![Some("class".to_string())]
        };
        v.on_element(Some(tag), &attrs);
    }
    v.complete_lookup();
    assert!(v.walks_element_children());
    summary(v.lazy_imports().unwrap())
}

#[test]
fn replace_lazy_when_only_jsx() {
    let r = run("src/Application.njs", true, vec![default_import("./LazyComponent", "LazyComponent")], &[("LazyComponent", true)], &["Nullstack"]);
    assert_eq!(r, vec![Some(lazy("LazyComponent", "src__LazyComponent", "./LazyComponent"))]);
}

#[test]
fn skip_replace_lazy_when_reused() {
    let r = run("src/Application.njs", true, vec![default_import("./LazyComponent", "LazyComponent")], &[("LazyComponent", true)], &["LazyComponent", "reused", "Nullstack"]);
    assert_eq!(r, vec![None]);
}

#[test]
fn replace_lazy_when_only_jsx_in_production() {
    let r = run("src/Application.njs", false, vec![default_import("./LazyComponent", "LazyComponent")], &[("LazyComponent", true)], &["Nullstack"]);
    assert_eq!(r, vec![Some(lazy("LazyComponent", "c1a38acc", "./LazyComponent"))]);
}

#[test]
fn replace_lazy_when_nested_urls() {
    let r = run(
        "src/nested/Application.njs",
        true,
        vec![default_import("./LazyComponent", "LazyComponent"), default_import("./OtherComponent", "OtherComponent")],
        &[("div", false), ("OtherComponent", true), ("LazyComponent", true)],
        &["Nullstack"],
    );
    assert_eq!(
        r,
        vec![
            Some(lazy("LazyComponent", "src__nested__LazyComponent", "./LazyComponent")),
            Some(lazy("OtherComponent", "src__nested__OtherComponent", "./OtherComponent")),
        ]
    );
}

#[test]
fn replace_lazy_on_windows() {
    let r = run("src\\Application.njs", true, vec![default_import("./LazyComponent", "LazyComponent")], &[("LazyComponent", true)], &["Nullstack"]);
    assert_eq!(r, vec![Some(lazy("LazyComponent", "src__LazyComponent", "./LazyComponent"))]);
}

#[test]
fn replace_lazy_when_skiping_non_jsx_import() {
    let r = run(
        "src/Application.njs",
        true,
        vec![default_import("nullstack", "Nullstack"), default_import("./LazyComponent", "LazyComponent")],
        &[("LazyComponent", true)],
        &["Nullstack"],
    );
    assert_eq!(r, vec![None, Some(lazy("LazyComponent", "src__LazyComponent", "./LazyComponent"))]);
}

#[test]
fn replace_lazy_when_has_named_import() {
    let r = run(
        "src/Application.njs",
        true,
        vec![default_import("nullstack", "Nullstack"), named_import("./helpers"), default_import("./LazyComponent", "LazyComponent")],
        &[("LazyComponent", true)],
        &["Nullstack"],
    );
    assert_eq!(r, vec![None, None, Some(lazy("LazyComponent", "src__LazyComponent", "./LazyComponent"))]);
}

#[test]
fn skip_replace_lazy_when_lowercase() {
    let r = run("src/Application.njs", true, vec![default_import("./LazyComponent", "lazyComponent")], &[("lazyComponent", true)], &["Nullstack"]);
    assert_eq!(r, vec![None]);
}

#[test]
fn skip_replace_lazy_when_not_tag_name() {
    let r = run("src/Application.njs", true, vec![default_import("./LazyComponent", "LazyComponent")], &[("button", true)], &["Nullstack", "LazyComponent"]);
    assert_eq!(r, vec![None]);
}

#[test]
fn replace_lazy_when_not_route() {
    let r = run(
        "src/Application.njs",
        true,
        vec![default_import("./SyncComponent", "SyncComponent"), default_import("./LazyComponent", "LazyComponent")],
        &[("div", false), ("SyncComponent", false), ("LazyComponent", true)],
        &["Nullstack"],
    );
    assert_eq!(r, vec![None, Some(lazy("LazyComponent", "src__LazyComponent", "./LazyComponent"))]);
}

#[test]
fn lazy_names_lose_their_place_after_the_lookup() {
    let mut v = ReplaceLazyVisitor::new("src/Application.njs".to_string(), true);
    v.begin_module(&vec![default_import("./LazyComponent", "LazyComponent")]);
    assert!(!v.on_ident("Other"));
    v.complete_lookup();
    assert!(v.on_ident("LazyComponent"));
    assert!(!v.on_ident("Other"));
}

#[test]
fn resolve_path_from_the_importing_file() {
    assert_eq!(resolve_path("src/Application.njs", "./LazyComponent"), Some("src/LazyComponent".to_string()));
    assert_eq!(resolve_path("src/nested/Application.njs", "./LazyComponent"), Some("src/nested/LazyComponent".to_string()));
    assert_eq!(resolve_path("src\\Application.njs", "./LazyComponent"), Some("src/LazyComponent".to_string()));
    assert_eq!(resolve_path("src/nested/Application.njs", "../Other"), Some("src/Other".to_string()));
    assert_eq!(resolve_path("/abs/App.njs", "./X"), Some("/abs/X".to_string()));
    assert_eq!(resolve_path("App.njs", "./X"), Some("X".to_string()));
    assert_eq!(resolve_path("App.njs", "../X"), None);
    assert_eq!(resolve_path("", "./X"), None);
    assert_eq!(resolve_path("src/A", "./B/"), Some("src/B/".to_string()));
    assert_eq!(resolve_path("src/A", "./B//"), Some("src/B/".to_string()));
    assert_eq!(resolve_path("/A", "./"), Some("/".to_string()));
    assert_eq!(resolve_path("src/A", "./"), Some("src/".to_string()));
}

#[test]
fn lazy_imports_fail_when_a_path_goes_above_the_project() {
    let mut v = ReplaceLazyVisitor::new("App.njs".to_string(), true);
    v.begin_module(&vec![default_import("../LazyComponent", "LazyComponent")]);
    v.complete_lookup();
    assert!(v.lazy_imports().is_none());
}

#[test]
fn route_attribute_is_found_by_its_name() {
    assert!(ReplaceLazyVisitor::has_route_attribute(&vec![None, Some("route".to_string())]));
    assert!(!ReplaceLazyVisitor::has_route_attribute(&vec![Some("Route".to_string())]));
    assert!(!ReplaceLazyVisitor::has_route_attribute(&vec![]));
}
