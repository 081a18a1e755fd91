use nullstack_swc::loaders::helpers::SpanInfo;
use nullstack_swc::loaders::inject_inner_components_to_class::{push_if_uppercase, InjectInnerComponentVisitor, ModuleItemShape};

fn span(lo: u32) -> SpanInfo {
    SpanInfo { lo, hi: lo + 1, ctxt: 0 }
}

/// Walks `render() { <body> }` of a class `Component`: the statements before the JSX
/// (`declared` names), then the elements' tag names, each walked as a tag and again
/// as a child of the element. Returns the injected constants as (name, function).
fn render_method(v: &mut InjectInnerComponentVisitor, method: &str, declared: &[&str], tags: &[&str]) -> Vec<(String, String)> {
    assert!(InjectInnerComponentVisitor::is_render_method(method));
    v.enter_render_method();
    for d in declared {
        v.on_ident(d, span(1));
    }
    for (i, t) in tags.iter().enumerate() {
        assert!(v.enter_opening_element());
        v.on_ident(t, span(10 + i as u32));
        v.exit_tag_name();
        v.on_ident(t, span(10 + i as u32));
    }
    v.exit_render_method().into_iter().map(|c| (c.name, c.function_name)).collect()
}

fn constant(name: &str) -> (String, String) {
    (name.to_string(), format!("render{}", name))
}

#[test]
fn skip_inject_outter_components() {
    let mut v = InjectInnerComponentVisitor::default();
    v.record_outer("OutterComponent");
    v.enter_class(Some("Component"));
    assert_eq!(render_method(&mut v, "render", &[], &["OutterComponent"]), vec![]);
    v.exit_class();
}

#[test]
fn skip_inject_declared_variables() {
    let mut v = InjectInnerComponentVisitor::default();
    v.enter_class(Some("Component"));
    assert_eq!(render_method(&mut v, "render", &["InnerComponent"], &["InnerComponent"]), vec![]);
}

#[test]
fn inject_inner_components() {
    let mut v = InjectInnerComponentVisitor::default();
    v.enter_class(Some("Component"));
    assert_eq!(render_method(&mut v, "render", &[], &["InnerComponent"]), vec![constant("InnerComponent")]);
}

#[test]
fn inject_inner_components_with_nested_tags() {
    let mut v = InjectInnerComponentVisitor::default();
    v.enter_class(Some("Component"));
    assert_eq!(
        render_method(&mut v, "render", &[], &["InnerWrapper", "InnerComponent"]),
        vec![constant("InnerComponent"), constant("InnerWrapper")]
    );
}

#[test]
fn inject_inner_components_all_functions() {
    let mut v = InjectInnerComponentVisitor::default();
    v.enter_class(Some("Component"));
    assert_eq!(render_method(&mut v, "renderSomethingElse", &[], &["InnerComponent"]), vec![constant("InnerComponent")]);
    assert_eq!(render_method(&mut v, "render", &[], &["InnerComponent"]), vec![constant("InnerComponent")]);
}

#[test]
fn skip_inject_for_regular_tags() {
    let mut v = InjectInnerComponentVisitor::default();
    v.enter_class(Some("Component"));
    assert_eq!(render_method(&mut v, "render", &[], &["div"]), vec![]);
}

#[test]
fn inject_inner_component_without_repeating() {
    let mut v = InjectInnerComponentVisitor::default();
    v.enter_class(Some("Component"));
    assert_eq!(render_method(&mut v, "render", &[], &["div", "InnerComponent", "InnerComponent"]), vec![constant("InnerComponent")]);
}

#[test]
fn skip_inject_class_declr() {
    let mut v = InjectInnerComponentVisitor::default();
    v.enter_class(Some("Component"));
    assert_eq!(render_method(&mut v, "render", &[], &["InnerComponent"]), vec![constant("InnerComponent")]);
    v.exit_class();
    v.enter_class(Some("Component2"));
    assert_eq!(render_method(&mut v, "render", &[], &["Component"]), vec![]);
}

#[test]
fn inject_inner_components_when_declare_conflict() {
    assert!(!InjectInnerComponentVisitor::keeps_module_item(true));
    assert!(InjectInnerComponentVisitor::keeps_module_item(false));
    let mut v = InjectInnerComponentVisitor::default();
    v.enter_class(Some("Component"));
    assert_eq!(render_method(&mut v, "render", &[], &["Link"]), vec![constant("Link")]);
}

#[test]
fn tags_are_not_looked_for_outside_render_methods() {
    let mut v = InjectInnerComponentVisitor::default();
    assert!(!InjectInnerComponentVisitor::is_render_method("prepare"));
    v.enter_class(Some("Component"));
    assert!(!v.enter_opening_element());
    v.on_ident("Inner", span(3));
    assert!(v.exit_render_method().is_empty());
}

#[test]
fn push_if_uppercase_adds_each_capitalised_name_once() {
    let mut names: Vec<String> = vec![];
    push_if_uppercase(&mut names, "Alpha");
    push_if_uppercase(&mut names, "beta");
    push_if_uppercase(&mut names, "Alpha");
    push_if_uppercase(&mut names, "");
    push_if_uppercase(&mut names, "Éclair");
    assert_eq!(names, vec!["Alpha".to_string(), "Éclair".to_string()]);
}

fn with_module_item(item: ModuleItemShape, walk: bool) -> Vec<(String, String)> {
    let mut v = InjectInnerComponentVisitor::default();
    assert_eq!(v.on_module_item(&item), walk);
    v.enter_class(Some("Component"));
    render_method(&mut v, "render", &[], &["InnerComponent"])
}

#[test]
fn skip_inject_import_default() {
    assert_eq!(with_module_item(ModuleItemShape::Import(vec!["InnerComponent".to_string()]), false), vec![]);
}

#[test]
fn skip_inject_import_named_as_local() {
    assert_eq!(with_module_item(ModuleItemShape::Import(vec!["Other".to_string(), "InnerComponent".to_string()]), false), vec![]);
}

#[test]
fn skip_inner_components_with_top_level_const() {
    assert_eq!(with_module_item(ModuleItemShape::Variables(vec![Some("InnerComponent".to_string())]), false), vec![]);
}

#[test]
fn inject_inner_components_with_top_renamed_destructured_const() {
    assert_eq!(with_module_item(ModuleItemShape::Variables(vec![None]), false), vec![constant("InnerComponent")]);
}

#[test]
fn skip_inject_inner_components_when_define_top_function() {
    assert_eq!(
        with_module_item(ModuleItemShape::Function { name: "InnerComponent".to_string(), declare: false }, false),
        vec![]
    );
}

#[test]
fn declared_functions_bind_nothing() {
    assert_eq!(
        with_module_item(ModuleItemShape::Function { name: "InnerComponent".to_string(), declare: true }, false),
        vec![constant("InnerComponent")]
    );
    assert_eq!(with_module_item(ModuleItemShape::Other, true), vec![constant("InnerComponent")]);
}
