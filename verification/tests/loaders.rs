use nullstack_swc::loaders::helpers::{transpiler_ident, IdentInfo, SpanInfo};
use nullstack_swc::loaders::inject_accept_to_module::{get_hash, Class, ExprKind, InjectAcceptVisitor, LitValue, MemberRole, ServerFunction};
use nullstack_swc::loaders::inject_nullstack_to_modules::InjectNullstackVisitor;
use nullstack_swc::loaders::inject_restart_to_module::{ImportKind, ImportSpec, InjectRestartVisitor};
use nullstack_swc::loaders::inject_runtime_to_module::InjectTranspilerVisitor as InjectRuntimeVisitor;
use nullstack_swc::loaders::inject_source_to_events::InjectSourceVisitor;
use nullstack_swc::loaders::inject_transpiler_to_module::InjectTranspilerVisitor;
use nullstack_swc::loaders::register_server_functions_on_server::RegisterServerFunctionVisitor;
use nullstack_swc::loaders::remove_styles_on_server::{is_style, RemoveStylesVisitor};
use nullstack_swc::loaders::remove_unused_from_client::{allow_list, RemoveUnusedVisitor, UsedIdent};
use nullstack_swc::loaders::replace_ref_on_attributes::{MemberPropKind, PropertyValue, ReplaceRefVisitor};
use nullstack_swc::loaders::replace_server_functions_on_client::ReplaceServerFunctionVisitor;

fn ident(sym: &str, lo: u32) -> IdentInfo {
    IdentInfo { sym: sym.to_string(), span: SpanInfo { lo, hi: lo + sym.len() as u32, ctxt: 0 } }
}

#[test]
fn inject_nullstack() {
    let mut v = InjectNullstackVisitor::default();
    let previous = v.enter_module();
    v.on_import_decl("nutsack");
    assert!(v.exit_module(previous));
    assert!(!v.seeking_import);
}

#[test]
fn skip_inject_nullstack() {
    let mut v = InjectNullstackVisitor::default();
    let previous = v.enter_module();
    assert!(v.seeking_import);
    v.on_import_decl("NullStack");
    assert!(!v.exit_module(previous));
}

#[test]
fn inject_runtime_to_classes() {
    let mut v = InjectRuntimeVisitor::default();
    v.on_import_default_specifier("Nullstack");
    assert!(v.needs_runtime_import());
    v.on_import_default_specifier("$runtime");
    assert!(!v.needs_runtime_import());
}

#[test]
fn inject_transpiler() {
    let mut v = InjectTranspilerVisitor::default();
    assert!(v.on_import_decl("nullstack", true));
    assert!(!v.needs_import());
    assert!(!v.on_import_decl("nullstack", true));
}

#[test]
fn inject_transpiler_in_same_context() {
    let mut v = InjectTranspilerVisitor::default();
    assert!(!v.on_import_decl("nullstack", false));
    assert!(!v.on_import_decl("react", true));
    assert!(v.needs_import());
    let i = transpiler_ident();
    assert_eq!(i.sym, "$transpiler");
    assert_eq!(i.span, SpanInfo { lo: 0, hi: 0, ctxt: 69 });
}

fn attrs(names: &[Option<&str>]) -> Vec<Option<String>> {
    names.iter().map(|n| n.map(|s| s.to_string())).collect()
}

#[test]
fn inject_source_to_node() {
    let v = InjectSourceVisitor::default();
    assert!(v.should_inject_source_attribute(&attrs(&[Some("onclick")])));
}

#[test]
fn skip_inject_duplicated_source_to_node() {
    let v = InjectSourceVisitor::default();
    assert!(!v.should_inject_source_attribute(&attrs(&[Some("source"), Some("onclick")])));
    assert!(!v.should_inject_source_attribute(&attrs(&[Some("onclick"), Some("SOURCE")])));
}

#[test]
fn skip_inject_source_to_node() {
    let v = InjectSourceVisitor::default();
    assert!(!v.should_inject_source_attribute(&attrs(&[Some("class")])));
    assert!(!v.should_inject_source_attribute(&attrs(&[None])));
    assert!(!v.should_inject_source_attribute(&attrs(&[])));
}

#[test]
fn register_server_functions() {
    let mut v = RegisterServerFunctionVisitor::default();
    v.enter_class(ident("Component", 6));
    v.on_class_member(true, true, true, Some("server"));
    v.exit_class(ident("Component", 6));
    let r: Vec<(String, Option<String>)> = v.registrations().into_iter().map(|r| (r.class_name.sym, r.function_name)).collect();
    assert_eq!(r, vec![("Component".to_string(), Some("server".to_string())), ("Component".to_string(), None)]);
}

#[test]
fn skip_register_server_functions_with_multiple_classes() {
    let mut v = RegisterServerFunctionVisitor::default();
    v.enter_class(ident("Component", 6));
    v.on_class_member(true, true, true, Some("server"));
    v.exit_class(ident("Component", 6));
    v.enter_class(ident("Component2", 60));
    v.exit_class(ident("Component2", 60));
    let r: Vec<(String, Option<String>)> = v.registrations().into_iter().map(|r| (r.class_name.sym, r.function_name)).collect();
    assert_eq!(r, vec![("Component".to_string(), Some("server".to_string())), ("Component".to_string(), None)]);
}

#[test]
fn skip_register_server_functions_starting_with_underline() {
    let mut v = RegisterServerFunctionVisitor::default();
    v.enter_class(ident("Component", 6));
    v.on_class_member(true, true, true, Some("server"));
    v.on_class_member(true, true, true, Some("_private"));
    v.on_class_member(true, false, true, Some("client"));
    v.on_class_member(true, true, false, Some("isomorphic"));
    v.on_class_member(false, true, true, Some("property"));
    v.exit_class(ident("Component", 6));
    assert_eq!(v.registrations().len(), 2);
}

#[test]
fn remove_css() {
    let v = RemoveStylesVisitor::default();
    assert!(!v.keeps_item(Some("styles.css")));
    assert!(!v.keeps_item(Some("styles.scss")));
    assert!(!v.keeps_item(Some("styles.sass")));
    assert!(v.keeps_item(Some("styles.js")));
    assert!(v.keeps_item(None));
    assert!(is_style("nullstack"));
}

fn used(sym: &str, lo: u32) -> UsedIdent {
    UsedIdent { sym: sym.to_string(), ctxt: 1, outer_mark: 1, lo, hi: lo + sym.len() as u32 }
}

#[test]
fn remove_unused_import() {
    // import fs from 'fs'; class Component { };
    let mut v = RemoveUnusedVisitor::default();
    v.on_ident(used("fs", 7));
    v.reject(used("fs", 7));
    v.on_ident(used("Component", 27));
    let allowed = v.allowed();
    assert!(!RemoveUnusedVisitor::keeps_import(&allowed, &vec![used("fs", 7)]));
}

#[test]
fn remove_unused_when_member_conflict() {
    // import fs from 'fs'; class Component { fs() {} };
    let mut v = RemoveUnusedVisitor::default();
    v.on_ident(used("fs", 7));
    v.reject(used("fs", 7));
    v.on_ident(used("fs", 39));
    v.reject(used("fs", 39));
    let allowed = v.allowed();
    assert!(!RemoveUnusedVisitor::keeps_import(&allowed, &vec![used("fs", 7)]));
}

#[test]
fn keep_used_imports() {
    // import fs from 'fs'; ... fs.existsSync(...)
    let mut v = RemoveUnusedVisitor::default();
    v.on_ident(used("fs", 7));
    v.reject(used("fs", 7));
    v.on_ident(used("fs", 90));
    v.on_ident(used("existsSync", 93));
    v.reject(used("existsSync", 93));
    let allowed = v.allowed();
    assert_eq!(allowed.len(), 1);
    assert!(RemoveUnusedVisitor::keeps_import(&allowed, &vec![used("fs", 7)]));
}

#[test]
fn keep_css_imports() {
    let v = RemoveUnusedVisitor::default();
    assert!(RemoveUnusedVisitor::keeps_import(&v.allowed(), &vec![]));
}

#[test]
fn keep_imports_without_identifiers() {
    let v = RemoveUnusedVisitor::default();
    assert!(RemoveUnusedVisitor::keeps_import(&v.allowed(), &vec![]));
}

#[test]
fn keep_runtime_import() {
    let mut v = RemoveUnusedVisitor::default();
    v.on_ident(used("$runtime", 7));
    v.reject(used("$runtime", 7));
    assert!(RemoveUnusedVisitor::keeps_import(&v.allowed(), &vec![used("$runtime", 7)]));
}

#[test]
fn allow_list_keeps_order_and_drops_rejected_occurrences() {
    let list = vec![used("a", 1), used("b", 2), used("a", 3)];
    let reject = vec![used("a", 1)];
    let a = allow_list(&list, &reject);
    let syms: Vec<(String, u32)> = a.into_iter().map(|i| (i.sym, i.lo)).collect();
    assert_eq!(syms, vec![("b".to_string(), 2), ("a".to_string(), 3)]);
}

#[test]
fn inject_nullstack_on_client_replaces_server_functions() {
    let v = ReplaceServerFunctionVisitor::default();
    assert!(v.keeps_member(true, true, true, Some("server")));
    assert_eq!(v.invoke_name(true, true, true, Some("server")), Some("server".to_string()));
}

#[test]
fn skip_inject_nullstack_when_not_async() {
    let v = ReplaceServerFunctionVisitor::default();
    assert!(v.keeps_member(true, true, false, Some("server")));
    assert_eq!(v.invoke_name(true, true, false, Some("server")), None);
    assert_eq!(v.invoke_name(true, false, true, Some("server")), None);
}

#[test]
fn remove_server_functions_starting_with_underline() {
    let v = ReplaceServerFunctionVisitor::default();
    assert!(!v.keeps_member(true, true, true, Some("_server")));
    assert!(v.keeps_member(true, false, true, Some("_client")));
}

#[test]
fn replace_simple_ref() {
    let mut v = ReplaceRefVisitor::default();
    assert!(!v.rewrites_container());
    assert!(v.enter_attribute(Some("ref"), true));
    assert!(v.rewrites_container());
    v.exit_attribute();
    assert!(!v.rewrites_container());
    match ReplaceRefVisitor::property_value(MemberPropKind::Ident("element".to_string())) {
        PropertyValue::StringLiteral(s) => assert_eq!(s, "element"),
        _ => panic!("expected a string literal"),
    }
}

#[test]
fn replace_simple_bind() {
    let mut v = ReplaceRefVisitor::default();
    assert!(v.enter_attribute(Some("bind"), true));
    v.exit_attribute();
    assert!(!v.enter_attribute(Some("bind"), false));
    assert!(!v.enter_attribute(Some("class"), true));
    assert!(!v.enter_attribute(None, true));
    assert!(matches!(ReplaceRefVisitor::property_value(MemberPropKind::Computed), PropertyValue::ComputedExpression));
    assert!(matches!(ReplaceRefVisitor::property_value(MemberPropKind::PrivateName), PropertyValue::PrivateIdentifier));
}

fn spec(kind: ImportKind, local: &str) -> ImportSpec {
    ImportSpec { kind, local: local.to_string() }
}

/// Three passes over the statements of an entry point.
fn restart(nullstack_local: &str, app_spec: ImportSpec, app_src: &str, started: &str) -> Option<String> {
    let mut v = InjectRestartVisitor::default();
    for _ in 0..3 {
        v.on_import_decl("nullstack", &vec![spec(ImportKind::Default, nullstack_local)]);
        v.on_import_decl(app_src, &vec![spec(app_spec.kind, &app_spec.local)]);
        v.on_call_expr(Some(nullstack_local), Some("start"), Some(started));
    }
    v.restart_path()
}

#[test]
fn inject_restart() {
    assert_eq!(restart("Nullstack", spec(ImportKind::Default, "Application"), "./src/Application", "Application"), Some("./src/Application".to_string()));
}

#[test]
fn inject_restart_unusual_nullstack_ident() {
    assert_eq!(restart("Nadegas", spec(ImportKind::Default, "Application"), "./src/Application", "Application"), Some("./src/Application".to_string()));
}

#[test]
fn inject_restart_unusual_application_ident() {
    assert_eq!(restart("Nullstack", spec(ImportKind::Named, "Blog"), "./src/Blog", "Blog"), Some("./src/Blog".to_string()));
}

#[test]
fn restart_needs_the_start_call() {
    let mut v = InjectRestartVisitor::default();
    v.on_import_decl("nullstack", &vec![spec(ImportKind::Default, "Nullstack")]);
    v.on_call_expr(Some("Nullstack"), Some("stop"), Some("Application"));
    v.on_import_decl("./src/Application", &vec![spec(ImportKind::Default, "Application")]);
    assert_eq!(v.restart_path(), None);
    assert!(InjectRestartVisitor::member_expr_aborts(Some("Nullstack"), Some("start")));
    assert!(!InjectRestartVisitor::member_expr_aborts(Some("Nadegas"), Some("start")));
}

fn strings(v: &[&str]) -> Vec<String> {
    v.iter().map(|s| s.to_string()).collect()
}

#[test]
fn inject_accept() {
    // class Component {};
    let mut v = InjectAcceptVisitor::new("/src/Application.njs".into());
    v.enter_class("Component");
    v.exit_class();
    let a = v.accept_args();
    assert_eq!(a.file_path, "/src/Application.njs");
    assert_eq!(a.klasses, strings(&["Component"]));
    assert_eq!(a.dependencies, Vec::<String>::new());
}

#[test]
fn inject_multiple_accept() {
    // class Component {}; class Component2 {};
    let mut v = InjectAcceptVisitor::new("/src/Application.njs".into());
    v.enter_class("Component");
    v.exit_class();
    v.enter_class("Component2");
    v.exit_class();
    let a = v.accept_args();
    assert_eq!(a.file_path, "/src/Application.njs");
    assert_eq!(a.klasses, strings(&["Component", "Component2"]));
    assert_eq!(a.dependencies, Vec::<String>::new());
}

#[test]
fn inject_multiple_imports() {
    // import Nullstack from 'nullstack'; import Logo from 'nullstack/logo';
    // class Component {}; class Component2 {};
    let mut v = InjectAcceptVisitor::new("/src/Application.njs".into());
    v.on_import("nullstack");
    v.on_import("nullstack/logo");
    v.enter_class("Component");
    v.exit_class();
    v.enter_class("Component2");
    v.exit_class();
    let a = v.accept_args();
    assert_eq!(a.file_path, "/src/Application.njs");
    assert_eq!(a.klasses, strings(&["Component", "Component2"]));
    assert_eq!(a.dependencies, strings(&["nullstack", "nullstack/logo"]));
}

#[test]
fn a_class_met_twice_is_named_once() {
    let mut v = InjectAcceptVisitor::new("/src/Application.njs".into());
    v.enter_class("Component");
    v.exit_class();
    v.enter_class("Component");
    v.exit_class();
    assert_eq!(v.accept_args().klasses, strings(&["Component"]));
}

#[test]
fn initiate_hash_is_the_md5_of_the_server_functions_it_uses() {
    let class = Class {
        server_functions: vec![
            ServerFunction { name: "load".to_string(), bytes: b"abc".to_vec() },
            ServerFunction { name: "save".to_string(), bytes: b"zzz".to_vec() },
        ],
        initiate_dependencies: vec!["load".to_string()],
    };
    assert_eq!(get_hash(&class), "900150983cd24fb0d6963f7d28e17f72");
    let unused = Class { server_functions: class.server_functions, initiate_dependencies: vec!["other".to_string()] };
    assert_eq!(get_hash(&unused), "");
}

#[test]
fn server_function_bytes_gathered_while_walking() {
    let mut v = InjectAcceptVisitor::new("/src/Application.njs".to_string());
    v.enter_class("Component");
    let role = v.enter_method(true, true, "load");
    assert_eq!(role, MemberRole::ServerFunction);
    // `return "a"` — a literal expression holding "a"
    v.on_expr(ExprKind::Lit);
    v.on_lit(&LitValue::Str("a".to_string()));
    v.exit_method(role);
    let role = v.enter_method(false, false, "initiate");
    assert_eq!(role, MemberRole::Initiate);
    v.on_ident("load");
    v.exit_method(role);
    assert_eq!(v.enter_method(false, true, "other"), MemberRole::Other);
    let classes = v.class_fingerprints();
    assert_eq!(classes.len(), 1);
    assert_eq!(classes[0].name, "Component");
    // bytes: 16 (literal expression), then "a"
    assert_eq!(classes[0].initiate, format!("{:x}", md5::compute([16u8, b'a'])));
}

#[test]
fn initiate_hash_ignores_functions_it_does_not_use() {
    let make = |save: &[u8]| Class {
        server_functions: vec![
            ServerFunction { name: "load".to_string(), bytes: b"abc".to_vec() },
            ServerFunction { name: "save".to_string(), bytes: save.to_vec() },
        ],
        initiate_dependencies: vec!["load".to_string()],
    };
    assert_eq!(get_hash(&make(b"zzz")), get_hash(&make(b"something else")));
}

#[test]
fn remove_unused_runtime_source_without_runtime_binding() {
    let mut v = RemoveUnusedVisitor::default();
    v.on_ident(used("foo", 7));
    v.reject(used("foo", 7));
    assert!(!RemoveUnusedVisitor::keeps_import(&v.allowed(), &vec![used("foo", 7)]));
}

#[test]
fn register_class_whose_only_server_function_is_private() {
    let mut v = RegisterServerFunctionVisitor::default();
    v.enter_class(ident("Component", 6));
    v.on_class_member(true, true, true, Some("_private"));
    v.exit_class(ident("Component", 6));
    v.enter_class(ident("Component2", 60));
    v.on_class_member(true, false, true, Some("client"));
    v.exit_class(ident("Component2", 60));
    let r: Vec<(String, Option<String>)> = v.registrations().into_iter().map(|r| (r.class_name.sym, r.function_name)).collect();
    assert_eq!(r, vec![("Component".to_string(), None)]);
}
