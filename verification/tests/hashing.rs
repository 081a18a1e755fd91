use nullstack_swc::loaders::inject_hash_to_class::InjectHashVisitor;
use nullstack_swc::loaders::{combine_hash, hash};

#[test]
fn inject_dev_hash() {
    let v = InjectHashVisitor::new("src/Application.njs".to_string(), true);
    assert_eq!(v.class_hash("Component"), "src__Application___Component");
}

#[test]
fn inject_dev_hash_with_multiple_classes() {
    let v = InjectHashVisitor::new("src/Application.njs".to_string(), true);
    assert_eq!(v.class_hash("Component"), "src__Application___Component");
    assert_eq!(v.class_hash("Component2"), "src__Application___Component2");
}

#[test]
fn inject_prod_hash() {
    let v = InjectHashVisitor::new("src/Application.njs".to_string(), false);
    assert_eq!(v.class_hash("Component"), "9d3ab271cb0f23f4");
}

#[test]
fn inject_prod_hash_with_multiple_classes() {
    let v = InjectHashVisitor::new("src/Application.njs".to_string(), false);
    assert_eq!(v.class_hash("Component"), "9d3ab271cb0f23f4");
    assert_eq!(v.class_hash("Component2"), "9d3ab271a0ce872b");
}

#[test]
fn dev_hash_replaces_both_separators_and_cuts_at_first_dot() {
    assert_eq!(hash("src/Application.njs", true), "src__Application");
    assert_eq!(hash("src\\Application.njs", true), "src__Application");
    assert_eq!(hash("a/b.c/d.e", true), "a__b");
    assert_eq!(hash("", true), "");
    assert_eq!(hash(".hidden", true), "");
    assert_eq!(hash("no_dots", true), "no_dots");
}

#[test]
fn prod_hash_is_crc32_in_lower_hex_without_padding() {
    assert_eq!(hash("src/Application.njs", false), "9d3ab271");
    assert_eq!(hash("Component", false), "cb0f23f4");
    // crc32 of the empty input is 0
    assert_eq!(hash("", false), "0");
    // crc32("a") = 0xe8b7be43
    assert_eq!(hash("a", false), "e8b7be43");
    assert_eq!(hash("src/LazyComponent", false), "c1a38acc");
}

#[test]
fn combine_hash_joins_with_three_underscores_in_development() {
    assert_eq!(combine_hash("file", "Class", true), "file___Class");
    assert_eq!(combine_hash("file", "Class", false), "fileClass");
    assert_eq!(combine_hash("", "", true), "___");
}
