use code_nav::refsearch::find_references_in_content;

#[test]
fn test_reference_not_found_inside_string() {
    // Searching `foo` on a line that declares it and also mentions it in
    // a string literal: only the declaration identifier is a reference.
    let content = "const foo = \"foo is here\";\n";
    let refs = find_references_in_content("foo", "js_family", "test.js", content, &vec![1]);
    assert_eq!(refs.len(), 1);
    assert_eq!(refs[0].kind, "reference");
    assert_eq!(refs[0].start_line, 1);
    assert_eq!(refs[0].start_column, 7);
    assert_eq!(refs[0].end_column, 10);
}

#[test]
fn test_reference_skips_property_access() {
    // `obj.value = value;` searching `value`: the right-hand use counts,
    // the property name after the dot does not.
    let content = "obj.value = value;\n";
    let refs = find_references_in_content("value", "js_family", "test.js", content, &vec![1]);
    assert_eq!(refs.len(), 1);
    assert_eq!(refs[0].start_column, 13);
}

#[test]
fn test_reference_import_renaming() {
    let content = "import { original as renamed } from \"x\";\nrenamed();\n";

    // The pre-alias name in an import renaming is not a reference.
    let refs =
        find_references_in_content("original", "js_family", "test.js", content, &vec![1, 2]);
    assert_eq!(refs.len(), 0);

    // The alias is: once as the import binding, once at the call.
    let refs = find_references_in_content("renamed", "js_family", "test.js", content, &vec![1, 2]);
    assert_eq!(refs.len(), 2);
    assert_eq!(refs[0].start_line, 1);
    assert_eq!(refs[1].start_line, 2);
}

#[test]
fn test_reference_word_boundaries() {
    // `fooBar` must not match inside `barFooBarBaz`.
    let content = "let fooBar = 1;\nlet barFooBarBaz = fooBar;\n";
    let refs = find_references_in_content("fooBar", "js_family", "test.js", content, &vec![1, 2]);
    assert_eq!(refs.len(), 2);
    assert_eq!(refs[0].start_line, 1);
    assert_eq!(refs[1].start_line, 2);
    assert_eq!(refs[1].start_column, 20);
}

#[test]
fn test_reference_skips_comments() {
    let content = "// speed is a comment\nlet speed = 1;\nrun(speed);\n";
    let refs =
        find_references_in_content("speed", "js_family", "test.js", content, &vec![1, 2, 3]);
    assert_eq!(refs.len(), 2);
    assert_eq!(refs[0].start_line, 2);
    assert_eq!(refs[1].start_line, 3);
}

#[test]
fn test_reference_skips_object_key() {
    // `{ config: 1 }`: the key is a binding, not a use; the argument is.
    let content = "take({ config: 1 });\ntake(config);\n";
    let refs = find_references_in_content("config", "js_family", "test.js", content, &vec![1, 2]);
    assert_eq!(refs.len(), 1);
    assert_eq!(refs[0].start_line, 2);
}

#[test]
fn test_reference_family_must_match() {
    let content = "let lonely = 1;\n";
    // A JavaScript file never contributes to a Python-family query.
    let refs = find_references_in_content("lonely", "python", "test.js", content, &vec![1]);
    assert_eq!(refs.len(), 0);
}

#[test]
fn test_reference_unknown_extension() {
    let content = "lonely\n";
    let refs = find_references_in_content("lonely", "python", "notes.txt", content, &vec![1]);
    assert_eq!(refs.len(), 0);
}

#[test]
fn test_reference_rust_field_expression() {
    let content = "fn main() { let speed = 1; let s = engine.speed + speed; }\n";
    let refs = find_references_in_content("speed", "rust", "test.rs", content, &vec![1]);
    // The declaration and the plain use count; `engine.speed` does not.
    assert_eq!(refs.len(), 2);
}

#[test]
fn test_reference_python_attribute() {
    let content = "width = 3\narea = shape.width + width\n";
    let refs = find_references_in_content("width", "python", "test.py", content, &vec![1, 2]);
    // Declaration and plain use; `shape.width` is rejected.
    assert_eq!(refs.len(), 2);
    assert_eq!(refs[0].start_line, 1);
    assert_eq!(refs[1].start_line, 2);
}

#[test]
fn test_reference_go_selector_expression() {
    let content = "package main\nfunc run() { speed := 1; use(car.speed + speed) }\n";
    let refs = find_references_in_content("speed", "go", "test.go", content, &vec![2]);
    // The declaration and the plain use; `car.speed` is rejected.
    assert_eq!(refs.len(), 2);
}

#[test]
fn test_reference_line_zero_yields_nothing() {
    let content = "let thing = 1;\n";
    let refs = find_references_in_content("thing", "js_family", "test.js", content, &vec![0]);
    assert_eq!(refs.len(), 0);
}
