use code_nav::indexer::CodeNavigationService;

#[test]
fn test_new_service_has_languages() {
    let service = CodeNavigationService::new();

    // Check that languages are registered
    assert!(service.is_language_registered("python"));
    assert!(service.is_language_registered("rust"));
    assert!(service.is_language_registered("go"));
    assert!(service.is_language_registered("c"));
    assert!(service.is_language_registered("cpp"));
    assert!(service.is_language_registered("java"));
    assert!(service.is_language_registered("typescript"));
    assert!(service.is_language_registered("javascript"));
}

#[test]
fn test_new_service_has_parsers() {
    let service = CodeNavigationService::new();

    // Languages whose parser installed are registered
    assert!(service.is_language_registered("python"));
    assert!(service.is_language_registered("rust"));
    assert!(service.is_language_registered("typescript"));
}

#[test]
fn test_new_service_has_queries() {
    let service = CodeNavigationService::new();

    // Languages whose definition query compiled are registered
    assert!(service.is_language_registered("python"));
    assert!(service.is_language_registered("rust"));
    assert!(service.is_language_registered("go"));
}

#[test]
fn test_get_lang_family() {
    assert_eq!(CodeNavigationService::get_lang_family("c"), "c_family");
    assert_eq!(CodeNavigationService::get_lang_family("cpp"), "c_family");
    assert_eq!(CodeNavigationService::get_lang_family("typescript"), "js_family");
    assert_eq!(CodeNavigationService::get_lang_family("javascript"), "js_family");
    assert_eq!(CodeNavigationService::get_lang_family("python"), "python");
    assert_eq!(CodeNavigationService::get_lang_family("rust"), "rust");
    assert_eq!(CodeNavigationService::get_lang_family("go"), "go");
    assert_eq!(CodeNavigationService::get_lang_family("java"), "java");
    assert_eq!(CodeNavigationService::get_lang_family("unknown"), "unknown");
}

#[test]
fn test_get_lang_id_from_path() {
    assert_eq!(CodeNavigationService::get_lang_id_from_path("test.py"), Some("python".to_string()));
    assert_eq!(CodeNavigationService::get_lang_id_from_path("test.rs"), Some("rust".to_string()));
    assert_eq!(CodeNavigationService::get_lang_id_from_path("test.go"), Some("go".to_string()));
    assert_eq!(CodeNavigationService::get_lang_id_from_path("test.c"), Some("c".to_string()));
    assert_eq!(CodeNavigationService::get_lang_id_from_path("test.h"), Some("c".to_string()));
    assert_eq!(CodeNavigationService::get_lang_id_from_path("test.cpp"), Some("cpp".to_string()));
    assert_eq!(CodeNavigationService::get_lang_id_from_path("test.cc"), Some("cpp".to_string()));
    assert_eq!(CodeNavigationService::get_lang_id_from_path("test.hpp"), Some("cpp".to_string()));
    assert_eq!(CodeNavigationService::get_lang_id_from_path("test.java"), Some("java".to_string()));
    assert_eq!(
        CodeNavigationService::get_lang_id_from_path("test.ts"),
        Some("typescript".to_string())
    );
    assert_eq!(
        CodeNavigationService::get_lang_id_from_path("test.tsx"),
        Some("typescript".to_string())
    );
    assert_eq!(
        CodeNavigationService::get_lang_id_from_path("test.js"),
        Some("javascript".to_string())
    );
    assert_eq!(
        CodeNavigationService::get_lang_id_from_path("test.jsx"),
        Some("javascript".to_string())
    );
    assert_eq!(
        CodeNavigationService::get_lang_id_from_path("test.mjs"),
        Some("javascript".to_string())
    );
    assert_eq!(CodeNavigationService::get_lang_id_from_path("test.txt"), None);
}

#[test]
fn test_get_symbol_kind() {
    assert_eq!(CodeNavigationService::get_symbol_kind("function.definition"), "function");
    assert_eq!(CodeNavigationService::get_symbol_kind("class.definition"), "class");
    assert_eq!(CodeNavigationService::get_symbol_kind("struct.definition"), "struct");
    assert_eq!(CodeNavigationService::get_symbol_kind("enum.definition"), "enum");
    assert_eq!(CodeNavigationService::get_symbol_kind("trait.definition"), "trait");
    assert_eq!(CodeNavigationService::get_symbol_kind("interface.definition"), "interface");
    assert_eq!(CodeNavigationService::get_symbol_kind("method.definition"), "method");
    assert_eq!(CodeNavigationService::get_symbol_kind("type.definition"), "type");
    assert_eq!(CodeNavigationService::get_symbol_kind("const.definition"), "const");
    assert_eq!(CodeNavigationService::get_symbol_kind("static.definition"), "static");
    assert_eq!(CodeNavigationService::get_symbol_kind("unknown"), "symbol");
}

#[test]
fn test_index_python_file() {
    let mut service = CodeNavigationService::new();

    let python_code = r#"
def my_function():
    pass

class MyClass:
    def method(self):
        pass
"#;

    service.index_file("test.py", python_code, "python");

    // Check that function definition was indexed
    let func_defs = service.find_definition("my_function", "python");
    assert!(!func_defs.is_empty(), "Should find my_function definition");
    assert_eq!(func_defs[0].name, "my_function");
    assert_eq!(func_defs[0].kind, "function");
    assert_eq!(func_defs[0].lang_family, "python");

    // Check that class definition was indexed
    let class_defs = service.find_definition("MyClass", "python");
    assert!(!class_defs.is_empty(), "Should find MyClass definition");
    assert_eq!(class_defs[0].name, "MyClass");
    assert_eq!(class_defs[0].kind, "class");
}

#[test]
fn test_index_rust_file() {
    let mut service = CodeNavigationService::new();

    let rust_code = r#"
fn my_function() {
    println!("Hello");
}

struct MyStruct {
    field: i32,
}

enum MyEnum {
    Variant1,
    Variant2,
}

trait MyTrait {
    fn method(&self);
}

const MY_CONST: i32 = 42;

type MyType = Vec<i32>;
"#;

    service.index_file("test.rs", rust_code, "rust");

    // Check function
    let func_defs = service.find_definition("my_function", "rust");
    assert!(!func_defs.is_empty(), "Should find my_function");
    assert_eq!(func_defs[0].kind, "function");

    // Check struct
    let struct_defs = service.find_definition("MyStruct", "rust");
    assert!(!struct_defs.is_empty(), "Should find MyStruct");
    assert_eq!(struct_defs[0].kind, "struct");

    // Check enum
    let enum_defs = service.find_definition("MyEnum", "rust");
    assert!(!enum_defs.is_empty(), "Should find MyEnum");
    assert_eq!(enum_defs[0].kind, "enum");

    // Check trait
    let trait_defs = service.find_definition("MyTrait", "rust");
    assert!(!trait_defs.is_empty(), "Should find MyTrait");
    assert_eq!(trait_defs[0].kind, "trait");

    // Check const
    let const_defs = service.find_definition("MY_CONST", "rust");
    assert!(!const_defs.is_empty(), "Should find MY_CONST");
    assert_eq!(const_defs[0].kind, "const");

    // Check type alias
    let type_defs = service.find_definition("MyType", "rust");
    assert!(!type_defs.is_empty(), "Should find MyType");
    assert_eq!(type_defs[0].kind, "type");
}

#[test]
fn test_index_typescript_file() {
    let mut service = CodeNavigationService::new();

    let ts_code = r#"
function myFunction() {
    console.log("Hello");
}

class MyClass {
    method() {}
}

interface MyInterface {
    prop: string;
}

type MyType = {
    field: number;
};

enum MyEnum {
    A,
    B,
}

const MY_CONST = 42;
"#;

    service.index_file("test.ts", ts_code, "typescript");

    // Check function
    let func_defs = service.find_definition("myFunction", "js_family");
    assert!(!func_defs.is_empty(), "Should find myFunction");
    assert_eq!(func_defs[0].kind, "function");

    // Check class
    let class_defs = service.find_definition("MyClass", "js_family");
    assert!(!class_defs.is_empty(), "Should find MyClass");
    assert_eq!(class_defs[0].kind, "class");

    // Check interface
    let interface_defs = service.find_definition("MyInterface", "js_family");
    assert!(!interface_defs.is_empty(), "Should find MyInterface");
    assert_eq!(interface_defs[0].kind, "interface");

    // Check type
    let type_defs = service.find_definition("MyType", "js_family");
    assert!(!type_defs.is_empty(), "Should find MyType");
    assert_eq!(type_defs[0].kind, "type");

    // Check enum
    let enum_defs = service.find_definition("MyEnum", "js_family");
    assert!(!enum_defs.is_empty(), "Should find MyEnum");
    assert_eq!(enum_defs[0].kind, "enum");
}

#[test]
fn test_index_go_file() {
    let mut service = CodeNavigationService::new();

    let go_code = r#"
package main

func myFunction() {
    fmt.Println("Hello")
}

type MyStruct struct {
    Field int
}

func (m *MyStruct) Method() {}
"#;

    service.index_file("test.go", go_code, "go");

    // Check function
    let func_defs = service.find_definition("myFunction", "go");
    assert!(!func_defs.is_empty(), "Should find myFunction");
    assert_eq!(func_defs[0].kind, "function");

    // Check struct type
    let type_defs = service.find_definition("MyStruct", "go");
    assert!(!type_defs.is_empty(), "Should find MyStruct");
    assert_eq!(type_defs[0].kind, "type");

    // Check method
    let method_defs = service.find_definition("Method", "go");
    assert!(!method_defs.is_empty(), "Should find Method");
    assert_eq!(method_defs[0].kind, "method");
}

#[test]
fn test_find_definition_filters_by_lang_family() {
    let mut service = CodeNavigationService::new();

    // Index same symbol name in different languages
    let python_code = "def test_func(): pass";
    let rust_code = "fn test_func() {}";

    service.index_file("test.py", python_code, "python");
    service.index_file("test.rs", rust_code, "rust");

    // Should only find Python definition
    let python_defs = service.find_definition("test_func", "python");
    assert_eq!(python_defs.len(), 1);
    assert_eq!(python_defs[0].file_path, "test.py");

    // Should only find Rust definition
    let rust_defs = service.find_definition("test_func", "rust");
    assert_eq!(rust_defs.len(), 1);
    assert_eq!(rust_defs[0].file_path, "test.rs");

    // Should find nothing for wrong lang family
    let js_defs = service.find_definition("test_func", "js_family");
    assert!(js_defs.is_empty());
}

#[test]
fn test_clear_file() {
    let mut service = CodeNavigationService::new();

    let code = "def my_function(): pass";
    service.index_file("test.py", code, "python");

    // Verify it was indexed
    let defs = service.find_definition("my_function", "python");
    assert!(!defs.is_empty());

    // Clear the file
    service.clear_file("test.py");

    // Verify it's gone
    let defs = service.find_definition("my_function", "python");
    assert!(defs.is_empty());
}

#[test]
fn test_clear_all() {
    let mut service = CodeNavigationService::new();

    service.index_file("test1.py", "def func1(): pass", "python");
    service.index_file("test2.py", "def func2(): pass", "python");

    // Verify both were indexed
    assert!(!service.find_definition("func1", "python").is_empty());
    assert!(!service.find_definition("func2", "python").is_empty());

    // Clear all
    service.clear_all();

    // Verify both are gone
    assert!(service.find_definition("func1", "python").is_empty());
    assert!(service.find_definition("func2", "python").is_empty());
}

#[test]
fn test_reindex_file_updates_symbols() {
    let mut service = CodeNavigationService::new();

    // Index initial version
    service.index_file("test.py", "def old_func(): pass", "python");
    assert!(!service.find_definition("old_func", "python").is_empty());
    assert!(service.find_definition("new_func", "python").is_empty());

    // Reindex with new content
    service.index_file("test.py", "def new_func(): pass", "python");

    // Old symbol should be gone, new should exist
    assert!(service.find_definition("old_func", "python").is_empty());
    assert!(!service.find_definition("new_func", "python").is_empty());
}

#[test]
fn test_symbol_info_line_numbers() {
    let mut service = CodeNavigationService::new();

    let code = r#"
def func_line_2():
    pass

def func_line_5():
    pass
"#;

    service.index_file("test.py", code, "python");

    let defs = service.find_definition("func_line_2", "python");
    assert!(!defs.is_empty());
    assert_eq!(defs[0].start_line, 2);

    let defs = service.find_definition("func_line_5", "python");
    assert!(!defs.is_empty());
    assert_eq!(defs[0].start_line, 5);
}

#[test]
fn test_index_c_file() {
    let mut service = CodeNavigationService::new();

    let c_code = r#"
void my_function() {
    printf("Hello\n");
}

struct MyStruct {
    int field;
};
"#;

    service.index_file("test.c", c_code, "c");

    // Check function
    let func_defs = service.find_definition("my_function", "c_family");
    assert!(!func_defs.is_empty(), "Should find my_function in C");
    assert_eq!(func_defs[0].kind, "function");

    // Check struct
    let struct_defs = service.find_definition("MyStruct", "c_family");
    assert!(!struct_defs.is_empty(), "Should find MyStruct in C");
    assert_eq!(struct_defs[0].kind, "struct");
}

#[test]
fn test_index_java_file() {
    let mut service = CodeNavigationService::new();

    let java_code = r#"
public class MyClass {
    public void myMethod() {
        System.out.println("Hello");
    }
}

interface MyInterface {
    void method();
}
"#;

    service.index_file("Test.java", java_code, "java");

    // Check class
    let class_defs = service.find_definition("MyClass", "java");
    assert!(!class_defs.is_empty(), "Should find MyClass in Java");
    assert_eq!(class_defs[0].kind, "class");

    // Check method
    let method_defs = service.find_definition("myMethod", "java");
    assert!(!method_defs.is_empty(), "Should find myMethod in Java");
    assert_eq!(method_defs[0].kind, "method");

    // Check interface
    let interface_defs = service.find_definition("MyInterface", "java");
    assert!(!interface_defs.is_empty(), "Should find MyInterface in Java");
    assert_eq!(interface_defs[0].kind, "interface");
}

#[test]
fn test_file_definitions_reverse_index() {
    let mut service = CodeNavigationService::new();

    service.index_file("test.py", "def func1(): pass\ndef func2(): pass", "python");

    // Check reverse index has the file
    let names = service.file_defined_names("test.py");
    assert!(names.is_some());

    // Check it contains both function names
    let names = names.unwrap();
    assert!(names.contains(&"func1".to_string()));
    assert!(names.contains(&"func2".to_string()));
}

#[test]
fn test_list_indexed_files() {
    let mut service = CodeNavigationService::new();

    service.index_file("a.py", "def fa(): pass", "python");
    service.index_file("b.py", "def fb(): pass", "python");

    let files = service.list_indexed_files();
    assert_eq!(files.len(), 2);
    assert!(files.contains(&"a.py".to_string()));
    assert!(files.contains(&"b.py".to_string()));
}

#[test]
fn test_index_unknown_language_clears_previous_entries() {
    let mut service = CodeNavigationService::new();

    service.index_file("test.py", "def gone(): pass", "python");
    assert!(!service.find_definition("gone", "python").is_empty());

    // Reindexing the same path under an unknown language still
    // invalidates the stale entries.
    service.index_file("test.py", "def gone(): pass", "cobol");
    assert!(service.find_definition("gone", "python").is_empty());
    assert!(service.list_indexed_files().is_empty());
}

#[test]
fn test_clear_file_keeps_other_files() {
    let mut service = CodeNavigationService::new();

    // The same symbol name defined in two files of one family.
    service.index_file("one.py", "def shared(): pass", "python");
    service.index_file("two.py", "def shared(): pass", "python");
    assert_eq!(service.find_definition("shared", "python").len(), 2);

    service.clear_file("one.py");

    // Clearing one file never removes the other file's definition.
    let defs = service.find_definition("shared", "python");
    assert_eq!(defs.len(), 1);
    assert_eq!(defs[0].file_path, "two.py");
}

#[test]
fn test_index_files_batch() {
    let mut service = CodeNavigationService::new();

    let files = vec![
        ("m1.py".to_string(), "def batch_one(): pass".to_string(), "python".to_string()),
        ("m2.rs".to_string(), "fn batch_two() {}".to_string(), "rust".to_string()),
        ("skip.zzz".to_string(), "???".to_string(), "zzz".to_string()),
    ];

    service.index_files_batch(&files);

    assert_eq!(service.find_definition("batch_one", "python").len(), 1);
    assert_eq!(service.find_definition("batch_two", "rust").len(), 1);
    // The unknown-language file was skipped entirely.
    assert_eq!(service.list_indexed_files().len(), 2);
}

#[test]
fn test_definition_positions_are_one_based() {
    let mut service = CodeNavigationService::new();
    service.index_file("pos.py", "def f(): pass", "python");
    let defs = service.find_definition("f", "python");
    assert_eq!(defs.len(), 1);
    assert_eq!(defs[0].start_line, 1);
    assert_eq!(defs[0].start_column, 5);
    assert_eq!(defs[0].end_line, 1);
    assert_eq!(defs[0].end_column, 6);
}

#[test]
fn test_reverse_index_consistency_after_ops() {
    let mut service = CodeNavigationService::new();
    service.index_file("a.py", "def fa(): pass\ndef shared(): pass", "python");
    service.index_file("b.py", "def fb(): pass\ndef shared(): pass", "python");
    service.index_file("a.py", "def fa2(): pass", "python");
    service.clear_file("missing.py");

    // Every name a file lists has a record with that file's path, and
    // no file lists a name it no longer defines.
    for file in service.list_indexed_files() {
        let names = service.file_defined_names(&file).expect("listed file has names");
        assert!(!names.is_empty());
        for name in &names {
            let defs = service.find_definition(name, "python");
            assert!(
                defs.iter().any(|d| d.file_path == file),
                "{} lists {} without a record",
                file,
                name
            );
        }
    }
    // And every reachable record's file lists the record's name.
    for name in ["fa2", "fb", "shared"] {
        for d in service.find_definition(name, "python") {
            let names = service.file_defined_names(&d.file_path).expect("file is listed");
            assert!(names.contains(&d.name));
        }
    }
    // The old names of the reindexed file are gone.
    assert!(service.find_definition("fa", "python").is_empty());
    let a_names = service.file_defined_names("a.py").unwrap();
    assert_eq!(a_names, vec!["fa2".to_string()]);
}

#[test]
fn test_batch_skipped_file_keeps_old_entries() {
    let mut service = CodeNavigationService::new();

    service.index_file("keep.py", "def keep_me(): pass", "python");

    // A batch that cannot parse the file's language leaves prior
    // entries in place, unlike single-file indexing.
    let files = vec![("keep.py".to_string(), "def keep_me(): pass".to_string(), "zzz".to_string())];
    service.index_files_batch(&files);

    assert_eq!(service.find_definition("keep_me", "python").len(), 1);
}
