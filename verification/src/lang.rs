//! Language table: identifiers, families, file extensions, capture kinds,
//! and the structural definition query of each supported language.
//!
//! A language family is the equivalence class of language identifiers that
//! share one definition/reference namespace: C and C++ form one family,
//! TypeScript and JavaScript another, and every other language stands alone.

use vstd::prelude::*;

verus! {

use crate::text::{has_substr, lower_char, str_contains, str_eq, str_eq_lower};

/// Family of a language identifier.
pub open spec fn spec_lang_family(lang: Seq<char>) -> Seq<char> {
    if lang == "c"@ || lang == "cpp"@ {
        "c_family"@
    } else if lang == "typescript"@ || lang == "javascript"@ {
        "js_family"@
    } else if lang == "python"@ {
        "python"@
    } else if lang == "rust"@ {
        "rust"@
    } else if lang == "go"@ {
        "go"@
    } else if lang == "java"@ {
        "java"@
    } else {
        "unknown"@
    }
}

/// Family used to scope lookups: C/C++ share one namespace, TypeScript and
/// JavaScript another; other languages are isolated.
pub fn lang_family_of(lang_id: &str) -> (r: &'static str)
    ensures
        r@ == spec_lang_family(lang_id@),
{
    if str_eq(lang_id, "c") || str_eq(lang_id, "cpp") {
        "c_family"
    } else if str_eq(lang_id, "typescript") || str_eq(lang_id, "javascript") {
        "js_family"
    } else if str_eq(lang_id, "python") {
        "python"
    } else if str_eq(lang_id, "rust") {
        "rust"
    } else if str_eq(lang_id, "go") {
        "go"
    } else if str_eq(lang_id, "java") {
        "java"
    } else {
        "unknown"
    }
}

/// Symbol kind derived from a capture tag by its domain word.
pub open spec fn spec_symbol_kind(cap: Seq<char>) -> Seq<char> {
    if has_substr(cap, "function"@) {
        "function"@
    } else if has_substr(cap, "class"@) {
        "class"@
    } else if has_substr(cap, "struct"@) {
        "struct"@
    } else if has_substr(cap, "enum"@) {
        "enum"@
    } else if has_substr(cap, "trait"@) {
        "trait"@
    } else if has_substr(cap, "interface"@) {
        "interface"@
    } else if has_substr(cap, "method"@) {
        "method"@
    } else if has_substr(cap, "type"@) {
        "type"@
    } else if has_substr(cap, "const"@) {
        "const"@
    } else if has_substr(cap, "static"@) {
        "static"@
    } else {
        "symbol"@
    }
}

/// Classify a capture tag (for instance `function.definition`) into a
/// symbol kind by the domain word it contains; unrecognized tags fall back
/// to `symbol`.
pub fn symbol_kind_of(capture_name: &str) -> (r: &'static str)
    ensures
        r@ == spec_symbol_kind(capture_name@),
{
    if str_contains(capture_name, "function") {
        "function"
    } else if str_contains(capture_name, "class") {
        "class"
    } else if str_contains(capture_name, "struct") {
        "struct"
    } else if str_contains(capture_name, "enum") {
        "enum"
    } else if str_contains(capture_name, "trait") {
        "trait"
    } else if str_contains(capture_name, "interface") {
        "interface"
    } else if str_contains(capture_name, "method") {
        "method"
    } else if str_contains(capture_name, "type") {
        "type"
    } else if str_contains(capture_name, "const") {
        "const"
    } else if str_contains(capture_name, "static") {
        "static"
    } else {
        "symbol"
    }
}

/// One of the eight supported language identifiers.
pub open spec fn spec_is_supported(lang: Seq<char>) -> bool {
    ||| lang == "python"@
    ||| lang == "rust"@
    ||| lang == "go"@
    ||| lang == "c"@
    ||| lang == "cpp"@
    ||| lang == "java"@
    ||| lang == "typescript"@
    ||| lang == "javascript"@
}

/// The structural definition query of a language: which node shapes
/// denote a definition, and which sub-node carries the defined name.
/// Exactly the supported languages have one.
pub fn definition_query(lang_id: &str) -> (r: Option<&'static str>)
    ensures
        r.is_some() == spec_is_supported(lang_id@),
{
    if str_eq(lang_id, "python") {
        Some(
            r#"
                (function_definition name: (identifier) @function.definition)
                (class_definition name: (identifier) @class.definition)
                "#,
        )
    } else if str_eq(lang_id, "rust") {
        Some(
            r#"
                (function_item name: (identifier) @function.definition)
                (struct_item name: (type_identifier) @struct.definition)
                (enum_item name: (type_identifier) @enum.definition)
                (trait_item name: (type_identifier) @trait.definition)
                (const_item name: (identifier) @const.definition)
                (static_item name: (identifier) @static.definition)
                (type_item name: (type_identifier) @type.definition)
                "#,
        )
    } else if str_eq(lang_id, "go") {
        Some(
            r#"
                (function_declaration name: (identifier) @function.definition)
                (method_declaration name: (field_identifier) @method.definition)
                (type_declaration (type_spec name: (type_identifier) @type.definition))
                "#,
        )
    } else if str_eq(lang_id, "c") {
        Some(
            r#"
                (function_definition declarator: (function_declarator declarator: (identifier) @function.definition))
                (struct_specifier name: (type_identifier) @struct.definition)
                "#,
        )
    } else if str_eq(lang_id, "cpp") {
        Some(
            r#"
                (function_definition declarator: (function_declarator declarator: (identifier) @function.definition))
                (function_definition declarator: (function_declarator declarator: (qualified_identifier name: (identifier) @function.definition)))
                (struct_specifier name: (type_identifier) @struct.definition)
                (class_specifier name: (type_identifier) @class.definition)
                "#,
        )
    } else if str_eq(lang_id, "java") {
        Some(
            r#"
                (method_declaration name: (identifier) @method.definition)
                (class_declaration name: (identifier) @class.definition)
                (interface_declaration name: (identifier) @interface.definition)
                "#,
        )
    } else if str_eq(lang_id, "typescript") || str_eq(lang_id, "javascript") {
        Some(
            r#"
                (function_declaration name: (identifier) @function.definition)
                (export_statement (function_declaration name: (identifier) @function.definition))
                (class_declaration name: (type_identifier) @class.definition)
                (export_statement (class_declaration name: (type_identifier) @class.definition))
                (interface_declaration name: (type_identifier) @interface.definition)
                (export_statement (interface_declaration name: (type_identifier) @interface.definition))
                (type_alias_declaration name: (type_identifier) @type.definition)
                (export_statement (type_alias_declaration name: (type_identifier) @type.definition))
                (enum_declaration name: (identifier) @enum.definition)
                (export_statement (enum_declaration name: (identifier) @enum.definition))
                (method_definition name: (property_identifier) @method.definition)
                (program (lexical_declaration (variable_declarator name: (identifier) @const.definition)))
                (program (export_statement (lexical_declaration (variable_declarator name: (identifier) @const.definition))))
                "#,
        )
    } else {
        None
    }
}

/// Position right after the last `.` of `path`, or 0 when there is none:
/// the extension starts there.
pub open spec fn spec_ext_start(path: Seq<char>) -> int
    decreases path.len(),
{
    if path.len() == 0 {
        0
    } else if path.last() == '.' {
        path.len() as int
    } else {
        spec_ext_start(path.drop_last())
    }
}

pub proof fn lemma_ext_start_bounds(path: Seq<char>)
    ensures
        0 <= spec_ext_start(path) <= path.len(),
    decreases path.len(),
{
    if path.len() > 0 && path.last() != '.' {
        lemma_ext_start_bounds(path.drop_last());
    }
}

/// The extension of `path`: everything after the last dot (the whole name
/// when there is no dot), as the text search sees file names.
pub open spec fn spec_ext_of(path: Seq<char>) -> Seq<char> {
    path.subrange(spec_ext_start(path), path.len() as int)
}

/// Language identifier for one lowercased extension.
pub open spec fn spec_lang_of_ext(ext: Seq<char>) -> Option<Seq<char>> {
    if ext == "py"@ {
        Some("python"@)
    } else if ext == "rs"@ {
        Some("rust"@)
    } else if ext == "go"@ {
        Some("go"@)
    } else if ext == "c"@ || ext == "h"@ {
        Some("c"@)
    } else if ext == "cpp"@ || ext == "cc"@ || ext == "cxx"@ || ext == "hpp"@ || ext == "hxx"@ {
        Some("cpp"@)
    } else if ext == "java"@ {
        Some("java"@)
    } else if ext == "ts"@ || ext == "tsx"@ {
        Some("typescript"@)
    } else if ext == "js"@ || ext == "jsx"@ || ext == "mjs"@ || ext == "cjs"@ {
        Some("javascript"@)
    } else {
        None
    }
}

/// Language identifier derived from a file path's extension.
pub open spec fn spec_lang_of_path(path: Seq<char>) -> Option<Seq<char>> {
    spec_lang_of_ext(spec_ext_of(path).map_values(|c: char| lower_char(c)))
}

/// Derive the language identifier from the file extension, ASCII
/// case-insensitively; `None` for extensions of unsupported languages.
pub fn lang_id_of_path(file_path: &str) -> (r: Option<String>)
    ensures
        r.deep_view() == spec_lang_of_path(file_path@),
{
    let n = file_path.unicode_len();
    let mut start: usize = 0;
    let mut i: usize = 0;
    while i < n
        invariant
            i <= n,
            n == file_path@.len(),
            start == spec_ext_start(file_path@.subrange(0, i as int)),
            start <= i,
        decreases n - i,
    {
        let c = file_path.get_char(i);
        proof {
            assert(file_path@.subrange(0, i + 1).drop_last() =~= file_path@.subrange(0, i as int));
            assert(file_path@.subrange(0, i + 1).last() == file_path@[i as int]);
        }
        if c == '.' {
            start = i + 1;
        }
        i += 1;
    }
    proof {
        assert(file_path@.subrange(0, n as int) =~= file_path@);
    }
    let ext = file_path.substring_char(start, n);
    assert(ext@ == spec_ext_of(file_path@));
    if str_eq_lower(ext, "py") {
        Some("python".to_owned())
    } else if str_eq_lower(ext, "rs") {
        Some("rust".to_owned())
    } else if str_eq_lower(ext, "go") {
        Some("go".to_owned())
    } else if str_eq_lower(ext, "c") || str_eq_lower(ext, "h") {
        Some("c".to_owned())
    } else if str_eq_lower(ext, "cpp") || str_eq_lower(ext, "cc") || str_eq_lower(ext, "cxx")
        || str_eq_lower(ext, "hpp") || str_eq_lower(ext, "hxx") {
        Some("cpp".to_owned())
    } else if str_eq_lower(ext, "java") {
        Some("java".to_owned())
    } else if str_eq_lower(ext, "ts") || str_eq_lower(ext, "tsx") {
        Some("typescript".to_owned())
    } else if str_eq_lower(ext, "js") || str_eq_lower(ext, "jsx") || str_eq_lower(ext, "mjs")
        || str_eq_lower(ext, "cjs") {
        Some("javascript".to_owned())
    } else {
        None
    }
}

} // verus!
