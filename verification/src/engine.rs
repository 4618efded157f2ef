//! Trusted boundary around the tree-sitter parsing library.
//!
//! Verified code never looks inside a parser, tree, query or node; it
//! reaches them only through the declarations and wrappers below, and all
//! symbol-extraction and reference-validation logic operates on the plain
//! values these wrappers hand back.

use streaming_iterator::StreamingIterator;
use vstd::prelude::*;

verus! {

#[verifier::external_type_specification]
#[verifier::external_body]
pub struct ExLanguage(tree_sitter::Language);

#[verifier::external_type_specification]
pub struct ExPoint(tree_sitter::Point);

#[verifier::external_type_specification]
#[verifier::external_body]
pub struct ExTree(tree_sitter::Tree);

#[verifier::external_type_specification]
#[verifier::external_body]
pub struct ExQuery(tree_sitter::Query);

#[verifier::external_type_specification]
#[verifier::external_body]
pub struct ExNode<'tree>(tree_sitter::Node<'tree>);

/// One named capture produced by running a definition query: the capture
/// tag, the captured node's text, and its zero-based start and end
/// positions.
pub struct RawCapture {
    pub capture_name: String,
    pub text: String,
    pub start_row: usize,
    pub start_col: usize,
    pub end_row: usize,
    pub end_col: usize,
}

/// Mathematical model of a `RawCapture`.
pub ghost struct CaptureModel {
    pub capture_name: Seq<char>,
    pub text: Seq<char>,
    pub start_row: usize,
    pub start_col: usize,
    pub end_row: usize,
    pub end_col: usize,
}

impl View for RawCapture {
    type V = CaptureModel;

    open spec fn view(&self) -> CaptureModel {
        CaptureModel {
            capture_name: self.capture_name@,
            text: self.text@,
            start_row: self.start_row,
            start_col: self.start_col,
            end_row: self.end_row,
            end_col: self.end_col,
        }
    }
}

impl DeepView for RawCapture {
    type V = CaptureModel;

    open spec fn deep_view(&self) -> CaptureModel {
        self.view()
    }
}

impl RawCapture {
    /// Bundle one capture; called from the trusted query runner.
    pub(crate) fn of(name: &str, text: &str, sp: tree_sitter::Point, ep: tree_sitter::Point) -> (r: Self)
        ensures
            r@.capture_name == name@,
            r@.text == text@,
            r@.start_row == sp.row,
            r@.start_col == sp.column,
            r@.end_row == ep.row,
            r@.end_col == ep.column,
    {
        RawCapture {
            capture_name: name.to_owned(),
            text: text.to_owned(),
            start_row: sp.row,
            start_col: sp.column,
            end_row: ep.row,
            end_col: ep.column,
        }
    }
}

/// Relies on tree_sitter_python::LANGUAGE: the Python grammar.
#[verifier::external_body]
pub(crate) fn python_language() -> tree_sitter::Language {
    tree_sitter_python::LANGUAGE.into()
}

/// Relies on tree_sitter_rust::LANGUAGE: the Rust grammar.
#[verifier::external_body]
pub(crate) fn rust_language() -> tree_sitter::Language {
    tree_sitter_rust::LANGUAGE.into()
}

/// Relies on tree_sitter_go::LANGUAGE: the Go grammar.
#[verifier::external_body]
pub(crate) fn go_language() -> tree_sitter::Language {
    tree_sitter_go::LANGUAGE.into()
}

/// Relies on tree_sitter_c::LANGUAGE: the C grammar.
#[verifier::external_body]
pub(crate) fn c_language() -> tree_sitter::Language {
    tree_sitter_c::LANGUAGE.into()
}

/// Relies on tree_sitter_cpp::LANGUAGE: the C++ grammar.
#[verifier::external_body]
pub(crate) fn cpp_language() -> tree_sitter::Language {
    tree_sitter_cpp::LANGUAGE.into()
}

/// Relies on tree_sitter_java::LANGUAGE: the Java grammar.
#[verifier::external_body]
pub(crate) fn java_language() -> tree_sitter::Language {
    tree_sitter_java::LANGUAGE.into()
}

/// Relies on tree_sitter_typescript::LANGUAGE_TSX: the TSX grammar, which
/// covers both TypeScript and JavaScript sources.
#[verifier::external_body]
pub(crate) fn tsx_language() -> tree_sitter::Language {
    tree_sitter_typescript::LANGUAGE_TSX.into()
}

/// Whether `lang_id`'s grammar installs into a parser: a function of the
/// build alone, and false for unsupported identifiers.
pub uninterp spec fn grammar_loads(lang: Seq<char>) -> bool;

/// Whether `lang_id`'s definition query compiles against its grammar: a
/// function of the build alone, and false for unsupported identifiers.
pub uninterp spec fn query_compiles(lang: Seq<char>) -> bool;

/// The captures of one definition pass over `content` under the grammar
/// of `lang`: a function of the grammar, the query and the content
/// alone. `None` when the language is unsupported, its grammar cannot be
/// installed, its query does not compile, or parsing fails fatally.
pub uninterp spec fn ts_captures_of(lang: Seq<char>, content: Seq<char>) -> Option<
    Seq<CaptureModel>,
>;

/// Relies on tree_sitter::Parser::set_language: whether the grammar of
/// `lang_id` can be installed in a parser; an unsupported identifier has
/// no grammar, so the result is then false.
#[verifier::external_body]
pub(crate) fn grammar_usable(lang_id: &str) -> (r: bool)
    ensures
        r == grammar_loads(lang_id@),
        !crate::lang::spec_is_supported(lang_id@) ==> !r,
{
    match crate::indexer::language_for(lang_id) {
        Some(language) => tree_sitter::Parser::new().set_language(&language).is_ok(),
        None => false,
    }
}

/// Relies on tree_sitter::Query::new: whether the definition query of
/// `lang_id` compiles against its grammar; an unsupported identifier has
/// neither, so the result is then false.
#[verifier::external_body]
pub(crate) fn query_compiles_for(lang_id: &str) -> (r: bool)
    ensures
        r == query_compiles(lang_id@),
        !crate::lang::spec_is_supported(lang_id@) ==> !r,
{
    match (crate::indexer::language_for(lang_id), crate::lang::definition_query(lang_id)) {
        (Some(language), Some(source)) => tree_sitter::Query::new(&language, source).is_ok(),
        _ => false,
    }
}

/// Relies on tree_sitter::Parser::parse, Query::new and the capture
/// collection below: one whole definition pass over `content` under the
/// grammar of `lang_id`, whose outcome the grammar, query and content
/// alone determine.
#[verifier::external_body]
pub(crate) fn definition_captures(lang_id: &str, content: &str) -> (r: Option<Vec<RawCapture>>)
    ensures
        r.deep_view() == ts_captures_of(lang_id@, content@),
{
    let language = crate::indexer::language_for(lang_id)?;
    let query_src = crate::lang::definition_query(lang_id)?;
    let mut parser = tree_sitter::Parser::new();
    parser.set_language(&language).ok()?;
    let tree = parser.parse(content, None)?;
    let query = tree_sitter::Query::new(&language, query_src).ok()?;
    Some(collect_captures(&query, &tree, content))
}

/// Relies on tree_sitter::QueryCursor::matches, Query::capture_names and
/// Node::utf8_text: every capture of every match of `query` over `tree`,
/// with its tag, text and positions; captures whose text is not valid
/// UTF-8 are skipped.
#[verifier::external_body]
pub(crate) fn collect_captures(
    query: &tree_sitter::Query,
    tree: &tree_sitter::Tree,
    content: &str,
) -> Vec<RawCapture> {
    let names = query.capture_names();
    let src = content.as_bytes();
    let mut cursor = tree_sitter::QueryCursor::new();
    let mut ms = cursor.matches(query, tree.root_node(), src);
    let mut out: Vec<RawCapture> = Vec::new();
    while let Some(m) = ms.next() {
        for c in m.captures() {
            if let Ok(t) = c.node.utf8_text(src) {
                out.push(RawCapture::of(names[c.index as usize], t, c.node.start_position(), c.node.end_position()));
            }
        }
    }
    out
}

/// Relies on tree_sitter::Node::kind.
#[verifier::external_body]
pub(crate) fn ts_kind(node: &tree_sitter::Node<'_>) -> String {
    node.kind().to_owned()
}

/// Relies on tree_sitter::Node::start_byte.
#[verifier::external_body]
pub(crate) fn ts_start_byte(node: &tree_sitter::Node<'_>) -> usize {
    node.start_byte()
}

/// Relies on tree_sitter::Node::end_byte.
#[verifier::external_body]
pub(crate) fn ts_end_byte(node: &tree_sitter::Node<'_>) -> usize {
    node.end_byte()
}

/// Relies on tree_sitter::Node::start_position.
#[verifier::external_body]
pub(crate) fn ts_start_position(node: &tree_sitter::Node<'_>) -> tree_sitter::Point {
    node.start_position()
}

/// Relies on tree_sitter::Node::end_position.
#[verifier::external_body]
pub(crate) fn ts_end_position(node: &tree_sitter::Node<'_>) -> tree_sitter::Point {
    node.end_position()
}

} // verus!
