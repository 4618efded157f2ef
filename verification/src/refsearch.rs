//! Reference validation: the second, precise pass of the hybrid search.
//!
//! The text search supplies candidate lines; this module re-scans each
//! line for word-boundary occurrences of the symbol, locates the
//! smallest syntax node covering each occurrence, and accepts it only if
//! it is an identifier-like node that is not inside a string or comment,
//! not the member name of a property access, not a key or field name in
//! a literal, and not the pre-alias name of an import renaming.

use vstd::prelude::*;

verus! {

use vstd::string::StringSliceAdditionalSpecFns;

use crate::symbols::{SymbolInfo, SymbolModel};
use crate::syntree::{node_at, node_at_point, tree_wf, FlatNode, NodeModel};
use crate::text::str_eq;

/// A byte that can sit inside an identifier word.
pub open spec fn is_word_byte(b: u8) -> bool {
    (48 <= b <= 57) || (65 <= b <= 90) || (97 <= b <= 122) || b == 95
}

fn word_byte(b: u8) -> (r: bool)
    ensures
        r == is_word_byte(b),
{
    (48 <= b && b <= 57) || (65 <= b && b <= 90) || (97 <= b && b <= 122) || b == 95
}

/// Start of line `target` (zero-based): the scan position at which
/// `target` newlines have passed; 0 when the text has fewer lines.
pub open spec fn line_start_from(src: Seq<u8>, i: int, cur: int, target: int) -> int
    decreases src.len() - i,
        when i >= 0
{
    if i >= src.len() {
        0
    } else if cur == target {
        i
    } else {
        line_start_from(src, i + 1, cur + if src[i] == 10 { 1int } else { 0int }, target)
    }
}

pub open spec fn spec_line_start(src: Seq<u8>, target: int) -> int {
    line_start_from(src, 0, 0, target)
}

/// Position of the next newline at or after `i`, or the end of the text.
pub open spec fn find_nl(src: Seq<u8>, i: int) -> int
    decreases src.len() - i,
        when i >= 0
{
    if i >= src.len() {
        src.len() as int
    } else if src[i] == 10 {
        i
    } else {
        find_nl(src, i + 1)
    }
}

proof fn lemma_line_start_bounds(src: Seq<u8>, i: int, cur: int, target: int)
    requires
        0 <= i <= src.len(),
    ensures
        0 <= line_start_from(src, i, cur, target) <= src.len(),
    decreases src.len() - i,
{
    if i < src.len() && cur != target {
        lemma_line_start_bounds(src, i + 1, cur + if src[i] == 10 { 1int } else { 0int }, target);
    }
}

proof fn lemma_find_nl_bounds(src: Seq<u8>, i: int)
    requires
        0 <= i <= src.len(),
    ensures
        i <= find_nl(src, i) <= src.len(),
    decreases src.len() - i,
{
    if i < src.len() && src[i] != 10 {
        lemma_find_nl_bounds(src, i + 1);
    }
}

/// Start of line `line_idx`, as the per-line scan finds it.
fn find_line_start(src: &[u8], line_idx: usize) -> (start: usize)
    ensures
        start == spec_line_start(src@, line_idx as int),
        start <= src@.len(),
{
    proof {
        lemma_line_start_bounds(src@, 0, 0, line_idx as int);
    }
    let n = src.len();
    let mut i: usize = 0;
    let mut cur: usize = 0;
    while i < n
        invariant
            i <= n,
            cur <= i,
            n == src@.len(),
            spec_line_start(src@, line_idx as int) == line_start_from(
                src@,
                i as int,
                cur as int,
                line_idx as int,
            ),
            spec_line_start(src@, line_idx as int) <= src@.len(),
        decreases n - i,
    {
        if cur == line_idx {
            return i;
        }
        if src[i] == 10 {
            cur += 1;
        }
        i += 1;
    }
    proof {
        assert(line_start_from(src@, i as int, cur as int, line_idx as int) == 0);
    }
    0
}

/// Position of the line's terminating newline, or the end of the text.
fn find_line_end(src: &[u8], start: usize) -> (e: usize)
    requires
        start <= src@.len(),
    ensures
        e == find_nl(src@, start as int),
        start <= e <= src@.len(),
{
    proof {
        lemma_find_nl_bounds(src@, start as int);
    }
    let n = src.len();
    let mut j: usize = start;
    while j < n
        invariant
            start <= j <= n,
            n == src@.len(),
            find_nl(src@, start as int) == find_nl(src@, j as int),
            start <= find_nl(src@, start as int) <= src@.len(),
        decreases n - j,
    {
        if src[j] == 10 {
            return j;
        }
        j += 1;
    }
    n
}

/// A word-boundary occurrence of `name` at byte `col` of the line
/// `src[ls..le)`: the bytes match and neither neighbour is a word byte.
pub open spec fn occurrence_at(line: Seq<u8>, name: Seq<u8>, col: int) -> bool {
    &&& 0 <= col
    &&& col + name.len() <= line.len()
    &&& line.subrange(col, col + name.len()) == name
    &&& (col == 0 || !is_word_byte(line[col - 1]))
    &&& (col + name.len() >= line.len() || !is_word_byte(line[col + name.len()]))
}

/// Check one candidate column of the line `src[ls..le)`.
fn occurrence_check(src: &[u8], ls: usize, le: usize, col: usize, name: &[u8]) -> (r: bool)
    requires
        ls <= le <= src@.len(),
    ensures
        r == occurrence_at(src@.subrange(ls as int, le as int), name@, col as int),
{
    let ghost line = src@.subrange(ls as int, le as int);
    let line_len = le - ls;
    let m = name.len();
    if col > line_len || m > line_len - col {
        return false;
    }
    // bytes must match
    let mut t: usize = 0;
    while t < m
        invariant
            t <= m,
            m == name@.len(),
            ls <= le <= src@.len(),
            col + m <= le - ls,
            line == src@.subrange(ls as int, le as int),
            forall|u: int| 0 <= u < t ==> line[col + u] == name@[u],
        decreases m - t,
    {
        proof {
            assert(line[col + t] == src@[ls + col + t]);
        }
        if src[ls + col + t] != name[t] {
            assert(line.subrange(col as int, col + name@.len())[t as int] != name@[t as int]);
            return false;
        }
        t += 1;
    }
    proof {
        assert(line.subrange(col as int, col + name@.len()) =~= name@);
    }
    // word boundaries on both sides
    if col > 0 {
        proof {
            assert(line[col - 1] == src@[ls + col - 1]);
        }
        if word_byte(src[ls + col - 1]) {
            return false;
        }
    }
    if col + m < line_len {
        proof {
            assert(line[col + m] == src@[ls + col + m]);
        }
        if word_byte(src[ls + col + m]) {
            return false;
        }
    }
    true
}

/// Kinds that textual hits inside them are never references: string and
/// comment bodies, across the supported grammars.
pub open spec fn is_string_or_comment_kind(k: Seq<char>) -> bool {
    ||| k == "string"@
    ||| k == "template_string"@
    ||| k == "string_literal"@
    ||| k == "string_content"@
    ||| k == "interpreted_string_literal"@
    ||| k == "raw_string_literal"@
    ||| k == "comment"@
    ||| k == "line_comment"@
    ||| k == "block_comment"@
}

fn string_or_comment_kind(k: &str) -> (r: bool)
    ensures
        r == is_string_or_comment_kind(k@),
{
    str_eq(k, "string") || str_eq(k, "template_string") || str_eq(k, "string_literal") || str_eq(
        k,
        "string_content",
    ) || str_eq(k, "interpreted_string_literal") || str_eq(k, "raw_string_literal") || str_eq(
        k,
        "comment",
    ) || str_eq(k, "line_comment") || str_eq(k, "block_comment")
}

/// Identifier-like node kinds accepted as references for a language.
pub open spec fn spec_valid_kind(lang: Seq<char>, k: Seq<char>) -> bool {
    ||| k == "identifier"@
    ||| k == "type_identifier"@
    ||| ((lang == "typescript"@ || lang == "javascript"@) && k == "property_identifier"@)
    ||| (lang == "go"@ && k == "field_identifier"@)
}

fn valid_kind(lang_id: &str, k: &str) -> (r: bool)
    ensures
        r == spec_valid_kind(lang_id@, k@),
{
    if str_eq(k, "identifier") || str_eq(k, "type_identifier") {
        true
    } else if (str_eq(lang_id, "typescript") || str_eq(lang_id, "javascript")) && str_eq(
        k,
        "property_identifier",
    ) {
        true
    } else if str_eq(lang_id, "go") && str_eq(k, "field_identifier") {
        true
    } else {
        false
    }
}

/// Some strict ancestor of node `i` is a string or comment body.
pub open spec fn has_excluded_ancestor(nodes: Seq<NodeModel>, i: int) -> bool
    decreases i,
        when 0 <= i < nodes.len() && tree_wf(nodes)
{
    if i <= 0 {
        false
    } else {
        let p = nodes[i].parent as int;
        is_string_or_comment_kind(nodes[p].kind) || has_excluded_ancestor(nodes, p)
    }
}

/// The node's text equals `name` exactly.
pub open spec fn node_text_is(n: NodeModel, src: Seq<u8>, name: Seq<u8>) -> bool {
    &&& n.start_byte <= n.end_byte <= src.len()
    &&& src.subrange(n.start_byte as int, n.end_byte as int) == name
}

/// The node sits in the named grammar field of its parent.
pub open spec fn in_field(n: NodeModel, f: Seq<char>) -> bool {
    n.field == Some(f)
}

/// The node is the member name of a property, attribute, field or
/// selector access, under the language's shape of that construct.
pub open spec fn is_rejected_member(nodes: Seq<NodeModel>, i: int, lang: Seq<char>) -> bool {
    if !(0 < i < nodes.len()) {
        false
    } else {
        let pk = nodes[nodes[i].parent as int].kind;
        ||| (pk == "member_expression"@ && in_field(nodes[i], "property"@))
        ||| (lang == "python"@ && pk == "attribute"@ && in_field(nodes[i], "attribute"@))
        ||| (lang == "rust"@ && pk == "field_expression"@ && in_field(nodes[i], "field"@))
        ||| (lang == "go"@ && pk == "selector_expression"@ && in_field(nodes[i], "field"@))
        ||| (pk == "field_access"@ && in_field(nodes[i], "field"@))
    }
}

/// The node is a key in a key-value pair, a shorthand property, a keyed
/// element's key, or a struct-literal field name.
pub open spec fn is_rejected_key(nodes: Seq<NodeModel>, i: int, lang: Seq<char>) -> bool {
    if !(0 < i < nodes.len()) {
        false
    } else {
        let pk = nodes[nodes[i].parent as int].kind;
        ||| (pk == "pair"@ && in_field(nodes[i], "key"@))
        ||| pk == "shorthand_property_identifier"@
        ||| (lang == "go"@ && pk == "keyed_element"@ && nodes[i].child_rank == 0)
        ||| (lang == "rust"@ && pk == "field_initializer"@ && in_field(nodes[i], "name"@))
    }
}

/// The node is the original (pre-alias) name in an import renaming.
pub open spec fn is_rejected_import(nodes: Seq<NodeModel>, i: int) -> bool {
    if !(0 < i < nodes.len()) {
        false
    } else {
        nodes[nodes[i].parent as int].kind == "import_specifier"@ && in_field(nodes[i], "name"@)
    }
}

/// The full validation cascade for the node at index `i`.
pub open spec fn is_valid_reference(
    nodes: Seq<NodeModel>,
    i: int,
    lang: Seq<char>,
    src: Seq<u8>,
    name: Seq<u8>,
) -> bool {
    &&& 0 <= i < nodes.len()
    &&& tree_wf(nodes)
    &&& node_text_is(nodes[i], src, name)
    &&& spec_valid_kind(lang, nodes[i].kind)
    &&& !has_excluded_ancestor(nodes, i)
    &&& !is_rejected_member(nodes, i, lang)
    &&& !is_rejected_key(nodes, i, lang)
    &&& !is_rejected_import(nodes, i)
}

/// Run the validation cascade on node `i`: text equality and node kind
/// first, then the ancestor walk, then the parent-shape rejections.
pub fn is_valid_reference_node(
    nodes: &Vec<FlatNode>,
    i: usize,
    src: &[u8],
    name: &[u8],
    lang_id: &str,
) -> (r: bool)
    requires
        tree_wf(nodes.deep_view()),
        i < nodes.deep_view().len(),
    ensures
        r == is_valid_reference(nodes.deep_view(), i as int, lang_id@, src@, name@),
{
    let ghost all = nodes.deep_view();
    let n = nodes.len();
    // 1. node text must equal the symbol exactly
    let sb = nodes[i].start_byte;
    let eb = nodes[i].end_byte;
    proof {
        assert(all[i as int].start_byte == sb && all[i as int].end_byte == eb);
    }
    if !(sb <= eb && eb <= src.len()) {
        proof {
            assert(!node_text_is(all[i as int], src@, name@));
        }
        return false;
    }
    if eb - sb != name.len() {
        proof {
            assert(src@.subrange(sb as int, eb as int).len() == eb - sb);
            assert(src@.subrange(sb as int, eb as int) != name@) by {
                if src@.subrange(sb as int, eb as int) == name@ {
                    assert(src@.subrange(sb as int, eb as int).len() == name@.len());
                }
            }
            assert(!node_text_is(all[i as int], src@, name@));
        }
        return false;
    }
    let m = name.len();
    let mut t: usize = 0;
    while t < m
        invariant
            t <= m,
            m == name@.len(),
            sb + m == eb,
            eb <= src@.len(),
            all == nodes.deep_view(),
            i < all.len(),
            all[i as int].start_byte == sb,
            all[i as int].end_byte == eb,
            forall|u: int| 0 <= u < t ==> src@[sb + u] == name@[u],
        decreases m - t,
    {
        if src[sb + t] != name[t] {
            proof {
                assert(src@.subrange(sb as int, eb as int)[t as int] != name@[t as int]);
                assert(!node_text_is(all[i as int], src@, name@));
            }
            return false;
        }
        t += 1;
    }
    proof {
        assert(src@.subrange(sb as int, eb as int) =~= name@);
        assert(node_text_is(all[i as int], src@, name@));
    }
    // 2. identifier-like kind for this language
    if !valid_kind(lang_id, nodes[i].kind.as_str()) {
        return false;
    }
    // 3. no string or comment ancestor
    let mut cur: usize = i;
    while cur != 0
        invariant
            cur < n,
            n == all.len(),
            all == nodes.deep_view(),
            tree_wf(all),
            has_excluded_ancestor(all, i as int) == has_excluded_ancestor(all, cur as int),
        decreases cur,
    {
        let p = nodes[cur].parent;
        proof {
            assert(all[cur as int].parent < cur);
        }
        if string_or_comment_kind(nodes[p].kind.as_str()) {
            proof {
                assert(has_excluded_ancestor(all, cur as int));
                assert(has_excluded_ancestor(all, i as int));
            }
            return false;
        }
        cur = p;
    }
    proof {
        assert(!has_excluded_ancestor(all, 0));
        assert(!has_excluded_ancestor(all, i as int));
    }
    // 4. parent-shape rejections
    if i != 0 {
        let p = nodes[i].parent;
        proof {
            assert(all[i as int].parent < i);
        }
        let pk = &nodes[p].kind;
        let field_property = match &nodes[i].field {
            Some(f) => str_eq(f.as_str(), "property"),
            None => false,
        };
        let field_attribute = match &nodes[i].field {
            Some(f) => str_eq(f.as_str(), "attribute"),
            None => false,
        };
        let field_field = match &nodes[i].field {
            Some(f) => str_eq(f.as_str(), "field"),
            None => false,
        };
        let field_key = match &nodes[i].field {
            Some(f) => str_eq(f.as_str(), "key"),
            None => false,
        };
        let field_name = match &nodes[i].field {
            Some(f) => str_eq(f.as_str(), "name"),
            None => false,
        };
        if str_eq(pk.as_str(), "member_expression") && field_property {
            return false;
        }
        if str_eq(lang_id, "python") && str_eq(pk.as_str(), "attribute") && field_attribute {
            return false;
        }
        if str_eq(lang_id, "rust") && str_eq(pk.as_str(), "field_expression") && field_field {
            return false;
        }
        if str_eq(lang_id, "go") && str_eq(pk.as_str(), "selector_expression") && field_field {
            return false;
        }
        if str_eq(pk.as_str(), "field_access") && field_field {
            return false;
        }
        if str_eq(pk.as_str(), "pair") && field_key {
            return false;
        }
        if str_eq(pk.as_str(), "shorthand_property_identifier") {
            return false;
        }
        if str_eq(lang_id, "go") && str_eq(pk.as_str(), "keyed_element") && nodes[i].child_rank
            == 0 {
            return false;
        }
        if str_eq(lang_id, "rust") && str_eq(pk.as_str(), "field_initializer") && field_name {
            return false;
        }
        if str_eq(pk.as_str(), "import_specifier") && field_name {
            return false;
        }
    }
    true
}

/// Clamp a non-negative count into `u32`.
pub open spec fn spec_clamp_u32(n: int) -> u32 {
    if n > u32::MAX {
        u32::MAX
    } else if n < 0 {
        0
    } else {
        n as u32
    }
}

fn clamp_line(n: u64) -> (r: u32)
    ensures
        r == spec_clamp_u32(n as int),
{
    if n > u32::MAX as u64 {
        u32::MAX
    } else {
        n as u32
    }
}

fn clamp_col(c: usize) -> (r: u32)
    ensures
        r == spec_clamp_u32(c + 1),
{
    if c >= u32::MAX as usize {
        u32::MAX
    } else {
        (c as u32) + 1
    }
}

/// The reference record reported for an occurrence at byte column `col`
/// of line `line_number`, with one-based positions clamped to `u32`.
pub open spec fn spec_ref_record(
    name: Seq<char>,
    path: Seq<char>,
    fam: Seq<char>,
    line_number: u64,
    col: int,
    name_len: int,
) -> SymbolModel {
    SymbolModel {
        name: name,
        kind: "reference"@,
        file_path: path,
        lang_family: fam,
        start_line: spec_clamp_u32(line_number as int),
        start_column: spec_clamp_u32(col + 1),
        end_line: spec_clamp_u32(line_number as int),
        end_column: spec_clamp_u32(col + 1 + name_len),
    }
}

/// An occurrence at `col` of the line survives the whole cascade: word
/// boundaries hold and the smallest covering node validates.
pub open spec fn spec_accepted(
    nodes: Seq<NodeModel>,
    src: Seq<u8>,
    line: Seq<u8>,
    line_idx: int,
    col: int,
    name_bytes: Seq<u8>,
    lang: Seq<char>,
) -> bool {
    occurrence_at(line, name_bytes, col) && is_valid_reference(
        nodes,
        node_at_point(nodes, line_idx, col),
        lang,
        src,
        name_bytes,
    )
}

/// The accepted references of the line's first `c` columns, in column
/// order.
pub open spec fn spec_refs_upto(
    nodes: Seq<NodeModel>,
    src: Seq<u8>,
    line: Seq<u8>,
    line_idx: int,
    name_bytes: Seq<u8>,
    name: Seq<char>,
    lang: Seq<char>,
    path: Seq<char>,
    fam: Seq<char>,
    line_number: u64,
    c: nat,
) -> Seq<SymbolModel>
    decreases c,
{
    if c == 0 {
        Seq::empty()
    } else {
        let pre = spec_refs_upto(
            nodes,
            src,
            line,
            line_idx,
            name_bytes,
            name,
            lang,
            path,
            fam,
            line_number,
            (c - 1) as nat,
        );
        if spec_accepted(nodes, src, line, line_idx, c - 1, name_bytes, lang) {
            pre.push(
                spec_ref_record(name, path, fam, line_number, c - 1, name_bytes.len() as int),
            )
        } else {
            pre
        }
    }
}

/// Every accepted reference of one candidate line; empty for line number
/// zero or one past the address range.
pub open spec fn spec_line_refs(
    nodes: Seq<NodeModel>,
    src: Seq<u8>,
    name_bytes: Seq<u8>,
    name: Seq<char>,
    lang: Seq<char>,
    path: Seq<char>,
    fam: Seq<char>,
    line_number: u64,
) -> Seq<SymbolModel> {
    if line_number == 0 || line_number - 1 > usize::MAX {
        Seq::empty()
    } else {
        let line_idx = line_number - 1;
        let ls = spec_line_start(src, line_idx as int);
        let le = find_nl(src, ls);
        let line = src.subrange(ls, le);
        spec_refs_upto(
            nodes,
            src,
            line,
            line_idx as int,
            name_bytes,
            name,
            lang,
            path,
            fam,
            line_number,
            (line.len() + 1) as nat,
        )
    }
}

/// Check one column: the accepted record, if the occurrence there
/// survives the cascade.
fn check_col(
    nodes: &Vec<FlatNode>,
    src: &[u8],
    ls: usize,
    le: usize,
    line_idx: usize,
    col: usize,
    name: &[u8],
    symbol_name: &str,
    lang_id: &str,
    file_path: &str,
    lang_family: &str,
    line_number: u64,
) -> (r: Option<SymbolInfo>)
    requires
        tree_wf(nodes.deep_view()),
        nodes.deep_view().len() > 0,
        ls <= le <= src@.len(),
        name@ == symbol_name.spec_bytes(),
    ensures
        match r {
            Some(rec) => spec_accepted(
                nodes.deep_view(),
                src@,
                src@.subrange(ls as int, le as int),
                line_idx as int,
                col as int,
                name@,
                lang_id@,
            ) && rec.deep_view() == spec_ref_record(
                symbol_name@,
                file_path@,
                lang_family@,
                line_number,
                col as int,
                name@.len() as int,
            ),
            None => !spec_accepted(
                nodes.deep_view(),
                src@,
                src@.subrange(ls as int, le as int),
                line_idx as int,
                col as int,
                name@,
                lang_id@,
            ),
        },
{
    if !occurrence_check(src, ls, le, col, name) {
        return None;
    }
    let nidx = node_at(nodes, line_idx, col);
    if !is_valid_reference_node(nodes, nidx, src, name, lang_id) {
        return None;
    }
    let m = name.len();
    proof {
        assert(col + m <= le - ls);
    }
    Some(
        SymbolInfo {
            name: symbol_name.to_owned(),
            kind: "reference".to_owned(),
            file_path: file_path.to_owned(),
            lang_family: lang_family.to_owned(),
            start_line: clamp_line(line_number),
            start_column: clamp_col(col),
            end_line: clamp_line(line_number),
            end_column: clamp_col(col + m),
        },
    )
}

/// Re-scan one candidate line for word-boundary occurrences of the
/// symbol and keep those the syntax tree validates as references.
pub fn validate_reference_at_line(
    nodes: &Vec<FlatNode>,
    content: &str,
    line_number: u64,
    symbol_name: &str,
    lang_id: &str,
    file_path: &str,
    lang_family: &str,
) -> (r: Vec<SymbolInfo>)
    requires
        tree_wf(nodes.deep_view()),
        nodes.deep_view().len() > 0,
    ensures
        r.deep_view() == spec_line_refs(
            nodes.deep_view(),
            content.spec_bytes(),
            symbol_name.spec_bytes(),
            symbol_name@,
            lang_id@,
            file_path@,
            lang_family@,
            line_number,
        ),
{
    let ghost all = nodes.deep_view();
    let mut out: Vec<SymbolInfo> = Vec::new();
    if line_number == 0 {
        proof {
            assert(out.deep_view() =~= Seq::<SymbolModel>::empty());
        }
        return out;
    }
    let lm1 = line_number - 1;
    if lm1 > usize::MAX as u64 {
        proof {
            assert(out.deep_view() =~= Seq::<SymbolModel>::empty());
        }
        return out;
    }
    let line_idx = lm1 as usize;
    let src = content.as_bytes();
    let name = symbol_name.as_bytes();
    let ls = find_line_start(src, line_idx);
    let le = find_line_end(src, ls);
    let line_len = le - ls;
    let ghost line = src@.subrange(ls as int, le as int);
    let mut col: usize = 0;
    while col < line_len
        invariant
            col <= line_len,
            line_len == le - ls,
            ls <= le <= src@.len(),
            src@ == content.spec_bytes(),
            name@ == symbol_name.spec_bytes(),
            line == src@.subrange(ls as int, le as int),
            ls == spec_line_start(src@, line_idx as int),
            le == find_nl(src@, ls as int),
            line_number >= 1,
            line_idx == line_number - 1,
            all == nodes.deep_view(),
            tree_wf(all),
            all.len() > 0,
            out.deep_view() == spec_refs_upto(
                all,
                src@,
                line,
                line_idx as int,
                name@,
                symbol_name@,
                lang_id@,
                file_path@,
                lang_family@,
                line_number,
                col as nat,
            ),
        decreases line_len - col,
    {
        let ghost prev = out.deep_view();
        match check_col(
            nodes,
            src,
            ls,
            le,
            line_idx,
            col,
            name,
            symbol_name,
            lang_id,
            file_path,
            lang_family,
            line_number,
        ) {
            Some(rec) => {
                let ghost rec_m = rec.deep_view();
                out.push(rec);
                proof {
                    assert(out.deep_view().len() == prev.len() + 1);
                    assert(forall|j: int|
                        0 <= j < prev.len() ==> #[trigger] out.deep_view()[j] == prev[j]);
                    assert(out.deep_view()[prev.len() as int] == rec_m);
                    assert(out.deep_view() =~= prev.push(rec_m));
                }
            },
            None => {},
        }
        col += 1;
    }
    // the final column (only an empty symbol can occur there)
    let ghost prev = out.deep_view();
    match check_col(
        nodes,
        src,
        ls,
        le,
        line_idx,
        col,
        name,
        symbol_name,
        lang_id,
        file_path,
        lang_family,
        line_number,
    ) {
        Some(rec) => {
            let ghost rec_m = rec.deep_view();
            out.push(rec);
            proof {
                assert(out.deep_view().len() == prev.len() + 1);
                assert(forall|j: int|
                    0 <= j < prev.len() ==> #[trigger] out.deep_view()[j] == prev[j]);
                assert(out.deep_view()[prev.len() as int] == rec_m);
                assert(out.deep_view() =~= prev.push(rec_m));
            }
        },
        None => {},
    }
    proof {
        assert(line.len() == line_len);
        assert(out.deep_view() == spec_refs_upto(
            all,
            src@,
            line,
            line_idx as int,
            name@,
            symbol_name@,
            lang_id@,
            file_path@,
            lang_family@,
            line_number,
            (line_len + 1) as nat,
        ));
    }
    out
}

/// Accepted references of all candidate lines, in line order.
pub open spec fn spec_content_refs(
    nodes: Seq<NodeModel>,
    src: Seq<u8>,
    name_bytes: Seq<u8>,
    name: Seq<char>,
    lang: Seq<char>,
    path: Seq<char>,
    fam: Seq<char>,
    lines: Seq<u64>,
) -> Seq<SymbolModel>
    decreases lines.len(),
{
    if lines.len() == 0 {
        Seq::empty()
    } else {
        spec_content_refs(nodes, src, name_bytes, name, lang, path, fam, lines.drop_last())
            + spec_line_refs(nodes, src, name_bytes, name, lang, path, fam, lines.last())
    }
}

/// Every record a line scan yields is a reference record for this query.
pub proof fn lemma_refs_upto_fields(
    nodes: Seq<NodeModel>,
    src: Seq<u8>,
    line: Seq<u8>,
    line_idx: int,
    name_bytes: Seq<u8>,
    name: Seq<char>,
    lang: Seq<char>,
    path: Seq<char>,
    fam: Seq<char>,
    line_number: u64,
    c: nat,
)
    ensures
        forall|k: int|
            0 <= k < spec_refs_upto(
                nodes,
                src,
                line,
                line_idx,
                name_bytes,
                name,
                lang,
                path,
                fam,
                line_number,
                c,
            ).len() ==> {
                let rec = #[trigger] spec_refs_upto(
                    nodes,
                    src,
                    line,
                    line_idx,
                    name_bytes,
                    name,
                    lang,
                    path,
                    fam,
                    line_number,
                    c,
                )[k];
                rec.kind == "reference"@ && rec.name == name && rec.file_path == path
                    && rec.lang_family == fam
            },
    decreases c,
{
    if c > 0 {
        lemma_refs_upto_fields(
            nodes,
            src,
            line,
            line_idx,
            name_bytes,
            name,
            lang,
            path,
            fam,
            line_number,
            (c - 1) as nat,
        );
        let full = spec_refs_upto(
            nodes,
            src,
            line,
            line_idx,
            name_bytes,
            name,
            lang,
            path,
            fam,
            line_number,
            c,
        );
        let pre = spec_refs_upto(
            nodes,
            src,
            line,
            line_idx,
            name_bytes,
            name,
            lang,
            path,
            fam,
            line_number,
            (c - 1) as nat,
        );
        assert forall|k: int| 0 <= k < full.len() implies {
            let rec = #[trigger] full[k];
            rec.kind == "reference"@ && rec.name == name && rec.file_path == path
                && rec.lang_family == fam
        } by {
            if spec_accepted(nodes, src, line, line_idx, c - 1, name_bytes, lang) {
                if k < pre.len() {
                    assert(full[k] == pre[k]);
                } else {
                    assert(full[k] == spec_ref_record(
                        name,
                        path,
                        fam,
                        line_number,
                        c - 1,
                        name_bytes.len() as int,
                    ));
                }
            } else {
                assert(full[k] == pre[k]);
            }
        }
    }
}

/// Every record a content scan yields is a reference record for this
/// query.
pub proof fn lemma_content_refs_fields(
    nodes: Seq<NodeModel>,
    src: Seq<u8>,
    name_bytes: Seq<u8>,
    name: Seq<char>,
    lang: Seq<char>,
    path: Seq<char>,
    fam: Seq<char>,
    lines: Seq<u64>,
)
    ensures
        forall|k: int|
            0 <= k < spec_content_refs(nodes, src, name_bytes, name, lang, path, fam, lines).len()
                ==> {
                let rec = #[trigger] spec_content_refs(
                    nodes,
                    src,
                    name_bytes,
                    name,
                    lang,
                    path,
                    fam,
                    lines,
                )[k];
                rec.kind == "reference"@ && rec.name == name && rec.file_path == path
                    && rec.lang_family == fam
            },
    decreases lines.len(),
{
    if lines.len() > 0 {
        lemma_content_refs_fields(
            nodes,
            src,
            name_bytes,
            name,
            lang,
            path,
            fam,
            lines.drop_last(),
        );
        let ln = lines.last();
        if !(ln == 0 || ln - 1 > usize::MAX) {
            let line_idx = ln - 1;
            let ls = spec_line_start(src, line_idx as int);
            let le = find_nl(src, ls);
            let line = src.subrange(ls, le);
            lemma_refs_upto_fields(
                nodes,
                src,
                line,
                line_idx as int,
                name_bytes,
                name,
                lang,
                path,
                fam,
                ln,
                (line.len() + 1) as nat,
            );
        }
        let full = spec_content_refs(nodes, src, name_bytes, name, lang, path, fam, lines);
        let pre = spec_content_refs(
            nodes,
            src,
            name_bytes,
            name,
            lang,
            path,
            fam,
            lines.drop_last(),
        );
        let tail = spec_line_refs(nodes, src, name_bytes, name, lang, path, fam, ln);
        assert forall|k: int| 0 <= k < full.len() implies {
            let rec = #[trigger] full[k];
            rec.kind == "reference"@ && rec.name == name && rec.file_path == path
                && rec.lang_family == fam
        } by {
            assert(full == pre + tail);
            if k < pre.len() {
                assert(full[k] == pre[k]);
            } else {
                assert(full[k] == tail[k - pre.len()]);
            }
        }
    }
}

/// Hybrid-search validation for one file's content: derive the language
/// from the file extension and skip files of another family; parse the
/// content fresh; then validate every candidate line. The result is
/// pinned by the parse outcome: empty for an unsupported extension, a
/// foreign family, or a failed parse, and otherwise exactly the
/// accepted references over the flattened tree of this content.
pub fn find_references_in_content(
    symbol_name: &str,
    lang_family: &str,
    file_path: &str,
    content: &str,
    line_numbers: &Vec<u64>,
) -> (r: Vec<SymbolInfo>)
    ensures
        forall|k: int|
            0 <= k < r.deep_view().len() ==> {
                let rec = #[trigger] r.deep_view()[k];
                rec.kind == "reference"@ && rec.name == symbol_name@ && rec.file_path == file_path@
                    && rec.lang_family == lang_family@
            },
        match crate::lang::spec_lang_of_path(file_path@) {
            None => r.deep_view() == Seq::<SymbolModel>::empty(),
            Some(l) => {
                if crate::lang::spec_lang_family(l) != lang_family@ {
                    r.deep_view() == Seq::<SymbolModel>::empty()
                } else {
                    match crate::syntree::flat_nodes_of(l, content@) {
                        None => r.deep_view() == Seq::<SymbolModel>::empty(),
                        Some(nodes) => r.deep_view() == spec_content_refs(
                            nodes,
                            content.spec_bytes(),
                            symbol_name.spec_bytes(),
                            symbol_name@,
                            l,
                            file_path@,
                            lang_family@,
                            line_numbers@,
                        ),
                    }
                }
            },
        },
{
    let mut out: Vec<SymbolInfo> = Vec::new();
    let lang_id = match crate::lang::lang_id_of_path(file_path) {
        Some(l) => l,
        None => {
            proof {
                assert(out.deep_view() =~= Seq::<SymbolModel>::empty());
            }
            return out;
        },
    };
    let fam = crate::lang::lang_family_of(lang_id.as_str());
    if !str_eq(fam, lang_family) {
        proof {
            assert(out.deep_view() =~= Seq::<SymbolModel>::empty());
        }
        return out;
    }
    let parsed = crate::syntree::parse_flat_nodes(lang_id.as_str(), content);
    let ghost pdv = parsed.deep_view();
    let nodes = match parsed {
        Some(n) => n,
        None => {
            proof {
                assert(crate::syntree::flat_nodes_of(lang_id@, content@) is None);
                assert(out.deep_view() =~= Seq::<SymbolModel>::empty());
            }
            return out;
        },
    };
    proof {
        assert(crate::syntree::flat_nodes_of(lang_id@, content@) == Some(nodes.deep_view()));
    }
    let ghost all = nodes.deep_view();
    let ghost lines = line_numbers@;
    let n = line_numbers.len();
    let mut k: usize = 0;
    while k < n
        invariant
            k <= n,
            n == lines.len(),
            lines == line_numbers@,
            all == nodes.deep_view(),
            tree_wf(all),
            all.len() > 0,
            crate::lang::spec_lang_of_path(file_path@) == Some(lang_id@),
            crate::lang::spec_lang_family(lang_id@) == lang_family@,
            out.deep_view() == spec_content_refs(
                all,
                content.spec_bytes(),
                symbol_name.spec_bytes(),
                symbol_name@,
                lang_id@,
                file_path@,
                lang_family@,
                lines.take(k as int),
            ),
        decreases n - k,
    {
        let ghost prev = out.deep_view();
        let mut part = validate_reference_at_line(
            &nodes,
            content,
            line_numbers[k],
            symbol_name,
            lang_id.as_str(),
            file_path,
            lang_family,
        );
        let ghost part_m = part.deep_view();
        let ghost prev_vec = out@;
        let ghost part_vec = part@;
        out.append(&mut part);
        proof {
            assert(lines.take(k + 1).drop_last() =~= lines.take(k as int));
            assert(lines.take(k + 1).last() == lines[k as int]);
            assert(out@ == prev_vec + part_vec);
            assert forall|j: int|
                0 <= j < out.deep_view().len() implies #[trigger] out.deep_view()[j] == (prev
                + part_m)[j] by {
                if j < prev_vec.len() {
                    assert(out@[j] == prev_vec[j]);
                } else {
                    assert(out@[j] == part_vec[j - prev_vec.len()]);
                }
            }
            assert(out.deep_view() =~= prev + part_m);
        }
        k += 1;
    }
    proof {
        assert(lines.take(n as int) =~= lines);
        lemma_content_refs_fields(
            all,
            content.spec_bytes(),
            symbol_name.spec_bytes(),
            symbol_name@,
            lang_id@,
            file_path@,
            lang_family@,
            lines,
        );
    }
    out
}

} // verus!
