//! Directory-tree shaping: the node type the tree builder produces, the
//! rules deciding which entries appear and in what order, and the
//! builder's time-bounded result cache.
//!
//! Reading directories is I/O and happens outside; this module holds the
//! decisions: which entries to keep, when to stop descending and mark a
//! node lazily loaded, how children are ordered, and when a cached node
//! may be served.

use vstd::prelude::*;

verus! {

use crate::constants::{is_code_extension, is_code_filename, should_exclude_dir};
use crate::lang::{lemma_ext_start_bounds, spec_ext_start};
use crate::text::lower_char;
use crate::vecmap::VecMap;

/// One node of the directory tree handed to the editor front end.
pub struct FileNode {
    pub name: String,
    pub path: String,
    pub is_directory: bool,
    pub children: Option<Vec<FileNode>>,
    pub is_lazy_loaded: Option<bool>,
    pub has_children: Option<bool>,
    pub modified_time: Option<u64>,
    pub size: Option<u64>,
    pub is_git_ignored: Option<bool>,
}

impl DeepView for FileNode {
    type V = FileNode;

    open spec fn deep_view(&self) -> FileNode {
        *self
    }
}

/// Replace backslashes with forward slashes.
pub open spec fn spec_normalize_char(c: char) -> char {
    if c == '\\' {
        '/'
    } else {
        c
    }
}

/// Normalize a path's separators to forward slashes.
pub fn normalize_path(path: &str) -> (r: String)
    ensures
        r@ == path@.map_values(|c: char| spec_normalize_char(c)),
{
    let n = path.unicode_len();
    let mut out = String::new();
    let mut i: usize = 0;
    while i < n
        invariant
            i <= n,
            n == path@.len(),
            out@ == path@.map_values(|c: char| spec_normalize_char(c)).take(i as int),
        decreases n - i,
    {
        let c = path.get_char(i);
        if c == '\\' {
            out.append("/");
            proof {
                reveal_strlit("/");
                assert("/"@ =~= seq!['/']);
                assert(out@ =~= path@.map_values(|ch: char| spec_normalize_char(ch)).take(i as int)
                    + seq!['/']);
            }
        } else {
            let piece = path.substring_char(i, i + 1);
            proof {
                assert(piece@.len() == 1);
                assert(piece@[0] == path@[i as int]);
            }
            out.append(piece);
        }
        proof {
            assert(out@ =~= path@.map_values(|ch: char| spec_normalize_char(ch)).take(i + 1));
        }
        i += 1;
    }
    proof {
        assert(path@.map_values(|c: char| spec_normalize_char(c)).take(n as int) =~= path@
            .map_values(|c: char| spec_normalize_char(c)));
    }
    out
}

/// A name counts as a code file when it has an extension (a dot after a
/// non-empty stem) that is a code extension, and otherwise when the whole
/// name, lowercased, is a known code file name.
pub open spec fn spec_is_code_file(name: Seq<char>) -> bool {
    let st = spec_ext_start(name);
    if st >= 2 {
        crate::constants::spec_code_extensions().contains(name.subrange(st, name.len() as int))
    } else {
        crate::constants::spec_code_filenames().contains(
            name.map_values(|c: char| lower_char(c)),
        )
    }
}

/// Whether a directory entry's name marks a code file.
pub fn is_code_file(name: &str) -> (r: bool)
    ensures
        r == spec_is_code_file(name@),
{
    proof {
        lemma_ext_start_bounds(name@);
    }
    let n = name.unicode_len();
    let mut start: usize = 0;
    let mut i: usize = 0;
    while i < n
        invariant
            i <= n,
            n == name@.len(),
            start == spec_ext_start(name@.subrange(0, i as int)),
            start <= i,
        decreases n - i,
    {
        let c = name.get_char(i);
        proof {
            assert(name@.subrange(0, i + 1).drop_last() =~= name@.subrange(0, i as int));
            assert(name@.subrange(0, i + 1).last() == name@[i as int]);
        }
        if c == '.' {
            start = i + 1;
        }
        i += 1;
    }
    proof {
        assert(name@.subrange(0, n as int) =~= name@);
    }
    if start >= 2 {
        let ext = name.substring_char(start, n);
        is_code_extension(ext)
    } else {
        is_code_filename(name)
    }
}

/// Whether an entry survives the tree filter: directories must not be
/// excluded, files must look like code.
pub fn keep_entry(entry_name: &str, is_dir: bool) -> (r: bool)
    ensures
        r == if is_dir {
            !crate::constants::spec_excluded_dirs().contains(entry_name@)
        } else {
            spec_is_code_file(entry_name@)
        },
{
    if is_dir {
        !should_exclude_dir(entry_name)
    } else {
        is_code_file(entry_name)
    }
}

/// When a directory is delivered lazily instead of recursed into: at the
/// depth limit, or when it holds more than a hundred entries.
pub fn should_lazy_load(current_depth: usize, max_depth: usize, entry_count: usize) -> (r: bool)
    ensures
        r == (current_depth >= max_depth || entry_count > 100),
{
    current_depth >= max_depth || entry_count > 100
}

/// Lexicographic order on character sequences.
pub open spec fn lex_le(a: Seq<char>, b: Seq<char>) -> bool
    decreases a.len(),
{
    if a.len() == 0 {
        true
    } else if b.len() == 0 {
        false
    } else if a[0] == b[0] {
        lex_le(a.skip(1), b.skip(1))
    } else {
        a[0] < b[0]
    }
}

pub proof fn lemma_lex_le_total(a: Seq<char>, b: Seq<char>)
    ensures
        lex_le(a, b) || lex_le(b, a),
    decreases a.len(),
{
    if a.len() > 0 && b.len() > 0 && a[0] == b[0] {
        lemma_lex_le_total(a.skip(1), b.skip(1));
    }
}

/// Display order: directories first, then ASCII-lowercased names
/// lexicographically.
pub open spec fn node_le(a: FileNode, b: FileNode) -> bool {
    if a.is_directory != b.is_directory {
        a.is_directory
    } else {
        lex_le(
            a.name@.map_values(|c: char| lower_char(c)),
            b.name@.map_values(|c: char| lower_char(c)),
        )
    }
}

pub proof fn lemma_node_le_total(a: FileNode, b: FileNode)
    ensures
        node_le(a, b) || node_le(b, a),
{
    if a.is_directory == b.is_directory {
        lemma_lex_le_total(
            a.name@.map_values(|c: char| lower_char(c)),
            b.name@.map_values(|c: char| lower_char(c)),
        );
    }
}

/// Sorted in display order.
pub open spec fn nodes_sorted(s: Seq<FileNode>) -> bool {
    forall|i: int, j: int| 0 <= i < j < s.len() ==> node_le(#[trigger] s[i], #[trigger] s[j])
}

/// Compare lowercased names lexicographically.
fn lex_le_lower(a: &str, b: &str) -> (r: bool)
    ensures
        r == lex_le(
            a@.map_values(|c: char| lower_char(c)),
            b@.map_values(|c: char| lower_char(c)),
        ),
{
    let ghost la = a@.map_values(|c: char| lower_char(c));
    let ghost lb = b@.map_values(|c: char| lower_char(c));
    let na = a.unicode_len();
    let nb = b.unicode_len();
    proof {
        assert(la.skip(0) =~= la);
        assert(lb.skip(0) =~= lb);
    }
    let mut i: usize = 0;
    while i < na && i < nb
        invariant
            i <= na,
            i <= nb,
            na == la.len(),
            nb == lb.len(),
            la == a@.map_values(|c: char| lower_char(c)),
            lb == b@.map_values(|c: char| lower_char(c)),
            forall|t: int| 0 <= t < i ==> la[t] == lb[t],
            lex_le(la, lb) == lex_le(la.skip(i as int), lb.skip(i as int)),
        decreases na - i,
    {
        let ca = a.get_char(i);
        let cb = b.get_char(i);
        let lca = if 'A' <= ca && ca <= 'Z' {
            (((ca as u8) + 32) as char)
        } else {
            ca
        };
        let lcb = if 'A' <= cb && cb <= 'Z' {
            (((cb as u8) + 32) as char)
        } else {
            cb
        };
        proof {
            assert(la.skip(i as int)[0] == la[i as int]);
            assert(lb.skip(i as int)[0] == lb[i as int]);
            assert(la[i as int] == lower_char(a@[i as int]));
            assert(lb[i as int] == lower_char(b@[i as int]));
        }
        if lca != lcb {
            return lca < lcb;
        }
        proof {
            assert(la.skip(i as int).skip(1) =~= la.skip(i + 1));
            assert(lb.skip(i as int).skip(1) =~= lb.skip(i + 1));
        }
        i += 1;
    }
    proof {
        assert(la.skip(i as int).len() == na - i);
        assert(lb.skip(i as int).len() == nb - i);
    }
    na <= nb
}

fn node_le_exec(a: &FileNode, b: &FileNode) -> (r: bool)
    ensures
        r == node_le(*a, *b),
{
    if a.is_directory != b.is_directory {
        a.is_directory
    } else {
        lex_le_lower(a.name.as_str(), b.name.as_str())
    }
}

/// Sort nodes into display order; the result is a permutation of the
/// input.
pub fn sort_file_nodes(nodes: Vec<FileNode>) -> (r: Vec<FileNode>)
    ensures
        nodes_sorted(r@),
        r@.to_multiset() == nodes@.to_multiset(),
{
    broadcast use vstd::seq_lib::group_to_multiset_ensures;

    let mut rest = nodes;
    let mut out: Vec<FileNode> = Vec::new();
    while rest.len() > 0
        invariant
            nodes_sorted(out@),
            out@.to_multiset().add(rest@.to_multiset()) == nodes@.to_multiset(),
            forall|x: int, y: int|
                0 <= x < out@.len() && 0 <= y < rest@.len() ==> node_le(
                    #[trigger] out@[x],
                    #[trigger] rest@[y],
                ),
        decreases rest.len(),
    {
        // position of the first minimal element
        let m = rest.len();
        let mut mi: usize = 0;
        let mut k: usize = 1;
        proof {
            lemma_node_le_total(rest@[0], rest@[0]);
        }
        while k < m
            invariant
                mi < k <= m,
                m == rest@.len(),
                forall|t: int| 0 <= t < k ==> node_le(rest@[mi as int], #[trigger] rest@[t]),
            decreases m - k,
        {
            if !node_le_exec(&rest[mi], &rest[k]) {
                proof {
                    lemma_node_le_total(rest@[mi as int], rest@[k as int]);
                    assert forall|t: int| 0 <= t < k + 1 implies node_le(
                        rest@[k as int],
                        #[trigger] rest@[t],
                    ) by {
                        if t < k {
                            lemma_node_le_trans(rest@[k as int], rest@[mi as int], rest@[t]);
                        } else {
                            lemma_node_le_total(rest@[k as int], rest@[k as int]);
                        }
                    }
                }
                mi = k;
            } else {
                proof {
                    assert forall|t: int| 0 <= t < k + 1 implies node_le(
                        rest@[mi as int],
                        #[trigger] rest@[t],
                    ) by {}
                }
            }
            k += 1;
        }
        let ghost pre_rest = rest@;
        let ghost pre_out = out@;
        let picked = rest.remove(mi);
        proof {
            pre_rest.to_multiset_ensures();
            pre_out.to_multiset_ensures();
            assert(picked == pre_rest[mi as int]);
            assert(rest@ == pre_rest.remove(mi as int));
            assert(pre_rest.remove(mi as int).to_multiset() =~= pre_rest.to_multiset().remove(
                picked,
            ));
            assert(rest@.to_multiset() =~= pre_rest.to_multiset().remove(picked));
            assert(pre_rest.to_multiset().count(picked) > 0) by {
                assert(pre_rest.contains(picked));
            }
        }
        out.push(picked);
        proof {
            assert(out@.to_multiset() =~= pre_out.to_multiset().insert(picked));
            assert(out@.to_multiset().add(rest@.to_multiset()) =~= nodes@.to_multiset());
            assert(out@ == pre_out.push(picked));
            assert forall|x: int, y: int|
                0 <= x < out@.len() && 0 <= y < rest@.len() implies node_le(
                #[trigger] out@[x],
                #[trigger] rest@[y],
            ) by {
                let yo = if y < mi {
                    y
                } else {
                    y + 1
                };
                assert(rest@[y] == pre_rest[yo]);
                if x < pre_out.len() {
                    assert(out@[x] == pre_out[x]);
                } else {
                    assert(out@[x] == picked);
                    assert(node_le(picked, pre_rest[yo]));
                }
            }
            assert forall|i: int, j: int|
                0 <= i < j < out@.len() implies node_le(#[trigger] out@[i], #[trigger] out@[j]) by {
                if j < pre_out.len() {
                } else {
                    assert(out@[j] == picked);
                    assert(pre_rest[mi as int] == picked);
                    assert(node_le(pre_out[i], pre_rest[mi as int]));
                }
            }
        }
    }
    out
}

pub proof fn lemma_lex_le_trans(a: Seq<char>, b: Seq<char>, c: Seq<char>)
    requires
        lex_le(a, b),
        lex_le(b, c),
    ensures
        lex_le(a, c),
    decreases a.len(),
{
    if a.len() > 0 && b.len() > 0 && c.len() > 0 {
        if a[0] == b[0] && b[0] == c[0] {
            lemma_lex_le_trans(a.skip(1), b.skip(1), c.skip(1));
        }
    }
}

pub proof fn lemma_node_le_trans(a: FileNode, b: FileNode, c: FileNode)
    requires
        node_le(a, b),
        node_le(b, c),
    ensures
        node_le(a, c),
{
    if a.is_directory == b.is_directory && b.is_directory == c.is_directory {
        lemma_lex_le_trans(
            a.name@.map_values(|ch: char| lower_char(ch)),
            b.name@.map_values(|ch: char| lower_char(ch)),
            c.name@.map_values(|ch: char| lower_char(ch)),
        );
    }
}

/// One cached tree node with the time it was stored.
pub struct CachedEntry {
    pub node: FileNode,
    pub cached_at: u64,
}

impl DeepView for CachedEntry {
    type V = CachedEntry;

    open spec fn deep_view(&self) -> CachedEntry {
        *self
    }
}

/// Directory tree builder: a cache of shaped nodes with a time-to-live.
pub struct DirectoryTreeBuilder {
    cache: VecMap<CachedEntry>,
    cache_ttl: u64,
}

impl DirectoryTreeBuilder {
    /// Abstract cache contents.
    pub closed spec fn cache_map(&self) -> Map<Seq<char>, CachedEntry> {
        self.cache@
    }

    /// The configured time-to-live, in seconds.
    pub closed spec fn ttl(&self) -> u64 {
        self.cache_ttl
    }

    /// Cache representation invariant.
    pub closed spec fn wf(&self) -> bool {
        self.cache.inv()
    }

    /// A builder with an empty cache and a thirty-second time-to-live.
    pub fn new() -> (r: Self)
        ensures
            r.wf(),
            r.cache_map() == Map::<Seq<char>, CachedEntry>::empty(),
            r.ttl() == 30,
    {
        DirectoryTreeBuilder { cache: VecMap::new(), cache_ttl: 30 }
    }

    /// Serve a cached node for `key` when one was stored no longer than
    /// the time-to-live before `now`.
    pub fn cache_lookup<'a>(&'a self, key: &str, now: u64) -> (r: Option<&'a FileNode>)
        requires
            self.wf(),
        ensures
            match r {
                Some(node) => {
                    &&& self.cache_map().contains_key(key@)
                    &&& self.cache_map()[key@].node == *node
                    &&& self.cache_map()[key@].cached_at <= now
                    &&& now - self.cache_map()[key@].cached_at <= self.ttl()
                },
                None => {
                    ||| !self.cache_map().contains_key(key@)
                    ||| self.cache_map()[key@].cached_at > now
                    ||| now - self.cache_map()[key@].cached_at > self.ttl()
                },
            },
    {
        match self.cache.get(key) {
            Some(entry) => {
                if entry.cached_at <= now && now - entry.cached_at <= self.cache_ttl {
                    Some(&entry.node)
                } else {
                    None
                }
            },
            None => None,
        }
    }

    /// Store a freshly built node under `key` at time `now`.
    pub fn cache_store(&mut self, key: String, node: FileNode, now: u64)
        requires
            old(self).wf(),
        ensures
            final(self).wf(),
            final(self).ttl() == old(self).ttl(),
            final(self).cache_map() == old(self).cache_map().insert(
                key@,
                (CachedEntry { node, cached_at: now }),
            ),
    {
        self.cache.insert(key, CachedEntry { node, cached_at: now });
    }

    /// Drop every cached node.
    pub fn clear_cache(&mut self)
        ensures
            final(self).wf(),
            final(self).ttl() == old(self).ttl(),
            final(self).cache_map() == Map::<Seq<char>, CachedEntry>::empty(),
    {
        self.cache.clear();
    }

    /// Drop the cached node of one path and of its children listing.
    pub fn invalidate_path(&mut self, path: &str)
        requires
            old(self).wf(),
        ensures
            final(self).wf(),
            final(self).ttl() == old(self).ttl(),
            final(self).cache_map() == old(self).cache_map().remove(
                path@.map_values(|c: char| spec_normalize_char(c)),
            ).remove(path@.map_values(|c: char| spec_normalize_char(c)) + "_children"@),
    {
        let normalized = normalize_path(path);
        let mut child_key = normalized.clone();
        child_key.append("_children");
        self.cache.take(normalized.as_str());
        self.cache.take(child_key.as_str());
    }
}

} // verus!
