//! Versioned persistence of the symbol index.
//!
//! The library builds and interprets snapshots as plain data; reading and
//! writing the backing file, and its JSON encoding, happen outside. A
//! snapshot is keyed by a stable hash of the project root, carries a
//! format version, and is discarded rather than migrated when the version
//! or the root does not match.

use sha2::Digest;
use vstd::prelude::*;

verus! {

use crate::symbols::{has_record, SymbolInfo, SymbolModel};
use crate::text::str_eq;

/// Version of the persisted index format.
pub const INDEX_VERSION: u32 = 2;

/// The SHA-256 digest of a byte sequence; a function of the bytes alone.
pub uninterp spec fn sha256_of(bytes: Seq<u8>) -> Seq<u8>;

/// Relies on sha2::Sha256 (the Digest::digest one-shot): the SHA-256
/// digest of `bytes`, which depends on the bytes alone and is 32 bytes
/// long.
#[verifier::external_body]
fn sha256(bytes: &[u8]) -> (r: Vec<u8>)
    ensures
        r@ == sha256_of(bytes@),
        r@.len() == 32,
{
    sha2::Sha256::digest(bytes).to_vec()
}

/// Lowercase hexadecimal digit for one value below 16.
pub open spec fn hex_digit(n: int) -> char {
    if n == 0 {
        '0'
    } else if n == 1 {
        '1'
    } else if n == 2 {
        '2'
    } else if n == 3 {
        '3'
    } else if n == 4 {
        '4'
    } else if n == 5 {
        '5'
    } else if n == 6 {
        '6'
    } else if n == 7 {
        '7'
    } else if n == 8 {
        '8'
    } else if n == 9 {
        '9'
    } else if n == 10 {
        'a'
    } else if n == 11 {
        'b'
    } else if n == 12 {
        'c'
    } else if n == 13 {
        'd'
    } else if n == 14 {
        'e'
    } else {
        'f'
    }
}

/// Lowercase hexadecimal of a byte sequence, two digits per byte, high
/// nibble first.
pub open spec fn hex_of(bytes: Seq<u8>) -> Seq<char> {
    Seq::new(
        bytes.len() * 2,
        |i: int|
            if i % 2 == 0 {
                hex_digit(bytes[i / 2] as int / 16)
            } else {
                hex_digit(bytes[i / 2] as int % 16)
            },
    )
}

/// Relies on hex::encode: lowercase hexadecimal, two digits per byte,
/// high nibble first.
#[verifier::external_body]
fn hex_encode(bytes: &[u8]) -> (r: String)
    ensures
        r@ == hex_of(bytes@),
{
    hex::encode(bytes)
}

/// The stable name of a project root: the first eight digest bytes of the
/// root path, in hexadecimal.
pub open spec fn spec_project_hash(root: Seq<char>) -> Seq<char> {
    hex_of(sha256_of(vstd::utf8::encode_utf8(root)).take(8))
}

/// Hash of the project root path used as the snapshot's file name: the
/// same root always yields the same sixteen hexadecimal characters.
pub fn get_project_hash(root_path: &str) -> (r: String)
    ensures
        r@ == spec_project_hash(root_path@),
        r@.len() == 16,
{
    let mut digest = sha256(root_path.as_bytes());
    digest.truncate(8);
    proof {
        assert(digest@ =~= sha256_of(vstd::utf8::encode_utf8(root_path@)).take(8));
    }
    hex_encode(digest.as_slice())
}

/// Hash stability: the project hash is a function of the root path
/// alone, so the same root names the same snapshot file across calls and
/// processes; two roots differ only where their digests differ.
pub proof fn lemma_hash_stable(root_a: Seq<char>, root_b: Seq<char>)
    requires
        root_a == root_b,
    ensures
        spec_project_hash(root_a) == spec_project_hash(root_b),
{
}

/// Snapshot of the symbol index, as stored on disk: format version, the
/// project root it belongs to, timestamps, and the two maps as entry
/// lists.
pub struct PersistedIndex {
    pub version: u32,
    pub root_path: String,
    pub last_updated: i64,
    pub file_timestamps: Vec<(String, i64)>,
    pub definitions: Vec<(String, Vec<SymbolInfo>)>,
    pub file_definitions: Vec<(String, Vec<String>)>,
}

/// Read-only summary of a snapshot, for deciding whether a full load is
/// worthwhile.
pub struct IndexMetadata {
    pub version: u32,
    pub root_path: String,
    pub last_updated: i64,
    pub file_count: usize,
    pub definition_count: usize,
    pub file_timestamps: Vec<(String, i64)>,
}

/// What `load_index` must do with a snapshot: apply it, discard the stale
/// file and rebuild, or leave the file and rebuild.
#[derive(PartialEq, Eq, Structural, Clone, Copy, Debug)]
pub enum LoadOutcome {
    Applied,
    RebuildDiscard,
    RebuildKeep,
}

/// Saturating sum of the record-list lengths of definition entries.
pub open spec fn spec_definition_count(entries: Seq<(Seq<char>, Seq<SymbolModel>)>) -> int
    decreases entries.len(),
{
    if entries.len() == 0 {
        0
    } else {
        let pre = spec_definition_count(entries.drop_last());
        if pre + entries.last().1.len() > usize::MAX {
            usize::MAX as int
        } else {
            pre + entries.last().1.len()
        }
    }
}

proof fn lemma_definition_count_bounds(entries: Seq<(Seq<char>, Seq<SymbolModel>)>)
    ensures
        0 <= spec_definition_count(entries) <= usize::MAX,
    decreases entries.len(),
{
    if entries.len() > 0 {
        lemma_definition_count_bounds(entries.drop_last());
    }
}

/// Total number of records in a snapshot's definition entries, saturated
/// at `usize::MAX`.
pub fn definition_count(entries: &Vec<(String, Vec<SymbolInfo>)>) -> (r: usize)
    ensures
        r == spec_definition_count(entries.deep_view()),
{
    let ghost all = entries.deep_view();
    let n = entries.len();
    let mut count: usize = 0;
    let mut i: usize = 0;
    while i < n
        invariant
            i <= n,
            n == entries.len(),
            all == entries.deep_view(),
            count == spec_definition_count(all.take(i as int)),
        decreases n - i,
    {
        proof {
            assert(all.take(i + 1).drop_last() =~= all.take(i as int));
            assert(all.take(i + 1).last() == all[i as int]);
            lemma_definition_count_bounds(all.take(i as int));
        }
        let len = entries[i].1.len();
        proof {
            assert(entries[i as int].1.deep_view().len() == entries[i as int].1@.len());
            assert(all[i as int].1.len() == len);
        }
        if count > usize::MAX - len {
            count = usize::MAX;
        } else {
            count = count + len;
        }
        i += 1;
    }
    proof {
        assert(all.take(n as int) =~= all);
    }
    count
}

/// Decide what to do with a stored snapshot for `root_path`: apply it
/// when both the format version and the root match; discard the file and
/// rebuild on a version mismatch; keep the file but rebuild on a root
/// mismatch, which defends against hash collisions.
pub fn evaluate_snapshot(p: &PersistedIndex, root_path: &str) -> (r: LoadOutcome)
    ensures
        (r == LoadOutcome::Applied) == (p.version == INDEX_VERSION && p.root_path@ == root_path@),
        (r == LoadOutcome::RebuildDiscard) == (p.version != INDEX_VERSION),
        (r == LoadOutcome::RebuildKeep) == (p.version == INDEX_VERSION && p.root_path@
            != root_path@),
{
    if p.version != INDEX_VERSION {
        LoadOutcome::RebuildDiscard
    } else if !str_eq(p.root_path.as_str(), root_path) {
        LoadOutcome::RebuildKeep
    } else {
        LoadOutcome::Applied
    }
}

/// Read-only summary of a snapshot; `None` when the format version does
/// not match.
pub fn metadata_of(p: &PersistedIndex) -> (r: Option<IndexMetadata>)
    ensures
        r.is_some() == (p.version == INDEX_VERSION),
        match r {
            Some(m) => {
                &&& m.version == p.version
                &&& m.root_path@ == p.root_path@
                &&& m.last_updated == p.last_updated
                &&& m.file_count == p.file_definitions.deep_view().len()
                &&& m.definition_count == spec_definition_count(p.definitions.deep_view())
                &&& m.file_timestamps.deep_view() == p.file_timestamps.deep_view()
            },
            None => true,
        },
{
    if p.version != INDEX_VERSION {
        return None;
    }
    let mut stamps: Vec<(String, i64)> = Vec::new();
    let n = p.file_timestamps.len();
    let mut i: usize = 0;
    while i < n
        invariant
            i <= n,
            n == p.file_timestamps.len(),
            stamps.deep_view() =~= p.file_timestamps.deep_view().take(i as int),
        decreases n - i,
    {
        let ghost prev = stamps.deep_view();
        stamps.push((p.file_timestamps[i].0.clone(), p.file_timestamps[i].1));
        proof {
            assert(stamps.deep_view().len() == prev.len() + 1);
            assert(forall|j: int|
                0 <= j < prev.len() ==> #[trigger] stamps.deep_view()[j] == prev[j]);
            assert(stamps.deep_view()[i as int] == p.file_timestamps.deep_view()[i as int]);
            assert(stamps.deep_view() =~= p.file_timestamps.deep_view().take(i + 1));
        }
        i += 1;
    }
    proof {
        assert(p.file_timestamps.deep_view().take(n as int) =~= p.file_timestamps.deep_view());
    }
    Some(
        IndexMetadata {
            version: p.version,
            root_path: p.root_path.clone(),
            last_updated: p.last_updated,
            file_count: p.file_definitions.len(),
            definition_count: definition_count(&p.definitions),
            file_timestamps: stamps,
        },
    )
}

/// All records of a snapshot's definition entries, in entry order.
pub open spec fn concat_records(entries: Seq<(Seq<char>, Seq<SymbolModel>)>) -> Seq<SymbolModel>
    decreases entries.len(),
{
    if entries.len() == 0 {
        Seq::empty()
    } else {
        concat_records(entries.drop_last()) + entries.last().1
    }
}

/// Membership in the flattened records: some entry holds the record.
pub proof fn lemma_concat_records_members(entries: Seq<(Seq<char>, Seq<SymbolModel>)>)
    ensures
        forall|r: SymbolModel| #[trigger] concat_records(entries).contains(r) <==> exists|e: int|
            0 <= e < entries.len() && (#[trigger] entries[e].1).contains(r),
    decreases entries.len(),
{
    if entries.len() == 0 {
    } else {
        lemma_concat_records_members(entries.drop_last());
        crate::symbols::lemma_contains_concat(
            concat_records(entries.drop_last()),
            entries.last().1,
        );
        assert forall|r: SymbolModel| #[trigger] concat_records(entries).contains(r) <==> exists|
            e: int,
        | 0 <= e < entries.len() && (#[trigger] entries[e].1).contains(r) by {
            if concat_records(entries).contains(r) {
                if concat_records(entries.drop_last()).contains(r) {
                    let e = choose|e: int|
                        0 <= e < entries.drop_last().len() && (#[trigger] entries.drop_last()[e].1).contains(
                            r,
                        );
                    assert(entries[e].1.contains(r));
                } else {
                    assert(entries[entries.len() - 1].1.contains(r));
                }
            }
            if exists|e: int| 0 <= e < entries.len() && (#[trigger] entries[e].1).contains(r) {
                let e = choose|e: int|
                    0 <= e < entries.len() && (#[trigger] entries[e].1).contains(r);
                if e < entries.len() - 1 {
                    assert(entries.drop_last()[e].1.contains(r));
                }
            }
        }
    }
}

/// Persistence round trip: the records flattened out of a well-formed
/// index's definition entries are exactly the records the index held, so
/// a snapshot taken with `make_persisted_index`, cleared away, and loaded
/// back with `load_snapshot` restores the same set of definition records.
pub proof fn lemma_persistence_round_trip(
    kvs: Seq<(Seq<char>, Seq<SymbolModel>)>,
    defs: Map<Seq<char>, Seq<SymbolModel>>,
    files: Map<Seq<char>, Seq<Seq<char>>>,
)
    requires
        crate::vecmap::distinct_keys(kvs),
        crate::vecmap::map_of(kvs) == defs,
        crate::symbols::wf_maps(defs, files),
    ensures
        forall|r: SymbolModel| #[trigger] concat_records(kvs).contains(r) <==> has_record(defs, r),
{
    lemma_concat_records_members(kvs);
    assert forall|r: SymbolModel| #[trigger] concat_records(kvs).contains(r) <==> has_record(
        defs,
        r,
    ) by {
        crate::vecmap::lemma_map_of_contains(kvs, r.name);
        if concat_records(kvs).contains(r) {
            let e = choose|e: int| 0 <= e < kvs.len() && (#[trigger] kvs[e].1).contains(r);
            crate::vecmap::lemma_map_of_index(kvs, e);
            assert(defs.contains_key(kvs[e].0));
            assert(defs[kvs[e].0] == kvs[e].1);
            let i = choose|i: int| 0 <= i < kvs[e].1.len() && kvs[e].1[i] == r;
            assert(defs[kvs[e].0][i] == r);
            assert(defs[kvs[e].0][i].name == kvs[e].0);
            assert(r.name == kvs[e].0);
        }
        if has_record(defs, r) {
            let e = choose|e: int| 0 <= e < kvs.len() && #[trigger] kvs[e].0 == r.name;
            crate::vecmap::lemma_map_of_index(kvs, e);
            assert(kvs[e].1 == defs[r.name]);
            assert(kvs[e].1.contains(r));
        }
    }
}

} // verus!
