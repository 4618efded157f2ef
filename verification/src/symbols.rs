//! The symbol index: name-keyed definition records plus a reverse index
//! from file path to the names that file defines.
//!
//! The two maps are kept consistent: every name listed for a file has a
//! record with that file path, and every record's file lists its name.
//! `wf_maps` states that invariant; every mutating operation preserves it.

use vstd::prelude::*;

verus! {

use crate::text::{str_eq, vec_contains_string};
use crate::vecmap::VecMap;

/// One symbol definition or reference occurrence.
pub struct SymbolInfo {
    pub name: String,
    pub kind: String,
    pub file_path: String,
    pub lang_family: String,
    pub start_line: u32,
    pub start_column: u32,
    pub end_line: u32,
    pub end_column: u32,
}

/// Mathematical model of a `SymbolInfo`.
pub ghost struct SymbolModel {
    pub name: Seq<char>,
    pub kind: Seq<char>,
    pub file_path: Seq<char>,
    pub lang_family: Seq<char>,
    pub start_line: u32,
    pub start_column: u32,
    pub end_line: u32,
    pub end_column: u32,
}

impl View for SymbolInfo {
    type V = SymbolModel;

    open spec fn view(&self) -> SymbolModel {
        SymbolModel {
            name: self.name@,
            kind: self.kind@,
            file_path: self.file_path@,
            lang_family: self.lang_family@,
            start_line: self.start_line,
            start_column: self.start_column,
            end_line: self.end_line,
            end_column: self.end_column,
        }
    }
}

impl DeepView for SymbolInfo {
    type V = SymbolModel;

    open spec fn deep_view(&self) -> SymbolModel {
        self.view()
    }
}

impl Clone for SymbolInfo {
    fn clone(&self) -> (r: Self)
        ensures
            r == *self,
    {
        SymbolInfo {
            name: self.name.clone(),
            kind: self.kind.clone(),
            file_path: self.file_path.clone(),
            lang_family: self.lang_family.clone(),
            start_line: self.start_line,
            start_column: self.start_column,
            end_line: self.end_line,
            end_column: self.end_column,
        }
    }
}

/// Records of `recs` whose language family is `fam`, in order.
pub open spec fn filter_family(recs: Seq<SymbolModel>, fam: Seq<char>) -> Seq<SymbolModel>
    decreases recs.len(),
{
    if recs.len() == 0 {
        Seq::empty()
    } else {
        let pre = filter_family(recs.drop_last(), fam);
        if recs.last().lang_family == fam {
            pre.push(recs.last())
        } else {
            pre
        }
    }
}

/// Records of `recs` that do not belong to file `f`, in order.
pub open spec fn drop_file(recs: Seq<SymbolModel>, f: Seq<char>) -> Seq<SymbolModel>
    decreases recs.len(),
{
    if recs.len() == 0 {
        Seq::empty()
    } else {
        let pre = drop_file(recs.drop_last(), f);
        if recs.last().file_path != f {
            pre.push(recs.last())
        } else {
            pre
        }
    }
}

/// The record list stored under `n`, empty when absent.
pub open spec fn defs_at(defs: Map<Seq<char>, Seq<SymbolModel>>, n: Seq<char>) -> Seq<SymbolModel> {
    if defs.contains_key(n) {
        defs[n]
    } else {
        Seq::empty()
    }
}

/// The definitions map after removing every record of file `f`; names left
/// with no records lose their entry.
pub open spec fn clear_defs(defs: Map<Seq<char>, Seq<SymbolModel>>, f: Seq<char>) -> Map<
    Seq<char>,
    Seq<SymbolModel>,
> {
    Map::new(
        |n: Seq<char>| defs.contains_key(n) && drop_file(defs[n], f).len() > 0,
        |n: Seq<char>| drop_file(defs[n], f),
    )
}

/// Append one record under its own name.
pub open spec fn add_record(defs: Map<Seq<char>, Seq<SymbolModel>>, r: SymbolModel) -> Map<
    Seq<char>,
    Seq<SymbolModel>,
> {
    defs.insert(r.name, defs_at(defs, r.name).push(r))
}

/// Append records in order, each under its own name.
pub open spec fn add_records(defs: Map<Seq<char>, Seq<SymbolModel>>, recs: Seq<SymbolModel>) -> Map<
    Seq<char>,
    Seq<SymbolModel>,
>
    decreases recs.len(),
{
    if recs.len() == 0 {
        defs
    } else {
        add_record(add_records(defs, recs.drop_last()), recs.last())
    }
}

/// The distinct names of `recs`, in order of first occurrence.
pub open spec fn names_of(recs: Seq<SymbolModel>) -> Seq<Seq<char>>
    decreases recs.len(),
{
    if recs.len() == 0 {
        Seq::empty()
    } else {
        let pre = names_of(recs.drop_last());
        if pre.contains(recs.last().name) {
            pre
        } else {
            pre.push(recs.last().name)
        }
    }
}

/// Pairwise-distinct name sequence.
pub open spec fn distinct_names(names: Seq<Seq<char>>) -> bool {
    forall|i: int, j: int| 0 <= i < j < names.len() ==> names[i] != names[j]
}

/// `defs` holds `r` under its name.
pub open spec fn has_record(defs: Map<Seq<char>, Seq<SymbolModel>>, r: SymbolModel) -> bool {
    defs.contains_key(r.name) && defs[r.name].contains(r)
}

/// The dual-map invariant: record lists are non-empty and keyed by the
/// record's own name; every record's file lists that name; every listed
/// name has a record in that file; name lists are non-empty and distinct.
pub open spec fn wf_maps(
    defs: Map<Seq<char>, Seq<SymbolModel>>,
    files: Map<Seq<char>, Seq<Seq<char>>>,
) -> bool {
    &&& forall|n: Seq<char>| #[trigger] defs.contains_key(n) ==> defs[n].len() > 0
    &&& forall|n: Seq<char>, i: int|
        #![trigger defs[n][i]]
        defs.contains_key(n) && 0 <= i < defs[n].len() ==> {
            &&& defs[n][i].name == n
            &&& files.contains_key(defs[n][i].file_path)
            &&& files[defs[n][i].file_path].contains(n)
        }
    &&& forall|f: Seq<char>| #[trigger] files.contains_key(f) ==> files[f].len() > 0
        && distinct_names(files[f])
    &&& forall|f: Seq<char>, j: int|
        #![trigger files[f][j]]
        files.contains_key(f) && 0 <= j < files[f].len() ==> {
            &&& defs.contains_key(files[f][j])
            &&& exists|i: int|
                0 <= i < defs[files[f][j]].len() && (#[trigger] defs[files[f][j]][i]).file_path
                    == f
        }
}

pub proof fn lemma_contains_snoc<A>(s: Seq<A>, x: A)
    ensures
        forall|r: A| #[trigger] s.push(x).contains(r) <==> (s.contains(r) || r == x),
{
    assert forall|r: A| #[trigger] s.push(x).contains(r) implies (s.contains(r) || r == x) by {
        let i = choose|i: int| 0 <= i < s.push(x).len() && s.push(x)[i] == r;
        if i < s.len() {
            assert(s[i] == r);
        }
    }
    assert forall|r: A| (s.contains(r) || r == x) implies #[trigger] s.push(x).contains(r) by {
        if s.contains(r) {
            let i = choose|i: int| 0 <= i < s.len() && s[i] == r;
            assert(s.push(x)[i] == r);
        } else {
            assert(s.push(x)[s.len() as int] == r);
        }
    }
}

pub proof fn lemma_contains_unsnoc<A>(s: Seq<A>)
    requires
        s.len() > 0,
    ensures
        forall|r: A| #[trigger] s.contains(r) <==> (s.drop_last().contains(r) || s.last() == r),
{
    lemma_contains_snoc(s.drop_last(), s.last());
    assert(s.drop_last().push(s.last()) =~= s);
}

/// Membership in `drop_file`: exactly the records of other files.
pub proof fn lemma_drop_file_members(recs: Seq<SymbolModel>, f: Seq<char>)
    ensures
        forall|r: SymbolModel| #[trigger] drop_file(recs, f).contains(r) <==> (recs.contains(r)
            && r.file_path != f),
    decreases recs.len(),
{
    if recs.len() == 0 {
    } else {
        lemma_drop_file_members(recs.drop_last(), f);
        lemma_contains_unsnoc(recs);
        if recs.last().file_path != f {
            lemma_contains_snoc(drop_file(recs.drop_last(), f), recs.last());
        }
        assert forall|r: SymbolModel| #[trigger] drop_file(recs, f).contains(r) <==> (recs.contains(
            r,
        ) && r.file_path != f) by {
            let pre = drop_file(recs.drop_last(), f);
            if recs.last().file_path != f {
                assert(drop_file(recs, f) == pre.push(recs.last()));
                assert(pre.push(recs.last()).contains(r) <==> (pre.contains(r) || r
                    == recs.last()));
            } else {
                assert(drop_file(recs, f) == pre);
            }
            assert(recs.contains(r) <==> (recs.drop_last().contains(r) || recs.last() == r));
            assert(pre.contains(r) <==> (recs.drop_last().contains(r) && r.file_path != f));
        }
    }
}

/// A sequence with no record of file `f` is unchanged by `drop_file`.
pub proof fn lemma_drop_file_id(recs: Seq<SymbolModel>, f: Seq<char>)
    requires
        forall|i: int| 0 <= i < recs.len() ==> (#[trigger] recs[i]).file_path != f,
    ensures
        drop_file(recs, f) == recs,
    decreases recs.len(),
{
    if recs.len() == 0 {
        assert(drop_file(recs, f) =~= recs);
    } else {
        lemma_drop_file_id(recs.drop_last(), f);
        assert(recs[recs.len() - 1].file_path != f);
        assert(drop_file(recs, f) =~= recs);
    }
}

/// One step of targeted invalidation: remove file `f`'s records under
/// name `n`, dropping the entry when nothing is left.
pub open spec fn clear_one(
    defs: Map<Seq<char>, Seq<SymbolModel>>,
    f: Seq<char>,
    n: Seq<char>,
) -> Map<Seq<char>, Seq<SymbolModel>> {
    if defs.contains_key(n) {
        if drop_file(defs[n], f).len() > 0 {
            defs.insert(n, drop_file(defs[n], f))
        } else {
            defs.remove(n)
        }
    } else {
        defs
    }
}

/// `clear_one` folded over the first `j` names.
pub open spec fn clear_fold(
    defs: Map<Seq<char>, Seq<SymbolModel>>,
    f: Seq<char>,
    names: Seq<Seq<char>>,
    j: int,
) -> Map<Seq<char>, Seq<SymbolModel>>
    decreases j,
{
    if j <= 0 {
        defs
    } else {
        clear_one(clear_fold(defs, f, names, j - 1), f, names[j - 1])
    }
}

/// Pointwise description of `clear_fold`: processed names are filtered,
/// the rest still hold their original records.
pub proof fn lemma_clear_fold_char(
    defs: Map<Seq<char>, Seq<SymbolModel>>,
    f: Seq<char>,
    names: Seq<Seq<char>>,
    j: int,
)
    requires
        0 <= j <= names.len(),
        distinct_names(names),
    ensures
        forall|n: Seq<char>| #[trigger] clear_fold(defs, f, names, j).contains_key(n) <==> (
        defs.contains_key(n) && (!names.take(j).contains(n) || drop_file(defs[n], f).len() > 0)),
        forall|n: Seq<char>| #[trigger] clear_fold(defs, f, names, j).contains_key(n)
            ==> clear_fold(defs, f, names, j)[n] == (if names.take(j).contains(n) {
            drop_file(defs[n], f)
        } else {
            defs[n]
        }),
    decreases j,
{
    if j == 0 {
        assert(names.take(0) =~= Seq::<Seq<char>>::empty());
    } else {
        lemma_clear_fold_char(defs, f, names, j - 1);
        let prev = clear_fold(defs, f, names, j - 1);
        let nm = names[j - 1];
        assert(names.take(j) =~= names.take(j - 1).push(nm));
        lemma_contains_snoc(names.take(j - 1), nm);
        assert(!names.take(j - 1).contains(nm)) by {
            if names.take(j - 1).contains(nm) {
                let i = choose|i: int| 0 <= i < j - 1 && #[trigger] names.take(j - 1)[i] == nm;
                assert(names[i] == names[j - 1]);
            }
        }
    }
}

/// After folding over all the names that file `f` defines, the result is
/// exactly the global `clear_defs`.
pub proof fn lemma_clear_fold_complete(
    defs: Map<Seq<char>, Seq<SymbolModel>>,
    files: Map<Seq<char>, Seq<Seq<char>>>,
    f: Seq<char>,
)
    requires
        wf_maps(defs, files),
        files.contains_key(f),
    ensures
        clear_fold(defs, f, files[f], files[f].len() as int) == clear_defs(defs, f),
{
    let names = files[f];
    lemma_clear_fold_char(defs, f, names, names.len() as int);
    let cf = clear_fold(defs, f, names, names.len() as int);
    assert(names.take(names.len() as int) =~= names);
    assert forall|n: Seq<char>|
        defs.contains_key(n) && !names.contains(n) implies drop_file(defs[n], f) == defs[n] by {
        assert forall|i: int| 0 <= i < defs[n].len() implies (#[trigger] defs[n][i]).file_path
            != f by {
            if defs[n][i].file_path == f {
                assert(files[defs[n][i].file_path].contains(n));
            }
        }
        lemma_drop_file_id(defs[n], f);
    }
    assert forall|n: Seq<char>| #[trigger] cf.contains_key(n) <==> clear_defs(
        defs,
        f,
    ).contains_key(n) by {
        if defs.contains_key(n) && !names.contains(n) {
            assert(drop_file(defs[n], f) == defs[n]);
            assert(defs[n].len() > 0);
        }
    }
    assert forall|n: Seq<char>| cf.contains_key(n) implies cf[n] == clear_defs(defs, f)[n] by {
        if !names.contains(n) {
            assert(drop_file(defs[n], f) == defs[n]);
        }
    }
    assert(cf =~= clear_defs(defs, f));
}

/// Invalidating one file preserves the dual-map invariant.
pub proof fn lemma_clear_preserves_wf(
    defs: Map<Seq<char>, Seq<SymbolModel>>,
    files: Map<Seq<char>, Seq<Seq<char>>>,
    f: Seq<char>,
)
    requires
        wf_maps(defs, files),
    ensures
        wf_maps(clear_defs(defs, f), files.remove(f)),
{
    let nd = clear_defs(defs, f);
    let nf = files.remove(f);
    assert forall|n: Seq<char>, i: int|
        nd.contains_key(n) && 0 <= i < nd[n].len() implies {
        &&& (#[trigger] nd[n][i]).name == n
        &&& nf.contains_key(nd[n][i].file_path)
        &&& nf[nd[n][i].file_path].contains(n)
    } by {
        let r = nd[n][i];
        lemma_drop_file_members(defs[n], f);
        assert(drop_file(defs[n], f).contains(r));
        assert(defs[n].contains(r) && r.file_path != f);
        let i0 = choose|i0: int| 0 <= i0 < defs[n].len() && defs[n][i0] == r;
        assert(defs[n][i0].name == n);
    }
    assert forall|f2: Seq<char>, j: int|
        nf.contains_key(f2) && 0 <= j < nf[f2].len() implies {
        &&& nd.contains_key(#[trigger] nf[f2][j])
        &&& exists|i: int|
            0 <= i < nd[nf[f2][j]].len() && (#[trigger] nd[nf[f2][j]][i]).file_path == f2
    } by {
        let nm = nf[f2][j];
        assert(files[f2][j] == nm);
        assert(defs.contains_key(nm));
        let i0 = choose|i0: int|
            0 <= i0 < defs[nm].len() && (#[trigger] defs[nm][i0]).file_path == f2;
        let r = defs[nm][i0];
        assert(r.name == nm);
        lemma_drop_file_members(defs[nm], f);
        assert(defs[nm].contains(r));
        assert(drop_file(defs[nm], f).contains(r));
        assert(nd.contains_key(nm));
        let i1 = choose|i1: int|
            0 <= i1 < drop_file(defs[nm], f).len() && drop_file(defs[nm], f)[i1] == r;
        assert(nd[nm][i1].file_path == f2);
    }
}

/// Records of `recs` named `n`, in order.
pub open spec fn filter_name(recs: Seq<SymbolModel>, n: Seq<char>) -> Seq<SymbolModel>
    decreases recs.len(),
{
    if recs.len() == 0 {
        Seq::empty()
    } else {
        let pre = filter_name(recs.drop_last(), n);
        if recs.last().name == n {
            pre.push(recs.last())
        } else {
            pre
        }
    }
}

/// Membership in `filter_name`: exactly the records with that name.
pub proof fn lemma_filter_name_members(recs: Seq<SymbolModel>, n: Seq<char>)
    ensures
        forall|r: SymbolModel| #[trigger] filter_name(recs, n).contains(r) <==> (recs.contains(r)
            && r.name == n),
    decreases recs.len(),
{
    if recs.len() == 0 {
    } else {
        lemma_filter_name_members(recs.drop_last(), n);
        lemma_contains_unsnoc(recs);
        if recs.last().name == n {
            lemma_contains_snoc(filter_name(recs.drop_last(), n), recs.last());
        }
        assert forall|r: SymbolModel| #[trigger] filter_name(recs, n).contains(r) <==> (
        recs.contains(r) && r.name == n) by {
            let pre = filter_name(recs.drop_last(), n);
            if recs.last().name == n {
                assert(filter_name(recs, n) == pre.push(recs.last()));
                assert(pre.push(recs.last()).contains(r) <==> (pre.contains(r) || r
                    == recs.last()));
            } else {
                assert(filter_name(recs, n) == pre);
            }
            assert(recs.contains(r) <==> (recs.drop_last().contains(r) || recs.last() == r));
            assert(pre.contains(r) <==> (recs.drop_last().contains(r) && r.name == n));
        }
    }
}

/// `names_of` lists exactly the record names, each once.
pub proof fn lemma_names_of_props(recs: Seq<SymbolModel>)
    ensures
        forall|n: Seq<char>| #[trigger] names_of(recs).contains(n) <==> exists|i: int|
            0 <= i < recs.len() && (#[trigger] recs[i]).name == n,
        distinct_names(names_of(recs)),
        recs.len() > 0 ==> names_of(recs).len() > 0,
    decreases recs.len(),
{
    if recs.len() == 0 {
    } else {
        lemma_names_of_props(recs.drop_last());
        let pre = names_of(recs.drop_last());
        lemma_contains_snoc(pre, recs.last().name);
        assert forall|n: Seq<char>| #[trigger] names_of(recs).contains(n) <==> exists|i: int|
            0 <= i < recs.len() && (#[trigger] recs[i]).name == n by {
            if names_of(recs).contains(n) {
                if pre.contains(n) {
                    let i = choose|i: int|
                        0 <= i < recs.drop_last().len() && (#[trigger] recs.drop_last()[i]).name
                            == n;
                    assert(recs[i].name == n);
                } else {
                    assert(n == recs.last().name);
                    assert(recs[recs.len() - 1].name == n);
                }
            }
            if exists|i: int| 0 <= i < recs.len() && (#[trigger] recs[i]).name == n {
                let i = choose|i: int| 0 <= i < recs.len() && (#[trigger] recs[i]).name == n;
                if i < recs.len() - 1 {
                    assert(recs.drop_last()[i].name == n);
                    assert(pre.contains(n));
                } else {
                    if !pre.contains(n) {
                        assert(names_of(recs) == pre.push(n));
                        assert(names_of(recs).contains(n));
                    }
                }
            }
        }
        if !pre.contains(recs.last().name) {
            assert forall|i: int, j: int|
                0 <= i < j < names_of(recs).len() implies names_of(recs)[i] != names_of(
                recs,
            )[j] by {
                if j < pre.len() {
                } else {
                    assert(names_of(recs)[j] == recs.last().name);
                    assert(pre.contains(pre[i]));
                }
            }
        }
    }
}

/// What `add_records` holds under each name: the old records followed by
/// the new records of that name.
pub proof fn lemma_add_records_char(defs: Map<Seq<char>, Seq<SymbolModel>>, recs: Seq<SymbolModel>)
    ensures
        forall|n: Seq<char>| #[trigger] add_records(defs, recs).contains_key(n) <==> (
        defs.contains_key(n) || exists|i: int| 0 <= i < recs.len() && (#[trigger] recs[i]).name
            == n),
        forall|n: Seq<char>| #[trigger] add_records(defs, recs).contains_key(n) ==> add_records(
            defs,
            recs,
        )[n] == defs_at(defs, n) + filter_name(recs, n),
    decreases recs.len(),
{
    if recs.len() == 0 {
        assert forall|n: Seq<char>| #[trigger] add_records(defs, recs).contains_key(n) implies
        add_records(defs, recs)[n] == defs_at(defs, n) + filter_name(recs, n) by {
            assert(defs_at(defs, n) + filter_name(recs, n) =~= defs[n]);
        }
    } else {
        lemma_add_records_char(defs, recs.drop_last());
        let prev = add_records(defs, recs.drop_last());
        let r = recs.last();
        assert forall|n: Seq<char>| #[trigger] add_records(defs, recs).contains_key(n) <==> (
        defs.contains_key(n) || exists|i: int| 0 <= i < recs.len() && (#[trigger] recs[i]).name
            == n) by {
            if n == r.name {
                assert(recs[recs.len() - 1].name == n);
            } else {
                if exists|i: int| 0 <= i < recs.len() && (#[trigger] recs[i]).name == n {
                    let i = choose|i: int| 0 <= i < recs.len() && (#[trigger] recs[i]).name == n;
                    assert(i < recs.len() - 1);
                    assert(recs.drop_last()[i].name == n);
                }
                if exists|i: int|
                    0 <= i < recs.drop_last().len() && (#[trigger] recs.drop_last()[i]).name
                        == n {
                    let i = choose|i: int|
                        0 <= i < recs.drop_last().len() && (#[trigger] recs.drop_last()[i]).name
                            == n;
                    assert(recs[i].name == n);
                }
            }
        }
        assert forall|n: Seq<char>| #[trigger] add_records(defs, recs).contains_key(n) implies
        add_records(defs, recs)[n] == defs_at(defs, n) + filter_name(recs, n) by {
            if n == r.name {
                assert(filter_name(recs, n) == filter_name(recs.drop_last(), n).push(r));
                if prev.contains_key(n) {
                    assert(add_records(defs, recs)[n] == prev[n].push(r));
                    assert(prev[n] == defs_at(defs, n) + filter_name(recs.drop_last(), n));
                    assert((defs_at(defs, n) + filter_name(recs.drop_last(), n)).push(r) =~= defs_at(
                        defs,
                        n,
                    ) + filter_name(recs, n));
                } else {
                    assert(defs_at(prev, n) =~= Seq::<SymbolModel>::empty());
                    assert(!defs.contains_key(n));
                    assert(defs_at(defs, n) =~= Seq::<SymbolModel>::empty());
                    assert(forall|i: int|
                        0 <= i < recs.drop_last().len() ==> (#[trigger] recs.drop_last()[i]).name
                            != n);
                    lemma_filter_name_members(recs.drop_last(), n);
                    assert(filter_name(recs.drop_last(), n).len() == 0) by {
                        if filter_name(recs.drop_last(), n).len() > 0 {
                            assert(filter_name(recs.drop_last(), n).contains(filter_name(
                                recs.drop_last(),
                                n,
                            )[0]));
                            let rr = filter_name(recs.drop_last(), n)[0];
                            assert(recs.drop_last().contains(rr) && rr.name == n);
                        }
                    }
                    assert(add_records(defs, recs)[n] == defs_at(prev, n).push(r));
                    assert(defs_at(prev, n).push(r) =~= defs_at(defs, n) + filter_name(recs, n));
                }
            } else {
                assert(filter_name(recs, n) == filter_name(recs.drop_last(), n));
                assert(add_records(defs, recs)[n] == prev[n]);
            }
        }
    }
}

/// Inserting one file's freshly parsed records into an index that holds
/// nothing for that file preserves the dual-map invariant.
pub proof fn lemma_insert_preserves_wf(
    defs: Map<Seq<char>, Seq<SymbolModel>>,
    files: Map<Seq<char>, Seq<Seq<char>>>,
    f: Seq<char>,
    recs: Seq<SymbolModel>,
)
    requires
        wf_maps(defs, files),
        !files.contains_key(f),
        recs.len() > 0,
        forall|i: int| 0 <= i < recs.len() ==> (#[trigger] recs[i]).file_path == f,
        forall|n: Seq<char>, i: int|
            #![trigger defs[n][i]]
            defs.contains_key(n) && 0 <= i < defs[n].len() ==> defs[n][i].file_path != f,
    ensures
        wf_maps(add_records(defs, recs), files.insert(f, names_of(recs))),
{
    let nd = add_records(defs, recs);
    let nf = files.insert(f, names_of(recs));
    lemma_add_records_char(defs, recs);
    lemma_names_of_props(recs);
    assert forall|n: Seq<char>| #[trigger] nd.contains_key(n) implies nd[n].len() > 0 by {
        if defs.contains_key(n) {
            assert(nd[n].len() >= defs[n].len());
        } else {
            let i = choose|i: int| 0 <= i < recs.len() && (#[trigger] recs[i]).name == n;
            lemma_filter_name_members(recs, n);
            assert(recs.contains(recs[i]));
            assert(filter_name(recs, n).contains(recs[i]));
        }
    }
    assert forall|n: Seq<char>, i: int|
        nd.contains_key(n) && 0 <= i < nd[n].len() implies {
        &&& (#[trigger] nd[n][i]).name == n
        &&& nf.contains_key(nd[n][i].file_path)
        &&& nf[nd[n][i].file_path].contains(n)
    } by {
        assert(nd[n] == defs_at(defs, n) + filter_name(recs, n));
        if i < defs_at(defs, n).len() {
            assert(defs.contains_key(n));
            assert(nd[n][i] == defs[n][i]);
            assert(defs[n][i].file_path != f);
        } else {
            let r = nd[n][i];
            assert(r == filter_name(recs, n)[i - defs_at(defs, n).len()]);
            lemma_filter_name_members(recs, n);
            assert(filter_name(recs, n).contains(r));
            assert(recs.contains(r) && r.name == n);
            let i0 = choose|i0: int| 0 <= i0 < recs.len() && recs[i0] == r;
            assert(recs[i0].file_path == f);
            assert(nf[f].contains(n));
        }
    }
    assert forall|f2: Seq<char>| #[trigger] nf.contains_key(f2) implies nf[f2].len() > 0
        && distinct_names(nf[f2]) by {
        if f2 != f {
            assert(files.contains_key(f2));
        }
    }
    assert forall|f2: Seq<char>, j: int|
        nf.contains_key(f2) && 0 <= j < nf[f2].len() implies {
        &&& nd.contains_key(#[trigger] nf[f2][j])
        &&& exists|i: int|
            0 <= i < nd[nf[f2][j]].len() && (#[trigger] nd[nf[f2][j]][i]).file_path == f2
    } by {
        let nm = nf[f2][j];
        if f2 == f {
            assert(names_of(recs).contains(nm));
            let i0 = choose|i0: int| 0 <= i0 < recs.len() && (#[trigger] recs[i0]).name == nm;
            let r = recs[i0];
            lemma_filter_name_members(recs, nm);
            assert(recs.contains(r));
            assert(filter_name(recs, nm).contains(r));
            let i1 = choose|i1: int|
                0 <= i1 < filter_name(recs, nm).len() && filter_name(recs, nm)[i1] == r;
            assert(nd.contains_key(nm));
            assert(nd[nm] == defs_at(defs, nm) + filter_name(recs, nm));
            assert(nd[nm][defs_at(defs, nm).len() + i1] == r);
            assert(r.file_path == f2);
        } else {
            assert(files[f2][j] == nm);
            assert(defs.contains_key(nm));
            let i0 = choose|i0: int|
                0 <= i0 < defs[nm].len() && (#[trigger] defs[nm][i0]).file_path == f2;
            assert(nd.contains_key(nm));
            assert(nd[nm] == defs_at(defs, nm) + filter_name(recs, nm));
            assert(nd[nm][i0] == defs[nm][i0]);
        }
    }
}

pub proof fn lemma_contains_concat<A>(a: Seq<A>, b: Seq<A>)
    ensures
        forall|r: A| #[trigger] (a + b).contains(r) <==> (a.contains(r) || b.contains(r)),
{
    assert forall|r: A| #[trigger] (a + b).contains(r) <==> (a.contains(r) || b.contains(r)) by {
        if (a + b).contains(r) {
            let i = choose|i: int| 0 <= i < (a + b).len() && (a + b)[i] == r;
            if i < a.len() {
                assert(a[i] == r);
            } else {
                assert(b[i - a.len()] == r);
            }
        }
        if a.contains(r) {
            let i = choose|i: int| 0 <= i < a.len() && a[i] == r;
            assert((a + b)[i] == r);
        }
        if b.contains(r) {
            let i = choose|i: int| 0 <= i < b.len() && b[i] == r;
            assert((a + b)[a.len() + i] == r);
        }
    }
}

/// Targeted invalidation holds exactly the records of other files.
pub proof fn lemma_clear_defs_members(defs: Map<Seq<char>, Seq<SymbolModel>>, f: Seq<char>)
    ensures
        forall|r: SymbolModel| #[trigger] has_record(clear_defs(defs, f), r) <==> (has_record(
            defs,
            r,
        ) && r.file_path != f),
{
    let cd = clear_defs(defs, f);
    assert forall|r: SymbolModel| #[trigger] has_record(cd, r) <==> (has_record(defs, r)
        && r.file_path != f) by {
        if defs.contains_key(r.name) {
            lemma_drop_file_members(defs[r.name], f);
            if defs[r.name].contains(r) && r.file_path != f {
                assert(drop_file(defs[r.name], f).contains(r));
                assert(cd.contains_key(r.name));
            }
        }
    }
}

/// Appending records holds exactly the old records plus the new ones.
pub proof fn lemma_add_records_members(
    defs: Map<Seq<char>, Seq<SymbolModel>>,
    recs: Seq<SymbolModel>,
)
    ensures
        forall|r: SymbolModel| #[trigger] has_record(add_records(defs, recs), r) <==> (has_record(
            defs,
            r,
        ) || recs.contains(r)),
{
    let ad = add_records(defs, recs);
    lemma_add_records_char(defs, recs);
    assert forall|r: SymbolModel| #[trigger] has_record(ad, r) <==> (has_record(defs, r)
        || recs.contains(r)) by {
        lemma_filter_name_members(recs, r.name);
        lemma_contains_concat(defs_at(defs, r.name), filter_name(recs, r.name));
        if has_record(ad, r) {
            assert(ad[r.name] == defs_at(defs, r.name) + filter_name(recs, r.name));
            if defs_at(defs, r.name).contains(r) {
                assert(defs.contains_key(r.name));
            }
        }
        if has_record(defs, r) {
            assert(defs_at(defs, r.name).contains(r));
            assert(ad.contains_key(r.name));
            assert(ad[r.name] == defs_at(defs, r.name) + filter_name(recs, r.name));
            assert((defs_at(defs, r.name) + filter_name(recs, r.name)).contains(r));
        }
        if recs.contains(r) {
            let i = choose|i: int| 0 <= i < recs.len() && recs[i] == r;
            assert(recs[i].name == r.name);
            assert(ad.contains_key(r.name));
            assert(filter_name(recs, r.name).contains(r));
            assert(ad[r.name] == defs_at(defs, r.name) + filter_name(recs, r.name));
            assert((defs_at(defs, r.name) + filter_name(recs, r.name)).contains(r));
        }
    }
}

/// Clear locality: invalidating file `f` neither removes nor adds any
/// record belonging to another file `g`.
pub proof fn lemma_clear_locality(
    defs: Map<Seq<char>, Seq<SymbolModel>>,
    f: Seq<char>,
    r: SymbolModel,
)
    requires
        r.file_path != f,
    ensures
        has_record(clear_defs(defs, f), r) == has_record(defs, r),
{
    lemma_clear_defs_members(defs, f);
}

/// Reindex replacement: after indexing file `f` with one batch of records
/// and then another, exactly the second batch's records are reachable for
/// `f`; nothing of the first batch survives.
pub proof fn lemma_reindex_replaces(
    defs: Map<Seq<char>, Seq<SymbolModel>>,
    f: Seq<char>,
    recs1: Seq<SymbolModel>,
    recs2: Seq<SymbolModel>,
    r: SymbolModel,
)
    requires
        r.file_path == f,
    ensures
        has_record(
            add_records(clear_defs(add_records(clear_defs(defs, f), recs1), f), recs2),
            r,
        ) == recs2.contains(r),
{
    let s1 = add_records(clear_defs(defs, f), recs1);
    let s2 = add_records(clear_defs(s1, f), recs2);
    lemma_clear_defs_members(s1, f);
    lemma_add_records_members(clear_defs(s1, f), recs2);
}

/// Family isolation: a record list whose every record belongs to family
/// `fam_a` contributes nothing to a query under a different family
/// `fam_b`. Together with `find_definition`'s contract and the family
/// each indexed record carries, definitions indexed under one family
/// never leak into another family's results.
pub proof fn lemma_family_isolation(recs: Seq<SymbolModel>, fam_a: Seq<char>, fam_b: Seq<char>)
    requires
        fam_a != fam_b,
        forall|i: int| 0 <= i < recs.len() ==> (#[trigger] recs[i]).lang_family == fam_a,
    ensures
        filter_family(recs, fam_b) == Seq::<SymbolModel>::empty(),
    decreases recs.len(),
{
    if recs.len() == 0 {
        assert(filter_family(recs, fam_b) =~= Seq::<SymbolModel>::empty());
    } else {
        lemma_family_isolation(recs.drop_last(), fam_a, fam_b);
        assert(recs[recs.len() - 1].lang_family == fam_a);
    }
}

/// Family isolation, composed over one indexing pass: indexing records
/// that all carry family `fam_a` into an empty index leaves nothing for
/// a query under a different family `fam_b`, whatever name is asked.
/// `index_file`'s contract supplies such a record batch, and
/// `find_definition` returns exactly the `filter_family` below.
pub proof fn lemma_index_query_isolation(
    f: Seq<char>,
    recs: Seq<SymbolModel>,
    n: Seq<char>,
    fam_a: Seq<char>,
    fam_b: Seq<char>,
)
    requires
        fam_a != fam_b,
        forall|i: int| 0 <= i < recs.len() ==> (#[trigger] recs[i]).lang_family == fam_a,
    ensures
        filter_family(
            defs_at(
                add_records(clear_defs(Map::<Seq<char>, Seq<SymbolModel>>::empty(), f), recs),
                n,
            ),
            fam_b,
        ) == Seq::<SymbolModel>::empty(),
{
    let empty = Map::<Seq<char>, Seq<SymbolModel>>::empty();
    let cleared = clear_defs(empty, f);
    assert(cleared =~= empty);
    let built = add_records(empty, recs);
    assert(add_records(cleared, recs) == built);
    lemma_add_records_char(empty, recs);
    lemma_filter_name_members(recs, n);
    if built.contains_key(n) {
        assert(built[n] == defs_at(empty, n) + filter_name(recs, n));
        assert(defs_at(empty, n) =~= Seq::<SymbolModel>::empty());
        assert(built[n] =~= filter_name(recs, n));
        assert forall|i: int|
            0 <= i < filter_name(recs, n).len() implies (#[trigger] filter_name(recs, n)[i])
            .lang_family == fam_a by {
            assert(filter_name(recs, n).contains(filter_name(recs, n)[i]));
            let j = choose|j: int| 0 <= j < recs.len() && recs[j] == filter_name(recs, n)[i];
        }
        lemma_family_isolation(filter_name(recs, n), fam_a, fam_b);
    }
}

/// Adding one record, and its name to its file's list, preserves the
/// dual-map invariant.
#[verifier::rlimit(50)]
pub proof fn lemma_insert_record_wf(
    defs: Map<Seq<char>, Seq<SymbolModel>>,
    files: Map<Seq<char>, Seq<Seq<char>>>,
    rec: SymbolModel,
    new_names: Seq<Seq<char>>,
)
    requires
        wf_maps(defs, files),
        new_names == if files.contains_key(rec.file_path) {
            if files[rec.file_path].contains(rec.name) {
                files[rec.file_path]
            } else {
                files[rec.file_path].push(rec.name)
            }
        } else {
            Seq::<Seq<char>>::empty().push(rec.name)
        },
    ensures
        wf_maps(add_record(defs, rec), files.insert(rec.file_path, new_names)),
{
    let f = rec.file_path;
    let nd = add_record(defs, rec);
    let nf = files.insert(f, new_names);
    lemma_contains_snoc(defs_at(defs, rec.name), rec);
    if files.contains_key(f) && !files[f].contains(rec.name) {
        lemma_contains_snoc(files[f], rec.name);
    }
    assert(new_names.contains(rec.name)) by {
        if files.contains_key(f) && files[f].contains(rec.name) {
        } else if files.contains_key(f) {
            assert(files[f].push(rec.name).contains(rec.name));
        } else {
            assert(new_names[0] == rec.name);
        }
    }
    assert forall|n2: Seq<char>| #[trigger] nd.contains_key(n2) implies nd[n2].len() > 0 by {
        if n2 == rec.name {
            assert(nd[n2] == defs_at(defs, n2).push(rec));
        }
    }
    assert forall|n2: Seq<char>, i: int|
        nd.contains_key(n2) && 0 <= i < nd[n2].len() implies {
        &&& (#[trigger] nd[n2][i]).name == n2
        &&& nf.contains_key(nd[n2][i].file_path)
        &&& nf[nd[n2][i].file_path].contains(n2)
    } by {
        if n2 == rec.name && i == nd[n2].len() - 1 {
            assert(nd[n2][i] == rec);
        } else {
            let r = if n2 == rec.name {
                defs_at(defs, n2)[i]
            } else {
                defs[n2][i]
            };
            assert(nd[n2][i] == r);
            assert(defs.contains_key(n2) && defs[n2][i] == r);
            assert(r.name == n2);
            assert(files.contains_key(r.file_path) && files[r.file_path].contains(n2));
            if r.file_path == f {
                assert(new_names.contains(n2)) by {
                    if files[f].contains(rec.name) {
                    } else {
                        assert(files[f].push(rec.name).contains(n2));
                    }
                }
            }
        }
    }
    assert forall|f2: Seq<char>| #[trigger] nf.contains_key(f2) implies nf[f2].len() > 0
        && distinct_names(nf[f2]) by {
        if f2 == f {
            if files.contains_key(f) && !files[f].contains(rec.name) {
                assert forall|i: int, j: int|
                    0 <= i < j < new_names.len() implies new_names[i] != new_names[j] by {
                    if j == new_names.len() - 1 {
                        assert(new_names[j] == rec.name);
                        assert(files[f].contains(files[f][i]));
                    }
                }
            }
        }
    }
    assert forall|f2: Seq<char>, j: int|
        nf.contains_key(f2) && 0 <= j < nf[f2].len() implies {
        &&& nd.contains_key(#[trigger] nf[f2][j])
        &&& exists|i: int|
            0 <= i < nd[nf[f2][j]].len() && (#[trigger] nd[nf[f2][j]][i]).file_path == f2
    } by {
        let nm = nf[f2][j];
        if f2 == f && nm == rec.name {
            assert(nd.contains_key(nm));
            assert(nd[nm] == defs_at(defs, nm).push(rec));
            assert(nd[nm][nd[nm].len() - 1] == rec);
            assert(nd[nm][nd[nm].len() - 1].file_path == f2);
        } else {
            assert(files.contains_key(f2) && files[f2].contains(nm)) by {
                if f2 == f {
                    if files.contains_key(f) && !files[f].contains(rec.name) {
                        assert(files[f].push(rec.name)[j] == nm);
                        if j < files[f].len() {
                            assert(files[f][j] == nm);
                            assert(files[f].contains(nm));
                        }
                    } else if files.contains_key(f) {
                        assert(files[f][j] == nm);
                        assert(files[f].contains(nm));
                    } else {
                        assert(new_names[0] == rec.name);
                    }
                } else {
                    assert(files[f2][j] == nm);
                    assert(files[f2].contains(nm));
                }
            }
            let j0 = choose|j0: int| 0 <= j0 < files[f2].len() && files[f2][j0] == nm;
            assert(files[f2][j0] == nm);
            assert(defs.contains_key(nm));
            let i0 = choose|i0: int|
                0 <= i0 < defs[nm].len() && (#[trigger] defs[nm][i0]).file_path == f2;
            if nm == rec.name {
                assert(nd[nm] == defs_at(defs, nm).push(rec));
                assert(nd[nm][i0] == defs[nm][i0]);
            } else {
                assert(nd[nm] == defs[nm]);
            }
            assert(nd[nm][i0].file_path == f2);
        }
    }
    assert(wf_maps(nd, nf));
    assert(wf_maps(add_record(defs, rec), files.insert(rec.file_path, new_names)));
}

/// The records of `recs` that belong to files other than `file_path`.
fn retain_other_files(recs: Vec<SymbolInfo>, file_path: &str) -> (r: Vec<SymbolInfo>)
    ensures
        r.deep_view() == drop_file(recs.deep_view(), file_path@),
{
    let ghost all = recs.deep_view();
    let n = recs.len();
    let mut out: Vec<SymbolInfo> = Vec::new();
    let mut i: usize = 0;
    while i < n
        invariant
            i <= n,
            n == recs.len(),
            n == all.len(),
            all == recs.deep_view(),
            out.deep_view() == drop_file(all.take(i as int), file_path@),
        decreases n - i,
    {
        proof {
            assert(all.take(i + 1).drop_last() =~= all.take(i as int));
            assert(all.take(i + 1).last() == all[i as int]);
            assert(recs[i as int].deep_view() == all[i as int]);
        }
        if !str_eq(recs[i].file_path.as_str(), file_path) {
            out.push(recs[i].clone());
            proof {
                assert(out.deep_view() =~= drop_file(all.take(i + 1), file_path@));
            }
        } else {
            proof {
                assert(out.deep_view() =~= drop_file(all.take(i + 1), file_path@));
            }
        }
        i += 1;
    }
    proof {
        assert(all.take(n as int) =~= all);
    }
    out
}

/// Element-wise clone of a record list.
pub fn clone_records(recs: &Vec<SymbolInfo>) -> (r: Vec<SymbolInfo>)
    ensures
        r.deep_view() == recs.deep_view(),
{
    let n = recs.len();
    let mut out: Vec<SymbolInfo> = Vec::new();
    let mut i: usize = 0;
    while i < n
        invariant
            i <= n,
            n == recs.len(),
            out.deep_view() =~= recs.deep_view().take(i as int),
        decreases n - i,
    {
        let ghost prev = out.deep_view();
        out.push(recs[i].clone());
        proof {
            assert(out.deep_view().len() == prev.len() + 1);
            assert(forall|j: int| 0 <= j < prev.len() ==> #[trigger] out.deep_view()[j] == prev[j]);
            assert(out.deep_view()[i as int] == recs.deep_view()[i as int]);
            assert(out.deep_view() =~= recs.deep_view().take(i + 1));
        }
        i += 1;
    }
    proof {
        assert(recs.deep_view().take(n as int) =~= recs.deep_view());
    }
    out
}

/// Element-wise clone of a string list.
pub fn clone_strings(names: &Vec<String>) -> (r: Vec<String>)
    ensures
        r.deep_view() == names.deep_view(),
{
    let n = names.len();
    let mut out: Vec<String> = Vec::new();
    let mut i: usize = 0;
    while i < n
        invariant
            i <= n,
            n == names.len(),
            out.deep_view() =~= names.deep_view().take(i as int),
        decreases n - i,
    {
        let ghost prev = out.deep_view();
        out.push(names[i].clone());
        proof {
            assert(out.deep_view().len() == prev.len() + 1);
            assert(forall|j: int| 0 <= j < prev.len() ==> #[trigger] out.deep_view()[j] == prev[j]);
            assert(out.deep_view()[i as int] == names.deep_view()[i as int]);
            assert(out.deep_view() =~= names.deep_view().take(i + 1));
        }
        i += 1;
    }
    proof {
        assert(names.deep_view().take(n as int) =~= names.deep_view());
    }
    out
}

/// In-memory symbol index: definitions by name, and the reverse index from
/// file path to the names that the file defines.
pub struct SymbolIndex {
    definitions: VecMap<Vec<SymbolInfo>>,
    file_definitions: VecMap<Vec<String>>,
}

impl SymbolIndex {
    /// Abstract definitions map.
    pub closed spec fn defs(&self) -> Map<Seq<char>, Seq<SymbolModel>> {
        self.definitions@
    }

    /// Abstract reverse index.
    pub closed spec fn files(&self) -> Map<Seq<char>, Seq<Seq<char>>> {
        self.file_definitions@
    }

    /// Representation invariant of the two backing maps.
    pub closed spec fn maps_inv(&self) -> bool {
        self.definitions.inv() && self.file_definitions.inv()
    }

    /// Full well-formedness: representation plus the dual-map invariant.
    pub open spec fn wf(&self) -> bool {
        self.maps_inv() && wf_maps(self.defs(), self.files())
    }

    /// The file keys, in storage order.
    pub closed spec fn file_keys(&self) -> Seq<Seq<char>> {
        Seq::new(self.file_definitions.kvs().len(), |i: int| self.file_definitions.kvs()[i].0)
    }

    pub fn new() -> (r: Self)
        ensures
            r.wf(),
            r.defs() == Map::<Seq<char>, Seq<SymbolModel>>::empty(),
            r.files() == Map::<Seq<char>, Seq<Seq<char>>>::empty(),
    {
        SymbolIndex { definitions: VecMap::new(), file_definitions: VecMap::new() }
    }

    /// Definitions of `symbol_name` within `lang_family`; an empty list
    /// when the name is unknown or defined only in other families.
    pub fn find_definition(&self, symbol_name: &str, lang_family: &str) -> (r: Vec<SymbolInfo>)
        requires
            self.wf(),
        ensures
            r.deep_view() == filter_family(defs_at(self.defs(), symbol_name@), lang_family@),
    {
        let mut out: Vec<SymbolInfo> = Vec::new();
        match self.definitions.get(symbol_name) {
            None => {
                proof {
                    assert(out.deep_view() =~= filter_family(
                        defs_at(self.defs(), symbol_name@),
                        lang_family@,
                    ));
                }
                out
            },
            Some(recs) => {
                let ghost all = recs.deep_view();
                let n = recs.len();
                let mut i: usize = 0;
                while i < n
                    invariant
                        i <= n,
                        n == all.len(),
                        n == recs.len(),
                        all == recs.deep_view(),
                        out.deep_view() == filter_family(all.take(i as int), lang_family@),
                    decreases n - i,
                {
                    proof {
                        assert(all.take(i + 1).drop_last() =~= all.take(i as int));
                        assert(all.take(i + 1).last() == all[i as int]);
                        assert(recs[i as int].deep_view() == all[i as int]);
                    }
                    if str_eq(recs[i].lang_family.as_str(), lang_family) {
                        out.push(recs[i].clone());
                        proof {
                            assert(out.deep_view() =~= filter_family(
                                all.take(i + 1),
                                lang_family@,
                            ));
                        }
                    } else {
                        proof {
                            assert(out.deep_view() =~= filter_family(
                                all.take(i + 1),
                                lang_family@,
                            ));
                        }
                    }
                    i += 1;
                }
                proof {
                    assert(all.take(n as int) =~= all);
                }
                out
            },
        }
    }

    /// Remove every record of `file_path`, through the reverse index:
    /// cost is proportional to the symbols that one file defines.
    pub fn clear_file(&mut self, file_path: &str)
        requires
            old(self).wf(),
        ensures
            final(self).wf(),
            final(self).defs() == clear_defs(old(self).defs(), file_path@),
            final(self).files() == old(self).files().remove(file_path@),
    {
        let ghost old_defs = self.defs();
        let ghost old_files = self.files();
        match self.file_definitions.take(file_path) {
            None => {
                proof {
                    assert forall|n: Seq<char>|
                        #[trigger] old_defs.contains_key(n) implies drop_file(
                        old_defs[n],
                        file_path@,
                    ) == old_defs[n] by {
                        assert forall|i: int|
                            0 <= i < old_defs[n].len() implies (
                        #[trigger] old_defs[n][i]).file_path != file_path@ by {
                            if old_defs[n][i].file_path == file_path@ {
                                assert(old_files.contains_key(file_path@));
                            }
                        }
                        lemma_drop_file_id(old_defs[n], file_path@);
                    }
                    assert(clear_defs(old_defs, file_path@) =~= old_defs);
                    lemma_clear_preserves_wf(old_defs, old_files, file_path@);
                }
            },
            Some(names) => {
                let ghost names_seq = names.deep_view();
                let m = names.len();
                let mut j: usize = 0;
                proof {
                    assert(names_seq == old_files[file_path@]);
                }
                while j < m
                    invariant
                        j <= m,
                        m == names.len(),
                        m == names_seq.len(),
                        names.deep_view() == names_seq,
                        self.definitions.inv(),
                        self.file_definitions.inv(),
                        self.files() == old_files.remove(file_path@),
                        self.defs() == clear_fold(old_defs, file_path@, names_seq, j as int),
                        distinct_names(names_seq),
                    decreases m - j,
                {
                    let ghost pre_defs = self.defs();
                    let name: &String = &names[j];
                    proof {
                        assert(name@ == names_seq[j as int]);
                    }
                    match self.definitions.take(name.as_str()) {
                        None => {
                            proof {
                                assert(self.defs() =~= clear_one(
                                    pre_defs,
                                    file_path@,
                                    names_seq[j as int],
                                ));
                            }
                        },
                        Some(recs) => {
                            let ghost rec_seq = recs.deep_view();
                            let kept = retain_other_files(recs, file_path);
                            if kept.len() > 0 {
                                self.definitions.insert(name.clone(), kept);
                                proof {
                                    assert(self.defs() =~= clear_one(
                                        pre_defs,
                                        file_path@,
                                        names_seq[j as int],
                                    ));
                                }
                            } else {
                                proof {
                                    assert(drop_file(rec_seq, file_path@).len() == 0);
                                    assert(self.defs() =~= clear_one(
                                        pre_defs,
                                        file_path@,
                                        names_seq[j as int],
                                    ));
                                }
                            }
                        },
                    }
                    j += 1;
                }
                proof {
                    lemma_clear_fold_complete(old_defs, old_files, file_path@);
                    assert(self.defs() == clear_defs(old_defs, file_path@));
                    lemma_clear_preserves_wf(old_defs, old_files, file_path@);
                }
            },
        }
    }

    /// Replace `file_path`'s entries with freshly extracted `records`:
    /// prior entries are always invalidated first, then each record is
    /// appended under its own name and the file's name list is rebuilt.
    pub fn insert_file_definitions(&mut self, file_path: &str, records: Vec<SymbolInfo>)
        requires
            old(self).wf(),
            forall|i: int|
                0 <= i < records.deep_view().len() ==> (#[trigger] records.deep_view()[i]).file_path
                    == file_path@,
        ensures
            final(self).wf(),
            final(self).defs() == add_records(
                clear_defs(old(self).defs(), file_path@),
                records.deep_view(),
            ),
            final(self).files() == if records.deep_view().len() > 0 {
                old(self).files().remove(file_path@).insert(
                    file_path@,
                    names_of(records.deep_view()),
                )
            } else {
                old(self).files().remove(file_path@)
            },
    {
        let ghost rec_seq = records.deep_view();
        self.clear_file(file_path);
        let ghost base_defs = self.defs();
        let ghost base_files = self.files();
        let n = records.len();
        if n == 0 {
            return ;
        }
        let mut names: Vec<String> = Vec::new();
        let mut i: usize = 0;
        while i < n
            invariant
                i <= n,
                n == records.len(),
                n == rec_seq.len(),
                rec_seq == records.deep_view(),
                forall|t: int| 0 <= t < rec_seq.len() ==> (#[trigger] rec_seq[t]).file_path
                    == file_path@,
                self.definitions.inv(),
                self.file_definitions.inv(),
                self.files() == base_files,
                self.defs() == add_records(base_defs, rec_seq.take(i as int)),
                names.deep_view() == names_of(rec_seq.take(i as int)),
            decreases n - i,
        {
            let ghost pre_defs = self.defs();
            proof {
                assert(rec_seq.take(i + 1).drop_last() =~= rec_seq.take(i as int));
                assert(rec_seq.take(i + 1).last() == rec_seq[i as int]);
                assert(records[i as int].deep_view() == rec_seq[i as int]);
            }
            let r = records[i].clone();
            if !vec_contains_string(&names, r.name.as_str()) {
                names.push(r.name.clone());
                proof {
                    assert(names.deep_view() =~= names_of(rec_seq.take(i + 1)));
                }
            } else {
                proof {
                    assert(names.deep_view() =~= names_of(rec_seq.take(i + 1)));
                }
            }
            let key = r.name.clone();
            match self.definitions.take(key.as_str()) {
                Some(mut v) => {
                    let ghost v_seq = v.deep_view();
                    v.push(r);
                    proof {
                        assert(v.deep_view() =~= v_seq.push(rec_seq[i as int]));
                        assert(v_seq == defs_at(pre_defs, key@));
                    }
                    self.definitions.insert(key, v);
                    proof {
                        assert(self.defs() =~= add_record(pre_defs, rec_seq[i as int]));
                    }
                },
                None => {
                    let mut v: Vec<SymbolInfo> = Vec::new();
                    v.push(r);
                    proof {
                        assert(v.deep_view() =~= Seq::<SymbolModel>::empty().push(
                            rec_seq[i as int],
                        ));
                        assert(defs_at(pre_defs, key@) =~= Seq::<SymbolModel>::empty());
                    }
                    self.definitions.insert(key, v);
                    proof {
                        assert(self.defs() =~= add_record(pre_defs, rec_seq[i as int]));
                    }
                },
            }
            i += 1;
        }
        proof {
            assert(rec_seq.take(n as int) =~= rec_seq);
        }
        self.file_definitions.insert(file_path.to_owned(), names);
        proof {
            assert(self.files() =~= base_files.insert(file_path@, names_of(rec_seq)));
            assert forall|n2: Seq<char>, i2: int|
                #![trigger base_defs[n2][i2]]
                base_defs.contains_key(n2) && 0 <= i2 < base_defs[n2].len() implies
            base_defs[n2][i2].file_path != file_path@ by {
                lemma_drop_file_members(old(self).defs()[n2], file_path@);
                assert(base_defs[n2] == drop_file(old(self).defs()[n2], file_path@));
                assert(base_defs[n2].contains(base_defs[n2][i2]));
            }
            lemma_insert_preserves_wf(base_defs, base_files, file_path@, rec_seq);
        }
    }

    /// Insert one record under its own name, updating the reverse index:
    /// the record's file gains the record's name if it was missing.
    #[verifier::rlimit(50)]
    pub fn insert_record(&mut self, rec: SymbolInfo)
        requires
            old(self).wf(),
        ensures
            final(self).wf(),
            final(self).defs() == add_record(old(self).defs(), rec@),
            forall|r: SymbolModel| #[trigger] has_record(final(self).defs(), r) <==> (has_record(
                old(self).defs(),
                r,
            ) || r == rec@),
    {
        let ghost old_defs = self.defs();
        let ghost old_files = self.files();
        let name = rec.name.clone();
        let file = rec.file_path.clone();
        let ghost rec_m = rec@;
        // reverse index first: list the name under the record's file
        let names_new: Vec<String> = match self.file_definitions.take(file.as_str()) {
            Some(mut names) => {
                if !vec_contains_string(&names, name.as_str()) {
                    names.push(name.clone());
                    proof {
                        assert(names.deep_view() =~= old_files[file@].push(name@));
                    }
                }
                names
            },
            None => {
                let mut names: Vec<String> = Vec::new();
                names.push(name.clone());
                proof {
                    assert(names.deep_view() =~= Seq::<Seq<char>>::empty().push(name@));
                }
                names
            },
        };
        let ghost new_names = names_new.deep_view();
        self.file_definitions.insert(file.clone(), names_new);
        // definitions second: append the record under its name
        let recs_new: Vec<SymbolInfo> = match self.definitions.take(name.as_str()) {
            Some(mut recs) => {
                recs.push(rec);
                proof {
                    assert(recs.deep_view() =~= old_defs[name@].push(rec_m));
                }
                recs
            },
            None => {
                let mut recs: Vec<SymbolInfo> = Vec::new();
                recs.push(rec);
                proof {
                    assert(recs.deep_view() =~= Seq::<SymbolModel>::empty().push(rec_m));
                }
                recs
            },
        };
        self.definitions.insert(name, recs_new);
        proof {
            assert(rec_m.name == name@);
            assert(rec_m.file_path == file@);
            assert(self.defs() =~= add_record(old_defs, rec_m));
            assert(self.files() =~= old_files.insert(file@, new_names));
            lemma_insert_record_wf(old_defs, old_files, rec_m, new_names);
            assert forall|r: SymbolModel| #[trigger] has_record(self.defs(), r) <==> (has_record(
                old_defs,
                r,
            ) || r == rec_m) by {
                lemma_contains_snoc(defs_at(old_defs, r.name), rec_m);
                if r.name == rec_m.name {
                    assert(self.defs().contains_key(r.name));
                    assert(self.defs()[r.name] == defs_at(old_defs, r.name).push(rec_m));
                    assert(self.defs()[r.name].contains(r) <==> (defs_at(old_defs, r.name).contains(
                        r,
                    ) || r == rec_m));
                    if defs_at(old_defs, r.name).contains(r) {
                        assert(defs_at(old_defs, r.name).len() > 0);
                        assert(old_defs.contains_key(r.name));
                    }
                }
            }
        }
    }

    /// Drop the whole index.
    pub fn clear_all(&mut self)
        ensures
            final(self).wf(),
            final(self).defs() == Map::<Seq<char>, Seq<SymbolModel>>::empty(),
            final(self).files() == Map::<Seq<char>, Seq<Seq<char>>>::empty(),
    {
        self.definitions.clear();
        self.file_definitions.clear();
    }

    /// The names that one file defines, when the file is indexed.
    pub fn file_defined_names(&self, file_path: &str) -> (r: Option<Vec<String>>)
        requires
            self.wf(),
        ensures
            match r {
                Some(v) => {
                    &&& self.files().contains_key(file_path@)
                    &&& v.deep_view() == self.files()[file_path@]
                },
                None => !self.files().contains_key(file_path@),
            },
    {
        match self.file_definitions.get(file_path) {
            Some(names) => Some(clone_strings(names)),
            None => None,
        }
    }

    /// The definition entries, in storage order.
    pub closed spec fn defs_kvs(&self) -> Seq<(Seq<char>, Seq<SymbolModel>)> {
        self.definitions.kvs()
    }

    /// The reverse-index entries, in storage order.
    pub closed spec fn files_kvs(&self) -> Seq<(Seq<char>, Seq<Seq<char>>)> {
        self.file_definitions.kvs()
    }

    /// The entry sequences carry distinct keys and denote the two maps.
    pub proof fn lemma_kvs(&self)
        requires
            self.wf(),
        ensures
            crate::vecmap::distinct_keys(self.defs_kvs()),
            crate::vecmap::distinct_keys(self.files_kvs()),
            self.defs() == crate::vecmap::map_of(self.defs_kvs()),
            self.files() == crate::vecmap::map_of(self.files_kvs()),
    {
        self.definitions.lemma_view_is_map_of();
        self.file_definitions.lemma_view_is_map_of();
    }

    /// Clone of the definition entries, for a persisted snapshot.
    pub fn snapshot_definitions(&self) -> (r: Vec<(String, Vec<SymbolInfo>)>)
        requires
            self.wf(),
        ensures
            r.deep_view() == self.defs_kvs(),
    {
        let mut out: Vec<(String, Vec<SymbolInfo>)> = Vec::new();
        let n = self.definitions.len();
        let mut i: usize = 0;
        while i < n
            invariant
                i <= n,
                n == self.defs_kvs().len(),
                self.definitions.inv(),
                out.deep_view() =~= self.defs_kvs().take(i as int),
            decreases n - i,
        {
            let k = self.definitions.key_at(i).clone();
            let v = clone_records(self.definitions.value_at(i));
            let ghost prev = out.deep_view();
            out.push((k, v));
            proof {
                assert(out.deep_view().len() == prev.len() + 1);
                assert(forall|j: int|
                    0 <= j < prev.len() ==> #[trigger] out.deep_view()[j] == prev[j]);
                assert(out.deep_view()[i as int] == self.defs_kvs()[i as int]);
                assert(out.deep_view() =~= self.defs_kvs().take(i + 1));
            }
            i += 1;
        }
        proof {
            assert(self.defs_kvs().take(n as int) =~= self.defs_kvs());
        }
        out
    }

    /// Clone of the reverse-index entries, for a persisted snapshot.
    pub fn snapshot_file_definitions(&self) -> (r: Vec<(String, Vec<String>)>)
        requires
            self.wf(),
        ensures
            r.deep_view() == self.files_kvs(),
    {
        let mut out: Vec<(String, Vec<String>)> = Vec::new();
        let n = self.file_definitions.len();
        let mut i: usize = 0;
        while i < n
            invariant
                i <= n,
                n == self.files_kvs().len(),
                self.file_definitions.inv(),
                out.deep_view() =~= self.files_kvs().take(i as int),
            decreases n - i,
        {
            let k = self.file_definitions.key_at(i).clone();
            let v = clone_strings(self.file_definitions.value_at(i));
            let ghost prev = out.deep_view();
            out.push((k, v));
            proof {
                assert(out.deep_view().len() == prev.len() + 1);
                assert(forall|j: int|
                    0 <= j < prev.len() ==> #[trigger] out.deep_view()[j] == prev[j]);
                assert(out.deep_view()[i as int] == self.files_kvs()[i as int]);
                assert(out.deep_view() =~= self.files_kvs().take(i + 1));
            }
            i += 1;
        }
        proof {
            assert(self.files_kvs().take(n as int) =~= self.files_kvs());
        }
        out
    }

    /// Paths of every indexed file, in storage order: exactly the
    /// reverse index's keys, each once.
    pub fn list_indexed_files(&self) -> (r: Vec<String>)
        requires
            self.wf(),
        ensures
            r.deep_view() == self.file_keys(),
            forall|i: int|
                0 <= i < r.deep_view().len() ==> self.files().contains_key(
                    #[trigger] r.deep_view()[i],
                ),
            forall|i: int, j: int|
                0 <= i < j < r.deep_view().len() ==> r.deep_view()[i] != r.deep_view()[j],
            r.deep_view().len() == self.files().len(),
    {
        let mut out: Vec<String> = Vec::new();
        let n = self.file_definitions.len();
        let mut i: usize = 0;
        while i < n
            invariant
                i <= n,
                n == self.file_definitions.kvs().len(),
                self.file_definitions.inv(),
                out.deep_view() =~= self.file_keys().take(i as int),
            decreases n - i,
        {
            let k = self.file_definitions.key_at(i).clone();
            proof {
                assert(k@ == self.file_keys()[i as int]);
            }
            let ghost prev = out.deep_view();
            out.push(k);
            proof {
                assert(out@.len() == prev.len() + 1);
                assert forall|j: int| 0 <= j < out@.len() implies #[trigger] out.deep_view()[j]
                    == self.file_keys().take(i + 1)[j] by {
                    if j < prev.len() {
                        assert(out.deep_view()[j] == prev[j]);
                    }
                }
                assert(out.deep_view() =~= self.file_keys().take(i + 1));
            }
            i += 1;
        }
        proof {
            assert(self.file_keys().take(n as int) =~= self.file_keys());
            self.file_definitions.lemma_entries();
            assert forall|i: int| 0 <= i < out.deep_view().len() implies self.files().contains_key(
                #[trigger] out.deep_view()[i],
            ) by {
                assert(out.deep_view()[i] == self.file_definitions.kvs()[i].0);
            }
            assert forall|i: int, j: int|
                0 <= i < j < out.deep_view().len() implies out.deep_view()[i] != out.deep_view()[j] by {
                assert(out.deep_view()[i] == self.file_definitions.kvs()[i].0);
                assert(out.deep_view()[j] == self.file_definitions.kvs()[j].0);
            }
        }
        out
    }
}

} // verus!
