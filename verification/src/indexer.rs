//! The navigation service: a registry of usable languages plus the shared
//! symbol index, with single-file and batch definition indexing.

use vstd::prelude::*;

verus! {

use crate::engine::{
    c_language,
    cpp_language,
    definition_captures,
    go_language,
    grammar_loads,
    grammar_usable,
    java_language,
    python_language,
    query_compiles,
    query_compiles_for,
    rust_language,
    ts_captures_of,
    tsx_language,
    CaptureModel,
    RawCapture,
};
use crate::lang::{
    lang_family_of,
    spec_is_supported,
    spec_lang_family,
    spec_symbol_kind,
    symbol_kind_of,
};
use crate::persist::concat_records;
use crate::symbols::{
    add_records,
    clear_defs,
    defs_at,
    filter_family,
    has_record,
    names_of,
    SymbolIndex,
    SymbolInfo,
    SymbolModel,
};
use crate::text::vec_contains_string;

/// The grammar object for a supported language identifier.
pub(crate) fn language_for(lang_id: &str) -> (r: Option<tree_sitter::Language>)
    ensures
        r.is_some() == spec_is_supported(lang_id@),
{
    if crate::text::str_eq(lang_id, "python") {
        Some(python_language())
    } else if crate::text::str_eq(lang_id, "rust") {
        Some(rust_language())
    } else if crate::text::str_eq(lang_id, "go") {
        Some(go_language())
    } else if crate::text::str_eq(lang_id, "c") {
        Some(c_language())
    } else if crate::text::str_eq(lang_id, "cpp") {
        Some(cpp_language())
    } else if crate::text::str_eq(lang_id, "java") {
        Some(java_language())
    } else if crate::text::str_eq(lang_id, "typescript") || crate::text::str_eq(
        lang_id,
        "javascript",
    ) {
        Some(tsx_language())
    } else {
        None
    }
}

/// One-based position clamped to `u32`.
pub open spec fn spec_pos1(p: usize) -> u32 {
    if p + 1 > u32::MAX {
        u32::MAX
    } else {
        (p + 1) as u32
    }
}

fn pos1(p: usize) -> (r: u32)
    ensures
        r == spec_pos1(p),
{
    if p >= u32::MAX as usize {
        u32::MAX
    } else {
        (p as u32) + 1
    }
}

/// The symbol record one capture yields: named by the captured text,
/// classified by the capture tag's domain word, positioned one-based.
pub open spec fn spec_record_of_capture(
    c: CaptureModel,
    f: Seq<char>,
    fam: Seq<char>,
) -> SymbolModel {
    SymbolModel {
        name: c.text,
        kind: spec_symbol_kind(c.capture_name),
        file_path: f,
        lang_family: fam,
        start_line: spec_pos1(c.start_row),
        start_column: spec_pos1(c.start_col),
        end_line: spec_pos1(c.end_row),
        end_column: spec_pos1(c.end_col),
    }
}

/// The records for a whole capture list, in order.
pub open spec fn spec_records_of(cs: Seq<CaptureModel>, f: Seq<char>, fam: Seq<char>) -> Seq<
    SymbolModel,
> {
    cs.map_values(|c: CaptureModel| spec_record_of_capture(c, f, fam))
}

/// Build the symbol records that a capture list yields for one file.
pub fn records_from_captures(
    captures: &Vec<RawCapture>,
    file_path: &str,
    lang_family: &str,
) -> (r: Vec<SymbolInfo>)
    ensures
        r.deep_view() == spec_records_of(captures.deep_view(), file_path@, lang_family@),
{
    let ghost cs = captures.deep_view();
    let n = captures.len();
    let mut out: Vec<SymbolInfo> = Vec::new();
    let mut i: usize = 0;
    while i < n
        invariant
            i <= n,
            n == captures.len(),
            n == cs.len(),
            cs == captures.deep_view(),
            out.deep_view().len() == i,
            forall|j: int| 0 <= j < i ==> #[trigger] out.deep_view()[j] == spec_record_of_capture(
                cs[j],
                file_path@,
                lang_family@,
            ),
        decreases n - i,
    {
        let c = &captures[i];
        proof {
            assert(c@ == cs[i as int]);
        }
        let rec = SymbolInfo {
            name: c.text.clone(),
            kind: symbol_kind_of(c.capture_name.as_str()).to_owned(),
            file_path: file_path.to_owned(),
            lang_family: lang_family.to_owned(),
            start_line: pos1(c.start_row),
            start_column: pos1(c.start_col),
            end_line: pos1(c.end_row),
            end_column: pos1(c.end_col),
        };
        let ghost prev = out.deep_view();
        out.push(rec);
        proof {
            assert(out.deep_view().len() == prev.len() + 1);
            assert(forall|j: int| 0 <= j < prev.len() ==> #[trigger] out.deep_view()[j] == prev[j]);
            assert(out.deep_view()[i as int] == rec.deep_view());
        }
        i += 1;
    }
    proof {
        assert(out.deep_view() =~= spec_records_of(cs, file_path@, lang_family@));
    }
    out
}

/// What one indexing pass over file `f` does to the two maps: some record
/// batch `recs`, every record carrying `f` and the language's family, was
/// inserted after the file's prior entries were invalidated.
pub open spec fn spec_indexed(
    old_defs: Map<Seq<char>, Seq<SymbolModel>>,
    old_files: Map<Seq<char>, Seq<Seq<char>>>,
    new_defs: Map<Seq<char>, Seq<SymbolModel>>,
    new_files: Map<Seq<char>, Seq<Seq<char>>>,
    f: Seq<char>,
    fam: Seq<char>,
    recs: Seq<SymbolModel>,
) -> bool {
    &&& forall|i: int|
        0 <= i < recs.len() ==> (#[trigger] recs[i]).file_path == f && recs[i].lang_family == fam
    &&& new_defs == add_records(clear_defs(old_defs, f), recs)
    &&& new_files == if recs.len() > 0 {
        old_files.remove(f).insert(f, names_of(recs))
    } else {
        old_files.remove(f)
    }
}

/// The records one definition pass yields for a file: empty when the
/// language is unregistered or the pass fails, and otherwise exactly the
/// pass's captures turned into records for this file and family.
pub open spec fn spec_indexed_records(
    lang: Seq<char>,
    content: Seq<char>,
    f: Seq<char>,
    registered: bool,
) -> Seq<SymbolModel> {
    if registered {
        match ts_captures_of(lang, content) {
            Some(caps) => spec_records_of(caps, f, spec_lang_family(lang)),
            None => Seq::empty(),
        }
    } else {
        Seq::empty()
    }
}

/// One registration step: the identifier joins the registry exactly when
/// its grammar loads and its definition query compiles.
pub open spec fn spec_reg_step(ids: Seq<Seq<char>>, lang: Seq<char>) -> Seq<Seq<char>> {
    if grammar_loads(lang) && query_compiles(lang) {
        ids.push(lang)
    } else {
        ids
    }
}

/// The registry a fresh service holds: the eight identifiers probed in
/// order, each kept exactly when its grammar and query install.
pub open spec fn spec_initial_languages() -> Seq<Seq<char>> {
    spec_reg_step(
        spec_reg_step(
            spec_reg_step(
                spec_reg_step(
                    spec_reg_step(
                        spec_reg_step(
                            spec_reg_step(
                                spec_reg_step(Seq::empty(), "python"@),
                                "rust"@,
                            ),
                            "go"@,
                        ),
                        "c"@,
                    ),
                    "cpp"@,
                ),
                "java"@,
            ),
            "typescript"@,
        ),
        "javascript"@,
    )
}

proof fn lemma_reg_step_supported(ids: Seq<Seq<char>>, lang: Seq<char>)
    requires
        forall|i: int| 0 <= i < ids.len() ==> spec_is_supported(#[trigger] ids[i]),
        spec_is_supported(lang),
    ensures
        forall|i: int|
            0 <= i < spec_reg_step(ids, lang).len() ==> spec_is_supported(
                #[trigger] spec_reg_step(ids, lang)[i],
            ),
{
    if grammar_loads(lang) && query_compiles(lang) {
        assert forall|i: int| 0 <= i < spec_reg_step(ids, lang).len() implies spec_is_supported(
            #[trigger] spec_reg_step(ids, lang)[i],
        ) by {
            if i < ids.len() {
                assert(spec_reg_step(ids, lang)[i] == ids[i]);
            } else {
                assert(spec_reg_step(ids, lang)[i] == lang);
            }
        }
    }
}

/// Every record of every batch carries its batch's file path.
pub open spec fn spec_batches_ok(batches: Seq<(Seq<char>, Seq<SymbolModel>)>) -> bool {
    forall|b: int, i: int|
        #![trigger batches[b].1[i]]
        0 <= b < batches.len() && 0 <= i < batches[b].1.len() ==> batches[b].1[i].file_path
            == batches[b].0
}

/// The two maps after merging record batches in order: each batch
/// replaces its file's entries, exactly as one indexing pass would.
pub open spec fn apply_batches(
    defs: Map<Seq<char>, Seq<SymbolModel>>,
    files: Map<Seq<char>, Seq<Seq<char>>>,
    batches: Seq<(Seq<char>, Seq<SymbolModel>)>,
) -> (Map<Seq<char>, Seq<SymbolModel>>, Map<Seq<char>, Seq<Seq<char>>>)
    decreases batches.len(),
{
    if batches.len() == 0 {
        (defs, files)
    } else {
        let (d, fl) = apply_batches(defs, files, batches.drop_last());
        let f = batches.last().0;
        let recs = batches.last().1;
        (
            add_records(clear_defs(d, f), recs),
            if recs.len() > 0 {
                fl.remove(f).insert(f, names_of(recs))
            } else {
                fl.remove(f)
            },
        )
    }
}

/// The per-file record batches the parallel extraction phase yields, in
/// input order: one batch per file whose language is registered and
/// whose definition pass succeeds; other files contribute nothing.
pub open spec fn spec_extracted_batches(
    files: Seq<(Seq<char>, Seq<char>, Seq<char>)>,
    ids: Seq<Seq<char>>,
) -> Seq<(Seq<char>, Seq<SymbolModel>)>
    decreases files.len(),
{
    if files.len() == 0 {
        Seq::empty()
    } else {
        let pre = spec_extracted_batches(files.drop_last(), ids);
        let t = files.last();
        if ids.contains(t.2) {
            match ts_captures_of(t.2, t.1) {
                Some(caps) => pre.push((t.0, spec_records_of(caps, t.0, spec_lang_family(t.2)))),
                None => pre,
            }
        } else {
            pre
        }
    }
}

/// Symbol navigation service: the language registry and the symbol index.
pub struct CodeNavigationService {
    languages: Vec<String>,
    index: SymbolIndex,
}

impl CodeNavigationService {
    /// Identifiers of the registered languages.
    pub closed spec fn lang_ids(&self) -> Seq<Seq<char>> {
        self.languages.deep_view()
    }

    /// The definitions map of the underlying index.
    pub closed spec fn defs(&self) -> Map<Seq<char>, Seq<SymbolModel>> {
        self.index.defs()
    }

    /// The reverse index of the underlying index.
    pub closed spec fn files(&self) -> Map<Seq<char>, Seq<Seq<char>>> {
        self.index.files()
    }

    /// The underlying index is well-formed.
    pub closed spec fn wf(&self) -> bool {
        self.index.wf()
    }

    /// Family used to scope lookups; see `crate::lang::lang_family_of`.
    pub fn get_lang_family(lang_id: &str) -> (r: &'static str)
        ensures
            r@ == spec_lang_family(lang_id@),
    {
        lang_family_of(lang_id)
    }

    /// Symbol kind for a capture tag; see `crate::lang::symbol_kind_of`.
    pub fn get_symbol_kind(capture_name: &str) -> (r: String)
        ensures
            r@ == spec_symbol_kind(capture_name@),
    {
        symbol_kind_of(capture_name).to_owned()
    }

    /// Language identifier for a file path; see `crate::lang::lang_id_of_path`.
    pub fn get_lang_id_from_path(file_path: &str) -> (r: Option<String>)
        ensures
            r.deep_view() == crate::lang::spec_lang_of_path(file_path@),
    {
        crate::lang::lang_id_of_path(file_path)
    }

    /// A service with an empty index, holding exactly the languages of
    /// the eight whose grammar loads and whose definition query
    /// compiles; one language failing leaves only that one unavailable.
    pub fn new() -> (r: Self)
        ensures
            r.wf(),
            r.defs() == Map::<Seq<char>, Seq<SymbolModel>>::empty(),
            r.files() == Map::<Seq<char>, Seq<Seq<char>>>::empty(),
            r.lang_ids() == spec_initial_languages(),
            forall|i: int| 0 <= i < r.lang_ids().len() ==> spec_is_supported(
                #[trigger] r.lang_ids()[i],
            ),
    {
        let mut service = CodeNavigationService {
            languages: Vec::new(),
            index: SymbolIndex::new(),
        };
        let ghost s0 = service.lang_ids();
        proof {
            assert(s0 =~= Seq::<Seq<char>>::empty());
        }
        service.register_language("python");
        let ghost s1 = service.lang_ids();
        service.register_language("rust");
        let ghost s2 = service.lang_ids();
        service.register_language("go");
        let ghost s3 = service.lang_ids();
        service.register_language("c");
        let ghost s4 = service.lang_ids();
        service.register_language("cpp");
        let ghost s5 = service.lang_ids();
        service.register_language("java");
        let ghost s6 = service.lang_ids();
        service.register_language("typescript");
        let ghost s7 = service.lang_ids();
        service.register_language("javascript");
        proof {
            lemma_reg_step_supported(s0, "python"@);
            lemma_reg_step_supported(s1, "rust"@);
            lemma_reg_step_supported(s2, "go"@);
            lemma_reg_step_supported(s3, "c"@);
            lemma_reg_step_supported(s4, "cpp"@);
            lemma_reg_step_supported(s5, "java"@);
            lemma_reg_step_supported(s6, "typescript"@);
            lemma_reg_step_supported(s7, "javascript"@);
        }
        service
    }

    /// Probe one language: register it exactly when its grammar loads
    /// and its definition query compiles; otherwise leave it unavailable
    /// without failing the others.
    fn register_language(&mut self, lang_id: &str)
        ensures
            final(self).wf() == old(self).wf(),
            final(self).defs() == old(self).defs(),
            final(self).files() == old(self).files(),
            final(self).lang_ids() == spec_reg_step(old(self).lang_ids(), lang_id@),
    {
        if grammar_usable(lang_id) && query_compiles_for(lang_id) {
            let ghost pre = self.languages.deep_view();
            self.languages.push(lang_id.to_owned());
            proof {
                assert(self.languages.deep_view() =~= pre.push(lang_id@));
            }
        }
    }

    /// Whether a language was registered at construction.
    pub fn is_language_registered(&self, lang_id: &str) -> (r: bool)
        ensures
            r == self.lang_ids().contains(lang_id@),
    {
        vec_contains_string(&self.languages, lang_id)
    }

    /// Index one file's content: prior entries for the file are always
    /// invalidated first, even when nothing replaces them, so stale
    /// symbols never survive a failed reparse; when the language is
    /// registered and the definition pass over this content succeeds,
    /// exactly that pass's records are inserted for this file.
    pub fn index_file(&mut self, file_path: &str, content: &str, lang_id: &str)
        requires
            old(self).wf(),
        ensures
            final(self).wf(),
            final(self).lang_ids() == old(self).lang_ids(),
            spec_indexed(
                old(self).defs(),
                old(self).files(),
                final(self).defs(),
                final(self).files(),
                file_path@,
                spec_lang_family(lang_id@),
                spec_indexed_records(
                    lang_id@,
                    content@,
                    file_path@,
                    old(self).lang_ids().contains(lang_id@),
                ),
            ),
    {
        let registered = self.is_language_registered(lang_id);
        let captures: Option<Vec<RawCapture>> = if registered {
            definition_captures(lang_id, content)
        } else {
            None
        };
        let ghost cdv = captures.deep_view();
        let ghost expected = spec_indexed_records(
            lang_id@,
            content@,
            file_path@,
            old(self).lang_ids().contains(lang_id@),
        );
        match captures {
            None => {
                proof {
                    if registered {
                        assert(cdv == ts_captures_of(lang_id@, content@));
                    }
                    assert(expected =~= Seq::<SymbolModel>::empty());
                }
                self.index.clear_file(file_path);
                proof {
                    assert(add_records(clear_defs(old(self).defs(), file_path@), expected)
                        == clear_defs(old(self).defs(), file_path@));
                    assert(spec_indexed(
                        old(self).defs(),
                        old(self).files(),
                        self.defs(),
                        self.files(),
                        file_path@,
                        spec_lang_family(lang_id@),
                        expected,
                    ));
                }
            },
            Some(caps) => {
                proof {
                    assert(registered);
                    assert(ts_captures_of(lang_id@, content@) == Some(caps.deep_view()));
                }
                let fam = lang_family_of(lang_id);
                let records = records_from_captures(&caps, file_path, fam);
                let ghost recs = records.deep_view();
                proof {
                    assert(recs == expected);
                }
                self.index.insert_file_definitions(file_path, records);
                proof {
                    assert(spec_indexed(
                        old(self).defs(),
                        old(self).files(),
                        self.defs(),
                        self.files(),
                        file_path@,
                        spec_lang_family(lang_id@),
                        expected,
                    ));
                }
            },
        }
    }

    /// Extract one file's definition records without touching the index:
    /// the read-only parallel phase of batch indexing. The result is
    /// `Some` exactly when the language is registered and the definition
    /// pass over this content succeeds, and then holds exactly that
    /// pass's records.
    pub fn extract_file_definitions(&self, file_path: &str, content: &str, lang_id: &str) -> (r:
        Option<Vec<SymbolInfo>>)
        ensures
            (r is Some) == (self.lang_ids().contains(lang_id@) && ts_captures_of(
                lang_id@,
                content@,
            ) is Some),
            match r {
                Some(records) => match ts_captures_of(lang_id@, content@) {
                    Some(caps) => records.deep_view() == spec_records_of(
                        caps,
                        file_path@,
                        spec_lang_family(lang_id@),
                    ),
                    None => false,
                },
                None => true,
            },
    {
        if !self.is_language_registered(lang_id) {
            return None;
        }
        let opt = definition_captures(lang_id, content);
        let ghost odv = opt.deep_view();
        let caps = match opt {
            Some(c) => c,
            None => {
                proof {
                    assert(ts_captures_of(lang_id@, content@) is None);
                }
                return None;
            },
        };
        proof {
            assert(ts_captures_of(lang_id@, content@) == Some(caps.deep_view()));
        }
        let fam = lang_family_of(lang_id);
        Some(records_from_captures(&caps, file_path, fam))
    }

    /// Merge pre-extracted per-file record batches into the index, in
    /// order: each batch replaces its file's entries.
    pub fn merge_batches(&mut self, batches: Vec<(String, Vec<SymbolInfo>)>)
        requires
            old(self).wf(),
            spec_batches_ok(batches.deep_view()),
        ensures
            final(self).wf(),
            final(self).lang_ids() == old(self).lang_ids(),
            (final(self).defs(), final(self).files()) == apply_batches(
                old(self).defs(),
                old(self).files(),
                batches.deep_view(),
            ),
    {
        let ghost all = batches.deep_view();
        let ghost n = all.len();
        let mut rest = batches;
        let ghost mut j: int = 0;
        while rest.len() > 0
            invariant
                n == all.len(),
                0 <= j <= n,
                rest.deep_view() =~= all.skip(j),
                spec_batches_ok(all),
                self.wf(),
                self.lang_ids() == old(self).lang_ids(),
                (self.defs(), self.files()) == apply_batches(
                    old(self).defs(),
                    old(self).files(),
                    all.take(j),
                ),
            decreases rest.len(),
        {
            proof {
                assert(all.skip(j).len() == n - j);
                assert(j < n);
            }
            let ghost pre_dv = rest.deep_view();
            let ghost pre_vec = rest@;
            let (path, records) = rest.remove(0);
            proof {
                assert((path@, records.deep_view()) == pre_dv[0]);
                assert(all.skip(j)[0] == all[j]);
                assert(rest@ == pre_vec.remove(0));
                assert forall|k: int| 0 <= k < rest.deep_view().len() implies #[trigger] rest
                    .deep_view()[k] == all.skip(j + 1)[k] by {
                    assert(rest@[k] == pre_vec[k + 1]);
                    assert(rest.deep_view()[k] == pre_dv[k + 1]);
                    assert(pre_dv[k + 1] == all.skip(j)[k + 1]);
                    assert(all.skip(j)[k + 1] == all[j + 1 + k]);
                }
                assert(rest.deep_view() =~= all.skip(j + 1));
                assert forall|i: int|
                    0 <= i < records.deep_view().len() implies (
                #[trigger] records.deep_view()[i]).file_path == path@ by {
                    assert(all[j].1[i].file_path == all[j].0);
                }
            }
            let ghost pre_defs = self.defs();
            let ghost pre_files = self.files();
            self.index.insert_file_definitions(path.as_str(), records);
            proof {
                assert(all.take(j + 1).drop_last() =~= all.take(j));
                assert(all.take(j + 1).last() == all[j]);
                j = j + 1;
            }
        }
        proof {
            assert(all.skip(j).len() == 0);
            assert(j == n);
            assert(all.take(j) =~= all);
        }
    }

    /// Batch indexing: extract every parsable file's records first, then
    /// merge them serially, in input order. Files whose language is
    /// unregistered or whose content fails to parse are skipped
    /// entirely, their prior entries left in place.
    pub fn index_files_batch(&mut self, files: &Vec<(String, String, String)>)
        requires
            old(self).wf(),
        ensures
            final(self).wf(),
            final(self).lang_ids() == old(self).lang_ids(),
            (final(self).defs(), final(self).files()) == apply_batches(
                old(self).defs(),
                old(self).files(),
                spec_extracted_batches(files.deep_view(), old(self).lang_ids()),
            ),
    {
        let ghost fdv = files.deep_view();
        let mut merged: Vec<(String, Vec<SymbolInfo>)> = Vec::new();
        let n = files.len();
        let mut t: usize = 0;
        proof {
            assert(merged.deep_view() =~= spec_extracted_batches(fdv.take(0), self.lang_ids()));
        }
        while t < n
            invariant
                t <= n,
                n == files.len(),
                fdv == files.deep_view(),
                self == old(self),
                spec_batches_ok(merged.deep_view()),
                merged.deep_view() == spec_extracted_batches(fdv.take(t as int), self.lang_ids()),
            decreases n - t,
        {
            let file_path = &files[t].0;
            let content = &files[t].1;
            let lang_id = &files[t].2;
            proof {
                assert(fdv.take(t + 1).drop_last() =~= fdv.take(t as int));
                assert(fdv.take(t + 1).last() == fdv[t as int]);
                assert(fdv[t as int] == (file_path@, content@, lang_id@));
            }
            match self.extract_file_definitions(
                file_path.as_str(),
                content.as_str(),
                lang_id.as_str(),
            ) {
                Some(records) => {
                    let ghost pre = merged.deep_view();
                    let ghost rdv = records.deep_view();
                    merged.push((file_path.clone(), records));
                    proof {
                        assert(merged.deep_view().len() == pre.len() + 1);
                        assert(forall|b: int|
                            0 <= b < pre.len() ==> #[trigger] merged.deep_view()[b] == pre[b]);
                        assert(merged.deep_view()[pre.len() as int] == (file_path@, rdv));
                        assert(merged.deep_view() =~= spec_extracted_batches(
                            fdv.take(t + 1),
                            self.lang_ids(),
                        ));
                        assert forall|b: int, i: int|
                            0 <= b < merged.deep_view().len() && 0 <= i
                                < merged.deep_view()[b].1.len() implies (
                        #[trigger] merged.deep_view()[b].1[i]).file_path
                            == merged.deep_view()[b].0 by {
                            if b < pre.len() {
                                assert(merged.deep_view()[b] == pre[b]);
                                assert(pre[b].1[i].file_path == pre[b].0);
                            } else {
                                assert(merged.deep_view()[b].1 == rdv);
                            }
                        }
                    }
                },
                None => {
                    proof {
                        assert(merged.deep_view() =~= spec_extracted_batches(
                            fdv.take(t + 1),
                            self.lang_ids(),
                        ));
                    }
                },
            }
            t += 1;
        }
        proof {
            assert(fdv.take(n as int) =~= fdv);
        }
        let ghost batches = merged.deep_view();
        self.merge_batches(merged);
        proof {
            assert((final(self).defs(), final(self).files()) == apply_batches(
                old(self).defs(),
                old(self).files(),
                spec_extracted_batches(fdv, old(self).lang_ids()),
            ));
        }
    }

    /// Definitions of `symbol_name` within `lang_family`.
    pub fn find_definition(&self, symbol_name: &str, lang_family: &str) -> (r: Vec<SymbolInfo>)
        requires
            self.wf(),
        ensures
            r.deep_view() == filter_family(defs_at(self.defs(), symbol_name@), lang_family@),
    {
        self.index.find_definition(symbol_name, lang_family)
    }

    /// Invalidate one file's entries.
    pub fn clear_file(&mut self, file_path: &str)
        requires
            old(self).wf(),
        ensures
            final(self).wf(),
            final(self).lang_ids() == old(self).lang_ids(),
            final(self).defs() == clear_defs(old(self).defs(), file_path@),
            final(self).files() == old(self).files().remove(file_path@),
    {
        self.index.clear_file(file_path);
    }

    /// Drop the whole index; the language registry is untouched.
    pub fn clear_all(&mut self)
        ensures
            final(self).wf(),
            final(self).lang_ids() == old(self).lang_ids(),
            final(self).defs() == Map::<Seq<char>, Seq<SymbolModel>>::empty(),
            final(self).files() == Map::<Seq<char>, Seq<Seq<char>>>::empty(),
    {
        self.index.clear_all();
    }

    /// The definition entries of the index, in storage order.
    pub closed spec fn defs_kvs(&self) -> Seq<(Seq<char>, Seq<SymbolModel>)> {
        self.index.defs_kvs()
    }

    /// The reverse-index entries, in storage order.
    pub closed spec fn files_kvs(&self) -> Seq<(Seq<char>, Seq<Seq<char>>)> {
        self.index.files_kvs()
    }

    /// The entry sequences carry distinct keys and denote the two maps.
    pub proof fn lemma_kvs(&self)
        requires
            self.wf(),
        ensures
            crate::vecmap::distinct_keys(self.defs_kvs()),
            crate::vecmap::distinct_keys(self.files_kvs()),
            self.defs() == crate::vecmap::map_of(self.defs_kvs()),
            self.files() == crate::vecmap::map_of(self.files_kvs()),
            crate::symbols::wf_maps(self.defs(), self.files()),
    {
        self.index.lemma_kvs();
    }

    /// Snapshot the index for persistence: the current format version,
    /// the given root and timestamps, and clones of the two maps.
    pub fn make_persisted_index(
        &self,
        root_path: &str,
        last_updated: i64,
        file_timestamps: Vec<(String, i64)>,
    ) -> (p: crate::persist::PersistedIndex)
        requires
            self.wf(),
        ensures
            p.version == crate::persist::INDEX_VERSION,
            p.root_path@ == root_path@,
            p.last_updated == last_updated,
            p.file_timestamps == file_timestamps,
            p.definitions.deep_view() == self.defs_kvs(),
            p.file_definitions.deep_view() == self.files_kvs(),
    {
        crate::persist::PersistedIndex {
            version: crate::persist::INDEX_VERSION,
            root_path: root_path.to_owned(),
            last_updated,
            file_timestamps,
            definitions: self.index.snapshot_definitions(),
            file_definitions: self.index.snapshot_file_definitions(),
        }
    }

    /// Validate a stored snapshot against the requested root and, when
    /// the version and root match, replace the live index with its
    /// records; otherwise leave the index untouched. The caller must
    /// delete the backing file on `RebuildDiscard`.
    pub fn load_snapshot(
        &mut self,
        p: crate::persist::PersistedIndex,
        root_path: &str,
    ) -> (r: crate::persist::LoadOutcome)
        requires
            old(self).wf(),
        ensures
            final(self).wf(),
            final(self).lang_ids() == old(self).lang_ids(),
            (r == crate::persist::LoadOutcome::Applied) == (p.version
                == crate::persist::INDEX_VERSION && p.root_path@ == root_path@),
            (r == crate::persist::LoadOutcome::RebuildDiscard) == (p.version
                != crate::persist::INDEX_VERSION),
            (r == crate::persist::LoadOutcome::RebuildKeep) == (p.version
                == crate::persist::INDEX_VERSION && p.root_path@ != root_path@),
            r != crate::persist::LoadOutcome::Applied ==> final(self).defs() == old(self).defs()
                && final(self).files() == old(self).files(),
            r == crate::persist::LoadOutcome::Applied ==> forall|rec: SymbolModel|
                #[trigger] has_record(final(self).defs(), rec)
                    <==> crate::persist::concat_records(p.definitions.deep_view()).contains(rec),
    {
        let outcome = crate::persist::evaluate_snapshot(&p, root_path);
        if !(outcome == crate::persist::LoadOutcome::Applied) {
            return outcome;
        }
        self.index.clear_all();
        let mut entries = p.definitions;
        let ghost all = entries.deep_view();
        let ghost n = all.len();
        let ghost mut done: Seq<SymbolModel> = Seq::empty();
        let ghost mut j: int = 0;
        proof {
            assert(concat_records(all.take(0)) =~= Seq::<SymbolModel>::empty());
        }
        while entries.len() > 0
            invariant
                n == all.len(),
                0 <= j <= n,
                entries.deep_view() =~= all.skip(j),
                done == concat_records(all.take(j)),
                self.wf(),
                self.lang_ids() == old(self).lang_ids(),
                forall|rec: SymbolModel| #[trigger] has_record(self.defs(), rec) <==> done.contains(
                    rec,
                ),
            decreases entries.len(),
        {
            proof {
                assert(all.skip(j).len() == n - j);
                assert(j < n);
            }
            let ghost pre_dv = entries.deep_view();
            let ghost pre_vec = entries@;
            let (_, mut recs) = entries.remove(0);
            proof {
                assert(pre_dv[0] == all[j]);
                assert(recs.deep_view() == all[j].1);
                assert(entries@ == pre_vec.remove(0));
                assert forall|k2: int| 0 <= k2 < entries.deep_view().len() implies #[trigger] entries
                    .deep_view()[k2] == all.skip(j + 1)[k2] by {
                    assert(entries@[k2] == pre_vec[k2 + 1]);
                    assert(entries.deep_view()[k2] == pre_dv[k2 + 1]);
                    assert(pre_dv[k2 + 1] == all.skip(j)[k2 + 1]);
                    assert(all.skip(j)[k2 + 1] == all[j + 1 + k2]);
                }
                assert(entries.deep_view() =~= all.skip(j + 1));
            }
            let ghost batch = all[j].1;
            let ghost mut k: int = 0;
            while recs.len() > 0
                invariant
                    0 <= k <= batch.len(),
                    recs.deep_view() =~= batch.skip(k),
                    done == concat_records(all.take(j)) + batch.take(k),
                    self.wf(),
                    self.lang_ids() == old(self).lang_ids(),
                    forall|rec: SymbolModel| #[trigger] has_record(self.defs(), rec)
                        <==> done.contains(rec),
                decreases recs.len(),
            {
                proof {
                    assert(batch.skip(k).len() == batch.len() - k);
                    assert(k < batch.len());
                }
                let ghost rpre_dv = recs.deep_view();
                let ghost rpre_vec = recs@;
                let one = recs.remove(0);
                let ghost m = one.deep_view();
                proof {
                    assert(rpre_dv[0] == batch[k]);
                    assert(m == batch[k]);
                    assert(recs@ == rpre_vec.remove(0));
                    assert forall|k2: int| 0 <= k2 < recs.deep_view().len() implies #[trigger] recs
                        .deep_view()[k2] == batch.skip(k + 1)[k2] by {
                        assert(recs@[k2] == rpre_vec[k2 + 1]);
                        assert(recs.deep_view()[k2] == rpre_dv[k2 + 1]);
                        assert(rpre_dv[k2 + 1] == batch.skip(k)[k2 + 1]);
                        assert(batch.skip(k)[k2 + 1] == batch[k + 1 + k2]);
                    }
                    assert(recs.deep_view() =~= batch.skip(k + 1));
                }
                let ghost pre_defs = self.defs();
                self.index.insert_record(one);
                proof {
                    let done_old = done;
                    crate::symbols::lemma_contains_snoc(done_old, m);
                    done = done.push(m);
                    k = k + 1;
                    assert(batch.take(k) =~= batch.take(k - 1).push(m));
                    assert(done =~= concat_records(all.take(j)) + batch.take(k));
                    assert forall|rec: SymbolModel| #[trigger] has_record(self.defs(), rec)
                        <==> done.contains(rec) by {
                        assert(has_record(self.defs(), rec) <==> (has_record(pre_defs, rec) || rec
                            == m));
                        assert(has_record(pre_defs, rec) <==> done_old.contains(rec));
                        assert(done.contains(rec) <==> (done_old.contains(rec) || rec == m));
                    }
                }
            }
            proof {
                assert(batch.skip(k).len() == 0);
                assert(k == batch.len());
                assert(batch.take(k) =~= batch);
                assert(all.take(j + 1).drop_last() =~= all.take(j));
                assert(all.take(j + 1).last() == all[j]);
                assert(concat_records(all.take(j + 1)) == concat_records(all.take(j)) + batch);
                j = j + 1;
            }
        }
        proof {
            assert(all.skip(j).len() == 0);
            assert(j == n);
            assert(all.take(j) =~= all);
        }
        outcome
    }

    /// The names that one indexed file defines.
    pub fn file_defined_names(&self, file_path: &str) -> (r: Option<Vec<String>>)
        requires
            self.wf(),
        ensures
            match r {
                Some(v) => {
                    &&& self.files().contains_key(file_path@)
                    &&& v.deep_view() == self.files()[file_path@]
                },
                None => !self.files().contains_key(file_path@),
            },
    {
        self.index.file_defined_names(file_path)
    }

    /// The reverse index's keys, in storage order.
    pub closed spec fn file_keys(&self) -> Seq<Seq<char>> {
        self.index.file_keys()
    }

    /// Paths of every indexed file: exactly the reverse index's keys,
    /// each once.
    pub fn list_indexed_files(&self) -> (r: Vec<String>)
        requires
            self.wf(),
        ensures
            r.deep_view() == self.file_keys(),
            forall|i: int|
                0 <= i < r.deep_view().len() ==> self.files().contains_key(
                    #[trigger] r.deep_view()[i],
                ),
            forall|i: int, j: int|
                0 <= i < j < r.deep_view().len() ==> r.deep_view()[i] != r.deep_view()[j],
            r.deep_view().len() == self.files().len(),
    {
        self.index.list_indexed_files()
    }
}

} // verus!
