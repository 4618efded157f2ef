//! Repository status and diff data as plain values, with the
//! classification rules the editor applies to them.
//!
//! Talking to a repository is I/O and happens outside; callers hand this
//! module each entry's status flags as booleans, and it classifies them
//! into the file lists the front end shows, and turns a parsed diff into
//! the per-line gutter markers.

use vstd::prelude::*;

verus! {

/// Status of one file in the repository.
#[derive(Debug, Clone, Copy, PartialEq, Eq, Structural)]
pub enum GitFileStatus {
    Unmodified,
    Modified,
    Added,
    Deleted,
    Renamed,
    Untracked,
    Conflicted,
}

/// One file with its status and whether the change is staged.
#[derive(Debug, Clone)]
pub struct FileStatus {
    pub path: String,
    pub status: GitFileStatus,
    pub staged: bool,
}

/// One branch of the repository.
#[derive(Debug, Clone)]
pub struct BranchInfo {
    pub name: String,
    pub is_current: bool,
    pub is_head: bool,
    pub upstream: Option<String>,
    pub ahead: Option<usize>,
    pub behind: Option<usize>,
}

/// Overall repository status.
#[derive(Debug, Clone)]
pub struct GitStatus {
    pub branch: Option<BranchInfo>,
    pub modified: Vec<FileStatus>,
    pub staged: Vec<FileStatus>,
    pub untracked: Vec<String>,
    pub conflicted: Vec<String>,
    pub changes_count: usize,
}

/// Kind of one diff line.
#[derive(Debug, Clone, Copy, PartialEq, Eq, Structural)]
pub enum DiffLineType {
    Addition,
    Deletion,
    Context,
}

/// One line of a diff hunk.
#[derive(Debug, Clone)]
pub struct DiffLine {
    pub line_type: DiffLineType,
    pub old_line_number: Option<u32>,
    pub new_line_number: Option<u32>,
    pub content: String,
}

/// One hunk of a file diff.
#[derive(Debug, Clone)]
pub struct DiffHunk {
    pub old_start: u32,
    pub old_lines: u32,
    pub new_start: u32,
    pub new_lines: u32,
    pub header: String,
    pub lines: Vec<DiffLine>,
}

/// Diff of one file against the repository head.
#[derive(Debug, Clone)]
pub struct FileDiff {
    pub path: String,
    pub old_path: Option<String>,
    pub status: GitFileStatus,
    pub hunks: Vec<DiffHunk>,
    pub additions: usize,
    pub deletions: usize,
}

/// One commit.
#[derive(Debug, Clone)]
pub struct CommitInfo {
    pub hash: String,
    pub short_hash: String,
    pub message: String,
    pub author_name: String,
    pub author_email: String,
    pub timestamp: i64,
}

/// A repository entry's status, as plain flags.
#[derive(Debug, Clone, Copy, PartialEq, Eq, Structural)]
pub struct StatusFlags {
    pub index_new: bool,
    pub index_modified: bool,
    pub index_deleted: bool,
    pub index_renamed: bool,
    pub index_typechange: bool,
    pub wt_new: bool,
    pub wt_modified: bool,
    pub wt_deleted: bool,
    pub wt_typechange: bool,
    pub wt_renamed: bool,
    pub conflicted: bool,
}

impl DeepView for StatusFlags {
    type V = StatusFlags;

    open spec fn deep_view(&self) -> StatusFlags {
        *self
    }
}

/// Classification of status flags into one file status, on the staged or
/// the working-tree side.
pub open spec fn spec_status_of(s: StatusFlags, is_staged: bool) -> GitFileStatus {
    if is_staged {
        if s.index_new {
            GitFileStatus::Added
        } else if s.index_modified {
            GitFileStatus::Modified
        } else if s.index_deleted {
            GitFileStatus::Deleted
        } else if s.index_renamed {
            GitFileStatus::Renamed
        } else {
            GitFileStatus::Modified
        }
    } else {
        if s.wt_modified {
            GitFileStatus::Modified
        } else if s.wt_deleted {
            GitFileStatus::Deleted
        } else if s.wt_renamed {
            GitFileStatus::Renamed
        } else if s.wt_new {
            GitFileStatus::Untracked
        } else {
            GitFileStatus::Modified
        }
    }
}

/// Classify one entry's flags into a file status.
pub fn status_to_git_file_status(s: &StatusFlags, is_staged: bool) -> (r: GitFileStatus)
    ensures
        r == spec_status_of(*s, is_staged),
{
    if is_staged {
        if s.index_new {
            GitFileStatus::Added
        } else if s.index_modified {
            GitFileStatus::Modified
        } else if s.index_deleted {
            GitFileStatus::Deleted
        } else if s.index_renamed {
            GitFileStatus::Renamed
        } else {
            GitFileStatus::Modified
        }
    } else {
        if s.wt_modified {
            GitFileStatus::Modified
        } else if s.wt_deleted {
            GitFileStatus::Deleted
        } else if s.wt_renamed {
            GitFileStatus::Renamed
        } else if s.wt_new {
            GitFileStatus::Untracked
        } else {
            GitFileStatus::Modified
        }
    }
}

/// The entry has staged (index) changes.
pub open spec fn spec_has_staged(s: StatusFlags) -> bool {
    s.index_new || s.index_modified || s.index_deleted || s.index_renamed || s.index_typechange
}

/// The entry has unstaged (working tree) changes.
pub open spec fn spec_has_unstaged(s: StatusFlags) -> bool {
    s.wt_modified || s.wt_deleted || s.wt_renamed || s.wt_typechange
}

/// How many of the four lists one entry contributes to.
pub open spec fn spec_entry_count(s: StatusFlags) -> int {
    if s.conflicted {
        1
    } else {
        (if spec_has_staged(s) {
            1int
        } else {
            0int
        }) + (if spec_has_unstaged(s) {
            1int
        } else {
            0int
        }) + (if s.wt_new {
            1int
        } else {
            0int
        })
    }
}

/// Total contributions of a sequence of entries.
pub open spec fn spec_entries_count(entries: Seq<(Seq<char>, StatusFlags)>) -> int
    decreases entries.len(),
{
    if entries.len() == 0 {
        0
    } else {
        spec_entries_count(entries.drop_last()) + spec_entry_count(entries.last().1)
    }
}

/// Build the repository status summary from classified entries: a
/// conflicted entry goes only to the conflict list; otherwise it may
/// contribute a staged change, an unstaged change, and an untracked
/// mark, each independently. The change count totals the four lists.
pub fn build_git_status(entries: &Vec<(String, StatusFlags)>, branch: Option<BranchInfo>) -> (r:
    GitStatus)
    requires
        spec_entries_count(entries.deep_view()) <= usize::MAX,
    ensures
        r.modified@.len() + r.staged@.len() + r.untracked@.len() + r.conflicted@.len()
            == spec_entries_count(entries.deep_view()),
        r.changes_count == spec_entries_count(entries.deep_view()),
        forall|k: int| 0 <= k < r.staged@.len() ==> (#[trigger] r.staged@[k]).staged == true,
        forall|k: int| 0 <= k < r.modified@.len() ==> (#[trigger] r.modified@[k]).staged == false,
{
    let ghost all = entries.deep_view();
    let n = entries.len();
    let mut modified: Vec<FileStatus> = Vec::new();
    let mut staged: Vec<FileStatus> = Vec::new();
    let mut untracked: Vec<String> = Vec::new();
    let mut conflicted: Vec<String> = Vec::new();
    let mut i: usize = 0;
    while i < n
        invariant
            i <= n,
            n == entries.len(),
            n == all.len(),
            all == entries.deep_view(),
            spec_entries_count(all) <= usize::MAX,
            modified@.len() + staged@.len() + untracked@.len() + conflicted@.len()
                == spec_entries_count(all.take(i as int)),
            forall|k: int| 0 <= k < staged@.len() ==> (#[trigger] staged@[k]).staged == true,
            forall|k: int| 0 <= k < modified@.len() ==> (#[trigger] modified@[k]).staged == false,
        decreases n - i,
    {
        proof {
            assert(all.take(i + 1).drop_last() =~= all.take(i as int));
            assert(all.take(i + 1).last() == all[i as int]);
            lemma_entries_count_bounds(all, i + 1);
        }
        let path = &entries[i].0;
        let s = entries[i].1;
        proof {
            assert(all[i as int].1 == s);
        }
        if s.conflicted {
            conflicted.push(path.clone());
        } else {
            if s.index_new || s.index_modified || s.index_deleted || s.index_renamed
                || s.index_typechange {
                let st = status_to_git_file_status(&s, true);
                staged.push(FileStatus { path: path.clone(), status: st, staged: true });
            }
            if s.wt_modified || s.wt_deleted || s.wt_renamed || s.wt_typechange {
                let st = status_to_git_file_status(&s, false);
                modified.push(FileStatus { path: path.clone(), status: st, staged: false });
            }
            if s.wt_new {
                untracked.push(path.clone());
            }
        }
        i += 1;
    }
    proof {
        assert(all.take(n as int) =~= all);
    }
    let changes_count = modified.len() + staged.len() + untracked.len() + conflicted.len();
    GitStatus { branch, modified, staged, untracked, conflicted, changes_count }
}

proof fn lemma_entries_count_bounds(entries: Seq<(Seq<char>, StatusFlags)>, j: int)
    requires
        0 <= j <= entries.len(),
    ensures
        0 <= spec_entries_count(entries.take(j)) <= spec_entries_count(entries),
    decreases entries.len() - j,
{
    if j == entries.len() {
        assert(entries.take(j) =~= entries);
        lemma_entries_count_nonneg(entries);
    } else {
        lemma_entries_count_bounds(entries, j + 1);
        lemma_entries_count_nonneg(entries.take(j));
        assert(entries.take(j + 1).drop_last() =~= entries.take(j));
        assert(entries.take(j + 1).last() == entries[j]);
        assert(spec_entry_count(entries[j].1) >= 0);
    }
}

proof fn lemma_entries_count_nonneg(entries: Seq<(Seq<char>, StatusFlags)>)
    ensures
        spec_entries_count(entries) >= 0,
    decreases entries.len(),
{
    if entries.len() > 0 {
        lemma_entries_count_nonneg(entries.drop_last());
    }
}

/// The next gutter position after one diff line, saturated at the
/// largest line number.
pub open spec fn spec_next_line(cur: u32, n: u32) -> u32 {
    if n == u32::MAX {
        u32::MAX
    } else {
        (n + 1) as u32
    }
}

/// Gutter markers of one hunk's lines, threading the current position in
/// the new file: additions mark their own line, deletions mark the
/// position where the removed lines would have been, context lines only
/// advance the position.
pub open spec fn spec_hunk_changes(lines: Seq<DiffLine>, cur: u32) -> Seq<(u32, DiffLineType)>
    decreases lines.len(),
{
    if lines.len() == 0 {
        Seq::empty()
    } else {
        let l = lines[0];
        match l.line_type {
            DiffLineType::Addition => match l.new_line_number {
                Some(n) => seq![(n, DiffLineType::Addition)] + spec_hunk_changes(
                    lines.skip(1),
                    spec_next_line(cur, n),
                ),
                None => spec_hunk_changes(lines.skip(1), cur),
            },
            DiffLineType::Deletion => seq![(cur, DiffLineType::Deletion)] + spec_hunk_changes(
                lines.skip(1),
                cur,
            ),
            DiffLineType::Context => match l.new_line_number {
                Some(n) => spec_hunk_changes(lines.skip(1), spec_next_line(cur, n)),
                None => spec_hunk_changes(lines.skip(1), cur),
            },
        }
    }
}

/// Gutter markers of a whole diff, hunk by hunk.
pub open spec fn spec_diff_changes(hunks: Seq<DiffHunk>) -> Seq<(u32, DiffLineType)>
    decreases hunks.len(),
{
    if hunks.len() == 0 {
        Seq::empty()
    } else {
        spec_diff_changes(hunks.drop_last()) + spec_hunk_changes(
            hunks.last().lines@,
            hunks.last().new_start,
        )
    }
}

/// Per-line gutter markers for a file diff.
pub fn line_changes_of(diff: &FileDiff) -> (r: Vec<(u32, DiffLineType)>)
    ensures
        r@ == spec_diff_changes(diff.hunks@),
{
    let mut out: Vec<(u32, DiffLineType)> = Vec::new();
    let nh = diff.hunks.len();
    let mut h: usize = 0;
    while h < nh
        invariant
            h <= nh,
            nh == diff.hunks@.len(),
            out@ == spec_diff_changes(diff.hunks@.take(h as int)),
        decreases nh - h,
    {
        proof {
            assert(diff.hunks@.take(h + 1).drop_last() =~= diff.hunks@.take(h as int));
            assert(diff.hunks@.take(h + 1).last() == diff.hunks@[h as int]);
        }
        let hunk = &diff.hunks[h];
        let ghost hlines = hunk.lines@;
        let ghost base = spec_diff_changes(diff.hunks@.take(h as int)) + spec_hunk_changes(
            hlines,
            hunk.new_start,
        );
        let nl = hunk.lines.len();
        let mut cur: u32 = hunk.new_start;
        let mut k: usize = 0;
        proof {
            assert(hlines.skip(0) =~= hlines);
        }
        while k < nl
            invariant
                k <= nl,
                nl == hlines.len(),
                nl == hunk.lines@.len(),
                hunk.lines@ == hlines,
                hlines == diff.hunks@[h as int].lines@,
                h < diff.hunks@.len(),
                nh == diff.hunks@.len(),
                base == spec_diff_changes(diff.hunks@.take(h as int)) + spec_hunk_changes(
                    diff.hunks@[h as int].lines@,
                    diff.hunks@[h as int].new_start,
                ),
                out@ + spec_hunk_changes(hlines.skip(k as int), cur) == base,
            decreases nl - k,
        {
            let line = &hunk.lines[k];
            let ghost pre_out = out@;
            let ghost pre_cur = cur;
            proof {
                assert(hlines.skip(k as int)[0] == hlines[k as int]);
                assert(hlines.skip(k as int).skip(1) =~= hlines.skip(k + 1));
                assert(*line == hlines[k as int]);
            }
            match line.line_type {
                DiffLineType::Addition => {
                    match line.new_line_number {
                        Some(nnum) => {
                            out.push((nnum, DiffLineType::Addition));
                            if nnum == u32::MAX {
                                cur = u32::MAX;
                            } else {
                                cur = nnum + 1;
                            }
                            proof {
                                assert(spec_hunk_changes(hlines.skip(k as int), pre_cur) == seq![
                                    (nnum, DiffLineType::Addition),
                                ] + spec_hunk_changes(hlines.skip(k + 1), cur));
                                assert(out@ + spec_hunk_changes(hlines.skip(k + 1), cur) =~= pre_out
                                    + spec_hunk_changes(hlines.skip(k as int), pre_cur));
                            }
                        },
                        None => {
                            proof {
                                assert(spec_hunk_changes(hlines.skip(k as int), pre_cur)
                                    == spec_hunk_changes(hlines.skip(k + 1), cur));
                            }
                        },
                    }
                },
                DiffLineType::Deletion => {
                    out.push((cur, DiffLineType::Deletion));
                    proof {
                        assert(spec_hunk_changes(hlines.skip(k as int), pre_cur) == seq![
                            (pre_cur, DiffLineType::Deletion),
                        ] + spec_hunk_changes(hlines.skip(k + 1), cur));
                        assert(out@ + spec_hunk_changes(hlines.skip(k + 1), cur) =~= pre_out
                            + spec_hunk_changes(hlines.skip(k as int), pre_cur));
                    }
                },
                DiffLineType::Context => {
                    match line.new_line_number {
                        Some(nnum) => {
                            if nnum == u32::MAX {
                                cur = u32::MAX;
                            } else {
                                cur = nnum + 1;
                            }
                            proof {
                                assert(spec_hunk_changes(hlines.skip(k as int), pre_cur)
                                    == spec_hunk_changes(hlines.skip(k + 1), cur));
                            }
                        },
                        None => {
                            proof {
                                assert(spec_hunk_changes(hlines.skip(k as int), pre_cur)
                                    == spec_hunk_changes(hlines.skip(k + 1), cur));
                            }
                        },
                    }
                },
            }
            k += 1;
        }
        proof {
            assert(hlines.skip(nl as int).len() == 0);
            assert(spec_hunk_changes(hlines.skip(nl as int), cur) =~= Seq::<(
                u32,
                DiffLineType,
            )>::empty());
            assert(out@ =~= base);
        }
        h += 1;
    }
    proof {
        assert(diff.hunks@.take(nh as int) =~= diff.hunks@);
    }
    out
}

} // verus!
