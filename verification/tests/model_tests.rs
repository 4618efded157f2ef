use code_nav::dirtree::{
    is_code_file, normalize_path, sort_file_nodes, DirectoryTreeBuilder, FileNode,
};
use code_nav::gitmodel::{
    build_git_status, line_changes_of, status_to_git_file_status, DiffHunk, DiffLine,
    DiffLineType, FileDiff, GitFileStatus, StatusFlags,
};
use code_nav::scripts::ScriptExecutor;

fn flags() -> StatusFlags {
    StatusFlags {
        index_new: false,
        index_modified: false,
        index_deleted: false,
        index_renamed: false,
        index_typechange: false,
        wt_new: false,
        wt_modified: false,
        wt_deleted: false,
        wt_typechange: false,
        wt_renamed: false,
        conflicted: false,
    }
}

fn node(name: &str, is_dir: bool) -> FileNode {
    FileNode {
        name: name.to_string(),
        path: format!("/{}", name),
        is_directory: is_dir,
        children: None,
        is_lazy_loaded: None,
        has_children: None,
        modified_time: None,
        size: None,
        is_git_ignored: None,
    }
}

#[test]
fn test_normalize_path_backslashes() {
    assert_eq!(normalize_path("a\\b\\c.rs"), "a/b/c.rs");
    assert_eq!(normalize_path("already/fine"), "already/fine");
}

#[test]
fn test_is_code_file_names() {
    assert!(is_code_file("main.rs"));
    assert!(is_code_file("page.html"));
    // Extensions are matched exactly; only extension-less names are
    // compared case-insensitively.
    assert!(!is_code_file("page.HTML"));
    assert!(is_code_file("Makefile"));
    assert!(!is_code_file("photo.png"));
    assert!(!is_code_file("README"));
}

#[test]
fn test_sort_file_nodes_order() {
    let nodes = vec![
        node("zeta.rs", false),
        node("Alpha", true),
        node("beta.rs", false),
        node("gamma", true),
    ];
    let sorted = sort_file_nodes(nodes);
    let names: Vec<&str> = sorted.iter().map(|n| n.name.as_str()).collect();
    // Directories first, then files, both by lowercased name.
    assert_eq!(names, vec!["Alpha", "gamma", "beta.rs", "zeta.rs"]);
}

#[test]
fn test_directory_cache_ttl() {
    let mut builder = DirectoryTreeBuilder::new();
    builder.cache_store("/root".to_string(), node("root", true), 100);

    // Fresh enough within the time-to-live.
    assert!(builder.cache_lookup("/root", 120).is_some());
    // Stale once the time-to-live has passed.
    assert!(builder.cache_lookup("/root", 131).is_none());
    // Unknown keys miss.
    assert!(builder.cache_lookup("/other", 100).is_none());
}

#[test]
fn test_directory_cache_invalidate() {
    let mut builder = DirectoryTreeBuilder::new();
    builder.cache_store("/root".to_string(), node("root", true), 100);
    builder.cache_store("/root_children".to_string(), node("kids", true), 100);
    builder.cache_store("/elsewhere".to_string(), node("e", true), 100);

    builder.invalidate_path("/root");

    assert!(builder.cache_lookup("/root", 100).is_none());
    assert!(builder.cache_lookup("/root_children", 100).is_none());
    assert!(builder.cache_lookup("/elsewhere", 100).is_some());
}

#[test]
fn test_status_classification() {
    let mut s = flags();
    s.index_new = true;
    assert_eq!(status_to_git_file_status(&s, true), GitFileStatus::Added);

    let mut s = flags();
    s.index_deleted = true;
    assert_eq!(status_to_git_file_status(&s, true), GitFileStatus::Deleted);

    let mut s = flags();
    s.wt_modified = true;
    assert_eq!(status_to_git_file_status(&s, false), GitFileStatus::Modified);

    let mut s = flags();
    s.wt_new = true;
    assert_eq!(status_to_git_file_status(&s, false), GitFileStatus::Untracked);

    // Typechange on either side falls back to Modified.
    let mut s = flags();
    s.index_typechange = true;
    assert_eq!(status_to_git_file_status(&s, true), GitFileStatus::Modified);
}

#[test]
fn test_build_git_status_lists() {
    let mut staged_entry = flags();
    staged_entry.index_modified = true;

    let mut both_entry = flags();
    both_entry.index_new = true;
    both_entry.wt_modified = true;

    let mut untracked_entry = flags();
    untracked_entry.wt_new = true;

    let mut conflicted_entry = flags();
    conflicted_entry.conflicted = true;
    conflicted_entry.index_modified = true; // conflict wins

    let entries = vec![
        ("staged.rs".to_string(), staged_entry),
        ("both.rs".to_string(), both_entry),
        ("fresh.rs".to_string(), untracked_entry),
        ("clash.rs".to_string(), conflicted_entry),
    ];

    let status = build_git_status(&entries, None);
    assert_eq!(status.staged.len(), 2);
    assert_eq!(status.modified.len(), 1);
    assert_eq!(status.untracked.len(), 1);
    assert_eq!(status.conflicted.len(), 1);
    assert_eq!(status.changes_count, 5);
    assert!(status.staged.iter().all(|f| f.staged));
    assert!(status.modified.iter().all(|f| !f.staged));
}

#[test]
fn test_line_changes_of_diff() {
    let lines = vec![
        DiffLine {
            line_type: DiffLineType::Context,
            old_line_number: Some(10),
            new_line_number: Some(10),
            content: "unchanged".to_string(),
        },
        DiffLine {
            line_type: DiffLineType::Addition,
            old_line_number: None,
            new_line_number: Some(11),
            content: "fresh".to_string(),
        },
        DiffLine {
            line_type: DiffLineType::Deletion,
            old_line_number: Some(11),
            new_line_number: None,
            content: "gone".to_string(),
        },
    ];
    let diff = FileDiff {
        path: "file.rs".to_string(),
        old_path: None,
        status: GitFileStatus::Modified,
        hunks: vec![DiffHunk {
            old_start: 10,
            old_lines: 2,
            new_start: 10,
            new_lines: 2,
            header: "@@".to_string(),
            lines,
        }],
        additions: 1,
        deletions: 1,
    };

    let changes = line_changes_of(&diff);
    assert_eq!(changes.len(), 2);
    assert_eq!(changes[0], (11, DiffLineType::Addition));
    // The deletion is marked where the removed line would have been.
    assert_eq!(changes[1], (12, DiffLineType::Deletion));
}

#[test]
fn test_interpreter_for_script_types() {
    assert_eq!(ScriptExecutor::interpreter_for("python"), Some("python3"));
    assert_eq!(ScriptExecutor::interpreter_for("bash"), Some("bash"));
    assert_eq!(ScriptExecutor::interpreter_for("sh"), Some("bash"));
    assert_eq!(ScriptExecutor::interpreter_for("nodejs"), Some("node"));
    assert_eq!(ScriptExecutor::interpreter_for("javascript"), Some("node"));
    assert_eq!(ScriptExecutor::interpreter_for("ruby"), None);
}
