use code_nav::indexer::CodeNavigationService;
use code_nav::persist::{evaluate_snapshot, get_project_hash, metadata_of, LoadOutcome,
    PersistedIndex, INDEX_VERSION};

#[test]
fn test_get_project_hash() {
    let hash1 = get_project_hash("/project/a");
    let hash2 = get_project_hash("/project/b");
    let hash3 = get_project_hash("/project/a"); // Same as hash1

    // Different paths should have different hashes
    assert_ne!(hash1, hash2);

    // Same path should have same hash
    assert_eq!(hash1, hash3);

    // Hash should be 16 characters (8 bytes in hex)
    assert_eq!(hash1.len(), 16);
}

#[test]
fn test_project_hash_is_hex() {
    let hash = get_project_hash("/some/root");
    assert!(hash.chars().all(|c| c.is_ascii_hexdigit()));
    assert!(hash.chars().all(|c| !c.is_ascii_uppercase()));
}

#[test]
fn test_persistence_round_trip() {
    let mut service = CodeNavigationService::new();
    service.index_file("a.py", "def alpha(): pass\ndef beta(): pass", "python");
    service.index_file("b.rs", "fn alpha() {}", "rust");

    let before_py = service.find_definition("alpha", "python");
    let before_rs = service.find_definition("alpha", "rust");
    assert_eq!(before_py.len(), 1);
    assert_eq!(before_rs.len(), 1);

    let snapshot = service.make_persisted_index("/project", 1700000000, Vec::new());
    service.clear_all();
    assert!(service.find_definition("alpha", "python").is_empty());

    let outcome = service.load_snapshot(snapshot, "/project");
    assert_eq!(outcome, LoadOutcome::Applied);

    let after_py = service.find_definition("alpha", "python");
    let after_rs = service.find_definition("alpha", "rust");
    assert_eq!(after_py.len(), 1);
    assert_eq!(after_rs.len(), 1);
    assert_eq!(after_py[0].file_path, "a.py");
    assert_eq!(after_py[0].start_line, before_py[0].start_line);
    assert_eq!(service.find_definition("beta", "python").len(), 1);
}

#[test]
fn test_load_snapshot_version_mismatch() {
    let mut service = CodeNavigationService::new();
    service.index_file("a.py", "def survivor(): pass", "python");

    let mut snapshot = service.make_persisted_index("/project", 0, Vec::new());
    snapshot.version = INDEX_VERSION + 1;

    let outcome = service.load_snapshot(snapshot, "/project");
    assert_eq!(outcome, LoadOutcome::RebuildDiscard);

    // The live index is untouched.
    assert_eq!(service.find_definition("survivor", "python").len(), 1);
}

#[test]
fn test_load_snapshot_root_mismatch() {
    let mut service = CodeNavigationService::new();
    service.index_file("a.py", "def survivor(): pass", "python");

    let snapshot = service.make_persisted_index("/project", 0, Vec::new());
    let outcome = service.load_snapshot(snapshot, "/other");
    assert_eq!(outcome, LoadOutcome::RebuildKeep);
    assert_eq!(service.find_definition("survivor", "python").len(), 1);
}

#[test]
fn test_evaluate_snapshot_outcomes() {
    let p = PersistedIndex {
        version: INDEX_VERSION,
        root_path: "/project".to_string(),
        last_updated: 1700000000,
        file_timestamps: Vec::new(),
        definitions: Vec::new(),
        file_definitions: Vec::new(),
    };
    assert_eq!(evaluate_snapshot(&p, "/project"), LoadOutcome::Applied);
    assert_eq!(evaluate_snapshot(&p, "/elsewhere"), LoadOutcome::RebuildKeep);

    let stale = PersistedIndex {
        version: INDEX_VERSION + 1,
        root_path: "/project".to_string(),
        last_updated: 1700000000,
        file_timestamps: Vec::new(),
        definitions: Vec::new(),
        file_definitions: Vec::new(),
    };
    assert_eq!(evaluate_snapshot(&stale, "/project"), LoadOutcome::RebuildDiscard);
    assert_eq!(evaluate_snapshot(&stale, "/elsewhere"), LoadOutcome::RebuildDiscard);
}

#[test]
fn test_index_metadata_counts() {
    let mut service = CodeNavigationService::new();
    service.index_file("a.py", "def one(): pass\ndef two(): pass", "python");
    service.index_file("b.py", "def three(): pass", "python");

    let stamps = vec![("a.py".to_string(), 11i64), ("b.py".to_string(), 22i64)];
    let snapshot = service.make_persisted_index("/project", 1700000000, stamps);

    let meta = metadata_of(&snapshot).expect("metadata for a current snapshot");
    assert_eq!(meta.version, INDEX_VERSION);
    assert_eq!(meta.root_path, "/project");
    assert_eq!(meta.last_updated, 1700000000);
    assert_eq!(meta.file_count, 2);
    assert_eq!(meta.definition_count, 3);
    assert_eq!(meta.file_timestamps.len(), 2);
}

#[test]
fn test_index_metadata_version_mismatch() {
    let p = PersistedIndex {
        version: INDEX_VERSION + 7,
        root_path: "/project".to_string(),
        last_updated: 0,
        file_timestamps: Vec::new(),
        definitions: Vec::new(),
        file_definitions: Vec::new(),
    };
    assert!(metadata_of(&p).is_none());
}
