use code_nav::constants::{
    binary_extensions, code_extensions, excluded_dirs, is_binary_extension, is_code_extension,
    is_code_filename, should_exclude_dir,
};

#[test]
fn test_should_exclude_dir_common_dirs() {
    assert!(should_exclude_dir("node_modules"));
    assert!(should_exclude_dir(".git"));
    assert!(should_exclude_dir("target"));
    assert!(should_exclude_dir("dist"));
    assert!(should_exclude_dir(".cache"));
    assert!(should_exclude_dir("__pycache__"));
}

#[test]
fn test_should_exclude_dir_false() {
    assert!(!should_exclude_dir("src"));
    assert!(!should_exclude_dir("lib"));
    assert!(!should_exclude_dir("components"));
    assert!(!should_exclude_dir("utils"));
}

#[test]
fn test_is_code_extension_programming_languages() {
    assert!(is_code_extension("rs"));
    assert!(is_code_extension("js"));
    assert!(is_code_extension("ts"));
    assert!(is_code_extension("tsx"));
    assert!(is_code_extension("py"));
    assert!(is_code_extension("java"));
    assert!(is_code_extension("go"));
    assert!(is_code_extension("c"));
    assert!(is_code_extension("cpp"));
}

#[test]
fn test_is_code_extension_web_files() {
    assert!(is_code_extension("html"));
    assert!(is_code_extension("css"));
    assert!(is_code_extension("scss"));
    assert!(is_code_extension("vue"));
    assert!(is_code_extension("svelte"));
}

#[test]
fn test_is_code_extension_config_files() {
    assert!(is_code_extension("json"));
    assert!(is_code_extension("yaml"));
    assert!(is_code_extension("yml"));
    assert!(is_code_extension("toml"));
    assert!(is_code_extension("xml"));
}

#[test]
fn test_is_code_extension_false() {
    assert!(!is_code_extension("exe"));
    assert!(!is_code_extension("dll"));
    assert!(!is_code_extension("png"));
    assert!(!is_code_extension("jpg"));
    assert!(!is_code_extension("unknown_extension"));
}

#[test]
fn test_is_code_filename_case_insensitive() {
    assert!(is_code_filename("Dockerfile"));
    assert!(is_code_filename("DOCKERFILE"));
    assert!(is_code_filename("dockerfile"));
    assert!(is_code_filename("Makefile"));
    assert!(is_code_filename("MAKEFILE"));
    assert!(is_code_filename("makefile"));
}

#[test]
fn test_is_code_filename_common_files() {
    assert!(is_code_filename("Gemfile"));
    assert!(is_code_filename("Podfile"));
    assert!(is_code_filename("Rakefile"));
    assert!(is_code_filename("Vagrantfile"));
    assert!(is_code_filename("Procfile"));
}

#[test]
fn test_is_code_filename_false() {
    assert!(!is_code_filename("README"));
    assert!(!is_code_filename("LICENSE"));
    assert!(!is_code_filename("random_file"));
}

#[test]
fn test_is_binary_extension_executables() {
    assert!(is_binary_extension("exe"));
    assert!(is_binary_extension("dll"));
    assert!(is_binary_extension("so"));
    assert!(is_binary_extension("dylib"));
}

#[test]
fn test_is_binary_extension_documents() {
    assert!(is_binary_extension("pdf"));
    assert!(is_binary_extension("doc"));
    assert!(is_binary_extension("docx"));
    assert!(is_binary_extension("xls"));
    assert!(is_binary_extension("xlsx"));
}

#[test]
fn test_is_binary_extension_archives() {
    assert!(is_binary_extension("zip"));
    assert!(is_binary_extension("tar"));
    assert!(is_binary_extension("gz"));
    assert!(is_binary_extension("rar"));
    assert!(is_binary_extension("7z"));
}

#[test]
fn test_is_binary_extension_media() {
    assert!(is_binary_extension("jpg"));
    assert!(is_binary_extension("jpeg"));
    assert!(is_binary_extension("png"));
    assert!(is_binary_extension("gif"));
    assert!(is_binary_extension("mp3"));
    assert!(is_binary_extension("mp4"));
}

#[test]
fn test_is_binary_extension_false() {
    assert!(!is_binary_extension("rs"));
    assert!(!is_binary_extension("js"));
    assert!(!is_binary_extension("txt"));
    assert!(!is_binary_extension("md"));
}

#[test]
fn test_excluded_dirs_contains_expected() {
    let dirs = excluded_dirs();
    assert!(dirs.contains(&"node_modules"));
    assert!(dirs.contains(&".git"));
    assert!(dirs.contains(&"target"));
    assert!(dirs.contains(&"__pycache__"));
    assert!(dirs.len() > 20); // Should have many exclusions
}

#[test]
fn test_code_extensions_contains_expected() {
    let exts = code_extensions();
    assert!(exts.contains(&"rs"));
    assert!(exts.contains(&"py"));
    assert!(exts.contains(&"js"));
    assert!(exts.contains(&"ts"));
    assert!(exts.len() > 50); // Should have many extensions
}

#[test]
fn test_binary_extensions_contains_expected() {
    let exts = binary_extensions();
    assert!(exts.contains(&"exe"));
    assert!(exts.contains(&"png"));
    assert!(exts.contains(&"zip"));
    assert!(exts.len() > 30); // Should have many extensions
}
