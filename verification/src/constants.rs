//! Shared file-classification tables: directories excluded from file
//! operations, code file extensions and names, and binary extensions.

use vstd::prelude::*;

verus! {

use crate::text::{lower_char, str_eq_lower, str_slice_list_contains};

/// Directory names excluded from file operations.
pub open spec fn spec_excluded_dirs() -> Seq<Seq<char>> {
    seq![
        "node_modules"@,
        ".git"@,
        "target"@,
        "build"@,
        "dist"@,
        ".next"@,
        ".cache"@,
        "coverage"@,
        ".nyc_output"@,
        "logs"@,
        "tmp"@,
        "temp"@,
        ".DS_Store"@,
        ".idea"@,
        "__pycache__"@,
        ".pytest_cache"@,
        ".svn"@,
        ".hg"@,
        "vendor"@,
        "deps"@,
        "_build"@,
        ".elixir_ls"@,
        ".sass-cache"@,
        ".parcel-cache"@,
        "out"@,
        "public"@,
        ".nuxt"@,
        ".output"@,
        ".netlify"@,
        "bower_components"@,
    ]
}

/// The excluded directory names, as a list.
pub fn excluded_dirs() -> (r: Vec<&'static str>)
    ensures
        r.deep_view() == spec_excluded_dirs(),
{
    let mut v: Vec<&'static str> = Vec::new();
    v.push("node_modules");
    v.push(".git");
    v.push("target");
    v.push("build");
    v.push("dist");
    v.push(".next");
    v.push(".cache");
    v.push("coverage");
    v.push(".nyc_output");
    v.push("logs");
    v.push("tmp");
    v.push("temp");
    v.push(".DS_Store");
    v.push(".idea");
    v.push("__pycache__");
    v.push(".pytest_cache");
    v.push(".svn");
    v.push(".hg");
    v.push("vendor");
    v.push("deps");
    v.push("_build");
    v.push(".elixir_ls");
    v.push(".sass-cache");
    v.push(".parcel-cache");
    v.push("out");
    v.push("public");
    v.push(".nuxt");
    v.push(".output");
    v.push(".netlify");
    v.push("bower_components");
    proof {
        assert(v.deep_view() =~= spec_excluded_dirs());
    }
    v
}

/// Common code file extensions.
pub open spec fn spec_code_extensions() -> Seq<Seq<char>> {
    seq![
        "rs"@, "js"@, "jsx"@, "ts"@, "tsx"@, "py"@, "java"@, "c"@, "cpp"@, "cc"@, "cxx"@,
        "h"@, "hpp"@, "cs"@, "php"@, "rb"@, "go"@, "swift"@, "kt"@, "scala"@, "clj"@,
        "html"@, "htm"@, "css"@, "scss"@, "sass"@, "less"@, "vue"@, "svelte"@,
        "json"@, "xml"@, "yaml"@, "yml"@, "toml"@, "ini"@, "cfg"@, "conf"@,
        "md"@, "mdx"@, "txt"@, "rst"@, "tex"@, "org"@, "log"@,
        "sh"@, "bash"@, "zsh"@, "fish"@, "ps1"@, "bat"@, "cmd"@,
        "sql"@, "graphql"@, "gql"@, "proto"@, "thrift"@,
        "r"@, "m"@, "mm"@, "pl"@, "pm"@, "lua"@, "vim"@, "el"@,
        "dart"@, "elm"@, "haskell"@, "hs"@, "ml"@, "fs"@, "fsx"@, "fsi"@,
        "coffee"@, "litcoffee"@, "haml"@, "pug"@, "jade"@, "slim"@,
        "styl"@, "stylus"@, "postcss"@, "pcss"@, "lock"@,
    ]
}

/// The code file extensions, as a list.
pub fn code_extensions() -> (r: Vec<&'static str>)
    ensures
        r.deep_view() == spec_code_extensions(),
{
    let mut v: Vec<&'static str> = Vec::new();
    v.push("rs");
    v.push("js");
    v.push("jsx");
    v.push("ts");
    v.push("tsx");
    v.push("py");
    v.push("java");
    v.push("c");
    v.push("cpp");
    v.push("cc");
    v.push("cxx");
    v.push("h");
    v.push("hpp");
    v.push("cs");
    v.push("php");
    v.push("rb");
    v.push("go");
    v.push("swift");
    v.push("kt");
    v.push("scala");
    v.push("clj");
    v.push("html");
    v.push("htm");
    v.push("css");
    v.push("scss");
    v.push("sass");
    v.push("less");
    v.push("vue");
    v.push("svelte");
    v.push("json");
    v.push("xml");
    v.push("yaml");
    v.push("yml");
    v.push("toml");
    v.push("ini");
    v.push("cfg");
    v.push("conf");
    v.push("md");
    v.push("mdx");
    v.push("txt");
    v.push("rst");
    v.push("tex");
    v.push("org");
    v.push("log");
    v.push("sh");
    v.push("bash");
    v.push("zsh");
    v.push("fish");
    v.push("ps1");
    v.push("bat");
    v.push("cmd");
    v.push("sql");
    v.push("graphql");
    v.push("gql");
    v.push("proto");
    v.push("thrift");
    v.push("r");
    v.push("m");
    v.push("mm");
    v.push("pl");
    v.push("pm");
    v.push("lua");
    v.push("vim");
    v.push("el");
    v.push("dart");
    v.push("elm");
    v.push("haskell");
    v.push("hs");
    v.push("ml");
    v.push("fs");
    v.push("fsx");
    v.push("fsi");
    v.push("coffee");
    v.push("litcoffee");
    v.push("haml");
    v.push("pug");
    v.push("jade");
    v.push("slim");
    v.push("styl");
    v.push("stylus");
    v.push("postcss");
    v.push("pcss");
    v.push("lock");
    proof {
        assert(v.deep_view() =~= spec_code_extensions());
    }
    v
}

/// Common code file names without an extension, all lowercase.
pub open spec fn spec_code_filenames() -> Seq<Seq<char>> {
    seq![
        "dockerfile"@,
        "makefile"@,
        "rakefile"@,
        "gemfile"@,
        "podfile"@,
        "vagrantfile"@,
        "procfile"@,
        "cakefile"@,
        "gruntfile"@,
        "gulpfile"@,
    ]
}

/// The code file names, as a list.
pub fn code_filenames() -> (r: Vec<&'static str>)
    ensures
        r.deep_view() == spec_code_filenames(),
{
    let mut v: Vec<&'static str> = Vec::new();
    v.push("dockerfile");
    v.push("makefile");
    v.push("rakefile");
    v.push("gemfile");
    v.push("podfile");
    v.push("vagrantfile");
    v.push("procfile");
    v.push("cakefile");
    v.push("gruntfile");
    v.push("gulpfile");
    proof {
        assert(v.deep_view() =~= spec_code_filenames());
    }
    v
}

/// Binary file extensions to exclude.
pub open spec fn spec_binary_extensions() -> Seq<Seq<char>> {
    seq![
        "exe"@, "dll"@, "so"@, "dylib"@, "a"@, "lib"@, "o"@, "obj"@,
        "pdf"@, "doc"@, "docx"@, "xls"@, "xlsx"@, "ppt"@, "pptx"@,
        "zip"@, "tar"@, "gz"@, "bz2"@, "7z"@, "rar"@,
        "jpg"@, "jpeg"@, "png"@, "gif"@, "bmp"@, "ico"@, "svg"@,
        "mp3"@, "mp4"@, "avi"@, "mkv"@, "mov"@, "wmv"@, "flv"@,
        "ttf"@, "otf"@, "woff"@, "woff2"@, "eot"@,
        "jar"@, "war"@, "ear"@, "class"@, "pyc"@, "pyo"@,
        "db"@, "sqlite"@, "sqlite3"@,
    ]
}

/// The binary extensions, as a list.
pub fn binary_extensions() -> (r: Vec<&'static str>)
    ensures
        r.deep_view() == spec_binary_extensions(),
{
    let mut v: Vec<&'static str> = Vec::new();
    v.push("exe");
    v.push("dll");
    v.push("so");
    v.push("dylib");
    v.push("a");
    v.push("lib");
    v.push("o");
    v.push("obj");
    v.push("pdf");
    v.push("doc");
    v.push("docx");
    v.push("xls");
    v.push("xlsx");
    v.push("ppt");
    v.push("pptx");
    v.push("zip");
    v.push("tar");
    v.push("gz");
    v.push("bz2");
    v.push("7z");
    v.push("rar");
    v.push("jpg");
    v.push("jpeg");
    v.push("png");
    v.push("gif");
    v.push("bmp");
    v.push("ico");
    v.push("svg");
    v.push("mp3");
    v.push("mp4");
    v.push("avi");
    v.push("mkv");
    v.push("mov");
    v.push("wmv");
    v.push("flv");
    v.push("ttf");
    v.push("otf");
    v.push("woff");
    v.push("woff2");
    v.push("eot");
    v.push("jar");
    v.push("war");
    v.push("ear");
    v.push("class");
    v.push("pyc");
    v.push("pyo");
    v.push("db");
    v.push("sqlite");
    v.push("sqlite3");
    proof {
        assert(v.deep_view() =~= spec_binary_extensions());
    }
    v
}

/// Whether a directory name is excluded from file operations.
pub fn should_exclude_dir(dir_name: &str) -> (r: bool)
    ensures
        r == spec_excluded_dirs().contains(dir_name@),
{
    let dirs = excluded_dirs();
    str_slice_list_contains(&dirs, dir_name)
}

/// Whether a file extension marks a code file.
pub fn is_code_extension(extension: &str) -> (r: bool)
    ensures
        r == spec_code_extensions().contains(extension@),
{
    let exts = code_extensions();
    str_slice_list_contains(&exts, extension)
}

/// Whether a file name without an extension marks a code file, ASCII
/// case-insensitively.
pub fn is_code_filename(filename: &str) -> (r: bool)
    ensures
        r == spec_code_filenames().contains(filename@.map_values(|c: char| lower_char(c))),
{
    let names = code_filenames();
    let n = names.len();
    let mut i: usize = 0;
    while i < n
        invariant
            i <= n,
            n == names.len(),
            names.deep_view() == spec_code_filenames(),
            forall|j: int|
                0 <= j < i ==> #[trigger] names.deep_view()[j] != filename@.map_values(
                    |c: char| lower_char(c),
                ),
        decreases n - i,
    {
        proof {
            assert(names.deep_view()[i as int] == names[i as int]@);
        }
        if str_eq_lower(filename, names[i]) {
            proof {
                assert(spec_code_filenames().contains(
                    filename@.map_values(|c: char| lower_char(c)),
                )) by {
                    assert(names.deep_view()[i as int] == filename@.map_values(
                        |c: char| lower_char(c),
                    ));
                }
            }
            return true;
        }
        i += 1;
    }
    proof {
        if spec_code_filenames().contains(filename@.map_values(|c: char| lower_char(c))) {
            let j = choose|j: int|
                0 <= j < spec_code_filenames().len() && spec_code_filenames()[j]
                    == filename@.map_values(|c: char| lower_char(c));
        }
    }
    false
}

/// Whether a file extension marks a binary file.
pub fn is_binary_extension(extension: &str) -> (r: bool)
    ensures
        r == spec_binary_extensions().contains(extension@),
{
    let exts = binary_extensions();
    str_slice_list_contains(&exts, extension)
}

} // verus!
