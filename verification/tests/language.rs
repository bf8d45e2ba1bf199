use tutorial_generator::language::{blob_entry, collect_languages, detect_language, text_less, tree_entry, TreeEntryInfo};
use tutorial_generator::path::{extension, file_name};

#[test]
fn detects_languages_by_extension() {
    assert_eq!(detect_language("main.rs"), Some("rust"));
    assert_eq!(detect_language("src/lib.rs"), Some("rust"));
    assert_eq!(detect_language("web/app.js"), Some("javascript"));
    assert_eq!(detect_language("web/app.ts"), Some("typescript"));
    assert_eq!(detect_language("ui/App.jsx"), Some("react"));
    assert_eq!(detect_language("ui/App.tsx"), Some("react"));
    assert_eq!(detect_language("tool.py"), Some("python"));
    assert_eq!(detect_language("Main.java"), Some("java"));
    assert_eq!(detect_language("x.c"), Some("c"));
    assert_eq!(detect_language("x.cpp"), Some("cpp"));
    assert_eq!(detect_language("x.cc"), Some("cpp"));
    assert_eq!(detect_language("x.h"), Some("cpp"));
    assert_eq!(detect_language("x.hpp"), Some("cpp"));
    assert_eq!(detect_language("x.go"), Some("go"));
    assert_eq!(detect_language("x.rb"), Some("ruby"));
    assert_eq!(detect_language("x.php"), Some("php"));
    assert_eq!(detect_language("x.html"), Some("html"));
    assert_eq!(detect_language("x.css"), Some("css"));
    assert_eq!(detect_language("x.scss"), Some("scss"));
    assert_eq!(detect_language("x.sql"), Some("sql"));
    assert_eq!(detect_language("README.md"), Some("markdown"));
    assert_eq!(detect_language("x.json"), Some("json"));
    assert_eq!(detect_language("x.yml"), Some("yaml"));
    assert_eq!(detect_language("x.yaml"), Some("yaml"));
    assert_eq!(detect_language("Cargo.toml"), Some("toml"));
    assert_eq!(detect_language("run.sh"), Some("bash"));
    assert_eq!(detect_language("run.bash"), Some("bash"));
    assert_eq!(detect_language("x.lua"), Some("lua"));
    assert_eq!(detect_language("x.swift"), Some("swift"));
    assert_eq!(detect_language("x.kt"), Some("kotlin"));
    assert_eq!(detect_language("x.dart"), Some("dart"));
    assert_eq!(detect_language("x.vue"), Some("vue"));
    assert_eq!(detect_language("x.svelte"), Some("svelte"));
    assert_eq!(detect_language("x.elm"), Some("elm"));
    assert_eq!(detect_language("x.hs"), Some("haskell"));
    assert_eq!(detect_language("x.clj"), Some("clojure"));
    assert_eq!(detect_language("x.ex"), Some("elixir"));
    assert_eq!(detect_language("x.fs"), Some("fsharp"));
}

#[test]
fn unknown_or_missing_extensions_have_no_language() {
    assert_eq!(detect_language("Makefile"), None);
    assert_eq!(detect_language(""), None);
    assert_eq!(detect_language("archive.tar.gz"), None);
    assert_eq!(detect_language("main.RS"), None);
    assert_eq!(detect_language(".rs"), None);
    assert_eq!(detect_language("foo."), None);
    assert_eq!(detect_language("."), None);
    assert_eq!(detect_language(".."), None);
    assert_eq!(detect_language("a/.."), None);
    assert_eq!(detect_language("/"), None);
}

#[test]
fn language_follows_path_rules() {
    assert_eq!(detect_language(".hidden.py"), Some("python"));
    assert_eq!(detect_language("dir.rs/"), Some("rust"));
    assert_eq!(detect_language("src/main.rs/."), Some("rust"));
    assert_eq!(detect_language("a//b/./c.go"), Some("go"));
    assert_eq!(detect_language("src.rs/Makefile"), None);
    assert_eq!(detect_language("café/π.rs"), Some("rust"));
}

#[test]
fn file_names_and_extensions_match_std_path() {
    let cases = [
        "", ".", "..", "/", "a", "a/", "a/b", "a/b/", "a/b/.", "a/..", "./a", "a//b", ".hidden",
        ".hidden.rs", "foo.", "foo.tar.gz", "/usr/lib/x.so", "dir.d/name", "a/./", "..a", "a..",
        "x/.b.c",
    ];
    for case in cases {
        let p = std::path::Path::new(case);
        let expected_name = p.file_name().map(|n| n.to_str().unwrap().to_string());
        let expected_ext = p.extension().map(|e| e.to_str().unwrap().to_string());
        assert_eq!(file_name(case), expected_name, "file name of {:?}", case);
        assert_eq!(extension(case), expected_ext, "extension of {:?}", case);
    }
}

#[test]
fn lexicographic_order_of_texts() {
    assert!(text_less("c", "cpp"));
    assert!(text_less("bash", "c"));
    assert!(!text_less("rust", "rust"));
    assert!(!text_less("rust", "python"));
    assert!(text_less("", "a"));
    assert!(!text_less("a", ""));
}

#[test]
fn mode_bits_follow_git2_file_modes() {
    assert_eq!(i32::from(git2::FileMode::Blob), 0o100644);
    assert_eq!(i32::from(git2::FileMode::Tree), 0o040000);
    assert!(blob_entry(0o100644));
    assert!(blob_entry(0o100755));
    assert!(blob_entry(0o100664));
    assert!(blob_entry(0o120000));
    assert!(blob_entry(0o160000));
    assert!(!blob_entry(0o040000));
    assert!(!blob_entry(0));
    assert!(tree_entry(0o040000));
    assert!(!tree_entry(0o100644));
    assert!(!tree_entry(0o100755));
    assert!(!tree_entry(0o120000));
}

fn entry(mode: i32, name: Option<&str>) -> TreeEntryInfo {
    TreeEntryInfo { mode, name: name.map(|n| n.to_string()) }
}

#[test]
fn languages_are_sorted_and_unique() {
    let entries = vec![
        entry(0o100644, Some("main.rs")),
        entry(0o100644, Some("README.md")),
        entry(0o100755, Some("lib.rs")),
        entry(0o100644, Some("a.c")),
        entry(0o100644, Some("Makefile")),
        entry(0o100644, None),
        entry(0o120000, Some("link.cpp")),
        entry(0o040000, Some("tools.py")),
        entry(0o160000, Some("vendor.go")),
    ];
    let langs = collect_languages(&entries);
    assert_eq!(
        langs,
        vec!["c".to_string(), "cpp".to_string(), "go".to_string(), "markdown".to_string(), "rust".to_string()]
    );
}

#[test]
fn trees_contribute_no_language() {
    let entries = vec![entry(0o040000, Some("src.rs")), entry(0o040000, Some("docs"))];
    assert!(collect_languages(&entries).is_empty());
    assert!(collect_languages(&Vec::new()).is_empty());
}

#[test]
fn same_extension_same_language_in_any_directory() {
    for dir in ["", "src/", "a/b/c/", "./", "../x/"] {
        assert_eq!(detect_language(&format!("{}mod.rs", dir)), Some("rust"));
        assert_eq!(detect_language(&format!("{}notes.txt", dir)), None);
    }
}

#[test]
fn language_list_does_not_depend_on_walk_order() {
    let names = ["b.py", "a.rs", "c.py", "d.md", "e.rs"];
    let forward: Vec<TreeEntryInfo> = names.iter().map(|n| entry(0o100644, Some(n))).collect();
    let backward: Vec<TreeEntryInfo> = names.iter().rev().map(|n| entry(0o100644, Some(n))).collect();
    assert_eq!(collect_languages(&forward), collect_languages(&backward));
    assert_eq!(collect_languages(&forward), vec!["markdown".to_string(), "python".to_string(), "rust".to_string()]);
}

#[test]
fn more_than_thirty_languages_are_detected() {
    let extensions = [
        "rs", "js", "ts", "jsx", "tsx", "py", "java", "c", "cpp", "cc", "h", "hpp", "go", "rb", "php", "html", "css",
        "scss", "sql", "md", "json", "yml", "yaml", "toml", "sh", "bash", "lua", "swift", "kt", "dart", "vue",
        "svelte", "elm", "hs", "clj", "ex", "fs",
    ];
    let mut names = std::collections::BTreeSet::new();
    for ext in extensions {
        names.insert(detect_language(&format!("file.{}", ext)).unwrap());
    }
    assert!(names.len() > 30);
    assert_eq!(names.len(), 31);
}
