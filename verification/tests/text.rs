use tutorial_generator::path::repo_dir_name;
use tutorial_generator::text::{count_lines, decimal_string, join, trim};

#[test]
fn trim_removes_unicode_whitespace_at_both_ends() {
    let cases = [
        "", "   ", "abc", "  abc  ", "\tline\r\n", "\u{a0}x\u{3000}", "a b", "\n\nmsg\n", "\u{85}y\u{2029}",
        "\u{200b}z", "Add README\n",
    ];
    for case in cases {
        assert_eq!(trim(case), case.trim().to_string(), "trim of {:?}", case);
    }
}

#[test]
fn count_lines_matches_str_lines() {
    let cases = ["", "a", "a\n", "a\n\n", "\n", "a\nb", "a\r\nb\r\n", "\r", "x\n\ny\n", "fn main() {\n    println!(\"Hello, world!\");\n}"];
    for case in cases {
        assert_eq!(count_lines(case), case.lines().count(), "lines of {:?}", case);
    }
}

#[test]
fn final_line_ending_adds_no_line() {
    assert_eq!(count_lines("one\ntwo"), 2);
    assert_eq!(count_lines("one\ntwo\n"), 2);
    assert_eq!(count_lines("x"), count_lines("x\n"));
}

#[test]
fn decimal_numerals() {
    assert_eq!(decimal_string(0), "0");
    assert_eq!(decimal_string(7), "7");
    assert_eq!(decimal_string(10), "10");
    assert_eq!(decimal_string(1234567890), "1234567890");
    assert_eq!(decimal_string(usize::MAX), usize::MAX.to_string());
}

#[test]
fn join_with_separator() {
    assert_eq!(join(&Vec::new(), ", "), "");
    assert_eq!(join(&vec!["rust".to_string()], ", "), "rust");
    assert_eq!(join(&vec!["c".to_string(), "rust".to_string(), "toml".to_string()], ", "), "c, rust, toml");
}

#[test]
fn clone_directory_names() {
    assert_eq!(repo_dir_name("https://github.com/rust-lang/rust.git"), "rust");
    assert_eq!(repo_dir_name("https://example.com/user/repo"), "repo");
    assert_eq!(repo_dir_name("repo.git"), "repo");
    assert_eq!(repo_dir_name("a/b.git.git"), "b");
    assert_eq!(repo_dir_name("a/x.gitignore"), "xignore");
    assert_eq!(repo_dir_name("trailing/"), "");
    for url in ["https://h/o/r.git", "..gitgit", "no-slash", "a/.git/b", "x.gi.git"] {
        let expected = url.split('/').last().unwrap_or("repo").replace(".git", "");
        assert_eq!(repo_dir_name(url), expected, "clone dir of {:?}", url);
    }
}
