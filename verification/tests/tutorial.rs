use tutorial_generator::{
    parse_output_format, select_shown_files, AnalyzedCommit, CommitSummary, DeltaStatus, FileChange, OutputFormat,
    RepoInfo, Section, ShownFile, TreeEntryInfo, Tutorial,
};

fn commit(hash: &str, author: &str, time: i64, message: &str) -> CommitSummary {
    CommitSummary::from_commit(hash.to_string(), Some(author), time, Some(message))
}

fn repo(name: &str, total: usize, languages: &[&str]) -> RepoInfo {
    RepoInfo { name: name.to_string(), total_commits: total, languages: languages.iter().map(|l| l.to_string()).collect() }
}

/// The files of one commit that adds `path` with `content`, as the diff and
/// the blob read would give them.
fn added(path: &str, content: &str) -> Vec<ShownFile> {
    let files = vec![FileChange::from_diff(path.to_string(), Some(path), DeltaStatus::Added)];
    select_shown_files(&files, &vec![Some(content.to_string())])
}

/// The repository of the program's Markdown test: four commits, newest first,
/// each adding one file.
fn test_repository(dir: &str) -> (RepoInfo, Vec<AnalyzedCommit>) {
    let entries: Vec<TreeEntryInfo> = ["Cargo.toml", "README.md", "lib.rs", "main.rs"]
        .iter()
        .map(|n| TreeEntryInfo { mode: 0o100644, name: Some(n.to_string()) })
        .collect();
    let info = RepoInfo::describe(dir, 4, &entries).unwrap();
    let history = vec![
        AnalyzedCommit {
            commit: commit("d4d4d4d4d4d4d4d4d4d4d4d4d4d4d4d4d4d4d4d4", "Test User", 1_700_000_300, "Add manifest"),
            shown: Some(added("Cargo.toml", "[package]\nname = \"test-proj\"\nversion = \"0.1.0\"\nedition = \"2021\"")),
        },
        AnalyzedCommit {
            commit: commit("c3c3c3c3c3c3c3c3c3c3c3c3c3c3c3c3c3c3c3c3", "Test User", 1_700_000_200, "Add lib"),
            shown: Some(added("lib.rs", "pub fn add(a: i32, b: i32) -> i32 { a + b }")),
        },
        AnalyzedCommit {
            commit: commit("b2b2b2b2b2b2b2b2b2b2b2b2b2b2b2b2b2b2b2b2", "Test User", 1_700_000_100, "Add main"),
            shown: Some(added("main.rs", "fn main() {\n    println!(\"Hello, world!\");\n}")),
        },
        AnalyzedCommit {
            commit: commit("a1a1a1a1a1a1a1a1a1a1a1a1a1a1a1a1a1a1a1a1", "Test User", 1_700_000_000, "Add README"),
            shown: Some(added("README.md", "# Test Project\n\nA test repo for tutorial generation.")),
        },
    ];
    (info, history)
}

#[test]
fn generated_tutorial_names_and_summarises_the_repository() {
    let (info, history) = test_repository("/tmp/x/test-proj");
    let t = Tutorial::generate(info, &history);
    assert_eq!(t.repo_info.languages, vec!["markdown".to_string(), "rust".to_string(), "toml".to_string()]);
    assert_eq!(t.title, "Building test-proj: A Tutorial");
    assert_eq!(t.description, "Learning journey through the test-proj codebase.");
    assert_eq!(t.sections.len(), 1);
    assert_eq!(t.sections[0].commits.len(), 4);
    assert_eq!(t.sections[0].files_shown, 4);
    assert_eq!(t.sections[0].files.len(), 4);
    assert_eq!(
        t.summary,
        "Explore the development of **test-proj** through 4 commits across 1 sections. Primary languages: markdown, rust, toml. 4 file changes highlighted."
    );
    let empty = Tutorial::generate(repo("empty", 0, &[]), &Vec::new());
    assert_eq!(
        empty.summary,
        "Explore the development of **empty** through 0 commits across 0 sections. Primary languages: . 0 file changes highlighted."
    );
}

#[test]
fn summary_counts_only_kept_sections() {
    let history: Vec<AnalyzedCommit> = (0..12)
        .map(|i| AnalyzedCommit {
            commit: commit(&format!("{:040}", i), "A", 0, "m"),
            shown: Some(
                (0..11)
                    .map(|k| ShownFile { path: format!("f{}", k), language: None, content: String::new() })
                    .collect(),
            ),
        })
        .collect();
    let t = Tutorial::generate(repo("big", 12, &["rust"]), &history);
    assert_eq!(t.sections.len(), 10);
    assert_eq!(
        t.summary,
        "Explore the development of **big** through 12 commits across 10 sections. Primary languages: rust. 110 file changes highlighted."
    );
}

#[test]
fn markdown_of_a_small_tutorial() {
    let history = vec![
        AnalyzedCommit {
            commit: commit("0123456789abcdef0123456789abcdef01234567", "Test User", 0, "Add lib\n\nWith a body"),
            shown: Some(added("src/lib.rs", "pub fn one() -> i32 { 1 }")),
        },
        AnalyzedCommit {
            commit: commit("1111111111abcdef0123456789abcdef01234567", "Ann", 86_400, "Add notes"),
            shown: Some(added("NOTES", "plain text")),
        },
    ];
    let t = Tutorial::generate(repo("demo", 2, &["rust"]), &history);
    let md = t.to_markdown(None, None);
    let expected = format!(
        "# Building demo: A Tutorial\n\n\
         *Learning journey through the demo codebase.*\n\n\
         **Repository:** demo\n**Languages:** rust\n**Total commits:** 2\n\n\
         ## Prerequisites\n\n\
         - Git, to clone the repository and follow its history\n\
         - A text editor or IDE\n\
         - Tools for rust\n\n\
         ## Introduction\n\n{}\n\n\
         ## 1: Section 1\n\n\
         Starting with commit `01234567` by **Test User**: \"Add lib\n\nWith a body\"\n\n\
         ### Code Changes\n\n\
         This section shows key file modifications that evolved the codebase.\n\n\
         #### `src/lib.rs`\n\n```rust\npub fn one() -> i32 {{ 1 }}\n```\n\n\
         #### `NOTES`\n\n```text\nplain text\n```\n\n\
         ### Key Takeaways\n\n\
         - Add lib\n\
         - Add notes\n\
         - 2 file changes shown across 2 commits\n\n\
         ## Conclusion\n\n\
         You've now explored **demo**'s development journey.\n\n\
         ### Next Steps\n\n\
         - Clone the repository: `git clone <repository-url>`\n\
         - Build and run the project locally\n\
         - Study the architecture and patterns\n\
         - Experiment with modifications\n",
        t.summary
    );
    assert_eq!(md, expected);
}

#[test]
fn prerequisites_without_languages_list_only_the_general_tools() {
    let t = Tutorial::generate(repo("demo", 0, &[]), &Vec::new());
    let md = t.to_markdown(None, None);
    assert!(md.contains(
        "**Total commits:** 0\n\n## Prerequisites\n\n- Git, to clone the repository and follow its history\n- A text editor or IDE\n\n## Introduction\n\n"
    ));
}

#[test]
fn custom_title_and_description_replace_the_defaults() {
    let t = Tutorial::generate(repo("demo", 0, &[]), &Vec::new());
    let md = t.to_markdown(Some("My Title"), Some("My description"));
    assert!(md.starts_with("# My Title\n\n*My description*\n\n"));
    let md2 = t.to_markdown(Some("Only Title"), None);
    assert!(md2.starts_with("# Only Title\n\n*Learning journey through the demo codebase.*\n\n"));
}

#[test]
fn markdown_sections_are_numbered_and_empty_ones_say_so() {
    let mut t = Tutorial::generate(repo("demo", 0, &[]), &Vec::new());
    t.sections.push(Section { title: "First".to_string(), commits: Vec::new(), files_shown: 0, files: Vec::new() });
    t.sections.push(Section {
        title: "Second".to_string(),
        commits: vec![CommitSummary {
            hash: "héllo-wörld".to_string(),
            author: "Ann".to_string(),
            date: "2024-02-29".to_string(),
            message: "msg".to_string(),
        }],
        files_shown: 0,
        files: Vec::new(),
    });
    let md = t.to_markdown(None, None);
    assert!(md.contains(
        "## 1: First\n\n### Code Changes\n\nThis section shows key file modifications that evolved the codebase.\n\nNo file in this section is short enough to show.\n\n### Key Takeaways\n\n- 0 file changes shown across 0 commits\n\n"
    ));
    assert!(md.contains("## 2: Second\n\nStarting with commit `héllo-w` by **Ann**: \"msg\"\n\n"));
}

#[test]
fn test_binary_produces_markdown() {
    let (info, history) = test_repository("/tmp/work/tutorial-test");
    let t = Tutorial::generate(info, &history);
    let content = t.to_markdown(Some("Test Tutorial"), None);
    assert!(content.contains("# Test Tutorial"), "Should have title");
    assert!(content.contains("## Introduction"), "Should have Introduction section");
    assert!(content.contains("## Conclusion"), "Should have Conclusion section");
    assert!(content.contains("**Repository:**"), "Should have repository info");
    assert!(content.contains("**Languages:**"), "Should have languages info");
    assert!(content.contains("**Total commits:**"), "Should show commit count");
    assert!(content.contains("**Languages:** markdown, rust, toml\n"));
    assert!(content.contains("## Prerequisites"));
    assert!(content.contains("```toml\n[package]"));
    assert!(content.contains("```rust\nfn main() {"));
    assert!(content.contains("```markdown\n# Test Project"));
    assert!(content.contains("### Key Takeaways\n\n- Add manifest\n- Add lib\n- Add main\n- Add README\n"));
}

#[test]
fn test_binary_json_output() {
    let entries = vec![TreeEntryInfo { mode: 0o100644, name: Some("README.md".to_string()) }];
    let info = RepoInfo::describe("/tmp/work/json-test", 1, &entries).unwrap();
    let history = vec![AnalyzedCommit {
        commit: commit("89abcdef0123456789abcdef0123456789abcdef", "Test User", 1_700_000_000, "Add README"),
        shown: Some(added("README.md", "# JSON Test")),
    }];
    let t = Tutorial::generate(info, &history);
    let record = t.to_record();
    assert_eq!(record.title, "Building json-test: A Tutorial");
    assert_eq!(record.repository, "json-test");
    assert_eq!(record.description, t.description);
    assert_eq!(record.total_commits, 1);
    assert_eq!(record.languages, vec!["markdown".to_string()]);
    assert_eq!(
        record.summary,
        "Explore the development of **json-test** through 1 commits across 1 sections. Primary languages: markdown. 1 file changes highlighted."
    );
    assert_eq!(record.sections.len(), 1);
    assert_eq!(record.sections[0].title, "Section 1");
    assert_eq!(record.sections[0].commit_count, 1);
    assert_eq!(record.sections[0].files_shown, 1);
}

#[test]
fn output_formats_in_any_case() {
    assert_eq!(parse_output_format("markdown"), Some(OutputFormat::Markdown));
    assert_eq!(parse_output_format("MD"), Some(OutputFormat::Markdown));
    assert_eq!(parse_output_format("Markdown"), Some(OutputFormat::Markdown));
    assert_eq!(parse_output_format("JSON"), Some(OutputFormat::Json));
    assert_eq!(parse_output_format("json"), Some(OutputFormat::Json));
    assert_eq!(parse_output_format("xml"), None);
    assert_eq!(parse_output_format(""), None);
    assert_eq!(parse_output_format(" json"), None);
}
