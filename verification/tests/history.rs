use tutorial_generator::{
    build_sections, keep_commit, select_shown_files, AnalyzedCommit, ChangeType, CommitDetails, CommitSummary,
    DeltaStatus, FileChange, RepoInfo, ShownFile, TreeEntryInfo,
};

fn commit(n: usize) -> CommitSummary {
    CommitSummary {
        hash: format!("{:040x}", n + 0xabc),
        author: format!("Author {}", n),
        date: "2024-01-01".to_string(),
        message: format!("Commit {}", n),
    }
}

fn shown_file(commit: usize, k: usize) -> ShownFile {
    ShownFile {
        path: format!("c{}/f{}.rs", commit, k),
        language: Some("rust".to_string()),
        content: format!("// {} {}", commit, k),
    }
}

fn analyzed(counts: &[Option<usize>]) -> Vec<AnalyzedCommit> {
    counts
        .iter()
        .enumerate()
        .map(|(i, c)| AnalyzedCommit { commit: commit(i), shown: c.map(|n| (0..n).map(|k| shown_file(i, k)).collect()) })
        .collect()
}

fn paths(s: &tutorial_generator::Section) -> Vec<String> {
    s.files.iter().map(|f| f.path.clone()).collect()
}

fn messages(s: &tutorial_generator::Section) -> Vec<String> {
    s.commits.iter().map(|c| c.message.clone()).collect()
}

#[test]
fn change_types_of_every_delta() {
    assert_eq!(ChangeType::from_delta(DeltaStatus::Added), ChangeType::Added);
    assert_eq!(ChangeType::from_delta(DeltaStatus::Modified), ChangeType::Modified);
    assert_eq!(ChangeType::from_delta(DeltaStatus::Deleted), ChangeType::Deleted);
    assert_eq!(ChangeType::from_delta(DeltaStatus::Renamed), ChangeType::Renamed);
    assert_eq!(ChangeType::from_delta(DeltaStatus::Copied), ChangeType::Added);
    assert_eq!(ChangeType::from_delta(DeltaStatus::Ignored), ChangeType::Modified);
    assert_eq!(ChangeType::from_delta(DeltaStatus::Untracked), ChangeType::Added);
    assert_eq!(ChangeType::from_delta(DeltaStatus::Typechange), ChangeType::Modified);
    assert_eq!(ChangeType::from_delta(DeltaStatus::Unreadable), ChangeType::Modified);
    assert_eq!(ChangeType::from_delta(DeltaStatus::Conflicted), ChangeType::Modified);
    assert_eq!(ChangeType::from_delta(DeltaStatus::Unmodified), ChangeType::Modified);
}

#[test]
fn file_changes_from_a_diff() {
    let f = FileChange::from_diff("src/main.rs".to_string(), Some("src/main.rs"), DeltaStatus::Copied);
    assert_eq!(f.path, "src/main.rs");
    assert_eq!(f.change_type, ChangeType::Added);
    assert_eq!(f.language, Some("rust".to_string()));
    assert!(f.needs_content());
    let g = FileChange::from_diff("caf\u{fffd}.py".to_string(), None, DeltaStatus::Deleted);
    assert_eq!(g.language, None);
    assert_eq!(g.change_type, ChangeType::Deleted);
    assert!(!g.needs_content());
    let h = FileChange::from_diff("notes".to_string(), Some("notes"), DeltaStatus::Renamed);
    assert_eq!(h.language, None);
    assert!(!h.needs_content());
}

#[test]
fn shown_files_are_short_added_or_modified_files() {
    let files = vec![
        FileChange::from_diff("a.rs".to_string(), Some("a.rs"), DeltaStatus::Added),
        FileChange::from_diff("b.rs".to_string(), Some("b.rs"), DeltaStatus::Modified),
        FileChange::from_diff("c.rs".to_string(), Some("c.rs"), DeltaStatus::Modified),
        FileChange::from_diff("d.rs".to_string(), Some("d.rs"), DeltaStatus::Deleted),
        FileChange::from_diff("notes".to_string(), Some("notes"), DeltaStatus::Added),
    ];
    let short = "line\n".repeat(200);
    let long = "line\n".repeat(201);
    let contents = vec![Some(short.clone()), Some(long), None, Some("x".to_string()), Some(String::new())];
    let shown = select_shown_files(&files, &contents);
    assert_eq!(shown.len(), 2);
    assert_eq!(shown[0].path, "a.rs");
    assert_eq!(shown[0].language, Some("rust".to_string()));
    assert_eq!(shown[0].content, short);
    assert_eq!(shown[1].path, "notes");
    assert_eq!(shown[1].language, None);
    assert_eq!(shown[1].content, "");
    assert!(select_shown_files(&Vec::new(), &Vec::new()).is_empty());
}

#[test]
fn commits_are_kept_up_to_the_limit() {
    assert!(keep_commit(0, 1));
    assert!(keep_commit(9, 10));
    assert!(!keep_commit(10, 10));
    assert!(!keep_commit(0, 0));
}

#[test]
fn commit_summaries_default_and_trim() {
    let c = CommitSummary::from_commit("abc".to_string(), Some("Ann"), 1_700_000_000, Some("  Add main\n\n"));
    assert_eq!(c.author, "Ann");
    assert_eq!(c.date, "2023-11-14");
    assert_eq!(c.message, "Add main");
    let d = CommitSummary::from_commit("def".to_string(), None, 0, None);
    assert_eq!(d.date, "1970-01-01");
    let far = CommitSummary::from_commit("f".to_string(), None, i64::MAX, None);
    assert_eq!(far.date, "unknown date");
    assert_eq!(d.author, "Unknown");
    assert_eq!(d.message, "");
    assert_eq!(d.hash, "def");
    let e = c.duplicate();
    assert_eq!(e.message, c.message);
    let details = CommitDetails::new(Some("\tFix bug \n"), Vec::new());
    assert_eq!(details.message, "Fix bug");
    assert!(details.files.is_empty());
}

#[test]
fn repository_description() {
    let entries = vec![
        TreeEntryInfo { mode: 0o100644, name: Some("lib.rs".to_string()) },
        TreeEntryInfo { mode: 0o040000, name: Some("src".to_string()) },
    ];
    let info = RepoInfo::describe("/tmp/work/my-project/", 42, &entries).unwrap();
    assert_eq!(info.name, "my-project");
    assert_eq!(info.total_commits, 42);
    assert_eq!(info.languages, vec!["rust".to_string()]);
    assert!(RepoInfo::describe("/", 1, &entries).is_none());
    assert!(RepoInfo::describe("a/..", 1, &entries).is_none());
}

#[test]
fn commits_fill_a_section_up_to_ten_files() {
    let sections = build_sections(&analyzed(&[Some(5), Some(5), Some(1), Some(0)]));
    assert_eq!(sections.len(), 2);
    assert_eq!(sections[0].title, "Section 1");
    assert_eq!(sections[0].files_shown, 10);
    assert_eq!(messages(&sections[0]), vec!["Commit 0", "Commit 1"]);
    assert_eq!(sections[0].files.len(), 10);
    assert_eq!(paths(&sections[0])[5], "c1/f0.rs");
    assert_eq!(sections[1].title, "Section 2");
    assert_eq!(paths(&sections[1]), vec!["c2/f0.rs"]);
    assert_eq!(sections[1].files_shown, 1);
    assert_eq!(messages(&sections[1]), vec!["Commit 2", "Commit 3"]);
}

#[test]
fn a_large_commit_stands_alone() {
    let sections = build_sections(&analyzed(&[Some(3), Some(20), Some(0), Some(2)]));
    assert_eq!(sections.len(), 3);
    assert_eq!(messages(&sections[0]), vec!["Commit 0"]);
    assert_eq!(messages(&sections[1]), vec!["Commit 1"]);
    assert_eq!(sections[1].files_shown, 20);
    assert_eq!(messages(&sections[2]), vec!["Commit 2", "Commit 3"]);
    assert_eq!(sections[2].files_shown, 2);
    let first = build_sections(&analyzed(&[Some(25), Some(1)]));
    assert_eq!(first.len(), 2);
    assert_eq!(first[0].files_shown, 25);
}

#[test]
fn unreadable_commits_are_left_out() {
    let sections = build_sections(&analyzed(&[None, Some(4), None, Some(4)]));
    assert_eq!(sections.len(), 1);
    assert_eq!(messages(&sections[0]), vec!["Commit 1", "Commit 3"]);
    assert_eq!(sections[0].files_shown, 8);
    assert!(build_sections(&analyzed(&[None, None])).is_empty());
    assert!(build_sections(&Vec::new()).is_empty());
}

#[test]
fn at_most_ten_sections_are_kept() {
    let counts: Vec<Option<usize>> = (0..13).map(|_| Some(11)).collect();
    let sections = build_sections(&analyzed(&counts));
    assert_eq!(sections.len(), 10);
    for (k, s) in sections.iter().enumerate() {
        assert_eq!(s.title, format!("Section {}", k + 1));
        assert_eq!(messages(s), vec![format!("Commit {}", k)]);
    }
}

#[test]
fn sections_partition_the_history_in_order() {
    let counts = [Some(1), Some(9), Some(1), None, Some(0), Some(10), Some(4), Some(7), Some(0)];
    let sections = build_sections(&analyzed(&counts));
    let mut all: Vec<String> = Vec::new();
    for s in &sections {
        assert!(!s.commits.is_empty());
        all.extend(messages(s));
    }
    let expected: Vec<String> =
        counts.iter().enumerate().filter(|(_, c)| c.is_some()).map(|(i, _)| format!("Commit {}", i)).collect();
    assert_eq!(all, expected);
    for w in sections.windows(2) {
        let idx: usize = w[1].commits[0].message["Commit ".len()..].parse().unwrap();
        assert!(w[0].files_shown + counts[idx].unwrap() > 10);
    }
}
