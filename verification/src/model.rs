//! The records that the repository analysis produces: commits, the files
//! that a commit changed, and what is known of the repository as a whole.
use vstd::prelude::*;
use crate::language::{collect_languages, detect_language, language_of_path, strictly_sorted, entry_language, TreeEntryInfo};
use crate::path::{file_name, file_name_of};
use crate::text::{count_lines, line_count, trim, trimmed, views};
use crate::dates::{utc_date, utc_date_of};

verus! {

/// The status of a file in a diff, one variant for each of `git2::Delta`'s.
#[derive(Debug, Clone, Copy, PartialEq, Eq, Structural)]
pub enum DeltaStatus {
    Unmodified,
    Added,
    Deleted,
    Modified,
    Renamed,
    Copied,
    Ignored,
    Untracked,
    Typechange,
    Unreadable,
    Conflicted,
}

/// How a commit changed a file, as the tutorial tells it.
#[derive(Debug, Clone, Copy, PartialEq, Eq, Structural)]
pub enum ChangeType {
    Added,
    Modified,
    Deleted,
    Renamed,
}

/// The change type that a diff status is told as: copied and untracked files
/// count as added, deleted and renamed ones as such, everything else as modified.
pub open spec fn change_type_of(delta: DeltaStatus) -> ChangeType {
    match delta {
        DeltaStatus::Added => ChangeType::Added,
        DeltaStatus::Modified => ChangeType::Modified,
        DeltaStatus::Deleted => ChangeType::Deleted,
        DeltaStatus::Renamed => ChangeType::Renamed,
        DeltaStatus::Copied => ChangeType::Added,
        DeltaStatus::Ignored => ChangeType::Modified,
        DeltaStatus::Untracked => ChangeType::Added,
        DeltaStatus::Typechange => ChangeType::Modified,
        DeltaStatus::Unreadable => ChangeType::Modified,
        DeltaStatus::Conflicted => ChangeType::Modified,
        DeltaStatus::Unmodified => ChangeType::Modified,
    }
}

impl ChangeType {
    /// The change type for a diff status.
    pub fn from_delta(delta: DeltaStatus) -> (r: ChangeType)
        ensures
            r == change_type_of(delta),
    {
        match delta {
            DeltaStatus::Added => ChangeType::Added,
            DeltaStatus::Modified => ChangeType::Modified,
            DeltaStatus::Deleted => ChangeType::Deleted,
            DeltaStatus::Renamed => ChangeType::Renamed,
            DeltaStatus::Copied => ChangeType::Added,
            DeltaStatus::Ignored => ChangeType::Modified,
            DeltaStatus::Untracked => ChangeType::Added,
            DeltaStatus::Typechange => ChangeType::Modified,
            DeltaStatus::Unreadable => ChangeType::Modified,
            DeltaStatus::Conflicted => ChangeType::Modified,
            DeltaStatus::Unmodified => ChangeType::Modified,
        }
    }
}

/// A file that a commit changed.
#[derive(Debug, Clone)]
pub struct FileChange {
    pub path: String,
    pub change_type: ChangeType,
    pub language: Option<String>,
}

/// The text of an optional path, the empty text where there is none.
pub open spec fn text_or_empty(s: Option<&str>) -> Seq<char> {
    match s {
        Some(t) => t@,
        None => Seq::empty(),
    }
}

impl FileChange {
    /// The record of one entry of a commit's diff: `path` as it is shown,
    /// `utf8_path` the same path where it is valid UTF-8 (the language is
    /// judged from it, and from the empty path where there is none).
    pub fn from_diff(path: String, utf8_path: Option<&str>, status: DeltaStatus) -> (r: FileChange)
        ensures
            r.path@ == path@,
            r.change_type == change_type_of(status),
            match r.language {
                Some(l) => language_of_path(text_or_empty(utf8_path)) == Some(l@),
                None => language_of_path(text_or_empty(utf8_path)) is None,
            },
    {
        let change_type = ChangeType::from_delta(status);
        let language = match utf8_path {
            Some(p) => match detect_language(p) {
                Some(l) => Some(String::from_str(l)),
                None => None,
            },
            None => {
                assert(file_name_of(Seq::<char>::empty()) is None);
                None
            },
        };
        FileChange { path, change_type, language }
    }

    /// Whether the file was added or modified, the changes whose contents the
    /// tutorial looks at.
    pub fn needs_content(&self) -> (r: bool)
        ensures
            r == shows_content(*self),
    {
        match self.change_type {
            ChangeType::Added => true,
            ChangeType::Modified => true,
            _ => false,
        }
    }
}

/// Whether a change is one whose contents the tutorial looks at.
pub open spec fn shows_content(f: FileChange) -> bool {
    f.change_type == ChangeType::Added || f.change_type == ChangeType::Modified
}

/// The longest file, in lines, that the tutorial still shows.
pub const MAX_SHOWN_LINES: usize = 200;

/// A file whose contents the tutorial shows: its path, its language and its text.
#[derive(Debug, Clone)]
pub struct ShownFile {
    pub path: String,
    pub language: Option<String>,
    pub content: String,
}

impl ShownFile {
    /// A copy of this file.
    pub fn duplicate(&self) -> (r: ShownFile)
        ensures
            r == *self,
    {
        let language = match &self.language {
            Some(l) => Some(l.clone()),
            None => None,
        };
        ShownFile { path: self.path.clone(), language, content: self.content.clone() }
    }
}

/// Whether a changed file, with the contents read for it (`None` where they
/// were not read or are not UTF-8), is shown: it was added or modified and
/// its text has at most `MAX_SHOWN_LINES` lines.
pub open spec fn is_shown(f: FileChange, content: Option<String>) -> bool {
    shows_content(f) && content is Some && line_count(content->0@) <= MAX_SHOWN_LINES
}

/// The files that the tutorial shows, in the order of the diff.
pub open spec fn shown_files_of(files: Seq<FileChange>, contents: Seq<Option<String>>) -> Seq<ShownFile>
    decreases files.len(),
{
    if files.len() == 0 {
        Seq::empty()
    } else {
        let rest = shown_files_of(files.drop_last(), contents.drop_last());
        let f = files.last();
        if is_shown(f, contents.last()) {
            rest.push(ShownFile { path: f.path, language: f.language, content: contents.last()->0 })
        } else {
            rest
        }
    }
}

/// A single changed file is shown exactly when it was added or modified and
/// its contents were read and have at most `MAX_SHOWN_LINES` lines; it is then
/// shown with its path, its language and those contents. Deleted, renamed,
/// copied and every other kind of change are never shown, and only added and
/// modified files have their contents read.
pub proof fn law_added_and_modified_files_are_shown(f: FileChange, content: Option<String>)
    ensures
        shows_content(f) <==> (f.change_type == ChangeType::Added || f.change_type
            == ChangeType::Modified),
        shown_files_of(seq![f], seq![content]) == (if (f.change_type == ChangeType::Added
            || f.change_type == ChangeType::Modified) && content is Some && line_count(
            content->0@,
        ) <= MAX_SHOWN_LINES {
            seq![(ShownFile { path: f.path, language: f.language, content: content->0 })]
        } else {
            Seq::<ShownFile>::empty()
        }),
{
    assert(seq![f].drop_last() =~= Seq::<FileChange>::empty());
    assert(seq![content].drop_last() =~= Seq::<Option<String>>::empty());
    assert(seq![f].last() == f);
    assert(seq![content].last() == content);
    assert(shown_files_of(Seq::<FileChange>::empty(), Seq::<Option<String>>::empty())
        == Seq::<ShownFile>::empty());
    assert(Seq::<ShownFile>::empty().push(
        ShownFile { path: f.path, language: f.language, content: content->0 },
    ) =~= seq![(ShownFile { path: f.path, language: f.language, content: content->0 })]);
}

/// The files of two runs of a diff, one after the other, are shown as those
/// of the first run followed by those of the second: each file is judged on
/// its own and the diff's order is kept.
pub proof fn law_shown_files_keep_diff_order(
    files1: Seq<FileChange>,
    contents1: Seq<Option<String>>,
    files2: Seq<FileChange>,
    contents2: Seq<Option<String>>,
)
    requires
        files1.len() == contents1.len(),
        files2.len() == contents2.len(),
    ensures
        shown_files_of(files1 + files2, contents1 + contents2) == shown_files_of(files1, contents1)
            + shown_files_of(files2, contents2),
    decreases files2.len(),
{
    if files2.len() == 0 {
        assert(files1 + files2 =~= files1);
        assert(contents1 + contents2 =~= contents1);
        assert(shown_files_of(files1, contents1) + Seq::<ShownFile>::empty() =~= shown_files_of(
            files1,
            contents1,
        ));
    } else {
        law_shown_files_keep_diff_order(files1, contents1, files2.drop_last(), contents2.drop_last());
        assert((files1 + files2).drop_last() =~= files1 + files2.drop_last());
        assert((contents1 + contents2).drop_last() =~= contents1 + contents2.drop_last());
        assert((files1 + files2).last() == files2.last());
        assert((contents1 + contents2).last() == contents2.last());
        let a = shown_files_of(files1, contents1);
        let b = shown_files_of(files2.drop_last(), contents2.drop_last());
        let f = files2.last();
        let c = contents2.last();
        if is_shown(f, c) {
            let x = ShownFile { path: f.path, language: f.language, content: c->0 };
            assert((a + b).push(x) =~= a + b.push(x));
        }
    }
}

/// The files of a commit that the tutorial shows, given the contents read for
/// each changed file.
pub fn select_shown_files(files: &Vec<FileChange>, contents: &Vec<Option<String>>) -> (r: Vec<ShownFile>)
    requires
        files@.len() == contents@.len(),
    ensures
        r@ == shown_files_of(files@, contents@),
{
    let n = files.len();
    let mut r: Vec<ShownFile> = Vec::new();
    let mut i: usize = 0;
    while i < n
        invariant
            n == files@.len() == contents@.len(),
            i <= n,
            r@ == shown_files_of(files@.take(i as int), contents@.take(i as int)),
        decreases n - i,
    {
        assert(files@.take(i + 1).drop_last() =~= files@.take(i as int));
        assert(contents@.take(i + 1).drop_last() =~= contents@.take(i as int));
        assert(files@.take(i + 1).last() == files@[i as int]);
        assert(contents@.take(i + 1).last() == contents@[i as int]);
        let f = &files[i];
        if f.needs_content() {
            match &contents[i] {
                Some(text) => {
                    if count_lines(text.as_str()) <= MAX_SHOWN_LINES {
                        let language = match &f.language {
                            Some(l) => Some(l.clone()),
                            None => None,
                        };
                        r.push(ShownFile { path: f.path.clone(), language, content: text.clone() });
                    }
                },
                None => {},
            }
        }
        i = i + 1;
    }
    assert(files@.take(n as int) =~= files@);
    assert(contents@.take(n as int) =~= contents@);
    r
}

/// Whether the commit at position `index` of the history (newest first) is
/// among the `limit` that the tutorial reads.
pub fn keep_commit(index: usize, limit: usize) -> (r: bool)
    ensures
        r == (index < limit),
{
    index < limit
}

/// A commit of the history: its hash, its author's name, its date and its message.
#[derive(Debug, Clone)]
pub struct CommitSummary {
    pub hash: String,
    pub author: String,
    pub date: String,
    pub message: String,
}

/// The date a commit is shown with: its UTC calendar date, or "unknown date"
/// where its time cannot be represented.
pub open spec fn commit_date_text(seconds: i64) -> Seq<char> {
    match utc_date_of(seconds) {
        Some(d) => d,
        None => "unknown date"@,
    }
}

impl CommitSummary {
    /// The summary of a commit made `time_seconds` after the Unix epoch: the
    /// author is "Unknown" where the commit has no readable name, the date is
    /// the commit's UTC date, and the message is trimmed (empty where unreadable).
    pub fn from_commit(hash: String, author: Option<&str>, time_seconds: i64, message: Option<&str>) -> (r: CommitSummary)
        ensures
            r.hash@ == hash@,
            r.date@ == commit_date_text(time_seconds),
            r.author@ == match author {
                Some(a) => a@,
                None => "Unknown"@,
            },
            r.message@ == trimmed(text_or_empty(message)),
    {
        let author = match author {
            Some(a) => String::from_str(a),
            None => String::from_str("Unknown"),
        };
        let date = match utc_date(time_seconds) {
            Some(d) => d,
            None => String::from_str("unknown date"),
        };
        let message = match message {
            Some(m) => trim(m),
            None => trim(""),
        };
        proof {
            reveal_strlit("");
        }
        assert(text_or_empty(None) =~= ""@);
        CommitSummary { hash, author, date, message }
    }

    /// A copy of this summary.
    pub fn duplicate(&self) -> (r: CommitSummary)
        ensures
            r == *self,
    {
        CommitSummary {
            hash: self.hash.clone(),
            author: self.author.clone(),
            date: self.date.clone(),
            message: self.message.clone(),
        }
    }
}

/// What a commit changed: its trimmed message and its files.
#[derive(Debug)]
pub struct CommitDetails {
    pub message: String,
    pub files: Vec<FileChange>,
}

impl CommitDetails {
    /// The details of a commit whose message is `message` (`None` where
    /// unreadable, taken as empty) and whose diff gave `files`.
    pub fn new(message: Option<&str>, files: Vec<FileChange>) -> (r: CommitDetails)
        ensures
            r.message@ == trimmed(text_or_empty(message)),
            r.files@ == files@,
    {
        let message = match message {
            Some(m) => trim(m),
            None => trim(""),
        };
        proof {
            reveal_strlit("");
        }
        assert(text_or_empty(None) =~= ""@);
        CommitDetails { message, files }
    }
}

/// What the tutorial tells of the repository as a whole.
#[derive(Debug, Clone)]
pub struct RepoInfo {
    pub name: String,
    pub total_commits: usize,
    pub languages: Vec<String>,
}

impl RepoInfo {
    /// The repository at `path`, with `total_commits` commits reachable from
    /// its head and `entries` in its head's tree: named by the path's file
    /// name, with the languages of the entries sorted. `None` where the path
    /// has no file name.
    pub fn describe(path: &str, total_commits: usize, entries: &Vec<TreeEntryInfo>) -> (r: Option<RepoInfo>)
        ensures
            r is None <==> file_name_of(path@) is None,
            r matches Some(info) ==> {
                &&& file_name_of(path@) == Some(info.name@)
                &&& info.total_commits == total_commits
                &&& strictly_sorted(views(info.languages@))
                &&& forall|t: Seq<char>|
                    #![trigger views(info.languages@).contains(t)]
                    views(info.languages@).contains(t) <==> exists|k: int|
                        0 <= k < entries@.len() && entry_language(#[trigger] entries@[k]) == Some(t)
            },
    {
        let languages = collect_languages(entries);
        match file_name(path) {
            Some(name) => Some(RepoInfo { name, total_commits, languages }),
            None => None,
        }
    }
}

/// A commit of the history together with the files of it that the tutorial
/// shows; `None` where the commit's details could not be read, which leaves
/// the commit out of every section.
#[derive(Debug)]
pub struct AnalyzedCommit {
    pub commit: CommitSummary,
    pub shown: Option<Vec<ShownFile>>,
}

} // verus!
