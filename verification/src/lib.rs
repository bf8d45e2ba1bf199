//! Turns the history of a git repository into a step-by-step tutorial: the
//! commits are grouped into sections, the repository's languages are
//! recognised from file extensions, and the result is rendered as Markdown or
//! handed over for JSON output.
pub mod dates;
pub mod format;
mod git_modes;
pub mod language;
pub mod model;
pub mod path;
pub mod sections;
pub mod text;
pub mod tutorial;

pub use format::{parse_output_format, OutputFormat};
pub use language::{collect_languages, detect_language, TreeEntryInfo};
pub use model::{
    keep_commit, select_shown_files, AnalyzedCommit, ChangeType, CommitDetails, CommitSummary, DeltaStatus,
    FileChange, RepoInfo, ShownFile,
};
pub use sections::{build_sections, Section};
pub use tutorial::{SectionRecord, Tutorial, TutorialRecord};
