//! The tutorial: how it is put together from the analyzed history, and its
//! Markdown and JSON-ready renderings.
use vstd::prelude::*;
use crate::model::{AnalyzedCommit, RepoInfo};
use crate::sections::{
    build_sections, concat_groups, files_of, grouped, included, section_is, sections_are,
    Section, SectionItem,
};
use crate::text::{decimal, decimal_string, first_line, first_line_of, join, joined, views};
use crate::model::{CommitSummary, ShownFile};
use vstd::utf8::{decode_utf8, encode_utf8, is_char_boundary};
use vstd::string::StringSliceAdditionalSpecFns;

verus! {

broadcast use vstd::utf8::encode_utf8_decode_utf8;

/// A tutorial on the history of a repository.
#[derive(Debug)]
pub struct Tutorial {
    pub title: String,
    pub description: String,
    pub repo_info: RepoInfo,
    pub sections: Vec<Section>,
    pub summary: String,
}

/// The default title of a tutorial on the repository `name`.
pub open spec fn title_text(name: Seq<char>) -> Seq<char> {
    "Building "@ + name + ": A Tutorial"@
}

/// The default description of a tutorial on the repository `name`.
pub open spec fn description_text(name: Seq<char>) -> Seq<char> {
    "Learning journey through the "@ + name + " codebase."@
}

/// The introduction's summary of a tutorial.
pub open spec fn summary_text(
    name: Seq<char>,
    commit_count: nat,
    section_count: nat,
    languages: Seq<Seq<char>>,
    shown: nat,
) -> Seq<char> {
    "Explore the development of **"@ + name + "** through "@ + decimal(commit_count)
        + " commits across "@ + decimal(section_count) + " sections. Primary languages: "@
        + joined(languages, ", "@) + ". "@ + decimal(shown) + " file changes highlighted."@
}

/// The shown files of all the sections together.
pub open spec fn sections_files(sections: Seq<Section>) -> nat
    decreases sections.len(),
{
    if sections.len() == 0 {
        0
    } else {
        sections_files(sections.drop_last()) + sections.last().files_shown as nat
    }
}

/// The shown files of all the groups together.
spec fn groups_files(groups: Seq<Seq<SectionItem>>) -> nat
    decreases groups.len(),
{
    if groups.len() == 0 {
        0
    } else {
        groups_files(groups.drop_last()) + files_of(groups.last())
    }
}

proof fn lemma_files_of_concat(
    a: Seq<SectionItem>,
    b: Seq<SectionItem>,
)
    ensures
        files_of(a + b) == files_of(a) + files_of(b),
    decreases b.len(),
{
    if b.len() == 0 {
        assert(a + b =~= a);
    } else {
        assert((a + b).drop_last() =~= a + b.drop_last());
        lemma_files_of_concat(a, b.drop_last());
    }
}

proof fn lemma_groups_files(groups: Seq<Seq<SectionItem>>, m: int)
    requires
        0 <= m <= groups.len(),
    ensures
        groups_files(groups.take(m)) <= groups_files(groups),
        groups_files(groups) == files_of(concat_groups(groups)),
    decreases groups.len(),
{
    if groups.len() > 0 {
        if m == groups.len() {
            assert(groups.take(m) =~= groups);
            lemma_groups_files(groups.drop_last(), m - 1);
        } else {
            assert(groups.drop_last().take(m) =~= groups.take(m));
            lemma_groups_files(groups.drop_last(), m);
        }
        lemma_files_of_concat(concat_groups(groups.drop_last()), groups.last());
    } else {
        assert(groups.take(m) =~= groups);
    }
}

proof fn lemma_sections_files(sections: Seq<Section>, groups: Seq<Seq<SectionItem>>)
    requires
        sections.len() <= groups.len(),
        forall|k: int| 0 <= k < sections.len() ==> (#[trigger] sections[k]).files_shown == files_of(groups[k]),
    ensures
        sections_files(sections) == groups_files(groups.take(sections.len() as int)),
    decreases sections.len(),
{
    if sections.len() > 0 {
        let m = sections.len() - 1;
        lemma_sections_files(sections.drop_last(), groups);
        assert(groups.take(sections.len() as int).drop_last() =~= groups.take(m));
        assert(sections.last() == sections[m]);
    }
}

fn shown_files_total(sections: &Vec<Section>) -> (r: usize)
    requires
        sections_files(sections@) <= usize::MAX,
    ensures
        r == sections_files(sections@),
{
    let mut total: usize = 0;
    let mut i: usize = 0;
    while i < sections.len()
        invariant
            i <= sections@.len(),
            sections_files(sections@) <= usize::MAX,
            total == sections_files(sections@.take(i as int)),
        decreases sections@.len() - i,
    {
        assert(sections@.take(i + 1).drop_last() =~= sections@.take(i as int));
        proof {
            lemma_sections_files_prefix(sections@, i + 1);
        }
        total = total + sections[i].files_shown;
        i = i + 1;
    }
    assert(sections@.take(i as int) =~= sections@);
    total
}

proof fn lemma_sections_files_prefix(sections: Seq<Section>, m: int)
    requires
        0 <= m <= sections.len(),
    ensures
        sections_files(sections.take(m)) <= sections_files(sections),
    decreases sections.len(),
{
    if m < sections.len() {
        assert(sections.drop_last().take(m) =~= sections.take(m));
        lemma_sections_files_prefix(sections.drop_last(), m);
    } else {
        assert(sections.take(m) =~= sections);
    }
}

/// A copy of a list of strings.
fn copy_strings(items: &Vec<String>) -> (r: Vec<String>)
    ensures
        r@ == items@,
{
    let mut r: Vec<String> = Vec::new();
    let mut i: usize = 0;
    while i < items.len()
        invariant
            i <= items@.len(),
            r@ == items@.take(i as int),
        decreases items@.len() - i,
    {
        r.push(items[i].clone());
        assert(r@ =~= items@.take(i + 1));
        i = i + 1;
    }
    assert(items@.take(i as int) =~= items@);
    r
}

impl Tutorial {
    /// The tutorial on a repository and its analyzed history (newest first):
    /// its sections are those that `build_sections` makes of the history, its
    /// title, description and summary name the repository, and the summary
    /// counts the history's commits, the sections, the languages and the files
    /// the sections show.
    pub fn generate(repo_info: RepoInfo, commits: &Vec<AnalyzedCommit>) -> (r: Tutorial)
        requires
            files_of(included(commits@)) <= usize::MAX,
        ensures
            r.repo_info == repo_info,
            sections_are(r.sections@, commits@),
            r.title@ == title_text(repo_info.name@),
            r.description@ == description_text(repo_info.name@),
            r.summary@ == summary_text(
                repo_info.name@,
                commits@.len(),
                r.sections@.len(),
                views(repo_info.languages@),
                sections_files(r.sections@),
            ),
    {
        let sections = build_sections(commits);
        proof {
            let groups = grouped(included(commits@));
            lemma_sections_files(sections@, groups);
            lemma_groups_files(groups, sections@.len() as int);
            crate::sections::law_sections_partition_history(commits@);
        }
        let shown = shown_files_total(&sections);
        let name = repo_info.name.as_str();
        let mut summary = String::from_str("Explore the development of **");
        summary.append(name);
        summary.append("** through ");
        summary.append(decimal_string(commits.len()).as_str());
        summary.append(" commits across ");
        summary.append(decimal_string(sections.len()).as_str());
        summary.append(" sections. Primary languages: ");
        summary.append(join(&repo_info.languages, ", ").as_str());
        summary.append(". ");
        summary.append(decimal_string(shown).as_str());
        summary.append(" file changes highlighted.");
        let mut title = String::from_str("Building ");
        title.append(name);
        title.append(": A Tutorial");
        let mut description = String::from_str("Learning journey through the ");
        description.append(name);
        description.append(" codebase.");
        Tutorial { title, description, repo_info, sections, summary }
    }
}

/// The first 8 bytes of a commit hash's UTF-8 text, as characters.
pub open spec fn short_hash(hash: Seq<char>) -> Seq<char> {
    decode_utf8(encode_utf8(hash).subrange(0, 8))
}

/// A hash whose first 8 bytes end on a character boundary, the hashes whose
/// short form can be taken (a commit id's 40 hex digits always can).
pub open spec fn has_short_hash(hash: Seq<char>) -> bool {
    is_char_boundary(encode_utf8(hash), 8)
}

/// Every section whose first commit's short hash the Markdown shows has one.
pub open spec fn markdown_ready(t: Tutorial) -> bool {
    forall|k: int|
        0 <= k < t.sections@.len() && (#[trigger] t.sections@[k]).commits@.len() > 0
            ==> has_short_hash(t.sections@[k].commits@[0].hash@)
}

/// The Prerequisites part of the Markdown: the tools a reader needs, the
/// toolchains of the repository's languages among them.
pub open spec fn markdown_prerequisites(languages: Seq<Seq<char>>) -> Seq<char> {
    "## Prerequisites\n\n"@ + "- Git, to clone the repository and follow its history\n"@
        + "- A text editor or IDE\n"@ + (if languages.len() > 0 {
        "- Tools for "@ + joined(languages, ", "@) + "\n"@
    } else {
        Seq::empty()
    }) + "\n"@
}

/// The header of the Markdown: the title, the description, and the
/// repository's name, languages and number of commits.
pub open spec fn markdown_metadata(t: Tutorial, title: Seq<char>, description: Seq<char>) -> Seq<char> {
    "# "@ + title + "\n\n"@ + "*"@ + description + "*\n\n"@ + "**Repository:** "@
        + t.repo_info.name@ + "\n"@ + "**Languages:** "@ + joined(
        views(t.repo_info.languages@),
        ", "@,
    ) + "\n"@ + "**Total commits:** "@ + decimal(t.repo_info.total_commits as nat) + "\n\n"@
}

/// The header of the Markdown, its Prerequisites and its introduction.
pub open spec fn markdown_head(t: Tutorial, title: Seq<char>, description: Seq<char>) -> Seq<char> {
    markdown_metadata(t, title, description) + markdown_prerequisites(views(t.repo_info.languages@))
        + "## Introduction\n\n"@ + t.summary@ + "\n\n"@
}

/// The language a shown file's code fence is labelled with: the file's
/// language, or "text" where it has none.
pub open spec fn fence_label(f: ShownFile) -> Seq<char> {
    match f.language {
        Some(l) => l@,
        None => "text"@,
    }
}

/// A shown file: its path, then its contents in a fence labelled with its language.
pub open spec fn code_block(f: ShownFile) -> Seq<char> {
    "#### `"@ + f.path@ + "`\n\n"@ + "```"@ + fence_label(f) + "\n"@ + f.content@ + "\n```\n\n"@
}

/// The code blocks of the files, in order.
pub open spec fn code_blocks(files: Seq<ShownFile>) -> Seq<char>
    decreases files.len(),
{
    if files.len() == 0 {
        Seq::empty()
    } else {
        code_blocks(files.drop_last()) + code_block(files.last())
    }
}

/// One takeaway per commit: the first line of its message.
pub open spec fn takeaway_lines(commits: Seq<CommitSummary>) -> Seq<char>
    decreases commits.len(),
{
    if commits.len() == 0 {
        Seq::empty()
    } else {
        takeaway_lines(commits.drop_last()) + "- "@ + first_line(commits.last().message@) + "\n"@
    }
}

/// The opening of a section's Markdown: its heading and the commit it starts with.
pub open spec fn section_opening(k: nat, s: Section) -> Seq<char> {
    let heading = "## "@ + decimal(k + 1) + ": "@ + s.title@ + "\n\n"@;
    let start = if s.commits@.len() > 0 {
        let first = s.commits@[0];
        "Starting with commit `"@ + short_hash(first.hash@) + "` by **"@ + first.author@ + "**: \""@
            + first.message@ + "\"\n\n"@
    } else {
        Seq::empty()
    };
    heading + start
}

/// The code part of a section's Markdown: the code of the files it shows, or
/// a note that it shows none.
pub open spec fn section_code(s: Section) -> Seq<char> {
    let code = if s.files@.len() > 0 {
        code_blocks(s.files@)
    } else {
        "No file in this section is short enough to show.\n\n"@
    };
    "### Code Changes\n\n"@
        + "This section shows key file modifications that evolved the codebase.\n\n"@ + code
}

/// The key takeaways of a section: each commit's first message line, then
/// how many files it shows across how many commits.
pub open spec fn section_takeaways(s: Section) -> Seq<char> {
    "### Key Takeaways\n\n"@ + takeaway_lines(s.commits@) + "- "@ + decimal(s.files_shown as nat)
        + " file changes shown across "@ + decimal(s.commits@.len()) + " commits\n\n"@
}

/// The part of the Markdown for the section at index `k`: its opening, its
/// code and its key takeaways.
pub open spec fn markdown_section(k: nat, s: Section) -> Seq<char> {
    section_opening(k, s) + section_code(s) + section_takeaways(s)
}

/// The parts of the Markdown for the sections, in order.
pub open spec fn markdown_sections(sections: Seq<Section>) -> Seq<char>
    decreases sections.len(),
{
    if sections.len() == 0 {
        Seq::empty()
    } else {
        markdown_sections(sections.drop_last()) + markdown_section(
            (sections.len() - 1) as nat,
            sections.last(),
        )
    }
}

/// The conclusion of the Markdown.
pub open spec fn markdown_conclusion(name: Seq<char>) -> Seq<char> {
    "## Conclusion\n\n"@ + "You've now explored **"@ + name + "**'s development journey.\n\n"@
        + "### Next Steps\n\n"@ + "- Clone the repository: `git clone <repository-url>`\n"@
        + "- Build and run the project locally\n"@ + "- Study the architecture and patterns\n"@
        + "- Experiment with modifications\n"@
}

/// The whole Markdown of a tutorial under the given title and description.
pub open spec fn markdown_of(t: Tutorial, title: Seq<char>, description: Seq<char>) -> Seq<char> {
    markdown_head(t, title, description) + markdown_sections(t.sections@) + markdown_conclusion(
        t.repo_info.name@,
    )
}

/// The text of an option, or `default` where there is none.
pub open spec fn text_or(s: Option<&str>, default: Seq<char>) -> Seq<char> {
    match s {
        Some(t) => t@,
        None => default,
    }
}

/// Appends the code blocks of `files` to `md`.
fn append_code_blocks(md: &mut String, files: &Vec<ShownFile>)
    ensures
        final(md)@ == old(md)@ + code_blocks(files@),
{
    let ghost start = md@;
    let mut i: usize = 0;
    assert(files@.take(0) =~= Seq::<ShownFile>::empty());
    assert(start + Seq::<char>::empty() =~= start);
    while i < files.len()
        invariant
            i <= files@.len(),
            md@ == start + code_blocks(files@.take(i as int)),
        decreases files@.len() - i,
    {
        let f = &files[i];
        let ghost before = md@;
        md.append("#### `");
        md.append(f.path.as_str());
        md.append("`\n\n");
        md.append("```");
        match &f.language {
            Some(l) => md.append(l.as_str()),
            None => md.append("text"),
        }
        md.append("\n");
        md.append(f.content.as_str());
        md.append("\n```\n\n");
        assert(md@ =~= before + code_block(*f));
        assert(files@.take(i + 1).drop_last() =~= files@.take(i as int));
        assert(files@.take(i + 1).last() == *f);
        assert(md@ =~= start + code_blocks(files@.take(i + 1)));
        i = i + 1;
    }
    assert(files@.take(i as int) =~= files@);
}

/// Appends the takeaway lines of `commits` to `md`.
fn append_takeaways(md: &mut String, commits: &Vec<CommitSummary>)
    ensures
        final(md)@ == old(md)@ + takeaway_lines(commits@),
{
    let ghost start = md@;
    let mut i: usize = 0;
    assert(commits@.take(0) =~= Seq::<CommitSummary>::empty());
    assert(start + Seq::<char>::empty() =~= start);
    while i < commits.len()
        invariant
            i <= commits@.len(),
            md@ == start + takeaway_lines(commits@.take(i as int)),
        decreases commits@.len() - i,
    {
        let ghost before = md@;
        md.append("- ");
        md.append(first_line_of(commits[i].message.as_str()).as_str());
        md.append("\n");
        assert(commits@.take(i + 1).drop_last() =~= commits@.take(i as int));
        assert(commits@.take(i + 1).last() == commits@[i as int]);
        assert(md@ =~= start + takeaway_lines(commits@.take(i + 1)));
        i = i + 1;
    }
    assert(commits@.take(i as int) =~= commits@);
}

/// Appends the opening of the section at index `k` to `md`.
fn append_section_opening(md: &mut String, k: usize, section: &Section)
    requires
        k < usize::MAX,
        section.commits@.len() > 0 ==> has_short_hash(section.commits@[0].hash@),
    ensures
        final(md)@ == old(md)@ + section_opening(k as nat, *section),
{
    let ghost before = md@;
    md.append("## ");
    md.append(decimal_string(k + 1).as_str());
    md.append(": ");
    md.append(section.title.as_str());
    md.append("\n\n");
    let ghost heading = "## "@ + decimal((k + 1) as nat) + ": "@ + section.title@ + "\n\n"@;
    assert(md@ =~= before + heading);
    let ghost mid = md@;
    if !section.commits.is_empty() {
        let first = &section.commits[0];
        let (short, _) = first.hash.as_str().split_at(8);
        assert(short@ == short_hash(first.hash@)) by {
            assert(encode_utf8(short@) == short.spec_bytes());
        }
        md.append("Starting with commit `");
        md.append(short);
        md.append("` by **");
        md.append(first.author.as_str());
        md.append("**: \"");
        md.append(first.message.as_str());
        md.append("\"\n\n");
    }
    let ghost start = if section.commits@.len() > 0 {
        let first = section.commits@[0];
        "Starting with commit `"@ + short_hash(first.hash@) + "` by **"@ + first.author@ + "**: \""@
            + first.message@ + "\"\n\n"@
    } else {
        Seq::<char>::empty()
    };
    assert(md@ =~= mid + start);
    assert(md@ =~= before + section_opening(k as nat, *section));
}

/// Appends the code part of a section to `md`.
fn append_section_code(md: &mut String, section: &Section)
    ensures
        final(md)@ == old(md)@ + section_code(*section),
{
    let ghost before = md@;
    md.append("### Code Changes\n\n");
    md.append("This section shows key file modifications that evolved the codebase.\n\n");
    let ghost intro = md@;
    if section.files.len() > 0 {
        append_code_blocks(md, &section.files);
    } else {
        md.append("No file in this section is short enough to show.\n\n");
    }
    let ghost code = if section.files@.len() > 0 {
        code_blocks(section.files@)
    } else {
        "No file in this section is short enough to show.\n\n"@
    };
    assert(md@ == intro + code);
    assert(md@ =~= before + section_code(*section));
}

/// Appends the key takeaways of a section to `md`.
fn append_section_takeaways(md: &mut String, section: &Section)
    ensures
        final(md)@ == old(md)@ + section_takeaways(*section),
{
    let ghost before = md@;
    md.append("### Key Takeaways\n\n");
    append_takeaways(md, &section.commits);
    md.append("- ");
    md.append(decimal_string(section.files_shown).as_str());
    md.append(" file changes shown across ");
    md.append(decimal_string(section.commits.len()).as_str());
    md.append(" commits\n\n");
    assert(md@ =~= before + section_takeaways(*section));
}

/// Appends the Markdown of the section at index `k` to `md`.
fn append_section_markdown(md: &mut String, k: usize, section: &Section)
    requires
        k < usize::MAX,
        section.commits@.len() > 0 ==> has_short_hash(section.commits@[0].hash@),
    ensures
        final(md)@ == old(md)@ + markdown_section(k as nat, *section),
{
    let ghost before = md@;
    append_section_opening(md, k, section);
    append_section_code(md, section);
    append_section_takeaways(md, section);
    assert(md@ =~= before + markdown_section(k as nat, *section));
}

/// Appends the Prerequisites part of the Markdown for these languages.
fn append_prerequisites(md: &mut String, languages: &Vec<String>)
    ensures
        final(md)@ == old(md)@ + markdown_prerequisites(views(languages@)),
{
    let ghost before = md@;
    md.append("## Prerequisites\n\n");
    md.append("- Git, to clone the repository and follow its history\n");
    md.append("- A text editor or IDE\n");
    let ghost listed = md@;
    if languages.len() > 0 {
        md.append("- Tools for ");
        md.append(join(languages, ", ").as_str());
        md.append("\n");
    }
    let ghost tools = if views(languages@).len() > 0 {
        "- Tools for "@ + joined(views(languages@), ", "@) + "\n"@
    } else {
        Seq::<char>::empty()
    };
    assert(md@ =~= listed + tools);
    md.append("\n");
    assert(md@ =~= before + markdown_prerequisites(views(languages@)));
}

/// Appends the conclusion of the Markdown for the repository `name`.
fn append_conclusion(md: &mut String, name: &str)
    ensures
        final(md)@ == old(md)@ + markdown_conclusion(name@),
{
    let ghost before = md@;
    md.append("## Conclusion\n\n");
    md.append("You've now explored **");
    md.append(name);
    md.append("**'s development journey.\n\n");
    md.append("### Next Steps\n\n");
    md.append("- Clone the repository: `git clone <repository-url>`\n");
    md.append("- Build and run the project locally\n");
    md.append("- Study the architecture and patterns\n");
    md.append("- Experiment with modifications\n");
    assert(md@ =~= before + markdown_conclusion(name@));
}

impl Tutorial {
    /// The header and introduction of the Markdown.
    fn markdown_head(&self, title: &str, description: &str) -> (r: String)
        ensures
            r@ == markdown_head(*self, title@, description@),
    {
        let mut md = String::new();
        md.append("# ");
        md.append(title);
        md.append("\n\n");
        md.append("*");
        md.append(description);
        md.append("*\n\n");
        md.append("**Repository:** ");
        md.append(self.repo_info.name.as_str());
        md.append("\n");
        md.append("**Languages:** ");
        md.append(join(&self.repo_info.languages, ", ").as_str());
        md.append("\n");
        md.append("**Total commits:** ");
        md.append(decimal_string(self.repo_info.total_commits).as_str());
        md.append("\n\n");
        append_prerequisites(&mut md, &self.repo_info.languages);
        md.append("## Introduction\n\n");
        md.append(self.summary.as_str());
        md.append("\n\n");
        assert(md@ =~= markdown_head(*self, title@, description@));
        md
    }

    /// The tutorial in Markdown, under `custom_title` and `custom_desc` where
    /// they are given and under its own title and description otherwise.
    pub fn to_markdown(&self, custom_title: Option<&str>, custom_desc: Option<&str>) -> (r: String)
        requires
            markdown_ready(*self),
        ensures
            r@ == markdown_of(
                *self,
                text_or(custom_title, self.title@),
                text_or(custom_desc, self.description@),
            ),
    {
        let title = match custom_title {
            Some(t) => t,
            None => self.title.as_str(),
        };
        let description = match custom_desc {
            Some(d) => d,
            None => self.description.as_str(),
        };
        let mut md = self.markdown_head(title, description);
        let ghost head = md@;
        let n = self.sections.len();
        let mut i: usize = 0;
        assert(self.sections@.take(0) =~= Seq::<Section>::empty());
        while i < n
            invariant
                n == self.sections@.len(),
                i <= n,
                markdown_ready(*self),
                md@ == head + markdown_sections(self.sections@.take(i as int)),
            decreases n - i,
        {
            let section = &self.sections[i];
            let ghost before = md@;
            append_section_markdown(&mut md, i, section);
            assert(self.sections@[i as int].commits@.len() > 0 ==> has_short_hash(
                self.sections@[i as int].commits@[0].hash@,
            ));
            assert(self.sections@.take(i + 1).drop_last() =~= self.sections@.take(i as int));
            assert(self.sections@.take(i + 1).last() == *section);
            assert(md@ =~= before + markdown_section(i as nat, *section));
            assert(md@ =~= head + markdown_sections(self.sections@.take(i + 1)));
            i = i + 1;
        }
        assert(self.sections@.take(n as int) =~= self.sections@);
        let ghost body = md@;
        append_conclusion(&mut md, self.repo_info.name.as_str());
        assert(md@ == body + markdown_conclusion(self.repo_info.name@));
        assert(md@ =~= markdown_of(*self, title@, description@));
        md
    }
}

/// A section as the JSON output lists it.
#[derive(Debug)]
pub struct SectionRecord {
    pub title: String,
    pub commit_count: usize,
    pub files_shown: usize,
}

/// The fields of a tutorial that its JSON output holds.
#[derive(Debug)]
pub struct TutorialRecord {
    pub title: String,
    pub description: String,
    pub repository: String,
    pub total_commits: usize,
    pub languages: Vec<String>,
    pub sections: Vec<SectionRecord>,
    pub summary: String,
}

impl Tutorial {
    /// The record that the JSON output of the tutorial serializes: its title,
    /// description, repository name, commit count, languages and summary, and
    /// for each section its title, number of commits and shown files.
    pub fn to_record(&self) -> (r: TutorialRecord)
        ensures
            r.title@ == self.title@,
            r.description@ == self.description@,
            r.repository@ == self.repo_info.name@,
            r.total_commits == self.repo_info.total_commits,
            r.languages@ == self.repo_info.languages@,
            r.summary@ == self.summary@,
            r.sections@.len() == self.sections@.len(),
            forall|k: int|
                0 <= k < r.sections@.len() ==> {
                    &&& (#[trigger] r.sections@[k]).title@ == self.sections@[k].title@
                    &&& r.sections@[k].commit_count == self.sections@[k].commits@.len()
                    &&& r.sections@[k].files_shown == self.sections@[k].files_shown
                },
    {
        let mut sections: Vec<SectionRecord> = Vec::new();
        let n = self.sections.len();
        let mut i: usize = 0;
        while i < n
            invariant
                n == self.sections@.len(),
                i <= n,
                sections@.len() == i,
                forall|k: int|
                    0 <= k < i ==> {
                        &&& (#[trigger] sections@[k]).title@ == self.sections@[k].title@
                        &&& sections@[k].commit_count == self.sections@[k].commits@.len()
                        &&& sections@[k].files_shown == self.sections@[k].files_shown
                    },
            decreases n - i,
        {
            let s = &self.sections[i];
            sections.push(
                SectionRecord {
                    title: s.title.clone(),
                    commit_count: s.commits.len(),
                    files_shown: s.files_shown,
                },
            );
            i = i + 1;
        }
        TutorialRecord {
            title: self.title.clone(),
            description: self.description.clone(),
            repository: self.repo_info.name.clone(),
            total_commits: self.repo_info.total_commits,
            languages: copy_strings(&self.repo_info.languages),
            sections,
            summary: self.summary.clone(),
        }
    }
}

// ---------------------------------------------------------------------------
// What the tutorial keeps of the history
// ---------------------------------------------------------------------------

/// The commits of the sections, one section after the other.
pub open spec fn section_commits(sections: Seq<Section>) -> Seq<crate::model::CommitSummary>
    decreases sections.len(),
{
    if sections.len() == 0 {
        Seq::empty()
    } else {
        section_commits(sections.drop_last()) + sections.last().commits@
    }
}

proof fn lemma_commits_of_concat(
    a: Seq<SectionItem>,
    b: Seq<SectionItem>,
)
    ensures
        crate::sections::commits_of(a + b) == crate::sections::commits_of(a)
            + crate::sections::commits_of(b),
{
    assert(crate::sections::commits_of(a + b) =~= crate::sections::commits_of(a)
        + crate::sections::commits_of(b));
}

proof fn lemma_section_commits(
    sections: Seq<Section>,
    groups: Seq<Seq<SectionItem>>,
)
    requires
        sections.len() <= groups.len(),
        forall|k: int|
            0 <= k < sections.len() ==> (#[trigger] sections[k]).commits@
                == crate::sections::commits_of(groups[k]),
    ensures
        section_commits(sections) == crate::sections::commits_of(
            concat_groups(groups.take(sections.len() as int)),
        ),
        concat_groups(groups) == concat_groups(groups.take(sections.len() as int)) + concat_groups(
            groups.skip(sections.len() as int),
        ),
    decreases groups.len(),
{
    let m = sections.len() as int;
    if m == groups.len() {
        assert(groups.take(m) =~= groups);
        assert(groups.skip(m) =~= Seq::<Seq<SectionItem>>::empty());
        assert(concat_groups(groups) + Seq::empty() =~= concat_groups(groups));
        if m > 0 {
            lemma_section_commits(sections.drop_last(), groups.drop_last());
            assert(groups.drop_last().take(m - 1) =~= groups.drop_last());
            assert(sections.last() == sections[m - 1]);
            lemma_commits_of_concat(concat_groups(groups.drop_last()), groups.last());
        } else {
            assert(crate::sections::commits_of(Seq::empty()) =~= Seq::<crate::model::CommitSummary>::empty());
        }
    } else {
        lemma_section_commits(sections, groups.drop_last());
        assert(groups.drop_last().take(m) =~= groups.take(m));
        assert(groups.skip(m).drop_last() =~= groups.drop_last().skip(m));
        assert(groups.skip(m).last() == groups.last());
        assert(concat_groups(groups) =~= concat_groups(groups.take(m)) + concat_groups(
            groups.skip(m),
        ));
    }
}

/// The tutorial walks through the history in order: its sections' commits,
/// one section after the other, are the first commits of the history whose
/// details were read, with none skipped, repeated or reordered; when the
/// history fills no more than `MAX_SECTIONS` sections, they are all of them.
pub proof fn law_sections_follow_history(sections: Seq<Section>, entries: Seq<AnalyzedCommit>)
    requires
        sections_are(sections, entries),
    ensures
        section_commits(sections).len() <= crate::sections::commits_of(included(entries)).len(),
        crate::sections::commits_of(included(entries)).take(section_commits(sections).len() as int)
            == section_commits(sections),
        grouped(included(entries)).len() <= crate::sections::MAX_SECTIONS ==> section_commits(
            sections,
        ) == crate::sections::commits_of(included(entries)),
{
    let groups = grouped(included(entries));
    crate::sections::law_sections_partition_history(entries);
    assert forall|k: int| 0 <= k < sections.len() implies (#[trigger] sections[k]).commits@
        == crate::sections::commits_of(groups[k]) by {
        assert(section_is(sections[k], k as nat, groups[k]));
    }
    lemma_section_commits(sections, groups);
    let m = sections.len() as int;
    lemma_commits_of_concat(concat_groups(groups.take(m)), concat_groups(groups.skip(m)));
    let front = crate::sections::commits_of(concat_groups(groups.take(m)));
    assert(crate::sections::commits_of(included(entries)).take(front.len() as int) =~= front);
    if groups.len() <= crate::sections::MAX_SECTIONS {
        assert(groups.take(m) =~= groups);
    }
}

/// A tutorial's Markdown begins with a level-one heading of the title it is
/// given.
pub proof fn law_markdown_opens_with_title(t: Tutorial, title: Seq<char>, description: Seq<char>)
    ensures
        markdown_of(t, title, description).take(title.len() + 2int) == "# "@ + title,
{
    reveal_strlit("# ");
    let md = markdown_of(t, title, description);
    let prefix = "# "@ + title;
    assert(md =~= prefix + md.skip(prefix.len() as int));
    assert(md.take(prefix.len() as int) =~= prefix);
}

/// Right after the header's metadata the Markdown lists the prerequisites,
/// under a `## Prerequisites` heading, and the introduction follows them.
pub proof fn law_prerequisites_follow_metadata(t: Tutorial, title: Seq<char>, description: Seq<char>)
    ensures
        ({
            let md = markdown_of(t, title, description);
            let meta = markdown_metadata(t, title, description);
            let pre = markdown_prerequisites(views(t.repo_info.languages@));
            let a = meta.len() as int;
            let b = a + pre.len();
            &&& md.subrange(0, a) == meta
            &&& md.subrange(a, b) == pre
            &&& pre.take(18) == "## Prerequisites\n\n"@
            &&& md.subrange(b, b + 17) == "## Introduction\n\n"@
        }),
{
    reveal_strlit("## Prerequisites\n\n");
    reveal_strlit("## Introduction\n\n");
    let md = markdown_of(t, title, description);
    let meta = markdown_metadata(t, title, description);
    let pre = markdown_prerequisites(views(t.repo_info.languages@));
    let intro = "## Introduction\n\n"@;
    let front = meta + pre + intro;
    let head = markdown_head(t, title, description);
    let a = meta.len() as int;
    let b = a + pre.len();
    assert(intro.len() == 17);
    assert(head.subrange(0, front.len() as int) =~= front);
    assert(md.subrange(0, front.len() as int) =~= front) by {
        assert(md.subrange(0, head.len() as int) =~= head);
    }
    assert(md.subrange(0, a) =~= meta) by {
        assert(front.subrange(0, a) =~= meta);
    }
    assert(md.subrange(a, b) =~= pre) by {
        assert(front.subrange(a, b) =~= pre);
    }
    assert(md.subrange(b, b + 17) =~= intro) by {
        assert(front.subrange(b, b + 17) =~= intro);
    }
    let heading = "## Prerequisites\n\n"@;
    assert(pre =~= heading + pre.skip(18));
    assert(pre.take(18) =~= heading);
}

/// The header counts the repository's commits, not those the tutorial read:
/// the line `**Total commits:** N`, with N the repository's total, closes the
/// metadata, right before the `## Prerequisites` heading.
pub proof fn law_header_counts_repository_commits(t: Tutorial, title: Seq<char>, description: Seq<char>)
    ensures
        ({
            let md = markdown_of(t, title, description);
            let line = "**Total commits:** "@ + decimal(t.repo_info.total_commits as nat) + "\n\n"@;
            let a = markdown_metadata(t, title, description).len() as int;
            &&& line.len() <= a
            &&& a + 18 <= md.len()
            &&& md.subrange(a - line.len(), a) == line
            &&& md.subrange(a, a + 18) == "## Prerequisites\n\n"@
        }),
{
    law_prerequisites_follow_metadata(t, title, description);
    let md = markdown_of(t, title, description);
    let meta = markdown_metadata(t, title, description);
    let pre = markdown_prerequisites(views(t.repo_info.languages@));
    let line = "**Total commits:** "@ + decimal(t.repo_info.total_commits as nat) + "\n\n"@;
    let q = "# "@ + title + "\n\n"@ + "*"@ + description + "*\n\n"@ + "**Repository:** "@
        + t.repo_info.name@ + "\n"@ + "**Languages:** "@ + joined(views(t.repo_info.languages@), ", "@)
        + "\n"@;
    let a = meta.len() as int;
    let b = a + pre.len();
    assert(meta =~= q + line);
    assert(meta.subrange(a - line.len(), a) =~= line);
    assert(md.subrange(a - line.len(), a) =~= md.subrange(0, a).subrange(a - line.len(), a));
    reveal_strlit("## Prerequisites\n\n");
    assert(pre.len() >= 18);
    assert(md.subrange(a, a + 18) =~= md.subrange(a, b).take(18));
}

/// The header depends on the repository alone: two tutorials on the same
/// repository, whatever sections and summary they hold, open with the same
/// metadata (title, description, name, languages and total commits).
pub proof fn law_header_ignores_sections(
    t1: Tutorial,
    t2: Tutorial,
    title: Seq<char>,
    description: Seq<char>,
)
    requires
        t1.repo_info == t2.repo_info,
    ensures
        ({
            let a = markdown_metadata(t1, title, description).len() as int;
            markdown_of(t1, title, description).subrange(0, a) == markdown_of(t2, title, description).subrange(0, a)
        }),
{
    law_prerequisites_follow_metadata(t1, title, description);
    law_prerequisites_follow_metadata(t2, title, description);
    assert(markdown_metadata(t1, title, description) == markdown_metadata(t2, title, description));
}

/// The sections' Markdown follows the order of the sections: adding a section
/// at the end adds its part, numbered after all the others, at the end.
pub proof fn law_sections_render_in_order(sections: Seq<Section>, s: Section)
    ensures
        markdown_sections(sections.push(s)) == markdown_sections(sections) + markdown_section(
            sections.len(),
            s,
        ),
{
    assert(sections.push(s).drop_last() =~= sections);
    assert(sections.push(s).last() == s);
}

/// The part of the `k`-th section (counting from 0) opens with the heading
/// `## k+1: title`.
pub proof fn law_section_opens_with_numbered_heading(k: nat, s: Section)
    ensures
        ({
            let h = "## "@ + decimal(k + 1) + ": "@ + s.title@ + "\n\n"@;
            let part = markdown_section(k, s);
            &&& h.len() <= part.len()
            &&& part.subrange(0, h.len() as int) == h
        }),
{
    let h = "## "@ + decimal(k + 1) + ": "@ + s.title@ + "\n\n"@;
    let part = markdown_section(k, s);
    let rest = section_opening(k, s).skip(h.len() as int) + section_code(s) + section_takeaways(s);
    assert(section_opening(k, s).take(h.len() as int) =~= h);
    assert(part =~= h + rest);
    assert(part.subrange(0, h.len() as int) =~= h);
}

/// The summary ends by naming all the repository's languages, joined by
/// ", ", and then the number of files shown.
pub proof fn law_summary_names_every_language(
    name: Seq<char>,
    commit_count: nat,
    section_count: nat,
    languages: Seq<Seq<char>>,
    shown: nat,
)
    ensures
        ({
            let sm = summary_text(name, commit_count, section_count, languages, shown);
            let tail = "Primary languages: "@ + joined(languages, ", "@) + ". "@ + decimal(shown)
                + " file changes highlighted."@;
            &&& tail.len() <= sm.len()
            &&& sm.subrange(sm.len() - tail.len(), sm.len() as int) == tail
        }),
{
    reveal_strlit(" sections. Primary languages: ");
    reveal_strlit(" sections. ");
    reveal_strlit("Primary languages: ");
    let sm = summary_text(name, commit_count, section_count, languages, shown);
    let tail = "Primary languages: "@ + joined(languages, ", "@) + ". "@ + decimal(shown)
        + " file changes highlighted."@;
    let q = "Explore the development of **"@ + name + "** through "@ + decimal(commit_count)
        + " commits across "@ + decimal(section_count) + " sections. "@;
    assert(" sections. Primary languages: "@ =~= " sections. "@ + "Primary languages: "@);
    assert(sm =~= q + tail);
    assert(sm.subrange(q.len() as int, sm.len() as int) =~= tail);
}

/// Where the repository has languages, the last item of the Prerequisites
/// names the tools of all of them, joined by ", ".
pub proof fn law_prerequisites_name_every_language(languages: Seq<Seq<char>>)
    requires
        languages.len() > 0,
    ensures
        ({
            let pre = markdown_prerequisites(languages);
            let tools = "- Tools for "@ + joined(languages, ", "@) + "\n"@;
            &&& tools.len() + 1 <= pre.len()
            &&& pre.subrange(pre.len() - tools.len() - 1, pre.len() - 1) == tools
        }),
{
    let pre = markdown_prerequisites(languages);
    let tools = "- Tools for "@ + joined(languages, ", "@) + "\n"@;
    let q = "## Prerequisites\n\n"@ + "- Git, to clone the repository and follow its history\n"@
        + "- A text editor or IDE\n"@;
    reveal_strlit("\n");
    assert(pre =~= q + tools + "\n"@);
    assert(pre.subrange(q.len() as int, pre.len() - 1) =~= tools);
}

} // verus!
