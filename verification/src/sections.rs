//! Grouping the history's commits into the tutorial's sections.
use vstd::prelude::*;
use crate::model::{AnalyzedCommit, CommitSummary, ShownFile};
use crate::text::{decimal, decimal_string};

verus! {

/// A section's commits stop growing once another commit would take its shown
/// files past this number.
pub const SECTION_FILE_LIMIT: usize = 10;

/// The tutorial keeps at most this many sections.
pub const MAX_SECTIONS: usize = 10;

/// A section of the tutorial: a run of consecutive commits, with the files
/// of theirs that it shows.
#[derive(Debug)]
pub struct Section {
    pub title: String,
    pub commits: Vec<CommitSummary>,
    pub files_shown: usize,
    pub files: Vec<ShownFile>,
}

/// A commit that a section may take, with the files of it that are shown.
pub type SectionItem = (CommitSummary, Seq<ShownFile>);

/// The commits whose details could be read, in order, each with the number of
/// its files that the tutorial shows.
pub open spec fn included(entries: Seq<AnalyzedCommit>) -> Seq<SectionItem>
    decreases entries.len(),
{
    if entries.len() == 0 {
        Seq::empty()
    } else {
        let rest = included(entries.drop_last());
        match entries.last().shown {
            Some(files) => rest.push((entries.last().commit, files@)),
            None => rest,
        }
    }
}

/// The number of shown files over a run of commits.
pub open spec fn files_of(items: Seq<SectionItem>) -> nat
    decreases items.len(),
{
    if items.len() == 0 {
        0
    } else {
        files_of(items.drop_last()) + items.last().1.len()
    }
}

/// The commits of a run, without their counts.
pub open spec fn commits_of(items: Seq<SectionItem>) -> Seq<CommitSummary> {
    items.map_values(|x: SectionItem| x.0)
}

/// The sections that the commits fall into, taking them in order: a commit
/// opens a new section when the current one is not empty and its shown files
/// together with the commit's would exceed `SECTION_FILE_LIMIT`; otherwise it
/// joins the current section.
pub open spec fn grouped(items: Seq<SectionItem>) -> Seq<Seq<SectionItem>>
    decreases items.len(),
{
    if items.len() == 0 {
        Seq::empty()
    } else {
        let groups = grouped(items.drop_last());
        let item = items.last();
        if groups.len() == 0 {
            seq![seq![item]]
        } else if files_of(groups.last()) + item.1.len() > SECTION_FILE_LIMIT {
            groups.push(seq![item])
        } else {
            groups.update(groups.len() - 1, groups.last().push(item))
        }
    }
}

/// The groups one after the other.
pub open spec fn concat_groups(groups: Seq<Seq<SectionItem>>) -> Seq<SectionItem>
    decreases groups.len(),
{
    if groups.len() == 0 {
        Seq::empty()
    } else {
        concat_groups(groups.drop_last()) + groups.last()
    }
}

/// The shown files of a run, one commit's after the other's.
pub open spec fn files_in(items: Seq<SectionItem>) -> Seq<ShownFile>
    decreases items.len(),
{
    if items.len() == 0 {
        Seq::empty()
    } else {
        files_in(items.drop_last()) + items.last().1
    }
}

/// The title of the section at index `k`: "Section 1", "Section 2", ...
pub open spec fn section_title(k: nat) -> Seq<char> {
    "Section "@ + decimal(k + 1)
}

/// `s` is the section at index `k`, made of the run `group`.
pub open spec fn section_is(s: Section, k: nat, group: Seq<SectionItem>) -> bool {
    &&& s.title@ == section_title(k)
    &&& s.commits@ == commits_of(group)
    &&& s.files_shown == files_of(group)
    &&& s.files@ == files_in(group)
}

/// The sections that `build_sections` makes of the analyzed history: the
/// first `MAX_SECTIONS` groups.
pub open spec fn sections_are(r: Seq<Section>, entries: Seq<AnalyzedCommit>) -> bool {
    let groups = grouped(included(entries));
    &&& r.len() == if groups.len() <= MAX_SECTIONS {
        groups.len()
    } else {
        MAX_SECTIONS as nat
    }
    &&& forall|k: int| 0 <= k < r.len() ==> section_is(#[trigger] r[k], k as nat, groups[k])
}

proof fn lemma_files_of_push(items: Seq<SectionItem>, item: SectionItem)
    ensures
        files_of(items.push(item)) == files_of(items) + item.1.len(),
        files_in(items.push(item)) == files_in(items) + item.1,
{
    assert(items.push(item).drop_last() =~= items);
}

proof fn lemma_included_len(entries: Seq<AnalyzedCommit>)
    ensures
        included(entries).len() <= entries.len(),
    decreases entries.len(),
{
    if entries.len() > 0 {
        lemma_included_len(entries.drop_last());
    }
}

proof fn lemma_included_total_grows(entries: Seq<AnalyzedCommit>, i: int)
    requires
        0 <= i <= entries.len(),
    ensures
        files_of(included(entries.take(i))) <= files_of(included(entries)),
    decreases entries.len(),
{
    if i < entries.len() {
        assert(entries.drop_last().take(i) =~= entries.take(i));
        lemma_included_total_grows(entries.drop_last(), i);
        match entries.last().shown {
            Some(files) => {
                lemma_files_of_push(
                    included(entries.drop_last()),
                    (entries.last().commit, files@),
                );
            },
            None => {},
        }
    } else {
        assert(entries.take(i) =~= entries);
    }
}

/// The last group's files never exceed the files of all the items.
proof fn lemma_grouped_shape(items: Seq<SectionItem>)
    ensures
        grouped(items).len() <= items.len(),
        items.len() > 0 ==> grouped(items).len() > 0,
        grouped(items).len() > 0 ==> files_of(grouped(items).last()) <= files_of(items),
    decreases items.len(),
{
    if items.len() > 0 {
        let rest = items.drop_last();
        lemma_grouped_shape(rest);
        let groups = grouped(rest);
        let item = items.last();
        if groups.len() == 0 {
            lemma_files_of_push(Seq::empty(), item);
            assert(seq![item] =~= Seq::<SectionItem>::empty().push(item));
        } else if files_of(groups.last()) + item.1.len() > SECTION_FILE_LIMIT {
            lemma_files_of_push(Seq::empty(), item);
            assert(seq![item] =~= Seq::<SectionItem>::empty().push(item));
        } else {
            lemma_files_of_push(groups.last(), item);
        }
    }
}

/// Appends copies of `src`'s files to `dst`.
fn append_copies(dst: &mut Vec<ShownFile>, src: &Vec<ShownFile>)
    ensures
        final(dst)@ == old(dst)@ + src@,
{
    let ghost start = dst@;
    let mut i: usize = 0;
    while i < src.len()
        invariant
            i <= src@.len(),
            dst@ == start + src@.take(i as int),
        decreases src@.len() - i,
    {
        dst.push(src[i].duplicate());
        assert(start + src@.take(i + 1) =~= (start + src@.take(i as int)).push(src@[i as int]));
        i = i + 1;
    }
    assert(src@.take(i as int) =~= src@);
}

/// The state of `build_sections` after some of the commits: the closed
/// sections, the commits of the open one and its shown files, against the
/// groups of those commits.
spec fn progress_is(
    sections: Seq<Section>,
    current: Seq<CommitSummary>,
    current_files: nat,
    current_shown: Seq<ShownFile>,
    groups: Seq<Seq<SectionItem>>,
) -> bool {
    &&& (current.len() == 0 <==> groups.len() == 0)
    &&& groups.len() == 0 ==> sections.len() == 0 && current_files == 0 && current_shown.len() == 0
    &&& groups.len() > 0 ==> {
        &&& sections.len() == groups.len() - 1
        &&& current == commits_of(groups.last())
        &&& current_files == files_of(groups.last())
        &&& current_shown == files_in(groups.last())
    }
    &&& forall|k: int| 0 <= k < sections.len() ==> section_is(#[trigger] sections[k], k as nat, groups[k])
}

/// Builds the sections of the tutorial from the analyzed history: the
/// commits whose details were read, grouped in order as `grouped` says, each
/// group titled by its position; at most `MAX_SECTIONS` of them are kept.
pub fn build_sections(entries: &Vec<AnalyzedCommit>) -> (r: Vec<Section>)
    requires
        files_of(included(entries@)) <= usize::MAX,
    ensures
        sections_are(r@, entries@),
{
    let n = entries.len();
    let mut sections: Vec<Section> = Vec::new();
    let mut current: Vec<CommitSummary> = Vec::new();
    let mut current_files: usize = 0;
    let mut current_shown: Vec<ShownFile> = Vec::new();
    let mut i: usize = 0;
    assert(entries@.take(0) =~= Seq::<AnalyzedCommit>::empty());
    while i < n
        invariant
            n == entries@.len(),
            i <= n,
            files_of(included(entries@)) <= usize::MAX,
            progress_is(
                sections@,
                current@,
                current_files as nat,
                current_shown@,
                grouped(included(entries@.take(i as int))),
            ),
        decreases n - i,
    {
        let ghost before = included(entries@.take(i as int));
        let ghost groups = grouped(before);
        assert(entries@.take(i + 1).drop_last() =~= entries@.take(i as int));
        assert(entries@.take(i + 1).last() == entries@[i as int]);
        proof {
            lemma_included_len(entries@.take(i as int));
            lemma_grouped_shape(before);
            lemma_included_total_grows(entries@, i + 1);
        }
        match &entries[i].shown {
            None => {
                assert(included(entries@.take(i + 1)) == before);
            },
            Some(shown) => {
                let count = shown.len();
                let ghost item = (entries@[i as int].commit, shown@);
                let ghost after = before.push(item);
                assert(included(entries@.take(i + 1)) == after);
                assert(after.drop_last() =~= before);
                assert(after.last() == item);
                proof {
                    lemma_files_of_push(before, item);
                    lemma_grouped_shape(after);
                    lemma_files_of_push(Seq::empty(), item);
                    assert(seq![item] =~= Seq::<SectionItem>::empty().push(item));
                }
                let ghost now = grouped(after);
                let commit = entries[i].commit.duplicate();
                if current.len() > 0 && (count > SECTION_FILE_LIMIT || current_files
                    > SECTION_FILE_LIMIT - count) {
                    assert(now == groups.push(seq![item]));
                    let number = sections.len() + 1;
                    let mut title = String::from_str("Section ");
                    title.append(decimal_string(number).as_str());
                    let ghost old_sections = sections@;
                    let mut closed: Vec<CommitSummary> = Vec::new();
                    std::mem::swap(&mut closed, &mut current);
                    let mut closed_shown: Vec<ShownFile> = Vec::new();
                    std::mem::swap(&mut closed_shown, &mut current_shown);
                    sections.push(
                        Section {
                            title,
                            commits: closed,
                            files_shown: current_files,
                            files: closed_shown,
                        },
                    );
                    current.push(commit);
                    current_files = count;
                    append_copies(&mut current_shown, shown);
                    assert(current@ =~= commits_of(now.last()));
                    assert(current_shown@ =~= files_in(now.last())) by {
                        lemma_files_of_push(Seq::empty(), item);
                    }
                    assert forall|k: int| 0 <= k < sections@.len() implies section_is(
                        #[trigger] sections@[k],
                        k as nat,
                        now[k],
                    ) by {
                        if k < sections@.len() - 1 {
                            assert(sections@[k] == old_sections[k]);
                        }
                    }
                    assert(progress_is(
                        sections@,
                        current@,
                        current_files as nat,
                        current_shown@,
                        now,
                    ));
                } else {
                    proof {
                        if groups.len() > 0 {
                            assert(now == groups.update(
                                groups.len() - 1,
                                groups.last().push(item),
                            ));
                            assert(now.last() == groups.last().push(item));
                            lemma_files_of_push(groups.last(), item);
                        } else {
                            assert(now == seq![seq![item]]);
                        }
                        assert(current_files + count == files_of(now.last()));
                    }
                    current.push(commit);
                    current_files = current_files + count;
                    append_copies(&mut current_shown, shown);
                    proof {
                        assert(current@ =~= commits_of(now.last()));
                        if groups.len() == 0 {
                            assert(current_shown@ =~= files_in(now.last()));
                        }
                        assert forall|k: int| 0 <= k < sections@.len() implies section_is(
                            #[trigger] sections@[k],
                            k as nat,
                            now[k],
                        ) by {
                            assert(now[k] == groups[k]);
                        }
                    }
                    assert(progress_is(
                        sections@,
                        current@,
                        current_files as nat,
                        current_shown@,
                        now,
                    ));
                }
            },
        }
        i = i + 1;
    }
    assert(entries@.take(n as int) =~= entries@);
    let ghost groups = grouped(included(entries@));
    if current.len() > 0 {
        proof {
            lemma_included_len(entries@);
            lemma_grouped_shape(included(entries@));
        }
        let number = sections.len() + 1;
        let mut title = String::from_str("Section ");
        title.append(decimal_string(number).as_str());
        let ghost old_sections = sections@;
        sections.push(
            Section { title, commits: current, files_shown: current_files, files: current_shown },
        );
        assert forall|k: int| 0 <= k < sections@.len() implies section_is(
            #[trigger] sections@[k],
            k as nat,
            groups[k],
        ) by {
            if k < sections@.len() - 1 {
                assert(sections@[k] == old_sections[k]);
            }
        }
    }
    let ghost full = sections@;
    sections.truncate(MAX_SECTIONS);
    assert forall|k: int| 0 <= k < sections@.len() implies section_is(
        #[trigger] sections@[k],
        k as nat,
        groups[k],
    ) by {
        assert(sections@[k] == full[k]);
    }
    sections
}

// ---------------------------------------------------------------------------
// What the grouping keeps
// ---------------------------------------------------------------------------

/// Everything that holds of the groups of any run of commits.
proof fn lemma_grouping(items: Seq<SectionItem>)
    ensures
        concat_groups(grouped(items)) == items,
        forall|k: int| 0 <= k < grouped(items).len() ==> (#[trigger] grouped(items)[k]).len() > 0,
        forall|k: int|
            0 <= k < grouped(items).len() && files_of(#[trigger] grouped(items)[k])
                > SECTION_FILE_LIMIT ==> grouped(items)[k].len() == 1,
        forall|k: int|
            0 <= k < grouped(items).len() - 1 ==> files_of(#[trigger] grouped(items)[k])
                + grouped(items)[k + 1][0].1.len() > SECTION_FILE_LIMIT,
        forall|k: int, j: int|
            0 <= k < grouped(items).len() && 0 < j < grouped(items)[k].len() ==> files_of(
                #[trigger] grouped(items)[k].take(j),
            ) + grouped(items)[k][j].1.len() <= SECTION_FILE_LIMIT,
    decreases items.len(),
{
    let gs = grouped(items);
    if items.len() == 0 {
        assert(concat_groups(gs) =~= items);
        return;
    }
    let rest = items.drop_last();
    let item = items.last();
    let old_gs = grouped(rest);
    lemma_grouping(rest);
    lemma_grouped_shape(rest);
    lemma_files_of_push(Seq::empty(), item);
    assert(seq![item] =~= Seq::<SectionItem>::empty().push(item));
    assert(items =~= rest.push(item));
    if old_gs.len() == 0 {
        assert(rest.len() == 0);
        assert(gs == seq![seq![item]]);
        assert(gs.drop_last() =~= Seq::<Seq<SectionItem>>::empty());
        assert(concat_groups(gs) =~= items);
        assert forall|k: int, j: int|
            0 <= k < gs.len() && 0 < j < gs[k].len() implies files_of(
            #[trigger] gs[k].take(j),
        ) + gs[k][j].1.len() <= SECTION_FILE_LIMIT by {}
    } else if files_of(old_gs.last()) + item.1.len() > SECTION_FILE_LIMIT {
        assert(gs == old_gs.push(seq![item]));
        assert(gs.drop_last() =~= old_gs);
        assert(concat_groups(gs) =~= items);
        assert forall|k: int|
            0 <= k < gs.len() - 1 implies files_of(#[trigger] gs[k]) + gs[k + 1][0].1.len()
            > SECTION_FILE_LIMIT by {
            if k < old_gs.len() - 1 {
                assert(gs[k] == old_gs[k]);
                assert(gs[k + 1] == old_gs[k + 1]);
            }
        }
        assert forall|k: int, j: int|
            0 <= k < gs.len() && 0 < j < gs[k].len() implies files_of(
            #[trigger] gs[k].take(j),
        ) + gs[k][j].1.len() <= SECTION_FILE_LIMIT by {
            assert(k < old_gs.len());
            assert(gs[k] == old_gs[k]);
        }
        assert forall|k: int|
            0 <= k < gs.len() && files_of(#[trigger] gs[k]) > SECTION_FILE_LIMIT implies gs[k].len()
            == 1 by {
            if k < old_gs.len() {
                assert(gs[k] == old_gs[k]);
            }
        }
    } else {
        let last = old_gs.last();
        let l = old_gs.len() - 1;
        assert(gs == old_gs.update(l, last.push(item)));
        lemma_files_of_push(last, item);
        assert(gs.drop_last() =~= old_gs.drop_last());
        assert(concat_groups(old_gs) == concat_groups(old_gs.drop_last()) + last);
        assert(concat_groups(gs) =~= items);
        assert forall|k: int|
            0 <= k < gs.len() - 1 implies files_of(#[trigger] gs[k]) + gs[k + 1][0].1.len()
            > SECTION_FILE_LIMIT by {
            assert(gs[k] == old_gs[k]);
            if k + 1 == l {
                assert(gs[k + 1][0] == last[0]);
            } else {
                assert(gs[k + 1] == old_gs[k + 1]);
            }
        }
        assert forall|k: int, j: int|
            0 <= k < gs.len() && 0 < j < gs[k].len() implies files_of(
            #[trigger] gs[k].take(j),
        ) + gs[k][j].1.len() <= SECTION_FILE_LIMIT by {
            if k < l {
                assert(gs[k] == old_gs[k]);
            } else if j < last.len() {
                assert(gs[k].take(j) =~= last.take(j));
                assert(gs[k][j] == last[j]);
            } else {
                assert(gs[k].take(j) =~= last);
                assert(gs[k][j] == item);
            }
        }
        assert forall|k: int|
            0 <= k < gs.len() && files_of(#[trigger] gs[k]) > SECTION_FILE_LIMIT implies gs[k].len()
            == 1 by {
            if k < l {
                assert(gs[k] == old_gs[k]);
            }
        }
        assert forall|k: int| 0 <= k < gs.len() implies (#[trigger] gs[k]).len() > 0 by {
            if k < l {
                assert(gs[k] == old_gs[k]);
            }
        }
    }
}

/// Sections keep the commits in order: the sections' runs, one after the
/// other, are exactly the commits whose details were read, in the order of
/// the history.
pub proof fn law_sections_partition_history(entries: Seq<AnalyzedCommit>)
    ensures
        concat_groups(grouped(included(entries))) == included(entries),
{
    lemma_grouping(included(entries));
}

/// No section is empty.
pub proof fn law_sections_not_empty(entries: Seq<AnalyzedCommit>)
    ensures
        forall|k: int|
            0 <= k < grouped(included(entries)).len() ==> (#[trigger] grouped(
                included(entries),
            )[k]).len() > 0,
{
    lemma_grouping(included(entries));
}

/// A section shows more than `SECTION_FILE_LIMIT` files only when it is made
/// of a single commit.
pub proof fn law_large_section_is_single_commit(entries: Seq<AnalyzedCommit>)
    ensures
        forall|k: int|
            0 <= k < grouped(included(entries)).len() && files_of(
                #[trigger] grouped(included(entries))[k],
            ) > SECTION_FILE_LIMIT ==> grouped(included(entries))[k].len() == 1,
{
    lemma_grouping(included(entries));
}

/// A section ends only where it must: its commits fitted within
/// `SECTION_FILE_LIMIT` as each of them joined it, and the first commit of
/// the next section would have taken it past the limit.
pub proof fn law_sections_split_only_when_full(entries: Seq<AnalyzedCommit>)
    ensures
        forall|k: int|
            0 <= k < grouped(included(entries)).len() - 1 ==> files_of(
                #[trigger] grouped(included(entries))[k],
            ) + grouped(included(entries))[k + 1][0].1.len() > SECTION_FILE_LIMIT,
        forall|k: int, j: int|
            0 <= k < grouped(included(entries)).len() && 0 < j < grouped(
                included(entries),
            )[k].len() ==> files_of(#[trigger] grouped(included(entries))[k].take(j)) + grouped(
                included(entries),
            )[k][j].1.len() <= SECTION_FILE_LIMIT,
{
    lemma_grouping(included(entries));
}

} // verus!
