//! What holds of the patterns found in the history of a repository.

use vstd::prelude::*;
use vstd::string::*;

use crate::find;
use crate::git;
use crate::git::FindingKind;
use crate::numbers;
use crate::sort;
use crate::table::Table;
use crate::text;

verus! {

// ---------------------------------------------------------------------------
// Findings by commit and kind
// ---------------------------------------------------------------------------

/// The findings of a kind at a commit.
pub open spec fn of_kind(findings: Seq<git::FindingView>, commit: nat, kind: FindingKind) -> Seq<
    git::FindingView,
> {
    findings.filter(|f: git::FindingView| f.commit == commit && f.kind == kind)
}

/// Whether every finding is of one kind and at one commit.
spec fn uniform(findings: Seq<git::FindingView>, commit: nat, kind: FindingKind) -> bool {
    forall|i: int|
        0 <= i < findings.len() ==> (#[trigger] findings[i]).commit == commit && findings[i].kind
            == kind
}

proof fn lemma_uniform(
    findings: Seq<git::FindingView>,
    commit: nat,
    kind: FindingKind,
    asked_commit: nat,
    asked: FindingKind,
)
    requires
        uniform(findings, commit, kind),
    ensures
        of_kind(findings, asked_commit, asked) == (if asked_commit == commit && asked == kind {
            findings
        } else {
            seq![]
        }),
    decreases findings.len(),
{
    reveal(Seq::filter);
    if findings.len() > 0 {
        let rest = findings.drop_last();
        assert forall|i: int| 0 <= i < rest.len() implies (#[trigger] rest[i]).commit == commit
            && rest[i].kind == kind by {
            assert(rest[i] == findings[i]);
        }
        lemma_uniform(rest, commit, kind, asked_commit, asked);
        assert(findings[findings.len() - 1].kind == kind);
        assert(rest.push(findings.last()) =~= findings);
    } else {
        assert(of_kind(findings, asked_commit, asked) =~= seq![]);
    }
}

/// The findings of an explicit revert at a commit.
spec fn reverts_at(commits: Seq<git::CommitView>, index: int) -> Seq<git::FindingView> {
    if git::is_revert(commits[index]) {
        seq![git::revert_finding(commits[index], index as nat)]
    } else {
        seq![]
    }
}

spec fn fixes_at(commits: Seq<git::CommitView>, index: int) -> Seq<git::FindingView> {
    git::corrections(
        commits,
        index as nat,
        git::removed_lines(commits[index]),
        index + 1,
        0,
    )
}

proof fn lemma_corrections_uniform(
    commits: Seq<git::CommitView>,
    index: nat,
    removed: Seq<Seq<char>>,
    from: int,
    count: nat,
)
    ensures
        uniform(
            git::corrections(commits, index, removed, from, count),
            index,
            FindingKind::Correction,
        ),
        removed.len() == 0 ==> git::corrections(commits, index, removed, from, count).len() == 0,
    decreases commits.len() - from,
{
    if !(from < 0 || from >= commits.len() || count >= git::MAX_CORRECTIONS_PER_COMMIT) {
        lemma_corrections_uniform(commits, index, removed, from + 1, count + 1);
        lemma_corrections_uniform(commits, index, removed, from + 1, count);
        let matched = git::shared(removed, git::added_lines(commits[from]));
        lemma_shared(removed, git::added_lines(commits[from]));
        if removed.len() == 0 {
            assert(git::strength(matched) == 0);
        }
    }
}

proof fn lemma_at(commits: Seq<git::CommitView>, soa_added: Table<String>, index: int)
    requires
        0 <= index < commits.len(),
    ensures
        git::findings_at(commits, soa_added, index) == reverts_at(commits, index) + fixes_at(
            commits,
            index,
        ) + git::revision(index as nat, git::removed_lines(commits[index]), soa_added),
{
    let removed = git::removed_lines(commits[index]);
    lemma_corrections_uniform(commits, index as nat, removed, index + 1, 0);
    if removed.len() == 0 {
        assert(git::written(removed, soa_added) =~= seq![]);
        assert(reverts_at(commits, index) + fixes_at(commits, index) + git::revision(
            index as nat,
            removed,
            soa_added,
        ) =~= reverts_at(commits, index));
    }
}

proof fn lemma_kinds_at(
    commits: Seq<git::CommitView>,
    soa_added: Table<String>,
    index: int,
    commit: nat,
    kind: FindingKind,
)
    requires
        0 <= index < commits.len(),
    ensures
        of_kind(git::findings_at(commits, soa_added, index), commit, kind) == (if commit != index {
            seq![]
        } else {
            match kind {
                FindingKind::Revert => reverts_at(commits, index),
                FindingKind::Correction => fixes_at(commits, index),
                FindingKind::SoaChangeRevised => git::revision(
                    index as nat,
                    git::removed_lines(commits[index]),
                    soa_added,
                ),
            }
        }),
{
    let removed = git::removed_lines(commits[index]);
    let a = reverts_at(commits, index);
    let b = fixes_at(commits, index);
    let c = git::revision(index as nat, removed, soa_added);
    let asked = |f: git::FindingView| f.commit == commit && f.kind == kind;
    lemma_at(commits, soa_added, index);
    lemma_corrections_uniform(commits, index as nat, removed, index + 1, 0);
    lemma_uniform(a, index as nat, FindingKind::Revert, commit, kind);
    lemma_uniform(b, index as nat, FindingKind::Correction, commit, kind);
    lemma_uniform(c, index as nat, FindingKind::SoaChangeRevised, commit, kind);
    Seq::filter_distributes_over_add(a, b, asked);
    Seq::filter_distributes_over_add(a + b, c, asked);
    assert((a + b + c).filter(asked) =~= a.filter(asked) + b.filter(asked) + c.filter(asked));
    assert(seq![] + b + seq![] =~= b);
    assert(a + seq![] + seq![] =~= a);
    assert(seq![] + seq![] + c =~= c);
    assert(Seq::<git::FindingView>::empty() + seq![] + seq![] =~= seq![]);
}

proof fn lemma_kinds_upto(
    commits: Seq<git::CommitView>,
    soa_added: Table<String>,
    n: int,
    commit: int,
    kind: FindingKind,
)
    requires
        0 <= n <= commits.len(),
        0 <= commit < commits.len(),
    ensures
        of_kind(git::findings_upto(commits, soa_added, n), commit as nat, kind) == (if commit < n {
            of_kind(git::findings_at(commits, soa_added, commit), commit as nat, kind)
        } else {
            seq![]
        }),
    decreases n,
{
    let asked = |f: git::FindingView| f.commit == commit as nat && f.kind == kind;
    if n > 0 {
        let before = git::findings_upto(commits, soa_added, n - 1);
        let here = git::findings_at(commits, soa_added, n - 1);
        lemma_kinds_upto(commits, soa_added, n - 1, commit, kind);
        lemma_kinds_at(commits, soa_added, n - 1, commit as nat, kind);
        Seq::filter_distributes_over_add(before, here, asked);
        assert(before.filter(asked) + here.filter(asked) =~= if commit < n - 1 {
            before.filter(asked)
        } else {
            here.filter(asked)
        });
    } else {
        reveal(Seq::filter);
        assert(of_kind(git::findings_upto(commits, soa_added, n), commit as nat, kind) =~= seq![]);
    }
}

// ---------------------------------------------------------------------------
// Reverts
// ---------------------------------------------------------------------------

/// A commit is reported as a revert exactly once where its subject begins with
/// `Revert ` or its body says somewhere that it reverts a commit, and not at
/// all where neither holds.
pub proof fn law_every_revert_is_found_once(
    commits: Seq<git::CommitView>,
    soa_added: Table<String>,
    index: int,
)
    requires
        0 <= index < commits.len(),
    ensures
        ({
            let c = commits[index];
            let says_so = (c.subject.len() >= "Revert "@.len() && c.subject.take(
                "Revert "@.len() as int,
            ) == "Revert "@) || (exists|j: int|
                0 <= j <= c.body.len() - "This reverts commit"@.len() && #[trigger] c.body.subrange(
                    j,
                    j + "This reverts commit"@.len(),
                ) == "This reverts commit"@);
            of_kind(
                git::findings_upto(commits, soa_added, commits.len() as int),
                index as nat,
                FindingKind::Revert,
            ) == (if says_so {
                seq![
                    git::FindingView {
                        commit: index as nat,
                        kind: FindingKind::Revert,
                        detail: "explicitly reverts earlier work: "@ + c.subject,
                    },
                ]
            } else {
                seq![]
            })
        }),
{
    lemma_kinds_upto(commits, soa_added, commits.len() as int, index, FindingKind::Revert);
    lemma_kinds_at(commits, soa_added, index, index as nat, FindingKind::Revert);
    let c = commits[index];
    let pattern = "This reverts commit"@;
    find::lemma_find(c.body, pattern, 0);
    assert(find::contains_spec(c.body, pattern) == exists|j: int|
        0 <= j <= c.body.len() - pattern.len() && #[trigger] c.body.subrange(j, j + pattern.len())
            == pattern) by {
        if find::contains_spec(c.body, pattern) {
            let j = find::find_spec(c.body, pattern, 0)->0;
            assert(find::occurs_at(c.body, pattern, j));
            assert(c.body.subrange(j, j + pattern.len()) == pattern);
        }
        if exists|j: int|
            0 <= j <= c.body.len() - pattern.len() && #[trigger] c.body.subrange(
                j,
                j + pattern.len(),
            ) == pattern {
            let j = choose|j: int|
                0 <= j <= c.body.len() - pattern.len() && #[trigger] c.body.subrange(
                    j,
                    j + pattern.len(),
                ) == pattern;
            assert(find::occurs_at(c.body, pattern, j));
        }
    }
}

// ---------------------------------------------------------------------------
// Lines
// ---------------------------------------------------------------------------

/// Whether a patch has a distinctive line behind a sign: one of its lines
/// begins with the sign but not with three of them, and what follows is, bare
/// of white space around it, the line; it has twelve characters at least, and
/// a letter or a digit among them.
pub open spec fn patch_has(diff: Seq<char>, sign: char, line: Seq<char>) -> bool {
    &&& line.len() >= 12
    &&& exists|i: int| 0 <= i < line.len() && text::alphanumeric(#[trigger] line[i])
    &&& exists|k: int|
        0 <= k < text::lines_spec(diff).len() && signed(#[trigger] text::lines_spec(diff)[k], sign)
            && line == text::trim_spec(text::lines_spec(diff)[k].skip(1))
}

/// Whether a line of a patch begins with a sign, but not with three of them.
pub open spec fn signed(line: Seq<char>, sign: char) -> bool {
    line.len() >= 1 && line[0] == sign && !(line.len() >= 3 && line[1] == sign && line[2] == sign)
}

proof fn lemma_signed(line: Seq<char>, sign: char, prefix: Seq<char>, skip: Seq<char>)
    requires
        prefix == seq![sign],
        skip == seq![sign, sign, sign],
    ensures
        (find::starts_spec(line, prefix) && !find::starts_spec(line, skip)) == signed(line, sign),
{
    if line.len() >= 1 {
        assert(line.take(1) =~= seq![line[0]]);
        assert(seq![line[0]][0] == line[0]);
        assert(prefix[0] == sign);
    }
    if line.len() >= 3 {
        assert(line.take(3) =~= seq![line[0], line[1], line[2]]);
        let t = seq![line[0], line[1], line[2]];
        assert(t[0] == line[0] && t[1] == line[1] && t[2] == line[2]);
        assert(skip[0] == sign && skip[1] == sign && skip[2] == sign);
        if line[0] == sign && line[1] == sign && line[2] == sign {
            assert(t =~= skip);
        }
    }
}

proof fn lemma_patch(
    lines: Seq<Seq<char>>,
    sign: char,
    prefix: Seq<char>,
    skip: Seq<char>,
    line: Seq<char>,
)
    requires
        prefix == seq![sign],
        skip == seq![sign, sign, sign],
    ensures
        git::patch_spec(lines, prefix, skip).contains(line) == (line.len() >= 12 && (exists|i: int|
            0 <= i < line.len() && text::alphanumeric(#[trigger] line[i])) && exists|k: int|
            0 <= k < lines.len() && signed(#[trigger] lines[k], sign) && line == text::trim_spec(
                lines[k].skip(1),
            )),
        git::patch_spec(lines, prefix, skip).no_duplicates(),
    decreases lines.len(),
{
    let found = git::patch_spec(lines, prefix, skip);
    if lines.len() > 0 {
        let rest = lines.drop_last();
        let before = git::patch_spec(rest, prefix, skip);
        lemma_patch(rest, sign, prefix, skip, line);
        let last = lines.last();
        let kept = text::trim_spec(last.skip(1));
        lemma_signed(last, sign, prefix, skip);
        crate::text_laws::lemma_trim_is_trimmed(last.skip(1));
        if found != before {
            assert(found == before.push(kept));
            if before.contains(line) {
                let i = before.index_of(line);
                assert(found[i] == line);
            }
            if kept == line {
                assert(found[before.len() as int] == line);
            }
            if found.contains(line) && line != kept {
                let i = found.index_of(line);
                assert(before[i] == line);
            }
            assert forall|i: int, j: int|
                0 <= i < found.len() && 0 <= j < found.len() && i != j implies found[i]
                != found[j] by {
                if i < before.len() && j < before.len() {
                    assert(before[i] != before[j]);
                } else if i < before.len() {
                    assert(before.contains(before[i]));
                } else {
                    assert(before.contains(before[j]));
                }
            }
        }
        if exists|k: int|
            0 <= k < lines.len() && signed(#[trigger] lines[k], sign) && line == text::trim_spec(
                lines[k].skip(1),
            ) {
            let k = choose|k: int|
                0 <= k < lines.len() && signed(#[trigger] lines[k], sign) && line
                    == text::trim_spec(lines[k].skip(1));
            if k < rest.len() {
                assert(rest[k] == lines[k]);
            }
        }
        if exists|k: int|
            0 <= k < rest.len() && signed(#[trigger] rest[k], sign) && line == text::trim_spec(
                rest[k].skip(1),
            ) {
            let k = choose|k: int|
                0 <= k < rest.len() && signed(#[trigger] rest[k], sign) && line == text::trim_spec(
                    rest[k].skip(1),
                );
            assert(lines[k] == rest[k]);
        }
        assert(lines[lines.len() - 1] == last);
    }
}

/// The lines that a commit takes out and brings in are the distinctive ones
/// behind a minus and a plus sign of its patch, each once.
pub proof fn law_patches_are_read_by_their_signs(c: git::CommitView, line: Seq<char>)
    ensures
        git::removed_lines(c).contains(line) == patch_has(c.diff, '-', line),
        git::removed_lines(c).no_duplicates(),
        git::added_lines(c).contains(line) == patch_has(c.diff, '+', line),
        git::added_lines(c).no_duplicates(),
{
    reveal_strlit("-");
    reveal_strlit("---");
    reveal_strlit("+");
    reveal_strlit("+++");
    assert("-"@ =~= seq!['-']);
    assert("---"@ =~= seq!['-', '-', '-']);
    assert("+"@ =~= seq!['+']);
    assert("+++"@ =~= seq!['+', '+', '+']);
    lemma_patch(text::lines_spec(c.diff), '-', "-"@, "---"@, line);
    lemma_patch(text::lines_spec(c.diff), '+', "+"@, "+++"@, line);
}

// ---------------------------------------------------------------------------
// Corrections and revisions
// ---------------------------------------------------------------------------

/// Whether matching lines are no accident: two of them, or one of forty
/// characters or more.
pub open spec fn no_accident(lines: Seq<Seq<char>>) -> bool {
    lines.len() >= 2 || (lines.len() == 1 && lines[0].len() >= 40)
}

proof fn lemma_no_accident(lines: Seq<Seq<char>>)
    ensures
        git::strength(lines) >= git::MIN_STRENGTH <==> no_accident(lines),
        git::strength(lines) >= lines.len(),
    decreases lines.len(),
{
    if lines.len() > 0 {
        lemma_no_accident(lines.drop_last());
        if lines.len() == 1 {
            assert(git::strength(lines.drop_last()) == 0);
        }
    }
}

proof fn lemma_shared(lines: Seq<Seq<char>>, others: Seq<Seq<char>>)
    ensures
        git::shared(lines, others) == lines.filter(|l: Seq<char>| others.contains(l)),
        lines.len() == 0 ==> git::shared(lines, others).len() == 0,
    decreases lines.len(),
{
    reveal(Seq::filter);
    if lines.len() > 0 {
        lemma_shared(lines.drop_last(), others);
    } else {
        assert(git::shared(lines, others) =~= lines.filter(|l: Seq<char>| others.contains(l)));
    }
}

proof fn lemma_written(lines: Seq<Seq<char>>, soa_added: Table<String>)
    ensures
        git::written(lines, soa_added) == lines.filter(|l: Seq<char>| soa_added.has_name(l)),
    decreases lines.len(),
{
    reveal(Seq::filter);
    if lines.len() > 0 {
        lemma_written(lines.drop_last(), soa_added);
    } else {
        assert(git::written(lines, soa_added) =~= lines.filter(
            |l: Seq<char>| soa_added.has_name(l),
        ));
    }
}

/// The lines that a commit takes out and an older one brought in.
pub open spec fn rewritten(newer: git::CommitView, older: git::CommitView) -> Seq<Seq<char>> {
    git::removed_lines(newer).filter(|l: Seq<char>| git::added_lines(older).contains(l))
}

/// The older commits, from one on, of which a commit rewrites enough.
pub open spec fn corrected_from(commits: Seq<git::CommitView>, index: int, from: int) -> Seq<int> {
    Seq::new((commits.len() - from) as nat, |k: int| from + k).filter(
        |j: int| no_accident(rewritten(commits[index], commits[j])),
    )
}

/// The finding that a commit rewrites an older one.
pub open spec fn rewrite_of(commits: Seq<git::CommitView>, index: int, older: int) -> git::FindingView {
    git::FindingView {
        commit: index as nat,
        kind: FindingKind::Correction,
        detail: "rewrites "@ + numbers::decimal_spec(
            rewritten(commits[index], commits[older]).len(),
        ) + " line(s) introduced in "@ + commits[older].short + " — \""@ + text::excerpt_spec(
            commits[older].subject,
            60,
        ) + "\""@,
    }
}

/// The first of these, as many as are wanted.
pub open spec fn first_few(list: Seq<int>, most: int) -> Seq<int> {
    if list.len() <= most {
        list
    } else {
        list.take(most)
    }
}

proof fn lemma_corrected_from(commits: Seq<git::CommitView>, index: int, from: int)
    requires
        0 <= from < commits.len(),
    ensures
        corrected_from(commits, index, from) == (if no_accident(
            rewritten(commits[index], commits[from]),
        ) {
            seq![from] + corrected_from(commits, index, from + 1)
        } else {
            corrected_from(commits, index, from + 1)
        }),
{
    reveal(Seq::filter);
    let strong = |j: int| no_accident(rewritten(commits[index], commits[j]));
    let all = Seq::new((commits.len() - from) as nat, |k: int| from + k);
    let rest = Seq::new((commits.len() - from - 1) as nat, |k: int| from + 1 + k);
    assert(all =~= seq![from] + rest);
    Seq::filter_distributes_over_add(seq![from], rest, strong);
    assert(seq![from].drop_last() =~= seq![]);
    assert(Seq::<int>::empty().filter(strong) =~= seq![]);
    assert(seq![from].last() == from);
    assert(seq![from].filter(strong) =~= if strong(from) {
        seq![from]
    } else {
        seq![]
    });
    assert(Seq::<int>::empty() + rest.filter(strong) =~= rest.filter(strong));
}

proof fn lemma_corrections(
    commits: Seq<git::CommitView>,
    index: int,
    from: int,
    count: nat,
)
    requires
        0 <= index < from <= commits.len(),
        count <= 2,
    ensures
        git::corrections(
            commits,
            index as nat,
            git::removed_lines(commits[index]),
            from,
            count,
        ) == first_few(corrected_from(commits, index, from), 2 - count).map_values(
            |j: int| rewrite_of(commits, index, j),
        ),
    decreases commits.len() - from,
{
    reveal(Seq::filter);
    let removed = git::removed_lines(commits[index]);
    let told = |j: int| rewrite_of(commits, index, j);
    let all = corrected_from(commits, index, from);
    if from == commits.len() {
        assert(all =~= seq![]);
        assert(git::corrections(commits, index as nat, removed, from, count) =~= first_few(
            all,
            2 - count,
        ).map_values(told));
    } else if count == 2 {
        assert(first_few(all, 0) =~= seq![]);
        assert(git::corrections(commits, index as nat, removed, from, count) =~= first_few(
            all,
            0,
        ).map_values(told));
    } else {
        let matched = git::shared(removed, git::added_lines(commits[from]));
        lemma_shared(removed, git::added_lines(commits[from]));
        assert(matched == rewritten(commits[index], commits[from]));
        lemma_no_accident(matched);
        lemma_corrected_from(commits, index, from);
        let rest = corrected_from(commits, index, from + 1);
        lemma_corrections(commits, index, from + 1, count);
        lemma_corrections(commits, index, from + 1, count + 1);
        if no_accident(matched) {
            assert(first_few(seq![from] + rest, 2 - count) =~= seq![from] + first_few(
                rest,
                1 - count,
            ));
            assert((seq![from] + first_few(rest, 1 - count)).map_values(told) =~= seq![told(from)]
                + first_few(rest, 1 - count).map_values(told));
            assert(told(from) == git::correction_finding(
                index as nat,
                matched.len(),
                commits[from],
            ));
        }
    }
}

/// The corrections at a commit are, in order, the two newest of the older
/// commits from which it takes out lines that they brought in: two lines at
/// least, or one long one.
pub proof fn law_corrections_link_to_older_commits(
    commits: Seq<git::CommitView>,
    soa_added: Table<String>,
    index: int,
)
    requires
        0 <= index < commits.len(),
    ensures
        of_kind(
            git::findings_upto(commits, soa_added, commits.len() as int),
            index as nat,
            FindingKind::Correction,
        ) == first_few(corrected_from(commits, index, index + 1), 2).map_values(
            |j: int| rewrite_of(commits, index, j),
        ),
{
    lemma_kinds_upto(commits, soa_added, commits.len() as int, index, FindingKind::Correction);
    lemma_kinds_at(commits, soa_added, index, index as nat, FindingKind::Correction);
    lemma_corrections(commits, index, index + 1, 0);
}

/// A commit revises what the agent wrote exactly where it takes out lines that
/// were recorded as written by it: two at least, or one long one. It is told
/// once, with their number.
pub proof fn law_revisions_of_written_lines_are_found(
    commits: Seq<git::CommitView>,
    soa_added: Table<String>,
    index: int,
)
    requires
        0 <= index < commits.len(),
    ensures
        ({
            let hits = git::removed_lines(commits[index]).filter(
                |l: Seq<char>| soa_added.has_name(l),
            );
            let told = of_kind(
                git::findings_upto(commits, soa_added, commits.len() as int),
                index as nat,
                FindingKind::SoaChangeRevised,
            );
            if no_accident(hits) {
                told.len() == 1 && told[0].detail == "changes "@ + numbers::decimal_spec(hits.len())
                    + " line(s) that soa wrote in "@ + text::join_spec(
                    sort::sorted_spec(git::written_in(hits, soa_added)),
                    ", "@,
                )
            } else {
                told.len() == 0
            }
        }),
{
    let kind = FindingKind::SoaChangeRevised;
    lemma_kinds_upto(commits, soa_added, commits.len() as int, index, kind);
    lemma_kinds_at(commits, soa_added, index, index as nat, kind);
    let removed = git::removed_lines(commits[index]);
    lemma_written(removed, soa_added);
    lemma_no_accident(git::written(removed, soa_added));
}

/// The files named in a revision are those in which the agent wrote the lines
/// that the commit takes out, each once.
pub proof fn law_revisions_name_the_files(
    lines: Seq<Seq<char>>,
    soa_added: Table<String>,
    path: Seq<char>,
)
    ensures
        git::written_in(lines, soa_added).contains(path) == exists|i: int|
            0 <= i < lines.len() && soa_added.at(#[trigger] lines[i])@ == path,
        git::written_in(lines, soa_added).no_duplicates(),
    decreases lines.len(),
{
    let all = git::written_in(lines, soa_added);
    if lines.len() > 0 {
        let rest = lines.drop_last();
        law_revisions_name_the_files(rest, soa_added, path);
        law_revisions_name_the_files(rest, soa_added, soa_added.at(lines.last())@);
        let before = git::written_in(rest, soa_added);
        let last = soa_added.at(lines.last())@;
        if !before.contains(last) {
            assert(all == before.push(last));
            if before.contains(path) {
                assert(all[before.index_of(path)] == path);
            }
            if path == last {
                assert(all[before.len() as int] == path);
            }
            if all.contains(path) && path != last {
                assert(before[all.index_of(path)] == path);
            }
            assert forall|i: int, j: int|
                0 <= i < all.len() && 0 <= j < all.len() && i != j implies all[i] != all[j] by {
                if i < before.len() && j < before.len() {
                    assert(before[i] != before[j]);
                } else if i < before.len() {
                    assert(before.contains(before[i]));
                } else {
                    assert(before.contains(before[j]));
                }
            }
        }
        if exists|i: int| 0 <= i < lines.len() && soa_added.at(#[trigger] lines[i])@ == path {
            let i = choose|i: int|
                0 <= i < lines.len() && soa_added.at(#[trigger] lines[i])@ == path;
            if i < rest.len() {
                assert(soa_added.at(rest[i])@ == path);
            }
        }
        if exists|i: int| 0 <= i < rest.len() && soa_added.at(#[trigger] rest[i])@ == path {
            let i = choose|i: int|
                0 <= i < rest.len() && soa_added.at(#[trigger] rest[i])@ == path;
            assert(soa_added.at(lines[i])@ == path);
        }
        assert(soa_added.at(lines[lines.len() - 1])@ == last);
    }
}

} // verus!
