//! Patterns in a project's history. Commits are what every tool and every
//! hand did; three patterns are looked for: explicit reverts, commits that
//! rewrite what an earlier one brought in, and commits that change lines which
//! the agent wrote. All are candidates, not certainties.

use vstd::prelude::*;
use vstd::string::*;

use crate::find;
use crate::numbers;
use crate::sort;
use crate::table::Table;
use crate::text;
use crate::text_laws;

verus! {

/// Characters of a commit's patch that are kept.
pub const MAX_FETCH_DIFF_CHARS: usize = 60_000;

/// Corrections that are reported of one commit at most.
pub const MAX_CORRECTIONS_PER_COMMIT: usize = 2;

/// Weight of the matching lines that makes a finding: one long line, or two
/// shorter ones.
pub const MIN_STRENGTH: usize = 2;

/// A commit.
pub struct Commit {
    pub hash: String,
    pub short: String,
    pub author: String,
    /// When it was written, in seconds since the epoch.
    pub at: u64,
    pub subject: String,
    pub body: String,
    /// Unified diff, possibly cut.
    pub diff: String,
    /// The names in its co-author trailers.
    pub co_authors: Vec<String>,
}

/// What a commit stands for.
pub struct CommitView {
    pub hash: Seq<char>,
    pub short: Seq<char>,
    pub author: Seq<char>,
    pub at: nat,
    pub subject: Seq<char>,
    pub body: Seq<char>,
    pub diff: Seq<char>,
    pub co_authors: Seq<Seq<char>>,
}

impl View for Commit {
    type V = CommitView;

    open spec fn view(&self) -> CommitView {
        CommitView {
            hash: self.hash@,
            short: self.short@,
            author: self.author@,
            at: self.at as nat,
            subject: self.subject@,
            body: self.body@,
            diff: self.diff@,
            co_authors: text::views(self.co_authors@),
        }
    }
}

/// The views of commits.
pub open spec fn commits_view(list: Seq<Commit>) -> Seq<CommitView> {
    Seq::new(list.len(), |i: int| list[i]@)
}

/// A kind of pattern.
#[derive(Debug, Clone, Copy, PartialEq, Eq, Structural)]
pub enum FindingKind {
    Revert,
    Correction,
    SoaChangeRevised,
}

/// A pattern that was found at a commit of the list.
pub struct Finding {
    pub commit: usize,
    pub kind: FindingKind,
    pub detail: String,
}

/// What a finding stands for.
pub struct FindingView {
    pub commit: nat,
    pub kind: FindingKind,
    pub detail: Seq<char>,
}

impl View for Finding {
    type V = FindingView;

    open spec fn view(&self) -> FindingView {
        FindingView { commit: self.commit as nat, kind: self.kind, detail: self.detail@ }
    }
}

/// The views of findings.
pub open spec fn findings_view(list: Seq<Finding>) -> Seq<FindingView> {
    Seq::new(list.len(), |i: int| list[i]@)
}

// ---------------------------------------------------------------------------
// Reading commits
// ---------------------------------------------------------------------------

/// The arguments that list commits, newest first: those that can be reached
/// from the head and are no merges. What the mark reaches is left out where
/// the mark still exists.
pub fn rev_list_args(since: Option<&str>, known: bool, max: usize) -> (r: Vec<String>)
    ensures
        text::views(r@) == seq![
            "rev-list"@,
            "--no-merges"@,
            "-n"@,
            numbers::decimal_spec(max as nat),
            "HEAD"@,
        ] + (match since {
            Some(mark) => if known {
                seq!["^"@ + mark@]
            } else {
                seq![]
            },
            None => seq![],
        }),
{
    let mut r: Vec<String> = Vec::new();
    r.push("rev-list".to_owned());
    r.push("--no-merges".to_owned());
    r.push("-n".to_owned());
    r.push(numbers::decimal_len(max));
    r.push("HEAD".to_owned());
    let ghost base = seq![
        "rev-list"@,
        "--no-merges"@,
        "-n"@,
        numbers::decimal_spec(max as nat),
        "HEAD"@,
    ];
    assert(text::views(r@) =~= base);
    match since {
        Some(mark) => {
            if known {
                text::add_text(&mut r, text::cat2("^", mark));
                assert(base.push("^"@ + mark@) =~= base + seq!["^"@ + mark@]);
            } else {
                assert(base + seq![] =~= base);
            }
        },
        None => {
            assert(base + seq![] =~= base);
        },
    }
    r
}

/// The part of a record up to the next mark, and what follows the mark.
pub open spec fn cut_spec(rest: Option<Seq<char>>) -> (Seq<char>, Option<Seq<char>>) {
    match rest {
        Some(s) => match find::split_once_spec(s, '\0') {
            Some((a, b)) => (a, Some(b)),
            None => (s, None),
        },
        None => (seq![], None),
    }
}

/// A text without the line feeds at its start.
pub open spec fn without_feeds(s: Seq<char>) -> Seq<char>
    decreases s.len(),
{
    if s.len() > 0 && s[0] == '\n' {
        without_feeds(s.skip(1))
    } else {
        s
    }
}

/// The name in a co-author trailer.
pub open spec fn trailer_name(line: Seq<char>) -> Option<Seq<char>> {
    match find::split_once_spec(line, ':') {
        Some((key, value)) => if text::ascii_lowercased(text::trim_spec(key))
            == "co-authored-by"@ {
            let name = text::trim_spec(
                match find::split_once_spec(value, '<') {
                    Some((before, _)) => before,
                    None => value,
                },
            );
            if name.len() == 0 {
                None
            } else {
                Some(name)
            }
        } else {
            None
        },
        None => None,
    }
}

/// The names in the co-author trailers of lines.
pub open spec fn trailers(lines: Seq<Seq<char>>) -> Seq<Seq<char>>
    decreases lines.len(),
{
    if lines.len() == 0 {
        seq![]
    } else {
        let before = trailers(lines.drop_last());
        match trailer_name(lines.last()) {
            Some(name) => before.push(name),
            None => before,
        }
    }
}

/// The time of a commit; zero where it cannot be read.
pub open spec fn time_spec(s: Seq<char>) -> nat {
    match numbers::parse_spec(text::trim_spec(s), u64::MAX as nat) {
        Some(n) => n,
        None => 0,
    }
}

/// The commit that a record shows: hash, author, time, subject, body and
/// patch, with a zero character behind each but the last.
pub open spec fn commit_spec(raw: Seq<char>) -> CommitView {
    let (hash, r1) = cut_spec(Some(raw));
    let (author, r2) = cut_spec(r1);
    let (at, r3) = cut_spec(r2);
    let (subject, r4) = cut_spec(r3);
    let (body, r5) = cut_spec(r4);
    let patch = match r5 {
        Some(s) => s,
        None => seq![],
    };
    CommitView {
        hash,
        short: text::take_spec(hash, 7),
        author,
        at: time_spec(at),
        subject,
        body,
        diff: text::truncate_spec(without_feeds(patch), MAX_FETCH_DIFF_CHARS as nat),
        co_authors: trailers(text::lines_spec(body)),
    }
}

fn cut(rest: Option<String>) -> (r: (String, Option<String>))
    ensures
        ({
            let given = match rest {
                Some(s) => Some(s@),
                None => None,
            };
            r.0@ == cut_spec(given).0 && (match r.1 {
                Some(s) => cut_spec(given).1 == Some(s@),
                None => cut_spec(given).1 is None,
            })
        }),
{
    match rest {
        Some(s) => match find::split_once(s.as_str(), '\0') {
            Some((a, b)) => (a, Some(b)),
            None => (s, None),
        },
        None => {
            let nothing = String::new();
            assert(nothing@ =~= seq![]);
            (nothing, None)
        },
    }
}

fn drop_feeds(s: &str) -> (r: String)
    ensures
        r@ == without_feeds(s@),
{
    let v = text::chars(s);
    let mut i: usize = 0;
    assert(s@.skip(0) =~= s@);
    while i < v.len() && v[i] == '\n'
        invariant
            i <= v@.len(),
            v@ == s@,
            without_feeds(s@) == without_feeds(s@.skip(i as int)),
        decreases v@.len() - i,
    {
        assert(s@.skip(i as int).skip(1) =~= s@.skip(i + 1));
        i = i + 1;
    }
    let r = text::text_range(v.as_slice(), i, v.len());
    assert(r@ =~= s@.skip(i as int));
    r
}

fn read_trailer(line: &str) -> (r: Option<String>)
    ensures
        match r {
            Some(name) => trailer_name(line@) == Some(name@),
            None => trailer_name(line@) is None,
        },
{
    match find::split_once(line, ':') {
        Some((key, value)) => {
            let k = text::trim(key.as_str());
            let lower = text::ascii_lowercase(k.as_str());
            if text::same(lower.as_str(), "co-authored-by") {
                let named = match find::split_once(value.as_str(), '<') {
                    Some((before, _)) => before,
                    None => value,
                };
                let name = text::trim(named.as_str());
                if name.as_str().is_empty() {
                    None
                } else {
                    Some(name)
                }
            } else {
                None
            }
        },
        None => None,
    }
}

fn read_trailers(body: &str) -> (r: Vec<String>)
    ensures
        text::views(r@) == trailers(text::lines_spec(body@)),
{
    let lines = text::lines(body);
    let ghost all = text::views(lines@);
    let mut out: Vec<String> = Vec::new();
    let mut i: usize = 0;
    assert(text::views(out@) =~= seq![]);
    while i < lines.len()
        invariant
            i <= lines@.len(),
            all == text::views(lines@),
            text::views(out@) == trailers(all.take(i as int)),
        decreases lines@.len() - i,
    {
        assert(all.take(i + 1).drop_last() =~= all.take(i as int));
        match read_trailer(lines[i].as_str()) {
            Some(name) => {
                text::add_text(&mut out, name);
            },
            None => {},
        }
        i = i + 1;
    }
    assert(all.take(all.len() as int) =~= all);
    out
}

/// Read a commit from the record that shows it.
pub fn fetch_commit(raw: &str) -> (r: Commit)
    ensures
        r@ == commit_spec(raw@),
{
    let (hash, r1) = cut(Some(raw.to_owned()));
    let (author, r2) = cut(r1);
    let (at, r3) = cut(r2);
    let (subject, r4) = cut(r3);
    let (body, r5) = cut(r4);
    let patch = match r5 {
        Some(s) => s,
        None => {
            let nothing = String::new();
            assert(nothing@ =~= seq![]);
            nothing
        },
    };
    let stamp = text::trim(at.as_str());
    let seconds: u64 = match numbers::parse(stamp.as_str(), u64::MAX) {
        Some(n) => n,
        None => 0,
    };
    let kept = drop_feeds(patch.as_str());
    let diff = text::truncate(kept.as_str(), MAX_FETCH_DIFF_CHARS);
    let short = text::take(hash.as_str(), 7);
    let co_authors = read_trailers(body.as_str());
    Commit { hash, short, author, at: seconds, subject, body, diff, co_authors }
}

/// The commits that records show, in their order. A repository without commits
/// has no records.
pub fn commits_since(records: &Vec<String>) -> (r: Vec<Commit>)
    ensures
        r@.len() == records@.len(),
        forall|i: int| 0 <= i < r@.len() ==> (#[trigger] r@[i])@ == commit_spec(records@[i]@),
{
    let mut out: Vec<Commit> = Vec::new();
    let mut i: usize = 0;
    while i < records.len()
        invariant
            i <= records@.len(),
            out@.len() == i,
            forall|k: int| 0 <= k < i ==> (#[trigger] out@[k])@ == commit_spec(records@[k]@),
        decreases records@.len() - i,
    {
        out.push(fetch_commit(records[i].as_str()));
        i = i + 1;
    }
    out
}

// ---------------------------------------------------------------------------
// Patches
// ---------------------------------------------------------------------------

/// A file of a patch: its path, and how many lines were added and removed.
pub struct FileCount {
    pub path: Seq<char>,
    pub added: nat,
    pub removed: nat,
}

/// The files of a patch after one more line.
pub open spec fn touched_step(files: Seq<FileCount>, line: Seq<char>) -> Seq<FileCount> {
    match find::strip_prefix_spec(line, "+++ b/"@) {
        Some(path) => files.push(FileCount { path, added: 0, removed: 0 }),
        None => if files.len() > 0 && find::starts_spec(line, "+"@) && !find::starts_spec(
            line,
            "+++"@,
        ) {
            files.drop_last().push(FileCount { added: files.last().added + 1, ..files.last() })
        } else if files.len() > 0 && find::starts_spec(line, "-"@) && !find::starts_spec(
            line,
            "---"@,
        ) {
            files.drop_last().push(FileCount { removed: files.last().removed + 1, ..files.last() })
        } else {
            files
        },
    }
}

/// The files of a patch.
pub open spec fn touched_spec(lines: Seq<Seq<char>>) -> Seq<FileCount>
    decreases lines.len(),
{
    if lines.len() == 0 {
        seq![]
    } else {
        touched_step(touched_spec(lines.drop_last()), lines.last())
    }
}

/// What counted files stand for.
pub open spec fn counts_view(files: Seq<(String, usize, usize)>) -> Seq<FileCount> {
    Seq::new(
        files.len(),
        |i: int|
            FileCount {
                path: files[i].0@,
                added: files[i].1 as nat,
                removed: files[i].2 as nat,
            },
    )
}

proof fn lemma_touched_bounds(lines: Seq<Seq<char>>)
    ensures
        touched_spec(lines).len() > 0 ==> touched_spec(lines).last().added <= lines.len()
            && touched_spec(lines).last().removed <= lines.len(),
    decreases lines.len(),
{
    if lines.len() > 0 {
        lemma_touched_bounds(lines.drop_last());
    }
}

/// The files of a patch, each with its numbers of added and removed lines.
pub fn files_touched(diff: &str) -> (r: Vec<(String, usize, usize)>)
    ensures
        counts_view(r@) == touched_spec(text::lines_spec(diff@)),
{
    let lines = text::lines(diff);
    let ghost all = text::views(lines@);
    let mut files: Vec<(String, usize, usize)> = Vec::new();
    let mut i: usize = 0;
    assert(counts_view(files@) =~= seq![]);
    while i < lines.len()
        invariant
            i <= lines@.len(),
            all == text::views(lines@),
            counts_view(files@) == touched_spec(all.take(i as int)),
        decreases lines@.len() - i,
    {
        assert(all.take(i + 1).drop_last() =~= all.take(i as int));
        proof {
            lemma_touched_bounds(all.take(i as int));
        }
        let ghost before = counts_view(files@);
        let line = lines[i].as_str();
        match find::strip_prefix(line, "+++ b/") {
            Some(path) => {
                let ghost new = FileCount { path: path@, added: 0, removed: 0 };
                files.push((path, 0, 0));
                assert(counts_view(files@) =~= before.push(new));
            },
            None => {
                let adds = find::starts_with(line, "+") && !find::starts_with(line, "+++");
                let removes = find::starts_with(line, "-") && !find::starts_with(line, "---");
                if adds || removes {
                    match files.pop() {
                        Some((path, added, removed)) => {
                            assert(before.last() == (FileCount {
                                path: path@,
                                added: added as nat,
                                removed: removed as nat,
                            }));
                            if adds {
                                let ghost new = FileCount {
                                    path: path@,
                                    added: added as nat + 1,
                                    removed: removed as nat,
                                };
                                files.push((path, added + 1, removed));
                                assert(counts_view(files@) =~= before.drop_last().push(new));
                            } else {
                                let ghost new = FileCount {
                                    path: path@,
                                    added: added as nat,
                                    removed: removed as nat + 1,
                                };
                                files.push((path, added, removed + 1));
                                assert(counts_view(files@) =~= before.drop_last().push(new));
                            }
                        },
                        None => {},
                    }
                }
            },
        }
        i = i + 1;
    }
    assert(all.take(all.len() as int) =~= all);
    files
}

/// Whether a line is distinctive: long enough, and not mere punctuation.
pub open spec fn substantial(line: Seq<char>) -> bool {
    let t = text::trim_spec(line);
    t.len() >= 12 && exists|i: int| 0 <= i < t.len() && text::alphanumeric(#[trigger] t[i])
}

/// Whether a line is distinctive enough that finding it elsewhere means
/// something.
pub fn substantial_line(line: &str) -> (r: bool)
    ensures
        r == substantial(line@),
{
    let trimmed = text::trim(line);
    let v = text::chars(trimmed.as_str());
    if v.len() < 12 {
        return false;
    }
    let mut i: usize = 0;
    while i < v.len()
        invariant
            i <= v@.len(),
            v@ == trimmed@,
            trimmed@ == text::trim_spec(line@),
            v@.len() >= 12,
            forall|k: int| 0 <= k < i ==> !text::alphanumeric(#[trigger] v@[k]),
        decreases v@.len() - i,
    {
        if text::is_alphanumeric(v[i]) {
            assert(text::alphanumeric(trimmed@[i as int]));
            return true;
        }
        i = i + 1;
    }
    false
}

/// What a matching line weighs: long ones hardly coincide by accident.
pub open spec fn weight_spec(line: Seq<char>) -> nat {
    if line.len() >= 40 {
        2
    } else {
        1
    }
}

/// What a matching line weighs.
pub fn weight(line: &str) -> (r: usize)
    ensures
        r == weight_spec(line@),
{
    let n: usize = line.unicode_len();
    if n >= 40 {
        2
    } else {
        1
    }
}

/// The distinctive lines that a patch adds or removes, each once: those that
/// begin with `prefix` but not with `skip`.
pub open spec fn patch_spec(lines: Seq<Seq<char>>, prefix: Seq<char>, skip: Seq<char>) -> Seq<
    Seq<char>,
>
    decreases lines.len(),
{
    if lines.len() == 0 {
        seq![]
    } else {
        let before = patch_spec(lines.drop_last(), prefix, skip);
        let line = lines.last();
        let kept = text::trim_spec(line.skip(1));
        if find::starts_spec(line, prefix) && !find::starts_spec(line, skip) && substantial(kept)
            && !before.contains(kept) {
            before.push(kept)
        } else {
            before
        }
    }
}

fn patch_lines(diff: &str, prefix: &str, skip: &str) -> (r: Vec<String>)
    requires
        prefix@.len() == 1,
    ensures
        text::views(r@) == patch_spec(text::lines_spec(diff@), prefix@, skip@),
{
    let lines = text::lines(diff);
    let ghost all = text::views(lines@);
    let mut out: Vec<String> = Vec::new();
    let mut i: usize = 0;
    assert(text::views(out@) =~= seq![]);
    while i < lines.len()
        invariant
            i <= lines@.len(),
            prefix@.len() == 1,
            all == text::views(lines@),
            text::views(out@) == patch_spec(all.take(i as int), prefix@, skip@),
        decreases lines@.len() - i,
    {
        assert(all.take(i + 1).drop_last() =~= all.take(i as int));
        let line = lines[i].as_str();
        if find::starts_with(line, prefix) && !find::starts_with(line, skip) {
            let n: usize = line.unicode_len();
            let body = find::slice(line, 1, n);
            assert(body@ =~= line@.skip(1));
            let kept = text::trim(body.as_str());
            if substantial_line(kept.as_str()) && !text::listed(&out, kept.as_str()) {
                text::add_text(&mut out, kept);
            }
        }
        i = i + 1;
    }
    assert(all.take(all.len() as int) =~= all);
    out
}

// ---------------------------------------------------------------------------
// Findings
// ---------------------------------------------------------------------------

/// The distinctive lines that a commit brings in.
pub open spec fn added_lines(c: CommitView) -> Seq<Seq<char>> {
    patch_spec(text::lines_spec(c.diff), "+"@, "+++"@)
}

/// The distinctive lines that a commit takes out.
pub open spec fn removed_lines(c: CommitView) -> Seq<Seq<char>> {
    patch_spec(text::lines_spec(c.diff), "-"@, "---"@)
}

/// The lines of a list that another one holds.
pub open spec fn shared(lines: Seq<Seq<char>>, others: Seq<Seq<char>>) -> Seq<Seq<char>>
    decreases lines.len(),
{
    if lines.len() == 0 {
        seq![]
    } else {
        let before = shared(lines.drop_last(), others);
        if others.contains(lines.last()) {
            before.push(lines.last())
        } else {
            before
        }
    }
}

/// What lines weigh together.
pub open spec fn strength(lines: Seq<Seq<char>>) -> nat
    decreases lines.len(),
{
    if lines.len() == 0 {
        0
    } else {
        strength(lines.drop_last()) + weight_spec(lines.last())
    }
}

/// Whether a commit says that it reverts another.
pub open spec fn is_revert(c: CommitView) -> bool {
    find::starts_spec(c.subject, "Revert "@) || find::contains_spec(
        c.body,
        "This reverts commit"@,
    )
}

/// The finding of an explicit revert.
pub open spec fn revert_finding(c: CommitView, index: nat) -> FindingView {
    FindingView {
        commit: index,
        kind: FindingKind::Revert,
        detail: "explicitly reverts earlier work: "@ + c.subject,
    }
}

/// The finding of a correction.
pub open spec fn correction_finding(index: nat, matched: nat, older: CommitView) -> FindingView {
    FindingView {
        commit: index,
        kind: FindingKind::Correction,
        detail: "rewrites "@ + numbers::decimal_spec(matched) + " line(s) introduced in "@
            + older.short + " — \""@ + text::excerpt_spec(older.subject, 60) + "\""@,
    }
}

/// The corrections of a commit: the older commits, from a place on, whose lines
/// it takes out; no more than the limit.
pub open spec fn corrections(
    commits: Seq<CommitView>,
    index: nat,
    removed: Seq<Seq<char>>,
    from: int,
    count: nat,
) -> Seq<FindingView>
    decreases commits.len() - from,
{
    if from < 0 || from >= commits.len() || count >= MAX_CORRECTIONS_PER_COMMIT {
        seq![]
    } else {
        let matched = shared(removed, added_lines(commits[from]));
        if strength(matched) >= MIN_STRENGTH {
            seq![correction_finding(index, matched.len(), commits[from])] + corrections(
                commits,
                index,
                removed,
                from + 1,
                count + 1,
            )
        } else {
            corrections(commits, index, removed, from + 1, count)
        }
    }
}

/// The lines of a list that the agent wrote.
pub open spec fn written(lines: Seq<Seq<char>>, soa_added: Table<String>) -> Seq<Seq<char>>
    decreases lines.len(),
{
    if lines.len() == 0 {
        seq![]
    } else {
        let before = written(lines.drop_last(), soa_added);
        if soa_added.has_name(lines.last()) {
            before.push(lines.last())
        } else {
            before
        }
    }
}

/// The files in which the agent wrote lines, each once.
pub open spec fn written_in(lines: Seq<Seq<char>>, soa_added: Table<String>) -> Seq<Seq<char>>
    decreases lines.len(),
{
    if lines.len() == 0 {
        seq![]
    } else {
        let before = written_in(lines.drop_last(), soa_added);
        let path = soa_added.at(lines.last())@;
        if before.contains(path) {
            before
        } else {
            before.push(path)
        }
    }
}

/// The finding that a commit changes what the agent wrote.
pub open spec fn revision(index: nat, removed: Seq<Seq<char>>, soa_added: Table<String>) -> Seq<
    FindingView,
> {
    let hits = written(removed, soa_added);
    if strength(hits) >= MIN_STRENGTH {
        seq![
            FindingView {
                commit: index,
                kind: FindingKind::SoaChangeRevised,
                detail: "changes "@ + numbers::decimal_spec(hits.len())
                    + " line(s) that soa wrote in "@ + text::join_spec(
                    sort::sorted_spec(written_in(hits, soa_added)),
                    ", "@,
                ),
            },
        ]
    } else {
        seq![]
    }
}

/// The findings at a commit.
pub open spec fn findings_at(
    commits: Seq<CommitView>,
    soa_added: Table<String>,
    index: int,
) -> Seq<FindingView> {
    let c = commits[index];
    let reverts = if is_revert(c) {
        seq![revert_finding(c, index as nat)]
    } else {
        seq![]
    };
    let removed = removed_lines(c);
    if removed.len() == 0 {
        reverts
    } else {
        reverts + corrections(commits, index as nat, removed, index + 1, 0) + revision(
            index as nat,
            removed,
            soa_added,
        )
    }
}

/// The findings at the first commits of a list.
pub open spec fn findings_upto(
    commits: Seq<CommitView>,
    soa_added: Table<String>,
    n: int,
) -> Seq<FindingView>
    decreases n,
{
    if n <= 0 {
        seq![]
    } else {
        findings_upto(commits, soa_added, n - 1) + findings_at(commits, soa_added, n - 1)
    }
}

proof fn lemma_strength(lines: Seq<Seq<char>>)
    ensures
        lines.len() <= strength(lines),
        strength(lines) >= MIN_STRENGTH <==> lines.len() >= 2 || (exists|i: int|
            0 <= i < lines.len() && (#[trigger] lines[i]).len() >= 40),
    decreases lines.len(),
{
    if lines.len() > 0 {
        let head = lines.drop_last();
        lemma_strength(head);
        if lines.len() == 1 {
            assert(strength(head) == 0);
            if lines.last().len() >= 40 {
                assert(lines[0].len() >= 40);
            }
        }
    }
}

fn matching(lines: &Vec<String>, others: &Vec<String>) -> (r: (usize, bool))
    ensures
        ({
            let m = shared(text::views(lines@), text::views(others@));
            r.0 == m.len() && r.1 == (strength(m) >= MIN_STRENGTH)
        }),
{
    let ghost all = text::views(lines@);
    let ghost held = text::views(others@);
    let mut count: usize = 0;
    let mut long = false;
    let mut i: usize = 0;
    assert(shared(all.take(0), held) =~= seq![]);
    while i < lines.len()
        invariant
            i <= lines@.len(),
            all == text::views(lines@),
            held == text::views(others@),
            count == shared(all.take(i as int), held).len(),
            count <= i,
            long == exists|k: int|
                0 <= k < shared(all.take(i as int), held).len() && (#[trigger] shared(
                    all.take(i as int),
                    held,
                )[k]).len() >= 40,
        decreases lines@.len() - i,
    {
        assert(all.take(i + 1).drop_last() =~= all.take(i as int));
        assert(all.take(i + 1).last() == lines@[i as int]@);
        let ghost before = shared(all.take(i as int), held);
        let ghost after = shared(all.take(i + 1), held);
        if text::listed(others, lines[i].as_str()) {
            count = count + 1;
            assert(after == before.push(lines@[i as int]@));
            if long {
                let ghost k = choose|k: int|
                    0 <= k < before.len() && (#[trigger] before[k]).len() >= 40;
                assert(after[k].len() >= 40);
            }
            if weight(lines[i].as_str()) == 2 {
                long = true;
                assert(after[before.len() as int].len() >= 40);
            } else {
                assert forall|k: int| 0 <= k < after.len() && (#[trigger] after[k]).len()
                    >= 40 implies long by {
                    assert(after[k] == before[k]);
                }
            }
        }
        i = i + 1;
    }
    assert(all.take(all.len() as int) =~= all);
    proof {
        lemma_strength(shared(all, held));
    }
    (count, count >= 2 || long)
}

fn hits_of(lines: &Vec<String>, soa_added: &Table<String>) -> (r: (usize, bool, Vec<String>))
    ensures
        ({
            let hits = written(text::views(lines@), *soa_added);
            &&& r.0 == hits.len()
            &&& r.1 == (strength(hits) >= MIN_STRENGTH)
            &&& text::views(r.2@) == written_in(hits, *soa_added)
        }),
{
    let ghost all = text::views(lines@);
    let mut count: usize = 0;
    let mut long = false;
    let mut places: Vec<String> = Vec::new();
    let mut i: usize = 0;
    assert(written(all.take(0), *soa_added) =~= seq![]);
    assert(text::views(places@) =~= seq![]);
    while i < lines.len()
        invariant
            i <= lines@.len(),
            all == text::views(lines@),
            count == written(all.take(i as int), *soa_added).len(),
            count <= i,
            text::views(places@) == written_in(written(all.take(i as int), *soa_added), *soa_added),
            long == exists|k: int|
                0 <= k < written(all.take(i as int), *soa_added).len() && (#[trigger] written(
                    all.take(i as int),
                    *soa_added,
                )[k]).len() >= 40,
        decreases lines@.len() - i,
    {
        assert(all.take(i + 1).drop_last() =~= all.take(i as int));
        assert(all.take(i + 1).last() == lines@[i as int]@);
        let ghost before = written(all.take(i as int), *soa_added);
        let ghost after = written(all.take(i + 1), *soa_added);
        match soa_added.get(lines[i].as_str()) {
            Some(path) => {
                count = count + 1;
                assert(after == before.push(lines@[i as int]@));
                assert(after.drop_last() =~= before);
                if long {
                    let ghost k = choose|k: int|
                        0 <= k < before.len() && (#[trigger] before[k]).len() >= 40;
                    assert(after[k].len() >= 40);
                }
                if weight(lines[i].as_str()) == 2 {
                    long = true;
                    assert(after[before.len() as int].len() >= 40);
                } else {
                    assert forall|k: int| 0 <= k < after.len() && (#[trigger] after[k]).len()
                        >= 40 implies long by {
                        assert(after[k] == before[k]);
                    }
                }
                if !text::listed(&places, path.as_str()) {
                    text::add_text(&mut places, path.clone());
                }
            },
            None => {},
        }
        i = i + 1;
    }
    assert(all.take(all.len() as int) =~= all);
    proof {
        lemma_strength(written(all, *soa_added));
    }
    (count, count >= 2 || long, places)
}

fn add_finding(list: &mut Vec<Finding>, finding: Finding)
    ensures
        findings_view(final(list)@) == findings_view(old(list)@).push(finding@),
{
    let ghost before = list@;
    list.push(finding);
    assert(findings_view(list@) =~= findings_view(before).push(finding@));
}

fn add_corrections(
    findings: &mut Vec<Finding>,
    commits: &Vec<Commit>,
    added: &Vec<Vec<String>>,
    index: usize,
    removed: &Vec<String>,
)
    requires
        index < commits@.len(),
        added@.len() == commits@.len(),
        forall|k: int|
            0 <= k < added@.len() ==> text::views((#[trigger] added@[k])@) == added_lines(
                commits@[k]@,
            ),
    ensures
        findings_view(final(findings)@) == findings_view(old(findings)@) + corrections(
            commits_view(commits@),
            index as nat,
            text::views(removed@),
            index + 1,
            0,
        ),
{
    let ghost start = findings_view(findings@);
    let ghost views = commits_view(commits@);
    let ghost lines = text::views(removed@);
    let ghost whole = corrections(views, index as nat, lines, index + 1, 0);
    let total: usize = commits.len();
    let mut at: usize = index + 1;
    let mut count: usize = 0;
    assert(start + whole =~= findings_view(findings@) + whole);
    while at < total && count < MAX_CORRECTIONS_PER_COMMIT
        invariant
            total == commits@.len(),
            index < at <= commits@.len(),
            count <= MAX_CORRECTIONS_PER_COMMIT,
            added@.len() == commits@.len(),
            views == commits_view(commits@),
            lines == text::views(removed@),
            forall|k: int|
                0 <= k < added@.len() ==> text::views((#[trigger] added@[k])@) == added_lines(
                    commits@[k]@,
                ),
            start + whole == findings_view(findings@) + corrections(
                views,
                index as nat,
                lines,
                at as int,
                count as nat,
            ),
        decreases commits@.len() - at,
    {
        let ghost before = findings_view(findings@);
        let ghost rest = corrections(views, index as nat, lines, at as int, count as nat);
        let (matched, strong) = matching(removed, &added[at]);
        assert(text::views(added@[at as int]@) == added_lines(views[at as int]));
        if strong {
            let older = &commits[at];
            let number = numbers::decimal_len(matched);
            let subject = text::excerpt(older.subject.as_str(), 60);
            let mut detail = text::cat5(
                "rewrites ",
                number.as_str(),
                " line(s) introduced in ",
                older.short.as_str(),
                " — \"",
            );
            detail.append(subject.as_str());
            detail.append("\"");
            let finding = Finding { commit: index, kind: FindingKind::Correction, detail };
            let ghost shown = finding@;
            add_finding(findings, finding);
            count = count + 1;
            let ghost next = corrections(views, index as nat, lines, at + 1, count as nat);
            assert(shown == correction_finding(index as nat, matched as nat, views[at as int]));
            assert(rest == seq![shown] + next);
            assert(before + (seq![shown] + next) =~= before.push(shown) + next);
        }
        at = at + 1;
    }
    assert(findings_view(findings@) + seq![] =~= findings_view(findings@));
}

/// Look for the patterns in commits, newest first. `soa_added` holds the lines
/// that the agent wrote, each with the file it wrote them in.
pub fn analyze(commits: &Vec<Commit>, soa_added: &Table<String>) -> (r: Vec<Finding>)
    ensures
        findings_view(r@) == findings_upto(
            commits_view(commits@),
            *soa_added,
            commits@.len() as int,
        ),
{
    proof {
        reveal_strlit("+");
        reveal_strlit("-");
    }
    let ghost views = commits_view(commits@);
    let mut added: Vec<Vec<String>> = Vec::new();
    let mut i: usize = 0;
    while i < commits.len()
        invariant
            i <= commits@.len(),
            added@.len() == i,
            "+"@.len() == 1,
            forall|k: int|
                0 <= k < i ==> text::views((#[trigger] added@[k])@) == added_lines(commits@[k]@),
        decreases commits@.len() - i,
    {
        added.push(patch_lines(commits[i].diff.as_str(), "+", "+++"));
        i = i + 1;
    }
    let mut findings: Vec<Finding> = Vec::new();
    let mut index: usize = 0;
    assert(findings_view(findings@) =~= seq![]);
    while index < commits.len()
        invariant
            index <= commits@.len(),
            views == commits_view(commits@),
            added@.len() == commits@.len(),
            "-"@.len() == 1,
            forall|k: int|
                0 <= k < added@.len() ==> text::views((#[trigger] added@[k])@) == added_lines(
                    commits@[k]@,
                ),
            findings_view(findings@) == findings_upto(views, *soa_added, index as int),
        decreases commits@.len() - index,
    {
        let commit = &commits[index];
        let ghost c = views[index as int];
        let ghost before = findings_view(findings@);
        let ghost reverts = if is_revert(c) {
            seq![revert_finding(c, index as nat)]
        } else {
            seq![]
        };
        if find::starts_with(commit.subject.as_str(), "Revert ") || find::contains(
            commit.body.as_str(),
            "This reverts commit",
        ) {
            let detail = text::cat2("explicitly reverts earlier work: ", commit.subject.as_str());
            add_finding(
                &mut findings,
                Finding { commit: index, kind: FindingKind::Revert, detail },
            );
            assert(before.push(revert_finding(c, index as nat)) =~= before + reverts);
        } else {
            assert(before + reverts =~= before);
        }
        let removed = patch_lines(commit.diff.as_str(), "-", "---");
        assert(text::views(removed@).len() == removed@.len());
        if removed.len() > 0 {
            let ghost lines = text::views(removed@);
            let ghost fixes = corrections(views, index as nat, lines, index + 1, 0);
            add_corrections(&mut findings, commits, &added, index, &removed);
            assert(findings_view(findings@) == before + reverts + fixes);
            let (count, strong, places) = hits_of(&removed, soa_added);
            if strong {
                let number = numbers::decimal_len(count);
                let sorted = sort::sort_texts(places);
                let listed = text::join(&sorted, ", ");
                let detail = text::cat4(
                    "changes ",
                    number.as_str(),
                    " line(s) that soa wrote in ",
                    listed.as_str(),
                );
                let finding = Finding {
                    commit: index,
                    kind: FindingKind::SoaChangeRevised,
                    detail,
                };
                let ghost shown = finding@;
                add_finding(&mut findings, finding);
                assert(revision(index as nat, lines, *soa_added) =~= seq![shown]);
                assert((before + reverts + fixes).push(shown) =~= before + (reverts + fixes + seq![
                    shown,
                ]));
            } else {
                assert(revision(index as nat, lines, *soa_added) =~= seq![]);
                assert(before + reverts + fixes =~= before + (reverts + fixes + seq![]));
            }
        }
        assert(findings_view(findings@) == before + findings_at(views, *soa_added, index as int));
        index = index + 1;
    }
    findings
}

// ---------------------------------------------------------------------------
// Digest
// ---------------------------------------------------------------------------

/// The lines of a block that fit, from a place on, behind what was kept.
pub open spec fn block_from(lines: Seq<Seq<char>>, from: int, kept: Seq<char>, max: nat) -> Seq<char>
    decreases lines.len() - from,
{
    if from < 0 || from >= lines.len() {
        kept
    } else if text::byte_len(kept) + text::byte_len(lines[from]) + 1 > max {
        kept + "… [diff truncated]"@
    } else {
        block_from(lines, from + 1, kept + lines[from] + "\n"@, max)
    }
}

/// A block of lines cut to whole lines, where it is too long.
pub open spec fn block_excerpt(s: Seq<char>, max: nat) -> Seq<char> {
    if s.len() <= max {
        s
    } else {
        block_from(text::lines_spec(s), 0, seq![], max)
    }
}

/// A block of lines cut to whole lines, where it is too long.
pub fn excerpt_block(s: &str, max: usize) -> (r: String)
    ensures
        r@ == block_excerpt(s@, max as nat),
{
    let n: usize = s.unicode_len();
    if n <= max {
        return s.to_owned();
    }
    let lines = text::lines(s);
    let ghost all = text::views(lines@);
    let mut out = String::new();
    let mut i: usize = 0;
    assert(out@ =~= seq![]);
    while i < lines.len()
        invariant
            i <= lines@.len(),
            all == text::views(lines@),
            all == text::lines_spec(s@),
            s@.len() > max,
            block_from(all, 0, seq![], max as nat) == block_from(
                all,
                i as int,
                out@,
                max as nat,
            ),
        decreases lines@.len() - i,
    {
        let kept: usize = text::bytes_in(out.as_str());
        let more: usize = text::bytes_in(lines[i].as_str());
        assert(all[i as int] == lines@[i as int]@);
        if kept >= max || more >= max - kept {
            out.append("… [diff truncated]");
            return out;
        }
        out.append(lines[i].as_str());
        out.append("\n");
        i = i + 1;
    }
    out
}

/// A file of a patch, for people.
pub open spec fn file_text(f: FileCount) -> Seq<char> {
    f.path + " (+"@ + numbers::decimal_spec(f.added) + " −"@ + numbers::decimal_spec(f.removed)
        + ")"@
}

/// Files of a patch, for people.
pub open spec fn file_texts(files: Seq<FileCount>) -> Seq<Seq<char>> {
    Seq::new(files.len(), |i: int| file_text(files[i]))
}

/// The line with the files of a commit: six at most are named.
pub open spec fn files_line(files: Seq<FileCount>) -> Seq<char> {
    if files.len() == 0 {
        seq![]
    } else {
        "files: "@ + text::join_spec(
            file_texts(
                if files.len() > 6 {
                    files.take(6)
                } else {
                    files
                },
            ),
            ", "@,
        ) + (if files.len() > 6 {
            " … "@ + numbers::decimal_spec((files.len() - 6) as nat) + " more"@
        } else {
            seq![]
        }) + "\n"@
    }
}

/// A kind of pattern, for people.
pub open spec fn kind_label(kind: FindingKind) -> Seq<char> {
    match kind {
        FindingKind::Revert => "revert"@,
        FindingKind::Correction => "possible correction"@,
        FindingKind::SoaChangeRevised => "revises soa-written code"@,
    }
}

/// The lines with the findings at a commit.
pub open spec fn finding_lines(findings: Seq<FindingView>, index: nat) -> Seq<char>
    decreases findings.len(),
{
    if findings.len() == 0 {
        seq![]
    } else {
        let before = finding_lines(findings.drop_last(), index);
        let f = findings.last();
        if f.commit == index {
            before + "⚑ "@ + kind_label(f.kind) + ": "@ + f.detail + "\n"@
        } else {
            before
        }
    }
}

/// The section of a commit.
pub open spec fn section_spec(c: CommitView, findings: Seq<FindingView>, index: nat) -> Seq<char> {
    let head = "\n## Commit "@ + c.short + " — "@ + text::excerpt_spec(c.subject, 100) + " ("@
        + c.author + ")\n"@;
    let signed = if c.co_authors.len() == 0 {
        head
    } else {
        head + "co-authored-by: "@ + text::join_spec(c.co_authors, ", "@) + "\n"@
    };
    signed + files_line(touched_spec(text::lines_spec(c.diff))) + finding_lines(findings, index)
        + "diff:\n"@ + block_excerpt(c.diff, 1_200) + "\n"@
}

/// The remark on commits that were left out.
pub open spec fn omitted_text(n: nat) -> Seq<char> {
    "\n… "@ + numbers::decimal_spec(n) + " older commit(s) omitted for space\n"@
}

/// A digest without the first `n` commits of a list: a remark ends it, where
/// there is room for one.
pub open spec fn cut_short(out: Seq<char>, n: nat, budget: nat) -> Seq<char> {
    if text::byte_len(out) + text::byte_len(omitted_text(n)) > budget {
        out
    } else {
        out + omitted_text(n)
    }
}

/// The sections of the first `n` commits of a list, the oldest first, behind
/// what was written before, as far as the budget goes.
pub open spec fn digest_from(
    commits: Seq<CommitView>,
    findings: Seq<FindingView>,
    n: int,
    out: Seq<char>,
    budget: nat,
) -> Seq<char>
    decreases n,
{
    if n <= 0 || n > commits.len() {
        out
    } else {
        let section = section_spec(commits[n - 1], findings, (n - 1) as nat);
        if text::byte_len(out) + text::byte_len(section) > budget {
            cut_short(out, n as nat, budget)
        } else {
            digest_from(commits, findings, n - 1, out + section, budget)
        }
    }
}

proof fn lemma_digest_fits(
    commits: Seq<CommitView>,
    findings: Seq<FindingView>,
    n: int,
    out: Seq<char>,
    budget: nat,
)
    requires
        text::byte_len(out) <= budget,
    ensures
        text::byte_len(digest_from(commits, findings, n, out, budget)) <= budget,
    decreases n,
{
    if 0 < n <= commits.len() {
        let section = section_spec(commits[n - 1], findings, (n - 1) as nat);
        if text::byte_len(out) + text::byte_len(section) > budget {
            text_laws::lemma_bytes_of_joined(out, omitted_text(n as nat));
        } else {
            text_laws::lemma_bytes_of_joined(out, section);
            lemma_digest_fits(commits, findings, n - 1, out + section, budget);
        }
    }
}

fn file_line(diff: &str) -> (r: String)
    ensures
        r@ == files_line(touched_spec(text::lines_spec(diff@))),
{
    let files = files_touched(diff);
    let ghost all = counts_view(files@);
    assert(all.len() == files@.len());
    if files.len() == 0 {
        let nothing = String::new();
        assert(nothing@ =~= seq![]);
        return nothing;
    }
    let total: usize = files.len();
    let shown: usize = if total > 6 {
        6
    } else {
        total
    };
    let ghost kept = if all.len() > 6 {
        all.take(6)
    } else {
        all
    };
    let mut parts: Vec<String> = Vec::new();
    let mut i: usize = 0;
    assert(text::views(parts@) =~= file_texts(kept).take(0));
    while i < shown
        invariant
            i <= shown <= files@.len(),
            shown == kept.len(),
            all == counts_view(files@),
            forall|k: int| 0 <= k < shown ==> kept[k] == all[k],
            text::views(parts@) == file_texts(kept).take(i as int),
        decreases shown - i,
    {
        let (path, added, removed) = &files[i];
        let plus = numbers::decimal_len(*added);
        let minus = numbers::decimal_len(*removed);
        let mut part = text::cat5(path.as_str(), " (+", plus.as_str(), " −", minus.as_str());
        part.append(")");
        assert(kept[i as int] == all[i as int]);
        text::add_text(&mut parts, part);
        assert(file_texts(kept).take(i as int).push(file_texts(kept)[i as int]) =~= file_texts(
            kept,
        ).take(i + 1));
        i = i + 1;
    }
    assert(file_texts(kept).take(shown as int) =~= file_texts(kept));
    let joined = text::join(&parts, ", ");
    let more = if total > 6 {
        let n = numbers::decimal_len(total - 6);
        text::cat3(" … ", n.as_str(), " more")
    } else {
        let nothing = String::new();
        assert(nothing@ =~= seq![]);
        nothing
    };
    text::cat4("files: ", joined.as_str(), more.as_str(), "\n")
}

fn findings_text(findings: &Vec<Finding>, index: usize) -> (r: String)
    ensures
        r@ == finding_lines(findings_view(findings@), index as nat),
{
    let ghost all = findings_view(findings@);
    let mut out = String::new();
    let mut i: usize = 0;
    assert(out@ =~= finding_lines(all.take(0), index as nat));
    while i < findings.len()
        invariant
            i <= findings@.len(),
            all == findings_view(findings@),
            out@ == finding_lines(all.take(i as int), index as nat),
        decreases findings@.len() - i,
    {
        assert(all.take(i + 1).drop_last() =~= all.take(i as int));
        let finding = &findings[i];
        if finding.commit == index {
            let label: &str = match finding.kind {
                FindingKind::Revert => "revert",
                FindingKind::Correction => "possible correction",
                FindingKind::SoaChangeRevised => "revises soa-written code",
            };
            out.append("⚑ ");
            out.append(label);
            out.append(": ");
            out.append(finding.detail.as_str());
            out.append("\n");
        }
        i = i + 1;
    }
    assert(all.take(all.len() as int) =~= all);
    out
}

fn commit_section(commit: &Commit, findings: &Vec<Finding>, index: usize) -> (r: String)
    ensures
        r@ == section_spec(commit@, findings_view(findings@), index as nat),
{
    let subject = text::excerpt(commit.subject.as_str(), 100);
    let mut out = text::cat5(
        "\n## Commit ",
        commit.short.as_str(),
        " — ",
        subject.as_str(),
        " (",
    );
    out.append(commit.author.as_str());
    out.append(")\n");
    assert(text::views(commit.co_authors@).len() == commit.co_authors@.len());
    if commit.co_authors.len() > 0 {
        let names = text::join(&commit.co_authors, ", ");
        out.append("co-authored-by: ");
        out.append(names.as_str());
        out.append("\n");
    }
    let files = file_line(commit.diff.as_str());
    out.append(files.as_str());
    let found = findings_text(findings, index);
    out.append(found.as_str());
    out.append("diff:\n");
    let patch = excerpt_block(commit.diff.as_str(), 1_200);
    out.append(patch.as_str());
    out.append("\n");
    out
}

/// The commits as a prompt shows them: the oldest first, with the findings at
/// each. The whole fits the budget, the remark on what was left out included.
pub fn digest(commits: &Vec<Commit>, findings: &Vec<Finding>, budget: usize) -> (r: String)
    ensures
        text::byte_len(r@) <= budget,
        r@.len() <= budget,
        r@ == digest_from(
            commits_view(commits@),
            findings_view(findings@),
            commits@.len() as int,
            seq![],
            budget as nat,
        ),
{
    let ghost views = commits_view(commits@);
    let ghost found = findings_view(findings@);
    let mut out = String::new();
    let mut n: usize = commits.len();
    assert(out@ =~= seq![]);
    proof {
        let whole = digest_from(views, found, n as int, seq![], budget as nat);
        lemma_digest_fits(views, found, n as int, seq![], budget as nat);
        text_laws::lemma_chars_take_bytes(whole);
    }
    while n > 0
        invariant
            n <= commits@.len(),
            views == commits_view(commits@),
            found == findings_view(findings@),
            digest_from(views, found, commits@.len() as int, seq![], budget as nat) == digest_from(
                views,
                found,
                n as int,
                out@,
                budget as nat,
            ),
            text::byte_len(
                digest_from(views, found, commits@.len() as int, seq![], budget as nat),
            ) <= budget,
            digest_from(views, found, commits@.len() as int, seq![], budget as nat).len()
                <= budget,
        decreases n,
    {
        let section = commit_section(&commits[n - 1], findings, n - 1);
        assert(section@ == section_spec(views[n - 1], found, (n - 1) as nat));
        let used: usize = text::bytes_in(out.as_str());
        let more: usize = text::bytes_in(section.as_str());
        if used > budget || more > budget - used {
            let left = numbers::decimal_len(n);
            let remark = text::cat3("\n… ", left.as_str(), " older commit(s) omitted for space\n");
            let room: usize = text::bytes_in(remark.as_str());
            if used <= budget && room <= budget - used {
                out.append(remark.as_str());
            }
            return out;
        }
        out.append(section.as_str());
        n = n - 1;
    }
    out
}

// ---------------------------------------------------------------------------
// Laws
// ---------------------------------------------------------------------------

proof fn lemma_corrections_bounded(
    commits: Seq<CommitView>,
    index: nat,
    removed: Seq<Seq<char>>,
    from: int,
    count: nat,
)
    requires
        count <= MAX_CORRECTIONS_PER_COMMIT,
    ensures
        corrections(commits, index, removed, from, count).len() + count
            <= MAX_CORRECTIONS_PER_COMMIT,
        forall|i: int|
            0 <= i < corrections(commits, index, removed, from, count).len() ==> (
            #[trigger] corrections(commits, index, removed, from, count)[i]).commit == index
                && corrections(commits, index, removed, from, count)[i].kind
                == FindingKind::Correction,
    decreases commits.len() - from,
{
    if !(from < 0 || from >= commits.len() || count >= MAX_CORRECTIONS_PER_COMMIT) {
        let matched = shared(removed, added_lines(commits[from]));
        if strength(matched) >= MIN_STRENGTH {
            lemma_corrections_bounded(commits, index, removed, from + 1, count + 1);
        } else {
            lemma_corrections_bounded(commits, index, removed, from + 1, count);
        }
    }
}

/// Findings stay bounded: a commit has at most one revert, the limit of
/// corrections and one revision, and each finding at it points at it.
pub proof fn law_findings_are_bounded(
    commits: Seq<CommitView>,
    soa_added: Table<String>,
    index: int,
)
    requires
        0 <= index < commits.len(),
    ensures
        findings_at(commits, soa_added, index).len() <= MAX_CORRECTIONS_PER_COMMIT + 2,
        forall|i: int|
            0 <= i < findings_at(commits, soa_added, index).len() ==> (#[trigger] findings_at(
                commits,
                soa_added,
                index,
            )[i]).commit == index,
{
    lemma_corrections_bounded(
        commits,
        index as nat,
        removed_lines(commits[index]),
        index + 1,
        0,
    );
}

/// A commit that takes nothing distinctive out corrects nothing: its only
/// finding can be that it says it reverts.
pub proof fn law_additions_correct_nothing(
    commits: Seq<CommitView>,
    soa_added: Table<String>,
    index: int,
)
    requires
        0 <= index < commits.len(),
        removed_lines(commits[index]).len() == 0,
    ensures
        forall|i: int|
            0 <= i < findings_at(commits, soa_added, index).len() ==> (#[trigger] findings_at(
                commits,
                soa_added,
                index,
            )[i]).kind == FindingKind::Revert,
{
}

} // verus!
