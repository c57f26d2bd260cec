//! Mentions of files in a prompt: `@src/main.rs` attaches the file's content,
//! `@some/dir` a shallow listing. The prompt's own text stays as it is; what
//! is attached follows it.

use vstd::prelude::*;
use vstd::string::*;

use crate::find;
use crate::numbers;
use crate::sort;
use crate::table::Table;
use crate::text;

verus! {

/// Entries of a listing at most.
pub const MAX_DIRECTORY_ENTRIES: usize = 200;

/// What became of a mention.
#[derive(Debug, Clone, Copy, PartialEq, Eq, Structural)]
pub enum MentionStatus {
    File { lines: usize, truncated: bool },
    Directory { entries: usize },
    NotFound,
    Unreadable,
}

/// A mention, as the user wrote it, and what became of it.
pub struct MentionReport {
    pub display: String,
    pub status: MentionStatus,
}

/// What a report stands for.
pub struct ReportView {
    pub display: Seq<char>,
    pub status: MentionStatus,
}

impl View for MentionReport {
    type V = ReportView;

    open spec fn view(&self) -> ReportView {
        ReportView { display: self.display@, status: self.status }
    }
}

/// The views of reports.
pub open spec fn reports_view(list: Seq<MentionReport>) -> Seq<ReportView> {
    Seq::new(list.len(), |i: int| list[i]@)
}

/// The words for a report.
pub open spec fn describe_spec(r: ReportView) -> Seq<char> {
    match r.status {
        MentionStatus::File { lines, truncated } => if truncated {
            "@"@ + r.display + " attached ("@ + numbers::decimal_spec(lines as nat)
                + " lines, truncated)"@
        } else {
            "@"@ + r.display + " attached ("@ + numbers::decimal_spec(lines as nat) + " lines)"@
        },
        MentionStatus::Directory { entries } => "@"@ + r.display + " listed ("@
            + numbers::decimal_spec(entries as nat) + " entries)"@,
        MentionStatus::NotFound => "@"@ + r.display + " not found"@,
        MentionStatus::Unreadable => "@"@ + r.display + " could not be read as text"@,
    }
}

impl MentionReport {
    /// The words for the report.
    pub fn describe(&self) -> (r: String)
        ensures
            r@ == describe_spec(self@),
    {
        let display = self.display.as_str();
        match self.status {
            MentionStatus::File { lines, truncated } => {
                let n = numbers::decimal_len(lines);
                let end: &str = if truncated {
                    " lines, truncated)"
                } else {
                    " lines)"
                };
                text::cat5("@", display, " attached (", n.as_str(), end)
            },
            MentionStatus::Directory { entries } => {
                let n = numbers::decimal_len(entries);
                text::cat5("@", display, " listed (", n.as_str(), " entries)")
            },
            MentionStatus::NotFound => text::cat3("@", display, " not found"),
            MentionStatus::Unreadable => text::cat3("@", display, " could not be read as text"),
        }
    }
}

// ---------------------------------------------------------------------------
// Finding
// ---------------------------------------------------------------------------

/// Whether a mention may begin behind a character.
pub open spec fn opens_mention(c: char) -> bool {
    text::is_white_spec(c) || c == '(' || c == '[' || c == '{' || c == ','
}

/// The path that follows a sign: what stands in quotes, else the next word.
pub open spec fn candidate_spec(rest: Seq<char>) -> Seq<char> {
    match find::strip_prefix_spec(rest, "\""@) {
        Some(quoted) => find::split_spec(quoted, '"')[0],
        None => {
            let words = text::words_spec(rest);
            if words.len() == 0 {
                seq![]
            } else {
                words[0]
            }
        },
    }
}

/// The place behind a candidate, or the end of the text.
pub open spec fn behind(s: Seq<char>, at: int, length: nat) -> int {
    if at + 1 + length <= s.len() {
        at + 1 + length
    } else {
        s.len() as int
    }
}

/// The candidates of a text from a place on.
pub open spec fn mentions_from(s: Seq<char>, at: int, boundary: bool) -> Seq<Seq<char>>
    decreases s.len() - at,
{
    if at < 0 || at >= s.len() {
        seq![]
    } else if s[at] != '@' || !boundary {
        mentions_from(s, at + 1, opens_mention(s[at]))
    } else {
        let candidate = candidate_spec(s.skip(at + 1));
        if candidate.len() == 0 {
            mentions_from(s, at + 1, false)
        } else {
            seq![candidate] + mentions_from(s, behind(s, at, candidate.len()), false)
        }
    }
}

fn candidate_after(v: &Vec<char>, at: usize) -> (r: String)
    requires
        at < v@.len(),
    ensures
        r@ == candidate_spec(v@.skip(at + 1)),
{
    let n: usize = v.len();
    let rest = text::text_range(v.as_slice(), at + 1, n);
    assert(rest@ =~= v@.skip(at + 1));
    match find::strip_prefix(rest.as_str(), "\"") {
        Some(quoted) => {
            let pieces = find::split(quoted.as_str(), '"');
            assert(text::views(pieces@).len() == pieces@.len());
            assert(text::views(pieces@)[0] == pieces@[0]@);
            pieces[0].clone()
        },
        None => {
            let words = text::words(rest.as_str());
            assert(text::views(words@).len() == words@.len());
            if words.len() == 0 {
                let nothing = String::new();
                assert(nothing@ =~= seq![]);
                nothing
            } else {
                assert(text::views(words@)[0] == words@[0]@);
                words[0].clone()
            }
        },
    }
}

/// The paths that a text mentions. A sign counts where a word begins, so that
/// an address is left alone.
pub fn find_mentions(s: &str) -> (r: Vec<String>)
    ensures
        text::views(r@) == mentions_from(s@, 0, true),
{
    let v = text::chars(s);
    let n: usize = v.len();
    let mut out: Vec<String> = Vec::new();
    let mut at: usize = 0;
    let mut boundary = true;
    let ghost whole = mentions_from(s@, 0, true);
    assert(text::views(out@) + whole =~= whole);
    while at < n
        invariant
            at <= n,
            n == v@.len(),
            v@ == s@,
            text::views(out@) + mentions_from(s@, at as int, boundary) == whole,
        decreases n - at,
    {
        let c = v[at];
        if c != '@' || !boundary {
            boundary = text::is_white(c) || c == '(' || c == '[' || c == '{' || c == ',';
            at = at + 1;
        } else {
            let candidate = candidate_after(&v, at);
            let length: usize = candidate.as_str().unicode_len();
            if length == 0 {
                at = at + 1;
            } else {
                let ghost before = text::views(out@);
                let ghost shown = candidate@;
                let ghost next = behind(s@, at as int, length as nat);
                text::add_text(&mut out, candidate);
                assert(before + (seq![shown] + mentions_from(s@, next, false)) =~= before.push(
                    shown,
                ) + mentions_from(s@, next, false));
                if length <= n - at - 1 {
                    at = at + 1 + length;
                } else {
                    at = n;
                }
            }
            boundary = false;
        }
    }
    assert(text::views(out@) + seq![] =~= text::views(out@));
    out
}

/// A path without the punctuation behind it.
pub open spec fn bare_spec(s: Seq<char>) -> Seq<char>
    decreases s.len(),
{
    if s.len() > 0 && (s.last() == ',' || s.last() == '.' || s.last() == ';' || s.last() == ':'
        || s.last() == '!' || s.last() == '?' || s.last() == ')') {
        bare_spec(s.drop_last())
    } else {
        s
    }
}

/// The paths that a candidate may mean, in the order in which they are tried:
/// as it is written, then without the punctuation behind it.
pub open spec fn tried_spec(candidate: Seq<char>) -> Seq<Seq<char>> {
    let bare = bare_spec(candidate);
    if bare != candidate && bare.len() > 0 {
        seq![candidate, bare]
    } else {
        seq![candidate]
    }
}

fn bare(s: &str) -> (r: String)
    ensures
        r@ == bare_spec(s@),
{
    let v = text::chars(s);
    let mut n: usize = v.len();
    assert(s@.take(n as int) =~= s@);
    while n > 0 && (v[n - 1] == ',' || v[n - 1] == '.' || v[n - 1] == ';' || v[n - 1] == ':' || v[n
        - 1] == '!' || v[n - 1] == '?' || v[n - 1] == ')')
        invariant
            n <= v@.len(),
            v@ == s@,
            bare_spec(s@) == bare_spec(s@.take(n as int)),
        decreases n,
    {
        assert(s@.take(n as int).drop_last() =~= s@.take(n - 1));
        n = n - 1;
    }
    let r = text::text_range(v.as_slice(), 0, n);
    assert(r@ =~= s@.take(n as int));
    r
}

/// The paths that a candidate may mean, in the order in which they are tried.
pub fn tried_paths(candidate: &str) -> (r: Vec<String>)
    ensures
        text::views(r@) == tried_spec(candidate@),
{
    let mut out: Vec<String> = Vec::new();
    out.push(candidate.to_owned());
    let stripped = bare(candidate);
    if !text::same(stripped.as_str(), candidate) && !stripped.as_str().is_empty() {
        out.push(stripped);
    }
    assert(text::views(out@) =~= tried_spec(candidate@));
    out
}

/// The paths that candidates may mean, one candidate after the other.
pub open spec fn paths_of(candidates: Seq<Seq<char>>) -> Seq<Seq<char>>
    decreases candidates.len(),
{
    if candidates.len() == 0 {
        seq![]
    } else {
        paths_of(candidates.drop_last()) + tried_spec(candidates.last())
    }
}

/// The paths that a text may mean by its mentions: what stands at them
/// decides what is attached.
pub fn mentioned_paths(s: &str) -> (r: Vec<String>)
    ensures
        text::views(r@) == paths_of(mentions_from(s@, 0, true)),
{
    let candidates = find_mentions(s);
    let ghost all = text::views(candidates@);
    let mut out: Vec<String> = Vec::new();
    let mut i: usize = 0;
    assert(text::views(out@) =~= paths_of(all.take(0)));
    while i < candidates.len()
        invariant
            i <= candidates@.len(),
            all == text::views(candidates@),
            text::views(out@) == paths_of(all.take(i as int)),
        decreases candidates@.len() - i,
    {
        assert(all.take(i + 1).drop_last() =~= all.take(i as int));
        assert(all.take(i + 1).last() == candidates@[i as int]@);
        let tried = tried_paths(candidates[i].as_str());
        text::add_texts(&mut out, &tried);
        i = i + 1;
    }
    assert(all.take(candidates@.len() as int) =~= all);
    out
}

// ---------------------------------------------------------------------------
// Attaching
// ---------------------------------------------------------------------------

/// What stands at a path.
pub enum Found {
    /// A file and its text.
    File(String),
    /// A file that is no text.
    Unreadable,
    /// A directory and its entries, directories with a slash behind them.
    Directory(Vec<String>),
}

/// A text cut to a number of characters, and whether it was cut. Zero is no
/// limit.
pub open spec fn clamp_spec(content: Seq<char>, max: nat) -> (Seq<char>, bool) {
    if max == 0 || content.len() <= max {
        (content, false)
    } else {
        (content.take(max as int), true)
    }
}

/// A text cut to a number of characters, and whether it was cut. Zero is no
/// limit.
pub fn clamp(content: &str, max: usize) -> (r: (String, bool))
    ensures
        (r.0@, r.1) == clamp_spec(content@, max as nat),
{
    let n: usize = content.unicode_len();
    if max == 0 || n <= max {
        (content.to_owned(), false)
    } else {
        (text::take(content, max), true)
    }
}

/// Names with a dash in front.
pub open spec fn dashed(names: Seq<Seq<char>>) -> Seq<Seq<char>> {
    Seq::new(names.len(), |i: int| "- "@ + names[i])
}

/// A listing: the entries in order, as many as are shown.
pub open spec fn listing_spec(names: Seq<Seq<char>>) -> Seq<char> {
    let sorted = sort::sorted_spec(names);
    if names.len() > MAX_DIRECTORY_ENTRIES {
        text::join_spec(dashed(sorted.take(MAX_DIRECTORY_ENTRIES as int)), "\n"@) + "\n… and "@
            + numbers::decimal_spec((names.len() - MAX_DIRECTORY_ENTRIES) as nat) + " more"@
    } else {
        text::join_spec(dashed(sorted), "\n"@)
    }
}

/// A listing: the entries in order, as many as are shown.
pub fn list_directory(names: &Vec<String>) -> (r: String)
    ensures
        r@ == listing_spec(text::views(names@)),
{
    let total: usize = names.len();
    let sorted = sort::sort_texts(text::copy_list(names));
    let ghost all = text::views(sorted@);
    let shown: usize = if total > MAX_DIRECTORY_ENTRIES {
        MAX_DIRECTORY_ENTRIES
    } else {
        total
    };
    let ghost kept = if total > MAX_DIRECTORY_ENTRIES {
        all.take(MAX_DIRECTORY_ENTRIES as int)
    } else {
        all
    };
    assert(text::views(names@).len() == total);
    let mut lines: Vec<String> = Vec::new();
    let mut i: usize = 0;
    assert(text::views(lines@) =~= dashed(kept).take(0));
    while i < shown
        invariant
            i <= shown <= sorted@.len(),
            all == text::views(sorted@),
            kept.len() == shown,
            forall|k: int| 0 <= k < shown ==> kept[k] == all[k],
            text::views(lines@) == dashed(kept).take(i as int),
        decreases shown - i,
    {
        assert(kept[i as int] == sorted@[i as int]@);
        text::add_text(&mut lines, text::cat2("- ", sorted[i].as_str()));
        assert(dashed(kept).take(i as int).push(dashed(kept)[i as int]) =~= dashed(kept).take(
            i + 1,
        ));
        i = i + 1;
    }
    assert(dashed(kept).take(shown as int) =~= dashed(kept));
    let mut out = text::join(&lines, "\n");
    if total > MAX_DIRECTORY_ENTRIES {
        let more = numbers::decimal_len(total - MAX_DIRECTORY_ENTRIES);
        out.append("\n… and ");
        out.append(more.as_str());
        out.append(" more");
    }
    out
}

/// What was attached, and the reports on it.
pub struct ExpansionView {
    pub attachments: Seq<char>,
    pub reports: Seq<ReportView>,
}

/// The path that a candidate means, if something stands at one.
pub open spec fn resolved(files: Table<Found>, candidate: Seq<char>) -> Option<Seq<char>> {
    files.first_named(tried_spec(candidate), 0)
}

/// Whether a path was reported as found.
pub open spec fn reported(reports: Seq<ReportView>, display: Seq<char>) -> bool {
    exists|i: int|
        0 <= i < reports.len() && (#[trigger] reports[i]).display == display && reports[i].status
            != MentionStatus::NotFound
}

/// A file as it is attached.
pub open spec fn file_block(display: Seq<char>, content: Seq<char>, max: nat) -> Seq<char> {
    let (kept, truncated) = clamp_spec(content, max);
    "\n\n[Attached file: "@ + display + "]\n```\n"@ + text::trim_end_spec(kept) + "\n```"@ + (
    if truncated {
        "\n(truncated)"@
    } else {
        seq![]
    })
}

/// A directory as it is attached.
pub open spec fn directory_block(display: Seq<char>, names: Seq<Seq<char>>) -> Seq<char> {
    "\n\n[Directory listing: "@ + display + "]\n"@ + listing_spec(names)
}

/// What is attached after one more mention. A path is attached once; a
/// candidate that is no path is passed over.
pub open spec fn expansion_step(
    e: ExpansionView,
    candidate: Seq<char>,
    files: Table<Found>,
    max: nat,
) -> ExpansionView {
    match resolved(files, candidate) {
        None => if candidate.contains('/') || candidate.contains('.') {
            ExpansionView {
                reports: e.reports.push(
                    ReportView { display: candidate, status: MentionStatus::NotFound },
                ),
                ..e
            }
        } else {
            e
        },
        Some(display) => {
            if reported(e.reports, display) {
                e
            } else {
                match files.at(display) {
                    Found::Directory(names) => ExpansionView {
                        attachments: e.attachments + directory_block(display, text::views(names@)),
                        reports: e.reports.push(
                            ReportView {
                                display,
                                status: MentionStatus::Directory { entries: names@.len() as usize },
                            },
                        ),
                    },
                    Found::File(content) => ExpansionView {
                        attachments: e.attachments + file_block(display, content@, max),
                        reports: e.reports.push(
                            ReportView {
                                display,
                                status: MentionStatus::File {
                                    lines: text::lines_spec(content@).len() as usize,
                                    truncated: clamp_spec(content@, max).1,
                                },
                            },
                        ),
                    },
                    Found::Unreadable => ExpansionView {
                        reports: e.reports.push(
                            ReportView { display, status: MentionStatus::Unreadable },
                        ),
                        ..e
                    },
                }
            }
        },
    }
}

/// What is attached after candidates, one after the other.
pub open spec fn expansion(candidates: Seq<Seq<char>>, files: Table<Found>, max: nat) -> ExpansionView
    decreases candidates.len(),
{
    if candidates.len() == 0 {
        ExpansionView { attachments: seq![], reports: seq![] }
    } else {
        expansion_step(
            expansion(candidates.drop_last(), files, max),
            candidates.last(),
            files,
            max,
        )
    }
}

fn is_reported(reports: &Vec<MentionReport>, display: &str) -> (r: bool)
    ensures
        r == reported(reports_view(reports@), display@),
{
    let ghost views = reports_view(reports@);
    let mut i: usize = 0;
    while i < reports.len()
        invariant
            i <= reports@.len(),
            views == reports_view(reports@),
            forall|k: int|
                0 <= k < i ==> !((#[trigger] views[k]).display == display@ && views[k].status
                    != MentionStatus::NotFound),
        decreases reports@.len() - i,
    {
        assert(views[i as int] == reports@[i as int]@);
        if text::same(reports[i].display.as_str(), display) && reports[i].status
            != MentionStatus::NotFound {
            return true;
        }
        i = i + 1;
    }
    false
}

fn add_report(list: &mut Vec<MentionReport>, display: String, status: MentionStatus)
    ensures
        reports_view(final(list)@) == reports_view(old(list)@).push(
            ReportView { display: display@, status },
        ),
{
    let ghost before = list@;
    let ghost shown = ReportView { display: display@, status };
    list.push(MentionReport { display, status });
    assert(reports_view(list@) =~= reports_view(before).push(shown));
}

fn attach(
    attachments: &mut String,
    reports: &mut Vec<MentionReport>,
    candidate: &str,
    files: &Table<Found>,
    max: usize,
)
    ensures
        ({
            let before = ExpansionView {
                attachments: old(attachments)@,
                reports: reports_view(old(reports)@),
            };
            let after = expansion_step(before, candidate@, *files, max as nat);
            final(attachments)@ == after.attachments && reports_view(final(reports)@)
                == after.reports
        }),
{
    let paths = tried_paths(candidate);
    match files.first_of(&paths) {
        None => {
            if find::contains_char(candidate, '/') || find::contains_char(candidate, '.') {
                add_report(reports, candidate.to_owned(), MentionStatus::NotFound);
            }
        },
        Some(display) => {
            if !is_reported(reports, display.as_str()) {
                match files.get(display.as_str()) {
                    Some(Found::Directory(names)) => {
                        let listing = list_directory(names);
                        let block = text::cat4(
                            "\n\n[Directory listing: ",
                            display.as_str(),
                            "]\n",
                            listing.as_str(),
                        );
                        attachments.append(block.as_str());
                        add_report(
                            reports,
                            display,
                            MentionStatus::Directory { entries: names.len() },
                        );
                    },
                    Some(Found::File(content)) => {
                        let lines = text::lines(content.as_str());
                        assert(text::views(lines@).len() == lines@.len());
                        let (kept, truncated) = clamp(content.as_str(), max);
                        let trimmed = text::trim_end(kept.as_str());
                        let end: &str = if truncated {
                            "\n(truncated)"
                        } else {
                            ""
                        };
                        proof {
                            reveal_strlit("");
                            assert(""@ =~= seq![]);
                        }
                        let mut block = text::cat5(
                            "\n\n[Attached file: ",
                            display.as_str(),
                            "]\n```\n",
                            trimmed.as_str(),
                            "\n```",
                        );
                        block.append(end);
                        attachments.append(block.as_str());
                        add_report(
                            reports,
                            display,
                            MentionStatus::File { lines: lines.len(), truncated },
                        );
                    },
                    Some(Found::Unreadable) => {
                        add_report(reports, display, MentionStatus::Unreadable);
                    },
                    None => {},
                }
            }
        },
    }
}

/// A prompt with what it mentions attached behind it, and a report on each
/// mention. `files` holds what stands at the paths, and no path at which
/// nothing stands; `max` bounds each attached file.
pub fn expand_mentions(prompt: &str, files: &Table<Found>, max: usize) -> (r: (
    String,
    Vec<MentionReport>,
))
    ensures
        ({
            let e = expansion(mentions_from(prompt@, 0, true), *files, max as nat);
            r.0@ == prompt@ + e.attachments && reports_view(r.1@) == e.reports
        }),
{
    let candidates = find_mentions(prompt);
    let ghost all = text::views(candidates@);
    let mut attachments = String::new();
    let mut reports: Vec<MentionReport> = Vec::new();
    let mut i: usize = 0;
    assert(attachments@ =~= seq![]);
    assert(reports_view(reports@) =~= seq![]);
    assert(all.take(0) =~= seq![]);
    while i < candidates.len()
        invariant
            i <= candidates@.len(),
            all == text::views(candidates@),
            attachments@ == expansion(all.take(i as int), *files, max as nat).attachments,
            reports_view(reports@) == expansion(all.take(i as int), *files, max as nat).reports,
        decreases candidates@.len() - i,
    {
        assert(all.take(i + 1).drop_last() =~= all.take(i as int));
        assert(all.take(i + 1).last() == candidates@[i as int]@);
        attach(&mut attachments, &mut reports, candidates[i].as_str(), files, max);
        i = i + 1;
    }
    assert(all.take(candidates@.len() as int) =~= all);
    (text::cat2(prompt, attachments.as_str()), reports)
}

// ---------------------------------------------------------------------------
// Laws
// ---------------------------------------------------------------------------

/// No path is attached twice: among the reports of what was found, each names
/// a path of its own.
pub proof fn law_paths_are_attached_once(
    candidates: Seq<Seq<char>>,
    files: Table<Found>,
    max: nat,
)
    ensures
        forall|i: int, j: int|
            0 <= i < j < expansion(candidates, files, max).reports.len() && (#[trigger] expansion(
                candidates,
                files,
                max,
            ).reports[i]).status != MentionStatus::NotFound && (#[trigger] expansion(
                candidates,
                files,
                max,
            ).reports[j]).status != MentionStatus::NotFound ==> expansion(
                candidates,
                files,
                max,
            ).reports[i].display != expansion(candidates, files, max).reports[j].display,
    decreases candidates.len(),
{
    if candidates.len() > 0 {
        law_paths_are_attached_once(candidates.drop_last(), files, max);
        let before = expansion(candidates.drop_last(), files, max).reports;
        let after = expansion(candidates, files, max).reports;
        assert forall|i: int, j: int|
            0 <= i < j < after.len() && (#[trigger] after[i]).status != MentionStatus::NotFound && (
            #[trigger] after[j]).status != MentionStatus::NotFound implies after[i].display
            != after[j].display by {
            assert(after[i] == before[i]);
            if j < before.len() {
                assert(after[j] == before[j]);
            } else if after[i].display == after[j].display {
                assert(reported(before, after[j].display));
            }
        }
    }
}

/// Whether the same stands at a path in two tables.
pub open spec fn same_at(a: Table<Found>, b: Table<Found>, path: Seq<char>) -> bool {
    a.has_name(path) == b.has_name(path) && (a.has_name(path) ==> a.at(path) == b.at(path))
}

/// Nothing but what stands at the paths that the candidates may mean decides
/// what is attached: looking up those paths is enough.
pub proof fn law_only_mentioned_paths_count(
    candidates: Seq<Seq<char>>,
    a: Table<Found>,
    b: Table<Found>,
    max: nat,
)
    requires
        forall|i: int|
            0 <= i < paths_of(candidates).len() ==> same_at(a, b, #[trigger] paths_of(candidates)[i]),
    ensures
        expansion(candidates, a, max) == expansion(candidates, b, max),
    decreases candidates.len(),
{
    if candidates.len() > 0 {
        let fewer = candidates.drop_last();
        let tried = tried_spec(candidates.last());
        let paths = paths_of(candidates);
        let n = paths_of(fewer).len() as int;
        assert forall|i: int| 0 <= i < paths_of(fewer).len() implies same_at(
            a,
            b,
            #[trigger] paths_of(fewer)[i],
        ) by {
            assert(paths[i] == paths_of(fewer)[i]);
        }
        law_only_mentioned_paths_count(fewer, a, b, max);
        assert(paths[n] == tried[0]);
        assert(tried.len() > 1 ==> paths[n + 1] == tried[1]);
        reveal_with_fuel(Table::<_>::first_named, 3);
    }
}

} // verus!
