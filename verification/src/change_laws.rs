//! What holds of recorded changes, resumed runs and mentioned files.

use vstd::prelude::*;
use vstd::string::*;

use crate::diff;
use crate::json;
use crate::mentions;
use crate::mentions::Found;
use crate::runs;
use crate::table::Table;
use crate::text;

verus! {

/// Of the files that were watched, in order, exactly those are recorded whose
/// text is another one than before, that came to be, or that are gone; each
/// with the tool, the path and the state before.
pub proof fn law_changed_files_are_recorded(
    tool: Seq<char>,
    files: Seq<diff::Watched>,
    w: diff::Watched,
)
    ensures
        diff::changes_spec(tool, seq![]) == Seq::<diff::DiffView>::empty(),
        ({
            let before = diff::changes_spec(tool, files);
            let after = diff::changes_spec(tool, files.push(w));
            let now = match w.after {
                Some(s) => Some(s@),
                None => None,
            };
            let differs = match w.before@ {
                diff::SnapshotView::Content(s) => now != Some(s),
                _ => now is Some,
            };
            if differs {
                &&& after.len() == before.len() + 1
                &&& after.drop_last() == before
                &&& after.last().tool == tool
                &&& after.last().path == w.path@
                &&& after.last().before == w.before@
            } else {
                after == before
            }
        }),
{
    assert(files.push(w).drop_last() =~= files);
    assert(files.push(w).last() == w);
    let before = diff::changes_spec(tool, files);
    let after = diff::changes_spec(tool, files.push(w));
    assert(after.len() > before.len() ==> after.drop_last() =~= before);
}

/// A change counts the lines that were put in and those that were taken out,
/// one by one, and not those that stayed.
pub proof fn law_changes_count_their_lines(tags: Seq<diff::LineTag>, tag: diff::LineTag)
    ensures
        diff::tag_count(tags, tag) == tags.filter(|t: diff::LineTag| t == tag).len(),
    decreases tags.len(),
{
    reveal(Seq::filter);
    if tags.len() > 0 {
        law_changes_count_their_lines(tags.drop_last(), tag);
    }
}

/// A restore does what the record says: a file that was absent is removed
/// where it is there now, one that had a text gets that text where it has
/// another one, and a file that is as it was is left alone. Without restore
/// data there is an error.
pub proof fn law_restores_do_what_the_record_says(
    entry: diff::DiffView,
    state: diff::FileState,
    content: Seq<char>,
)
    ensures
        entry.before is Unavailable <==> diff::restore_spec(entry, state) is Err,
        entry.before is Absent ==> (diff::restore_spec(entry, state) matches Ok(plan) && (
        state.exists ==> plan is Remove) && (!state.exists ==> plan is Nothing)),
        entry.before == diff::SnapshotView::Content(content) ==> (diff::restore_spec(
            entry,
            state,
        ) matches Ok(plan) && if state.content matches Some(s) && s@ == content {
            plan is Nothing
        } else {
            plan matches diff::RestoreView::Write { content: put, .. } && put == content
        }),
{
}

/// Undoing goes by the first change to each path that can be restored: every
/// path of such a change is there, and its record is the first one.
pub proof fn law_undoing_takes_the_first_change(diffs: Seq<diff::DiffView>, k: int)
    requires
        0 <= k < diffs.len(),
        !(diffs[k].before is Unavailable),
        forall|j: int|
            0 <= j < k && !((#[trigger] diffs[j]).before is Unavailable) ==> diffs[j].path
                != diffs[k].path,
    ensures
        diff::earliest(diffs).contains(diffs[k]),
    decreases diffs.len(),
{
    let fewer = diffs.drop_last();
    let rest = diff::earliest(fewer);
    let all = diff::earliest(diffs);
    if k < fewer.len() {
        assert(fewer[k] == diffs[k]);
        assert forall|j: int| 0 <= j < k && !((#[trigger] fewer[j]).before is Unavailable) implies
            fewer[j].path != fewer[k].path by {
            assert(fewer[j] == diffs[j]);
        }
        law_undoing_takes_the_first_change(fewer, k);
        let i = choose|i: int| 0 <= i < rest.len() && rest[i] == diffs[k];
        assert(all[i] == diffs[k]);
    } else {
        lemma_earliest_are_changes(fewer);
        assert forall|i: int| 0 <= i < rest.len() implies (#[trigger] rest[i]).path
            != diffs[k].path by {
            let j = choose|j: int|
                0 <= j < fewer.len() && fewer[j] == rest[i] && !(fewer[j].before is Unavailable);
            assert(diffs[j] == fewer[j]);
        }
        assert(all.last() == diffs[k]);
        assert(all[all.len() - 1] == diffs[k]);
    }
}

proof fn lemma_earliest_are_changes(diffs: Seq<diff::DiffView>)
    ensures
        forall|i: int|
            #![trigger diff::earliest(diffs)[i]]
            0 <= i < diff::earliest(diffs).len() ==> exists|j: int|
                0 <= j < diffs.len() && #[trigger] diffs[j] == diff::earliest(diffs)[i]
                    && !(diffs[j].before is Unavailable),
    decreases diffs.len(),
{
    if diffs.len() > 0 {
        let fewer = diffs.drop_last();
        let rest = diff::earliest(fewer);
        let all = diff::earliest(diffs);
        lemma_earliest_are_changes(fewer);
        assert forall|i: int|
            #![trigger all[i]]
            0 <= i < all.len() implies exists|j: int|
            0 <= j < diffs.len() && #[trigger] diffs[j] == all[i] && !(diffs[j].before is
                Unavailable) by {
            if i < rest.len() {
                assert(all[i] == rest[i]);
                let j = choose|j: int|
                    0 <= j < fewer.len() && #[trigger] fewer[j] == rest[i] && !(fewer[j].before is
                        Unavailable);
                assert(diffs[j] == all[i]);
            } else {
                assert(diffs[diffs.len() - 1] == all[i]);
            }
        }
    }
}

/// The paths in a call's arguments are the texts under the names that stand
/// for paths, in the order of the names, each once.
pub proof fn law_paths_are_taken_from_the_arguments(
    arguments: json::JsonView,
    keys: Seq<Seq<char>>,
    key: Seq<char>,
    path: Seq<char>,
)
    ensures
        diff::paths_under(arguments, seq![]) == Seq::<Seq<char>>::empty(),
        arguments.field(key) is None ==> diff::paths_under(arguments, keys.push(key))
            == diff::paths_under(arguments, keys),
        arguments.field(key) == Some(json::JsonView::Text(path)) ==> diff::paths_under(
            arguments,
            keys.push(key),
        ) == if diff::paths_under(arguments, keys).contains(path) {
            diff::paths_under(arguments, keys)
        } else {
            diff::paths_under(arguments, keys).push(path)
        },
        diff::path_keys().contains("path"@),
        diff::path_keys().contains("file_path"@),
        diff::path_keys().contains("file"@),
        diff::path_keys().contains("source"@),
        diff::path_keys().contains("destination"@),
{
    assert(keys.push(key).drop_last() =~= keys);
    let all = diff::path_keys();
    assert(all[0] == "path"@);
    assert(all[1] == "file_path"@);
    assert(all[4] == "file"@);
    assert(all[5] == "source"@);
    assert(all[6] == "destination"@);
}

/// A log takes a checkpoint on: an event that the checkpoint has must be the
/// same and changes nothing, one behind its end is added, with the usage and
/// the time that it brings; a line of another stage or run, or a broken one,
/// is an error.
pub proof fn law_logs_take_a_checkpoint_on(
    progress: runs::ProgressView,
    start: runs::Merged,
    lines: Seq<runs::LogLine>,
    line: runs::LogLine,
)
    requires
        runs::merged(progress, start, lines) is Ok,
    ensures
        runs::merged(progress, start, seq![]) == Ok::<_, Seq<char>>(start),
        ({
            let m = runs::merged(progress, start, lines)->Ok_0;
            let r = runs::merged(progress, start, lines.push(line));
            let n = lines.len() as int;
            match line {
                runs::LogLine::Broken(_) => r is Err,
                runs::LogLine::Record(record) => {
                    let own = record.stage@ == progress.stage && record.run == progress.run;
                    &&& !own ==> r is Err
                    &&& own && n < progress.events.len() ==> if record.event@
                        == progress.events[n] {
                        r == Ok::<_, Seq<char>>(m)
                    } else {
                        r is Err
                    }
                    &&& own && n >= progress.events.len() ==> (r matches Ok(next)
                        && next.events.len() == m.events.len() + 1 && next.events.drop_last()
                        == m.events && next.events.last() == record.event@ && next.usage
                        == record.usage@ && next.updated_at >= m.updated_at && next.updated_at
                        >= record.updated_at && (next.updated_at == m.updated_at
                        || next.updated_at == record.updated_at))
                },
            }
        }),
{
    assert(lines.push(line).drop_last() =~= lines);
    assert(lines.push(line).last() == line);
    let m = runs::merged(progress, start, lines)->Ok_0;
    if line is Record {
        assert(m.events.push(line->Record_0.event@).drop_last() =~= m.events);
    }
}

/// Only a broken line at the very end is left out.
pub proof fn law_only_the_last_line_may_be_cut_short(
    lines: Seq<runs::LogLine>,
    line: runs::LogLine,
)
    ensures
        line is Broken ==> runs::whole_lines(lines.push(line)) == lines,
        line is Record ==> runs::whole_lines(lines.push(line)) == lines.push(line),
        runs::whole_lines(seq![]) == Seq::<runs::LogLine>::empty(),
{
    assert(lines.push(line).drop_last() =~= lines);
    assert(lines.push(line).last() == line);
}

proof fn lemma_log_lines(head: Seq<u8>, rest: Seq<u8>)
    requires
        head.len() > 0,
        head.last() == 10,
    ensures
        runs::byte_lines_state(head + rest).0 == runs::byte_lines_state(head).0
            + runs::byte_lines_state(rest).0,
        runs::byte_lines_state(head + rest).1 == runs::byte_lines_state(rest).1,
    decreases rest.len(),
{
    let a = runs::byte_lines_state(head).0;
    if rest.len() == 0 {
        assert(head + rest =~= head);
        assert(a + runs::byte_lines_state(rest).0 =~= a);
    } else {
        lemma_log_lines(head, rest.drop_last());
        assert((head + rest).drop_last() =~= head + rest.drop_last());
        assert((head + rest).last() == rest.last());
        assert(runs::byte_lines_state(head + rest).0 =~= a + runs::byte_lines_state(rest).0);
    }
}

proof fn lemma_open_log_line(line: Seq<u8>)
    requires
        !line.contains(10u8),
    ensures
        runs::byte_lines_state(line) == (Seq::<Seq<u8>>::empty(), line),
    decreases line.len(),
{
    if line.len() > 0 {
        assert(line[line.len() - 1] == line.last());
        assert forall|i: int| 0 <= i < line.drop_last().len() implies line.drop_last()[i]
            != 10 by {
            assert(line[i] == line.drop_last()[i]);
        }
        lemma_open_log_line(line.drop_last());
        assert(line.drop_last().push(line.last()) =~= line);
    }
}

/// A log is read line by line: each line up to its line feed counts, as long
/// as it is not blank, and the last one needs no line feed.
pub proof fn law_logs_are_read_line_by_line(line: Seq<u8>, rest: Seq<u8>)
    requires
        !line.contains(10u8),
        exists|i: int| 0 <= i < line.len() && #[trigger] line[i] > 32,
    ensures
        runs::log_lines_spec(line + seq![10u8] + rest) == seq![line] + runs::log_lines_spec(rest),
        runs::log_lines_spec(line) == seq![line],
        runs::log_lines_spec(seq![10u8] + rest) == runs::log_lines_spec(rest),
        runs::log_lines_spec(seq![]) == Seq::<Seq<u8>>::empty(),
{
    lemma_open_log_line(line);
    let i = choose|i: int| 0 <= i < line.len() && #[trigger] line[i] > 32;
    assert(!runs::is_blank_byte(line[i]));
    assert(!runs::is_blank(line));
    let head = line + seq![10u8];
    assert(head.drop_last() =~= line);
    lemma_log_lines(head, rest);
    assert(runs::byte_lines_state(head).0 =~= seq![line]);
    assert(runs::log_lines_spec(head + rest) =~= seq![line] + runs::log_lines_spec(rest));
    assert(runs::log_lines_spec(line) =~= seq![line]);
    lemma_log_lines(seq![10u8], rest);
    assert(seq![10u8].drop_last() =~= seq![]);
    assert(runs::byte_lines_state(seq![10u8].drop_last()).0 =~= seq![]);
    assert(runs::byte_lines_state(seq![10u8].drop_last()).1 =~= seq![]);
    assert(runs::byte_lines_state(seq![10u8]).0 =~= seq![]);
    assert(runs::log_lines_spec(seq![10u8] + rest) =~= runs::log_lines_spec(rest));
}

/// A mention that names something is attached, once: a file with its text,
/// a directory with its listing; a file that is no text is reported. What
/// names nothing is reported only where it looks like a path.
pub proof fn law_mentions_are_attached(
    candidates: Seq<Seq<char>>,
    candidate: Seq<char>,
    files: Table<Found>,
    max: nat,
)
    ensures
        mentions::expansion(seq![], files, max) == (mentions::ExpansionView {
            attachments: seq![],
            reports: seq![],
        }),
        ({
            let before = mentions::expansion(candidates, files, max);
            let after = mentions::expansion(candidates.push(candidate), files, max);
            match mentions::resolved(files, candidate) {
                None => {
                    &&& after.attachments == before.attachments
                    &&& if candidate.contains('/') || candidate.contains('.') {
                        after.reports == before.reports.push(
                            mentions::ReportView {
                                display: candidate,
                                status: mentions::MentionStatus::NotFound,
                            },
                        )
                    } else {
                        after.reports == before.reports
                    }
                },
                Some(name) => if mentions::reported(before.reports, name) {
                    after == before
                } else {
                    &&& after.reports.len() == before.reports.len() + 1
                    &&& after.reports.drop_last() == before.reports
                    &&& after.reports.last().display == name
                    &&& after.attachments.take(before.attachments.len() as int)
                        == before.attachments
                    &&& files.at(name) is Unreadable ==> after.attachments == before.attachments
                        && after.reports.last().status is Unreadable
                    &&& files.at(name) matches Found::File(content) ==> after.attachments.skip(
                        before.attachments.len() as int,
                    ) == mentions::file_block(name, content@, max)
                        && after.reports.last().status is File
                    &&& files.at(name) matches Found::Directory(names) ==> after.attachments.skip(
                        before.attachments.len() as int,
                    ) == mentions::directory_block(name, text::views(names@))
                        && after.reports.last().status is Directory
                },
            }
        }),
{
    assert(candidates.push(candidate).drop_last() =~= candidates);
    let before = mentions::expansion(candidates, files, max);
    let after = mentions::expansion(candidates.push(candidate), files, max);
    let n = before.attachments.len() as int;
    assert(after.attachments.take(n) =~= before.attachments);
    assert(after.reports.len() > before.reports.len() ==> after.reports.drop_last()
        =~= before.reports);
    if mentions::resolved(files, candidate) is Some {
        let name = mentions::resolved(files, candidate)->0;
        if !mentions::reported(before.reports, name) {
            match files.at(name) {
                Found::File(content) => {
                    assert(after.attachments.skip(n) =~= mentions::file_block(
                        name,
                        content@,
                        max,
                    ));
                },
                Found::Directory(names) => {
                    assert(after.attachments.skip(n) =~= mentions::directory_block(
                        name,
                        text::views(names@),
                    ));
                },
                Found::Unreadable => {},
            }
        }
    }
}

/// An attached file's text is kept whole where it is short enough, or nothing
/// limits it, and else cut to the limit.
pub proof fn law_attached_files_are_cut_at_the_limit(content: Seq<char>, max: nat)
    ensures
        max == 0 || content.len() <= max ==> mentions::clamp_spec(content, max) == (content, false),
        0 < max < content.len() ==> mentions::clamp_spec(content, max) == (
            content.subrange(0, max as int),
            true,
        ),
{
    if 0 < max < content.len() {
        assert(content.take(max as int) =~= content.subrange(0, max as int));
    }
}

/// A mention is an `@` at the start of the text or behind white space or an
/// opening mark, and what follows it up to the next white space.
pub proof fn law_mentions_begin_with_an_at_sign(word: Seq<char>, s: Seq<char>)
    requires
        word.len() > 0,
        forall|i: int| 0 <= i < word.len() ==> '#' <= #[trigger] word[i] <= '~' && word[i] != '@',
        forall|i: int| 0 <= i < s.len() ==> #[trigger] s[i] != '@',
    ensures
        mentions::mentions_from(s, 0, true) == Seq::<Seq<char>>::empty(),
        mentions::mentions_from(seq!['@'] + word, 0, true) == seq![word],
        mentions::candidate_spec(word + seq![' '] + s) == word,
{
    lemma_no_mentions(s, 0, true);
    let whole = seq!['@'] + word;
    assert(whole.skip(1) =~= word);
    reveal_strlit("\"");
    assert(word[0] != '"');
    assert("\""@[0] == '"');
    assert(!crate::find::starts_spec(word, "\""@)) by {
        if crate::find::starts_spec(word, "\""@) {
            assert(word.take(1)[0] == word[0]);
        }
    }
    let spaced = word + seq![' '] + s;
    assert(!crate::find::starts_spec(spaced, "\""@)) by {
        if crate::find::starts_spec(spaced, "\""@) {
            assert(spaced.take(1)[0] == word[0]);
        }
    }
    assert forall|i: int| 0 <= i < word.len() implies '!' <= #[trigger] word[i] <= '~' by {}
    crate::splitting_laws::law_words_stand_between_white_space(word, ' ', s);
    assert(text::words_spec(word) == seq![word]);
    assert(mentions::candidate_spec(word) == word);
    assert((seq![word] + text::words_spec(s))[0] == word);
    let end = mentions::behind(whole, 0, word.len());
    assert(end == whole.len());
    assert(mentions::mentions_from(whole, end, false) =~= seq![]);
    assert(mentions::mentions_from(whole, 0, true) =~= seq![word]);
}

proof fn lemma_no_mentions(s: Seq<char>, at: int, boundary: bool)
    requires
        0 <= at,
        forall|i: int| 0 <= i < s.len() ==> #[trigger] s[i] != '@',
    ensures
        mentions::mentions_from(s, at, boundary) == Seq::<Seq<char>>::empty(),
    decreases s.len() - at,
{
    if at < s.len() {
        assert(s[at] != '@');
        lemma_no_mentions(s, at + 1, mentions::opens_mention(s[at]));
    }
}

} // verus!
