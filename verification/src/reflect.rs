//! Reflection: what saved sessions and commits teach is kept in a file as
//! short lessons, and recurring procedures as skills.

use vstd::prelude::*;
use vstd::string::*;

use crate::block;
use crate::config::Config;
use crate::diff::DiffEntry;
use crate::find;
use crate::git;
use crate::git::{Commit, Finding, FindingKind};
use crate::insights;
use crate::insights::{Signal, SignalKind};
use crate::model;
use crate::model::Message;
use crate::numbers;
use crate::paths;
use crate::session::Session;
use crate::skills;
use crate::skills::Skill;
use crate::slug;
use crate::table::Table;
use crate::text;
use crate::text_laws;

verus! {

/// Sessions of one run at most.
pub const MAX_SESSIONS_PER_RUN: usize = 12;

/// Bytes of the session digests, once there is one.
pub const MAX_DIGEST_CHARS: usize = 24_000;

/// Lessons at most.
pub const MAX_LESSONS: usize = 15;

/// Characters of a lesson.
pub const MAX_LESSON_CHARS: usize = 300;

/// Skills of one run at most.
pub const MAX_SKILLS_PER_RUN: usize = 3;

/// Commits of one run at most.
pub const MAX_GIT_COMMITS: usize = 20;

/// Bytes of the commit digest.
pub const MAX_GIT_DIGEST_CHARS: usize = 12_000;

/// Sessions whose changes are looked through for lines that the agent wrote.
pub const MAX_SOA_LINE_SESSIONS: usize = 30;

/// Lines that the agent wrote, at most.
pub const MAX_SOA_LINES: usize = 5_000;

/// Where the lessons begin.
pub const LESSONS_START: &'static str = "<!-- soa:lessons:start — managed by `soa reflect`; edit outside this block -->";

/// Where the lessons end.
pub const LESSONS_END: &'static str = "<!-- soa:lessons:end -->";

/// What marks a skill that reflection wrote.
pub const GENERATED_MARKER: &'static str = "generated: soa reflect";

/// What the model is told.
pub const SYSTEM_PROMPT: &'static str = "You maintain the persistent memory of `soa`, a staged coding agent. You are given the current lesson list, the available skills, and digests of recent chat sessions including failure signals (denied tool calls, tool errors, rolled-back file changes).\n\nReply with ONLY a JSON object, no prose or code fences, in this shape:\n{\n  \"lessons\": [\"...\"],\n  \"skills\": [{\"name\": \"kebab-case-name\", \"description\": \"one line\", \"body\": \"markdown\"}],\n  \"note\": \"one short paragraph for the user summarizing what you changed and why\"\n}\n\nlessons: the COMPLETE replacement list. Start from the current lessons: keep the ones that still apply, merge duplicates, drop obsolete ones, and add new ones justified by the digests. Each lesson is one short imperative sentence naming the concrete situation it applies to (tool, file kind, or command). Never invent lessons the digests do not support; fewer good lessons beat many vague ones. An unchanged list is a valid answer.\n\nskills: rarely, when the digests show the same multi-step procedure recurring, write it up as a skill (markdown body with concrete commands and checks). Otherwise return an empty array.\n\nA \"Recent commits\" section, when present, is the project's git history from EVERY tool — other AI harnesses and hand edits included, not just soa. Its ⚑ markers (possible correction, revert, revises soa-written code) are heuristic candidates: code also changes because requirements changed, so treat a marker as evidence only when the diff supports it. A lesson derived from commits must cite the short hash, e.g. \"(commit abc1234)\".";

// ---------------------------------------------------------------------------
// What a run looks at
// ---------------------------------------------------------------------------

/// The model that reflects.
pub open spec fn model_spec(config: Config, chosen: Option<Seq<char>>) -> Option<Seq<char>> {
    match chosen {
        Some(name) => Some(name),
        None => match config.settings.reflect_model {
            Some(name) => Some(name@),
            None => if config.stages@.len() > 0 {
                Some(config.stages@[0].model@)
            } else {
                None
            },
        },
    }
}

/// The model that reflects: the one asked for, else the configured one, else
/// that of the first stage.
pub fn choose_model(config: &Config, chosen: Option<&str>) -> (r: Result<String, String>)
    ensures
        ({
            let given = match chosen {
                Some(s) => Some(s@),
                None => None,
            };
            match r {
                Ok(name) => model_spec(*config, given) == Some(name@),
                Err(words) => model_spec(*config, given) is None && words@
                    == "no model to reflect with (set settings.reflect_model)"@,
            }
        }),
{
    match chosen {
        Some(name) => Ok(name.to_owned()),
        None => match &config.settings.reflect_model {
            Some(name) => Ok(name.clone()),
            None => {
                if config.stages.len() > 0 {
                    Ok(config.stages[0].model.clone())
                } else {
                    Err("no model to reflect with (set settings.reflect_model)".to_owned())
                }
            },
        },
    }
}

/// The sessions that were held in a directory.
pub open spec fn held_in(sessions: Seq<Session>, cwd: Seq<char>) -> Seq<Session>
    decreases sessions.len(),
{
    if sessions.len() == 0 {
        seq![]
    } else if sessions[0].cwd@ == cwd {
        seq![sessions[0]] + held_in(sessions.skip(1), cwd)
    } else {
        held_in(sessions.skip(1), cwd)
    }
}

/// The sessions that were held in a directory, in their order.
pub fn sessions_in(sessions: Vec<Session>, cwd: &str) -> (r: Vec<Session>)
    ensures
        r@ == held_in(sessions@, cwd@),
{
    let ghost all = sessions@;
    let mut rest = sessions;
    let mut out: Vec<Session> = Vec::new();
    assert(all.skip(all.len() as int) =~= seq![]);
    while rest.len() > 0
        invariant
            rest@.len() <= all.len(),
            rest@ == all.take(rest@.len() as int),
            out@ == held_in(all.skip(rest@.len() as int), cwd@),
        decreases rest@.len(),
    {
        let ghost n = rest@.len() as int;
        match rest.pop() {
            Some(session) => {
                let ghost after = all.skip(n - 1);
                assert(session == all[n - 1]);
                assert(after[0] == session);
                assert(after.skip(1) =~= all.skip(n));
                let ghost kept = out@;
                if text::same(session.cwd.as_str(), cwd) {
                    out.insert(0, session);
                    assert(out@ =~= seq![session] + kept);
                }
            },
            None => {},
        }
        assert(rest@ =~= all.take(rest@.len() as int));
    }
    assert(all.skip(0) =~= all);
    out
}

/// Whether a session is new: held in the directory, and not looked at since it
/// was last saved.
pub open spec fn is_new(session: Session, cwd: Seq<char>, reflected: Table<u64>) -> bool {
    session.cwd@ == cwd && !(reflected.has_name(session.id@) && reflected.at(session.id@)
        == session.updated_at)
}

/// The places of the new sessions, as many as one run takes.
pub open spec fn new_places(sessions: Seq<Session>, cwd: Seq<char>, reflected: Table<u64>) -> Seq<
    int,
>
    decreases sessions.len(),
{
    if sessions.len() == 0 {
        seq![]
    } else {
        let before = new_places(sessions.drop_last(), cwd, reflected);
        if before.len() < MAX_SESSIONS_PER_RUN && is_new(sessions.last(), cwd, reflected) {
            before.push(sessions.len() - 1)
        } else {
            before
        }
    }
}

/// The sessions that a run looks at, the oldest first. `sessions` is newest
/// first; the newest that are new are taken.
pub fn select_sessions(sessions: &Vec<Session>, cwd: &str, reflected: &Table<u64>) -> (r: Vec<
    usize,
>)
    ensures
        Seq::new(r@.len(), |i: int| r@[i] as int) == new_places(
            sessions@,
            cwd@,
            *reflected,
        ).reverse(),
        forall|i: int| 0 <= i < r@.len() ==> (#[trigger] r@[i]) < sessions@.len(),
{
    let mut taken: Vec<usize> = Vec::new();
    let mut i: usize = 0;
    let ghost mut places: Seq<int> = seq![];
    while i < sessions.len()
        invariant
            i <= sessions@.len(),
            places == new_places(sessions@.take(i as int), cwd@, *reflected),
            places == Seq::new(taken@.len(), |k: int| taken@[k] as int),
            forall|k: int| 0 <= k < taken@.len() ==> (#[trigger] taken@[k]) < i,
        decreases sessions@.len() - i,
    {
        assert(sessions@.take(i + 1).drop_last() =~= sessions@.take(i as int));
        assert(sessions@.take(i + 1).last() == sessions@[i as int]);
        let session = &sessions[i];
        let seen = match reflected.get(session.id.as_str()) {
            Some(at) => *at == session.updated_at,
            None => false,
        };
        assert(places.len() == taken@.len());
        if taken.len() < MAX_SESSIONS_PER_RUN && text::same(session.cwd.as_str(), cwd) && !seen {
            taken.push(i);
            proof {
                places = places.push(i as int);
            }
            assert(places =~= Seq::new(taken@.len(), |k: int| taken@[k] as int));
        }
        i = i + 1;
    }
    assert(sessions@.take(sessions@.len() as int) =~= sessions@);
    let mut out: Vec<usize> = Vec::new();
    let mut n: usize = taken.len();
    let ghost all = Seq::new(taken@.len(), |k: int| taken@[k] as int);
    while n > 0
        invariant
            n <= taken@.len(),
            all == Seq::new(taken@.len(), |k: int| taken@[k] as int),
            out@.len() == taken@.len() - n,
            forall|k: int| 0 <= k < out@.len() ==> (#[trigger] out@[k]) as int == all.reverse()[k],
            forall|k: int| 0 <= k < taken@.len() ==> (#[trigger] taken@[k]) < sessions@.len(),
            forall|k: int| 0 <= k < out@.len() ==> (#[trigger] out@[k]) < sessions@.len(),
        decreases n,
    {
        let place: usize = taken[n - 1];
        out.push(place);
        n = n - 1;
    }
    assert(Seq::new(out@.len(), |i: int| out@[i] as int) =~= all.reverse());
    out
}

/// The lines that the agent wrote, after the lines of one recorded change.
pub open spec fn change_lines(
    seen: Map<Seq<char>, Seq<char>>,
    lines: Seq<Seq<char>>,
    path: Seq<char>,
) -> Map<Seq<char>, Seq<char>>
    decreases lines.len(),
{
    if lines.len() == 0 {
        seen
    } else {
        let before = change_lines(seen, lines.drop_last(), path);
        let line = lines.last();
        let key = text::trim_spec(line.skip(1));
        if before.len() < MAX_SOA_LINES && find::starts_spec(line, "+"@) && !find::starts_spec(
            line,
            "+++"@,
        ) && git::substantial(line.skip(1)) && !before.dom().contains(key) {
            before.insert(key, path)
        } else {
            before
        }
    }
}

/// The lines that the agent wrote, after recorded changes. A rollback is not
/// the agent's writing.
pub open spec fn entry_lines(seen: Map<Seq<char>, Seq<char>>, diffs: Seq<DiffEntry>) -> Map<
    Seq<char>,
    Seq<char>,
>
    decreases diffs.len(),
{
    if diffs.len() == 0 {
        seen
    } else {
        let before = entry_lines(seen, diffs.drop_last());
        let entry = diffs.last();
        if entry.tool@ == "rewind"@ {
            before
        } else {
            change_lines(before, text::lines_spec(entry.unified@), entry.path@)
        }
    }
}

/// The lines that the agent wrote in sessions, each with the file in which it
/// was written first.
pub open spec fn session_lines(sessions: Seq<Session>) -> Map<Seq<char>, Seq<char>>
    decreases sessions.len(),
{
    if sessions.len() == 0 {
        Map::empty()
    } else {
        entry_lines(session_lines(sessions.drop_last()), sessions.last().diffs@)
    }
}

/// The sessions whose changes are looked through.
pub open spec fn recent(sessions: Seq<Session>) -> Seq<Session> {
    if sessions.len() > MAX_SOA_LINE_SESSIONS {
        sessions.take(MAX_SOA_LINE_SESSIONS as int)
    } else {
        sessions
    }
}

/// Whether a table holds what a map holds.
pub open spec fn holds(t: Table<String>, m: Map<Seq<char>, Seq<char>>) -> bool {
    &&& t.ordered()
    &&& m.dom().finite()
    &&& t.entries@.len() == m.len()
    &&& forall|name: Seq<char>|
        #[trigger] t.has_name(name) == m.dom().contains(name) && (t.has_name(name) ==> t.at(name)@
            == m[name])
}

fn add_change(t: &mut Table<String>, unified: &str, path: &str, seen: Ghost<Map<Seq<char>, Seq<char>>>)
    requires
        holds(*old(t), seen@),
    ensures
        holds(*final(t), change_lines(seen@, text::lines_spec(unified@), path@)),
{
    let lines = text::lines(unified);
    let ghost all = text::views(lines@);
    let mut i: usize = 0;
    proof {
        reveal_strlit("+");
    }
    while i < lines.len()
        invariant
            i <= lines@.len(),
            all == text::views(lines@),
            "+"@.len() == 1,
            holds(*t, change_lines(seen@, all.take(i as int), path@)),
        decreases lines@.len() - i,
    {
        let ghost before = change_lines(seen@, all.take(i as int), path@);
        let ghost table_before = *t;
        assert(all.take(i + 1).drop_last() =~= all.take(i as int));
        let line = lines[i].as_str();
        if t.entries.len() < MAX_SOA_LINES && find::starts_with(line, "+") && !find::starts_with(
            line,
            "+++",
        ) {
            let n: usize = line.unicode_len();
            let added = find::slice(line, 1, n);
            assert(added@ =~= line@.skip(1));
            if git::substantial_line(added.as_str()) {
                let key = text::trim(added.as_str());
                if !t.contains(key.as_str()) {
                    let ghost k = key@;
                    t.insert(key, path.to_owned());
                    proof {
                        let after = before.insert(k, path@);
                        assert(after.dom() =~= before.dom().insert(k));
                        assert forall|name: Seq<char>|
                            #[trigger] t.has_name(name) == after.dom().contains(name) && (
                            t.has_name(name) ==> t.at(name)@ == after[name]) by {
                            if name != k {
                                assert(t.has_name(name) == table_before.has_name(name));
                            }
                        }
                    }
                }
            }
        }
        i = i + 1;
    }
    assert(all.take(all.len() as int) =~= all);
}

/// The lines that the agent wrote, each with the file in which it was written
/// first, from the changes that sessions recorded. `sessions` is newest first.
pub fn soa_added_lines(sessions: &Vec<Session>) -> (r: Table<String>)
    ensures
        holds(r, session_lines(recent(sessions@))),
{
    let mut t: Table<String> = Table::new();
    let total: usize = sessions.len();
    let count: usize = if total > MAX_SOA_LINE_SESSIONS {
        MAX_SOA_LINE_SESSIONS
    } else {
        total
    };
    let ghost all = recent(sessions@);
    let mut i: usize = 0;
    assert(holds(t, session_lines(all.take(0)))) by {
        assert(all.take(0) =~= seq![]);
        assert forall|name: Seq<char>| !(#[trigger] t.has_name(name)) by {
            t.lemma_row_from(name, 0);
        }
    }
    while i < count
        invariant
            i <= count <= sessions@.len(),
            all == recent(sessions@),
            count == all.len(),
            holds(t, session_lines(all.take(i as int))),
        decreases count - i,
    {
        let diffs = &sessions[i].diffs;
        let ghost start = session_lines(all.take(i as int));
        assert(all.take(i + 1).drop_last() =~= all.take(i as int));
        assert(all.take(i + 1).last() == sessions@[i as int]);
        let mut j: usize = 0;
        assert(diffs@.take(0) =~= seq![]);
        while j < diffs.len()
            invariant
                j <= diffs@.len(),
                holds(t, entry_lines(start, diffs@.take(j as int))),
            decreases diffs@.len() - j,
        {
            assert(diffs@.take(j + 1).drop_last() =~= diffs@.take(j as int));
            assert(diffs@.take(j + 1).last() == diffs@[j as int]);
            let entry = &diffs[j];
            if !text::same(entry.tool.as_str(), "rewind") {
                let ghost before = entry_lines(start, diffs@.take(j as int));
                add_change(&mut t, entry.unified.as_str(), entry.path.as_str(), Ghost(before));
            }
            j = j + 1;
        }
        assert(diffs@.take(diffs@.len() as int) =~= diffs@);
        i = i + 1;
    }
    assert(all.take(all.len() as int) =~= all);
    t
}

// ---------------------------------------------------------------------------
// Digests
// ---------------------------------------------------------------------------

/// What the user wrote, in order.
pub open spec fn user_texts(history: Seq<model::MessageView>) -> Seq<Seq<char>>
    decreases history.len(),
{
    if history.len() == 0 {
        seq![]
    } else {
        let before = user_texts(history.drop_last());
        match history.last() {
            model::MessageView::User { content } => before.push(content),
            _ => before,
        }
    }
}

/// The last text of an assistant's message.
pub open spec fn final_reply(history: Seq<model::MessageView>) -> Option<Seq<char>>
    decreases history.len(),
{
    if history.len() == 0 {
        None
    } else {
        match history.last() {
            model::MessageView::Assistant { content: Some(s), .. } => Some(s),
            _ => final_reply(history.drop_last()),
        }
    }
}

/// The lines with what the user wrote.
pub open spec fn user_lines(texts: Seq<Seq<char>>) -> Seq<char>
    decreases texts.len(),
{
    if texts.len() == 0 {
        seq![]
    } else {
        user_lines(texts.drop_last()) + "user: "@ + text::excerpt_spec(texts.last(), 160) + "\n"@
    }
}

/// A kind of signal, for people.
pub open spec fn kind_label(kind: SignalKind) -> Seq<char> {
    match kind {
        SignalKind::Denied => "denied"@,
        SignalKind::ToolError => "tool-error"@,
        SignalKind::Rollback => "rollback"@,
        SignalKind::Revert => "revert"@,
        SignalKind::Correction => "correction"@,
        SignalKind::SoaChangeRevised => "soa-change-revised"@,
    }
}

/// The lines with signals.
pub open spec fn signal_lines(signals: Seq<insights::SignalView>) -> Seq<char>
    decreases signals.len(),
{
    if signals.len() == 0 {
        seq![]
    } else {
        let s = signals.last();
        signal_lines(signals.drop_last()) + "signal ["@ + kind_label(s.kind) + "] "@ + s.tool
            + ": "@ + s.excerpt + "\n"@
    }
}

/// The first texts that are shown.
pub open spec fn shown_texts(texts: Seq<Seq<char>>) -> Seq<Seq<char>> {
    if texts.len() > 8 {
        texts.take(8)
    } else {
        texts
    }
}

/// A session as a prompt shows it: what was asked, how it ended, what failed.
pub open spec fn digest_spec(session: Session, signals: Seq<insights::SignalView>) -> Seq<char> {
    let history = model::messages_view(session.history@);
    let texts = user_texts(history);
    let head = "\n## Session "@ + session.id@ + " — "@ + text::excerpt_spec(session.title@, 100)
        + "\n"@ + user_lines(shown_texts(texts));
    let asked = if texts.len() > 8 {
        head + ("… "@ + numbers::decimal_spec((texts.len() - 8) as nat)
            + " more user message(s)\n"@)
    } else {
        head
    };
    let ended = match final_reply(history) {
        Some(s) => asked + ("final reply: "@ + text::excerpt_spec(s, 240) + "\n"@),
        None => asked,
    };
    ended + (if signals.len() == 0 {
        "signals: none\n"@
    } else {
        signal_lines(signals)
    })
}

fn user_section(history: &Vec<Message>) -> (r: (String, usize))
    ensures
        ({
            let texts = user_texts(model::messages_view(history@));
            r.0@ == user_lines(shown_texts(texts)) && r.1 == texts.len()
        }),
{
    let ghost all = model::messages_view(history@);
    let mut out = String::new();
    let mut count: usize = 0;
    let mut i: usize = 0;
    assert(out@ =~= user_lines(shown_texts(user_texts(all.take(0)))));
    while i < history.len()
        invariant
            i <= history@.len(),
            all == model::messages_view(history@),
            count == user_texts(all.take(i as int)).len(),
            count <= i,
            out@ == user_lines(shown_texts(user_texts(all.take(i as int)))),
        decreases history@.len() - i,
    {
        assert(all.take(i + 1).drop_last() =~= all.take(i as int));
        assert(all.take(i + 1).last() == history@[i as int]@);
        match &history[i] {
            Message::User { content } => {
                let ghost before = user_texts(all.take(i as int));
                let ghost after = before.push(content@);
                if count < 8 {
                    let line = text::excerpt(content.as_str(), 160);
                    out.append("user: ");
                    out.append(line.as_str());
                    out.append("\n");
                    assert(shown_texts(after) =~= after);
                    assert(after.drop_last() =~= before);
                } else {
                    assert(shown_texts(after) =~= shown_texts(before));
                }
                count = count + 1;
            },
            _ => {},
        }
        i = i + 1;
    }
    assert(all.take(all.len() as int) =~= all);
    (out, count)
}

fn last_reply(history: &Vec<Message>) -> (r: Option<String>)
    ensures
        model::option_text(r) == final_reply(model::messages_view(history@)),
{
    let ghost all = model::messages_view(history@);
    let mut n: usize = history.len();
    assert(all.take(n as int) =~= all);
    while n > 0
        invariant
            n <= history@.len(),
            all == model::messages_view(history@),
            final_reply(all) == final_reply(all.take(n as int)),
        decreases n,
    {
        assert(all.take(n as int).drop_last() =~= all.take(n - 1));
        assert(all.take(n as int).last() == history@[n - 1]@);
        match &history[n - 1] {
            Message::Assistant { content: Some(s), tool_calls: _, reasoning: _ } => {
                return Some(s.clone());
            },
            _ => {},
        }
        n = n - 1;
    }
    None
}

fn signal_section(signals: &Vec<Signal>) -> (r: String)
    ensures
        r@ == signal_lines(insights::signals_view(signals@)),
{
    let ghost all = insights::signals_view(signals@);
    let mut out = String::new();
    let mut i: usize = 0;
    assert(out@ =~= signal_lines(all.take(0)));
    while i < signals.len()
        invariant
            i <= signals@.len(),
            all == insights::signals_view(signals@),
            out@ == signal_lines(all.take(i as int)),
        decreases signals@.len() - i,
    {
        assert(all.take(i + 1).drop_last() =~= all.take(i as int));
        let signal = &signals[i];
        let label: &str = match signal.kind {
            SignalKind::Denied => "denied",
            SignalKind::ToolError => "tool-error",
            SignalKind::Rollback => "rollback",
            SignalKind::Revert => "revert",
            SignalKind::Correction => "correction",
            SignalKind::SoaChangeRevised => "soa-change-revised",
        };
        out.append("signal [");
        out.append(label);
        out.append("] ");
        out.append(signal.tool.as_str());
        out.append(": ");
        out.append(signal.excerpt.as_str());
        out.append("\n");
        i = i + 1;
    }
    assert(all.take(all.len() as int) =~= all);
    out
}

/// A session as a prompt shows it: what was asked, how it ended, what failed.
pub fn digest_session(session: &Session, signals: &Vec<Signal>) -> (r: String)
    ensures
        r@ == digest_spec(*session, insights::signals_view(signals@)),
{
    let title = text::excerpt(session.title.as_str(), 100);
    let (asked, count) = user_section(&session.history);
    let mut out = text::cat5(
        "\n## Session ",
        session.id.as_str(),
        " — ",
        title.as_str(),
        "\n",
    );
    out.append(asked.as_str());
    if count > 8 {
        let more = numbers::decimal_len(count - 8);
        let line = text::cat3("… ", more.as_str(), " more user message(s)\n");
        out.append(line.as_str());
    }
    match last_reply(&session.history) {
        Some(s) => {
            let shown = text::excerpt(s.as_str(), 240);
            let line = text::cat3("final reply: ", shown.as_str(), "\n");
            out.append(line.as_str());
        },
        None => {},
    }
    assert(insights::signals_view(signals@).len() == signals@.len());
    if signals.len() == 0 {
        out.append("signals: none\n");
    } else {
        let lines = signal_section(signals);
        out.append(lines.as_str());
    }
    out
}

/// How many digests fit, from a place on, behind what was kept: the first
/// always, others while the budget lasts.
pub open spec fn fitting(digests: Seq<Seq<char>>, from: int, kept: Seq<char>) -> (Seq<char>, int)
    decreases digests.len() - from,
{
    if from < 0 || from >= digests.len() {
        (kept, from)
    } else if from > 0 && text::byte_len(kept) + text::byte_len(digests[from])
        > MAX_DIGEST_CHARS {
        (kept, from)
    } else {
        fitting(digests, from + 1, kept + digests[from])
    }
}

proof fn lemma_fitting_fits(digests: Seq<Seq<char>>, from: int, kept: Seq<char>)
    requires
        from > 1 ==> text::byte_len(kept) <= MAX_DIGEST_CHARS,
    ensures
        fitting(digests, from, kept).1 > 1 ==> text::byte_len(fitting(digests, from, kept).0)
            <= MAX_DIGEST_CHARS,
    decreases digests.len() - from,
{
    if 0 <= from < digests.len() {
        text_laws::lemma_bytes_of_joined(kept, digests[from]);
        if !(from > 0 && text::byte_len(kept) + text::byte_len(digests[from])
            > MAX_DIGEST_CHARS) {
            lemma_fitting_fits(digests, from + 1, kept + digests[from]);
        }
    }
}

/// The digests that fit into a prompt, joined, and how many they are. What
/// does not fit is left for the next run; only one that does not fit alone
/// exceeds the budget.
pub fn fit_digests(digests: &Vec<String>) -> (r: (String, usize))
    ensures
        fitting(text::views(digests@), 0, seq![]) == (r.0@, r.1 as int),
        r.1 <= digests@.len(),
        digests@.len() > 0 ==> r.1 > 0,
        r.1 > 1 ==> text::byte_len(r.0@) <= MAX_DIGEST_CHARS,
{
    let ghost all = text::views(digests@);
    proof {
        lemma_fitting_fits(all, 0, seq![]);
    }
    let mut out = String::new();
    let mut i: usize = 0;
    assert(out@ =~= seq![]);
    while i < digests.len()
        invariant
            i <= digests@.len(),
            all == text::views(digests@),
            fitting(all, 0, seq![]) == fitting(all, i as int, out@),
            fitting(all, 0, seq![]).1 > 1 ==> text::byte_len(fitting(all, 0, seq![]).0)
                <= MAX_DIGEST_CHARS,
        decreases digests@.len() - i,
    {
        let used: usize = text::bytes_in(out.as_str());
        let more: usize = text::bytes_in(digests[i].as_str());
        assert(all[i as int] == digests@[i as int]@);
        if i > 0 && (used > MAX_DIGEST_CHARS || more > MAX_DIGEST_CHARS - used) {
            return (out, i);
        }
        out.append(digests[i].as_str());
        i = i + 1;
    }
    (out, i)
}

/// The digests of the sessions at these places.
pub open spec fn session_digests(sessions: Seq<Session>, places: Seq<usize>) -> Seq<Seq<char>> {
    Seq::new(
        places.len(),
        |i: int|
            digest_spec(
                sessions[places[i] as int],
                insights::session_signals(sessions[places[i] as int]),
            ),
    )
}

/// The signals of the sessions at these places, one session after the other.
pub open spec fn gathered_signals(sessions: Seq<Session>, places: Seq<usize>) -> Seq<
    insights::SignalView,
>
    decreases places.len(),
{
    if places.len() == 0 {
        seq![]
    } else {
        gathered_signals(sessions, places.drop_last()) + insights::session_signals(
            sessions[places.last() as int],
        )
    }
}

/// What a run takes up of the sessions that it selected.
pub struct SessionDigests {
    /// The digests that fit into the prompt, joined.
    pub text: String,
    /// How many sessions they are, from the first on.
    pub digested: usize,
    /// The signals of these sessions.
    pub signals: Vec<Signal>,
}

/// Take up the sessions at these places, as far as the prompt has room. Of
/// what does not fit neither digest nor signals are taken.
pub fn digest_sessions(sessions: &Vec<Session>, places: &Vec<usize>) -> (r: SessionDigests)
    requires
        forall|i: int| 0 <= i < places@.len() ==> (#[trigger] places@[i]) < sessions@.len(),
    ensures
        fitting(session_digests(sessions@, places@), 0, seq![]) == (r.text@, r.digested as int),
        r.digested <= places@.len(),
        places@.len() > 0 ==> r.digested > 0,
        insights::signals_view(r.signals@) == gathered_signals(
            sessions@,
            places@.take(r.digested as int),
        ),
{
    let ghost all = session_digests(sessions@, places@);
    let mut digests: Vec<String> = Vec::new();
    let mut i: usize = 0;
    assert(text::views(digests@) =~= all.take(0));
    while i < places.len()
        invariant
            i <= places@.len(),
            forall|k: int| 0 <= k < places@.len() ==> (#[trigger] places@[k]) < sessions@.len(),
            all == session_digests(sessions@, places@),
            text::views(digests@) == all.take(i as int),
        decreases places@.len() - i,
    {
        let session = &sessions[places[i]];
        let signals = insights::extract_signals(session);
        text::add_text(&mut digests, digest_session(session, &signals));
        assert(all.take(i as int).push(all[i as int]) =~= all.take(i + 1));
        i = i + 1;
    }
    assert(all.take(places@.len() as int) =~= all);
    assert(text::views(digests@).len() == digests@.len());
    let (kept, digested): (String, usize) = fit_digests(&digests);
    let mut signals: Vec<Signal> = Vec::new();
    let mut j: usize = 0;
    assert(insights::signals_view(signals@) =~= gathered_signals(sessions@, places@.take(0)));
    while j < digested
        invariant
            j <= digested <= places@.len(),
            forall|k: int| 0 <= k < places@.len() ==> (#[trigger] places@[k]) < sessions@.len(),
            insights::signals_view(signals@) == gathered_signals(
                sessions@,
                places@.take(j as int),
            ),
        decreases digested - j,
    {
        let ghost before = insights::signals_view(signals@);
        let mut more = insights::extract_signals(&sessions[places[j]]);
        let ghost added = insights::signals_view(more@);
        signals.append(&mut more);
        assert(insights::signals_view(signals@) =~= before + added);
        assert(places@.take(j + 1).drop_last() =~= places@.take(j as int));
        j = j + 1;
    }
    SessionDigests { text: kept, digested, signals }
}

/// The signal of a finding in the history.
pub open spec fn git_signal(
    cwd: Seq<char>,
    commit: git::CommitView,
    finding: git::FindingView,
) -> insights::SignalView {
    insights::SignalView {
        session_id: seq![],
        cwd,
        at: commit.at,
        kind: match finding.kind {
            FindingKind::Revert => SignalKind::Revert,
            FindingKind::Correction => SignalKind::Correction,
            FindingKind::SoaChangeRevised => SignalKind::SoaChangeRevised,
        },
        tool: "git"@,
        commit: commit.hash,
        excerpt: "commit "@ + commit.short + ": "@ + finding.detail,
    }
}

/// The signals of findings in the history, each with the commit it points at.
pub fn git_signals(cwd: &str, commits: &Vec<Commit>, findings: &Vec<Finding>) -> (r: Vec<Signal>)
    requires
        forall|i: int| 0 <= i < findings@.len() ==> (#[trigger] findings@[i]).commit
            < commits@.len(),
    ensures
        r@.len() == findings@.len(),
        forall|i: int|
            0 <= i < r@.len() ==> (#[trigger] r@[i])@ == git_signal(
                cwd@,
                commits@[findings@[i].commit as int]@,
                findings@[i]@,
            ),
{
    let mut out: Vec<Signal> = Vec::new();
    let mut i: usize = 0;
    while i < findings.len()
        invariant
            i <= findings@.len(),
            out@.len() == i,
            forall|k: int| 0 <= k < findings@.len() ==> (#[trigger] findings@[k]).commit
                < commits@.len(),
            forall|k: int|
                0 <= k < i ==> (#[trigger] out@[k])@ == git_signal(
                    cwd@,
                    commits@[findings@[k].commit as int]@,
                    findings@[k]@,
                ),
        decreases findings@.len() - i,
    {
        let finding = &findings[i];
        let commit = &commits[finding.commit];
        let none = String::new();
        assert(none@ =~= seq![]);
        let kind = match finding.kind {
            FindingKind::Revert => SignalKind::Revert,
            FindingKind::Correction => SignalKind::Correction,
            FindingKind::SoaChangeRevised => SignalKind::SoaChangeRevised,
        };
        let excerpt = text::cat4("commit ", commit.short.as_str(), ": ", finding.detail.as_str());
        out.push(
            Signal {
                session_id: none,
                cwd: cwd.to_owned(),
                at: commit.at,
                kind,
                tool: "git".to_owned(),
                commit: commit.hash.clone(),
                excerpt,
            },
        );
        i = i + 1;
    }
    out
}

// ---------------------------------------------------------------------------
// The prompt
// ---------------------------------------------------------------------------

/// Texts with a dash in front.
pub open spec fn bulleted(items: Seq<Seq<char>>) -> Seq<Seq<char>> {
    Seq::new(items.len(), |i: int| "- "@ + items[i])
}

/// A skill in a list.
pub open spec fn skill_summary(s: Skill) -> Seq<char> {
    s.name@ + " — "@ + (if s.description@.len() == 0 {
        "(no description)"@
    } else {
        s.description@
    })
}

/// Skills in a list.
pub open spec fn skill_summaries(skills: Seq<Skill>) -> Seq<Seq<char>> {
    Seq::new(skills.len(), |i: int| skill_summary(skills[i]))
}

/// The section with the commits.
pub open spec fn git_section_spec(digest: Option<Seq<char>>) -> Seq<char> {
    match digest {
        Some(s) =>
        "\n\n# Recent commits (from every tool: other harnesses, hand edits, soa)\n"@ + s,
        None => seq![],
    }
}

/// The request that the model gets.
pub open spec fn prompt_spec(
    lessons: Seq<Seq<char>>,
    skills: Seq<Skill>,
    digests: Seq<char>,
    git_digest: Option<Seq<char>>,
) -> Seq<char> {
    "# Current lessons\n"@ + (if lessons.len() == 0 {
        "(none yet)"@
    } else {
        text::join_spec(bulleted(lessons), "\n"@)
    }) + "\n\n# Existing skills\n"@ + (if skills.len() == 0 {
        "(none)"@
    } else {
        text::join_spec(skill_summaries(skills), "\n"@)
    }) + "\n\n# Session digests\n"@ + (if digests.len() == 0 {
        "(none new)"@
    } else {
        digests
    }) + git_section_spec(git_digest)
}

fn lesson_list(lessons: &Vec<String>) -> (r: String)
    ensures
        r@ == (if lessons@.len() == 0 {
            "(none yet)"@
        } else {
            text::join_spec(bulleted(text::views(lessons@)), "\n"@)
        }),
{
    if lessons.len() == 0 {
        return "(none yet)".to_owned();
    }
    let ghost all = text::views(lessons@);
    let mut lines: Vec<String> = Vec::new();
    let mut i: usize = 0;
    assert(text::views(lines@) =~= bulleted(all).take(0));
    while i < lessons.len()
        invariant
            i <= lessons@.len(),
            all == text::views(lessons@),
            text::views(lines@) == bulleted(all).take(i as int),
        decreases lessons@.len() - i,
    {
        text::add_text(&mut lines, text::cat2("- ", lessons[i].as_str()));
        assert(bulleted(all).take(i as int).push(bulleted(all)[i as int]) =~= bulleted(all).take(
            i + 1,
        ));
        i = i + 1;
    }
    assert(bulleted(all).take(all.len() as int) =~= bulleted(all));
    text::join(&lines, "\n")
}

fn skill_list(skills: &Vec<Skill>) -> (r: String)
    ensures
        r@ == (if skills@.len() == 0 {
            "(none)"@
        } else {
            text::join_spec(skill_summaries(skills@), "\n"@)
        }),
{
    if skills.len() == 0 {
        return "(none)".to_owned();
    }
    let mut lines: Vec<String> = Vec::new();
    let mut i: usize = 0;
    assert(text::views(lines@) =~= skill_summaries(skills@).take(0));
    while i < skills.len()
        invariant
            i <= skills@.len(),
            text::views(lines@) == skill_summaries(skills@).take(i as int),
        decreases skills@.len() - i,
    {
        let skill = &skills[i];
        let described: &str = if skill.description.as_str().is_empty() {
            "(no description)"
        } else {
            skill.description.as_str()
        };
        text::add_text(&mut lines, text::cat3(skill.name.as_str(), " — ", described));
        assert(skill_summaries(skills@).take(i as int).push(skill_summaries(skills@)[i as int])
            =~= skill_summaries(skills@).take(i + 1));
        i = i + 1;
    }
    assert(skill_summaries(skills@).take(skills@.len() as int) =~= skill_summaries(skills@));
    text::join(&lines, "\n")
}

/// The request that the model gets.
pub fn user_prompt(
    lessons: &Vec<String>,
    skills: &Vec<Skill>,
    digests: &str,
    git_digest: Option<&str>,
) -> (r: String)
    ensures
        r@ == prompt_spec(
            text::views(lessons@),
            skills@,
            digests@,
            match git_digest {
                Some(s) => Some(s@),
                None => None,
            },
        ),
{
    assert(text::views(lessons@).len() == lessons@.len());
    let known = lesson_list(lessons);
    let listed = skill_list(skills);
    let mut out = text::cat4(
        "# Current lessons\n",
        known.as_str(),
        "\n\n# Existing skills\n",
        listed.as_str(),
    );
    out.append("\n\n# Session digests\n");
    if digests.is_empty() {
        out.append("(none new)");
    } else {
        out.append(digests);
    }
    let section = match git_digest {
        Some(s) => text::cat2(
            "\n\n# Recent commits (from every tool: other harnesses, hand edits, soa)\n",
            s,
        ),
        None => {
            let nothing = String::new();
            assert(nothing@ =~= seq![]);
            nothing
        },
    };
    out.append(section.as_str());
    out
}

/// The last place of a character, or nothing.
pub open spec fn last_index(s: Seq<char>, c: char) -> Option<int>
    decreases s.len(),
{
    if s.len() == 0 {
        None
    } else if s.last() == c {
        Some(s.len() - 1)
    } else {
        last_index(s.drop_last(), c)
    }
}

/// The part of a reply that can be a JSON object: from the first opening brace
/// to the last closing one.
pub open spec fn object_spec(reply: Seq<char>) -> Option<Seq<char>> {
    match (find::find_spec(reply, seq!['{'], 0), last_index(reply, '}')) {
        (Some(start), Some(end)) => if end <= start {
            None
        } else {
            Some(reply.subrange(start, end + 1))
        },
        _ => None,
    }
}

/// The part of a reply that can be a JSON object, where there is prose or a
/// fence around it.
pub fn reply_object(reply: &str) -> (r: Result<String, String>)
    ensures
        match r {
            Ok(s) => object_spec(reply@) == Some(s@),
            Err(words) => object_spec(reply@) is None && words@ == "no JSON object in the reply"@,
        },
{
    let v = text::chars(reply);
    let mut open: Vec<char> = Vec::new();
    open.push('{');
    assert(open@ =~= seq!['{']);
    let start = match find::find_in(v.as_slice(), open.as_slice(), 0) {
        Some(i) => i,
        None => {
            return Err("no JSON object in the reply".to_owned());
        },
    };
    let mut n: usize = v.len();
    assert(reply@.take(n as int) =~= reply@);
    while n > 0 && v[n - 1] != '}'
        invariant
            n <= v@.len(),
            v@ == reply@,
            last_index(reply@, '}') == last_index(reply@.take(n as int), '}'),
        decreases n,
    {
        assert(reply@.take(n as int).drop_last() =~= reply@.take(n - 1));
        n = n - 1;
    }
    if n == 0 || n - 1 <= start {
        return Err("no JSON object in the reply".to_owned());
    }
    Ok(text::text_range(v.as_slice(), start, n))
}

// ---------------------------------------------------------------------------
// Lessons
// ---------------------------------------------------------------------------

/// Whether lessons in a file reach the models: a context file has its name.
pub fn lessons_covered(context_files: &Vec<String>, path: &str) -> (r: bool)
    ensures
        r == exists|i: int|
            0 <= i < context_files@.len() && paths::file_name_spec(
                (#[trigger] context_files@[i])@,
            ) == paths::file_name_spec(path@),
{
    let own = paths::file_name(path);
    let mut i: usize = 0;
    while i < context_files.len()
        invariant
            i <= context_files@.len(),
            model::option_text(own) == paths::file_name_spec(path@),
            forall|k: int|
                0 <= k < i ==> paths::file_name_spec((#[trigger] context_files@[k])@)
                    != paths::file_name_spec(path@),
        decreases context_files@.len() - i,
    {
        let name = paths::file_name(context_files[i].as_str());
        assert(model::option_text(name) == paths::file_name_spec(context_files@[i as int]@));
        let same = match (&name, &own) {
            (Some(a), Some(b)) => text::same(a.as_str(), b.as_str()),
            (None, None) => true,
            _ => false,
        };
        if same {
            return true;
        }
        i = i + 1;
    }
    false
}

/// The file that holds the lessons.
pub fn lessons_file(base: &str) -> (r: String)
    ensures
        r@ == paths::under_spec(base@, "SOA.md"@),
{
    paths::under(base, "SOA.md")
}

/// Lessons as they are kept: on one line, cut, the empty ones left out, and no
/// more than the limit.
pub open spec fn validated(lessons: Seq<Seq<char>>) -> Seq<Seq<char>>
    decreases lessons.len(),
{
    if lessons.len() == 0 {
        seq![]
    } else {
        let before = validated(lessons.drop_last());
        let line = text::squash_spec(lessons.last());
        if line.len() == 0 || before.len() >= MAX_LESSONS {
            before
        } else {
            before.push(text::excerpt_spec(line, MAX_LESSON_CHARS as nat))
        }
    }
}

/// Lessons as they are kept: on one line, cut, the empty ones left out, and no
/// more than the limit.
pub fn validate_lessons(lessons: &Vec<String>) -> (r: Vec<String>)
    ensures
        text::views(r@) == validated(text::views(lessons@)),
{
    let ghost all = text::views(lessons@);
    let mut out: Vec<String> = Vec::new();
    let mut i: usize = 0;
    assert(text::views(out@) =~= seq![]);
    while i < lessons.len()
        invariant
            i <= lessons@.len(),
            all == text::views(lessons@),
            text::views(out@) == validated(all.take(i as int)),
        decreases lessons@.len() - i,
    {
        assert(all.take(i + 1).drop_last() =~= all.take(i as int));
        assert(text::views(out@).len() == out@.len());
        let line = text::squash(lessons[i].as_str());
        if !line.as_str().is_empty() && out.len() < MAX_LESSONS {
            text::add_text(&mut out, text::excerpt(line.as_str(), MAX_LESSON_CHARS));
        }
        i = i + 1;
    }
    assert(all.take(all.len() as int) =~= all);
    out
}

/// The lessons to keep, and whether a proposal to drop them all was refused:
/// deleting everything is for people to decide.
pub fn guard_lesson_wipe(existing: &Vec<String>, proposed: Vec<String>) -> (r: (Vec<String>, bool))
    ensures
        r.1 == (proposed@.len() == 0 && existing@.len() > 0),
        text::views(r.0@) == (if r.1 {
            text::views(existing@)
        } else {
            text::views(proposed@)
        }),
{
    if proposed.len() == 0 && existing.len() > 0 {
        (text::copy_list(existing), true)
    } else {
        (proposed, false)
    }
}

/// What stands in front of the lessons, in their block, and behind it.
pub open spec fn lessons_split(content: Seq<char>) -> Option<(Seq<char>, Seq<char>, Seq<char>)> {
    match block::block_span(content, LESSONS_START@, LESSONS_END@, LESSONS_START@.len()) {
        Some((s, e)) => Some(
            (
                content.take(s),
                content.subrange(s + LESSONS_START@.len(), e),
                content.skip(e + LESSONS_END@.len()),
            ),
        ),
        None => None,
    }
}

/// What stands in front of the lessons, in their block, and behind it.
pub fn split_lessons_block(content: &str) -> (r: Option<(String, String, String)>)
    ensures
        match r {
            Some((before, inner, after)) => lessons_split(content@) == Some(
                (before@, inner@, after@),
            ),
            None => lessons_split(content@) is None,
        },
{
    let skip: usize = LESSONS_START.unicode_len();
    match block::find_block(content, LESSONS_START, LESSONS_END, skip) {
        Some((s, e)) => {
            let v = text::chars(content);
            let n: usize = LESSONS_END.unicode_len();
            let before = text::text_range(v.as_slice(), 0, s);
            let inner = text::text_range(v.as_slice(), s + skip, e);
            let after = text::text_range(v.as_slice(), e + n, v.len());
            assert(before@ =~= content@.take(s as int));
            assert(after@ =~= content@.skip(e + n));
            Some((before, inner, after))
        },
        None => None,
    }
}

/// The items of lines: what stands behind a dash.
pub open spec fn items_of(lines: Seq<Seq<char>>) -> Seq<Seq<char>>
    decreases lines.len(),
{
    if lines.len() == 0 {
        seq![]
    } else {
        let before = items_of(lines.drop_last());
        match find::strip_prefix_spec(lines.last(), "- "@) {
            Some(item) => before.push(item),
            None => before,
        }
    }
}

/// The lessons that a file holds.
pub open spec fn lessons_in(content: Seq<char>) -> Seq<Seq<char>> {
    match lessons_split(content) {
        Some((_, inner, _)) => items_of(text::lines_spec(inner)),
        None => seq![],
    }
}

/// The lessons that a file holds in its block.
pub fn read_lessons(content: &str) -> (r: Vec<String>)
    ensures
        text::views(r@) == lessons_in(content@),
{
    let mut out: Vec<String> = Vec::new();
    assert(text::views(out@) =~= seq![]);
    match split_lessons_block(content) {
        Some((_, inner, _)) => {
            let lines = text::lines(inner.as_str());
            let ghost all = text::views(lines@);
            let mut i: usize = 0;
            assert(all.take(0) =~= seq![]);
            while i < lines.len()
                invariant
                    i <= lines@.len(),
                    all == text::views(lines@),
                    text::views(out@) == items_of(all.take(i as int)),
                decreases lines@.len() - i,
            {
                assert(all.take(i + 1).drop_last() =~= all.take(i as int));
                match find::strip_prefix(lines[i].as_str(), "- ") {
                    Some(item) => {
                        text::add_text(&mut out, item);
                    },
                    None => {},
                }
                i = i + 1;
            }
            assert(all.take(all.len() as int) =~= all);
        },
        None => {},
    }
    out
}

/// The lines of lessons.
pub open spec fn bullets(lessons: Seq<Seq<char>>) -> Seq<char>
    decreases lessons.len(),
{
    if lessons.len() == 0 {
        seq![]
    } else {
        bullets(lessons.drop_last()) + "- "@ + lessons.last() + "\n"@
    }
}

/// What the lessons' block begins with.
pub const LESSONS_HEAD: &'static str = "\n## Lessons (from `soa reflect`)\n\n";

/// What the lessons' block holds.
pub open spec fn lessons_inner(lessons: Seq<Seq<char>>) -> Seq<char> {
    LESSONS_HEAD@ + bullets(lessons)
}

/// The lessons' block.
pub open spec fn lessons_block(lessons: Seq<Seq<char>>) -> Seq<char> {
    LESSONS_START@ + lessons_inner(lessons) + LESSONS_END@
}

/// A file with its lessons rewritten.
pub open spec fn with_lessons(content: Seq<char>, lessons: Seq<Seq<char>>) -> Seq<char> {
    block::replaced(
        content,
        LESSONS_START@,
        LESSONS_END@,
        LESSONS_START@.len(),
        lessons_block(lessons),
        lessons_block(lessons) + "\n"@,
    )
}

/// A file with its lessons rewritten; what stands around them is kept. Without
/// lessons the markers stay, so that a place by hand survives.
pub fn replace_lessons_block(content: &str, lessons: &Vec<String>) -> (r: String)
    ensures
        r@ == with_lessons(content@, text::views(lessons@)),
{
    let ghost all = text::views(lessons@);
    let mut lines = String::new();
    let mut i: usize = 0;
    assert(lines@ =~= bullets(all.take(0)));
    while i < lessons.len()
        invariant
            i <= lessons@.len(),
            all == text::views(lessons@),
            lines@ == bullets(all.take(i as int)),
        decreases lessons@.len() - i,
    {
        assert(all.take(i + 1).drop_last() =~= all.take(i as int));
        lines.append("- ");
        lines.append(lessons[i].as_str());
        lines.append("\n");
        i = i + 1;
    }
    assert(all.take(all.len() as int) =~= all);
    let inner = text::cat2(LESSONS_HEAD, lines.as_str());
    let built = text::cat3(LESSONS_START, inner.as_str(), LESSONS_END);
    let fresh = text::cat2(built.as_str(), "\n");
    let skip: usize = LESSONS_START.unicode_len();
    block::replace_block(content, LESSONS_START, LESSONS_END, skip, built.as_str(), fresh)
}

/// The texts of a list that another one does not hold.
pub open spec fn missing_from(list: Seq<Seq<char>>, other: Seq<Seq<char>>) -> Seq<Seq<char>>
    decreases list.len(),
{
    if list.len() == 0 {
        seq![]
    } else {
        let before = missing_from(list.drop_last(), other);
        if other.contains(list.last()) {
            before
        } else {
            before.push(list.last())
        }
    }
}

fn absent(list: &Vec<String>, other: &Vec<String>, mark: &str) -> (r: Vec<String>)
    ensures
        ({
            let m = missing_from(text::views(list@), text::views(other@));
            text::views(r@) == Seq::new(m.len(), |i: int| mark@ + m[i])
        }),
{
    let ghost all = text::views(list@);
    let ghost held = text::views(other@);
    let mut out: Vec<String> = Vec::new();
    let mut i: usize = 0;
    assert(text::views(out@) =~= seq![]);
    assert(all.take(0) =~= seq![]);
    while i < list.len()
        invariant
            i <= list@.len(),
            all == text::views(list@),
            held == text::views(other@),
            text::views(out@) == Seq::new(
                missing_from(all.take(i as int), held).len(),
                |k: int| mark@ + missing_from(all.take(i as int), held)[k],
            ),
        decreases list@.len() - i,
    {
        let ghost m = missing_from(all.take(i as int), held);
        assert(all.take(i + 1).drop_last() =~= all.take(i as int));
        assert(all.take(i + 1).last() == list@[i as int]@);
        if !text::listed(other, list[i].as_str()) {
            let ghost before = text::views(out@);
            text::add_text(&mut out, text::cat2(mark, list[i].as_str()));
            let ghost next = m.push(list@[i as int]@);
            assert(text::views(out@) =~= Seq::new(next.len(), |k: int| mark@ + next[k]));
        }
        i = i + 1;
    }
    assert(all.take(all.len() as int) =~= all);
    out
}

/// The lines that show what changed: the new lessons, then the dropped ones.
pub fn lessons_diff(before: &Vec<String>, after: &Vec<String>) -> (r: (Vec<String>, Vec<String>))
    ensures
        ({
            let added = missing_from(text::views(after@), text::views(before@));
            let dropped = missing_from(text::views(before@), text::views(after@));
            &&& text::views(r.0@) == Seq::new(added.len(), |i: int| "+ "@ + added[i])
            &&& text::views(r.1@) == Seq::new(dropped.len(), |i: int| "- "@ + dropped[i])
        }),
{
    (absent(after, before, "+ "), absent(before, after, "- "))
}

/// Whether two lists of texts are the same.
pub fn same_lessons(a: &Vec<String>, b: &Vec<String>) -> (r: bool)
    ensures
        r == (text::views(a@) == text::views(b@)),
{
    let ghost x = text::views(a@);
    let ghost y = text::views(b@);
    assert(x.len() == a@.len() && y.len() == b@.len());
    if a.len() != b.len() {
        return false;
    }
    let mut i: usize = 0;
    while i < a.len()
        invariant
            i <= a@.len(),
            a@.len() == b@.len(),
            x == text::views(a@),
            y == text::views(b@),
            forall|k: int| 0 <= k < i ==> x[k] == y[k],
        decreases a@.len() - i,
    {
        assert(x[i as int] == a@[i as int]@ && y[i as int] == b@[i as int]@);
        if !text::same(a[i].as_str(), b[i].as_str()) {
            return false;
        }
        i = i + 1;
    }
    assert(x =~= y);
    true
}

// ---------------------------------------------------------------------------
// Skills
// ---------------------------------------------------------------------------

/// A skill that the model proposes.
pub struct SkillProposal {
    pub name: String,
    pub description: String,
    pub body: String,
}

/// What the model proposes.
pub struct Proposal {
    pub lessons: Vec<String>,
    pub skills: Vec<SkillProposal>,
    pub note: String,
}

/// The proposals that are taken: those whose name can be a file's, no more than
/// the limit.
pub open spec fn taken_skills(skills: Seq<SkillProposal>) -> Seq<(int, Seq<char>)>
    decreases skills.len(),
{
    if skills.len() == 0 {
        seq![]
    } else {
        let before = taken_skills(skills.drop_last());
        match slug::slug_spec(skills.last().name@) {
            Some(s) => if before.len() < MAX_SKILLS_PER_RUN {
                before.push((skills.len() - 1, s))
            } else {
                before
            },
            None => before,
        }
    }
}

/// The proposals that are taken, each by its place, and the file name of each.
pub fn select_skills(skills: &Vec<SkillProposal>) -> (r: Vec<(usize, String)>)
    ensures
        Seq::new(r@.len(), |i: int| (r@[i].0 as int, r@[i].1@)) == taken_skills(skills@),
        forall|i: int|
            0 <= i < r@.len() ==> (#[trigger] r@[i]).0 < skills@.len() && slug::is_kebab(r@[i].1@)
                && r@[i].1@.len() > 0,
{
    let mut out: Vec<(usize, String)> = Vec::new();
    let mut i: usize = 0;
    let ghost mut shown: Seq<(int, Seq<char>)> = seq![];
    while i < skills.len()
        invariant
            i <= skills@.len(),
            shown == taken_skills(skills@.take(i as int)),
            shown == Seq::new(out@.len(), |k: int| (out@[k].0 as int, out@[k].1@)),
            forall|k: int|
                0 <= k < out@.len() ==> (#[trigger] out@[k]).0 < i && slug::is_kebab(out@[k].1@)
                    && out@[k].1@.len() > 0,
        decreases skills@.len() - i,
    {
        assert(skills@.take(i + 1).drop_last() =~= skills@.take(i as int));
        assert(skills@.take(i + 1).last() == skills@[i as int]);
        assert(shown.len() == out@.len());
        match slug::slug(skills[i].name.as_str()) {
            Some(s) => {
                if out.len() < MAX_SKILLS_PER_RUN {
                    proof {
                        shown = shown.push((i as int, s@));
                    }
                    out.push((i, s));
                    assert(shown =~= Seq::new(
                        out@.len(),
                        |k: int| (out@[k].0 as int, out@[k].1@),
                    ));
                }
            },
            None => {},
        }
        i = i + 1;
    }
    assert(skills@.take(skills@.len() as int) =~= skills@);
    out
}

/// Whether a skill's file may be written: there is none, or reflection wrote
/// it.
pub fn may_write_skill(current: Option<&str>) -> (r: bool)
    ensures
        r == (match current {
            Some(s) => find::contains_spec(s@, GENERATED_MARKER@),
            None => true,
        }),
{
    match current {
        Some(s) => find::contains(s, GENERATED_MARKER),
        None => true,
    }
}

/// A skill's file.
pub open spec fn skill_file_spec(name: Seq<char>, p: SkillProposal, date: Seq<char>) -> Seq<char> {
    "---\nname: "@ + name + "\ndescription: "@ + find::replace_spec(
        p.description@,
        "\n"@,
        " "@,
        0,
    ) + "\n"@ + GENERATED_MARKER@ + " ("@ + date + ")\n---\n\n"@ + text::trim_spec(p.body@)
        + "\n"@
}

/// A skill's file, marked as written by reflection.
pub fn skill_file(name: &str, proposal: &SkillProposal, date: &str) -> (r: String)
    ensures
        r@ == skill_file_spec(name@, *proposal, date@),
{
    proof {
        reveal_strlit("\n");
    }
    let description = find::replace(proposal.description.as_str(), "\n", " ");
    let body = text::trim(proposal.body.as_str());
    let mut out = text::cat5(
        "---\nname: ",
        name,
        "\ndescription: ",
        description.as_str(),
        "\n",
    );
    out.append(GENERATED_MARKER);
    out.append(" (");
    out.append(date);
    out.append(")\n---\n\n");
    out.append(body.as_str());
    out.append("\n");
    out
}

proof fn lemma_replaced_is_line(s: Seq<char>, from: int)
    requires
        0 <= from <= s.len(),
    ensures
        !find::replace_spec(s, "\n"@, " "@, from).contains('\n'),
    decreases s.len() - from,
{
    reveal_strlit("\n");
    reveal_strlit(" ");
    let p = "\n"@;
    let out = find::replace_spec(s, p, " "@, from);
    find::lemma_find(s, p, from);
    match find::find_spec(s, p, from) {
        Some(i) => {
            let rest = find::replace_spec(s, p, " "@, i + 1);
            lemma_replaced_is_line(s, i + 1);
            assert(out == s.subrange(from, i) + " "@ + rest);
            if out.contains('\n') {
                let k = choose|k: int| 0 <= k < out.len() && out[k] == '\n';
                if k < i - from {
                    assert(s[from + k] == '\n');
                    assert(s.subrange(from + k, from + k + 1) =~= p);
                    assert(find::occurs_at(s, p, from + k));
                } else if k == i - from {
                    assert(out[k] == ' ');
                } else {
                    assert(out[k] == rest[k - (i - from) - 1]);
                }
            }
        },
        None => {
            if out.contains('\n') {
                let k = choose|k: int| 0 <= k < out.len() && out[k] == '\n';
                assert(s[from + k] == '\n');
                assert(s.subrange(from + k, from + k + 1) =~= p);
                assert(find::occurs_at(s, p, from + k));
            }
        },
    }
}

/// What a skill's file holds between its first and its second dashes.
spec fn skill_head(name: Seq<char>, description: Seq<char>, date: Seq<char>) -> Seq<char> {
    "\nname: "@ + name + "\ndescription: "@ + description + "\n"@ + GENERATED_MARKER@ + " ("@ + date
        + ")"@
}

proof fn lemma_skill_head_end(
    name: Seq<char>,
    description: Seq<char>,
    date: Seq<char>,
    tail: Seq<char>,
)
    requires
        slug::is_kebab(name),
        !description.contains('\n'),
        !date.contains('\n'),
    ensures
        find::find_spec(skill_head(name, description, date) + "\n---"@ + tail, "\n---"@, 0) == Some(
            skill_head(name, description, date).len() as int,
        ),
{
    reveal_strlit("\nname: ");
    reveal_strlit("\ndescription: ");
    reveal_strlit("\n");
    reveal_strlit("generated: soa reflect");
    reveal_strlit(" (");
    reveal_strlit(")");
    reveal_strlit("\n---");
    let head = skill_head(name, description, date);
    let s = head + "\n---"@ + tail;
    let p = "\n---"@;
    let n = head.len() as int;
    find::lemma_find(s, p, 0);
    assert(s.subrange(n, n + 4) =~= p);
    assert(find::occurs_at(s, p, n));
    let second = 7 + name.len();
    let third = second + 14 + description.len();
    let dated = third + 1 + 22 + 2;
    assert forall|j: int| 0 <= j < n implies !#[trigger] find::occurs_at(s, p, j) by {
        if find::occurs_at(s, p, j) {
            let cut = s.subrange(j, j + 4);
            assert(cut[0] == s[j] && cut[1] == s[j + 1]);
            assert(s[j] == '\n' && s[j + 1] == '-');
            if j < 7 {
                assert(s[j] == "\nname: "@[j]);
                assert(s[1] == "\nname: "@[1]);
            } else if j < second {
                assert(s[j] == name[j - 7]);
            } else if j < second + 14 {
                assert(s[j] == "\ndescription: "@[j - second]);
                assert(s[second as int + 1] == "\ndescription: "@[1]);
            } else if j < third {
                assert(s[j] == description[j - second - 14]);
            } else if j == third {
                assert(s[j + 1] == GENERATED_MARKER@[0]);
            } else if j < third + 23 {
                assert(s[j] == GENERATED_MARKER@[j - third - 1]);
            } else if j < dated {
                assert(s[j] == " ("@[j - third - 23]);
            } else if j < dated + date.len() {
                assert(s[j] == date[j - dated]);
            } else {
                assert(s[j] == ')');
            }
        }
    }
}

proof fn lemma_skill_head_lines(name: Seq<char>, description: Seq<char>, date: Seq<char>)
    requires
        slug::is_kebab(name),
        name.len() > 0,
        !description.contains('\n'),
        !date.contains('\n'),
    ensures
        text::lines_spec(skill_head(name, description, date)) == seq![
            Seq::<char>::empty(),
            "name: "@ + name,
            text::drop_cr("description: "@ + description),
            GENERATED_MARKER@ + " ("@ + date + ")"@,
        ],
{
    reveal_strlit("\nname: ");
    reveal_strlit("name: ");
    reveal_strlit("\ndescription: ");
    reveal_strlit("description: ");
    reveal_strlit("\n");
    reveal_strlit("generated: soa reflect");
    reveal_strlit(" (");
    reveal_strlit(")");
    let feed = seq!['\n'];
    let none = Seq::<char>::empty();
    let first = "name: "@ + name;
    let second = "description: "@ + description;
    let third = GENERATED_MARKER@ + " ("@ + date + ")"@;
    assert(!none.contains('\n'));
    text::lemma_line_ends(none, none, feed);
    assert(none + none + feed =~= feed);
    assert(!first.contains('\n')) by {
        if first.contains('\n') {
            let k = first.index_of('\n');
            if k >= 6 {
                assert(first[k] == name[k - 6]);
            }
        }
    }
    assert(first.last() == name.last());
    text::lemma_line_ends(feed, first, feed);
    assert(!second.contains('\n')) by {
        if second.contains('\n') {
            let k = second.index_of('\n');
            if k >= 13 {
                assert(second[k] == description[k - 13]);
            }
        }
    }
    let two = feed + first + feed;
    text::lemma_lines_grow(two, second);
    assert(none + second =~= second);
    let three = two + second + feed;
    assert(three.drop_last() =~= two + second);
    assert(three.last() == '\n');
    assert(text::lines_state(three) == (seq![none].push(first).push(text::drop_cr(second)), none));
    assert(!third.contains('\n')) by {
        if third.contains('\n') {
            let k = third.index_of('\n');
            if 24 <= k < 24 + date.len() {
                assert(third[k] == date[k - 24]);
            }
        }
    }
    text::lemma_lines_grow(three, third);
    assert(none + third =~= third);
    assert(skill_head(name, description, date) =~= three + third);
    assert(seq![none].push(first).push(text::drop_cr(second)).push(third) =~= seq![
        none,
        first,
        text::drop_cr(second),
        third,
    ]);
}

proof fn lemma_skill_head_fields(
    name: Seq<char>,
    description: Seq<char>,
    date: Seq<char>,
    given: Seq<char>,
)
    requires
        slug::is_kebab(name),
        name.len() > 0,
    ensures
        skills::head_fields(
            seq![
                Seq::<char>::empty(),
                "name: "@ + name,
                text::drop_cr("description: "@ + description),
                GENERATED_MARKER@ + " ("@ + date + ")"@,
            ],
            given,
        ) == (name, text::trim_spec(description)),
{
    reveal_strlit("name: ");
    reveal_strlit("name");
    reveal_strlit("description: ");
    reveal_strlit("description");
    reveal_strlit("generated: soa reflect");
    reveal_strlit(" (");
    reveal_strlit(")");
    let none = Seq::<char>::empty();
    let space = seq![' '];
    let first = "name: "@ + name;
    let second = text::drop_cr("description: "@ + description);
    let third = GENERATED_MARKER@ + " ("@ + date + ")"@;
    let lines = seq![none, first, second, third];
    assert(lines.drop_last() =~= seq![none, first, second]);
    assert(seq![none, first, second].drop_last() =~= seq![none, first]);
    assert(seq![none, first].drop_last() =~= seq![none]);
    assert(seq![none].drop_last() =~= seq![]);
    assert(find::split_once_spec(none, ':') is None) by {
        find::lemma_find(none, seq![':'], 0);
    }
    assert(skills::head_fields(seq![none], given) == (given, none)) by {
        assert(skills::head_fields(seq![], given) == (given, Seq::<char>::empty()));
        assert(seq![none].last() == none);
    }
    assert(first =~= "name"@ + seq![':'] + (space + name));
    find::lemma_split_at("name"@, ':', space + name);
    text_laws::lemma_trim_padded(seq![], "name"@, seq![]);
    assert(seq![] + "name"@ + seq![] =~= "name"@);
    assert(text_laws::is_trimmed(name)) by {
        assert(!text::is_white_spec(name[0]));
        assert(!text::is_white_spec(name.last()));
    }
    text_laws::lemma_trim_padded(space, name, seq![]);
    assert(space + name + seq![] =~= space + name);
    assert(skills::head_fields(seq![none, first], given) == (name, none));
    let kept = text::drop_cr(description);
    assert(second =~= "description"@ + seq![':'] + (space + kept));
    find::lemma_split_at("description"@, ':', space + kept);
    text_laws::lemma_trim_padded(seq![], "description"@, seq![]);
    assert(seq![] + "description"@ + seq![] =~= "description"@);
    assert("description"@.len() != "name"@.len());
    text_laws::lemma_trim_ignores_padding(space, kept, seq![]);
    assert(space + kept + seq![] =~= space + kept);
    if description.len() > 0 && description.last() == '\r' {
        text_laws::lemma_trim_ignores_padding(seq![], kept, seq!['\r']);
        assert(seq![] + kept + seq!['\r'] =~= description);
    }
    assert(skills::head_fields(seq![none, first, second], given) == (
        name,
        text::trim_spec(description),
    ));
    let key = seq!['g', 'e', 'n', 'e', 'r', 'a', 't', 'e', 'd'];
    let value = GENERATED_MARKER@.skip(10) + " ("@ + date + ")"@;
    assert(third =~= key + seq![':'] + value);
    find::lemma_split_at(key, ':', value);
    text_laws::lemma_trim_padded(seq![], key, seq![]);
    assert(seq![] + key + seq![] =~= key);
    assert(key.len() != "name"@.len() && key.len() != "description"@.len());
}

/// A skill that was written is read back: its file gives the name, the
/// description on one line and the body that were proposed.
pub proof fn law_written_skills_read_back(
    name: Seq<char>,
    p: SkillProposal,
    date: Seq<char>,
    given: Seq<char>,
)
    requires
        slug::is_kebab(name),
        name.len() > 0,
        !date.contains('\n'),
    ensures
        skills::frontmatter_spec(given, skill_file_spec(name, p, date)) == (skills::FrontView {
            name,
            description: text::trim_spec(find::replace_spec(p.description@, "\n"@, " "@, 0)),
            body: text::trim_spec(p.body@),
        }),
{
    let line = find::replace_spec(p.description@, "\n"@, " "@, 0);
    let body = text::trim_spec(p.body@);
    let raw = skill_file_spec(name, p, date);
    lemma_replaced_is_line(p.description@, 0);
    text_laws::lemma_trim_is_trimmed(p.body@);
    reveal_strlit("---\nname: ");
    reveal_strlit("---");
    reveal_strlit("\nname: ");
    reveal_strlit(")\n---\n\n");
    reveal_strlit(")");
    reveal_strlit("\n---");
    reveal_strlit("\n");
    let head = skill_head(name, line, date);
    let gap = seq!['\n', '\n'];
    let tail = gap + body + "\n"@;
    let rest = head + "\n---"@ + tail;
    assert("---\nname: "@ =~= "---"@ + "\nname: "@);
    assert(")\n---\n\n"@ =~= ")"@ + "\n---"@ + gap);
    assert(raw =~= "---"@ + rest);
    assert(raw.take(3) =~= "---"@);
    assert(raw.skip(3) =~= rest);
    lemma_skill_head_end(name, line, date, tail);
    assert(rest.take(head.len() as int) =~= head);
    assert(rest.skip(head.len() as int + 4) =~= tail);
    lemma_skill_head_lines(name, line, date);
    lemma_skill_head_fields(name, line, date, given);
    assert(text::is_white_spec('\n'));
    text_laws::lemma_trim_padded(gap, body, "\n"@);
}

/// What reflection wrote it may write again.
pub proof fn law_own_skills_may_be_rewritten(name: Seq<char>, p: SkillProposal, date: Seq<char>)
    ensures
        find::contains_spec(skill_file_spec(name, p, date), GENERATED_MARKER@),
{
    let raw = skill_file_spec(name, p, date);
    let before = "---\nname: "@ + name + "\ndescription: "@ + find::replace_spec(
        p.description@,
        "\n"@,
        " "@,
        0,
    ) + "\n"@;
    let at = before.len() as int;
    let marker = GENERATED_MARKER@;
    assert(raw.subrange(at, at + marker.len()) =~= marker);
    assert(find::occurs_at(raw, marker, at));
    find::lemma_find(raw, marker, 0);
}

// ---------------------------------------------------------------------------
// Laws
// ---------------------------------------------------------------------------

proof fn lemma_markers()
    ensures
        block::markers(LESSONS_START@, LESSONS_END@),
{
    reveal_strlit(
        "<!-- soa:lessons:start — managed by `soa reflect`; edit outside this block -->",
    );
    reveal_strlit("<!-- soa:lessons:end -->");
    let s = LESSONS_START@;
    let e = LESSONS_END@;
    assert(s[17] != e[17]);
}

/// What people wrote around the lessons survives every rewriting, and the
/// block then holds the new lessons.
pub proof fn law_notes_around_the_lessons_are_kept(content: Seq<char>, lessons: Seq<Seq<char>>)
    requires
        block::tidy(content, LESSONS_START@, LESSONS_END@, LESSONS_START@.len()),
        !find::contains_spec(lessons_inner(lessons), LESSONS_END@),
    ensures
        ({
            let skip = LESSONS_START@.len();
            let before = block::kept_before(content, LESSONS_START@, LESSONS_END@, skip, seq![]);
            let after = block::kept_after(content, LESSONS_START@, LESSONS_END@, skip);
            &&& with_lessons(content, lessons) == before + lessons_block(lessons) + after
            &&& lessons_split(with_lessons(content, lessons)) == Some(
                (before, lessons_inner(lessons), after),
            )
        }),
{
    lemma_markers();
    let none = Seq::<char>::empty();
    let built = lessons_block(lessons);
    assert(none + built + "\n"@ =~= built + "\n"@);
    block::law_rewriting_keeps_the_rest(
        content,
        LESSONS_START@,
        LESSONS_END@,
        LESSONS_START@.len(),
        lessons_inner(lessons),
        none,
    );
}

/// There is one block: rewriting the lessons again replaces it.
pub proof fn law_the_lessons_are_replaced(
    content: Seq<char>,
    earlier: Seq<Seq<char>>,
    later: Seq<Seq<char>>,
)
    requires
        block::tidy(content, LESSONS_START@, LESSONS_END@, LESSONS_START@.len()),
        !find::contains_spec(lessons_inner(earlier), LESSONS_END@),
    ensures
        with_lessons(with_lessons(content, earlier), later) == with_lessons(content, later),
{
    lemma_markers();
    let none = Seq::<char>::empty();
    assert(none + lessons_block(earlier) + "\n"@ =~= lessons_block(earlier) + "\n"@);
    assert(none + lessons_block(later) + "\n"@ =~= lessons_block(later) + "\n"@);
    block::law_the_last_rewriting_counts(
        content,
        LESSONS_START@,
        LESSONS_END@,
        LESSONS_START@.len(),
        lessons_inner(earlier),
        lessons_inner(later),
        none,
    );
}

/// Whether a text is one line of a file: it holds no line's end.
pub open spec fn one_line(s: Seq<char>) -> bool {
    !s.contains('\n') && (s.len() > 0 ==> s.last() != '\r')
}

proof fn lemma_items_after_head(lines: Seq<Seq<char>>, lessons: Seq<Seq<char>>)
    requires
        items_of(lines).len() == 0,
    ensures
        items_of(lines + bulleted(lessons)) == lessons,
    decreases lessons.len(),
{
    reveal_strlit("- ");
    if lessons.len() == 0 {
        assert(lines + bulleted(lessons) =~= lines);
        assert(items_of(lines) =~= lessons);
    } else {
        let all = lines + bulleted(lessons);
        assert(all.drop_last() =~= lines + bulleted(lessons.drop_last()));
        assert(all.last() == "- "@ + lessons.last());
        assert(("- "@ + lessons.last()).take(2) =~= "- "@);
        assert(("- "@ + lessons.last()).skip(2) =~= lessons.last());
        lemma_items_after_head(lines, lessons.drop_last());
        assert(lessons.drop_last().push(lessons.last()) =~= lessons);
    }
}

proof fn lemma_bullet_lines(head: Seq<char>, lessons: Seq<Seq<char>>)
    requires
        text::lines_state(head).1.len() == 0,
        forall|i: int| 0 <= i < lessons.len() ==> one_line(#[trigger] lessons[i]),
    ensures
        text::lines_state(head + bullets(lessons)) == (
            text::lines_state(head).0 + bulleted(lessons),
            Seq::<char>::empty(),
        ),
    decreases lessons.len(),
{
    reveal_strlit("- ");
    reveal_strlit("\n");
    let done = text::lines_state(head).0;
    if lessons.len() == 0 {
        assert(head + bullets(lessons) =~= head);
        assert(done + bulleted(lessons) =~= done);
        assert(text::lines_state(head).1 =~= seq![]);
    } else {
        let rest = lessons.drop_last();
        assert forall|i: int| 0 <= i < rest.len() implies one_line(#[trigger] rest[i]) by {
            assert(one_line(lessons[i]));
        }
        lemma_bullet_lines(head, rest);
        let last = lessons.last();
        assert(one_line(lessons[lessons.len() - 1]));
        let line = "- "@ + last;
        let s = head + bullets(rest);
        assert(!line.contains('\n')) by {
            if line.contains('\n') {
                let k = line.index_of('\n');
                if k >= 2 {
                    assert(last[k - 2] == '\n');
                    assert(last.contains('\n'));
                }
            }
        }
        assert(line.last() != '\r');
        assert("\n"@ =~= seq!['\n']);
        text::lemma_line_ends(s, line, "\n"@);
        assert(head + bullets(lessons) =~= s + line + "\n"@);
        assert((done + bulleted(rest)).push(line) =~= done + bulleted(lessons));
    }
}

proof fn lemma_head_lines()
    ensures
        text::lines_state(LESSONS_HEAD@).1.len() == 0,
        items_of(text::lines_state(LESSONS_HEAD@).0).len() == 0,
{
    let title = "## Lessons (from `soa reflect`)"@;
    reveal_strlit("\n## Lessons (from `soa reflect`)\n\n");
    reveal_strlit("## Lessons (from `soa reflect`)");
    reveal_strlit("- ");
    let none = Seq::<char>::empty();
    let feed = seq!['\n'];
    assert(!none.contains('\n'));
    assert(!title.contains('\n'));
    text::lemma_line_ends(none, none, feed);
    assert(none + none + feed =~= feed);
    text::lemma_line_ends(feed, title, feed);
    let two = feed + title + feed;
    text::lemma_line_ends(two, none, feed);
    assert(LESSONS_HEAD@ =~= two + none + feed);
    let lines = seq![none].push(title).push(none);
    assert(text::lines_state(LESSONS_HEAD@).0 =~= lines);
    assert(lines.drop_last() =~= seq![none].push(title));
    assert(seq![none].push(title).drop_last() =~= seq![none]);
    assert(seq![none].drop_last() =~= seq![]);
    assert(items_of(seq![]) =~= seq![]);
    assert(find::strip_prefix_spec(none, "- "@) is None);
    assert(items_of(seq![none]) =~= seq![]);
    assert(title.take(2)[0] == '#');
    assert(find::strip_prefix_spec(title, "- "@) is None);
    assert(items_of(seq![none].push(title)) =~= seq![]);
}

/// What is written is what is read: the lessons that a file holds after a
/// rewriting are the ones that were put in.
pub proof fn law_lessons_read_back(content: Seq<char>, lessons: Seq<Seq<char>>)
    requires
        block::tidy(content, LESSONS_START@, LESSONS_END@, LESSONS_START@.len()),
        !find::contains_spec(lessons_inner(lessons), LESSONS_END@),
        forall|i: int| 0 <= i < lessons.len() ==> one_line(#[trigger] lessons[i]),
    ensures
        lessons_in(with_lessons(content, lessons)) == lessons,
{
    law_notes_around_the_lessons_are_kept(content, lessons);
    lemma_head_lines();
    lemma_bullet_lines(LESSONS_HEAD@, lessons);
    lemma_items_after_head(text::lines_state(LESSONS_HEAD@).0, lessons);
}

/// Whether a pattern stands nowhere in a text.
pub open spec fn free_of(s: Seq<char>, pat: Seq<char>) -> bool {
    forall|j: int| !#[trigger] find::occurs_at(s, pat, j)
}

proof fn lemma_part_is_free(s: Seq<char>, pat: Seq<char>, from: int, to: int)
    requires
        free_of(s, pat),
        0 <= from <= to <= s.len(),
    ensures
        free_of(s.subrange(from, to), pat),
{
    let t = s.subrange(from, to);
    assert forall|j: int| !#[trigger] find::occurs_at(t, pat, j) by {
        if find::occurs_at(t, pat, j) {
            assert(s.subrange(from + j, from + j + pat.len()) =~= t.subrange(j, j + pat.len()));
            assert(find::occurs_at(s, pat, from + j));
        }
    }
}

proof fn lemma_lines_are_free(s: Seq<char>, pat: Seq<char>)
    requires
        free_of(s, pat),
    ensures
        text::lines_state(s).1.len() <= s.len(),
        text::lines_state(s).1 == s.skip(s.len() - text::lines_state(s).1.len()),
        forall|i: int|
            0 <= i < text::lines_state(s).0.len() ==> free_of(
                #[trigger] text::lines_state(s).0[i],
                pat,
            ),
    decreases s.len(),
{
    if s.len() == 0 {
        assert(text::lines_state(s).1 =~= s.skip(0));
    } else {
        let n = s.len() - 1;
        lemma_part_is_free(s, pat, 0, n);
        assert(s.subrange(0, n) =~= s.drop_last());
        lemma_lines_are_free(s.drop_last(), pat);
        let (done, open) = text::lines_state(s.drop_last());
        let from = n - open.len();
        assert(open =~= s.subrange(from, n));
        if s.last() == '\n' {
            let line = text::drop_cr(open);
            assert(line =~= s.subrange(from, from + line.len()));
            lemma_part_is_free(s, pat, from, from + line.len());
            assert(text::lines_state(s).1 =~= s.skip(s.len() as int));
        } else {
            assert(open.push(s.last()) =~= s.skip(from));
        }
    }
}

proof fn lemma_items_are_free(lines: Seq<Seq<char>>, pat: Seq<char>)
    requires
        forall|i: int| 0 <= i < lines.len() ==> free_of(#[trigger] lines[i], pat),
    ensures
        forall|i: int| 0 <= i < items_of(lines).len() ==> free_of(#[trigger] items_of(lines)[i], pat),
    decreases lines.len(),
{
    if lines.len() > 0 {
        let rest = lines.drop_last();
        assert forall|i: int| 0 <= i < rest.len() implies free_of(#[trigger] rest[i], pat) by {
            assert(free_of(lines[i], pat));
        }
        lemma_items_are_free(rest, pat);
        let line = lines.last();
        assert(free_of(lines[lines.len() - 1], pat));
        if find::starts_spec(line, "- "@) {
            let n = "- "@.len() as int;
            assert(line.skip(n) =~= line.subrange(n, line.len() as int));
            lemma_part_is_free(line, pat, n, line.len() as int);
        }
        let before = items_of(rest);
        assert forall|i: int| 0 <= i < items_of(lines).len() implies free_of(
            #[trigger] items_of(lines)[i],
            pat,
        ) by {
            if i < before.len() {
                assert(items_of(lines)[i] == before[i]);
            }
        }
    }
}

proof fn lemma_char_at(s: Seq<char>, pat: Seq<char>, j: int, k: int)
    requires
        find::occurs_at(s, pat, j),
        0 <= k < pat.len(),
    ensures
        s[j + k] == pat[k],
{
    assert(s.subrange(j, j + pat.len())[k] == s[j + k]);
}

proof fn lemma_bullets_are_free(lessons: Seq<Seq<char>>)
    requires
        forall|i: int| 0 <= i < lessons.len() ==> free_of(#[trigger] lessons[i], LESSONS_END@),
    ensures
        free_of(lessons_inner(lessons), LESSONS_END@),
        lessons_inner(lessons).last() == '\n',
        lessons_inner(lessons).len() > 0,
    decreases lessons.len(),
{
    reveal_strlit("- ");
    reveal_strlit("\n");
    reveal_strlit("<!-- soa:lessons:end -->");
    reveal_strlit("\n## Lessons (from `soa reflect`)\n\n");
    let pat = LESSONS_END@;
    let all = lessons_inner(lessons);
    if lessons.len() == 0 {
        assert(all =~= LESSONS_HEAD@);
        assert forall|j: int| !#[trigger] find::occurs_at(all, pat, j) by {
            if find::occurs_at(all, pat, j) {
                lemma_char_at(all, pat, j, 0);
                assert(LESSONS_HEAD@[j] == '<');
            }
        }
    } else {
        let rest = lessons.drop_last();
        assert forall|i: int| 0 <= i < rest.len() implies free_of(#[trigger] rest[i], pat) by {
            assert(free_of(lessons[i], pat));
        }
        lemma_bullets_are_free(rest);
        let head = lessons_inner(rest);
        let last = lessons.last();
        assert(free_of(lessons[lessons.len() - 1], pat));
        assert(all =~= head + "- "@ + last + "\n"@);
        let n = head.len() as int;
        assert forall|j: int| !#[trigger] find::occurs_at(all, pat, j) by {
            if find::occurs_at(all, pat, j) {
                lemma_char_at(all, pat, j, 0);
                if j + pat.len() <= n {
                    assert(head.subrange(j, j + pat.len()) =~= all.subrange(j, j + pat.len()));
                    assert(find::occurs_at(head, pat, j));
                } else if j < n {
                    lemma_char_at(all, pat, j, n - 1 - j);
                    assert(all[n - 1] == head[n - 1]);
                } else if j < n + 2 {
                    assert(all[j] == "- "@[j - n]);
                } else if j + pat.len() <= n + 2 + last.len() {
                    let k = j - n - 2;
                    assert(last.subrange(k, k + pat.len()) =~= all.subrange(j, j + pat.len()));
                    assert(find::occurs_at(last, pat, k));
                } else {
                    lemma_char_at(all, pat, j, n + 2 + last.len() - j);
                    assert(all[n + 2 + last.len()] == '\n');
                }
            }
        }
    }
}

proof fn lemma_held_lessons_are_free(content: Seq<char>)
    ensures
        !find::contains_spec(lessons_inner(lessons_in(content)), LESSONS_END@),
{
    let pat = LESSONS_END@;
    let held = lessons_in(content);
    match block::block_span(content, LESSONS_START@, pat, LESSONS_START@.len()) {
        Some((s, e)) => {
            let from = s + LESSONS_START@.len();
            find::lemma_find(content, LESSONS_START@, 0);
            find::lemma_find(content, pat, from);
            let inner = content.subrange(from, e);
            reveal_strlit("<!-- soa:lessons:end -->");
            assert forall|j: int| !#[trigger] find::occurs_at(inner, pat, j) by {
                if find::occurs_at(inner, pat, j) {
                    assert(content.subrange(from + j, from + j + pat.len()) =~= inner.subrange(
                        j,
                        j + pat.len(),
                    ));
                    assert(find::occurs_at(content, pat, from + j));
                }
            }
            lemma_lines_are_free(inner, pat);
            let (done, open) = text::lines_state(inner);
            assert(open =~= inner.subrange(inner.len() - open.len(), inner.len() as int));
            lemma_part_is_free(inner, pat, inner.len() - open.len(), inner.len() as int);
            lemma_items_are_free(text::lines_spec(inner), pat);
        },
        None => {},
    }
    lemma_bullets_are_free(held);
    find::lemma_find(lessons_inner(held), pat, 0);
}

/// Putting back what was there: once lessons are rewritten, rewriting them with
/// those that the file held gives a file that holds them again, with the text
/// around them as the first rewriting left it.
pub proof fn law_earlier_lessons_come_back(content: Seq<char>, proposed: Seq<Seq<char>>)
    requires
        block::tidy(content, LESSONS_START@, LESSONS_END@, LESSONS_START@.len()),
        !find::contains_spec(lessons_inner(proposed), LESSONS_END@),
        forall|i: int| 0 <= i < lessons_in(content).len() ==> one_line(#[trigger] lessons_in(content)[i]),
    ensures
        lessons_in(with_lessons(with_lessons(content, proposed), lessons_in(content)))
            == lessons_in(content),
        with_lessons(with_lessons(content, proposed), lessons_in(content)) == with_lessons(
            content,
            lessons_in(content),
        ),
{
    law_the_lessons_are_replaced(content, proposed, lessons_in(content));
    lemma_held_lessons_are_free(content);
    law_lessons_read_back(content, lessons_in(content));
}

/// Validated lessons are lines without white space at their edges, none of
/// them empty, and they stay within the limits.
pub proof fn law_validated_lessons_are_lines(lessons: Seq<Seq<char>>)
    ensures
        validated(lessons).len() <= MAX_LESSONS,
        forall|i: int|
            0 <= i < validated(lessons).len() ==> one_line(#[trigger] validated(lessons)[i])
                && 0 < validated(lessons)[i].len() <= MAX_LESSON_CHARS + 1,
    decreases lessons.len(),
{
    if lessons.len() > 0 {
        law_validated_lessons_are_lines(lessons.drop_last());
        let before = validated(lessons.drop_last());
        let line = text::squash_spec(lessons.last());
        if !(line.len() == 0 || before.len() >= MAX_LESSONS) {
            text_laws::lemma_squash_is_line(lessons.last());
            text_laws::lemma_excerpt_is_line(line, MAX_LESSON_CHARS as nat);
            let kept = text::excerpt_spec(line, MAX_LESSON_CHARS as nat);
            assert(kept.len() > 0) by {
                lemma_squash_keeps_something(line);
            }
            assert(one_line(kept)) by {
                assert(text::is_white_spec('\n') && text::is_white_spec('\r'));
                if kept.contains('\n') {
                    let k = kept.index_of('\n');
                    assert(kept[k] == '\n');
                }
            }
            assert forall|i: int| 0 <= i < validated(lessons).len() implies one_line(
                #[trigger] validated(lessons)[i],
            ) && 0 < validated(lessons)[i].len() <= MAX_LESSON_CHARS + 1 by {
                if i < before.len() {
                    assert(validated(lessons)[i] == before[i]);
                }
            }
        }
    }
}

proof fn lemma_squash_keeps_something(s: Seq<char>)
    requires
        text_laws::is_trimmed(s),
        s.len() > 0,
    ensures
        text::squash_spec(s).len() > 0,
        text::excerpt_spec(s, MAX_LESSON_CHARS as nat).len() > 0,
{
    reveal_strlit("…");
    let words = text::words_spec(s);
    let (done, open) = text::words_state(s);
    assert(!text::is_white_spec(s.last()));
    assert(open.len() > 0);
    assert(words.last() == open);
    text_laws::lemma_squash_of_words(s);
}

// ---------------------------------------------------------------------------
// Bookkeeping
// ---------------------------------------------------------------------------

/// When the session of an id was last saved, of those at the places; the last
/// place counts.
pub open spec fn saved_at(sessions: Seq<Session>, places: Seq<usize>, id: Seq<char>) -> Option<u64>
    decreases places.len(),
{
    if places.len() == 0 {
        None
    } else if sessions[places.last() as int].id@ == id {
        Some(sessions[places.last() as int].updated_at)
    } else {
        saved_at(sessions, places.drop_last(), id)
    }
}

/// Whether marks hold those of sessions besides the earlier ones.
pub open spec fn marks_added(
    before: Table<u64>,
    after: Table<u64>,
    sessions: Seq<Session>,
    places: Seq<usize>,
) -> bool {
    forall|id: Seq<char>|
        match saved_at(sessions, places, id) {
            Some(at) => #[trigger] after.has_name(id) && after.at(id) == at,
            None => after.has_name(id) == before.has_name(id) && (before.has_name(id)
                ==> after.at(id) == before.at(id)),
        }
}

/// Mark sessions as looked at, each at its last saving.
pub fn mark_reflected(reflected: &mut Table<u64>, sessions: &Vec<Session>, places: &Vec<usize>)
    requires
        old(reflected).ordered(),
        forall|i: int| 0 <= i < places@.len() ==> (#[trigger] places@[i]) < sessions@.len(),
    ensures
        final(reflected).ordered(),
        marks_added(*old(reflected), *final(reflected), sessions@, places@),
{
    let ghost start = *reflected;
    let mut i: usize = 0;
    assert(places@.take(0) =~= seq![]);
    while i < places.len()
        invariant
            i <= places@.len(),
            reflected.ordered(),
            forall|k: int| 0 <= k < places@.len() ==> (#[trigger] places@[k]) < sessions@.len(),
            marks_added(start, *reflected, sessions@, places@.take(i as int)),
        decreases places@.len() - i,
    {
        let ghost before = *reflected;
        let place: usize = places[i];
        let session = &sessions[place];
        reflected.insert(session.id.clone(), session.updated_at);
        assert(places@.take(i + 1).drop_last() =~= places@.take(i as int));
        assert(places@.take(i + 1).last() == place);
        assert(marks_added(start, *reflected, sessions@, places@.take(i + 1))) by {
            assert forall|id: Seq<char>|
                match saved_at(sessions@, places@.take(i + 1), id) {
                    Some(at) => #[trigger] reflected.has_name(id) && reflected.at(id) == at,
                    None => reflected.has_name(id) == start.has_name(id) && (start.has_name(id)
                        ==> reflected.at(id) == start.at(id)),
                } by {
                if id != session.id@ {
                    assert(reflected.has_name(id) == before.has_name(id));
                }
            }
        }
        i = i + 1;
    }
    assert(places@.take(places@.len() as int) =~= places@);
}

/// A session that was looked at is not new again until it is saved again.
pub proof fn law_reflected_sessions_are_not_new(
    before: Table<u64>,
    after: Table<u64>,
    sessions: Seq<Session>,
    place: usize,
    cwd: Seq<char>,
)
    requires
        place < sessions.len(),
        marks_added(before, after, sessions, seq![place]),
    ensures
        !is_new(sessions[place as int], cwd, after),
{
    let id = sessions[place as int].id@;
    assert(seq![place].last() == place);
    assert(saved_at(sessions, seq![place], id) == Some(sessions[place as int].updated_at));
    assert(after.has_name(id));
}

} // verus!
