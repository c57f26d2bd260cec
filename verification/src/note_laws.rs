//! What holds of skills, memories, instructions and what servers answer.

use vstd::prelude::*;
use vstd::string::*;

use crate::anthropic_laws;
use crate::brain;
use crate::brain::BrainOp;
use crate::config;
use crate::config::ProjectContext;
use crate::json;
use crate::loading;
use crate::mcp;
use crate::paths;
use crate::skills;
use crate::skills::Skill;
use crate::skills::SkillFile;
use crate::slug;
use crate::table::Table;
use crate::terminal;
use crate::text;
use crate::usage_stats;

verus! {

// ---------------------------------------------------------------------------
// Skills
// ---------------------------------------------------------------------------

/// The head of a file is read line by line: behind `name:` and `description:`
/// stand the name and the description, without white space around them; other
/// lines say nothing.
pub proof fn law_heads_name_and_describe(
    lines: Seq<Seq<char>>,
    name: Seq<char>,
    key: Seq<char>,
    value: Seq<char>,
)
    requires
        !key.contains(':'),
    ensures
        skills::head_fields(seq![], name) == (name, Seq::<char>::empty()),
        ({
            let line = key + seq![':'] + value;
            let before = skills::head_fields(lines, name);
            let after = skills::head_fields(lines.push(line), name);
            &&& text::trim_spec(key) == "name"@ ==> after == (text::trim_spec(value), before.1)
            &&& text::trim_spec(key) == "description"@ ==> after == (
                before.0,
                text::trim_spec(value),
            )
            &&& text::trim_spec(key) != "name"@ && text::trim_spec(key) != "description"@
                ==> after == before
        }),
        skills::head_fields(lines.push(key), name) == skills::head_fields(lines, name),
{
    reveal_strlit("name");
    reveal_strlit("description");
    assert("name"@.len() == 4);
    assert("description"@.len() == 11);
    let line = key + seq![':'] + value;
    crate::splitting_laws::law_pieces_end_at_the_character(key, ':', value);
    assert(lines.push(line).drop_last() =~= lines);
    assert(lines.push(key).drop_last() =~= lines);
}

/// A skill is looked for in each directory in turn, as a directory with a file
/// of its own and as a file; the first file that is there counts.
pub proof fn law_the_first_skill_file_counts(
    dirs: Seq<Seq<char>>,
    dir: Seq<char>,
    name: Seq<char>,
    files: Seq<SkillFile>,
    i: int,
)
    ensures
        skills::candidates_spec(seq![], name) == Seq::<Seq<char>>::empty(),
        skills::candidates_spec(dirs.push(dir), name) == skills::candidates_spec(dirs, name) + seq![
            paths::under_spec(paths::under_spec(dir, name), "SKILL.md"@),
            paths::under_spec(dir, name + ".md"@),
        ],
        0 <= i < files.len() && !(files[i] is Missing) && (forall|j: int|
            0 <= j < i ==> (#[trigger] files[j]) is Missing) ==> match files[i] {
            SkillFile::Found(raw) => skills::load_spec(dirs, name, files) == Ok::<_, Seq<char>>(
                skills::skill_spec(name, raw@, skills::candidates_spec(dirs, name)[i]),
            ),
            _ => skills::load_spec(dirs, name, files) is Err,
        },
        (forall|j: int| 0 <= j < files.len() ==> (#[trigger] files[j]) is Missing)
            ==> skills::load_spec(dirs, name, files) is Err,
{
    assert(dirs.push(dir).drop_last() =~= dirs);
    assert(skills::candidates_spec(dirs.push(dir), name) =~= skills::candidates_spec(dirs, name)
        + seq![
        paths::under_spec(paths::under_spec(dir, name), "SKILL.md"@),
        paths::under_spec(dir, name + ".md"@),
    ]);
    lemma_first_file(files, 0);
}

proof fn lemma_first_file(files: Seq<SkillFile>, from: int)
    requires
        0 <= from <= files.len(),
    ensures
        match skills::first_file(files, from) {
            Some(i) => from <= i < files.len() && !(files[i] is Missing) && (forall|j: int|
                from <= j < i ==> (#[trigger] files[j]) is Missing),
            None => forall|j: int| from <= j < files.len() ==> (#[trigger] files[j]) is Missing,
        },
    decreases files.len() - from,
{
    if from < files.len() && files[from] is Missing {
        lemma_first_file(files, from + 1);
    }
}

/// Each skill of a prompt stands behind what came before, under its name and
/// with its body, and each file of instructions under its path.
pub proof fn law_prompts_hold_every_skill(
    system: Seq<char>,
    list: Seq<Skill>,
    skill: Skill,
    contexts: Seq<ProjectContext>,
    context: ProjectContext,
)
    ensures
        skills::composed_spec(system, seq![]) == system,
        skills::composed_spec(system, list).len() > 0 ==> skills::composed_spec(
            system,
            list.push(skill),
        ) == skills::composed_spec(system, list) + "\n\n"@ + ("# Skill: "@ + skill.name@ + "\n\n"@
            + skill.body@),
        skills::instructed_spec(system, seq![]) == system,
        skills::instructed_spec(system, contexts).len() > 0 ==> skills::instructed_spec(
            system,
            contexts.push(context),
        ) == skills::instructed_spec(system, contexts) + "\n\n"@ + "# Project instructions ("@
            + context.path@ + ")\n\n"@ + context.content@,
{
    assert(list.push(skill).drop_last() =~= list);
    assert(list.push(skill).last() == skill);
    assert(contexts.push(context).drop_last() =~= contexts);
    assert(contexts.push(context).last() == context);
}

/// A listing of skills takes each one that was found, once: the first under a
/// name counts, and what could not be read is left out.
pub proof fn law_listed_skills_are_told_apart(
    found: Seq<(String, Option<Skill>)>,
    name: String,
    skill: Skill,
)
    ensures
        skills::gathered(seq![]) == Seq::<Skill>::empty(),
        skills::gathered(found.push((name, None))) == skills::gathered(found),
        ({
            let before = skills::gathered(found);
            let seen = exists|i: int|
                0 <= i < before.len() && (#[trigger] before[i]).name@ == name@;
            skills::gathered(found.push((name, Some(skill)))) == if name@.len() > 0 && !seen {
                before.push(skill)
            } else {
                before
            }
        }),
{
    let a: (String, Option<Skill>) = (name, None);
    let b = (name, Some(skill));
    assert(found.push(a).drop_last() =~= found);
    assert(found.push(b).drop_last() =~= found);
    assert(found.push(a).last() == a);
    assert(found.push(b).last() == b);
}

// ---------------------------------------------------------------------------
// Memories
// ---------------------------------------------------------------------------

/// The index has a line for each memory, in order, with its name and its
/// description.
pub proof fn law_the_index_lists_every_memory(list: Seq<brain::Memory>, m: brain::Memory)
    ensures
        brain::index_body(seq![]) == Seq::<char>::empty(),
        m.description@.len() > 0 ==> brain::index_body(list.push(m)) == brain::index_body(list) + (
        "- **"@ + m.name@ + "** — "@ + m.description@ + "\n"@),
        list.len() > 0 ==> brain::index_spec(list) == brain::index_body(list),
{
    assert(list.push(m).drop_last() =~= list);
    assert(list.push(m).last() == m);
}

/// A memory is stored exactly where its name gives a file name that is not the
/// index's own, it has a description, and a content that is not blank and has
/// at most 100000 characters; what is stored is the description on one line
/// and the content without white space around it.
pub proof fn law_only_whole_memories_are_stored(
    name: Seq<char>,
    description: Seq<char>,
    content: Seq<char>,
)
    ensures
        ({
            let r = brain::draft_spec(name, description, content);
            let kept = text::trim_spec(content);
            let line = text::excerpt_spec(description, 200);
            let usable = text::trim_spec(name).len() > 0 && (slug::slug_spec(name) matches Some(s)
                && s != "brain"@) && line.len() > 0 && 0 < kept.len() <= 100_000;
            &&& r is Ok <==> usable
            &&& r matches Ok(d) ==> slug::slug_spec(name) == Some(d.0) && d.1 == line && d.2 == kept
        }),
{
}

/// A call reads, stores or forgets the memory that it names.
pub proof fn law_memory_calls_do_what_they_say(
    arguments: json::JsonView,
    name: Seq<char>,
    file: Seq<char>,
)
    requires
        anthropic_laws::says(arguments, "name"@, name),
        text::trim_spec(name).len() > 0,
        slug::slug_spec(name) == Some(file),
        file != "brain"@,
    ensures
        brain::plan_spec(BrainOp::Read, arguments) == brain::PlanView::Read(file),
        brain::plan_spec(BrainOp::Forget, arguments) == brain::PlanView::Forget(file),
        brain::plan_spec(BrainOp::Write, arguments) == match brain::draft_spec(
            name,
            arguments.text_or_empty("description"@),
            arguments.text_or_empty("content"@),
        ) {
            Ok((s, d, c)) => brain::PlanView::Write(s, d, c),
            Err(e) => brain::PlanView::Reply(e),
        },
{
}

/// The memories are the files with `.md` that can be read, but for the index,
/// in the order of the listing.
pub proof fn law_memory_files_are_found(
    dir: Seq<char>,
    entries: Seq<(String, Option<String>)>,
    file: String,
    raw: String,
)
    ensures
        brain::found_memories(dir, seq![]).len() == 0,
        brain::found_memories(dir, entries.push((file, None))) == brain::found_memories(
            dir,
            entries,
        ),
        ({
            let before = brain::found_memories(dir, entries);
            let after = brain::found_memories(dir, entries.push((file, Some(raw))));
            let named = file@.len() > 3 && file@.skip(file@.len() - 3) == ".md"@ && file@
                != "BRAIN.md"@;
            &&& !named ==> after == before
            &&& named ==> after.len() == before.len() + 1 && after.drop_last() == before
                && after.last().2 == paths::under_spec(dir, file@)
        }),
{
    let a: (String, Option<String>) = (file, None);
    let b = (file, Some(raw));
    assert(entries.push(a).drop_last() =~= entries);
    assert(entries.push(b).drop_last() =~= entries);
    assert(entries.push(a).last() == a);
    assert(entries.push(b).last() == b);
    let before = brain::found_memories(dir, entries);
    let after = brain::found_memories(dir, entries.push(b));
    assert(after.len() > before.len() ==> after.drop_last() =~= before);
}

// ---------------------------------------------------------------------------
// Instructions
// ---------------------------------------------------------------------------

/// A prompt is the one in the configuration, else the content of its file,
/// which has to be there, else none.
pub proof fn law_prompts_come_from_the_configuration(
    words: String,
    file: Option<String>,
    path: String,
    base: Seq<char>,
    content: Seq<char>,
    read: Option<Seq<char>>,
)
    ensures
        loading::prompt_spec(Some(words), file, base, read) == Ok::<_, Seq<char>>(Some(words@)),
        loading::prompt_spec(None, Some(path), base, Some(content)) == Ok::<_, Seq<char>>(
            Some(content),
        ),
        loading::prompt_spec(None, Some(path), base, None) is Err,
        loading::prompt_spec(None, None, base, read) == Ok::<_, Seq<char>>(None::<Seq<char>>),
{
}

/// Each entry of the instructions is looked for upwards from the working
/// directory, the nearest file first; an absolute one only where it stands.
pub proof fn law_instructions_are_looked_for_upwards(
    entries: Seq<Seq<char>>,
    entry: Seq<char>,
    cwd: Seq<char>,
    files: Table<String>,
    start: Seq<char>,
    parts: Seq<Seq<char>>,
    n: nat,
)
    requires
        n > 0,
    ensures
        loading::found_contexts(seq![], cwd, files) == Seq::<config::ContextView>::empty(),
        loading::found_contexts(entries.push(entry), cwd, files) == match files.first_named(
            loading::candidates_spec(entry, cwd),
            0,
        ) {
            Some(path) => loading::found_contexts(entries, cwd, files).push(
                config::ContextView { path, content: files.at(path)@ },
            ),
            None => loading::found_contexts(entries, cwd, files),
        },
        entry.len() > 0 && entry[0] == '/' ==> loading::candidates_spec(entry, cwd) == seq![entry],
        loading::upward(start, parts, 0) == seq![start],
        loading::upward(start, parts, n) == seq![
            start + text::join_spec(parts.take(n as int), "/"@),
        ] + loading::upward(start, parts, (n - 1) as nat),
{
    assert(entries.push(entry).drop_last() =~= entries);
}

// ---------------------------------------------------------------------------
// Servers, approval and usage
// ---------------------------------------------------------------------------

/// Each server is connected once, in the order in which it is first asked for.
pub proof fn law_servers_are_connected_once(servers: Seq<Seq<char>>, server: Seq<char>)
    ensures
        mcp::to_connect(seq![]) == Seq::<Seq<char>>::empty(),
        mcp::to_connect(servers.push(server)) == if mcp::to_connect(servers).contains(server) {
            mcp::to_connect(servers)
        } else {
            mcp::to_connect(servers).push(server)
        },
{
    assert(servers.push(server).drop_last() =~= servers);
}

/// The model is shown the texts of a result, one on a line, or its structure
/// where it has no text; a fault is told as one, and nothing at all as that.
pub proof fn law_results_of_servers_are_shown(tool: Seq<char>, r: mcp::CallResult)
    ensures
        ({
            let said = text::join_spec(text::views(r.texts@), seq!['\n']);
            let shown = mcp::call_text_spec(tool, r);
            &&& r.is_error != Some(true) && said.len() > 0 ==> shown == said
            &&& r.is_error != Some(true) && said.len() == 0 ==> (r.structured matches Some(v)
                && json::printed(v@).len() > 0 ==> shown == json::printed(r.structured->0@))
            &&& r.is_error != Some(true) && said.len() == 0 && r.structured is None ==> shown
                == "(tool returned no output)"@
            &&& r.is_error == Some(true) && said.len() > 0 ==> shown == "ERROR from tool `"@ + tool
                + "`: "@ + said
        }),
{
    reveal_strlit("\n");
    assert("\n"@ =~= seq!['\n']);
}

/// Only a clear yes approves: `y` and `yes` once, `a` and `always` for the
/// session; every other answer denies.
pub proof fn law_only_a_clear_yes_approves(word: Seq<char>)
    ensures
        terminal::decision_spec(word) is Approve <==> word == seq!['y'] || word == seq![
            'y',
            'e',
            's',
        ],
        terminal::decision_spec(word) is AlwaysAllow <==> word == seq!['a'] || word == seq![
            'a',
            'l',
            'w',
            'a',
            'y',
            's',
        ],
{
    reveal_strlit("y");
    reveal_strlit("yes");
    reveal_strlit("a");
    reveal_strlit("always");
    assert("y"@ =~= seq!['y']);
    assert("yes"@ =~= seq!['y', 'e', 's']);
    assert("a"@ =~= seq!['a']);
    assert("always"@ =~= seq!['a', 'l', 'w', 'a', 'y', 's']);
    assert(seq!['y'][0] == 'y');
    assert(seq!['y', 'e', 's'][0] == 'y');
    assert(seq!['a'][0] == 'a');
    assert(seq!['a', 'l', 'w', 'a', 'y', 's'][0] == 'a');
}

/// Totals add up the models one by one; a report has a line for each and one
/// for the total where there is more than one.
pub proof fn law_usage_totals_add_up(
    rows: Seq<(String, usage_stats::ModelUsage)>,
    row: (String, usage_stats::ModelUsage),
)
    ensures
        usage_stats::requests_sum(seq![]) == 0,
        usage_stats::sent_sum(seq![]) == 0,
        usage_stats::received_sum(seq![]) == 0,
        usage_stats::requests_sum(rows.push(row)) == usage_stats::requests_sum(rows)
            + row.1.requests,
        usage_stats::sent_sum(rows.push(row)) == usage_stats::sent_sum(rows) + row.1.prompt_tokens,
        usage_stats::received_sum(rows.push(row)) == usage_stats::received_sum(rows)
            + row.1.completion_tokens,
        usage_stats::report_spec(rows).len() == rows.len() + if rows.len() > 1 {
            1nat
        } else {
            0nat
        },
{
    assert(rows.push(row).drop_last() =~= rows);
    assert(rows.push(row).last() == row);
}

} // verus!
