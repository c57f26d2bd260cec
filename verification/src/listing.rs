//! The lines by which the commands tell what is configured and what was saved.

use vstd::prelude::*;
use vstd::string::*;

use crate::config::{Config, Mode, Stage, Workflow};
use crate::mcp::McpTool;
use crate::numbers;
use crate::runs::RunState;
use crate::session::Session;
use crate::skills::Skill;
use crate::table::Table;
use crate::text;

verus! {

// ---------------------------------------------------------------------------
// Stages and workflows
// ---------------------------------------------------------------------------

/// The word for a mode.
pub open spec fn mode_word(mode: Mode) -> Seq<char> {
    match mode {
        Mode::ReadOnly => "read_only"@,
        Mode::ReadWrite => "read_write"@,
    }
}

/// The words for the skills of a stage.
pub open spec fn skills_part(skills: Seq<Seq<char>>) -> Seq<char> {
    if skills.len() == 0 {
        seq![]
    } else {
        "  skills=["@ + text::join_spec(skills, ", "@) + "]"@
    }
}

/// The words for the web tools of a stage.
pub open spec fn search_part(web_search: bool) -> Seq<char> {
    if web_search {
        "  +web_search"@
    } else {
        seq![]
    }
}

/// The line of a stage.
pub open spec fn stage_line_spec(number: nat, stage: Stage) -> Seq<char> {
    numbers::decimal_spec(number) + ". "@ + stage.name@ + "  model="@ + stage.model@ + "  mode="@
        + mode_word(stage.mode) + "  mcp=["@ + text::join_spec(text::views(stage.mcp@), ", "@)
        + "]"@ + search_part(stage.web_search) + skills_part(text::views(stage.skills@))
}

/// The line of a stage.
pub fn stage_line(number: usize, stage: &Stage) -> (r: String)
    ensures
        r@ == stage_line_spec(number as nat, *stage),
{
    let mode: &str = match stage.mode {
        Mode::ReadOnly => "read_only",
        Mode::ReadWrite => "read_write",
    };
    let mut out = numbers::decimal_len(number);
    out.append(". ");
    out.append(stage.name.as_str());
    out.append("  model=");
    out.append(stage.model.as_str());
    out.append("  mode=");
    out.append(mode);
    out.append("  mcp=[");
    out.append(text::join(&stage.mcp, ", ").as_str());
    out.append("]");
    if stage.web_search {
        out.append("  +web_search");
    } else {
        assert(out@ + seq![] =~= out@);
    }
    assert(text::views(stage.skills@).len() == stage.skills@.len());
    if stage.skills.len() > 0 {
        let listed = text::join(&stage.skills, ", ");
        out.append(text::cat3("  skills=[", listed.as_str(), "]").as_str());
    } else {
        assert(out@ + seq![] =~= out@);
    }
    out
}

/// Whether a workflow is the one that runs where none is asked for.
pub open spec fn is_default(name: Seq<char>, chosen: Option<String>) -> bool {
    match chosen {
        Some(n) => n@ == name,
        None => name == "default"@,
    }
}

/// The words for a description.
pub open spec fn description_part(description: Seq<char>) -> Seq<char> {
    if description.len() == 0 {
        seq![]
    } else {
        "  — "@ + description
    }
}

/// The mark of the workflow that runs where none is asked for.
pub open spec fn default_part(marked: bool) -> Seq<char> {
    if marked {
        "  (default)"@
    } else {
        seq![]
    }
}

/// The line of a workflow.
pub open spec fn workflow_line_spec(
    name: Seq<char>,
    workflow: Workflow,
    chosen: Option<String>,
) -> Seq<char> {
    "  "@ + name + ": "@ + text::join_spec(text::views(workflow.stages@), " -> "@)
        + description_part(workflow.description@) + default_part(is_default(name, chosen))
}

/// The line of a workflow.
pub fn workflow_line(name: &str, workflow: &Workflow, chosen: &Option<String>) -> (r: String)
    ensures
        r@ == workflow_line_spec(name@, *workflow, *chosen),
{
    let marked = match chosen {
        Some(n) => text::same(n.as_str(), name),
        None => text::same(name, "default"),
    };
    let stages = text::join(&workflow.stages, " -> ");
    let mut out = text::cat4("  ", name, ": ", stages.as_str());
    if workflow.description.as_str().is_empty() {
        assert(out@ + seq![] =~= out@);
    } else {
        out.append(text::cat2("  — ", workflow.description.as_str()).as_str());
    }
    if marked {
        out.append("  (default)");
    } else {
        assert(out@ + seq![] =~= out@);
    }
    out
}

/// The lines of the first stages.
pub open spec fn stage_lines(stages: Seq<Stage>) -> Seq<Seq<char>> {
    Seq::new(stages.len(), |i: int| stage_line_spec((i + 1) as nat, stages[i]))
}

/// The lines of workflows.
pub open spec fn workflow_lines(t: Table<Workflow>, chosen: Option<String>) -> Seq<Seq<char>> {
    Seq::new(
        t.entries@.len(),
        |i: int| workflow_line_spec(t.entries@[i].0@, t.entries@[i].1, chosen),
    )
}

/// The lines of the stages and the workflows.
pub open spec fn stages_spec(config: Config) -> Seq<Seq<char>> {
    if config.workflows.entries@.len() == 0 {
        stage_lines(config.stages@)
    } else {
        stage_lines(config.stages@) + seq!["\nworkflows:"@] + workflow_lines(
            config.workflows,
            config.settings.default_workflow,
        )
    }
}

/// The lines of the stages and the workflows.
pub fn list_stages(config: &Config) -> (r: Vec<String>)
    ensures
        text::views(r@) == stages_spec(*config),
{
    let ghost first = stage_lines(config.stages@);
    let mut out: Vec<String> = Vec::new();
    let mut i: usize = 0;
    assert(text::views(out@) =~= first.take(0));
    while i < config.stages.len()
        invariant
            i <= config.stages@.len(),
            first == stage_lines(config.stages@),
            text::views(out@) == first.take(i as int),
        decreases config.stages@.len() - i,
    {
        text::add_text(&mut out, stage_line(i + 1, &config.stages[i]));
        assert(first.take(i as int).push(first[i as int]) =~= first.take(i + 1));
        i = i + 1;
    }
    assert(first.take(first.len() as int) =~= first);
    let rows = &config.workflows.entries;
    if rows.len() == 0 {
        return out;
    }
    text::add_text(&mut out, "\nworkflows:".to_owned());
    let ghost head = first + seq!["\nworkflows:"@];
    assert(text::views(out@) =~= head);
    let ghost second = workflow_lines(config.workflows, config.settings.default_workflow);
    let mut j: usize = 0;
    assert(head + second.take(0) =~= head);
    while j < rows.len()
        invariant
            j <= rows@.len(),
            rows@ == config.workflows.entries@,
            second == workflow_lines(config.workflows, config.settings.default_workflow),
            text::views(out@) == head + second.take(j as int),
        decreases rows@.len() - j,
    {
        let ghost before = text::views(out@);
        text::add_text(
            &mut out,
            workflow_line(rows[j].0.as_str(), &rows[j].1, &config.settings.default_workflow),
        );
        assert(before.push(second[j as int]) =~= head + second.take(j + 1));
        j = j + 1;
    }
    assert(second.take(second.len() as int) =~= second);
    out
}

// ---------------------------------------------------------------------------
// Checking
// ---------------------------------------------------------------------------

/// The line that tells how much is configured.
pub open spec fn counts_line(c: Config) -> Seq<char> {
    "OK: "@ + numbers::decimal_spec(c.providers.entries@.len()) + " provider(s), "@
        + numbers::decimal_spec(c.models.entries@.len()) + " model(s), "@ + numbers::decimal_spec(
        c.mcp.entries@.len(),
    ) + " mcp server(s), "@ + numbers::decimal_spec(c.agents.entries@.len()) + " agent(s), "@
        + numbers::decimal_spec(c.stages@.len()) + " stage(s), "@ + numbers::decimal_spec(
        c.workflows.entries@.len(),
    ) + " workflow(s), "@ + numbers::decimal_spec(c.hooks@.len()) + " hook(s)"@
}

/// The lines that tell of the project instructions.
pub open spec fn instruction_lines(c: Config) -> Seq<Seq<char>> {
    if c.project_contexts@.len() == 0 {
        seq![
            "project instructions: none (searched for "@ + text::join_spec(
                text::views(c.settings.context_files@),
                ", "@,
            ) + ")"@,
        ]
    } else {
        Seq::new(
            c.project_contexts@.len(),
            |i: int|
                "project instructions: "@ + c.project_contexts@[i].path@ + " ("@
                    + numbers::decimal_spec(text::byte_len(c.project_contexts@[i].content@))
                    + " chars)"@,
        )
    }
}

fn counts(config: &Config) -> (r: String)
    ensures
        r@ == counts_line(*config),
{
    let mut out = text::cat2("OK: ", numbers::decimal_len(config.providers.entries.len()).as_str());
    out.append(" provider(s), ");
    out.append(numbers::decimal_len(config.models.entries.len()).as_str());
    out.append(" model(s), ");
    out.append(numbers::decimal_len(config.mcp.entries.len()).as_str());
    out.append(" mcp server(s), ");
    out.append(numbers::decimal_len(config.agents.entries.len()).as_str());
    out.append(" agent(s), ");
    out.append(numbers::decimal_len(config.stages.len()).as_str());
    out.append(" stage(s), ");
    out.append(numbers::decimal_len(config.workflows.entries.len()).as_str());
    out.append(" workflow(s), ");
    out.append(numbers::decimal_len(config.hooks.len()).as_str());
    out.append(" hook(s)");
    out
}

/// The lines of a configuration that was found in order.
pub fn check_lines(config: &Config) -> (r: Vec<String>)
    ensures
        text::views(r@) == seq![counts_line(*config)] + instruction_lines(*config),
{
    let ghost head = seq![counts_line(*config)];
    let ghost all = instruction_lines(*config);
    let mut out: Vec<String> = Vec::new();
    text::add_text(&mut out, counts(config));
    assert(text::views(out@) =~= head);
    if config.project_contexts.len() == 0 {
        let searched = text::join(&config.settings.context_files, ", ");
        text::add_text(
            &mut out,
            text::cat3("project instructions: none (searched for ", searched.as_str(), ")"),
        );
        assert(text::views(out@) =~= head + all);
        return out;
    }
    let mut i: usize = 0;
    assert(head + all.take(0) =~= head);
    while i < config.project_contexts.len()
        invariant
            i <= config.project_contexts@.len(),
            config.project_contexts@.len() > 0,
            all == instruction_lines(*config),
            text::views(out@) == head + all.take(i as int),
        decreases config.project_contexts@.len() - i,
    {
        let ghost before = text::views(out@);
        let context = &config.project_contexts[i];
        let n: usize = text::bytes_in(context.content.as_str());
        text::add_text(
            &mut out,
            text::cat5(
                "project instructions: ",
                context.path.as_str(),
                " (",
                numbers::decimal_len(n).as_str(),
                " chars)",
            ),
        );
        assert(before.push(all[i as int]) =~= head + all.take(i + 1));
        i = i + 1;
    }
    assert(all.take(all.len() as int) =~= all);
    out
}

// ---------------------------------------------------------------------------
// Skills and tools
// ---------------------------------------------------------------------------

/// The line of a skill.
pub open spec fn skill_line_spec(skill: Skill) -> Seq<char> {
    skill.name@ + "  "@ + (if skill.description@.len() == 0 {
        "-"@
    } else {
        skill.description@
    }) + "  ("@ + skill.path@ + ")"@
}

/// The line of a skill.
pub fn skill_line(skill: &Skill) -> (r: String)
    ensures
        r@ == skill_line_spec(*skill),
{
    let described: &str = if skill.description.as_str().is_empty() {
        "-"
    } else {
        skill.description.as_str()
    };
    let mut out = text::cat5(skill.name.as_str(), "  ", described, "  (", skill.path.as_str());
    out.append(")");
    out
}

/// The line for directories without a skill.
pub fn no_skills_line(dirs: &Vec<String>) -> (r: String)
    ensures
        r@ == "no skills found (searched: "@ + text::join_spec(text::views(dirs@), ", "@) + ")"@,
{
    let listed = text::join(dirs, ", ");
    text::cat3("no skills found (searched: ", listed.as_str(), ")")
}

/// The first line of a text, or nothing.
pub open spec fn first_line_spec(s: Seq<char>) -> Seq<char> {
    let lines = text::lines_spec(s);
    if lines.len() > 0 {
        lines[0]
    } else {
        seq![]
    }
}

fn first_line(s: &str) -> (r: String)
    ensures
        r@ == first_line_spec(s@),
{
    let lines = text::lines(s);
    assert(text::views(lines@).len() == lines@.len());
    if lines.len() > 0 {
        lines[0].clone()
    } else {
        let nothing = String::new();
        assert(nothing@ =~= seq![]);
        nothing
    }
}

/// The line of a server's tool.
pub open spec fn tool_line_spec(tool: McpTool, read_only: bool) -> Seq<char> {
    "  "@ + tool.name@ + (if read_only {
        " (ro)  "@
    } else {
        " (rw)  "@
    }) + first_line_spec(
        match tool.description {
            Some(d) => d@,
            None => seq![],
        },
    )
}

/// The line of a server's tool: whether it may write, and how its description
/// begins.
pub fn tool_line(tool: &McpTool, read_only: bool) -> (r: String)
    ensures
        r@ == tool_line_spec(*tool, read_only),
{
    let marker: &str = if read_only {
        " (ro)  "
    } else {
        " (rw)  "
    };
    let described = match &tool.description {
        Some(d) => first_line(d.as_str()),
        None => {
            proof {
                reveal_strlit("");
            }
            assert(""@ =~= seq![]);
            first_line("")
        },
    };
    text::cat4("  ", tool.name.as_str(), marker, described.as_str())
}

// ---------------------------------------------------------------------------
// Runs and sessions
// ---------------------------------------------------------------------------

/// The stage that a run comes to next.
pub open spec fn next_stage_name(state: RunState) -> Seq<char> {
    if state.position < state.stage_names@.len() {
        state.stage_names@[state.position as int]@
    } else {
        "?"@
    }
}

/// The words for a directory.
pub open spec fn directory_words(cwd: Seq<char>) -> Seq<char> {
    if cwd.len() == 0 {
        "unknown dir"@
    } else {
        cwd
    }
}

/// The line of an interrupted run; `when` tells when it was last saved.
pub open spec fn run_line_spec(state: RunState, when: Seq<char>) -> Seq<char> {
    state.id@ + "  "@ + when + "  next stage "@ + numbers::decimal_spec(
        (state.position + 1) as nat,
    ) + "/"@ + numbers::decimal_spec(state.stage_names@.len()) + " ["@ + next_stage_name(state)
        + "]  "@ + text::take_spec(first_line_spec(state.task@), 60) + "  ("@ + directory_words(
        state.cwd@,
    ) + ")"@
}

fn directory<'a>(cwd: &'a str) -> (r: &'a str)
    ensures
        r@ == directory_words(cwd@),
{
    if cwd.is_empty() {
        "unknown dir"
    } else {
        cwd
    }
}

fn upcoming(state: &RunState) -> (r: String)
    ensures
        r@ == next_stage_name(*state),
{
    if state.position < state.stage_names.len() {
        state.stage_names[state.position].clone()
    } else {
        "?".to_owned()
    }
}

/// The line of an interrupted run; `when` tells when it was last saved.
pub fn run_line(state: &RunState, when: &str) -> (r: String)
    requires
        state.position < usize::MAX,
    ensures
        r@ == run_line_spec(*state, when@),
{
    let title = text::take(first_line(state.task.as_str()).as_str(), 60);
    let mut out = text::cat4(state.id.as_str(), "  ", when, "  next stage ");
    out.append(numbers::decimal_len(state.position + 1).as_str());
    out.append("/");
    out.append(numbers::decimal_len(state.stage_names.len()).as_str());
    out.append(" [");
    out.append(upcoming(state).as_str());
    out.append("]  ");
    out.append(title.as_str());
    out.append("  (");
    out.append(directory(state.cwd.as_str()));
    out.append(")");
    out
}

/// The line of a saved session; `when` tells when it was last saved.
pub open spec fn session_line_spec(session: Session, when: Seq<char>) -> Seq<char> {
    session.id@ + "  "@ + when + "  ["@ + session.stage@ + "]  "@ + session.title@ + "  ("@
        + directory_words(session.cwd@) + ")"@
}

/// The line of a saved session; `when` tells when it was last saved.
pub fn session_line(session: &Session, when: &str) -> (r: String)
    ensures
        r@ == session_line_spec(*session, when@),
{
    let mut out = text::cat5(session.id.as_str(), "  ", when, "  [", session.stage.as_str());
    out.append("]  ");
    out.append(session.title.as_str());
    out.append("  (");
    out.append(directory(session.cwd.as_str()));
    out.append(")");
    out
}

/// The line that tells of a run that goes on.
pub open spec fn resume_line_spec(state: RunState) -> Seq<char> {
    "resuming run "@ + state.id@ + " ("@ + numbers::decimal_spec(state.position as nat) + " of "@
        + numbers::decimal_spec(state.stage_names@.len()) + " stage(s) done, "@
        + numbers::decimal_spec(state.runs as nat) + " run(s) used) at stage "@ + next_stage_name(
        state,
    )
}

/// The line that tells of a run that goes on.
pub fn resume_line(state: &RunState) -> (r: String)
    ensures
        r@ == resume_line_spec(*state),
{
    let mut out = text::cat3("resuming run ", state.id.as_str(), " (");
    out.append(numbers::decimal_len(state.position).as_str());
    out.append(" of ");
    out.append(numbers::decimal_len(state.stage_names.len()).as_str());
    out.append(" stage(s) done, ");
    out.append(numbers::decimal(state.runs as u64).as_str());
    out.append(" run(s) used) at stage ");
    out.append(upcoming(state).as_str());
    out
}

/// The heading of a stage's run.
pub fn stage_heading(runs: u32, resuming: bool, stage: &str) -> (r: String)
    ensures
        r@ == (if resuming {
            "── resuming run "@
        } else {
            "── run "@
        }) + numbers::decimal_spec(runs as nat) + " · stage "@ + stage@ + " ──"@,
{
    let head: &str = if resuming {
        "── resuming run "
    } else {
        "── run "
    };
    text::cat5(head, numbers::decimal(runs as u64).as_str(), " · stage ", stage, " ──")
}

// ---------------------------------------------------------------------------
// The task
// ---------------------------------------------------------------------------

/// The words for a request that names both a saved run and something new.
pub const RESUME_ALONE: &'static str = "--resume continues a checkpointed run; it cannot be combined with a task, --stage, or --workflow";

/// Check a request to go on with a saved run: it takes nothing else.
pub fn check_resume(words: usize, stage: bool, workflow: bool) -> (r: Result<(), String>)
    ensures
        match r {
            Ok(_) => words == 0 && !stage && !workflow,
            Err(text) => (words > 0 || stage || workflow) && text@ == RESUME_ALONE@,
        },
{
    if words > 0 || stage || workflow {
        return Err(RESUME_ALONE.to_owned());
    }
    Ok(())
}

/// The task that is given: by the words of the command, or else by what was
/// read.
pub open spec fn task_spec(words: Seq<Seq<char>>, read: Seq<char>) -> Seq<char> {
    if words.len() == 0 {
        text::trim_spec(read)
    } else {
        text::join_spec(words, " "@)
    }
}

/// The task that is given, or the words for a missing one.
pub fn task_text(words: &Vec<String>, read: &str) -> (r: Result<String, String>)
    ensures
        match r {
            Ok(task) => task@ == task_spec(text::views(words@), read@) && task@.len() > 0,
            Err(fault) => task_spec(text::views(words@), read@).len() == 0 && fault@
                == "no task given (pass it as an argument or on stdin)"@,
        },
{
    assert(text::views(words@).len() == words@.len());
    let task = if words.len() == 0 {
        text::trim(read)
    } else {
        text::join(words, " ")
    };
    if task.as_str().is_empty() {
        return Err("no task given (pass it as an argument or on stdin)".to_owned());
    }
    Ok(task)
}

} // verus!
