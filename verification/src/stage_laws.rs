//! What holds of stages: their order, their prompts and their tools.

use vstd::prelude::*;
use vstd::string::*;

use crate::agent_loop;
use crate::anthropic_laws;
use crate::config::Config;
use crate::config::Mode;
use crate::effects::ToolEffect;
use crate::files::FileOp;
use crate::find;
use crate::json;
use crate::mcp::McpManager;
use crate::mcp::McpTool;
use crate::pipeline;
use crate::reprompt;
use crate::runs::RunState;
use crate::splitting_laws;
use crate::table::Table;
use crate::template;
use crate::text;
use crate::toolset;
use crate::validate;
use crate::workflow;

verus! {

// ---------------------------------------------------------------------------
// Templates
// ---------------------------------------------------------------------------

proof fn lemma_rendered_behind(
    head: Seq<char>,
    rest: Seq<char>,
    input: Seq<char>,
    previous: Option<Seq<char>>,
    outputs: Table<String>,
    from: int,
)
    requires
        0 <= from <= rest.len(),
    ensures
        template::render_spec(head + rest, input, previous, outputs, head.len() + from)
            == template::render_spec(rest, input, previous, outputs, from),
    decreases rest.len() - from,
{
    reveal_strlit("{{");
    reveal_strlit("}}");
    let n = head.len() as int;
    splitting_laws::lemma_found_behind(head, rest, "{{"@, from);
    find::lemma_find(rest, "{{"@, from);
    match find::find_spec(rest, "{{"@, from) {
        None => {
            assert((head + rest).skip(n + from) =~= rest.skip(from));
        },
        Some(i) => {
            assert((head + rest).subrange(n + from, n + i) =~= rest.subrange(from, i));
            splitting_laws::lemma_found_behind(head, rest, "}}"@, i + 2);
            find::lemma_find(rest, "}}"@, i + 2);
            match find::find_spec(rest, "}}"@, i + 2) {
                None => {
                    lemma_rendered_behind(head, rest, input, previous, outputs, i + 2);
                },
                Some(j) => {
                    assert((head + rest).subrange(n + i + 2, n + j) =~= rest.subrange(i + 2, j));
                    lemma_rendered_behind(head, rest, input, previous, outputs, j + 2);
                },
            }
        },
    }
}

/// A variable in double braces is replaced by what it stands for, and the text
/// around it is kept: `input` is the task, `previous` what the last stage said,
/// and `stage.` with a name what that stage said. The rest of the template is
/// treated likewise. What stands for nothing is an error.
pub proof fn law_variables_are_filled_in(
    front: Seq<char>,
    name: Seq<char>,
    rest: Seq<char>,
    input: Seq<char>,
    previous: Option<Seq<char>>,
    outputs: Table<String>,
    stage: Seq<char>,
)
    requires
        !front.contains('{'),
        !name.contains('}'),
    ensures
        ({
            let whole = front + seq!['{', '{'] + name + seq!['}', '}'] + rest;
            let r = template::render_spec(whole, input, previous, outputs, 0);
            let more = template::render_spec(rest, input, previous, outputs, 0);
            let asked = text::trim_spec(name);
            &&& asked == "input"@ ==> match more {
                Ok(tail) => r == Ok::<_, template::TemplateFault>(front + input + tail),
                Err(e) => r == Err::<Seq<char>, _>(e),
            }
            &&& asked == "previous"@ ==> match (previous, more) {
                (Some(said), Ok(tail)) => r == Ok::<_, template::TemplateFault>(
                    front + said + tail,
                ),
                (Some(_), Err(e)) => r == Err::<Seq<char>, _>(e),
                (None, _) => r == Err::<Seq<char>, _>(template::TemplateFault::PreviousInFirst),
            }
            &&& asked == "stage."@ + stage && outputs.has_name(stage) ==> match more {
                Ok(tail) => r == Ok::<_, template::TemplateFault>(
                    front + outputs.at(stage)@ + tail,
                ),
                Err(e) => r == Err::<Seq<char>, _>(e),
            }
            &&& asked == "stage."@ + stage && !outputs.has_name(stage) ==> r == Err::<Seq<char>, _>(
                template::TemplateFault::NoOutput(stage),
            )
            &&& asked != "input"@ && asked != "previous"@ && !find::starts_spec(asked, "stage."@)
                ==> r == Err::<Seq<char>, _>(template::TemplateFault::Unknown(asked))
        }),
{
    reveal_strlit("stage.");
    reveal_strlit("input");
    reveal_strlit("previous");
    lemma_first_variable(front, name, rest, input, previous, outputs);
    let asked = text::trim_spec(name);
    if asked == "stage."@ + stage {
        splitting_laws::law_texts_are_found_where_they_stand(seq![], "stage."@, stage, asked);
        assert(asked[0] == 's');
        assert("input"@[0] == 'i');
        assert("previous"@[0] == 'p');
    }
    if asked == "previous"@ {
        assert(asked[0] == 'p');
        assert("input"@[0] == 'i');
    }
}

proof fn lemma_first_variable(
    front: Seq<char>,
    name: Seq<char>,
    rest: Seq<char>,
    input: Seq<char>,
    previous: Option<Seq<char>>,
    outputs: Table<String>,
)
    requires
        !front.contains('{'),
        !name.contains('}'),
    ensures
        ({
            let whole = front + seq!['{', '{'] + name + seq!['}', '}'] + rest;
            template::render_spec(whole, input, previous, outputs, 0) == match template::value_of(
                text::trim_spec(name),
                input,
                previous,
                outputs,
            ) {
                Err(e) => Err(e),
                Ok(value) => match template::render_spec(rest, input, previous, outputs, 0) {
                    Ok(tail) => Ok(front + value + tail),
                    Err(e) => Err(e),
                },
            }
        }),
{
    reveal_strlit("{{");
    reveal_strlit("}}");
    assert("{{"@ =~= seq!['{', '{']);
    assert("}}"@ =~= seq!['}', '}']);
    let whole = front + seq!['{', '{'] + name + seq!['}', '}'] + rest;
    let n = front.len() as int;
    let j = n + 2 + name.len();
    let behind = name + "}}"@ + rest;
    let open = front + "{{"@;
    assert(whole =~= open + behind);
    assert(whole =~= front + "{{"@ + behind);
    lemma_pair_found(front, '{', behind);
    lemma_pair_found(name, '}', rest);
    splitting_laws::lemma_found_behind(open, behind, "}}"@, 0);
    assert(find::find_spec(whole, "{{"@, 0) == Some(n));
    assert(find::find_spec(whole, "}}"@, n + 2) == Some(j));
    assert(whole.subrange(n + 2, j) =~= name);
    assert(whole.subrange(0, n) =~= front);
    let head = open + name + "}}"@;
    assert(whole =~= head + rest);
    lemma_rendered_behind(head, rest, input, previous, outputs, 0);
    assert(head.len() + 0 == j + 2);
}

proof fn lemma_pair_found(front: Seq<char>, c: char, back: Seq<char>)
    requires
        !front.contains(c),
    ensures
        find::find_spec(front + seq![c, c] + back, seq![c, c], 0) == Some(front.len() as int),
{
    let pair = seq![c, c];
    let whole = front + pair + back;
    assert forall|i: int| 0 <= i < front.len() implies #[trigger] whole.subrange(
        i,
        i + pair.len(),
    ) != pair by {
        if whole.subrange(i, i + 2) == pair {
            assert(whole.subrange(i, i + 2)[0] == c);
            assert(front[i] == c);
        }
    }
    splitting_laws::law_each_occurrence_is_replaced(front, pair, seq![], back);
}

// ---------------------------------------------------------------------------
// Workflows and runs
// ---------------------------------------------------------------------------

proof fn lemma_place(names: Seq<Seq<char>>, name: Seq<char>, from: int)
    requires
        0 <= from <= names.len(),
    ensures
        match workflow::place_from(names, name, from) {
            Some(i) => from <= i < names.len() && names[i] == name && (forall|j: int|
                from <= j < i ==> #[trigger] names[j] != name),
            None => forall|j: int| from <= j < names.len() ==> #[trigger] names[j] != name,
        },
    decreases names.len() - from,
{
    if from < names.len() && names[from] != name {
        lemma_place(names, name, from + 1);
    }
}

/// A workflow is the one that was asked for, else the one that is set, else
/// the one called `default`, and else none: then every stage runs in the order
/// of the configuration. A workflow runs the stages that it lists, in its
/// order; one that is not there is an error.
pub proof fn law_workflows_run_the_stages_they_list(
    c: Config,
    requested: Option<Seq<char>>,
    name: Seq<char>,
    k: int,
)
    requires
        workflow::workflows_known(c),
    ensures
        requested is Some ==> workflow::chosen_workflow(c, requested) == requested,
        requested is None && c.settings.default_workflow is Some ==> workflow::chosen_workflow(
            c,
            requested,
        ) == Some(c.settings.default_workflow->0@),
        requested is None && c.settings.default_workflow is None ==> workflow::chosen_workflow(
            c,
            requested,
        ) == if c.workflows.has_name("default"@) {
            Some("default"@)
        } else {
            None
        },
        workflow::chosen_workflow(c, requested) is None ==> (workflow::run_order(
            c,
            requested,
        ) matches Ok(places) && places.len() == c.stages@.len() && (forall|i: int|
            0 <= i < places.len() ==> #[trigger] places[i] == i)),
        workflow::chosen_workflow(c, requested) == Some(name) && c.workflows.has_name(name) ==> (
        workflow::run_order(c, requested) matches Ok(places) && places.len() == c.workflows.at(
            name,
        ).stages@.len() && (0 <= k < places.len() ==> 0 <= places[k] < c.stages@.len()
            && c.stages@[places[k]].name@ == c.workflows.at(name).stages@[k]@ && (forall|j: int|
            0 <= j < places[k] ==> (#[trigger] c.stages@[j]).name@ != c.workflows.at(
                name,
            ).stages@[k]@))),
        workflow::chosen_workflow(c, requested) == Some(name) && !c.workflows.has_name(name)
            ==> workflow::run_order(c, requested) is Err,
{
    if workflow::chosen_workflow(c, requested) == Some(name) && c.workflows.has_name(name) {
        let list = workflow::workflow_stages(c, name);
        let names = validate::stage_names(c.stages@);
        if 0 <= k < list.len() {
            lemma_place(names, list[k], 0);
            assert(names.contains(list[k]));
            let place = workflow::place_from(names, list[k], 0)->0;
            assert(names[place] == c.stages@[place].name@);
            assert forall|j: int| 0 <= j < place implies (#[trigger] c.stages@[j]).name@
                != list[k] by {
                assert(names[j] == c.stages@[j].name@);
            }
        }
    }
}

/// A final answer moves a run on to the next stage and is what the stage said;
/// control that is handed on moves it to the stage of that name, and the
/// instructions are what was said.
pub proof fn law_outcomes_move_the_run(
    state: RunState,
    answer: Seq<char>,
    target: Seq<char>,
    instructions: Seq<char>,
)
    ensures
        ({
            let done = agent_loop::OutcomeView::Final(answer);
            pipeline::position_after(state, done) == state.position + 1 && pipeline::output_of(done)
                == answer
        }),
        text::views(state.stage_names@).contains(target) ==> {
            let handed = agent_loop::OutcomeView::Reprompt { target, instructions };
            let at = pipeline::position_after(state, handed);
            &&& 0 <= at < state.stage_names@.len()
            &&& state.stage_names@[at]@ == target
            &&& forall|j: int| 0 <= j < at ==> (#[trigger] state.stage_names@[j])@ != target
            &&& pipeline::output_of(handed) == instructions
        },
{
    let names = text::views(state.stage_names@);
    if names.contains(target) {
        lemma_place(names, target, 0);
        let at = workflow::place_from(names, target, 0)->0;
        assert(names[at] == state.stage_names@[at]@);
        assert forall|j: int| 0 <= j < at implies (#[trigger] state.stage_names@[j])@ != target by {
            assert(names[j] == state.stage_names@[j]@);
        }
    }
}

/// The targets that a stage is offered are those that it may hand control to
/// and that the run has, in the stage's order; the servers that a run needs
/// are those of its stages and of every agent.
pub proof fn law_targets_are_in_the_run(
    list: Seq<Seq<char>>,
    names: Seq<Seq<char>>,
    c: Config,
    order: Seq<usize>,
    stage: usize,
    n: int,
)
    requires
        0 < n <= c.agents.entries@.len(),
    ensures
        pipeline::among(list, names) == list.filter(|s: Seq<char>| names.contains(s)),
        pipeline::stage_servers(c, seq![]) == Seq::<Seq<char>>::empty(),
        pipeline::stage_servers(c, order.push(stage)) == pipeline::stage_servers(c, order)
            + text::views(c.stages@[stage as int].mcp@),
        pipeline::agent_servers(c, 0) == Seq::<Seq<char>>::empty(),
        pipeline::agent_servers(c, n) == pipeline::agent_servers(c, n - 1) + text::views(
            c.agents.entries@[n - 1].1.mcp@,
        ),
    decreases list.len(),
{
    reveal(Seq::filter);
    assert(order.push(stage).drop_last() =~= order);
    assert(order.push(stage).last() == stage);
    if list.len() > 0 {
        law_targets_are_in_the_run(list.drop_last(), names, c, order, stage, n);
    }
}

// ---------------------------------------------------------------------------
// Handing control on
// ---------------------------------------------------------------------------

proof fn lemma_well_typed(fields: Seq<(Seq<char>, json::JsonView)>)
    requires
        forall|i: int| 0 <= i < fields.len() ==> (#[trigger] fields[i]).1 is Text,
    ensures
        reprompt::mistyped(fields) is None,
    decreases fields.len(),
{
    if fields.len() > 0 {
        let fewer = fields.drop_last();
        assert forall|i: int| 0 <= i < fewer.len() implies (#[trigger] fewer[i]).1 is Text by {
            assert(fewer[i] == fields[i]);
        }
        lemma_well_typed(fewer);
        assert(fields[fields.len() - 1] == fields.last());
    }
}

/// A call that names one of the targets and has instructions hands control to
/// it with them; another stage, blank instructions, or one of the two missing
/// are refused.
pub proof fn law_control_goes_where_it_was_sent(
    fields: Seq<(Seq<char>, json::JsonView)>,
    targets: Seq<Seq<char>>,
    stage: Seq<char>,
    instructions: Seq<char>,
)
    requires
        forall|i: int| 0 <= i < fields.len() ==> (#[trigger] fields[i]).1 is Text,
    ensures
        ({
            let arguments = json::JsonView::Object(fields);
            let r = reprompt::reprompt_spec(arguments, targets);
            &&& anthropic_laws::says(arguments, "stage"@, stage) && anthropic_laws::says(
                arguments,
                "instructions"@,
                instructions,
            ) ==> if targets.contains(stage) && text::trim_spec(instructions).len() > 0 {
                r == Ok::<_, Seq<char>>(
                    agent_loop::OutcomeView::Reprompt { target: stage, instructions },
                )
            } else {
                r is Err
            }
            &&& arguments.field("stage"@) is None || arguments.field("instructions"@) is None
                ==> r is Err
        }),
{
    lemma_well_typed(fields);
}

/// The tool that hands control on lists exactly the targets, and needs both a
/// stage and instructions.
pub proof fn law_the_routing_tool_lists_its_targets(targets: Seq<Seq<char>>)
    ensures
        ({
            let shape = reprompt::reprompt_definition(targets).parameters;
            &&& shape.field("properties"@) matches Some(all) && (all.field("stage"@) matches Some(
                stage,
            ) && (stage.field("enum"@) matches Some(json::JsonView::Array(items)) && items.len()
                == targets.len() && (forall|i: int|
                0 <= i < items.len() ==> #[trigger] items[i] == json::JsonView::Text(targets[i]))))
            &&& shape.field("required"@) == Some(
                json::JsonView::Array(
                    seq![json::JsonView::Text("stage"@), json::JsonView::Text("instructions"@)],
                ),
            )
        }),
{
    reveal_strlit("type");
    reveal_strlit("properties");
    reveal_strlit("required");
    reveal_strlit("stage");
    reveal_strlit("instructions");
    reveal_strlit("enum");
    reveal_strlit("description");
    assert("type"@[0] == 't');
    assert("enum"@[0] == 'e');
    assert("type"@.len() == 4);
    assert("properties"@.len() == 10);
    assert("required"@.len() == 8);
    assert("stage"@.len() == 5);
    assert("enum"@.len() == 4);
    assert("description"@.len() == 11);
    reveal_with_fuel(json::JsonView::field_from, 4);
    let needed = seq!["stage"@, "instructions"@];
    assert(Seq::new(needed.len(), |i: int| json::JsonView::Text(needed[i])) =~= seq![
        json::JsonView::Text("stage"@),
        json::JsonView::Text("instructions"@),
    ]);
}

// ---------------------------------------------------------------------------
// Tools
// ---------------------------------------------------------------------------

/// What stands if a condition holds, and nothing else.
pub open spec fn where_granted(grant: bool, b: toolset::BindingView) -> Seq<toolset::BindingView> {
    if grant {
        seq![b]
    } else {
        seq![]
    }
}

/// The file tools of a mode.
pub open spec fn file_bindings(mode: Mode) -> Seq<toolset::BindingView> {
    if mode == Mode::ReadWrite {
        seq![
            toolset::BindingView::File { op: FileOp::ReadAnchored },
            toolset::BindingView::File { op: FileOp::List },
            toolset::BindingView::File { op: FileOp::Glob },
            toolset::BindingView::File { op: FileOp::Grep },
            toolset::BindingView::File { op: FileOp::Write },
            toolset::BindingView::File { op: FileOp::EditLines },
            toolset::BindingView::File { op: FileOp::Edit },
        ]
    } else {
        seq![
            toolset::BindingView::File { op: FileOp::Read },
            toolset::BindingView::File { op: FileOp::List },
            toolset::BindingView::File { op: FileOp::Glob },
            toolset::BindingView::File { op: FileOp::Grep },
        ]
    }
}

/// A context is offered exactly the built-in tools that it was granted: a
/// search, a fetch, a shell within its patterns, and the file tools of its
/// mode.
pub proof fn law_granted_tools_are_offered(p: toolset::ProfileView, c: Config)
    ensures
        toolset::builtin_part(p, c).map_values(|t: toolset::ToolView| t.binding) == where_granted(
            p.web_search,
            toolset::BindingView::WebSearch,
        ) + where_granted(p.web_fetch, toolset::BindingView::WebFetch) + where_granted(
            p.shell,
            toolset::BindingView::Shell { allow: p.shell_allow },
        ) + if p.files {
            file_bindings(p.mode)
        } else {
            seq![]
        },
{
    let bound = |t: toolset::ToolView| t.binding;
    let f = toolset::file_part(p.mode);
    assert(f.map_values(bound) =~= file_bindings(p.mode));
    assert(toolset::builtin_part(p, c).map_values(bound) =~= where_granted(
        p.web_search,
        toolset::BindingView::WebSearch,
    ) + where_granted(p.web_fetch, toolset::BindingView::WebFetch) + where_granted(
        p.shell,
        toolset::BindingView::Shell { allow: p.shell_allow },
    ) + if p.files {
        f.map_values(bound)
    } else {
        seq![]
    });
}

/// What a built-in tool can do: searching and fetching reach the network, a
/// shell runs processes, a file tool writes exactly where it is one that
/// writes or edits, and else reads.
pub proof fn law_built_in_tools_have_one_effect(
    mode: Mode,
    timeout_secs: nat,
    allow: Seq<Seq<char>>,
    e: ToolEffect,
    i: int,
)
    ensures
        toolset::search_tool().effects.contains(e) <==> e == ToolEffect::NetworkEgress,
        toolset::fetch_tool().effects.contains(e) <==> e == ToolEffect::NetworkEgress,
        toolset::shell_tool(timeout_secs, allow).effects.contains(e) <==> e
            == ToolEffect::ProcessExecute,
        0 <= i < toolset::file_part(mode).len() ==> (toolset::file_part(mode)[i].binding matches
            toolset::BindingView::File { op } && (toolset::file_part(mode)[i].effects.contains(e)
            <==> e == if op == FileOp::Write || op == FileOp::Edit || op == FileOp::EditLines {
            ToolEffect::FilesystemWrite
        } else {
            ToolEffect::FilesystemRead
        })),
        toolset::search_tool().definition.name == "web_search"@,
        toolset::fetch_tool().definition.name == "web_fetch"@,
        toolset::shell_tool(timeout_secs, allow).definition.name == "shell"@,
{
}

/// A server's tools are offered in order under the server's name and their
/// own, with their description and parameters; where only reading is allowed,
/// only those are that the server or the configuration says read only. A tool
/// that does more changes things outside, and one behind an address reaches
/// the network.
pub proof fn law_served_tools_are_offered(
    mode: Mode,
    server: Seq<char>,
    http: bool,
    overrides: Seq<String>,
    list: Seq<McpTool>,
    t: McpTool,
)
    ensures
        toolset::server_part(mode, server, http, overrides, seq![]) == Seq::<
            toolset::ToolView,
        >::empty(),
        ({
            let before = toolset::server_part(mode, server, http, overrides, list);
            let after = toolset::server_part(mode, server, http, overrides, list.push(t));
            let reads = t.read_only_hint == Some(true) || exists|i: int|
                0 <= i < overrides.len() && (#[trigger] overrides[i])@ == t.name@;
            if mode == Mode::ReadOnly && !reads {
                after == before
            } else {
                &&& after.len() == before.len() + 1
                &&& after.take(before.len() as int) == before
                &&& after.last().binding == (toolset::BindingView::Mcp { server, tool: t.name@ })
                &&& after.last().definition.parameters == t.input_schema@
                &&& t.description matches Some(d) ==> after.last().definition.description == d@
                &&& after.last().definition.name == toolset::sanitized(server + "__"@ + t.name@)
                &&& forall|e: ToolEffect| #[trigger]
                    after.last().effects.contains(e) <==> (e == ToolEffect::ExternalRead && reads)
                        || (e == ToolEffect::ExternalMutation && !reads) || (e
                        == ToolEffect::NetworkEgress && http)
            }
        }),
{
    assert(list.push(t).drop_last() =~= list);
    assert(list.push(t).last() == t);
    let before = toolset::server_part(mode, server, http, overrides, list);
    let after = toolset::server_part(mode, server, http, overrides, list.push(t));
    let named = text::views(overrides);
    if exists|i: int| 0 <= i < overrides.len() && (#[trigger] overrides[i])@ == t.name@ {
        let i = choose|i: int| 0 <= i < overrides.len() && (#[trigger] overrides[i])@ == t.name@;
        assert(named[i] == t.name@);
    }
    if named.contains(t.name@) {
        let i = choose|i: int| 0 <= i < named.len() && named[i] == t.name@;
        assert(overrides[i]@ == t.name@);
    }
    assert(after.len() > before.len() ==> after.take(before.len() as int) =~= before);
}

/// A name that is told to a model keeps its letters, digits, `_` and `-`, has
/// a dash for every other character, and is cut to 64 characters.
pub proof fn law_tool_names_keep_their_letters(name: Seq<char>, i: int)
    ensures
        toolset::sanitized(name).len() == if name.len() <= 64 {
            name.len()
        } else {
            64
        },
        0 <= i < name.len() && i < 64 ==> toolset::sanitized(name)[i] == if 'a' <= name[i] <= 'z'
            || 'A' <= name[i] <= 'Z' || '0' <= name[i] <= '9' || name[i] == '_' || name[i] == '-' {
            name[i]
        } else {
            '-'
        },
{
}

/// A context's tools are those of its servers, its built-in ones and its
/// agents, in this order, and all of them.
pub proof fn law_contexts_get_all_their_tools(
    p: toolset::ProfileView,
    c: Config,
    m: McpManager,
    depth: nat,
    served: Seq<toolset::ToolView>,
    agents: Seq<toolset::ToolView>,
)
    requires
        toolset::mcp_part(p.mode, p.mcp, c, m) == Ok::<_, Seq<char>>(served),
        toolset::agent_part(p.mode, p.subagents, c, m, depth) == Ok::<_, Seq<char>>(agents),
    ensures
        toolset::assembled(p, c, m, depth) matches Ok(all) && all.len() == served.len()
            + toolset::builtin_part(p, c).len() + agents.len() && all.take(served.len() as int)
            == served && all.skip(all.len() - agents.len()) == agents && all.subrange(
            served.len() as int,
            all.len() - agents.len(),
        ) == toolset::builtin_part(p, c),
{
    let all = toolset::assembled(p, c, m, depth)->Ok_0;
    assert(all.take(served.len() as int) =~= served);
    assert(all.skip(all.len() - agents.len()) =~= agents);
    assert(all.subrange(served.len() as int, all.len() - agents.len()) =~= toolset::builtin_part(
        p,
        c,
    ));
}

/// Each server of a context adds its tools behind those of the servers before
/// it; one that is not connected is an error.
pub proof fn law_every_server_is_asked(
    mode: Mode,
    servers: Seq<Seq<char>>,
    server: Seq<char>,
    c: Config,
    m: McpManager,
)
    ensures
        toolset::mcp_part(mode, seq![], c, m) == Ok::<_, Seq<char>>(
            Seq::<toolset::ToolView>::empty(),
        ),
        toolset::mcp_part(mode, servers, c, m) matches Ok(done) ==> {
            &&& m.connections.has_name(server) ==> toolset::mcp_part(
                mode,
                servers.push(server),
                c,
                m,
            ) == Ok::<_, Seq<char>>(
                done + toolset::server_part(
                    mode,
                    server,
                    toolset::is_http(c, server),
                    m.connections.at(server).readonly_overrides@,
                    m.connections.at(server).tools@,
                ),
            )
            &&& !m.connections.has_name(server) ==> toolset::mcp_part(
                mode,
                servers.push(server),
                c,
                m,
            ) is Err
        },
{
    assert(servers.push(server).drop_last() =~= servers);
}

/// An agent that may be delegated to is one tool, called `agent__` and its
/// name, whose effects are all that its own tools have; one that may write
/// counts as changing things outside, and one whose model may be reached over
/// the network as reaching it. Where only reading is allowed, one that can
/// change things is left out.
pub proof fn law_agents_are_offered_with_their_reach(
    mode: Mode,
    names: Seq<Seq<char>>,
    name: Seq<char>,
    c: Config,
    m: McpManager,
    depth: nat,
    before: Seq<toolset::ToolView>,
    nested: Seq<toolset::ToolView>,
)
    requires
        depth < c.settings.max_agent_depth,
        c.agents.has_name(name),
        toolset::agent_part(mode, names, c, m, depth) == Ok::<_, Seq<char>>(before),
        toolset::assembled(toolset::agent_profile(c.agents.at(name), name), c, m, depth + 1)
            == Ok::<_, Seq<char>>(nested),
    ensures
        ({
            let r = toolset::agent_part(mode, names.push(name), c, m, depth);
            let agent = c.agents.at(name);
            let reach = toolset::agent_effects(agent, nested, c);
            let changes = reach.contains(ToolEffect::FilesystemWrite) || reach.contains(
                ToolEffect::ProcessExecute,
            ) || reach.contains(ToolEffect::ExternalMutation);
            &&& mode == Mode::ReadOnly && changes ==> r == Ok::<_, Seq<char>>(before)
            &&& !(mode == Mode::ReadOnly && changes) ==> (r matches Ok(after) && after.len()
                == before.len() + 1 && after.drop_last() == before && after.last().binding == (
            toolset::BindingView::Agent { agent: name }) && after.last().effects == reach
                && after.last().definition.name == toolset::sanitized("agent__"@ + name))
            &&& forall|i: int, e: ToolEffect|
                0 <= i < nested.len() && (#[trigger] nested[i]).effects.contains(e)
                    ==> #[trigger] reach.contains(e)
            &&& agent.mode == Mode::ReadWrite ==> reach.contains(ToolEffect::ExternalMutation)
        }),
{
    assert(names.push(name).drop_last() =~= names);
    let agent = c.agents.at(name);
    let reach = toolset::agent_effects(agent, nested, c);
    let r = toolset::agent_part(mode, names.push(name), c, m, depth);
    assert(r matches Ok(after) ==> after == before || after.drop_last() =~= before);
    assert forall|i: int, e: ToolEffect|
        0 <= i < nested.len() && (#[trigger] nested[i]).effects.contains(
            e,
        ) implies #[trigger] reach.contains(e) by {
        lemma_combined(nested, i, e);
    }
}

proof fn lemma_combined(list: Seq<toolset::ToolView>, i: int, e: ToolEffect)
    requires
        0 <= i < list.len(),
        list[i].effects.contains(e),
    ensures
        toolset::combined(list).contains(e),
    decreases list.len(),
{
    if i < list.len() - 1 {
        assert(list.drop_last()[i] == list[i]);
        lemma_combined(list.drop_last(), i, e);
    }
}

} // verus!
