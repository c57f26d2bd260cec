//! What holds of a configuration that is found in order.

use vstd::prelude::*;
use vstd::string::*;

use crate::config;
use crate::config::Agent;
use crate::config::Config;
use crate::config::DataBoundary;
use crate::find;
use crate::splitting_laws;
use crate::table::Table;
use crate::text;
use crate::validate;

verus! {

/// Whether every name of a list is in a table.
pub open spec fn all_in<V>(list: Seq<Seq<char>>, table: Table<V>) -> bool {
    forall|i: int| 0 <= i < list.len() ==> table.has_name(#[trigger] list[i])
}

/// Whether every name of a list is in another list.
pub open spec fn all_among(list: Seq<Seq<char>>, known: Seq<Seq<char>>) -> bool {
    forall|i: int| 0 <= i < list.len() ==> known.contains(#[trigger] list[i])
}

proof fn lemma_unknown_keys<V>(list: Seq<Seq<char>>, table: Table<V>, before: Seq<char>)
    ensures
        validate::unknown_keys(list, table, before).len() == 0 <==> all_in(list, table),
    decreases list.len(),
{
    if list.len() > 0 {
        let fewer = list.drop_last();
        lemma_unknown_keys(fewer, table, before);
        if all_in(list, table) {
            assert forall|i: int| 0 <= i < fewer.len() implies table.has_name(
                #[trigger] fewer[i],
            ) by {
                assert(fewer[i] == list[i]);
            }
            assert(table.has_name(list[list.len() - 1]));
        }
        if all_in(fewer, table) && table.has_name(list.last()) {
            assert forall|i: int| 0 <= i < list.len() implies table.has_name(
                #[trigger] list[i],
            ) by {
                if i < fewer.len() {
                    assert(fewer[i] == list[i]);
                }
            }
        }
    }
}

proof fn lemma_unknown_names(list: Seq<Seq<char>>, known: Seq<Seq<char>>, before: Seq<char>)
    ensures
        validate::unknown_names(list, known, before).len() == 0 <==> all_among(list, known),
    decreases list.len(),
{
    if list.len() > 0 {
        let fewer = list.drop_last();
        lemma_unknown_names(fewer, known, before);
        if all_among(list, known) {
            assert forall|i: int| 0 <= i < fewer.len() implies known.contains(
                #[trigger] fewer[i],
            ) by {
                assert(fewer[i] == list[i]);
            }
            assert(known.contains(list[list.len() - 1]));
        }
        if all_among(fewer, known) && known.contains(list.last()) {
            assert forall|i: int| 0 <= i < list.len() implies known.contains(
                #[trigger] list[i],
            ) by {
                if i < fewer.len() {
                    assert(fewer[i] == list[i]);
                }
            }
        }
    }
}

/// Every model has a provider that is there, every hook a command, exactly
/// where nothing is found wrong with them.
pub proof fn law_models_have_providers_and_hooks_commands(c: Config, n: int, m: int)
    requires
        0 <= n <= c.models.entries@.len(),
        0 <= m <= c.hooks@.len(),
    ensures
        validate::provider_problems(c, n).len() == 0 <==> forall|i: int|
            0 <= i < n ==> c.providers.has_name((#[trigger] c.models.entries@[i]).1.provider@),
        validate::hook_problems(c, m).len() == 0 <==> forall|i: int|
            0 <= i < m ==> text::trim_spec((#[trigger] c.hooks@[i]).command@).len() > 0,
    decreases n + m,
{
    if n > 0 {
        law_models_have_providers_and_hooks_commands(c, n - 1, m);
        assert(validate::provider_problems(c, n).len() == 0 ==> forall|i: int|
            0 <= i < n ==> c.providers.has_name((#[trigger] c.models.entries@[i]).1.provider@));
        if forall|i: int|
            0 <= i < n ==> c.providers.has_name((#[trigger] c.models.entries@[i]).1.provider@) {
            assert(c.providers.has_name(c.models.entries@[n - 1].1.provider@));
        }
    } else if m > 0 {
        law_models_have_providers_and_hooks_commands(c, n, m - 1);
        assert(validate::hook_problems(c, m).len() == 0 ==> forall|i: int|
            0 <= i < m ==> text::trim_spec((#[trigger] c.hooks@[i]).command@).len() > 0);
        if forall|i: int|
            0 <= i < m ==> text::trim_spec((#[trigger] c.hooks@[i]).command@).len() > 0 {
            assert(text::trim_spec(c.hooks@[m - 1].command@).len() > 0);
        }
    }
}

/// A fallback is in order exactly where it is another model, is there, and
/// does not lead data from a local model outside without consent.
pub proof fn law_fallbacks_stay_inside_without_consent(c: Config, row: int, k: int)
    requires
        0 <= row < c.models.entries@.len(),
        0 <= k <= c.models.entries@[row].1.fallback@.len(),
    ensures
        validate::fallbacks_of(c, row, k).len() == 0 <==> forall|j: int|
            0 <= j < k ==> {
                let model = c.models.entries@[row].1;
                let f = (#[trigger] c.models.entries@[row].1.fallback@[j])@;
                let local = c.providers.has_name(model.provider@) && c.providers.at(
                    model.provider@,
                ).data_boundary == DataBoundary::Local;
                let outside = c.providers.has_name(c.models.at(f).provider@) && c.providers.at(
                    c.models.at(f).provider@,
                ).data_boundary == DataBoundary::External;
                f != c.models.entries@[row].0@ && c.models.has_name(f) && !(local && outside
                    && !model.allow_external_fallback)
            },
    decreases k,
{
    if k > 0 {
        law_fallbacks_stay_inside_without_consent(c, row, k - 1);
        let f = c.models.entries@[row].1.fallback@[k - 1]@;
        let found = validate::fallback_problem(c, row, f);
        assert(validate::fallbacks_of(c, row, k).len() == validate::fallbacks_of(
            c,
            row,
            k - 1,
        ).len() + found.len());
    }
}

/// What an agent or a stage asks for is in order exactly where patterns for
/// commands come with a shell, and rules on approval with the need for it.
pub proof fn law_rules_come_with_what_they_rule(
    who: Seq<char>,
    shell_allow: bool,
    shell: bool,
    auto_approve: bool,
    listed: bool,
    required: bool,
)
    ensures
        validate::gate_problems(who, shell_allow, shell, auto_approve, listed, required).len() == 0
            <==> (shell_allow ==> shell) && (auto_approve ==> required) && (listed ==> required),
{
}

/// An agent is in order exactly where its model, its servers and its own
/// agents are there, it has at most one prompt, searches only where a search
/// is set up, and its rules come with what they rule.
pub proof fn law_agents_refer_to_what_is_there(c: Config, name: Seq<char>, a: Agent)
    ensures
        validate::agent_problem(c, name, a).len() == 0 <==> {
            &&& c.models.has_name(a.model@)
            &&& all_in(text::views(a.mcp@), c.mcp)
            &&& !(a.system_prompt is Some && a.system_prompt_file is Some)
            &&& a.web_search ==> c.settings.searxng_url is Some
            &&& all_in(text::views(a.subagents@), c.agents)
            &&& a.shell_allow@.len() > 0 ==> a.shell
            &&& a.auto_approve@.len() > 0 ==> a.require_approval
            &&& a.approval_effects@.len() > 0 ==> a.require_approval
        },
{
    let who = validate::owner("agent"@, name);
    lemma_unknown_keys(
        text::views(a.mcp@),
        c.mcp,
        who + " references unknown mcp server `"@,
    );
    lemma_unknown_keys(
        text::views(a.subagents@),
        c.agents,
        who + " subagents references unknown agent `"@,
    );
}

/// Whether a variable of a stage's template can be filled in: the task always,
/// the last answer behind the first stage, and that of an earlier stage.
pub open spec fn can_be_filled(earlier: Seq<Seq<char>>, var: Seq<char>) -> bool {
    ||| var == "input"@
    ||| var == "previous"@ && earlier.len() > 0
    ||| exists|k: int| 0 <= k < earlier.len() && var == "stage."@ + #[trigger] earlier[k]
}

proof fn lemma_variable(who: Seq<char>, earlier: Seq<Seq<char>>, var: Seq<char>)
    ensures
        validate::variable_problem(who, earlier, var).len() == 0 <==> can_be_filled(earlier, var),
{
    reveal_strlit("input");
    reveal_strlit("previous");
    reveal_strlit("stage.");
    assert("stage."@[0] == 's');
    assert("input"@[0] == 'i');
    assert("previous"@[0] == 'p');
    if exists|k: int| 0 <= k < earlier.len() && var == "stage."@ + #[trigger] earlier[k] {
        let k = choose|k: int| 0 <= k < earlier.len() && var == "stage."@ + #[trigger] earlier[k];
        splitting_laws::law_texts_are_found_where_they_stand(
            seq![],
            "stage."@,
            earlier[k],
            var,
        );
        assert(var[0] == 's');
        assert(earlier.contains(earlier[k]));
    }
    if var != "input"@ && var != "previous"@ {
        splitting_laws::law_texts_are_found_where_they_stand(seq![], "stage."@, seq![], var);
        if find::strip_prefix_spec(var, "stage."@) is Some {
            let rest = find::strip_prefix_spec(var, "stage."@)->0;
            if earlier.contains(rest) {
                let k = choose|k: int| 0 <= k < earlier.len() && earlier[k] == rest;
                assert(var == "stage."@ + earlier[k]);
            }
        }
    }
}

proof fn lemma_variables(who: Seq<char>, earlier: Seq<Seq<char>>, vars: Seq<Seq<char>>)
    ensures
        validate::variable_problems(who, earlier, vars).len() == 0 <==> forall|i: int|
            0 <= i < vars.len() ==> can_be_filled(earlier, #[trigger] vars[i]),
    decreases vars.len(),
{
    if vars.len() > 0 {
        let fewer = vars.drop_last();
        lemma_variables(who, earlier, fewer);
        lemma_variable(who, earlier, vars.last());
        assert(vars[vars.len() - 1] == vars.last());
        if forall|i: int| 0 <= i < vars.len() ==> can_be_filled(earlier, #[trigger] vars[i]) {
            assert forall|i: int| 0 <= i < fewer.len() implies can_be_filled(
                earlier,
                #[trigger] fewer[i],
            ) by {
                assert(fewer[i] == vars[i]);
            }
        }
        if validate::variable_problems(who, earlier, vars).len() == 0 {
            assert forall|i: int| 0 <= i < vars.len() implies can_be_filled(
                earlier,
                #[trigger] vars[i],
            ) by {
                if i < fewer.len() {
                    assert(fewer[i] == vars[i]);
                }
            }
        }
    }
}

/// A stage is in order exactly where no earlier stage has its name; its model,
/// servers, agents and the stages that it may hand control to are there; it
/// has at most one prompt, searches only where a search is set up; its rules
/// come with what they rule; and each variable of its template can be filled
/// in when it runs.
pub proof fn law_stages_refer_to_what_is_there(c: Config, index: int)
    requires
        0 <= index < c.stages@.len(),
    ensures
        ({
            let s = c.stages@[index];
            let names = Seq::new(c.stages@.len(), |i: int| c.stages@[i].name@);
            let vars = config::template_vars_spec(s.template(index == 0), 0);
            validate::stage_problem(c, index).len() == 0 <==> {
                &&& !names.take(index).contains(s.name@)
                &&& all_among(text::views(s.can_reprompt@), names)
                &&& all_in(text::views(s.subagents@), c.agents)
                &&& s.shell_allow@.len() > 0 ==> s.shell
                &&& s.auto_approve@.len() > 0 ==> s.require_approval
                &&& s.approval_effects@.len() > 0 ==> s.require_approval
                &&& c.models.has_name(s.model@)
                &&& all_in(text::views(s.mcp@), c.mcp)
                &&& !(s.system_prompt is Some && s.system_prompt_file is Some)
                &&& s.web_search ==> c.settings.searxng_url is Some
                &&& forall|i: int|
                    0 <= i < vars.len() ==> can_be_filled(names.take(index), #[trigger] vars[i])
            }
        }),
{
    let s = c.stages@[index];
    let names = validate::stage_names(c.stages@);
    assert(names =~= Seq::new(c.stages@.len(), |i: int| c.stages@[i].name@));
    let earlier = names.take(index);
    let who = validate::owner("stage"@, s.name@);
    lemma_unknown_names(
        text::views(s.can_reprompt@),
        names,
        who + " can_reprompt references unknown stage `"@,
    );
    lemma_unknown_keys(
        text::views(s.subagents@),
        c.agents,
        who + " subagents references unknown agent `"@,
    );
    lemma_unknown_keys(text::views(s.mcp@), c.mcp, who + " references unknown mcp server `"@);
    lemma_variables(who, earlier, config::template_vars_spec(s.template(index == 0), 0));
}

/// A workflow's list is in order exactly where each stage on it is there and
/// none comes twice.
pub proof fn law_workflows_list_stages_once(
    c: Config,
    name: Seq<char>,
    list: Seq<Seq<char>>,
    k: int,
)
    requires
        0 <= k <= list.len(),
    ensures
        validate::listing_problems(c, name, list, k).len() == 0 <==> (forall|i: int|
            0 <= i < k ==> validate::stage_names(c.stages@).contains(#[trigger] list[i])) && (
        forall|i: int, j: int| 0 <= i < j < k ==> #[trigger] list[i] != #[trigger] list[j]),
    decreases k,
{
    if k > 0 {
        law_workflows_list_stages_once(c, name, list, k - 1);
        let known = validate::stage_names(c.stages@);
        let entry = list[k - 1];
        let front = list.take(k - 1);
        if validate::listing_problems(c, name, list, k).len() == 0 {
            assert forall|i: int, j: int| 0 <= i < j < k implies #[trigger] list[i]
                != #[trigger] list[j] by {
                if j == k - 1 {
                    assert(front[i] == list[i]);
                }
            }
        }
        if (forall|i: int| 0 <= i < k ==> known.contains(#[trigger] list[i])) && (forall|
            i: int,
            j: int,
        |
            0 <= i < j < k ==> #[trigger] list[i] != #[trigger] list[j]) {
            assert(known.contains(list[k - 1]));
            if front.contains(entry) {
                let i = choose|i: int| 0 <= i < front.len() && front[i] == entry;
                assert(list[i] == list[k - 1]);
            }
        }
    }
}

/// All parts are looked at: a configuration is in order exactly where its
/// models, hooks, fallbacks, agents, stages and workflows are, it has a stage,
/// and the workflow that is set as the usual one is there.
pub proof fn law_every_part_is_looked_at(c: Config)
    ensures
        validate::problems(c, None).len() == 0 <==> {
            &&& validate::provider_problems(c, c.models.entries@.len() as int).len() == 0
            &&& c.stages@.len() > 0
            &&& validate::hook_problems(c, c.hooks@.len() as int).len() == 0
            &&& validate::fallback_problems(c, c.models.entries@.len() as int).len() == 0
            &&& validate::agent_problems(c, c.agents.entries@.len() as int).len() == 0
            &&& validate::stage_problems(c, c.stages@.len() as int).len() == 0
            &&& validate::workflow_problems(c, c.workflows.entries@.len() as int).len() == 0
            &&& c.settings.default_workflow matches Some(w) ==> c.workflows.has_name(w@)
        },
{
}

/// No model, agent, stage or workflow is passed over.
pub proof fn law_no_entry_is_passed_over(c: Config, n: int)
    requires
        0 < n,
    ensures
        n <= c.models.entries@.len() ==> (validate::fallback_problems(c, n).len() == 0
            <==> validate::fallback_problems(c, n - 1).len() == 0 && validate::fallbacks_of(
            c,
            n - 1,
            c.models.entries@[n - 1].1.fallback@.len() as int,
        ).len() == 0),
        n <= c.agents.entries@.len() ==> (validate::agent_problems(c, n).len() == 0
            <==> validate::agent_problems(c, n - 1).len() == 0 && validate::agent_problem(
            c,
            c.agents.entries@[n - 1].0@,
            c.agents.entries@[n - 1].1,
        ).len() == 0),
        n <= c.stages@.len() ==> (validate::stage_problems(c, n).len() == 0
            <==> validate::stage_problems(c, n - 1).len() == 0 && validate::stage_problem(
            c,
            n - 1,
        ).len() == 0),
        n <= c.workflows.entries@.len() ==> (validate::workflow_problems(c, n).len() == 0
            <==> validate::workflow_problems(c, n - 1).len() == 0
            && c.workflows.entries@[n - 1].1.stages@.len() > 0 && validate::listing_problems(
            c,
            c.workflows.entries@[n - 1].0@,
            text::views(c.workflows.entries@[n - 1].1.stages@),
            c.workflows.entries@[n - 1].1.stages@.len() as int,
        ).len() == 0),
{
}

// ---------------------------------------------------------------------------
// Variables
// ---------------------------------------------------------------------------

proof fn lemma_expanded_behind(head: Seq<char>, rest: Seq<char>, env: Table<String>, from: int)
    requires
        0 <= from <= rest.len(),
        config::expand_env_spec(rest, env, from) is Ok,
    ensures
        config::expand_env_spec(head + rest, env, head.len() + from) == config::expand_env_spec(
            rest,
            env,
            from,
        ),
    decreases rest.len() - from,
{
    reveal_strlit("${");
    let n = head.len() as int;
    splitting_laws::lemma_found_behind(head, rest, "${"@, from);
    find::lemma_find(rest, "${"@, from);
    match find::find_spec(rest, "${"@, from) {
        None => {
            assert((head + rest).skip(n + from) =~= rest.skip(from));
        },
        Some(i) => {
            assert((head + rest).subrange(n + from, n + i) =~= rest.subrange(from, i));
            splitting_laws::lemma_found_behind(head, rest, seq!['}'], i + 2);
            find::lemma_find(rest, seq!['}'], i + 2);
            let j = find::find_spec(rest, seq!['}'], i + 2)->0;
            assert((head + rest).subrange(n + i + 2, n + j) =~= rest.subrange(i + 2, j));
            lemma_expanded_behind(head, rest, env, j + 1);
        },
    }
}

/// A reference to a variable of the environment is replaced by its value, and
/// the text around it is kept; one to a variable that is not set is an error.
pub proof fn law_references_are_replaced_by_values(
    front: Seq<char>,
    name: Seq<char>,
    rest: Seq<char>,
    env: Table<String>,
)
    requires
        !front.contains('$'),
        !name.contains('}'),
    ensures
        ({
            let whole = front + seq!['$', '{'] + name + seq!['}'] + rest;
            let r = config::expand_env_spec(whole, env, 0);
            &&& !env.has_name(name) ==> r == Err::<Seq<char>, _>(config::EnvFault::Unset(name))
            &&& env.has_name(name) ==> (config::expand_env_spec(rest, env, 0) matches Ok(tail)
                ==> r == Ok::<_, config::EnvFault>(front + env.at(name)@ + tail))
        }),
        config::expand_env_spec(front, env, 0) == Ok::<_, config::EnvFault>(front),
{
    reveal_strlit("${");
    assert("${"@ =~= seq!['$', '{']);
    let whole = front + seq!['$', '{'] + name + seq!['}'] + rest;
    let n = front.len() as int;
    let behind = name + seq!['}'] + rest;
    let open = front + "${"@;
    assert(whole =~= open + behind);
    assert(whole =~= front + "${"@ + behind);
    lemma_nowhere_before(front, "${"@, behind);
    splitting_laws::law_each_occurrence_is_replaced(front, "${"@, seq![], behind);
    lemma_nowhere_before(name, seq!['}'], rest);
    splitting_laws::law_each_occurrence_is_replaced(name, seq!['}'], seq![], rest);
    splitting_laws::lemma_found_behind(open, behind, seq!['}'], 0);
    let j = n + 2 + name.len();
    assert(find::find_spec(whole, "${"@, 0) == Some(n));
    assert(find::find_spec(whole, seq!['}'], n + 2) == Some(j));
    assert(whole.subrange(n + 2, j) =~= name);
    assert(whole.subrange(0, n) =~= front);
    let head = open + name + seq!['}'];
    assert(whole =~= head + rest);
    if config::expand_env_spec(rest, env, 0) is Ok {
        lemma_expanded_behind(head, rest, env, 0);
        assert(head.len() + 0 == j + 1);
    }
    find::lemma_find(front, "${"@, 0);
    if find::find_spec(front, "${"@, 0) is Some {
        let i = find::find_spec(front, "${"@, 0)->0;
        assert(front.subrange(i, i + 2)[0] == '$');
        assert(front[i] == '$');
    }
    assert(front.skip(0) =~= front);
}

proof fn lemma_nowhere_before(front: Seq<char>, pat: Seq<char>, back: Seq<char>)
    requires
        pat.len() > 0,
        !front.contains(pat[0]),
    ensures
        forall|i: int|
            0 <= i < front.len() ==> #[trigger] (front + pat + back).subrange(i, i + pat.len())
                != pat,
{
    let whole = front + pat + back;
    assert forall|i: int| 0 <= i < front.len() implies #[trigger] whole.subrange(
        i,
        i + pat.len(),
    ) != pat by {
        if whole.subrange(i, i + pat.len()) == pat {
            assert(whole.subrange(i, i + pat.len())[0] == pat[0]);
            assert(front[i] == pat[0]);
        }
    }
}

proof fn lemma_variables_behind(head: Seq<char>, rest: Seq<char>, from: int)
    requires
        0 <= from <= rest.len(),
    ensures
        config::template_vars_spec(head + rest, head.len() + from) == config::template_vars_spec(
            rest,
            from,
        ),
    decreases rest.len() - from,
{
    reveal_strlit("{{");
    reveal_strlit("}}");
    let n = head.len() as int;
    splitting_laws::lemma_found_behind(head, rest, "{{"@, from);
    find::lemma_find(rest, "{{"@, from);
    if find::find_spec(rest, "{{"@, from) is Some {
        let i = find::find_spec(rest, "{{"@, from)->0;
        splitting_laws::lemma_found_behind(head, rest, "}}"@, i + 2);
        find::lemma_find(rest, "}}"@, i + 2);
        if find::find_spec(rest, "}}"@, i + 2) is Some {
            let j = find::find_spec(rest, "}}"@, i + 2)->0;
            assert((head + rest).subrange(n + i + 2, n + j) =~= rest.subrange(i + 2, j));
            lemma_variables_behind(head, rest, j + 2);
        }
    }
}

/// The variables of a template are what stands between double braces, without
/// white space around it, in order.
pub proof fn law_variables_stand_in_double_braces(
    front: Seq<char>,
    name: Seq<char>,
    rest: Seq<char>,
)
    requires
        !front.contains('{'),
        !name.contains('}'),
    ensures
        config::template_vars_spec(front + seq!['{', '{'] + name + seq!['}', '}'] + rest, 0)
            == seq![text::trim_spec(name)] + config::template_vars_spec(rest, 0),
        config::template_vars_spec(front, 0) == Seq::<Seq<char>>::empty(),
{
    reveal_strlit("{{");
    reveal_strlit("}}");
    assert("{{"@ =~= seq!['{', '{']);
    assert("}}"@ =~= seq!['}', '}']);
    let whole = front + seq!['{', '{'] + name + seq!['}', '}'] + rest;
    let n = front.len() as int;
    let behind = name + "}}"@ + rest;
    let open = front + "{{"@;
    assert(whole =~= open + behind);
    assert(whole =~= front + "{{"@ + behind);
    lemma_nowhere_before(front, "{{"@, behind);
    splitting_laws::law_each_occurrence_is_replaced(front, "{{"@, seq![], behind);
    lemma_nowhere_before(name, "}}"@, rest);
    splitting_laws::law_each_occurrence_is_replaced(name, "}}"@, seq![], rest);
    splitting_laws::lemma_found_behind(open, behind, "}}"@, 0);
    let j = n + 2 + name.len();
    assert(find::find_spec(whole, "{{"@, 0) == Some(n));
    assert(find::find_spec(whole, "}}"@, n + 2) == Some(j));
    assert(whole.subrange(n + 2, j) =~= name);
    let head = open + name + "}}"@;
    assert(whole =~= head + rest);
    lemma_variables_behind(head, rest, 0);
    assert(head.len() + 0 == j + 2);
    find::lemma_find(front, "{{"@, 0);
    if find::find_spec(front, "{{"@, 0) is Some {
        let i = find::find_spec(front, "{{"@, 0)->0;
        assert(front.subrange(i, i + 2)[0] == '{');
        assert(front[i] == '{');
    }
}

} // verus!
