//! The rules that a configuration must meet, and the choice of workflow.

use vstd::prelude::*;
use vstd::string::*;

use crate::config;
use crate::config::{Agent, Config, DataBoundary, Stage};
use crate::find;
use crate::numbers;
use crate::table::Table;
use crate::text;

verus! {

/// The message alone where the condition holds, else nothing.
pub open spec fn when(cond: bool, message: Seq<char>) -> Seq<Seq<char>> {
    if cond {
        seq![message]
    } else {
        seq![]
    }
}

/// A stage or an agent, as messages name it.
pub open spec fn owner(kind: Seq<char>, name: Seq<char>) -> Seq<char> {
    kind + " `"@ + name + "`"@
}

/// One message for each listed name that the table lacks.
pub open spec fn unknown_keys<V>(list: Seq<Seq<char>>, table: Table<V>, before: Seq<char>) -> Seq<
    Seq<char>,
>
    decreases list.len(),
{
    if list.len() == 0 {
        seq![]
    } else {
        unknown_keys(list.drop_last(), table, before) + when(
            !table.has_name(list.last()),
            before + list.last() + "`"@,
        )
    }
}

/// One message for each listed name that the known names lack.
pub open spec fn unknown_names(
    list: Seq<Seq<char>>,
    known: Seq<Seq<char>>,
    before: Seq<char>,
) -> Seq<Seq<char>>
    decreases list.len(),
{
    if list.len() == 0 {
        seq![]
    } else {
        unknown_names(list.drop_last(), known, before) + when(
            !known.contains(list.last()),
            before + list.last() + "`"@,
        )
    }
}

/// The names of the stages.
pub open spec fn stage_names(stages: Seq<Stage>) -> Seq<Seq<char>> {
    Seq::new(stages.len(), |i: int| stages[i].name@)
}

/// Models whose provider is not there.
pub open spec fn provider_problems(c: Config, n: int) -> Seq<Seq<char>>
    decreases n,
{
    if n <= 0 {
        seq![]
    } else {
        let row = c.models.entries@[n - 1];
        provider_problems(c, n - 1) + when(
            !c.providers.has_name(row.1.provider@),
            owner("model"@, row.0@) + " references unknown provider `"@ + row.1.provider@ + "`"@,
        )
    }
}

/// Hooks without a command.
pub open spec fn hook_problems(c: Config, n: int) -> Seq<Seq<char>>
    decreases n,
{
    if n <= 0 {
        seq![]
    } else {
        hook_problems(c, n - 1) + when(
            text::trim_spec(c.hooks@[n - 1].command@).len() == 0,
            "hooks["@ + numbers::decimal_spec((n - 1) as nat) + "] has an empty command"@,
        )
    }
}

/// Where the requests of a model go, if its provider is there.
pub open spec fn boundary_of(c: Config, model: Seq<char>) -> Option<DataBoundary> {
    if !c.models.has_name(model) {
        None
    } else {
        provider_boundary(c, c.models.at(model).provider@)
    }
}

/// Where the requests of a provider go.
pub open spec fn provider_boundary(c: Config, provider: Seq<char>) -> Option<DataBoundary> {
    if c.providers.has_name(provider) {
        Some(c.providers.at(provider).data_boundary)
    } else {
        None
    }
}

/// What is wrong with one fallback of the model in the given row.
pub open spec fn fallback_problem(c: Config, row: int, fallback: Seq<char>) -> Seq<Seq<char>> {
    let name = c.models.entries@[row].0@;
    let model = c.models.entries@[row].1;
    if fallback == name {
        seq![owner("model"@, name) + " lists itself as a fallback"@]
    } else if !c.models.has_name(fallback) {
        seq![owner("model"@, name) + " has unknown fallback model `"@ + fallback + "`"@]
    } else {
        when(
            provider_boundary(c, model.provider@) == Some(DataBoundary::Local) && boundary_of(
                c,
                fallback,
            ) == Some(DataBoundary::External) && !model.allow_external_fallback,
            owner("model"@, name)
                + " falls back from local data boundary to external model `"@ + fallback
                + "`; set allow_external_fallback = true on model `"@ + name + "` to consent"@,
        )
    }
}

/// What is wrong with the first `k` fallbacks of the model in a row.
pub open spec fn fallbacks_of(c: Config, row: int, k: int) -> Seq<Seq<char>>
    decreases k,
{
    if k <= 0 {
        seq![]
    } else {
        fallbacks_of(c, row, k - 1) + fallback_problem(
            c,
            row,
            c.models.entries@[row].1.fallback@[k - 1]@,
        )
    }
}

/// What is wrong with the fallbacks of the first `n` models.
pub open spec fn fallback_problems(c: Config, n: int) -> Seq<Seq<char>>
    decreases n,
{
    if n <= 0 {
        seq![]
    } else {
        fallback_problems(c, n - 1) + fallbacks_of(
            c,
            n - 1,
            c.models.entries@[n - 1].1.fallback@.len() as int,
        )
    }
}

/// Grants that only make sense beside another setting.
pub open spec fn gate_problems(
    who: Seq<char>,
    shell_allow: bool,
    shell: bool,
    auto_approve: bool,
    approval_effects: bool,
    require_approval: bool,
) -> Seq<Seq<char>> {
    when(shell_allow && !shell, who + " sets shell_allow but not `shell = true`"@) + when(
        auto_approve && !require_approval,
        who + " sets auto_approve but not `require_approval = true`"@,
    ) + when(
        approval_effects && !require_approval,
        who + " sets approval_effects but not `require_approval = true`"@,
    )
}

/// What is wrong with one agent.
pub open spec fn agent_problem(c: Config, name: Seq<char>, agent: Agent) -> Seq<Seq<char>> {
    let who = owner("agent"@, name);
    when(
        !c.models.has_name(agent.model@),
        who + " references unknown model `"@ + agent.model@ + "`"@,
    ) + unknown_keys(
        text::views(agent.mcp@),
        c.mcp,
        who + " references unknown mcp server `"@,
    ) + when(
        agent.system_prompt is Some && agent.system_prompt_file is Some,
        who + " sets both system_prompt and system_prompt_file"@,
    ) + when(
        agent.web_search && c.settings.searxng_url is None,
        who + " enables web_search but settings.searxng_url is not set"@,
    ) + unknown_keys(
        text::views(agent.subagents@),
        c.agents,
        who + " subagents references unknown agent `"@,
    ) + gate_problems(
        who,
        agent.shell_allow@.len() > 0,
        agent.shell,
        agent.auto_approve@.len() > 0,
        agent.approval_effects@.len() > 0,
        agent.require_approval,
    )
}

/// What is wrong with the first `n` agents.
pub open spec fn agent_problems(c: Config, n: int) -> Seq<Seq<char>>
    decreases n,
{
    if n <= 0 {
        seq![]
    } else {
        agent_problems(c, n - 1) + agent_problem(
            c,
            c.agents.entries@[n - 1].0@,
            c.agents.entries@[n - 1].1,
        )
    }
}

/// What is wrong with one template variable of a stage.
pub open spec fn variable_problem(
    who: Seq<char>,
    earlier: Seq<Seq<char>>,
    var: Seq<char>,
) -> Seq<Seq<char>> {
    if var == "input"@ {
        seq![]
    } else if var == "previous"@ {
        when(earlier.len() == 0, who + " uses {{previous}} but is the first stage"@)
    } else {
        match find::strip_prefix_spec(var, "stage."@) {
            Some(referenced) => when(
                !earlier.contains(referenced),
                who + " references {{stage."@ + referenced
                    + "}} which is not an earlier stage"@,
            ),
            None => seq![who + " uses unknown template variable {{"@ + var + "}}"@],
        }
    }
}

/// What is wrong with the template variables of a stage.
pub open spec fn variable_problems(
    who: Seq<char>,
    earlier: Seq<Seq<char>>,
    vars: Seq<Seq<char>>,
) -> Seq<Seq<char>>
    decreases vars.len(),
{
    if vars.len() == 0 {
        seq![]
    } else {
        variable_problems(who, earlier, vars.drop_last()) + variable_problem(
            who,
            earlier,
            vars.last(),
        )
    }
}

/// What is wrong with the stage at `index`.
pub open spec fn stage_problem(c: Config, index: int) -> Seq<Seq<char>> {
    let stage = c.stages@[index];
    let names = stage_names(c.stages@);
    let earlier = names.take(index);
    let who = owner("stage"@, stage.name@);
    when(earlier.contains(stage.name@), "duplicate stage name `"@ + stage.name@ + "`"@)
        + unknown_names(
        text::views(stage.can_reprompt@),
        names,
        who + " can_reprompt references unknown stage `"@,
    ) + unknown_keys(
        text::views(stage.subagents@),
        c.agents,
        who + " subagents references unknown agent `"@,
    ) + gate_problems(
        who,
        stage.shell_allow@.len() > 0,
        stage.shell,
        stage.auto_approve@.len() > 0,
        stage.approval_effects@.len() > 0,
        stage.require_approval,
    ) + when(
        !c.models.has_name(stage.model@),
        who + " references unknown model `"@ + stage.model@ + "`"@,
    ) + unknown_keys(
        text::views(stage.mcp@),
        c.mcp,
        who + " references unknown mcp server `"@,
    ) + when(
        stage.system_prompt is Some && stage.system_prompt_file is Some,
        who + " sets both system_prompt and system_prompt_file"@,
    ) + when(
        stage.web_search && c.settings.searxng_url is None,
        who + " enables web_search but settings.searxng_url is not set"@,
    ) + variable_problems(
        who,
        earlier,
        config::template_vars_spec(stage.template(index == 0), 0),
    )
}

/// What is wrong with the first `n` stages.
pub open spec fn stage_problems(c: Config, n: int) -> Seq<Seq<char>>
    decreases n,
{
    if n <= 0 {
        seq![]
    } else {
        stage_problems(c, n - 1) + stage_problem(c, n - 1)
    }
}

/// What is wrong with the first `k` entries of a workflow's stage list.
pub open spec fn listing_problems(c: Config, name: Seq<char>, list: Seq<Seq<char>>, k: int) -> Seq<
    Seq<char>,
>
    decreases k,
{
    if k <= 0 {
        seq![]
    } else {
        let entry = list[k - 1];
        listing_problems(c, name, list, k - 1) + when(
            !stage_names(c.stages@).contains(entry),
            owner("workflow"@, name) + " references unknown stage `"@ + entry + "`"@,
        ) + when(
            list.take(k - 1).contains(entry),
            owner("workflow"@, name) + " lists stage `"@ + entry + "` more than once"@,
        )
    }
}

/// What is wrong with the first `n` workflows.
pub open spec fn workflow_problems(c: Config, n: int) -> Seq<Seq<char>>
    decreases n,
{
    if n <= 0 {
        seq![]
    } else {
        let name = c.workflows.entries@[n - 1].0@;
        let list = text::views(c.workflows.entries@[n - 1].1.stages@);
        workflow_problems(c, n - 1) + when(
            list.len() == 0,
            owner("workflow"@, name) + " has no stages"@,
        ) + listing_problems(c, name, list, list.len() as int)
    }
}

/// Everything that is wrong with a configuration, in the order in which it
/// is reported. `threshold` is the auto-compact threshold's text where it
/// lies outside 0 to 1.
pub open spec fn problems(c: Config, threshold: Option<Seq<char>>) -> Seq<Seq<char>> {
    provider_problems(c, c.models.entries@.len() as int) + when(
        c.stages@.len() == 0,
        "no [[stage]] entries defined"@,
    ) + hook_problems(c, c.hooks@.len() as int) + fallback_problems(
        c,
        c.models.entries@.len() as int,
    ) + (match threshold {
        Some(t) => seq![
            "settings.auto_compact_threshold must be between 0 and 1 (got "@ + t + ")"@,
        ],
        None => seq![],
    }) + agent_problems(c, c.agents.entries@.len() as int) + stage_problems(
        c,
        c.stages@.len() as int,
    ) + workflow_problems(c, c.workflows.entries@.len() as int) + (match c.settings.default_workflow {
        Some(w) => when(
            !c.workflows.has_name(w@),
            "settings.default_workflow references unknown workflow `"@ + w@ + "`"@,
        ),
        None => seq![],
    })
}

// ---------------------------------------------------------------------------
// Checks
// ---------------------------------------------------------------------------

fn note_if(errors: &mut Vec<String>, cond: bool, message: String)
    ensures
        text::views(final(errors)@) == text::views(old(errors)@) + when(cond, message@),
{
    let ghost before = text::views(errors@);
    if cond {
        let ghost m = message@;
        text::add_text(errors, message);
        assert(before.push(m) =~= before + seq![m]);
    } else {
        assert(before + seq![] =~= before);
    }
}

proof fn lemma_assoc(a: Seq<Seq<char>>, b: Seq<Seq<char>>, c: Seq<Seq<char>>)
    ensures
        a + (b + c) == a + b + c,
{
    assert(a + (b + c) =~= a + b + c);
}

fn name_owner(kind: &str, name: &str) -> (r: String)
    ensures
        r@ == owner(kind@, name@),
{
    text::cat4(kind, " `", name, "`")
}

fn check_keys<V>(errors: &mut Vec<String>, list: &Vec<String>, table: &Table<V>, before: &str)
    ensures
        text::views(final(errors)@) == text::views(old(errors)@) + unknown_keys(
            text::views(list@),
            *table,
            before@,
        ),
{
    let ghost start = text::views(errors@);
    let ghost all = text::views(list@);
    let mut i: usize = 0;
    assert(start + seq![] =~= start);
    while i < list.len()
        invariant
            i <= list@.len(),
            all == text::views(list@),
            text::views(errors@) == start + unknown_keys(all.take(i as int), *table, before@),
        decreases list@.len() - i,
    {
        assert(all.take(i + 1).drop_last() =~= all.take(i as int));
        assert(all.take(i + 1).last() == list@[i as int]@);
        let ghost so_far = unknown_keys(all.take(i as int), *table, before@);
        let missing = !table.contains(list[i].as_str());
        let message = text::cat3(before, list[i].as_str(), "`");
        let ghost m = message@;
        note_if(errors, missing, message);
        assert(start + so_far + when(missing, m) =~= start + (so_far + when(missing, m)));
        i = i + 1;
    }
    assert(all.take(list@.len() as int) =~= all);
}

fn check_names(errors: &mut Vec<String>, list: &Vec<String>, known: &Vec<String>, before: &str)
    ensures
        text::views(final(errors)@) == text::views(old(errors)@) + unknown_names(
            text::views(list@),
            text::views(known@),
            before@,
        ),
{
    let ghost start = text::views(errors@);
    let ghost all = text::views(list@);
    let mut i: usize = 0;
    assert(start + seq![] =~= start);
    while i < list.len()
        invariant
            i <= list@.len(),
            all == text::views(list@),
            text::views(errors@) == start + unknown_names(
                all.take(i as int),
                text::views(known@),
                before@,
            ),
        decreases list@.len() - i,
    {
        assert(all.take(i + 1).drop_last() =~= all.take(i as int));
        assert(all.take(i + 1).last() == list@[i as int]@);
        let ghost so_far = unknown_names(all.take(i as int), text::views(known@), before@);
        let missing = !text::listed(known, list[i].as_str());
        let message = text::cat3(before, list[i].as_str(), "`");
        let ghost m = message@;
        note_if(errors, missing, message);
        assert(start + so_far + when(missing, m) =~= start + (so_far + when(missing, m)));
        i = i + 1;
    }
    assert(all.take(list@.len() as int) =~= all);
}

fn check_gates(
    errors: &mut Vec<String>,
    who: &str,
    shell_allow: bool,
    shell: bool,
    auto_approve: bool,
    approval_effects: bool,
    require_approval: bool,
)
    ensures
        text::views(final(errors)@) == text::views(old(errors)@) + gate_problems(
            who@,
            shell_allow,
            shell,
            auto_approve,
            approval_effects,
            require_approval,
        ),
{
    let ghost start = text::views(errors@);
    note_if(
        errors,
        shell_allow && !shell,
        text::cat2(who, " sets shell_allow but not `shell = true`"),
    );
    note_if(
        errors,
        auto_approve && !require_approval,
        text::cat2(who, " sets auto_approve but not `require_approval = true`"),
    );
    note_if(
        errors,
        approval_effects && !require_approval,
        text::cat2(who, " sets approval_effects but not `require_approval = true`"),
    );
    assert(text::views(errors@) =~= start + gate_problems(
        who@,
        shell_allow,
        shell,
        auto_approve,
        approval_effects,
        require_approval,
    ));
}

impl Config {
    fn check_providers(&self, errors: &mut Vec<String>)
        ensures
            text::views(final(errors)@) == text::views(old(errors)@) + provider_problems(
                *self,
                self.models.entries@.len() as int,
            ),
    {
        let ghost start = text::views(errors@);
        let mut i: usize = 0;
        assert(start + seq![] =~= start);
        while i < self.models.entries.len()
            invariant
                i <= self.models.entries@.len(),
                text::views(errors@) == start + provider_problems(*self, i as int),
            decreases self.models.entries@.len() - i,
        {
            let row = &self.models.entries[i];
            let who = name_owner("model", row.0.as_str());
            let missing = !self.providers.contains(row.1.provider.as_str());
            let message = text::cat4(
                who.as_str(),
                " references unknown provider `",
                row.1.provider.as_str(),
                "`",
            );
            let ghost so_far = provider_problems(*self, i as int);
            let ghost m = message@;
            note_if(errors, missing, message);
            assert(start + so_far + when(missing, m) =~= start + (so_far + when(missing, m)));
            i = i + 1;
        }
    }

    fn check_hooks(&self, errors: &mut Vec<String>)
        ensures
            text::views(final(errors)@) == text::views(old(errors)@) + hook_problems(
                *self,
                self.hooks@.len() as int,
            ),
    {
        let ghost start = text::views(errors@);
        let mut i: usize = 0;
        assert(start + seq![] =~= start);
        while i < self.hooks.len()
            invariant
                i <= self.hooks@.len(),
                text::views(errors@) == start + hook_problems(*self, i as int),
            decreases self.hooks@.len() - i,
        {
            let command = text::trim(self.hooks[i].command.as_str());
            let empty = command.as_str().is_empty();
            let message = text::cat3(
                "hooks[",
                numbers::decimal_len(i).as_str(),
                "] has an empty command",
            );
            let ghost so_far = hook_problems(*self, i as int);
            let ghost m = message@;
            note_if(errors, empty, message);
            assert(start + so_far + when(empty, m) =~= start + (so_far + when(empty, m)));
            i = i + 1;
        }
    }

    fn boundary(&self, provider: &str) -> (r: Option<DataBoundary>)
        ensures
            r == provider_boundary(*self, provider@),
    {
        match self.providers.get(provider) {
            Some(p) => Some(p.data_boundary),
            None => None,
        }
    }

    fn check_fallback(&self, errors: &mut Vec<String>, row: usize, fallback: &str)
        requires
            row < self.models.entries@.len(),
        ensures
            text::views(final(errors)@) == text::views(old(errors)@) + fallback_problem(
                *self,
                row as int,
                fallback@,
            ),
    {
        let name = self.models.entries[row].0.as_str();
        let model = &self.models.entries[row].1;
        let who = name_owner("model", name);
        if text::same(fallback, name) {
            note_if(errors, true, text::cat2(who.as_str(), " lists itself as a fallback"));
            return ;
        }
        match self.models.get(fallback) {
            None => {
                note_if(
                    errors,
                    true,
                    text::cat4(who.as_str(), " has unknown fallback model `", fallback, "`"),
                );
            },
            Some(target) => {
                let from = self.boundary(model.provider.as_str());
                let to = self.boundary(target.provider.as_str());
                let crosses = match (from, to) {
                    (Some(DataBoundary::Local), Some(DataBoundary::External)) => {
                        !model.allow_external_fallback
                    },
                    _ => false,
                };
                let mut message = text::cat4(
                    who.as_str(),
                    " falls back from local data boundary to external model `",
                    fallback,
                    "`; set allow_external_fallback = true on model `",
                );
                message.append(name);
                message.append("` to consent");
                note_if(errors, crosses, message);
            },
        }
    }

    fn check_fallbacks(&self, errors: &mut Vec<String>)
        ensures
            text::views(final(errors)@) == text::views(old(errors)@) + fallback_problems(
                *self,
                self.models.entries@.len() as int,
            ),
    {
        let ghost start = text::views(errors@);
        let mut i: usize = 0;
        assert(start + seq![] =~= start);
        while i < self.models.entries.len()
            invariant
                i <= self.models.entries@.len(),
                text::views(errors@) == start + fallback_problems(*self, i as int),
            decreases self.models.entries@.len() - i,
        {
            let ghost outer = fallback_problems(*self, i as int);
            let mut k: usize = 0;
            assert(start + outer + seq![] =~= start + outer);
            while k < self.models.entries[i].1.fallback.len()
                invariant
                    i < self.models.entries@.len(),
                    k <= self.models.entries@[i as int].1.fallback@.len(),
                    text::views(errors@) == start + outer + fallbacks_of(
                        *self,
                        i as int,
                        k as int,
                    ),
                decreases self.models.entries@[i as int].1.fallback@.len() - k,
            {
                let ghost so_far = fallbacks_of(*self, i as int, k as int);
                let fallback = self.models.entries[i].1.fallback[k].as_str();
                self.check_fallback(errors, i, fallback);
                let ghost now = fallback_problem(*self, i as int, fallback@);
                assert(start + outer + so_far + now =~= start + outer + (so_far + now));
                k = k + 1;
            }
            let ghost inner = fallbacks_of(
                *self,
                i as int,
                self.models.entries@[i as int].1.fallback@.len() as int,
            );
            assert(start + outer + inner =~= start + (outer + inner));
            i = i + 1;
        }
    }

    fn check_agent(&self, errors: &mut Vec<String>, name: &str, agent: &Agent)
        ensures
            text::views(final(errors)@) == text::views(old(errors)@) + agent_problem(
                *self,
                name@,
                *agent,
            ),
    {
        let ghost start = text::views(errors@);
        let who = name_owner("agent", name);
        note_if(
            errors,
            !self.models.contains(agent.model.as_str()),
            text::cat4(who.as_str(), " references unknown model `", agent.model.as_str(), "`"),
        );
        let ghost mut q: Seq<Seq<char>> = when(!self.models.has_name(agent.model@), who@ + " references unknown model `"@ + agent.model@ + "`"@);
        check_keys(
            errors,
            &agent.mcp,
            &self.mcp,
            text::cat2(who.as_str(), " references unknown mcp server `").as_str(),
        );
        proof {
            let p = unknown_keys(text::views(agent.mcp@), self.mcp, who@ + " references unknown mcp server `"@);
            lemma_assoc(start, q, p);
            q = q + p;
        }
        note_if(
            errors,
            agent.system_prompt.is_some() && agent.system_prompt_file.is_some(),
            text::cat2(who.as_str(), " sets both system_prompt and system_prompt_file"),
        );
        proof {
            let p = when(agent.system_prompt is Some && agent.system_prompt_file is Some, who@ + " sets both system_prompt and system_prompt_file"@);
            lemma_assoc(start, q, p);
            q = q + p;
        }
        note_if(
            errors,
            agent.web_search && self.settings.searxng_url.is_none(),
            text::cat2(
                who.as_str(),
                " enables web_search but settings.searxng_url is not set",
            ),
        );
        proof {
            let p = when(agent.web_search && self.settings.searxng_url is None, who@ + " enables web_search but settings.searxng_url is not set"@);
            lemma_assoc(start, q, p);
            q = q + p;
        }
        check_keys(
            errors,
            &agent.subagents,
            &self.agents,
            text::cat2(who.as_str(), " subagents references unknown agent `").as_str(),
        );
        proof {
            let p = unknown_keys(text::views(agent.subagents@), self.agents, who@ + " subagents references unknown agent `"@);
            lemma_assoc(start, q, p);
            q = q + p;
        }
        check_gates(
            errors,
            who.as_str(),
            agent.shell_allow.len() > 0,
            agent.shell,
            agent.auto_approve.len() > 0,
            agent.approval_effects.len() > 0,
            agent.require_approval,
        );
        proof {
            let p = gate_problems(who@, agent.shell_allow@.len() > 0, agent.shell, agent.auto_approve@.len() > 0, agent.approval_effects@.len() > 0, agent.require_approval);
            lemma_assoc(start, q, p);
            q = q + p;
        }
        assert(q == agent_problem(*self, name@, *agent));
    }

    fn check_agents(&self, errors: &mut Vec<String>)
        ensures
            text::views(final(errors)@) == text::views(old(errors)@) + agent_problems(
                *self,
                self.agents.entries@.len() as int,
            ),
    {
        let ghost start = text::views(errors@);
        let mut i: usize = 0;
        assert(start + seq![] =~= start);
        while i < self.agents.entries.len()
            invariant
                i <= self.agents.entries@.len(),
                text::views(errors@) == start + agent_problems(*self, i as int),
            decreases self.agents.entries@.len() - i,
        {
            let row = &self.agents.entries[i];
            let ghost so_far = agent_problems(*self, i as int);
            self.check_agent(errors, row.0.as_str(), &row.1);
            let ghost now = agent_problem(*self, row.0@, row.1);
            assert(start + so_far + now =~= start + (so_far + now));
            i = i + 1;
        }
    }

    fn check_variable(errors: &mut Vec<String>, who: &str, earlier: &Vec<String>, var: &str)
        ensures
            text::views(final(errors)@) == text::views(old(errors)@) + variable_problem(
                who@,
                text::views(earlier@),
                var@,
            ),
    {
        let ghost start = text::views(errors@);
        if text::same(var, "input") {
            assert(start + seq![] =~= start);
            return ;
        }
        if text::same(var, "previous") {
            note_if(
                errors,
                earlier.len() == 0,
                text::cat2(who, " uses {{previous}} but is the first stage"),
            );
            return ;
        }
        match find::strip_prefix(var, "stage.") {
            Some(referenced) => {
                let message = text::cat4(
                    who,
                    " references {{stage.",
                    referenced.as_str(),
                    "}} which is not an earlier stage",
                );
                note_if(errors, !text::listed(earlier, referenced.as_str()), message);
            },
            None => {
                note_if(
                    errors,
                    true,
                    text::cat4(who, " uses unknown template variable {{", var, "}}"),
                );
            },
        }
    }

    fn check_variables(errors: &mut Vec<String>, who: &str, earlier: &Vec<String>, vars: &Vec<
        String,
    >)
        ensures
            text::views(final(errors)@) == text::views(old(errors)@) + variable_problems(
                who@,
                text::views(earlier@),
                text::views(vars@),
            ),
    {
        let ghost start = text::views(errors@);
        let ghost all = text::views(vars@);
        let mut i: usize = 0;
        assert(start + seq![] =~= start);
        while i < vars.len()
            invariant
                i <= vars@.len(),
                all == text::views(vars@),
                text::views(errors@) == start + variable_problems(
                    who@,
                    text::views(earlier@),
                    all.take(i as int),
                ),
            decreases vars@.len() - i,
        {
            assert(all.take(i + 1).drop_last() =~= all.take(i as int));
            assert(all.take(i + 1).last() == vars@[i as int]@);
            let ghost so_far = variable_problems(
                who@,
                text::views(earlier@),
                all.take(i as int),
            );
            Self::check_variable(errors, who, earlier, vars[i].as_str());
            let ghost now = variable_problem(who@, text::views(earlier@), vars@[i as int]@);
            assert(start + so_far + now =~= start + (so_far + now));
            i = i + 1;
        }
        assert(all.take(vars@.len() as int) =~= all);
    }

    fn check_stage(
        &self,
        errors: &mut Vec<String>,
        index: usize,
        names: &Vec<String>,
        earlier: &Vec<String>,
    )
        requires
            index < self.stages@.len(),
            text::views(names@) == stage_names(self.stages@),
            text::views(earlier@) == stage_names(self.stages@).take(index as int),
        ensures
            text::views(final(errors)@) == text::views(old(errors)@) + stage_problem(
                *self,
                index as int,
            ),
    {
        let ghost start = text::views(errors@);
        let stage = &self.stages[index];
        let who = name_owner("stage", stage.name.as_str());
        note_if(
            errors,
            text::listed(earlier, stage.name.as_str()),
            text::cat3("duplicate stage name `", stage.name.as_str(), "`"),
        );
        let ghost mut q: Seq<Seq<char>> = when(text::views(earlier@).contains(stage.name@), "duplicate stage name `"@ + stage.name@ + "`"@);
        check_names(
            errors,
            &stage.can_reprompt,
            names,
            text::cat2(who.as_str(), " can_reprompt references unknown stage `").as_str(),
        );
        proof {
            let p = unknown_names(text::views(stage.can_reprompt@), text::views(names@), who@ + " can_reprompt references unknown stage `"@);
            lemma_assoc(start, q, p);
            q = q + p;
        }
        check_keys(
            errors,
            &stage.subagents,
            &self.agents,
            text::cat2(who.as_str(), " subagents references unknown agent `").as_str(),
        );
        proof {
            let p = unknown_keys(text::views(stage.subagents@), self.agents, who@ + " subagents references unknown agent `"@);
            lemma_assoc(start, q, p);
            q = q + p;
        }
        check_gates(
            errors,
            who.as_str(),
            stage.shell_allow.len() > 0,
            stage.shell,
            stage.auto_approve.len() > 0,
            stage.approval_effects.len() > 0,
            stage.require_approval,
        );
        proof {
            let p = gate_problems(who@, stage.shell_allow@.len() > 0, stage.shell, stage.auto_approve@.len() > 0, stage.approval_effects@.len() > 0, stage.require_approval);
            lemma_assoc(start, q, p);
            q = q + p;
        }
        note_if(
            errors,
            !self.models.contains(stage.model.as_str()),
            text::cat4(who.as_str(), " references unknown model `", stage.model.as_str(), "`"),
        );
        proof {
            let p = when(!self.models.has_name(stage.model@), who@ + " references unknown model `"@ + stage.model@ + "`"@);
            lemma_assoc(start, q, p);
            q = q + p;
        }
        check_keys(
            errors,
            &stage.mcp,
            &self.mcp,
            text::cat2(who.as_str(), " references unknown mcp server `").as_str(),
        );
        proof {
            let p = unknown_keys(text::views(stage.mcp@), self.mcp, who@ + " references unknown mcp server `"@);
            lemma_assoc(start, q, p);
            q = q + p;
        }
        note_if(
            errors,
            stage.system_prompt.is_some() && stage.system_prompt_file.is_some(),
            text::cat2(who.as_str(), " sets both system_prompt and system_prompt_file"),
        );
        proof {
            let p = when(stage.system_prompt is Some && stage.system_prompt_file is Some, who@ + " sets both system_prompt and system_prompt_file"@);
            lemma_assoc(start, q, p);
            q = q + p;
        }
        note_if(
            errors,
            stage.web_search && self.settings.searxng_url.is_none(),
            text::cat2(
                who.as_str(),
                " enables web_search but settings.searxng_url is not set",
            ),
        );
        proof {
            let p = when(stage.web_search && self.settings.searxng_url is None, who@ + " enables web_search but settings.searxng_url is not set"@);
            lemma_assoc(start, q, p);
            q = q + p;
        }
        let template = stage.prompt_template(index == 0);
        let vars = config::template_vars(template.as_str());
        assert(stage_names(self.stages@).take(index as int).len() == index);
        Self::check_variables(errors, who.as_str(), earlier, &vars);
        proof {
            let p = variable_problems(who@, text::views(earlier@), config::template_vars_spec(stage.template(index == 0), 0));
            lemma_assoc(start, q, p);
            q = q + p;
        }
        assert(q == stage_problem(*self, index as int));
    }

    fn all_stage_names(&self) -> (r: Vec<String>)
        ensures
            text::views(r@) == stage_names(self.stages@),
    {
        let mut names: Vec<String> = Vec::new();
        let mut i: usize = 0;
        while i < self.stages.len()
            invariant
                i <= self.stages@.len(),
                names@.len() == i,
                forall|k: int| 0 <= k < i ==> (#[trigger] names@[k])@ == self.stages@[k].name@,
            decreases self.stages@.len() - i,
        {
            names.push(self.stages[i].name.clone());
            i = i + 1;
        }
        assert(text::views(names@) =~= stage_names(self.stages@));
        names
    }

    fn check_stages(&self, errors: &mut Vec<String>, names: &Vec<String>)
        requires
            text::views(names@) == stage_names(self.stages@),
        ensures
            text::views(final(errors)@) == text::views(old(errors)@) + stage_problems(
                *self,
                self.stages@.len() as int,
            ),
    {
        let ghost start = text::views(errors@);
        let mut earlier: Vec<String> = Vec::new();
        let mut i: usize = 0;
        assert(start + seq![] =~= start);
        assert(text::views(earlier@) =~= stage_names(self.stages@).take(0));
        while i < self.stages.len()
            invariant
                i <= self.stages@.len(),
                text::views(names@) == stage_names(self.stages@),
                text::views(earlier@) == stage_names(self.stages@).take(i as int),
                text::views(errors@) == start + stage_problems(*self, i as int),
            decreases self.stages@.len() - i,
        {
            let ghost so_far = stage_problems(*self, i as int);
            self.check_stage(errors, i, names, &earlier);
            let ghost now = stage_problem(*self, i as int);
            assert(start + so_far + now =~= start + (so_far + now));
            text::add_text(&mut earlier, self.stages[i].name.clone());
            assert(stage_names(self.stages@).take(i + 1) =~= stage_names(self.stages@).take(
                i as int,
            ).push(self.stages@[i as int].name@));
            i = i + 1;
        }
    }

    fn check_listing(
        &self,
        errors: &mut Vec<String>,
        name: &str,
        list: &Vec<String>,
        names: &Vec<String>,
    )
        requires
            text::views(names@) == stage_names(self.stages@),
        ensures
            text::views(final(errors)@) == text::views(old(errors)@) + listing_problems(
                *self,
                name@,
                text::views(list@),
                list@.len() as int,
            ),
    {
        let ghost start = text::views(errors@);
        let ghost all = text::views(list@);
        let who = name_owner("workflow", name);
        let mut seen: Vec<String> = Vec::new();
        let mut k: usize = 0;
        assert(start + seq![] =~= start);
        assert(text::views(seen@) =~= all.take(0));
        while k < list.len()
            invariant
                k <= list@.len(),
                all == text::views(list@),
                who@ == owner("workflow"@, name@),
                text::views(names@) == stage_names(self.stages@),
                text::views(seen@) == all.take(k as int),
                text::views(errors@) == start + listing_problems(*self, name@, all, k as int),
            decreases list@.len() - k,
        {
            let entry = list[k].as_str();
            let unknown = !text::listed(names, entry);
            let again = text::listed(&seen, entry);
            let ghost so_far = listing_problems(*self, name@, all, k as int);
            let first = text::cat4(who.as_str(), " references unknown stage `", entry, "`");
            let second = text::cat4(
                who.as_str(),
                " lists stage `",
                entry,
                "` more than once",
            );
            let ghost a = when(unknown, first@);
            let ghost b = when(again, second@);
            note_if(errors, unknown, first);
            note_if(errors, again, second);
            assert(start + so_far + a + b =~= start + (so_far + a + b));
            assert(all[k as int] == list@[k as int]@);
            text::add_text(&mut seen, list[k].clone());
            assert(all.take(k + 1) =~= all.take(k as int).push(all[k as int]));
            k = k + 1;
        }
    }

    fn check_workflows(&self, errors: &mut Vec<String>, names: &Vec<String>)
        requires
            text::views(names@) == stage_names(self.stages@),
        ensures
            text::views(final(errors)@) == text::views(old(errors)@) + workflow_problems(
                *self,
                self.workflows.entries@.len() as int,
            ),
    {
        let ghost start = text::views(errors@);
        let mut i: usize = 0;
        assert(start + seq![] =~= start);
        while i < self.workflows.entries.len()
            invariant
                i <= self.workflows.entries@.len(),
                text::views(names@) == stage_names(self.stages@),
                text::views(errors@) == start + workflow_problems(*self, i as int),
            decreases self.workflows.entries@.len() - i,
        {
            let row = &self.workflows.entries[i];
            let who = name_owner("workflow", row.0.as_str());
            let ghost so_far = workflow_problems(*self, i as int);
            let empty = row.1.stages.len() == 0;
            let message = text::cat2(who.as_str(), " has no stages");
            let ghost a = when(empty, message@);
            note_if(errors, empty, message);
            self.check_listing(errors, row.0.as_str(), &row.1.stages, names);
            let ghost b = listing_problems(
                *self,
                row.0@,
                text::views(row.1.stages@),
                row.1.stages@.len() as int,
            );
            assert(start + so_far + a + b =~= start + (so_far + a + b));
            i = i + 1;
        }
    }

    /// Check the configuration against every rule. `threshold` is the
    /// auto-compact threshold's text where it lies outside 0 to 1.
    pub fn validate(&self, threshold: Option<&str>) -> (r: Result<(), String>)
        ensures
            ({
                let found = problems(
                    *self,
                    match threshold {
                        Some(t) => Some(t@),
                        None => None,
                    },
                );
                match r {
                    Ok(()) => found.len() == 0,
                    Err(e) => found.len() > 0 && e@ == "invalid configuration:\n  - "@
                        + text::join_spec(found, "\n  - "@),
                }
            }),
    {
        let ghost found = problems(
            *self,
            match threshold {
                Some(t) => Some(t@),
                None => None,
            },
        );
        let mut errors: Vec<String> = Vec::new();
        assert(text::views(errors@) =~= seq![]);
        self.check_providers(&mut errors);
        note_if(
            &mut errors,
            self.stages.len() == 0,
            "no [[stage]] entries defined".to_owned(),
        );
        self.check_hooks(&mut errors);
        self.check_fallbacks(&mut errors);
        match threshold {
            Some(t) => {
                note_if(
                    &mut errors,
                    true,
                    text::cat3(
                        "settings.auto_compact_threshold must be between 0 and 1 (got ",
                        t,
                        ")",
                    ),
                );
            },
            None => {},
        }
        self.check_agents(&mut errors);
        let names = self.all_stage_names();
        self.check_stages(&mut errors, &names);
        self.check_workflows(&mut errors, &names);
        match &self.settings.default_workflow {
            Some(w) => {
                note_if(
                    &mut errors,
                    !self.workflows.contains(w.as_str()),
                    text::cat3(
                        "settings.default_workflow references unknown workflow `",
                        w.as_str(),
                        "`",
                    ),
                );
            },
            None => {},
        }
        assert(text::views(errors@) =~= found);
        assert(errors@.len() == found.len());
        if errors.len() == 0 {
            Ok(())
        } else {
            Err(
                text::cat2(
                    "invalid configuration:\n  - ",
                    text::join(&errors, "\n  - ").as_str(),
                ),
            )
        }
    }
}

} // verus!
