//! What a stage or an agent needs before its loop runs: the endpoints that
//! serve it, its first messages, and the options of the loop.

use vstd::prelude::*;

use crate::chain;
use crate::client::ModelTarget;
use crate::config::{Agent, Config, DataBoundary, Model, Provider, ProviderAdapterKind, Stage};
use crate::loop_rules::AgentLoopOptions;
use crate::pipeline::PipelineContext;
use crate::template;
use crate::template::TemplateError;
use crate::text;

verus! {

// ---------------------------------------------------------------------------
// Endpoints
// ---------------------------------------------------------------------------

/// The name of a wire protocol.
pub open spec fn adapter_name_spec(kind: ProviderAdapterKind) -> Seq<char> {
    match kind {
        ProviderAdapterKind::OpenAiChatCompletions => "openai_chat_completions"@,
        ProviderAdapterKind::AnthropicMessages => "anthropic_messages"@,
    }
}

/// The name of a wire protocol.
pub fn adapter_name(kind: ProviderAdapterKind) -> (r: &'static str)
    ensures
        r@ == adapter_name_spec(kind),
{
    match kind {
        ProviderAdapterKind::OpenAiChatCompletions => "openai_chat_completions",
        ProviderAdapterKind::AnthropicMessages => "anthropic_messages",
    }
}

/// The allowance of a request: the owner's own, else the model's.
pub open spec fn own_or(own: Option<u32>, other: Option<u32>) -> Option<u32> {
    match own {
        Some(n) => Some(n),
        None => other,
    }
}

/// Whether an endpoint is that of a configured model.
pub open spec fn serves(
    t: ModelTarget,
    name: Seq<char>,
    m: Model,
    p: Provider,
    max_tokens: Option<u32>,
    priced: bool,
) -> bool {
    &&& t.label@ == name
    &&& t.model@ == m.model@
    &&& t.adapter@ == adapter_name_spec(p.adapter)
    &&& t.external == (p.data_boundary == DataBoundary::External)
    &&& t.priced == priced
    &&& t.stream == p.stream
    &&& t.max_tokens == own_or(max_tokens, m.max_tokens)
}

/// Whether endpoints are those of the models named, in order.
pub open spec fn serve_chain(
    targets: Seq<ModelTarget>,
    names: Seq<Seq<char>>,
    config: Config,
    max_tokens: Option<u32>,
    priced: Seq<Seq<char>>,
) -> bool {
    &&& targets.len() == names.len()
    &&& forall|i: int|
        0 <= i < names.len() ==> config.models.has_name(#[trigger] names[i])
            && config.providers.has_name(config.models.at(names[i]).provider@) && serves(
            targets[i],
            names[i],
            config.models.at(names[i]),
            config.providers.at(config.models.at(names[i]).provider@),
            max_tokens,
            priced.contains(names[i]),
        )
}

/// The endpoints for a model: the model itself, then those that it falls back
/// to. `priced` names the models whose prices are known.
pub fn build_targets(
    config: &Config,
    model_name: &str,
    max_tokens: Option<u32>,
    priced: &Vec<String>,
) -> (r: Result<Vec<ModelTarget>, String>)
    ensures
        ({
            let expected = chain::chain_spec(*config, seq![model_name@], seq![]);
            match r {
                Ok(targets) => expected is Ok && serve_chain(
                    targets@,
                    expected->Ok_0,
                    *config,
                    max_tokens,
                    text::views(priced@),
                ),
                Err(words) => expected is Err && words@ == chain::chain_fault_text(
                    expected->Err_0,
                ),
            }
        }),
{
    let names = match chain::fallback_chain(config, model_name) {
        Ok(names) => names,
        Err(e) => {
            return Err(e.message());
        },
    };
    let ghost all = text::views(names@);
    proof {
        chain::lemma_chain_is_known(*config, seq![model_name@], seq![]);
        let expected = chain::chain_spec(*config, seq![model_name@], seq![]);
        assert(expected->Ok_0 == all);
        assert forall|k: int| 0 <= k < all.len() implies chain::known(
            *config,
            #[trigger] all[k],
        ) by {
            assert(chain::known(*config, expected->Ok_0[k]));
        }
    }
    let mut targets: Vec<ModelTarget> = Vec::new();
    let mut i: usize = 0;
    while i < names.len()
        invariant
            i <= names@.len(),
            all == text::views(names@),
            targets@.len() == i,
            forall|k: int|
                0 <= k < all.len() ==> chain::known(*config, #[trigger] all[k]),
            forall|k: int|
                0 <= k < i ==> serves(
                    #[trigger] targets@[k],
                    all[k],
                    config.models.at(all[k]),
                    config.providers.at(config.models.at(all[k]).provider@),
                    max_tokens,
                    text::views(priced@).contains(all[k]),
                ),
        decreases names@.len() - i,
    {
        assert(all[i as int] == names@[i as int]@);
        assert(chain::known(*config, all[i as int]));
        let name = &names[i];
        match config.models.get(name.as_str()) {
            Some(m) => match config.providers.get(m.provider.as_str()) {
                Some(p) => {
                    let external = match p.data_boundary {
                        DataBoundary::External => true,
                        DataBoundary::Local => false,
                    };
                    targets.push(
                        ModelTarget {
                            label: name.clone(),
                            model: m.model.clone(),
                            adapter: adapter_name(p.adapter).to_owned(),
                            external,
                            priced: text::listed(priced, name.as_str()),
                            stream: p.stream,
                            max_tokens: match max_tokens {
                                Some(n) => Some(n),
                                None => m.max_tokens,
                            },
                        },
                    );
                },
                None => {
                    assert(false);
                },
            },
            None => {
                assert(false);
            },
        }
        i = i + 1;
    }
    assert forall|k: int| 0 <= k < all.len() implies config.models.has_name(#[trigger] all[k])
        && config.providers.has_name(config.models.at(all[k]).provider@) && serves(
        targets@[k],
        all[k],
        config.models.at(all[k]),
        config.providers.at(config.models.at(all[k]).provider@),
        max_tokens,
        text::views(priced@).contains(all[k]),
    ) by {
        assert(chain::known(*config, all[k]));
        assert(serves(
            targets@[k],
            all[k],
            config.models.at(all[k]),
            config.providers.at(config.models.at(all[k]).provider@),
            max_tokens,
            text::views(priced@).contains(all[k]),
        ));
    }
    Ok(targets)
}

// ---------------------------------------------------------------------------
// Loops
// ---------------------------------------------------------------------------

/// The round-trips that an owner may make.
pub open spec fn turns_allowed(own: Option<u32>, config: Config) -> u32 {
    match own {
        Some(n) => n,
        None => config.settings.default_max_turns,
    }
}

/// The options of a stage's loop.
pub fn stage_options<'a>(
    config: &'a Config,
    stage: &'a Stage,
    system: Option<&'a str>,
    reprompt_targets: &'a Vec<String>,
) -> (r: AgentLoopOptions<'a>)
    ensures
        r.owner_kind@ == "stage"@,
        r.owner@ == stage.name@,
        r.model_name@ == stage.model@,
        r.system == system,
        r.max_turns == turns_allowed(stage.max_turns, *config),
        r.depth == 0,
        r.require_approval == stage.require_approval,
        r.approval_effects == stage.approval_effects,
        r.auto_approve == stage.auto_approve,
        r.reprompt_targets == reprompt_targets,
        r.terminate_streamed_response,
        !r.tool_errors_as_results,
{
    AgentLoopOptions {
        owner_kind: "stage",
        owner: stage.name.as_str(),
        model_name: stage.model.as_str(),
        system,
        max_turns: match stage.max_turns {
            Some(n) => n,
            None => config.settings.default_max_turns,
        },
        depth: 0,
        require_approval: stage.require_approval,
        approval_effects: &stage.approval_effects,
        auto_approve: &stage.auto_approve,
        reprompt_targets,
        terminate_streamed_response: true,
        tool_errors_as_results: false,
    }
}

/// The options of an agent's loop, `depth` delegations down. `nobody` is an
/// empty list: an agent hands control to no stage.
pub fn agent_options<'a>(
    config: &'a Config,
    name: &'a str,
    agent: &'a Agent,
    system: Option<&'a str>,
    depth: u32,
    nobody: &'a Vec<String>,
) -> (r: AgentLoopOptions<'a>)
    requires
        nobody@.len() == 0,
    ensures
        r.owner_kind@ == "agent"@,
        r.owner@ == name@,
        r.model_name@ == agent.model@,
        r.system == system,
        r.max_turns == turns_allowed(agent.max_turns, *config),
        r.depth == depth,
        r.require_approval == agent.require_approval,
        r.approval_effects == agent.approval_effects,
        r.auto_approve == agent.auto_approve,
        r.reprompt_targets@.len() == 0,
        !r.terminate_streamed_response,
        !r.tool_errors_as_results,
{
    AgentLoopOptions {
        owner_kind: "agent",
        owner: name,
        model_name: agent.model.as_str(),
        system,
        max_turns: match agent.max_turns {
            Some(n) => n,
            None => config.settings.default_max_turns,
        },
        depth,
        require_approval: agent.require_approval,
        approval_effects: &agent.approval_effects,
        auto_approve: &agent.auto_approve,
        reprompt_targets: nobody,
        terminate_streamed_response: false,
        tool_errors_as_results: false,
    }
}

/// What a stage is asked: its template, filled with the task and the outputs of
/// the stages before it.
pub fn stage_prompt(stage: &Stage, is_first: bool, context: &PipelineContext) -> (r: Result<
    String,
    TemplateError,
>)
    ensures
        ({
            let expected = template::render_spec(
                stage.template(is_first),
                context.input@,
                match context.previous {
                    Some(p) => Some(p@),
                    None => None,
                },
                context.outputs,
                0,
            );
            match r {
                Ok(s) => expected == Ok::<Seq<char>, template::TemplateFault>(s@),
                Err(e) => expected == Err::<Seq<char>, template::TemplateFault>(e@),
            }
        }),
{
    let asked = stage.prompt_template(is_first);
    let previous: Option<&str> = match &context.previous {
        Some(p) => Some(p.as_str()),
        None => None,
    };
    template::render_template(
        asked.as_str(),
        context.input.as_str(),
        previous,
        &context.outputs,
    )
}

} // verus!
