//! Handing control to another stage: the routing tool and its arguments.

use vstd::prelude::*;
use vstd::string::*;

use crate::agent_loop;
use crate::agent_loop::StageOutcome;
use crate::json;
use crate::json::{Json, Number};
use crate::model;
use crate::model::ToolDefinition;
use crate::numbers;
use crate::schema;
use crate::text;

verus! {

/// The advertised name of the routing tool.
pub const REPROMPT_TOOL: &'static str = "reprompt_stage";

/// What the model is told of the routing tool.
pub const REPROMPT_TEXT: &'static str = "Hand control to another stage because more work is needed. The pipeline resumes from that stage and continues in order (so a stage that normally runs after the target will run again). Calling this ends your turn immediately. Only call it when further changes are genuinely required — otherwise reply normally with your final answer.";

/// The parameters of the routing tool.
pub open spec fn reprompt_schema(targets: Seq<Seq<char>>) -> json::JsonView {
    json::JsonView::Object(
        seq![
            ("type"@, json::JsonView::Text("object"@)),
            (
                "properties"@,
                json::JsonView::Object(
                    seq![
                        (
                            "stage"@,
                            json::JsonView::Object(
                                seq![
                                    ("type"@, json::JsonView::Text("string"@)),
                                    ("enum"@, schema::text_array(targets)),
                                    (
                                        "description"@,
                                        json::JsonView::Text("The stage to hand control to"@),
                                    ),
                                ],
                            ),
                        ),
                        (
                            "instructions"@,
                            json::JsonView::Object(
                                seq![
                                    ("type"@, json::JsonView::Text("string"@)),
                                    (
                                        "description"@,
                                        json::JsonView::Text(
                                            "Specific, actionable instructions for that stage"@,
                                        ),
                                    ),
                                ],
                            ),
                        ),
                    ],
                ),
            ),
            ("required"@, schema::text_array(seq!["stage"@, "instructions"@])),
        ],
    )
}

/// The routing tool that stages with reprompt targets are offered.
pub open spec fn reprompt_definition(targets: Seq<Seq<char>>) -> model::DefinitionView {
    model::DefinitionView {
        name: REPROMPT_TOOL@,
        description: REPROMPT_TEXT@,
        parameters: reprompt_schema(targets),
    }
}

/// The routing tool that stages with reprompt targets are offered.
pub fn reprompt_tool(targets: &Vec<String>) -> (r: ToolDefinition)
    ensures
        r@ == reprompt_definition(text::views(targets@)),
{
    let stage = schema::triple(
        "type",
        schema::text_value("string"),
        "enum",
        schema::texts(targets),
        "description",
        schema::text_value("The stage to hand control to"),
    );
    let instructions = schema::pair(
        "type",
        schema::text_value("string"),
        "description",
        schema::text_value("Specific, actionable instructions for that stage"),
    );
    let properties = schema::pair("stage", stage, "instructions", instructions);
    let mut names: Vec<String> = Vec::new();
    names.push("stage".to_owned());
    names.push("instructions".to_owned());
    assert(text::views(names@) =~= seq!["stage"@, "instructions"@]);
    let required = schema::texts(&names);
    ToolDefinition {
        name: REPROMPT_TOOL.to_owned(),
        description: REPROMPT_TEXT.to_owned(),
        parameters: schema::triple(
            "type",
            schema::text_value("object"),
            "properties",
            properties,
            "required",
            required,
        ),
    }
}

// ---------------------------------------------------------------------------
// Arguments
// ---------------------------------------------------------------------------

/// What a value is, in the words of a type error.
pub open spec fn kind_text(v: json::JsonView) -> Seq<char> {
    match v {
        json::JsonView::Null => "null"@,
        json::JsonView::Bool(true) => "boolean `true`"@,
        json::JsonView::Bool(false) => "boolean `false`"@,
        json::JsonView::Number(json::NumberView::Unsigned(n)) => "integer `"@
            + numbers::decimal_spec(n as nat) + "`"@,
        json::JsonView::Number(json::NumberView::Negative(n)) => "integer `"@ + (if n < 0 {
            "-"@ + numbers::decimal_spec((-n) as nat)
        } else {
            numbers::decimal_spec(n as nat)
        }) + "`"@,
        json::JsonView::Number(json::NumberView::Decimal(s)) => "floating point `"@ + s + "`"@,
        json::JsonView::Text(s) => "string "@ + text::quoted_text(s),
        json::JsonView::Array(_) => "sequence"@,
        json::JsonView::Object(_) => "map"@,
    }
}

fn kind(v: &Json) -> (r: String)
    ensures
        r@ == kind_text(v@),
{
    match v {
        Json::Null => "null".to_owned(),
        Json::Bool(true) => "boolean `true`".to_owned(),
        Json::Bool(false) => "boolean `false`".to_owned(),
        Json::Number(Number::Unsigned(n)) => text::cat3(
            "integer `",
            numbers::decimal(*n).as_str(),
            "`",
        ),
        Json::Number(Number::Negative(n)) => {
            let digits = if *n < 0 {
                let magnitude: u64 = (-(*n as i128)) as u64;
                text::cat2("-", numbers::decimal(magnitude).as_str())
            } else {
                numbers::decimal(*n as u64)
            };
            text::cat3("integer `", digits.as_str(), "`")
        },
        Json::Number(Number::Decimal(s)) => text::cat3("floating point `", s.as_str(), "`"),
        Json::Text(s) => text::cat2("string ", text::quoted(s.as_str()).as_str()),
        Json::Array(_) => "sequence".to_owned(),
        Json::Object(_) => "map".to_owned(),
    }
}

/// The words of a type error.
pub open spec fn type_error(v: json::JsonView, expected: Seq<char>) -> Seq<char> {
    "invalid type: "@ + kind_text(v) + ", expected "@ + expected
}

/// The first of the two fields, in the object's order, that is no text.
pub open spec fn mistyped(fields: Seq<(Seq<char>, json::JsonView)>) -> Option<json::JsonView>
    decreases fields.len(),
{
    if fields.len() == 0 {
        None
    } else {
        match mistyped(fields.drop_last()) {
            Some(v) => Some(v),
            None => {
                let (name, v) = fields.last();
                if (name == "stage"@ || name == "instructions"@) && !(v is Text) {
                    Some(v)
                } else {
                    None
                }
            },
        }
    }
}

/// The stage and the instructions that the arguments name, or the words for
/// what is wrong with their form. They are an object with both as texts, or
/// an array of the two.
pub open spec fn reprompt_parts(arguments: json::JsonView) -> Result<
    (Seq<char>, Seq<char>),
    Seq<char>,
> {
    match arguments {
        json::JsonView::Object(fields) => match mistyped(fields) {
            Some(v) => Err(type_error(v, "a string"@)),
            None => match (
                arguments.text_field("stage"@),
                arguments.text_field("instructions"@),
            ) {
                (None, _) => Err("missing field `stage`"@),
                (_, None) => Err("missing field `instructions`"@),
                (Some(stage), Some(instructions)) => Ok((stage, instructions)),
            },
        },
        json::JsonView::Array(items) => if items.len() == 0 {
            Err("invalid length 0, expected struct RepromptArgs with 2 elements"@)
        } else if !(items[0] is Text) {
            Err(type_error(items[0], "a string"@))
        } else if items.len() == 1 {
            Err("invalid length 1, expected struct RepromptArgs with 2 elements"@)
        } else if !(items[1] is Text) {
            Err(type_error(items[1], "a string"@))
        } else if items.len() > 2 {
            Err(
                "invalid length "@ + numbers::decimal_spec(items.len())
                    + ", expected fewer elements in array"@,
            )
        } else {
            Ok((items[0]->Text_0, items[1]->Text_0))
        },
        _ => Err(type_error(arguments, "struct RepromptArgs"@)),
    }
}

/// The outcome that the arguments ask for, or the problem with them.
pub open spec fn reprompt_spec(arguments: json::JsonView, targets: Seq<Seq<char>>) -> Result<
    agent_loop::OutcomeView,
    Seq<char>,
> {
    match reprompt_parts(arguments) {
        Err(e) => Err("reprompt_stage arguments were not valid JSON: "@ + e),
        Ok((stage, instructions)) => if !targets.contains(stage) {
            Err(
                "cannot reprompt stage `"@ + stage + "` — allowed targets: "@ + text::join_spec(
                    targets,
                    ", "@,
                ),
            )
        } else if text::trim_spec(instructions).len() == 0 {
            Err("`instructions` must not be empty"@)
        } else {
            Ok(agent_loop::OutcomeView::Reprompt { target: stage, instructions })
        },
    }
}

fn wrong_type(v: &Json, expected: &str) -> (r: String)
    ensures
        r@ == type_error(v@, expected@),
{
    text::cat4("invalid type: ", kind(v).as_str(), ", expected ", expected)
}

/// The views of an object's fields.
spec fn fields_view(fields: Seq<(String, Json)>) -> Seq<(Seq<char>, json::JsonView)> {
    Seq::new(fields.len(), |i: int| (fields[i].0@, fields[i].1@))
}

proof fn lemma_mistyped_stays(fields: Seq<(Seq<char>, json::JsonView)>, n: int)
    requires
        0 <= n <= fields.len(),
        mistyped(fields.take(n)) is Some,
    ensures
        mistyped(fields) == mistyped(fields.take(n)),
    decreases fields.len() - n,
{
    if n == fields.len() {
        assert(fields.take(n) =~= fields);
    } else {
        assert(fields.take(n + 1).drop_last() =~= fields.take(n));
        lemma_mistyped_stays(fields, n + 1);
    }
}

fn find_mistyped(fields: &Vec<(String, Json)>) -> (r: Option<usize>)
    ensures
        match r {
            Some(i) => i < fields@.len() && mistyped(fields_view(fields@)) == Some(
                fields@[i as int].1@,
            ),
            None => mistyped(fields_view(fields@)) is None,
        },
{
    let ghost all = fields_view(fields@);
    let mut i: usize = 0;
    while i < fields.len()
        invariant
            i <= fields@.len(),
            all == fields_view(fields@),
            mistyped(all.take(i as int)) is None,
        decreases fields@.len() - i,
    {
        assert(all.take(i + 1).drop_last() =~= all.take(i as int));
        assert(all.take(i + 1).last() == all[i as int]);
        let name = fields[i].0.as_str();
        let is_text = match &fields[i].1 {
            Json::Text(_) => true,
            _ => false,
        };
        if (text::same(name, "stage") || text::same(name, "instructions")) && !is_text {
            proof {
                lemma_mistyped_stays(all, i + 1);
            }
            return Some(i);
        }
        i = i + 1;
    }
    assert(all.take(fields@.len() as int) =~= all);
    None
}

fn parts(arguments: &Json) -> (r: Result<(String, String), String>)
    ensures
        match r {
            Ok((stage, instructions)) => reprompt_parts(arguments@) == Ok::<
                (Seq<char>, Seq<char>),
                Seq<char>,
            >((stage@, instructions@)),
            Err(e) => reprompt_parts(arguments@) == Err::<(Seq<char>, Seq<char>), Seq<char>>(e@),
        },
{
    match arguments {
        Json::Object(fields) => {
            assert(arguments@->Object_0 =~= fields_view(fields@));
            match find_mistyped(fields) {
                Some(i) => {
                    return Err(wrong_type(&fields[i].1, "a string"));
                },
                None => {},
            }
            let stage = match arguments.text_field("stage") {
                Some(s) => s.to_owned(),
                None => {
                    return Err("missing field `stage`".to_owned());
                },
            };
            match arguments.text_field("instructions") {
                Some(s) => Ok((stage, s.to_owned())),
                None => Err("missing field `instructions`".to_owned()),
            }
        },
        Json::Array(items) => {
            let ghost all = arguments@->Array_0;
            assert(all.len() == items@.len());
            assert(forall|i: int| 0 <= i < items@.len() ==> all[i] == #[trigger] items@[i]@);
            if items.len() == 0 {
                return Err(
                    "invalid length 0, expected struct RepromptArgs with 2 elements".to_owned(),
                );
            }
            let stage = match &items[0] {
                Json::Text(s) => s.clone(),
                _ => {
                    return Err(wrong_type(&items[0], "a string"));
                },
            };
            if items.len() == 1 {
                return Err(
                    "invalid length 1, expected struct RepromptArgs with 2 elements".to_owned(),
                );
            }
            let instructions = match &items[1] {
                Json::Text(s) => s.clone(),
                _ => {
                    return Err(wrong_type(&items[1], "a string"));
                },
            };
            if items.len() > 2 {
                return Err(
                    text::cat3(
                        "invalid length ",
                        numbers::decimal_len(items.len()).as_str(),
                        ", expected fewer elements in array",
                    ),
                );
            }
            Ok((stage, instructions))
        },
        _ => Err(wrong_type(arguments, "struct RepromptArgs")),
    }
}

/// Read the arguments of the routing tool. The stage has to be one of the
/// targets, and the instructions must say something.
pub fn parse_reprompt(arguments: &Json, targets: &Vec<String>) -> (r: Result<StageOutcome, String>)
    ensures
        match r {
            Ok(outcome) => reprompt_spec(arguments@, text::views(targets@)) == Ok::<
                agent_loop::OutcomeView,
                Seq<char>,
            >(outcome@),
            Err(e) => reprompt_spec(arguments@, text::views(targets@)) == Err::<
                agent_loop::OutcomeView,
                Seq<char>,
            >(e@),
        },
{
    let (stage, instructions) = match parts(arguments) {
        Ok(p) => p,
        Err(e) => {
            return Err(
                text::cat2("reprompt_stage arguments were not valid JSON: ", e.as_str()),
            );
        },
    };
    if !text::listed(targets, stage.as_str()) {
        return Err(
            text::cat4(
                "cannot reprompt stage `",
                stage.as_str(),
                "` — allowed targets: ",
                text::join(targets, ", ").as_str(),
            ),
        );
    }
    let trimmed = text::trim(instructions.as_str());
    if trimmed.as_str().is_empty() {
        return Err("`instructions` must not be empty".to_owned());
    }
    Ok(StageOutcome::Reprompt { target: stage, instructions })
}

/// Control is only ever handed to one of the targets, and with instructions.
pub proof fn law_reprompts_go_to_targets(arguments: json::JsonView, targets: Seq<Seq<char>>)
    requires
        reprompt_spec(arguments, targets) is Ok,
    ensures
        reprompt_spec(arguments, targets)->Ok_0 matches agent_loop::OutcomeView::Reprompt {
            target,
            instructions,
        } && targets.contains(target) && text::trim_spec(instructions).len() > 0,
{
}

} // verus!
