//! Prompt templates: `{{input}}`, `{{previous}}` and `{{stage.<name>}}`.

use vstd::prelude::*;
use vstd::string::*;

use crate::find;
use crate::table::Table;
use crate::text;

verus! {

/// Why a template could not be rendered.
pub enum TemplateError {
    /// `{{previous}}` where no stage has run.
    PreviousInFirst,
    /// A variable that is none of the known ones.
    Unknown(String),
    /// A stage that has recorded no output.
    NoOutput(String),
}

/// What a template error stands for.
pub enum TemplateFault {
    PreviousInFirst,
    Unknown(Seq<char>),
    NoOutput(Seq<char>),
}

impl View for TemplateError {
    type V = TemplateFault;

    open spec fn view(&self) -> TemplateFault {
        match self {
            TemplateError::PreviousInFirst => TemplateFault::PreviousInFirst,
            TemplateError::Unknown(s) => TemplateFault::Unknown(s@),
            TemplateError::NoOutput(s) => TemplateFault::NoOutput(s@),
        }
    }
}

/// The words for a template error.
pub open spec fn fault_text(fault: TemplateFault) -> Seq<char> {
    match fault {
        TemplateFault::PreviousInFirst => "{{previous}} used in the first stage"@,
        TemplateFault::Unknown(name) => "unknown template variable {{"@ + name + "}}"@,
        TemplateFault::NoOutput(name) => "no output recorded for stage `"@ + name + "`"@,
    }
}

impl TemplateError {
    /// The words for the error.
    pub fn message(&self) -> (out: String)
        ensures
            out@ == fault_text(self@),
    {
        match self {
            TemplateError::PreviousInFirst => "{{previous}} used in the first stage".to_owned(),
            TemplateError::Unknown(name) => {
                let mut out = "unknown template variable {{".to_owned();
                out.append(name.as_str());
                out.append("}}");
                out
            },
            TemplateError::NoOutput(name) => {
                let mut out = "no output recorded for stage `".to_owned();
                out.append(name.as_str());
                out.append("`");
                out
            },
        }
    }
}

/// The value of one variable.
pub open spec fn value_of(
    name: Seq<char>,
    input: Seq<char>,
    previous: Option<Seq<char>>,
    outputs: Table<String>,
) -> Result<Seq<char>, TemplateFault> {
    if name == "input"@ {
        Ok(input)
    } else if name == "previous"@ {
        match previous {
            Some(p) => Ok(p),
            None => Err(TemplateFault::PreviousInFirst),
        }
    } else {
        match find::strip_prefix_spec(name, "stage."@) {
            None => Err(TemplateFault::Unknown(name)),
            Some(stage) => if outputs.has_name(stage) {
                Ok(outputs.at(stage)@)
            } else {
                Err(TemplateFault::NoOutput(stage))
            },
        }
    }
}

/// The template from `from` on with its variables replaced. A variable
/// stands between `{{` and the next `}}`; `{{` with no `}}` after it is
/// plain text.
pub open spec fn render_spec(
    template: Seq<char>,
    input: Seq<char>,
    previous: Option<Seq<char>>,
    outputs: Table<String>,
    from: int,
) -> Result<Seq<char>, TemplateFault>
    decreases template.len() - from,
{
    proof {
        reveal_strlit("{{");
        reveal_strlit("}}");
        if 0 <= from {
            find::lemma_find(template, "{{"@, from);
            let i = find::find_spec(template, "{{"@, from);
            if i is Some {
                find::lemma_find(template, "}}"@, i->0 + 2);
            }
        }
    }
    if from < 0 || from > template.len() {
        Ok(seq![])
    } else {
        match find::find_spec(template, "{{"@, from) {
            None => Ok(template.skip(from)),
            Some(i) => {
                let head = template.subrange(from, i);
                match find::find_spec(template, "}}"@, i + 2) {
                    None => match render_spec(template, input, previous, outputs, i + 2) {
                        Ok(rest) => Ok(head + "{{"@ + rest),
                        Err(e) => Err(e),
                    },
                    Some(j) => {
                        let name = text::trim_spec(template.subrange(i + 2, j));
                        match value_of(name, input, previous, outputs) {
                            Err(e) => Err(e),
                            Ok(value) => match render_spec(
                                template,
                                input,
                                previous,
                                outputs,
                                j + 2,
                            ) {
                                Ok(rest) => Ok(head + value + rest),
                                Err(e) => Err(e),
                            },
                        }
                    },
                }
            },
        }
    }
}

/// `done` followed by what the rest renders to.
pub open spec fn prepend(
    done: Seq<char>,
    rest: Result<Seq<char>, TemplateFault>,
) -> Result<Seq<char>, TemplateFault> {
    match rest {
        Ok(r) => Ok(done + r),
        Err(e) => Err(e),
    }
}

fn lookup(
    name: &str,
    input: &str,
    previous: Option<&str>,
    outputs: &Table<String>,
) -> (r: Result<String, TemplateError>)
    ensures
        ({
            let expected = value_of(
                name@,
                input@,
                match previous {
                    Some(p) => Some(p@),
                    None => None,
                },
                *outputs,
            );
            match r {
                Ok(s) => expected == Ok::<Seq<char>, TemplateFault>(s@),
                Err(e) => expected == Err::<Seq<char>, TemplateFault>(e@),
            }
        }),
{
    if text::same(name, "input") {
        return Ok(input.to_owned());
    }
    if text::same(name, "previous") {
        return match previous {
            Some(p) => Ok(p.to_owned()),
            None => Err(TemplateError::PreviousInFirst),
        };
    }
    match find::strip_prefix(name, "stage.") {
        None => Err(TemplateError::Unknown(name.to_owned())),
        Some(stage) => match outputs.get(stage.as_str()) {
            Some(value) => Ok(value.clone()),
            None => Err(TemplateError::NoOutput(stage)),
        },
    }
}

/// Render `{{input}}`, `{{previous}}`, and `{{stage.<name>}}` placeholders.
pub fn render_template(
    template: &str,
    input: &str,
    previous: Option<&str>,
    stage_outputs: &Table<String>,
) -> (r: Result<String, TemplateError>)
    ensures
        ({
            let expected = render_spec(
                template@,
                input@,
                match previous {
                    Some(p) => Some(p@),
                    None => None,
                },
                *stage_outputs,
                0,
            );
            match r {
                Ok(s) => expected == Ok::<Seq<char>, TemplateFault>(s@),
                Err(e) => expected == Err::<Seq<char>, TemplateFault>(e@),
            }
        }),
{
    let v = text::chars(template);
    let opening = text::chars("{{");
    let closing = text::chars("}}");
    proof {
        reveal_strlit("{{");
        reveal_strlit("}}");
    }
    let ghost prev = match previous {
        Some(p) => Some(p@),
        None => None,
    };
    let ghost whole = render_spec(v@, input@, prev, *stage_outputs, 0);
    let mut out = String::new();
    let mut from: usize = 0;
    assert(prepend(out@, whole) == whole) by {
        if whole is Ok {
            assert(out@ + whole->Ok_0 =~= whole->Ok_0);
        }
    }
    loop
        invariant
            v@ == template@,
            opening@ == "{{"@,
            closing@ == "}}"@,
            opening@.len() == 2,
            closing@.len() == 2,
            from <= v@.len(),
            prev == (match previous {
                Some(p) => Some(p@),
                None => None,
            }),
            whole == render_spec(v@, input@, prev, *stage_outputs, 0),
            whole == prepend(out@, render_spec(v@, input@, prev, *stage_outputs, from as int)),
        decreases v@.len() - from,
    {
        match find::find_in(v.as_slice(), opening.as_slice(), from) {
            None => {
                let rest = text::text_range(v.as_slice(), from, v.len());
                assert(rest@ =~= v@.skip(from as int));
                out.append(rest.as_str());
                return Ok(out);
            },
            Some(i) => {
                let head = text::text_range(v.as_slice(), from, i);
                let ghost before = out@;
                out.append(head.as_str());
                match find::find_in(v.as_slice(), closing.as_slice(), i + 2) {
                    None => {
                        out.append("{{");
                        let ghost rest = render_spec(v@, input@, prev, *stage_outputs, i + 2);
                        assert(rest is Ok ==> before + (head@ + "{{"@ + rest->Ok_0) =~= out@
                            + rest->Ok_0);
                        from = i + 2;
                    },
                    Some(j) => {
                        let inner = text::text_range(v.as_slice(), i + 2, j);
                        let name = text::trim(inner.as_str());
                        match lookup(name.as_str(), input, previous, stage_outputs) {
                            Err(e) => {
                                return Err(e);
                            },
                            Ok(value) => {
                                out.append(value.as_str());
                                let ghost rest = render_spec(
                                    v@,
                                    input@,
                                    prev,
                                    *stage_outputs,
                                    j + 2,
                                );
                                assert(rest is Ok ==> before + (head@ + value@ + rest->Ok_0)
                                    =~= out@ + rest->Ok_0);
                                from = j + 2;
                            },
                        }
                    },
                }
            },
        }
    }
}

/// A template without `{{` renders to itself.
pub proof fn law_plain_text_is_kept(
    template: Seq<char>,
    input: Seq<char>,
    previous: Option<Seq<char>>,
    outputs: Table<String>,
)
    requires
        !find::contains_spec(template, "{{"@),
    ensures
        render_spec(template, input, previous, outputs, 0) == Ok::<Seq<char>, TemplateFault>(
            template,
        ),
{
    assert(template.skip(0) =~= template);
}

} // verus!
