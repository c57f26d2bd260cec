//! What a provider is asked for, before it is put in a provider's own form,
//! and the rules that providers share.

use vstd::prelude::*;
use vstd::string::*;

use crate::find;
use crate::json;
use crate::json::{Json, Number};
use crate::model;
use crate::model::{AdapterError, Message, ToolDefinition};
use crate::numbers;
use crate::text;

verus! {

/// Sampling parameters; numbers with a fraction are held as they are
/// written.
pub struct SamplingParams {
    pub temperature: Option<String>,
    pub top_p: Option<String>,
    pub max_tokens: Option<u32>,
}

/// Which tools the model has to use.
pub enum ToolChoice {
    /// Some tool.
    Any,
    /// The tool of this name.
    Tool(String),
}

/// What a tool choice stands for.
pub enum ChoiceView {
    Any,
    Tool(Seq<char>),
}

impl View for ToolChoice {
    type V = ChoiceView;

    open spec fn view(&self) -> ChoiceView {
        match self {
            ToolChoice::Any => ChoiceView::Any,
            ToolChoice::Tool(name) => ChoiceView::Tool(name@),
        }
    }
}

/// Demands on a reply.
pub struct RequestConstraints {
    pub tool_choice: Option<ToolChoice>,
    pub output_schema: Option<Json>,
}

/// A request to a provider.
pub struct ModelRequest<'a> {
    /// Model id as the provider knows it.
    pub model: &'a str,
    pub messages: &'a Vec<Message>,
    pub tools: &'a Vec<ToolDefinition>,
    pub sampling: &'a SamplingParams,
    pub constraints: &'a RequestConstraints,
    pub stream: bool,
}

/// What a request stands for.
pub struct RequestView {
    pub model: Seq<char>,
    pub messages: Seq<model::MessageView>,
    pub tools: Seq<model::DefinitionView>,
    pub temperature: Option<Seq<char>>,
    pub top_p: Option<Seq<char>>,
    pub max_tokens: Option<u32>,
    pub tool_choice: Option<ChoiceView>,
    pub output_schema: Option<json::JsonView>,
    pub stream: bool,
}

impl<'a> View for ModelRequest<'a> {
    type V = RequestView;

    open spec fn view(&self) -> RequestView {
        RequestView {
            model: self.model@,
            messages: model::messages_view(self.messages@),
            tools: Seq::new(self.tools@.len(), |i: int| self.tools@[i]@),
            temperature: model::option_text(self.sampling.temperature),
            top_p: model::option_text(self.sampling.top_p),
            max_tokens: self.sampling.max_tokens,
            tool_choice: match self.constraints.tool_choice {
                Some(c) => Some(c@),
                None => None,
            },
            output_schema: model::option_json(self.constraints.output_schema),
            stream: self.stream,
        }
    }
}

/// A number with a fraction, as it is written.
pub open spec fn decimal_value(s: Option<Seq<char>>) -> Option<json::JsonView> {
    match s {
        Some(s) => Some(json::JsonView::Number(json::NumberView::Decimal(s))),
        None => None,
    }
}

/// A number with a fraction, as it is written.
pub fn decimal_json(s: &Option<String>) -> (r: Option<Json>)
    ensures
        model::option_json(r) == decimal_value(model::option_text(*s)),
{
    match s {
        Some(s) => Some(Json::Number(Number::Decimal(s.clone()))),
        None => None,
    }
}

/// A provider's address without the slashes behind it.
pub open spec fn base_spec(url: Seq<char>) -> Seq<char>
    decreases url.len(),
{
    if url.len() > 0 && url.last() == '/' {
        base_spec(url.drop_last())
    } else {
        url
    }
}

/// A provider's address without the slashes behind it.
pub fn base_url(url: &str) -> (r: String)
    ensures
        r@ == base_spec(url@),
{
    let v = text::chars(url);
    let mut n: usize = v.len();
    assert(url@.take(n as int) =~= url@);
    while n > 0 && v[n - 1] == '/'
        invariant
            n <= v@.len(),
            v@ == url@,
            base_spec(url@) == base_spec(url@.take(n as int)),
        decreases n,
    {
        assert(url@.take(n as int).drop_last() =~= url@.take(n - 1));
        n = n - 1;
    }
    let r = text::text_range(v.as_slice(), 0, n);
    assert(r@ =~= url@.take(n as int));
    r
}

/// Whether a status is worth another attempt: a server error, too many
/// requests, or a timeout.
pub fn retryable_status(status: u16) -> (r: bool)
    ensures
        r == (500 <= status <= 599 || status == 429 || status == 408),
{
    (500 <= status && status <= 599) || status == 429 || status == 408
}

/// Seconds that a server may ask to be waited at most.
pub const MAX_RETRY_AFTER_SECS: u64 = 30;

/// The delay that a server asks for, in seconds.
pub open spec fn retry_after_spec(value: Seq<char>) -> Option<nat> {
    match numbers::parse_spec(text::trim_spec(value), u64::MAX as nat) {
        Some(n) => Some(
            if n <= MAX_RETRY_AFTER_SECS {
                n
            } else {
                MAX_RETRY_AFTER_SECS as nat
            },
        ),
        None => None,
    }
}

/// The delay that a server asks for, in milliseconds: a whole number of
/// seconds, thirty at most. Other forms are not understood.
pub fn parse_retry_after(value: &str) -> (r: Option<u64>)
    ensures
        match r {
            Some(ms) => retry_after_spec(value@) matches Some(secs) && ms == secs * 1000,
            None => retry_after_spec(value@) is None,
        },
{
    let trimmed = text::trim(value);
    match numbers::parse(trimmed.as_str(), u64::MAX) {
        Some(n) => if n <= MAX_RETRY_AFTER_SECS {
            Some(n * 1000)
        } else {
            Some(MAX_RETRY_AFTER_SECS * 1000)
        },
        None => None,
    }
}

/// Whether a text holds one of the markers, whatever its case.
pub open spec fn holds_marker(s: Seq<char>, markers: Seq<Seq<char>>) -> bool {
    exists|i: int|
        0 <= i < markers.len() && find::contains_spec(
            text::ascii_lowercased(s),
            #[trigger] markers[i],
        )
}

/// Whether a text holds one of the markers, whatever its case.
pub fn has_marker(s: &str, markers: &Vec<String>) -> (r: bool)
    ensures
        r == holds_marker(s@, text::views(markers@)),
{
    let lower = text::ascii_lowercase(s);
    let ghost all = text::views(markers@);
    let mut i: usize = 0;
    while i < markers.len()
        invariant
            i <= markers@.len(),
            lower@ == text::ascii_lowercased(s@),
            all == text::views(markers@),
            forall|k: int| 0 <= k < i ==> !find::contains_spec(lower@, #[trigger] all[k]),
        decreases markers@.len() - i,
    {
        assert(all[i as int] == markers@[i as int]@);
        if find::contains(lower.as_str(), markers[i].as_str()) {
            assert(find::contains_spec(text::ascii_lowercased(s@), all[i as int]));
            return true;
        }
        i = i + 1;
    }
    false
}

/// The words for a refused request.
pub open spec fn status_text(status: Seq<char>, url: Seq<char>, body: Seq<char>) -> Seq<char> {
    "provider returned "@ + status + " from "@ + url + ": "@ + body
}

/// The failure for a status other than success. `shown` is the status as it
/// is written; the server may ask for a delay.
pub fn status_error(status: u16, shown: &str, url: &str, body: &str, retry_after: Option<&str>) -> (r:
    AdapterError)
    ensures
        r.source@ == status_text(shown@, url@, body@),
        r.retryable == (500 <= status <= 599 || status == 429 || status == 408),
        match r.retry_after_ms {
            Some(ms) => retry_after matches Some(v) && retry_after_spec(v@) matches Some(secs) && ms
                == secs * 1000,
            None => retry_after matches Some(v) ==> retry_after_spec(v@) is None,
        },
{
    let mut source = text::cat5("provider returned ", shown, " from ", url, ": ");
    source.append(body);
    let delay: Option<u64> = match retry_after {
        Some(v) => parse_retry_after(v),
        None => None,
    };
    AdapterError::classified(source, retryable_status(status), delay)
}

/// The words for a stream that ended too early.
pub open spec fn early_end_text(url: Seq<char>) -> Seq<char> {
    "stream from "@ + url + " ended before the generation finished"@
}

/// What the end of a stream means: nothing where the generation had
/// finished, and a failure that may pass where it had not.
pub fn stream_end(finished: bool, url: &str) -> (r: Result<(), AdapterError>)
    ensures
        match r {
            Ok(_) => finished,
            Err(e) => !finished && e.source@ == early_end_text(url@) && e.retryable
                && e.retry_after_ms is None,
        },
{
    if finished {
        Ok(())
    } else {
        Err(
            AdapterError::transient(
                text::cat3("stream from ", url, " ended before the generation finished"),
            ),
        )
    }
}

} // verus!
