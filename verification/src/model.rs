//! The provider-independent conversation contract and the rules of the
//! retry, fallback and budget client.

use vstd::prelude::*;
use vstd::string::*;

use crate::json;
use crate::json::Json;
use crate::numbers;
use crate::text;

verus! {

// ---------------------------------------------------------------------------
// Conversation
// ---------------------------------------------------------------------------

/// The function that a tool call names, with its arguments.
pub struct FunctionCall {
    pub name: String,
    pub arguments: Json,
}

/// A request by a model to invoke one tool.
pub struct ToolCall {
    pub id: String,
    pub function: FunctionCall,
}

/// One conversation message.
#[allow(inconsistent_fields)]
pub enum Message {
    System { content: String },
    User { content: String },
    Assistant {
        content: Option<String>,
        tool_calls: Option<Vec<ToolCall>>,
        /// A provider's reasoning payload, replayed as it came.
        reasoning: Option<Json>,
    },
    Tool { content: String, tool_call_id: String },
}

/// A tool advertised to a model.
pub struct ToolDefinition {
    pub name: String,
    pub description: String,
    /// JSON Schema for the arguments object.
    pub parameters: Json,
}

/// What a tool call stands for.
pub struct CallView {
    pub id: Seq<char>,
    pub name: Seq<char>,
    pub arguments: json::JsonView,
}

/// What a message stands for.
#[allow(inconsistent_fields)]
pub enum MessageView {
    System { content: Seq<char> },
    User { content: Seq<char> },
    Assistant {
        content: Option<Seq<char>>,
        tool_calls: Option<Seq<CallView>>,
        reasoning: Option<json::JsonView>,
    },
    Tool { content: Seq<char>, tool_call_id: Seq<char> },
}

/// What a tool definition stands for.
pub struct DefinitionView {
    pub name: Seq<char>,
    pub description: Seq<char>,
    pub parameters: json::JsonView,
}

/// The view of an optional text.
pub open spec fn option_text(s: Option<String>) -> Option<Seq<char>> {
    match s {
        Some(t) => Some(t@),
        None => None,
    }
}

/// The view of an optional JSON value.
pub open spec fn option_json(j: Option<Json>) -> Option<json::JsonView> {
    match j {
        Some(v) => Some(v@),
        None => None,
    }
}

/// The views of a list of tool calls.
pub open spec fn calls_view(calls: Seq<ToolCall>) -> Seq<CallView> {
    Seq::new(calls.len(), |i: int| calls[i]@)
}

/// The views of a list of messages.
pub open spec fn messages_view(messages: Seq<Message>) -> Seq<MessageView> {
    Seq::new(messages.len(), |i: int| messages[i]@)
}

impl View for ToolCall {
    type V = CallView;

    open spec fn view(&self) -> CallView {
        CallView {
            id: self.id@,
            name: self.function.name@,
            arguments: self.function.arguments@,
        }
    }
}

impl View for Message {
    type V = MessageView;

    open spec fn view(&self) -> MessageView {
        match self {
            Message::System { content } => MessageView::System { content: content@ },
            Message::User { content } => MessageView::User { content: content@ },
            Message::Assistant { content, tool_calls, reasoning } => MessageView::Assistant {
                content: option_text(*content),
                tool_calls: match tool_calls {
                    Some(calls) => Some(calls_view(calls@)),
                    None => None,
                },
                reasoning: option_json(*reasoning),
            },
            Message::Tool { content, tool_call_id } => MessageView::Tool {
                content: content@,
                tool_call_id: tool_call_id@,
            },
        }
    }
}

impl View for ToolDefinition {
    type V = DefinitionView;

    open spec fn view(&self) -> DefinitionView {
        DefinitionView {
            name: self.name@,
            description: self.description@,
            parameters: self.parameters@,
        }
    }
}

impl Clone for FunctionCall {
    fn clone(&self) -> (r: FunctionCall)
        ensures
            r.name@ == self.name@,
            r.arguments@ == self.arguments@,
    {
        FunctionCall { name: self.name.clone(), arguments: self.arguments.clone() }
    }
}

impl Clone for ToolCall {
    fn clone(&self) -> (r: ToolCall)
        ensures
            r@ == self@,
    {
        ToolCall { id: self.id.clone(), function: self.function.clone() }
    }
}

impl Clone for ToolDefinition {
    fn clone(&self) -> (r: ToolDefinition)
        ensures
            r@ == self@,
    {
        ToolDefinition {
            name: self.name.clone(),
            description: self.description.clone(),
            parameters: self.parameters.clone(),
        }
    }
}

/// A copy of a list of tool calls.
pub fn copy_calls(calls: &Vec<ToolCall>) -> (r: Vec<ToolCall>)
    ensures
        calls_view(r@) == calls_view(calls@),
        r@.len() == calls@.len(),
{
    let mut out: Vec<ToolCall> = Vec::new();
    let mut i: usize = 0;
    while i < calls.len()
        invariant
            i <= calls@.len(),
            out@.len() == i,
            forall|k: int| 0 <= k < i ==> (#[trigger] out@[k])@ == calls@[k]@,
        decreases calls@.len() - i,
    {
        out.push(calls[i].clone());
        i = i + 1;
    }
    assert(calls_view(out@) =~= calls_view(calls@));
    out
}

/// A copy of an optional text.
pub fn copy_text(s: &Option<String>) -> (r: Option<String>)
    ensures
        option_text(r) == option_text(*s),
        r is Some == s is Some,
{
    match s {
        Some(t) => Some(t.clone()),
        None => None,
    }
}

impl Clone for Message {
    fn clone(&self) -> (r: Message)
        ensures
            r@ == self@,
    {
        match self {
            Message::System { content } => Message::System { content: content.clone() },
            Message::User { content } => Message::User { content: content.clone() },
            Message::Assistant { content, tool_calls, reasoning } => Message::Assistant {
                content: copy_text(content),
                tool_calls: match tool_calls {
                    Some(calls) => Some(copy_calls(calls)),
                    None => None,
                },
                reasoning: match reasoning {
                    Some(v) => Some(v.clone()),
                    None => None,
                },
            },
            Message::Tool { content, tool_call_id } => Message::Tool {
                content: content.clone(),
                tool_call_id: tool_call_id.clone(),
            },
        }
    }
}

/// A copy of a list of messages.
pub fn copy_messages(messages: &Vec<Message>) -> (r: Vec<Message>)
    ensures
        messages_view(r@) == messages_view(messages@),
        r@.len() == messages@.len(),
{
    let mut out: Vec<Message> = Vec::new();
    let mut i: usize = 0;
    while i < messages.len()
        invariant
            i <= messages@.len(),
            out@.len() == i,
            forall|k: int| 0 <= k < i ==> (#[trigger] out@[k])@ == messages@[k]@,
        decreases messages@.len() - i,
    {
        out.push(messages[i].clone());
        i = i + 1;
    }
    assert(messages_view(out@) =~= messages_view(messages@));
    out
}

/// Token counts reported by a provider for one request.
#[derive(Debug, Clone, Copy, PartialEq, Eq, Structural)]
pub struct Usage {
    pub prompt_tokens: u64,
    pub completion_tokens: u64,
    /// The part of the prompt that the provider read from its cache.
    pub cache_read_tokens: u64,
    /// The part of the completion that was reasoning.
    pub reasoning_tokens: u64,
}

impl Default for Usage {
    fn default() -> (r: Usage)
        ensures
            r.prompt_tokens == 0,
            r.completion_tokens == 0,
            r.cache_read_tokens == 0,
            r.reasoning_tokens == 0,
    {
        Usage {
            prompt_tokens: 0,
            completion_tokens: 0,
            cache_read_tokens: 0,
            reasoning_tokens: 0,
        }
    }
}

impl Usage {
    /// The context the conversation now occupies: everything sent plus
    /// everything generated.
    pub fn context_tokens(&self) -> (r: u64)
        requires
            self.prompt_tokens + self.completion_tokens <= u64::MAX,
        ensures
            r == self.prompt_tokens + self.completion_tokens,
    {
        self.prompt_tokens + self.completion_tokens
    }
}

/// What a model returned for one round-trip.
pub struct ModelResponse {
    pub content: Option<String>,
    pub tool_calls: Vec<ToolCall>,
    pub reasoning: Option<Json>,
    /// Real token counts, when the provider reports them.
    pub usage: Option<Usage>,
    /// Why the provider cut the response short, where it did.
    pub truncation: Option<String>,
}

/// A provider failure, classified for the retry rule.
pub struct AdapterError {
    pub source: String,
    pub retryable: bool,
    /// A delay that the server asked for, in milliseconds.
    pub retry_after_ms: Option<u64>,
}

impl AdapterError {
    /// A failure that no retry will mend.
    pub fn fatal(source: String) -> (r: AdapterError)
        ensures
            r.source@ == source@,
            !r.retryable,
            r.retry_after_ms is None,
    {
        AdapterError { source, retryable: false, retry_after_ms: None }
    }

    /// A failure that may pass.
    pub fn transient(source: String) -> (r: AdapterError)
        ensures
            r.source@ == source@,
            r.retryable,
            r.retry_after_ms is None,
    {
        AdapterError { source, retryable: true, retry_after_ms: None }
    }

    /// A failure with the classification given.
    pub fn classified(source: String, retryable: bool, retry_after_ms: Option<u64>) -> (r:
        AdapterError)
        ensures
            r.source@ == source@,
            r.retryable == retryable,
            r.retry_after_ms == retry_after_ms,
    {
        AdapterError { source, retryable, retry_after_ms }
    }

    /// Whether a retry may mend the failure.
    pub fn is_retryable(&self) -> (r: bool)
        ensures
            r == self.retryable,
    {
        self.retryable
    }
}

// ---------------------------------------------------------------------------
// Formatting
// ---------------------------------------------------------------------------

/// A token count for people: thousands with one decimal from 1000 on.
pub open spec fn fmt_tokens_spec(tokens: nat) -> Seq<char> {
    if tokens >= 1000 {
        numbers::thousands_spec(tokens) + "k tok"@
    } else {
        numbers::decimal_spec(tokens) + " tok"@
    }
}

/// A token count for people.
pub fn fmt_tokens(tokens: u64) -> (out: String)
    ensures
        out@ == fmt_tokens_spec(tokens as nat),
{
    if tokens >= 1000 {
        let mut out = numbers::thousands(tokens);
        out.append("k tok");
        out
    } else {
        let mut out = numbers::decimal(tokens);
        out.append(" tok");
        out
    }
}

/// Two decimal digits.
pub open spec fn two_digits(n: nat) -> Seq<char> {
    seq![numbers::digit_char(n / 10 % 10), numbers::digit_char(n % 10)]
}

/// A duration for people: milliseconds below a second, seconds with one
/// decimal below a minute, then minutes and seconds.
pub open spec fn fmt_duration_spec(millis: nat) -> Seq<char> {
    if millis < 1_000 {
        numbers::decimal_spec(millis) + "ms"@
    } else if millis < 60_000 {
        numbers::thousands_spec(millis) + "s"@
    } else {
        numbers::decimal_spec(millis / 1_000 / 60) + "m"@ + two_digits(millis / 1_000 % 60) + "s"@
    }
}

/// A duration for people.
pub fn fmt_duration(millis: u64) -> (out: String)
    ensures
        out@ == fmt_duration_spec(millis as nat),
{
    if millis < 1_000 {
        let mut out = numbers::decimal(millis);
        out.append("ms");
        out
    } else if millis < 60_000 {
        let mut out = numbers::thousands(millis);
        out.append("s");
        out
    } else {
        let seconds: u64 = millis / 1_000;
        let mut out = numbers::decimal(seconds / 60);
        out.append("m");
        let rest: u64 = seconds % 60;
        let tens = numbers::decimal(rest / 10);
        let ones = numbers::decimal(rest % 10);
        let ghost head = out@;
        out.append(tens.as_str());
        out.append(ones.as_str());
        assert(rest / 10 % 10 == rest / 10);
        assert(out@ =~= head + two_digits(rest as nat));
        out.append("s");
        out
    }
}

// ---------------------------------------------------------------------------
// Retry, fallback and streamed output
// ---------------------------------------------------------------------------

/// Exponential backoff in milliseconds: 500 doubling per attempt, capped at
/// ten seconds.
pub open spec fn backoff_spec(attempt: nat) -> nat
    decreases attempt,
{
    if attempt == 0 {
        500
    } else if 2 * backoff_spec((attempt - 1) as nat) >= 10_000 {
        10_000
    } else {
        2 * backoff_spec((attempt - 1) as nat)
    }
}

proof fn lemma_backoff_late(attempt: nat)
    requires
        attempt >= 5,
    ensures
        backoff_spec(attempt) == 10_000,
    decreases attempt,
{
    if attempt == 5 {
        reveal_with_fuel(backoff_spec, 6);
    } else {
        lemma_backoff_late((attempt - 1) as nat);
    }
}

/// The delay before a retry never shrinks from one attempt to the next, and
/// stays between half a second and ten seconds.
pub proof fn law_backoff_grows_and_caps(attempt: nat)
    ensures
        500 <= backoff_spec(attempt) <= backoff_spec(attempt + 1) <= 10_000,
    decreases attempt,
{
    if attempt > 0 {
        law_backoff_grows_and_caps((attempt - 1) as nat);
    }
}

/// The delay before the retry that follows the given attempt.
pub fn backoff_delay(attempt: u32) -> (millis: u64)
    ensures
        millis == backoff_spec(attempt as nat),
{
    proof {
        reveal_with_fuel(backoff_spec, 6);
    }
    if attempt == 0 {
        500
    } else if attempt == 1 {
        1_000
    } else if attempt == 2 {
        2_000
    } else if attempt == 3 {
        4_000
    } else if attempt == 4 {
        8_000
    } else {
        proof {
            lemma_backoff_late(attempt as nat);
        }
        10_000
    }
}

/// The first character boundary at or after byte `at`, or the end.
pub open spec fn boundary_from(bytes: Seq<u8>, at: int) -> int
    decreases bytes.len() - at,
{
    if at >= bytes.len() || vstd::utf8::is_char_boundary(bytes, at) {
        at
    } else {
        boundary_from(bytes, at + 1)
    }
}

/// How many bytes of a fragment were emitted before: those up to `emitted`
/// where `cumulative_before` bytes precede the fragment.
pub open spec fn seen_bytes(cumulative_before: nat, emitted: nat) -> int {
    if emitted > cumulative_before {
        emitted - cumulative_before
    } else {
        0
    }
}

/// The part of a fragment beyond the first `emitted` content bytes, given
/// that `cumulative_before` bytes preceded it. A cut inside a character moves
/// forward to the next boundary.
pub fn novel_suffix<'a>(fragment: &'a str, cumulative_before: usize, emitted: usize) -> (r: Option<
    &'a str,
>)
    ensures
        ({
            let bytes = fragment.spec_bytes();
            let cut = boundary_from(bytes, seen_bytes(cumulative_before as nat, emitted as nat));
            match r {
                Some(novel) => if emitted <= cumulative_before {
                    novel@ == fragment@
                } else {
                    cut < bytes.len() && novel.spec_bytes() == bytes.subrange(
                        cut,
                        bytes.len() as int,
                    )
                },
                None => emitted > cumulative_before && cut >= bytes.len(),
            }
        }),
{
    if emitted <= cumulative_before {
        return Some(fragment);
    }
    let mut skip: usize = emitted - cumulative_before;
    let len: usize = text::bytes_in(fragment);
    let ghost bytes = fragment.spec_bytes();
    while skip < len && !fragment.is_char_boundary(skip)
        invariant
            len == bytes.len(),
            bytes == fragment.spec_bytes(),
            boundary_from(bytes, skip as int) == boundary_from(
                bytes,
                emitted - cumulative_before,
            ),
        decreases len - skip,
    {
        skip = skip + 1;
    }
    if skip < len {
        let (_, novel) = fragment.split_at(skip);
        Some(novel)
    } else {
        None
    }
}

/// A cut never falls before the place asked for.
proof fn lemma_boundary_from(bytes: Seq<u8>, at: int)
    ensures
        at <= boundary_from(bytes, at),
    decreases bytes.len() - at,
{
    if at < bytes.len() && !vstd::utf8::is_char_boundary(bytes, at) {
        lemma_boundary_from(bytes, at + 1);
    }
}

/// Content that was delivered once is not delivered again by a retry: what
/// is novel in a fragment starts at or after the bytes emitted so far.
pub proof fn law_no_content_is_emitted_twice(
    bytes: Seq<u8>,
    cumulative_before: nat,
    emitted: nat,
)
    requires
        emitted > cumulative_before,
    ensures
        cumulative_before + boundary_from(bytes, seen_bytes(cumulative_before, emitted))
            >= emitted,
{
    lemma_boundary_from(bytes, seen_bytes(cumulative_before, emitted));
}

/// What of a reply was delivered: the bytes of the attempt under way, and the
/// most bytes that any attempt delivered.
pub struct Delivery {
    pub cumulative: usize,
    pub emitted: usize,
}

/// Where the part of a fragment begins that was not delivered yet.
pub open spec fn novel_from(d: Delivery, fragment: &str) -> int {
    boundary_from(fragment.spec_bytes(), seen_bytes(d.cumulative as nat, d.emitted as nat))
}

/// Whether a fragment holds anything that was not delivered yet.
pub open spec fn is_novel(d: Delivery, fragment: &str) -> bool {
    d.emitted <= d.cumulative || novel_from(d, fragment) < fragment.spec_bytes().len()
}

impl Delivery {
    /// Nothing was delivered yet.
    pub fn new() -> (r: Delivery)
        ensures
            r.cumulative == 0,
            r.emitted == 0,
    {
        Delivery { cumulative: 0, emitted: 0 }
    }

    /// Another attempt begins: its reply is counted anew, what was delivered
    /// stays so.
    pub fn begin_attempt(&mut self)
        ensures
            final(self).cumulative == 0,
            final(self).emitted == old(self).emitted,
    {
        self.cumulative = 0;
    }

    /// Take a fragment: what of it to deliver, where anybody listens.
    pub fn offer<'a>(&mut self, fragment: &'a str, listened: bool) -> (r: Option<&'a str>)
        requires
            old(self).cumulative + fragment.spec_bytes().len() <= usize::MAX,
        ensures
            r is Some <==> listened && is_novel(*old(self), fragment),
            r matches Some(novel) ==> if old(self).emitted <= old(self).cumulative {
                novel@ == fragment@
            } else {
                novel.spec_bytes() == fragment.spec_bytes().subrange(
                    novel_from(*old(self), fragment),
                    fragment.spec_bytes().len() as int,
                )
            },
            final(self).cumulative == old(self).cumulative + fragment.spec_bytes().len(),
            final(self).emitted == (if r is Some && old(self).emitted < final(self).cumulative {
                final(self).cumulative
            } else {
                old(self).emitted
            }),
    {
        let before: usize = self.cumulative;
        let len: usize = text::bytes_in(fragment);
        self.cumulative = before + len;
        if !listened {
            return None;
        }
        let novel = novel_suffix(fragment, before, self.emitted);
        if novel.is_some() && self.emitted < self.cumulative {
            self.emitted = self.cumulative;
        }
        novel
    }
}

/// What the client does after a failed attempt.
#[derive(Debug, Clone, Copy, PartialEq, Eq, Structural)]
pub enum NextAttempt {
    /// Try the same target again after the delay; the new attempt's number.
    Retry { delay_ms: u64, attempt: u32 },
    /// Try the target at this place in the chain, from its first attempt.
    Fallback { target: usize },
    /// Every target has failed.
    GiveUp,
}

/// The rule after a failed attempt: a transient failure is retried on the
/// same target while retries remain, after the server's delay or else the
/// backoff; any other failure moves to the next target in the chain.
pub fn after_failure(
    targets: usize,
    retries: u32,
    target: usize,
    attempt: u32,
    retryable: bool,
    retry_after_ms: Option<u64>,
) -> (next: NextAttempt)
    requires
        target < targets,
    ensures
        retryable && attempt < retries ==> next == (NextAttempt::Retry {
            delay_ms: match retry_after_ms {
                Some(ms) => ms,
                None => backoff_spec(attempt as nat) as u64,
            },
            attempt: (attempt + 1) as u32,
        }),
        !(retryable && attempt < retries) && target + 1 < targets ==> next == (
        NextAttempt::Fallback { target: (target + 1) as usize }),
        !(retryable && attempt < retries) && target + 1 == targets ==> next
            == NextAttempt::GiveUp,
{
    if retryable && attempt < retries {
        let delay_ms: u64 = match retry_after_ms {
            Some(ms) => ms,
            None => backoff_delay(attempt),
        };
        NextAttempt::Retry { delay_ms, attempt: attempt + 1 }
    } else if target + 1 < targets {
        NextAttempt::Fallback { target: target + 1 }
    } else {
        NextAttempt::GiveUp
    }
}

/// The text that closes a chain on which every target failed.
pub open spec fn chain_failed_spec(labels: Seq<Seq<char>>) -> Seq<char> {
    "every model endpoint failed (tried: "@ + text::join_spec(labels, " -> "@) + ")"@
}

/// The text that closes a chain on which every target failed.
pub fn chain_failed(labels: &Vec<String>) -> (out: String)
    ensures
        out@ == chain_failed_spec(text::views(labels@)),
{
    let mut out = "every model endpoint failed (tried: ".to_owned();
    out.append(text::join(labels, " -> ").as_str());
    out.append(")");
    out
}

/// The output allowance of the next request: the configured one, cut to the
/// tokens that remain of the run's budget.
pub fn clamp_max_tokens(configured: Option<u32>, remaining: Option<u64>) -> (r: Option<u32>)
    ensures
        match remaining {
            None => r == configured,
            Some(left) => r matches Some(m) && m == (if (match configured {
                Some(c) => c,
                None => u32::MAX,
            }) <= left {
                match configured {
                    Some(c) => c,
                    None => u32::MAX,
                }
            } else {
                left as u32
            }),
        },
{
    match remaining {
        None => configured,
        Some(left) => {
            let wanted: u32 = match configured {
                Some(c) => c,
                None => u32::MAX,
            };
            if (wanted as u64) <= left {
                Some(wanted)
            } else {
                Some(left as u32)
            }
        },
    }
}

} // verus!
