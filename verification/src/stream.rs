//! Assembly of a streamed chat reply from its fragments.

use vstd::prelude::*;
use vstd::string::*;

use crate::model;
use crate::text;

verus! {

/// A fragment of a function call.
pub struct FunctionDelta {
    pub name: Option<String>,
    pub arguments: Option<String>,
}

/// A fragment of a tool call; the index says of which.
pub struct ToolCallDelta {
    pub index: usize,
    pub id: Option<String>,
    pub function: Option<FunctionDelta>,
}

/// A fragment of a reply.
pub struct StreamDelta {
    pub content: Option<String>,
    pub tool_calls: Option<Vec<ToolCallDelta>>,
}

/// One choice of a chunk.
pub struct StreamChoice {
    pub delta: StreamDelta,
    pub finish_reason: Option<String>,
}

/// A tool call that is being assembled; its arguments stay text until the
/// stream ends.
pub struct PartialToolCall {
    pub id: String,
    pub name: String,
    pub arguments: String,
}

/// What a call that is being assembled stands for.
pub struct SlotView {
    pub id: Seq<char>,
    pub name: Seq<char>,
    pub arguments: Seq<char>,
}

impl View for PartialToolCall {
    type V = SlotView;

    open spec fn view(&self) -> SlotView {
        SlotView { id: self.id@, name: self.name@, arguments: self.arguments@ }
    }
}

/// The views of calls that are being assembled.
pub open spec fn slots_view(slots: Seq<PartialToolCall>) -> Seq<SlotView> {
    Seq::new(slots.len(), |i: int| slots[i]@)
}

/// A call of which nothing came yet.
pub open spec fn blank_slot() -> SlotView {
    SlotView { id: seq![], name: seq![], arguments: seq![] }
}

/// The calls with blank ones behind them, up to a number.
pub open spec fn padded(slots: Seq<SlotView>, n: nat) -> Seq<SlotView> {
    if slots.len() >= n {
        slots
    } else {
        slots + Seq::new((n - slots.len()) as nat, |i: int| blank_slot())
    }
}

/// A text, or nothing.
pub open spec fn or_nothing(s: Option<String>) -> Seq<char> {
    match s {
        Some(s) => s@,
        None => seq![],
    }
}

/// A call with a fragment added: an identifier replaces the one before, a
/// name and arguments go behind.
pub open spec fn extended(slot: SlotView, d: ToolCallDelta) -> SlotView {
    SlotView {
        id: if or_nothing(d.id).len() > 0 {
            or_nothing(d.id)
        } else {
            slot.id
        },
        name: match d.function {
            Some(f) => slot.name + or_nothing(f.name),
            None => slot.name,
        },
        arguments: match d.function {
            Some(f) => slot.arguments + or_nothing(f.arguments),
            None => slot.arguments,
        },
    }
}

/// The calls after a fragment.
pub open spec fn with_delta(slots: Seq<SlotView>, d: ToolCallDelta) -> Seq<SlotView> {
    let grown = padded(slots, (d.index + 1) as nat);
    grown.update(d.index as int, extended(grown[d.index as int], d))
}

/// The calls after fragments, one after the other.
pub open spec fn with_deltas(slots: Seq<SlotView>, deltas: Seq<ToolCallDelta>) -> Seq<SlotView>
    decreases deltas.len(),
{
    if deltas.len() == 0 {
        slots
    } else {
        with_delta(with_deltas(slots, deltas.drop_last()), deltas.last())
    }
}

/// Whether each fragment's index leaves room for its call.
pub open spec fn indexes_fit(deltas: Seq<ToolCallDelta>) -> bool {
    forall|i: int| 0 <= i < deltas.len() ==> (#[trigger] deltas[i]).index < usize::MAX
}

fn extend_slot(slot: &PartialToolCall, d: &ToolCallDelta) -> (r: PartialToolCall)
    ensures
        r@ == extended(slot@, *d),
{
    let id = match &d.id {
        Some(id) => if id.as_str().is_empty() {
            slot.id.clone()
        } else {
            id.clone()
        },
        None => slot.id.clone(),
    };
    let mut name = slot.name.clone();
    let mut arguments = slot.arguments.clone();
    match &d.function {
        Some(f) => {
            match &f.name {
                Some(s) => {
                    name.append(s.as_str());
                },
                None => {
                    assert(name@ + Seq::<char>::empty() =~= name@);
                },
            }
            match &f.arguments {
                Some(s) => {
                    arguments.append(s.as_str());
                },
                None => {
                    assert(arguments@ + Seq::<char>::empty() =~= arguments@);
                },
            }
        },
        None => {},
    }
    PartialToolCall { id, name, arguments }
}

fn apply_delta(slots: &mut Vec<PartialToolCall>, d: &ToolCallDelta)
    requires
        d.index < usize::MAX,
    ensures
        slots_view(final(slots)@) == with_delta(slots_view(old(slots)@), *d),
{
    let ghost start = slots_view(slots@);
    let ghost grown = padded(start, (d.index + 1) as nat);
    assert(start.len() == slots@.len());
    while slots.len() <= d.index
        invariant
            d.index < usize::MAX,
            start.len() <= slots@.len(),
            slots@.len() <= d.index + 1 || slots@.len() == start.len(),
            slots_view(slots@) == padded(start, slots@.len()),
        decreases d.index + 1 - slots@.len(),
    {
        let ghost before = slots@;
        let id = String::new();
        assert(id@ =~= seq![]);
        let name = String::new();
        assert(name@ =~= seq![]);
        let arguments = String::new();
        assert(arguments@ =~= seq![]);
        slots.push(PartialToolCall { id, name, arguments });
        assert(slots_view(slots@) =~= slots_view(before).push(blank_slot()));
        assert(padded(start, slots@.len()) =~= padded(start, before.len()).push(blank_slot()));
    }
    assert(slots_view(slots@) =~= grown);
    let slot = extend_slot(&slots[d.index], d);
    let ghost filled = slot@;
    let ghost before = slots@;
    slots.set(d.index, slot);
    assert(slots_view(slots@) =~= slots_view(before).update(d.index as int, filled));
}

/// Add fragments to the calls that are being assembled.
pub fn apply_deltas(slots: &mut Vec<PartialToolCall>, deltas: &Vec<ToolCallDelta>)
    requires
        indexes_fit(deltas@),
    ensures
        slots_view(final(slots)@) == with_deltas(slots_view(old(slots)@), deltas@),
{
    let ghost start = slots_view(slots@);
    let mut i: usize = 0;
    while i < deltas.len()
        invariant
            i <= deltas@.len(),
            indexes_fit(deltas@),
            slots_view(slots@) == with_deltas(start, deltas@.take(i as int)),
        decreases deltas@.len() - i,
    {
        assert(deltas@.take(i + 1).drop_last() =~= deltas@.take(i as int));
        assert(deltas@.take(i + 1).last() == deltas@[i as int]);
        apply_delta(slots, &deltas[i]);
        i = i + 1;
    }
    assert(deltas@.take(deltas@.len() as int) =~= deltas@);
}

// ---------------------------------------------------------------------------
// Replies
// ---------------------------------------------------------------------------

/// A reply that is being assembled.
pub struct PartialReply {
    pub content: String,
    pub tool_calls: Vec<PartialToolCall>,
    /// Whether the generation reached its end.
    pub finished: bool,
    pub finish_reason: Option<String>,
}

/// What a reply that is being assembled stands for.
pub struct PartialView {
    pub content: Seq<char>,
    pub tool_calls: Seq<SlotView>,
    pub finished: bool,
    pub finish_reason: Option<Seq<char>>,
}

impl View for PartialReply {
    type V = PartialView;

    open spec fn view(&self) -> PartialView {
        PartialView {
            content: self.content@,
            tool_calls: slots_view(self.tool_calls@),
            finished: self.finished,
            finish_reason: model::option_text(self.finish_reason),
        }
    }
}

/// The fragments of tool calls that a choice holds.
pub open spec fn deltas_of(choice: StreamChoice) -> Seq<ToolCallDelta> {
    match choice.delta.tool_calls {
        Some(deltas) => deltas@,
        None => seq![],
    }
}

/// A reply after one more choice.
pub open spec fn with_choice(r: PartialView, choice: StreamChoice) -> PartialView {
    PartialView {
        content: r.content + or_nothing(choice.delta.content),
        tool_calls: with_deltas(r.tool_calls, deltas_of(choice)),
        finished: r.finished || choice.finish_reason is Some,
        finish_reason: if choice.finish_reason is Some {
            model::option_text(choice.finish_reason)
        } else {
            r.finish_reason
        },
    }
}

/// A reply after choices, one after the other.
pub open spec fn with_choices(r: PartialView, choices: Seq<StreamChoice>) -> PartialView
    decreases choices.len(),
{
    if choices.len() == 0 {
        r
    } else {
        with_choice(with_choices(r, choices.drop_last()), choices.last())
    }
}

/// The texts that choices hold, as they are shown: empty ones are not.
pub open spec fn fragments(choices: Seq<StreamChoice>) -> Seq<Seq<char>>
    decreases choices.len(),
{
    if choices.len() == 0 {
        seq![]
    } else {
        let rest = fragments(choices.drop_last());
        let piece = or_nothing(choices.last().delta.content);
        if piece.len() > 0 {
            rest.push(piece)
        } else {
            rest
        }
    }
}

/// Whether the fragments of each choice leave room for their calls.
pub open spec fn choices_fit(choices: Seq<StreamChoice>) -> bool {
    forall|i: int| 0 <= i < choices.len() ==> indexes_fit(deltas_of(#[trigger] choices[i]))
}

impl PartialReply {
    /// A reply of which nothing came yet.
    pub fn new() -> (r: PartialReply)
        ensures
            r@ == (PartialView {
                content: seq![],
                tool_calls: seq![],
                finished: false,
                finish_reason: None,
            }),
    {
        let content = String::new();
        assert(content@ =~= seq![]);
        let r = PartialReply {
            content,
            tool_calls: Vec::new(),
            finished: false,
            finish_reason: None,
        };
        assert(r@.tool_calls =~= seq![]);
        r
    }

    fn apply_choice(&mut self, choice: &StreamChoice)
        requires
            indexes_fit(deltas_of(*choice)),
        ensures
            final(self)@ == with_choice(old(self)@, *choice),
    {
        match &choice.finish_reason {
            Some(reason) => {
                self.finished = true;
                self.finish_reason = Some(reason.clone());
            },
            None => {},
        }
        match &choice.delta.content {
            Some(s) => {
                self.content.append(s.as_str());
            },
            None => {
                assert(self.content@ + Seq::<char>::empty() =~= self.content@);
            },
        }
        match &choice.delta.tool_calls {
            Some(deltas) => {
                apply_deltas(&mut self.tool_calls, deltas);
            },
            None => {},
        }
    }

    /// Take the choices of a chunk; the texts in them are handed back for
    /// display.
    pub fn apply(&mut self, choices: &Vec<StreamChoice>) -> (shown: Vec<String>)
        requires
            choices_fit(choices@),
        ensures
            final(self)@ == with_choices(old(self)@, choices@),
            text::views(shown@) == fragments(choices@),
    {
        let ghost start = self@;
        let mut shown: Vec<String> = Vec::new();
        let mut i: usize = 0;
        assert(text::views(shown@) =~= seq![]);
        while i < choices.len()
            invariant
                i <= choices@.len(),
                choices_fit(choices@),
                self@ == with_choices(start, choices@.take(i as int)),
                text::views(shown@) == fragments(choices@.take(i as int)),
            decreases choices@.len() - i,
        {
            assert(choices@.take(i + 1).drop_last() =~= choices@.take(i as int));
            assert(choices@.take(i + 1).last() == choices@[i as int]);
            let choice = &choices[i];
            assert(indexes_fit(deltas_of(choices@[i as int])));
            self.apply_choice(choice);
            match &choice.delta.content {
                Some(s) => {
                    if !s.as_str().is_empty() {
                        text::add_text(&mut shown, s.clone());
                    }
                },
                None => {},
            }
            i = i + 1;
        }
        assert(choices@.take(choices@.len() as int) =~= choices@);
        shown
    }
}

/// Texts one behind the other.
pub open spec fn flat(pieces: Seq<Seq<char>>) -> Seq<char>
    decreases pieces.len(),
{
    if pieces.len() == 0 {
        seq![]
    } else {
        flat(pieces.drop_last()) + pieces.last()
    }
}

/// What is shown of a stream is what the reply holds: the content grows by
/// exactly the fragments that are handed back.
pub proof fn law_shown_fragments_make_the_content(r: PartialView, choices: Seq<StreamChoice>)
    ensures
        with_choices(r, choices).content == r.content + flat(fragments(choices)),
    decreases choices.len(),
{
    if choices.len() == 0 {
        assert(r.content + flat(fragments(choices)) =~= r.content);
    } else {
        law_shown_fragments_make_the_content(r, choices.drop_last());
        let rest = fragments(choices.drop_last());
        let piece = or_nothing(choices.last().delta.content);
        if piece.len() > 0 {
            assert(rest.push(piece).drop_last() =~= rest);
            assert((r.content + flat(rest)) + piece =~= r.content + (flat(rest) + piece));
        } else {
            assert((r.content + flat(rest)) + piece =~= r.content + flat(rest));
        }
    }
}

/// It does not matter how choices are cut into chunks.
pub proof fn law_choices_may_be_split(
    r: PartialView,
    a: Seq<StreamChoice>,
    b: Seq<StreamChoice>,
)
    ensures
        with_choices(with_choices(r, a), b) == with_choices(r, a + b),
    decreases b.len(),
{
    if b.len() == 0 {
        assert(a + b =~= a);
    } else {
        law_choices_may_be_split(r, a, b.drop_last());
        assert((a + b).drop_last() =~= a + b.drop_last());
        assert((a + b).last() == b.last());
    }
}

/// Text that comes in pieces is assembled as if it came whole: a call's
/// arguments are the pieces one behind the other.
pub proof fn law_arguments_are_assembled(
    slots: Seq<SlotView>,
    deltas: Seq<ToolCallDelta>,
    index: int,
)
    requires
        0 <= index < slots.len(),
        forall|i: int| 0 <= i < deltas.len() ==> (#[trigger] deltas[i]).index == index,
    ensures
        with_deltas(slots, deltas).len() == slots.len(),
        with_deltas(slots, deltas)[index].arguments == slots[index].arguments + flat(
            Seq::new(
                deltas.len(),
                |i: int|
                    match deltas[i].function {
                        Some(f) => or_nothing(f.arguments),
                        None => seq![],
                    },
            ),
        ),
    decreases deltas.len(),
{
    let pieces = Seq::new(
        deltas.len(),
        |i: int|
            match deltas[i].function {
                Some(f) => or_nothing(f.arguments),
                None => seq![],
            },
    );
    if deltas.len() == 0 {
        assert(slots[index].arguments + flat(pieces) =~= slots[index].arguments);
    } else {
        let shorter = deltas.drop_last();
        assert forall|i: int| 0 <= i < shorter.len() implies (#[trigger] shorter[i]).index
            == index by {
            assert(shorter[i] == deltas[i]);
        }
        law_arguments_are_assembled(slots, shorter, index);
        let before = Seq::new(
            shorter.len(),
            |i: int|
                match shorter[i].function {
                    Some(f) => or_nothing(f.arguments),
                    None => seq![],
                },
        );
        assert(pieces.drop_last() =~= before);
        assert(deltas.last().index == deltas[deltas.len() - 1].index);
        let so_far = slots[index].arguments + flat(before);
        assert(so_far + pieces.last() =~= slots[index].arguments + (flat(before)
            + pieces.last()));
        assert(so_far + Seq::<char>::empty() =~= so_far);
    }
}

} // verus!
