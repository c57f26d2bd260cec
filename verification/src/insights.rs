//! Signals that saved sessions give: what was denied, what failed, what was
//! rolled back. And the marks of what was looked at before.

use vstd::prelude::*;
use vstd::string::*;

use crate::diff::DiffEntry;
use crate::find;
use crate::json;
use crate::json::{Json, Number};
use crate::model;
use crate::model::Message;
use crate::schema;
use crate::session::Session;
use crate::table;
use crate::table::Table;
use crate::text;

verus! {

/// Characters of an excerpt.
pub const EXCERPT_CHARS: usize = 240;

/// A kind of signal.
#[derive(Debug, Clone, Copy, PartialEq, Eq, Structural)]
pub enum SignalKind {
    /// The user declined a call.
    Denied,
    /// A tool failed.
    ToolError,
    /// A recorded change was rolled back.
    Rollback,
    /// A commit reverts earlier work.
    Revert,
    /// A commit rewrites what a recent one brought in.
    Correction,
    /// A commit changes lines that the agent wrote.
    SoaChangeRevised,
}

/// A signal.
pub struct Signal {
    /// The session it comes from; empty where it comes from a commit.
    pub session_id: String,
    pub cwd: String,
    /// When the session was last saved, or the commit written.
    pub at: u64,
    pub kind: SignalKind,
    /// The tool involved; empty where it is not known.
    pub tool: String,
    /// The commit that a signal from history points at.
    pub commit: String,
    pub excerpt: String,
}

/// What a signal stands for.
pub struct SignalView {
    pub session_id: Seq<char>,
    pub cwd: Seq<char>,
    pub at: nat,
    pub kind: SignalKind,
    pub tool: Seq<char>,
    pub commit: Seq<char>,
    pub excerpt: Seq<char>,
}

impl View for Signal {
    type V = SignalView;

    open spec fn view(&self) -> SignalView {
        SignalView {
            session_id: self.session_id@,
            cwd: self.cwd@,
            at: self.at as nat,
            kind: self.kind,
            tool: self.tool@,
            commit: self.commit@,
            excerpt: self.excerpt@,
        }
    }
}

/// The views of signals.
pub open spec fn signals_view(list: Seq<Signal>) -> Seq<SignalView> {
    Seq::new(list.len(), |i: int| list[i]@)
}

/// A signal of a session.
pub open spec fn session_signal(
    session: Session,
    kind: SignalKind,
    tool: Seq<char>,
    content: Seq<char>,
) -> SignalView {
    SignalView {
        session_id: session.id@,
        cwd: session.cwd@,
        at: session.updated_at as nat,
        kind,
        tool,
        commit: seq![],
        excerpt: text::excerpt_spec(content, EXCERPT_CHARS as nat),
    }
}

/// The name of the last call with an id, or nothing.
pub open spec fn called_name(calls: Seq<model::CallView>, id: Seq<char>) -> Seq<char>
    decreases calls.len(),
{
    if calls.len() == 0 {
        seq![]
    } else if calls.last().id == id {
        calls.last().name
    } else {
        called_name(calls.drop_last(), id)
    }
}

/// The calls that messages hold, in their order.
pub open spec fn calls_in(history: Seq<model::MessageView>) -> Seq<model::CallView>
    decreases history.len(),
{
    if history.len() == 0 {
        seq![]
    } else {
        let before = calls_in(history.drop_last());
        match history.last() {
            model::MessageView::Assistant { tool_calls: Some(calls), .. } => before + calls,
            _ => before,
        }
    }
}

/// The kind of failure that a result reports, if it does.
pub open spec fn failure_kind(content: Seq<char>) -> Option<SignalKind> {
    if find::starts_spec(content, "DENIED:"@) {
        Some(SignalKind::Denied)
    } else if find::starts_spec(content, "ERROR:"@) {
        Some(SignalKind::ToolError)
    } else {
        None
    }
}

/// The signals that messages give: denied and failed calls, each with the tool
/// that was called.
pub open spec fn result_signals(session: Session, history: Seq<model::MessageView>) -> Seq<
    SignalView,
>
    decreases history.len(),
{
    if history.len() == 0 {
        seq![]
    } else {
        let before = result_signals(session, history.drop_last());
        match history.last() {
            model::MessageView::Tool { content, tool_call_id } => match failure_kind(content) {
                Some(kind) => before.push(
                    session_signal(
                        session,
                        kind,
                        called_name(calls_in(history.drop_last()), tool_call_id),
                        content,
                    ),
                ),
                None => before,
            },
            _ => before,
        }
    }
}

/// The words for a change that was rolled back.
pub open spec fn rollback_text(path: Seq<char>) -> Seq<char> {
    "change to "@ + path + " was rolled back"@
}

/// The signals that recorded changes give: those that were rolled back.
pub open spec fn rollback_signals(session: Session, diffs: Seq<DiffEntry>) -> Seq<SignalView>
    decreases diffs.len(),
{
    if diffs.len() == 0 {
        seq![]
    } else {
        let before = rollback_signals(session, diffs.drop_last());
        if diffs.last().tool@ == "rewind"@ {
            before.push(
                session_signal(
                    session,
                    SignalKind::Rollback,
                    "rewind"@,
                    rollback_text(diffs.last().path@),
                ),
            )
        } else {
            before
        }
    }
}

fn make(session: &Session, kind: SignalKind, tool: &str, content: &str) -> (r: Signal)
    ensures
        r@ == session_signal(*session, kind, tool@, content@),
{
    let commit = String::new();
    assert(commit@ =~= seq![]);
    Signal {
        session_id: session.id.clone(),
        cwd: session.cwd.clone(),
        at: session.updated_at,
        kind,
        tool: tool.to_owned(),
        commit,
        excerpt: text::excerpt(content, EXCERPT_CHARS),
    }
}

fn add_signal(list: &mut Vec<Signal>, signal: Signal)
    ensures
        signals_view(final(list)@) == signals_view(old(list)@).push(signal@),
{
    let ghost before = list@;
    list.push(signal);
    assert(signals_view(list@) =~= signals_view(before).push(signal@));
}

/// The calls of messages, each by its place.
fn name_of(history: &Vec<Message>, upto: usize, id: &str) -> (r: String)
    requires
        upto <= history@.len(),
    ensures
        r@ == called_name(calls_in(model::messages_view(history@).take(upto as int)), id@),
{
    let ghost all = model::messages_view(history@);
    let mut n: usize = upto;
    while n > 0
        invariant
            n <= upto <= history@.len(),
            all == model::messages_view(history@),
            called_name(calls_in(all.take(upto as int)), id@) == called_name(
                calls_in(all.take(n as int)),
                id@,
            ),
        decreases n,
    {
        let ghost earlier = calls_in(all.take(n - 1));
        assert(all.take(n as int).drop_last() =~= all.take(n - 1));
        assert(all.take(n as int).last() == history@[n - 1]@);
        match &history[n - 1] {
            Message::Assistant { content: _, tool_calls: Some(calls), reasoning: _ } => {
                let ghost views = model::calls_view(calls@);
                let mut k: usize = calls.len();
                assert(views.take(k as int) =~= views);
                while k > 0
                    invariant
                        k <= calls@.len(),
                        upto <= history@.len(),
                        all == model::messages_view(history@),
                        views == model::calls_view(calls@),
                        called_name(calls_in(all.take(upto as int)), id@) == called_name(
                            earlier + views.take(k as int),
                            id@,
                        ),
                    decreases k,
                {
                    let ghost upto_k = earlier + views.take(k as int);
                    assert(upto_k.last() == views[k - 1]);
                    assert(upto_k.drop_last() =~= earlier + views.take(k - 1));
                    if text::same(calls[k - 1].id.as_str(), id) {
                        return calls[k - 1].function.name.clone();
                    }
                    k = k - 1;
                }
                assert(earlier + views.take(0) =~= earlier);
            },
            _ => {},
        }
        n = n - 1;
    }
    let nothing = String::new();
    assert(nothing@ =~= seq![]);
    assert(all.take(0) =~= seq![]);
    nothing
}

/// The signals of a session: calls that were denied or failed, then changes
/// that were rolled back.
pub open spec fn session_signals(session: Session) -> Seq<SignalView> {
    result_signals(session, model::messages_view(session.history@)) + rollback_signals(
        session,
        session.diffs@,
    )
}

/// The signals of a session: calls that were denied or failed, then changes
/// that were rolled back.
pub fn extract_signals(session: &Session) -> (r: Vec<Signal>)
    ensures
        signals_view(r@) == session_signals(*session),
{
    let history = &session.history;
    let ghost all = model::messages_view(history@);
    let mut out: Vec<Signal> = Vec::new();
    let mut i: usize = 0;
    assert(signals_view(out@) =~= seq![]);
    while i < history.len()
        invariant
            i <= history@.len(),
            history@ == session.history@,
            all == model::messages_view(history@),
            signals_view(out@) == result_signals(*session, all.take(i as int)),
        decreases history@.len() - i,
    {
        assert(all.take(i + 1).drop_last() =~= all.take(i as int));
        assert(all.take(i + 1).last() == history@[i as int]@);
        match &history[i] {
            Message::Tool { content, tool_call_id } => {
                let kind: Option<SignalKind> = if find::starts_with(content.as_str(), "DENIED:") {
                    Some(SignalKind::Denied)
                } else if find::starts_with(content.as_str(), "ERROR:") {
                    Some(SignalKind::ToolError)
                } else {
                    None
                };
                match kind {
                    Some(kind) => {
                        let tool = name_of(history, i, tool_call_id.as_str());
                        add_signal(
                            &mut out,
                            make(session, kind, tool.as_str(), content.as_str()),
                        );
                    },
                    None => {},
                }
            },
            _ => {},
        }
        i = i + 1;
    }
    assert(all.take(all.len() as int) =~= all);
    let ghost results = signals_view(out@);
    let mut j: usize = 0;
    let ghost none = rollback_signals(*session, session.diffs@.take(0));
    assert(results + none =~= results);
    while j < session.diffs.len()
        invariant
            j <= session.diffs@.len(),
            signals_view(out@) == results + rollback_signals(
                *session,
                session.diffs@.take(j as int),
            ),
        decreases session.diffs@.len() - j,
    {
        let ghost before = rollback_signals(*session, session.diffs@.take(j as int));
        assert(session.diffs@.take(j + 1).drop_last() =~= session.diffs@.take(j as int));
        assert(session.diffs@.take(j + 1).last() == session.diffs@[j as int]);
        let entry = &session.diffs[j];
        if text::same(entry.tool.as_str(), "rewind") {
            let words = text::cat3("change to ", entry.path.as_str(), " was rolled back");
            let signal = make(session, SignalKind::Rollback, "rewind", words.as_str());
            let ghost shown = signal@;
            add_signal(&mut out, signal);
            assert((results + before).push(shown) =~= results + before.push(shown));
        }
        j = j + 1;
    }
    assert(session.diffs@.take(session.diffs@.len() as int) =~= session.diffs@);
    out
}

// ---------------------------------------------------------------------------
// Marks
// ---------------------------------------------------------------------------

/// The fields of counts by name.
pub open spec fn count_fields(rows: Seq<(String, u64)>) -> Seq<(Seq<char>, json::JsonView)> {
    Seq::new(
        rows.len(),
        |i: int|
            (rows[i].0@, json::JsonView::Number(json::NumberView::Unsigned(rows[i].1))),
    )
}

/// The fields of texts by name.
pub open spec fn text_fields(rows: Seq<(String, String)>) -> Seq<(Seq<char>, json::JsonView)> {
    Seq::new(rows.len(), |i: int| (rows[i].0@, json::JsonView::Text(rows[i].1@)))
}

/// What is written of the sessions that were looked at: for each, when it was
/// last saved.
pub fn save_reflected(reflected: &Table<u64>) -> (r: String)
    ensures
        r@ == json::printed_pretty(
            json::JsonView::Object(count_fields(reflected.entries@)),
        ),
{
    let rows = &reflected.entries;
    let mut fields: Vec<(String, Json)> = Vec::new();
    let mut i: usize = 0;
    assert(schema::fields_view(fields@) =~= count_fields(rows@).take(0));
    while i < rows.len()
        invariant
            i <= rows@.len(),
            schema::fields_view(fields@) == count_fields(rows@).take(i as int),
        decreases rows@.len() - i,
    {
        schema::add_field(&mut fields, rows[i].0.as_str(), schema::count(rows[i].1));
        assert(count_fields(rows@).take(i as int).push(count_fields(rows@)[i as int])
            =~= count_fields(rows@).take(i + 1));
        i = i + 1;
    }
    assert(count_fields(rows@).take(rows@.len() as int) =~= count_fields(rows@));
    let value = schema::object(fields);
    json::print_pretty(&value)
}

/// What is written of the commits that were looked at: for each repository,
/// the last one.
pub fn save_git_marks(marks: &Table<String>) -> (r: String)
    ensures
        r@ == json::printed_pretty(json::JsonView::Object(text_fields(marks.entries@))),
{
    let rows = &marks.entries;
    let mut fields: Vec<(String, Json)> = Vec::new();
    let mut i: usize = 0;
    assert(schema::fields_view(fields@) =~= text_fields(rows@).take(0));
    while i < rows.len()
        invariant
            i <= rows@.len(),
            schema::fields_view(fields@) == text_fields(rows@).take(i as int),
        decreases rows@.len() - i,
    {
        schema::add_field(
            &mut fields,
            rows[i].0.as_str(),
            schema::text_value(rows[i].1.as_str()),
        );
        assert(text_fields(rows@).take(i as int).push(text_fields(rows@)[i as int])
            =~= text_fields(rows@).take(i + 1));
        i = i + 1;
    }
    assert(text_fields(rows@).take(rows@.len() as int) =~= text_fields(rows@));
    let value = schema::object(fields);
    json::print_pretty(&value)
}

/// Whether a value is an object of counts.
pub open spec fn holds_counts(value: json::JsonView) -> bool {
    value matches json::JsonView::Object(fields) && forall|i: int|
        0 <= i < fields.len() ==> (#[trigger] fields[i]).1 matches json::JsonView::Number(
            json::NumberView::Unsigned(_),
        )
}

/// Whether a value is an object of texts.
pub open spec fn holds_texts(value: json::JsonView) -> bool {
    value matches json::JsonView::Object(fields) && forall|i: int|
        0 <= i < fields.len() ==> (#[trigger] fields[i]).1 is Text
}

/// The last field with a name.
pub open spec fn last_place(fields: Seq<(Seq<char>, json::JsonView)>, name: Seq<char>) -> Option<int>
    decreases fields.len(),
{
    if fields.len() == 0 {
        None
    } else if fields.last().0 == name {
        Some(fields.len() - 1)
    } else {
        last_place(fields.drop_last(), name)
    }
}

/// The value of the last field with a name.
pub open spec fn last_value(fields: Seq<(Seq<char>, json::JsonView)>, name: Seq<char>) -> Option<
    json::JsonView,
>
    decreases fields.len(),
{
    if fields.len() == 0 {
        None
    } else if fields.last().0 == name {
        Some(fields.last().1)
    } else {
        last_value(fields.drop_last(), name)
    }
}

proof fn lemma_last_value(fields: Seq<(Seq<char>, json::JsonView)>, name: Seq<char>)
    ensures
        match last_place(fields, name) {
            Some(k) => 0 <= k < fields.len() && fields[k].0 == name && last_value(fields, name)
                == Some(fields[k].1),
            None => last_value(fields, name) is None && forall|i: int|
                0 <= i < fields.len() ==> (#[trigger] fields[i]).0 != name,
        },
    decreases fields.len(),
{
    if fields.len() > 0 && fields.last().0 != name {
        lemma_last_value(fields.drop_last(), name);
        if last_place(fields, name) is None {
            assert forall|i: int| 0 <= i < fields.len() implies (#[trigger] fields[i]).0 != name by {
                if i < fields.len() - 1 {
                    assert(fields.drop_last()[i].0 != name);
                }
            }
        }
    }
}

/// Whether a table holds the counts that the fields of an object hold; of
/// fields of one name the last counts.
pub open spec fn counted(t: Table<u64>, fields: Seq<(Seq<char>, json::JsonView)>) -> bool {
    forall|name: Seq<char>|
        #[trigger] t.has_name(name) == (last_value(fields, name) is Some) && (t.has_name(name)
            ==> last_value(fields, name) == Some(json::JsonView::Number(json::NumberView::Unsigned(t.at(name)))))
}

proof fn lemma_counted_step(
    before: Table<u64>,
    after: Table<u64>,
    fields: Seq<(Seq<char>, json::JsonView)>,
    i: int,
)
    requires
        0 <= i < fields.len(),
        counted(before, fields.take(i)),
        after.has_name(fields[i].0),
        fields[i].1 == json::JsonView::Number(json::NumberView::Unsigned(after.at(fields[i].0))),
        before.same_but_for(after, fields[i].0),
    ensures
        counted(after, fields.take(i + 1)),
{
    assert(fields.take(i + 1).drop_last() =~= fields.take(i));
    assert(fields.take(i + 1).last() == fields[i]);
    assert forall|name: Seq<char>|
        #[trigger] after.has_name(name) == (last_value(fields.take(i + 1), name) is Some) && (
        after.has_name(name) ==> last_value(fields.take(i + 1), name) == Some(
            json::JsonView::Number(json::NumberView::Unsigned(after.at(name))),
        )) by {
        if name != fields[i].0 {
            assert(after.has_name(name) == before.has_name(name));
        }
    }
}

/// Whether two tables hold the same counts.
pub open spec fn same_counts(a: Table<u64>, b: Table<u64>) -> bool {
    forall|name: Seq<char>|
        #[trigger] a.has_name(name) == b.has_name(name) && (a.has_name(name) ==> a.at(name)
            == b.at(name))
}

proof fn lemma_counted_saved(saved: Table<u64>, read: Table<u64>)
    requires
        saved.ordered(),
        counted(read, count_fields(saved.entries@)),
    ensures
        same_counts(read, saved),
{
    let fields = count_fields(saved.entries@);
    assert forall|name: Seq<char>|
        #[trigger] read.has_name(name) == saved.has_name(name) && (read.has_name(name) ==> read.at(
            name,
        ) == saved.at(name)) by {
        saved.lemma_row_from(name, 0);
        lemma_last_value(fields, name);
        if saved.has_name(name) {
            let i = saved.row(name)->0;
            assert(fields[i].0 == name);
            let k = last_place(fields, name)->0;
            assert(saved.entries@[k].0@ == name);
            Table::<u64>::lemma_unique(saved, i, k);
        }
        if read.has_name(name) {
            let k = last_place(fields, name)->0;
            assert(saved.entries@[k].0@ == name);
        }
    }
}

proof fn lemma_counts_are_plain(saved: Table<u64>)
    requires
        saved.ordered(),
    ensures
        json::plain(json::JsonView::Object(count_fields(saved.entries@)), json::PLAIN_DEPTH as nat),
{
    let fields = count_fields(saved.entries@);
    assert forall|i: int, j: int| 0 <= i < j < fields.len() implies table::before(
        (#[trigger] fields[i]).0,
        (#[trigger] fields[j]).0,
    ) by {
        assert(fields[i].0 == saved.entries@[i].0@);
        assert(fields[j].0 == saved.entries@[j].0@);
    }
    assert forall|i: int| 0 <= i < fields.len() implies json::plain(
        (#[trigger] fields[i]).1,
        (json::PLAIN_DEPTH - 1) as nat,
    ) by {
        assert(fields[i].1 == json::JsonView::Number(json::NumberView::Unsigned(saved.entries@[i].1)));
    }
}

fn read_counts(value: &Json) -> (r: Option<Table<u64>>)
    ensures
        match r {
            Some(t) => holds_counts(value@) && t.ordered() && counted(t, value@->Object_0),
            None => !holds_counts(value@),
        },
{
    match value {
        Json::Object(fields) => {
            let ghost all = schema::fields_view(fields@);
            assert(value@->Object_0 =~= all);
            let mut t: Table<u64> = Table::new();
            let mut i: usize = 0;
            assert(counted(t, all.take(0))) by {
                assert forall|name: Seq<char>| !(#[trigger] t.has_name(name)) by {
                    t.lemma_row_from(name, 0);
                }
            }
            while i < fields.len()
                invariant
                    i <= fields@.len(),
                    all == schema::fields_view(fields@),
                    value@ == json::JsonView::Object(all),
                    t.ordered(),
                    counted(t, all.take(i as int)),
                    forall|k: int| 0 <= k < i ==> (#[trigger] all[k]).1 matches json::JsonView::Number(json::NumberView::Unsigned(_)),
                decreases fields@.len() - i,
            {
                let ghost before = t;
                assert(all[i as int] == (fields@[i as int].0@, fields@[i as int].1@));
                match &fields[i].1 {
                    Json::Number(Number::Unsigned(n)) => {
                        t.insert(fields[i].0.clone(), *n);
                        proof {
                            lemma_counted_step(before, t, all, i as int);
                        }
                    },
                    _ => {
                        assert(!(all[i as int].1 matches json::JsonView::Number(json::NumberView::Unsigned(_))));
                        return None;
                    },
                }
                i = i + 1;
            }
            assert(all.take(all.len() as int) =~= all);
            Some(t)
        },
        _ => None,
    }
}

/// The sessions that were looked at, as they were written. What cannot be read
/// counts as nothing; what was saved is read back.
pub fn load_reflected(raw: Option<&str>) -> (r: Table<u64>)
    ensures
        r.ordered(),
        match raw {
            Some(s) => match json::parsed(s@) {
                Ok(v) => if holds_counts(v) {
                    counted(r, v->Object_0)
                } else {
                    r.entries@.len() == 0
                },
                Err(_) => r.entries@.len() == 0,
            },
            None => r.entries@.len() == 0,
        },
        forall|saved: Table<u64>|
            #![trigger count_fields(saved.entries@)]
            saved.ordered() && (raw matches Some(s) && s@ == json::printed_pretty(
                json::JsonView::Object(count_fields(saved.entries@)),
            )) ==> same_counts(r, saved),
{
    let source = match raw {
        Some(s) => s,
        None => {
            return Table::new();
        },
    };
    let result = json::parse(source);
    let r = match &result {
        Ok(v) => match read_counts(v) {
            Some(t) => t,
            None => Table::new(),
        },
        Err(_) => Table::new(),
    };
    proof {
        assert forall|saved: Table<u64>|
            #![trigger count_fields(saved.entries@)]
            saved.ordered() && source@ == json::printed_pretty(
                json::JsonView::Object(count_fields(saved.entries@)),
            ) implies same_counts(r, saved) by {
            let v = json::JsonView::Object(count_fields(saved.entries@));
            lemma_counts_are_plain(saved);
            assert(holds_counts(v));
            lemma_counted_saved(saved, r);
        }
    }
    r
}

/// Whether a table holds the texts that the fields of an object hold; of
/// fields of one name the last counts.
pub open spec fn marked(t: Table<String>, fields: Seq<(Seq<char>, json::JsonView)>) -> bool {
    forall|name: Seq<char>|
        #[trigger] t.has_name(name) == (last_value(fields, name) is Some) && (t.has_name(name)
            ==> last_value(fields, name) == Some(json::JsonView::Text(t.at(name)@)))
}

proof fn lemma_marked_step(
    before: Table<String>,
    after: Table<String>,
    fields: Seq<(Seq<char>, json::JsonView)>,
    i: int,
)
    requires
        0 <= i < fields.len(),
        marked(before, fields.take(i)),
        after.has_name(fields[i].0),
        fields[i].1 == json::JsonView::Text(after.at(fields[i].0)@),
        before.same_but_for(after, fields[i].0),
    ensures
        marked(after, fields.take(i + 1)),
{
    assert(fields.take(i + 1).drop_last() =~= fields.take(i));
    assert(fields.take(i + 1).last() == fields[i]);
    assert forall|name: Seq<char>|
        #[trigger] after.has_name(name) == (last_value(fields.take(i + 1), name) is Some) && (
        after.has_name(name) ==> last_value(fields.take(i + 1), name) == Some(
            json::JsonView::Text(after.at(name)@),
        )) by {
        if name != fields[i].0 {
            assert(after.has_name(name) == before.has_name(name));
        }
    }
}

/// Whether two tables hold the same texts.
pub open spec fn same_marks(a: Table<String>, b: Table<String>) -> bool {
    forall|name: Seq<char>|
        #[trigger] a.has_name(name) == b.has_name(name) && (a.has_name(name) ==> a.at(name)@
            == b.at(name)@)
}

proof fn lemma_marked_saved(saved: Table<String>, read: Table<String>)
    requires
        saved.ordered(),
        marked(read, text_fields(saved.entries@)),
    ensures
        same_marks(read, saved),
{
    let fields = text_fields(saved.entries@);
    assert forall|name: Seq<char>|
        #[trigger] read.has_name(name) == saved.has_name(name) && (read.has_name(name) ==> read.at(
            name,
        )@ == saved.at(name)@) by {
        saved.lemma_row_from(name, 0);
        lemma_last_value(fields, name);
        if saved.has_name(name) {
            let i = saved.row(name)->0;
            assert(fields[i].0 == name);
            let k = last_place(fields, name)->0;
            assert(saved.entries@[k].0@ == name);
            Table::<String>::lemma_unique(saved, i, k);
        }
        if read.has_name(name) {
            let k = last_place(fields, name)->0;
            assert(saved.entries@[k].0@ == name);
        }
    }
}

proof fn lemma_marks_are_plain(saved: Table<String>)
    requires
        saved.ordered(),
    ensures
        json::plain(json::JsonView::Object(text_fields(saved.entries@)), json::PLAIN_DEPTH as nat),
{
    let fields = text_fields(saved.entries@);
    assert forall|i: int, j: int| 0 <= i < j < fields.len() implies table::before(
        (#[trigger] fields[i]).0,
        (#[trigger] fields[j]).0,
    ) by {
        assert(fields[i].0 == saved.entries@[i].0@);
        assert(fields[j].0 == saved.entries@[j].0@);
    }
    assert forall|i: int| 0 <= i < fields.len() implies json::plain(
        (#[trigger] fields[i]).1,
        (json::PLAIN_DEPTH - 1) as nat,
    ) by {
        assert(fields[i].1 == json::JsonView::Text(saved.entries@[i].1@));
    }
}

fn read_texts(value: &Json) -> (r: Option<Table<String>>)
    ensures
        match r {
            Some(t) => holds_texts(value@) && t.ordered() && marked(t, value@->Object_0),
            None => !holds_texts(value@),
        },
{
    match value {
        Json::Object(fields) => {
            let ghost all = schema::fields_view(fields@);
            assert(value@->Object_0 =~= all);
            let mut t: Table<String> = Table::new();
            let mut i: usize = 0;
            assert(marked(t, all.take(0))) by {
                assert forall|name: Seq<char>| !(#[trigger] t.has_name(name)) by {
                    t.lemma_row_from(name, 0);
                }
            }
            while i < fields.len()
                invariant
                    i <= fields@.len(),
                    all == schema::fields_view(fields@),
                    value@ == json::JsonView::Object(all),
                    t.ordered(),
                    marked(t, all.take(i as int)),
                    forall|k: int| 0 <= k < i ==> (#[trigger] all[k]).1 is Text,
                decreases fields@.len() - i,
            {
                let ghost before = t;
                assert(all[i as int] == (fields@[i as int].0@, fields@[i as int].1@));
                match &fields[i].1 {
                    Json::Text(s) => {
                        t.insert(fields[i].0.clone(), s.clone());
                        proof {
                            lemma_marked_step(before, t, all, i as int);
                        }
                    },
                    _ => {
                        assert(!(all[i as int].1 is Text));
                        return None;
                    },
                }
                i = i + 1;
            }
            assert(all.take(all.len() as int) =~= all);
            Some(t)
        },
        _ => None,
    }
}

/// The last commit that was looked at in each repository, as it was written.
/// What cannot be read counts as nothing; what was saved is read back.
pub fn load_git_marks(raw: Option<&str>) -> (r: Table<String>)
    ensures
        r.ordered(),
        match raw {
            Some(s) => match json::parsed(s@) {
                Ok(v) => if holds_texts(v) {
                    marked(r, v->Object_0)
                } else {
                    r.entries@.len() == 0
                },
                Err(_) => r.entries@.len() == 0,
            },
            None => r.entries@.len() == 0,
        },
        forall|saved: Table<String>|
            #![trigger text_fields(saved.entries@)]
            saved.ordered() && (raw matches Some(s) && s@ == json::printed_pretty(
                json::JsonView::Object(text_fields(saved.entries@)),
            )) ==> same_marks(r, saved),
{
    let source = match raw {
        Some(s) => s,
        None => {
            return Table::new();
        },
    };
    let result = json::parse(source);
    let r = match &result {
        Ok(v) => match read_texts(v) {
            Some(t) => t,
            None => Table::new(),
        },
        Err(_) => Table::new(),
    };
    proof {
        assert forall|saved: Table<String>|
            #![trigger text_fields(saved.entries@)]
            saved.ordered() && source@ == json::printed_pretty(
                json::JsonView::Object(text_fields(saved.entries@)),
            ) implies same_marks(r, saved) by {
            let v = json::JsonView::Object(text_fields(saved.entries@));
            lemma_marks_are_plain(saved);
            assert(holds_texts(v));
            lemma_marked_saved(saved, r);
        }
    }
    r
}

} // verus!
