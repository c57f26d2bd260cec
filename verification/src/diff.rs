//! File changes made by tools, recorded so that they can be shown and undone.
//!
//! Before a tool that can change files runs, the files that its arguments
//! name are read; afterwards they are read again, and each that differs is
//! recorded with a unified diff and its earlier state.

use vstd::prelude::*;
use vstd::string::*;

use crate::json;
use crate::json::Json;
use crate::numbers;
use crate::text;

verus! {

/// Larger files are not read for this, in bytes.
pub const MAX_SNAPSHOT_BYTES: u64 = 1_000_000;

/// A file's state before a change, kept so that the change can be undone.
pub enum Snapshot {
    /// Nothing to restore: the file could not be read when it was recorded.
    Unavailable,
    /// The file did not exist.
    Absent,
    /// The file's content.
    Content(String),
}

/// What a recorded state stands for.
pub enum SnapshotView {
    Unavailable,
    Absent,
    Content(Seq<char>),
}

impl View for Snapshot {
    type V = SnapshotView;

    open spec fn view(&self) -> SnapshotView {
        match self {
            Snapshot::Unavailable => SnapshotView::Unavailable,
            Snapshot::Absent => SnapshotView::Absent,
            Snapshot::Content(s) => SnapshotView::Content(s@),
        }
    }
}

impl Clone for Snapshot {
    fn clone(&self) -> (r: Snapshot)
        ensures
            r@ == self@,
    {
        match self {
            Snapshot::Unavailable => Snapshot::Unavailable,
            Snapshot::Absent => Snapshot::Absent,
            Snapshot::Content(s) => Snapshot::Content(s.clone()),
        }
    }
}

/// One recorded change.
pub struct DiffEntry {
    /// Advertised name of the tool that made the change.
    pub tool: String,
    pub path: String,
    /// Unified diff with `a/<path>` and `b/<path>` headers.
    pub unified: String,
    pub added: usize,
    pub removed: usize,
    /// The state before the change.
    pub before: Snapshot,
}

/// What a recorded change stands for.
pub struct DiffView {
    pub tool: Seq<char>,
    pub path: Seq<char>,
    pub unified: Seq<char>,
    pub added: nat,
    pub removed: nat,
    pub before: SnapshotView,
}

impl View for DiffEntry {
    type V = DiffView;

    open spec fn view(&self) -> DiffView {
        DiffView {
            tool: self.tool@,
            path: self.path@,
            unified: self.unified@,
            added: self.added as nat,
            removed: self.removed as nat,
            before: self.before@,
        }
    }
}

impl Clone for DiffEntry {
    fn clone(&self) -> (r: DiffEntry)
        ensures
            r@ == self@,
    {
        DiffEntry {
            tool: self.tool.clone(),
            path: self.path.clone(),
            unified: self.unified.clone(),
            added: self.added,
            removed: self.removed,
            before: self.before.clone(),
        }
    }
}

/// The views of recorded changes.
pub open spec fn diffs_view(list: Seq<DiffEntry>) -> Seq<DiffView> {
    Seq::new(list.len(), |i: int| list[i]@)
}

impl DiffEntry {
    /// The change as a list shows it.
    pub fn title(&self) -> (r: String)
        ensures
            r@ == self.path@ + " (+"@ + numbers::decimal_spec(self.added as nat) + " −"@
                + numbers::decimal_spec(self.removed as nat) + ")"@,
    {
        let mut r = text::cat4(
            self.path.as_str(),
            " (+",
            numbers::decimal_len(self.added).as_str(),
            " −",
        );
        r.append(numbers::decimal_len(self.removed).as_str());
        r.append(")");
        r
    }

    /// Whether the change can be undone.
    pub fn restorable(&self) -> (r: bool)
        ensures
            r == !(self@.before is Unavailable),
    {
        match self.before {
            Snapshot::Unavailable => false,
            _ => true,
        }
    }
}

// ---------------------------------------------------------------------------
// Paths
// ---------------------------------------------------------------------------

/// The argument names that may name a file which the tool touches.
pub open spec fn path_keys() -> Seq<Seq<char>> {
    seq![
        "path"@,
        "file_path"@,
        "filepath"@,
        "filename"@,
        "file"@,
        "source"@,
        "destination"@,
        "target_path"@,
        "output_path"@,
    ]
}

fn path_key_list() -> (r: Vec<String>)
    ensures
        text::views(r@) == path_keys(),
{
    let mut r: Vec<String> = Vec::new();
    r.push("path".to_owned());
    r.push("file_path".to_owned());
    r.push("filepath".to_owned());
    r.push("filename".to_owned());
    r.push("file".to_owned());
    r.push("source".to_owned());
    r.push("destination".to_owned());
    r.push("target_path".to_owned());
    r.push("output_path".to_owned());
    assert(text::views(r@) =~= path_keys());
    r
}

/// The paths in the arguments under these names, each once.
pub open spec fn paths_under(arguments: json::JsonView, keys: Seq<Seq<char>>) -> Seq<Seq<char>>
    decreases keys.len(),
{
    if keys.len() == 0 {
        seq![]
    } else {
        let rest = paths_under(arguments, keys.drop_last());
        match arguments.text_field(keys.last()) {
            Some(path) => if rest.contains(path) {
                rest
            } else {
                rest.push(path)
            },
            None => rest,
        }
    }
}

/// The file paths that a call's arguments may name, each once.
pub fn extract_paths(arguments: &Json) -> (r: Vec<String>)
    ensures
        text::views(r@) == paths_under(arguments@, path_keys()),
{
    let keys = path_key_list();
    let ghost all = path_keys();
    let mut out: Vec<String> = Vec::new();
    let mut i: usize = 0;
    assert(text::views(out@) =~= seq![]);
    while i < keys.len()
        invariant
            i <= keys@.len(),
            all == text::views(keys@),
            text::views(out@) == paths_under(arguments@, all.take(i as int)),
        decreases keys@.len() - i,
    {
        assert(all.take(i + 1).drop_last() =~= all.take(i as int));
        assert(all.take(i + 1).last() == keys@[i as int]@);
        match arguments.text_field(keys[i].as_str()) {
            Some(path) => {
                if !text::listed(&out, path) {
                    text::add_text(&mut out, path.to_owned());
                }
            },
            None => {},
        }
        i = i + 1;
    }
    assert(all.take(keys@.len() as int) =~= all);
    out
}

// ---------------------------------------------------------------------------
// Diffs
// ---------------------------------------------------------------------------

/// What a diff says of a line.
#[derive(Debug, Clone, Copy, PartialEq, Eq, Structural)]
pub enum LineTag {
    Equal,
    Insert,
    Delete,
}

/// The tags of a line diff between two texts, line by line.
pub uninterp spec fn line_tags(old_text: Seq<char>, new_text: Seq<char>) -> Seq<LineTag>;

/// The unified form of a line diff between two texts, with the given context
/// and headers.
pub uninterp spec fn unified_form(
    old_text: Seq<char>,
    new_text: Seq<char>,
    context: usize,
    old_name: Seq<char>,
    new_name: Seq<char>,
) -> Seq<char>;

/// Calls `similar::TextDiff::from_lines` and reads the tag of each change of
/// `iter_all_changes`. The claim: the tags depend on the two texts alone, for
/// no deadline is set. Which of several shortest diffs is taken is named and
/// not stated.
#[verifier::external_body]
fn changed_lines(old_text: &str, new_text: &str) -> (r: Vec<LineTag>)
    ensures
        r@ == line_tags(old_text@, new_text@),
{
    similar::TextDiff::from_lines(old_text, new_text)
        .iter_all_changes()
        .map(|change| match change.tag() {
            similar::ChangeTag::Equal => LineTag::Equal,
            similar::ChangeTag::Insert => LineTag::Insert,
            similar::ChangeTag::Delete => LineTag::Delete,
        })
        .collect()
}

/// Calls `similar::TextDiff::unified_diff` with a context radius and a
/// header. The claim: the text depends on the two texts, the radius and the
/// two header names alone. Its format is named and not stated. The radius is
/// doubled on the way, so that a larger one is not admitted.
#[verifier::external_body]
fn unified_text(
    old_text: &str,
    new_text: &str,
    context: usize,
    old_name: &str,
    new_name: &str,
) -> (r: String)
    requires
        context <= usize::MAX / 2,
    ensures
        r@ == unified_form(old_text@, new_text@, context, old_name@, new_name@),
{
    similar::TextDiff::from_lines(old_text, new_text)
        .unified_diff()
        .context_radius(context)
        .header(old_name, new_name)
        .to_string()
}

/// How often a tag occurs.
pub open spec fn tag_count(tags: Seq<LineTag>, tag: LineTag) -> nat
    decreases tags.len(),
{
    if tags.len() == 0 {
        0
    } else {
        tag_count(tags.drop_last(), tag) + if tags.last() == tag {
            1nat
        } else {
            0nat
        }
    }
}

/// A path without the slashes that it starts with.
pub open spec fn relative_spec(path: Seq<char>) -> Seq<char>
    decreases path.len(),
{
    if path.len() > 0 && path[0] == '/' {
        relative_spec(path.skip(1))
    } else {
        path
    }
}

fn relative(path: &str) -> (r: String)
    ensures
        r@ == relative_spec(path@),
{
    let v = text::chars(path);
    let mut i: usize = 0;
    assert(path@.skip(0) =~= path@);
    while i < v.len() && v[i] == '/'
        invariant
            i <= v@.len(),
            v@ == path@,
            relative_spec(path@) == relative_spec(path@.skip(i as int)),
        decreases v@.len() - i,
    {
        assert(path@.skip(i as int).skip(1) =~= path@.skip(i + 1));
        i = i + 1;
    }
    let r = text::text_range(v.as_slice(), i, v.len());
    assert(r@ =~= path@.skip(i as int));
    r
}

/// A text, or an empty one.
pub open spec fn text_or_nothing(s: Option<Seq<char>>) -> Seq<char> {
    match s {
        Some(s) => s,
        None => ""@,
    }
}

/// The record of a change from one content to another.
pub open spec fn computed(
    tool: Seq<char>,
    path: Seq<char>,
    before: Option<Seq<char>>,
    after: Option<Seq<char>>,
) -> DiffView {
    let old_text = text_or_nothing(before);
    let new_text = text_or_nothing(after);
    let tags = line_tags(old_text, new_text);
    DiffView {
        tool,
        path,
        unified: unified_form(
            old_text,
            new_text,
            3,
            "a/"@ + relative_spec(path),
            "b/"@ + relative_spec(path),
        ),
        added: tag_count(tags, LineTag::Insert),
        removed: tag_count(tags, LineTag::Delete),
        before: match before {
            Some(s) => SnapshotView::Content(s),
            None => SnapshotView::Absent,
        },
    }
}

/// The view of an optional text.
pub open spec fn optional(s: Option<&str>) -> Option<Seq<char>> {
    match s {
        Some(s) => Some(s@),
        None => None,
    }
}

/// How many lines of a diff were added and removed, given its tags.
pub fn count_changes(tags: &Vec<LineTag>) -> (r: (usize, usize))
    ensures
        r.0 == tag_count(tags@, LineTag::Insert),
        r.1 == tag_count(tags@, LineTag::Delete),
{
    let mut added: usize = 0;
    let mut removed: usize = 0;
    let mut i: usize = 0;
    let n: usize = tags.len();
    while i < n
        invariant
            i <= n,
            n == tags@.len(),
            added <= i,
            removed <= i,
            added == tag_count(tags@.take(i as int), LineTag::Insert),
            removed == tag_count(tags@.take(i as int), LineTag::Delete),
        decreases n - i,
    {
        assert(tags@.take(i + 1).drop_last() =~= tags@.take(i as int));
        assert(tags@.take(i + 1).last() == tags@[i as int]);
        match tags[i] {
            LineTag::Insert => {
                added = added + 1;
            },
            LineTag::Delete => {
                removed = removed + 1;
            },
            LineTag::Equal => {},
        }
        i = i + 1;
    }
    assert(tags@.take(n as int) =~= tags@);
    (added, removed)
}

/// Record a change from one content to another; a file that is not there has
/// none.
pub fn compute(tool: &str, path: &str, before: Option<&str>, after: Option<&str>) -> (r: DiffEntry)
    ensures
        r@ == computed(tool@, path@, optional(before), optional(after)),
{
    let old_text = match before {
        Some(s) => s,
        None => "",
    };
    let new_text = match after {
        Some(s) => s,
        None => "",
    };
    let tags = changed_lines(old_text, new_text);
    let (added, removed): (usize, usize) = count_changes(&tags);
    let rel = relative(path);
    let old_name = text::cat2("a/", rel.as_str());
    let new_name = text::cat2("b/", rel.as_str());
    let unified = unified_text(old_text, new_text, 3, old_name.as_str(), new_name.as_str());
    DiffEntry {
        tool: tool.to_owned(),
        path: path.to_owned(),
        unified,
        added,
        removed,
        before: match before {
            Some(s) => Snapshot::Content(s.to_owned()),
            None => Snapshot::Absent,
        },
    }
}

// ---------------------------------------------------------------------------
// Snapshots
// ---------------------------------------------------------------------------

/// Whether a file's content is read for a snapshot.
pub fn snapshot_allowed(is_file: bool, bytes: u64) -> (r: bool)
    ensures
        r == (is_file && bytes <= MAX_SNAPSHOT_BYTES),
{
    is_file && bytes <= MAX_SNAPSHOT_BYTES
}

/// What reading a file gave: its text where it could be read as one, and
/// whether it exists.
pub struct FileState {
    pub content: Option<String>,
    pub exists: bool,
}

/// The text of a file that was read.
pub open spec fn file_text(state: FileState) -> Option<Seq<char>> {
    match state.content {
        Some(s) => Some(s@),
        None => None,
    }
}

/// The recorded state of a file. One that exists but resists reading is
/// never taken for absent.
pub open spec fn recorded(state: FileState) -> SnapshotView {
    match state.content {
        Some(s) => SnapshotView::Content(s@),
        None => if state.exists {
            SnapshotView::Unavailable
        } else {
            SnapshotView::Absent
        },
    }
}

fn record(state: &FileState) -> (r: Snapshot)
    ensures
        r@ == recorded(*state),
{
    match &state.content {
        Some(s) => Snapshot::Content(s.clone()),
        None => if state.exists {
            Snapshot::Unavailable
        } else {
            Snapshot::Absent
        },
    }
}

/// The states of files as they are recorded: for each path, in order, the
/// path and what was read there.
pub fn snapshot(states: &Vec<(String, FileState)>) -> (r: Vec<(String, Snapshot)>)
    ensures
        r@.len() == states@.len(),
        forall|i: int|
            0 <= i < states@.len() ==> (#[trigger] r@[i]).0@ == states@[i].0@ && r@[i].1@
                == recorded(states@[i].1),
{
    let mut out: Vec<(String, Snapshot)> = Vec::new();
    let mut i: usize = 0;
    while i < states.len()
        invariant
            i <= states@.len(),
            out@.len() == i,
            forall|k: int|
                0 <= k < i ==> (#[trigger] out@[k]).0@ == states@[k].0@ && out@[k].1@ == recorded(
                    states@[k].1,
                ),
        decreases states@.len() - i,
    {
        out.push((states[i].0.clone(), record(&states[i].1)));
        i = i + 1;
    }
    out
}

/// The content of a recorded state.
pub open spec fn snapshot_text(s: SnapshotView) -> Option<Seq<char>> {
    match s {
        SnapshotView::Content(text) => Some(text),
        _ => None,
    }
}

/// The record of a change, if there is one, between a recorded state and
/// what is read now.
pub open spec fn change_of(
    tool: Seq<char>,
    path: Seq<char>,
    before: SnapshotView,
    after: Option<Seq<char>>,
) -> Option<DiffView> {
    let changed = match (before, after) {
        (SnapshotView::Content(old_text), Some(now)) => old_text != now,
        (SnapshotView::Content(_), None) => true,
        (_, Some(_)) => true,
        (_, None) => false,
    };
    if changed {
        Some(DiffView { before, ..computed(tool, path, snapshot_text(before), after) })
    } else {
        None
    }
}

/// A file to look at after a call: its path, its state before, and the text
/// that is read now.
pub struct Watched {
    pub path: String,
    pub before: Snapshot,
    pub after: Option<String>,
}

/// The view of the text that is read now.
pub open spec fn text_now(w: Watched) -> Option<Seq<char>> {
    match w.after {
        Some(s) => Some(s@),
        None => None,
    }
}

/// The records of the files that changed.
pub open spec fn changes_spec(tool: Seq<char>, files: Seq<Watched>) -> Seq<DiffView>
    decreases files.len(),
{
    if files.len() == 0 {
        seq![]
    } else {
        let rest = changes_spec(tool, files.drop_last());
        let w = files.last();
        match change_of(tool, w.path@, w.before@, text_now(w)) {
            Some(entry) => rest.push(entry),
            None => rest,
        }
    }
}

fn change(tool: &str, w: &Watched) -> (r: Option<DiffEntry>)
    ensures
        match r {
            Some(entry) => change_of(tool@, w.path@, w.before@, text_now(*w)) == Some(entry@),
            None => change_of(tool@, w.path@, w.before@, text_now(*w)) is None,
        },
{
    let after: Option<&str> = match &w.after {
        Some(s) => Some(s.as_str()),
        None => None,
    };
    let before: Option<&str> = match &w.before {
        Snapshot::Content(s) => Some(s.as_str()),
        _ => None,
    };
    let changed = match after {
        Some(now) => match before {
            Some(old_text) => !text::same(old_text, now),
            None => true,
        },
        None => before.is_some(),
    };
    if !changed {
        return None;
    }
    let mut entry = compute(tool, w.path.as_str(), before, after);
    entry.before = w.before.clone();
    Some(entry)
}

/// Record each of the files that a call changed.
pub fn collect_changes(tool: &str, files: &Vec<Watched>) -> (r: Vec<DiffEntry>)
    ensures
        diffs_view(r@) == changes_spec(tool@, files@),
{
    let mut out: Vec<DiffEntry> = Vec::new();
    let mut i: usize = 0;
    assert(diffs_view(out@) =~= seq![]);
    while i < files.len()
        invariant
            i <= files@.len(),
            diffs_view(out@) == changes_spec(tool@, files@.take(i as int)),
        decreases files@.len() - i,
    {
        assert(files@.take(i + 1).drop_last() =~= files@.take(i as int));
        assert(files@.take(i + 1).last() == files@[i as int]);
        match change(tool, &files[i]) {
            Some(entry) => {
                let ghost before = out@;
                let ghost added = entry@;
                out.push(entry);
                assert(diffs_view(out@) =~= diffs_view(before).push(added));
            },
            None => {},
        }
        i = i + 1;
    }
    assert(files@.take(files@.len() as int) =~= files@);
    out
}

// ---------------------------------------------------------------------------
// Restoring
// ---------------------------------------------------------------------------

/// How a file is put back.
#[allow(inconsistent_fields)]
pub enum RestorePlan {
    /// It already is in the recorded state.
    Nothing,
    /// It is written with this content; the record undoes that.
    Write { content: String, reverse: DiffEntry },
    /// It is removed; the record undoes that.
    Remove { reverse: DiffEntry },
}

/// What a plan stands for.
#[allow(inconsistent_fields)]
pub enum RestoreView {
    Nothing,
    Write { content: Seq<char>, reverse: DiffView },
    Remove { reverse: DiffView },
}

impl View for RestorePlan {
    type V = RestoreView;

    open spec fn view(&self) -> RestoreView {
        match self {
            RestorePlan::Nothing => RestoreView::Nothing,
            RestorePlan::Write { content, reverse } => RestoreView::Write {
                content: content@,
                reverse: reverse@,
            },
            RestorePlan::Remove { reverse } => RestoreView::Remove { reverse: reverse@ },
        }
    }
}

/// The record of putting a file back.
pub open spec fn reverse_of(path: Seq<char>, state: FileState, target: Option<Seq<char>>) -> DiffView {
    DiffView {
        before: recorded(state),
        ..computed("rewind"@, path, file_text(state), target)
    }
}

/// How a file is put back into a recorded state, given what it is now.
pub open spec fn restore_spec(entry: DiffView, state: FileState) -> Result<
    RestoreView,
    Seq<char>,
> {
    match entry.before {
        SnapshotView::Unavailable => Err(
            "`"@ + entry.path
                + "` has no restore data (recorded before restore support, or unreadable)"@,
        ),
        SnapshotView::Absent => if !state.exists {
            Ok(RestoreView::Nothing)
        } else {
            Ok(RestoreView::Remove { reverse: reverse_of(entry.path, state, None) })
        },
        SnapshotView::Content(content) => if file_text(state) == Some(content) {
            Ok(RestoreView::Nothing)
        } else {
            Ok(
                RestoreView::Write {
                    content,
                    reverse: reverse_of(entry.path, state, Some(content)),
                },
            )
        },
    }
}

fn reverse_entry(path: &str, state: &FileState, target: Option<&str>) -> (r: DiffEntry)
    ensures
        r@ == reverse_of(path@, *state, optional(target)),
{
    let current: Option<&str> = match &state.content {
        Some(s) => Some(s.as_str()),
        None => None,
    };
    let mut reverse = compute("rewind", path, current, target);
    reverse.before = record(state);
    reverse
}

/// Decide how a file is put back into an entry's recorded state. The reverse
/// record makes the restore itself undoable.
pub fn restore(entry: &DiffEntry, state: &FileState) -> (r: Result<RestorePlan, String>)
    ensures
        match r {
            Ok(plan) => restore_spec(entry@, *state) == Ok::<RestoreView, Seq<char>>(plan@),
            Err(e) => restore_spec(entry@, *state) == Err::<RestoreView, Seq<char>>(e@),
        },
{
    match &entry.before {
        Snapshot::Unavailable => Err(
            text::cat3(
                "`",
                entry.path.as_str(),
                "` has no restore data (recorded before restore support, or unreadable)",
            ),
        ),
        Snapshot::Absent => {
            if !state.exists {
                return Ok(RestorePlan::Nothing);
            }
            let reverse = reverse_entry(entry.path.as_str(), state, None);
            Ok(RestorePlan::Remove { reverse })
        },
        Snapshot::Content(content) => {
            let matches_now = match &state.content {
                Some(now) => text::same(now.as_str(), content.as_str()),
                None => false,
            };
            if matches_now {
                return Ok(RestorePlan::Nothing);
            }
            let reverse = reverse_entry(entry.path.as_str(), state, Some(content.as_str()));
            Ok(RestorePlan::Write { content: content.clone(), reverse })
        },
    }
}

/// The state of a file once a plan was carried out.
pub open spec fn state_after(plan: RestoreView, before: SnapshotView) -> SnapshotView {
    match plan {
        RestoreView::Nothing => before,
        RestoreView::Write { content, .. } => SnapshotView::Content(content),
        RestoreView::Remove { .. } => SnapshotView::Absent,
    }
}

/// Files that are found as they were recorded leave no record of a change,
/// those that resist reading among them.
pub proof fn law_untouched_files_leave_no_record(
    tool: Seq<char>,
    states: Seq<(String, FileState)>,
    files: Seq<Watched>,
)
    requires
        files.len() == states.len(),
        forall|i: int|
            0 <= i < files.len() ==> (#[trigger] files[i]).before@ == recorded(states[i].1)
                && text_now(files[i]) == file_text(states[i].1),
    ensures
        changes_spec(tool, files).len() == 0,
    decreases files.len(),
{
    if files.len() > 0 {
        let fewer = files.drop_last();
        assert forall|i: int| 0 <= i < fewer.len() implies (#[trigger] fewer[i]).before@
            == recorded(states.drop_last()[i].1) && text_now(fewer[i]) == file_text(
            states.drop_last()[i].1,
        ) by {
            assert(fewer[i] == files[i]);
        }
        law_untouched_files_leave_no_record(tool, states.drop_last(), fewer);
        assert(files[files.len() - 1].before@ == recorded(states[files.len() - 1].1));
    }
}

/// Restoring puts a file into the recorded state.
pub proof fn law_restore_reaches_the_recorded_state(entry: DiffView, state: FileState)
    requires
        restore_spec(entry, state) is Ok,
        state.content is Some ==> state.exists,
    ensures
        state_after(restore_spec(entry, state)->Ok_0, recorded(state)) == entry.before,
{
}

/// Restoring a restore brings back what was there: the reverse record, taken
/// on the restored file, leads to the state before the restore.
pub proof fn law_restores_can_be_undone(entry: DiffView, state: FileState, then: FileState)
    requires
        restore_spec(entry, state) matches Ok(plan) && !(plan is Nothing),
        !(recorded(state) is Unavailable),
        recorded(then) == entry.before,
        then.content is Some ==> then.exists,
    ensures
        ({
            let reverse = match restore_spec(entry, state)->Ok_0 {
                RestoreView::Write { reverse, .. } => reverse,
                RestoreView::Remove { reverse } => reverse,
                RestoreView::Nothing => entry,
            };
            &&& reverse.path == entry.path
            &&& restore_spec(reverse, then) is Ok
            &&& state_after(restore_spec(reverse, then)->Ok_0, recorded(then)) == recorded(state)
        }),
{
}

/// A file that exists is never removed by a restore unless it was recorded
/// as absent.
pub proof fn law_restores_remove_only_created_files(entry: DiffView, state: FileState)
    requires
        restore_spec(entry, state) matches Ok(plan) && plan is Remove,
    ensures
        entry.before is Absent,
{
}

/// The entries to restore in order to undo a list of changes: for each path,
/// the earliest that can be restored.
pub open spec fn earliest(diffs: Seq<DiffView>) -> Seq<DiffView>
    decreases diffs.len(),
{
    if diffs.len() == 0 {
        seq![]
    } else {
        let rest = earliest(diffs.drop_last());
        let entry = diffs.last();
        if !(entry.before is Unavailable) && forall|i: int|
            0 <= i < rest.len() ==> (#[trigger] rest[i]).path != entry.path {
            rest.push(entry)
        } else {
            rest
        }
    }
}

/// The changes from a position on.
pub open spec fn since(diffs: Seq<DiffView>, from: nat) -> Seq<DiffView> {
    if from < diffs.len() {
        diffs.skip(from as int)
    } else {
        seq![]
    }
}

/// The entries to restore in order to undo everything from a position on:
/// for each path touched there, the earliest that can be restored.
pub fn earliest_restorable_since(diffs: &Vec<DiffEntry>, from: usize) -> (r: Vec<DiffEntry>)
    ensures
        diffs_view(r@) == earliest(since(diffs_view(diffs@), from as nat)),
{
    let ghost all = since(diffs_view(diffs@), from as nat);
    let mut targets: Vec<DiffEntry> = Vec::new();
    assert(diffs_view(targets@) =~= seq![]);
    if from >= diffs.len() {
        return targets;
    }
    let mut i: usize = from;
    assert(all.take(0) =~= seq![]);
    while i < diffs.len()
        invariant
            from <= i <= diffs@.len(),
            from < diffs@.len(),
            all == diffs_view(diffs@).skip(from as int),
            diffs_view(targets@) == earliest(all.take(i - from)),
        decreases diffs@.len() - i,
    {
        assert(all.take(i + 1 - from).drop_last() =~= all.take(i - from));
        assert(all.take(i + 1 - from).last() == diffs@[i as int]@);
        let entry = &diffs[i];
        if entry.restorable() && !has_path(&targets, entry.path.as_str()) {
            let ghost before = targets@;
            targets.push(entry.clone());
            assert(diffs_view(targets@) =~= diffs_view(before).push(entry@));
        }
        i = i + 1;
    }
    assert(all.take(diffs@.len() - from) =~= all);
    targets
}

fn has_path(list: &Vec<DiffEntry>, path: &str) -> (r: bool)
    ensures
        r == !(forall|i: int|
            0 <= i < list@.len() ==> (#[trigger] diffs_view(list@)[i]).path != path@),
{
    let ghost views = diffs_view(list@);
    let mut i: usize = 0;
    while i < list.len()
        invariant
            i <= list@.len(),
            views == diffs_view(list@),
            forall|k: int| 0 <= k < i ==> (#[trigger] views[k]).path != path@,
        decreases list@.len() - i,
    {
        assert(views[i as int].path == list@[i as int].path@);
        if text::same(list[i].path.as_str(), path) {
            assert(diffs_view(list@)[i as int].path == path@);
            return true;
        }
        i = i + 1;
    }
    false
}

/// Undoing touches each path once.
pub proof fn law_each_path_is_restored_once(diffs: Seq<DiffView>, i: int, j: int)
    requires
        0 <= i < j < earliest(diffs).len(),
    ensures
        earliest(diffs)[i].path != earliest(diffs)[j].path,
    decreases diffs.len(),
{
    let rest = earliest(diffs.drop_last());
    if j < rest.len() {
        law_each_path_is_restored_once(diffs.drop_last(), i, j);
    } else {
        assert(rest[i].path != diffs.last().path);
    }
}

} // verus!
