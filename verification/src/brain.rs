//! The brain: memories that outlive a run. One file is always in context; it
//! holds notes by hand and a managed index, a line per memory. The memories
//! themselves are files beside it, read on demand.

use vstd::prelude::*;
use vstd::string::*;

use crate::block;
use crate::find;
use crate::json;
use crate::json::Json;
use crate::model;
use crate::model::ToolDefinition;
use crate::named;
use crate::named::Named;
use crate::numbers;
use crate::paths;
use crate::schema;
use crate::schema::Property;
use crate::skills;
use crate::slug;
use crate::text;
use crate::text_laws;

verus! {

/// The file that is always in context.
pub const INDEX_FILE: &'static str = "BRAIN.md";

/// Where the index begins.
pub const INDEX_START: &'static str = "<!-- soa:brain:index:start — managed by soa; edit outside this block -->";

/// Where the index ends.
pub const INDEX_END: &'static str = "<!-- soa:brain:index:end -->";

/// Characters of a description at most.
pub const MAX_DESCRIPTION_CHARS: usize = 200;

/// Characters of a memory at most.
pub const MAX_CONTENT_CHARS: usize = 100_000;

/// What a brain tool does.
#[derive(Debug, Clone, Copy, PartialEq, Eq, Structural)]
pub enum BrainOp {
    Read,
    Write,
    Forget,
}

/// The name of a brain tool.
pub open spec fn brain_tool_name(op: BrainOp) -> Seq<char> {
    match op {
        BrainOp::Read => "brain_read"@,
        BrainOp::Write => "brain_write"@,
        BrainOp::Forget => "brain_forget"@,
    }
}

impl BrainOp {
    /// The name of the tool.
    pub fn tool_name(self) -> (r: &'static str)
        ensures
            r@ == brain_tool_name(self),
    {
        match self {
            BrainOp::Read => "brain_read",
            BrainOp::Write => "brain_write",
            BrainOp::Forget => "brain_forget",
        }
    }

    /// Whether the tool changes memories.
    pub fn mutating(self) -> (r: bool)
        ensures
            r == (self != BrainOp::Read),
    {
        match self {
            BrainOp::Read => false,
            BrainOp::Write => true,
            BrainOp::Forget => true,
        }
    }
}

/// A stored memory, as the index and listings show it.
pub struct Memory {
    pub name: String,
    pub description: String,
    pub path: String,
}

impl Named for Memory {
    open spec fn key(&self) -> Seq<char> {
        self.name@
    }

    fn name(&self) -> (r: &str) {
        self.name.as_str()
    }
}

// ---------------------------------------------------------------------------
// Places
// ---------------------------------------------------------------------------

/// The directory of the memories.
pub open spec fn brain_dir_spec(base: Seq<char>, configured: Option<Seq<char>>) -> Seq<char> {
    paths::under_spec(
        base,
        match configured {
            Some(dir) => dir,
            None => "brain"@,
        },
    )
}

/// The directory of the memories: beside the configuration, unless it says
/// otherwise.
pub fn brain_dir(base: &str, configured: Option<&str>) -> (r: String)
    ensures
        r@ == brain_dir_spec(
            base@,
            match configured {
                Some(d) => Some(d@),
                None => None,
            },
        ),
{
    paths::under(
        base,
        match configured {
            Some(d) => d,
            None => "brain",
        },
    )
}

/// The path of the file that is always in context.
pub fn index_path(dir: &str) -> (r: String)
    ensures
        r@ == paths::under_spec(dir@, INDEX_FILE@),
{
    paths::under(dir, INDEX_FILE)
}

/// The path of a memory.
pub open spec fn memory_path_spec(dir: Seq<char>, name: Seq<char>) -> Seq<char> {
    paths::under_spec(dir, name + ".md"@)
}

/// The path of a memory.
pub fn memory_path(dir: &str, name: &str) -> (r: String)
    ensures
        r@ == memory_path_spec(dir@, name@),
{
    let file = text::cat2(name, ".md");
    paths::under(dir, file.as_str())
}

// ---------------------------------------------------------------------------
// Names
// ---------------------------------------------------------------------------

/// The reply to a name that is reserved.
pub const RESERVED_TEXT: &'static str = "ERROR: `brain` is a reserved name (it would collide with BRAIN.md); pick a more specific one";

/// The reply to a name of which nothing usable remains.
pub open spec fn unusable_text(name: Seq<char>) -> Seq<char> {
    "ERROR: `"@ + text::trim_spec(name)
        + "` does not reduce to a usable kebab-case name (letters, digits, dashes; at most 64 characters)"@
}

/// The name under which a memory is stored.
pub open spec fn memory_slug_spec(name: Seq<char>) -> Result<Seq<char>, Seq<char>> {
    match slug::slug_spec(name) {
        Some(s) => if s == "brain"@ {
            Err(RESERVED_TEXT@)
        } else {
            Ok(s)
        },
        None => Err(unusable_text(name)),
    }
}

/// The name under which a memory is stored. One name is reserved, for its file
/// would collide with the index where case does not count. A stored name
/// leads to itself.
pub fn memory_slug(name: &str) -> (r: Result<String, String>)
    ensures
        match r {
            Ok(s) => memory_slug_spec(name@) == Ok::<Seq<char>, Seq<char>>(s@) && slug::is_kebab(
                s@,
            ) && 0 < s@.len() <= slug::MAX_SLUG_LEN && s@ != "brain"@,
            Err(e) => memory_slug_spec(name@) == Err::<Seq<char>, Seq<char>>(e@),
        },
        slug::is_kebab(name@) && 0 < name@.len() <= slug::MAX_SLUG_LEN && name@ != "brain"@ ==> (
        r matches Ok(s) && s@ == name@),
{
    match slug::slug(name) {
        Some(s) => {
            if text::same(s.as_str(), "brain") {
                Err(RESERVED_TEXT.to_owned())
            } else {
                Ok(s)
            }
        },
        None => {
            let shown = text::trim(name);
            Err(
                text::cat3(
                    "ERROR: `",
                    shown.as_str(),
                    "` does not reduce to a usable kebab-case name (letters, digits, dashes; at most 64 characters)",
                ),
            )
        },
    }
}

// ---------------------------------------------------------------------------
// The index
// ---------------------------------------------------------------------------

/// An entry of the directory that is a memory's file, and what it holds.
pub open spec fn is_memory(file: Seq<char>, raw: Option<String>) -> bool {
    skills::md_stem_spec(file) is Some && file != INDEX_FILE@ && raw is Some
}

/// The memory that a file holds.
pub open spec fn memory_of(dir: Seq<char>, file: Seq<char>, raw: Seq<char>) -> (
    Seq<char>,
    Seq<char>,
    Seq<char>,
) {
    let f = skills::frontmatter_spec(skills::md_stem_spec(file)->0, raw);
    (f.name, f.description, paths::under_spec(dir, file))
}

/// The parts of a memory.
pub open spec fn memory_parts(m: Memory) -> (Seq<char>, Seq<char>, Seq<char>) {
    (m.name@, m.description@, m.path@)
}

/// The parts of memories.
pub open spec fn all_parts(list: Seq<Memory>) -> Seq<(Seq<char>, Seq<char>, Seq<char>)> {
    Seq::new(list.len(), |i: int| memory_parts(list[i]))
}

/// The memories of a directory, in the order of its entries.
pub open spec fn found_memories(dir: Seq<char>, entries: Seq<(String, Option<String>)>) -> Seq<
    (Seq<char>, Seq<char>, Seq<char>),
>
    decreases entries.len(),
{
    if entries.len() == 0 {
        seq![]
    } else {
        let before = found_memories(dir, entries.drop_last());
        let (file, raw) = entries.last();
        if is_memory(file@, raw) {
            before.push(memory_of(dir, file@, raw->0@))
        } else {
            before
        }
    }
}

/// The memories of a directory by name. `entries` are its files and their
/// texts; what cannot be read has none.
pub fn list_memories(dir: &str, entries: &Vec<(String, Option<String>)>) -> (r: Vec<Memory>)
    ensures
        exists|found: Seq<Memory>|
            all_parts(found) == found_memories(dir@, entries@) && r@ == #[trigger] named::by_name(
                found,
            ),
{
    let mut out: Vec<Memory> = Vec::new();
    let mut i: usize = 0;
    assert(all_parts(out@) =~= seq![]);
    assert(entries@.take(0) =~= seq![]);
    while i < entries.len()
        invariant
            i <= entries@.len(),
            all_parts(out@) == found_memories(dir@, entries@.take(i as int)),
        decreases entries@.len() - i,
    {
        assert(entries@.take(i + 1).drop_last() =~= entries@.take(i as int));
        assert(entries@.take(i + 1).last() == entries@[i as int]);
        let file = &entries[i].0;
        match skills::md_stem(file.as_str()) {
            Some(stem) => {
                if !text::same(file.as_str(), INDEX_FILE) {
                    match &entries[i].1 {
                        Some(raw) => {
                            let (name, description, _) = skills::parse_frontmatter(
                                stem.as_str(),
                                raw.as_str(),
                            );
                            let ghost before = out@;
                            let memory = Memory {
                                name,
                                description,
                                path: paths::under(dir, file.as_str()),
                            };
                            let ghost parts = memory_parts(memory);
                            out.push(memory);
                            assert(all_parts(out@) =~= all_parts(before).push(parts));
                        },
                        None => {},
                    }
                }
            },
            None => {},
        }
        i = i + 1;
    }
    assert(entries@.take(entries@.len() as int) =~= entries@);
    named::sort_by_name(out)
}

/// The line of a memory.
pub open spec fn index_line(m: Memory) -> Seq<char> {
    "- **"@ + m.name@ + "** — "@ + (if m.description@.len() == 0 {
        "(no description)"@
    } else {
        m.description@
    }) + "\n"@
}

/// The lines of memories.
pub open spec fn index_body(memories: Seq<Memory>) -> Seq<char>
    decreases memories.len(),
{
    if memories.len() == 0 {
        seq![]
    } else {
        index_body(memories.drop_last()) + index_line(memories.last())
    }
}

/// The index: a line per memory, or a remark where there is none.
pub open spec fn index_spec(memories: Seq<Memory>) -> Seq<char> {
    if memories.len() == 0 {
        "(no stored memories yet)\n"@
    } else {
        index_body(memories)
    }
}

/// The index: a line per memory, or a remark where there is none.
pub fn index_lines(memories: &Vec<Memory>) -> (r: String)
    ensures
        r@ == index_spec(memories@),
{
    if memories.len() == 0 {
        return "(no stored memories yet)\n".to_owned();
    }
    let mut out = String::new();
    let mut i: usize = 0;
    assert(out@ =~= index_body(memories@.take(0)));
    while i < memories.len()
        invariant
            i <= memories@.len(),
            out@ == index_body(memories@.take(i as int)),
        decreases memories@.len() - i,
    {
        assert(memories@.take(i + 1).drop_last() =~= memories@.take(i as int));
        assert(memories@.take(i + 1).last() == memories@[i as int]);
        let m = &memories[i];
        let description: &str = if m.description.as_str().is_empty() {
            "(no description)"
        } else {
            m.description.as_str()
        };
        let line = text::cat5("- **", m.name.as_str(), "** — ", description, "\n");
        out.append(line.as_str());
        i = i + 1;
    }
    assert(memories@.take(memories@.len() as int) =~= memories@);
    out
}

/// What stands in front of the index and behind it.
pub open spec fn split_spec(content: Seq<char>) -> Option<(Seq<char>, Seq<char>)> {
    match block::block_span(content, INDEX_START@, INDEX_END@, 0) {
        Some((s, e)) => Some((content.take(s), content.skip(e + INDEX_END@.len()))),
        None => None,
    }
}

/// What stands in front of the index and behind it, if there is one.
pub fn split_index_block(content: &str) -> (r: Option<(String, String)>)
    ensures
        match r {
            Some((before, after)) => split_spec(content@) == Some((before@, after@)),
            None => split_spec(content@) is None,
        },
{
    match block::find_block(content, INDEX_START, INDEX_END, 0) {
        Some((s, e)) => {
            let v = text::chars(content);
            let n: usize = INDEX_END.unicode_len();
            let before = text::text_range(v.as_slice(), 0, s);
            let after = text::text_range(v.as_slice(), e + n, v.len());
            assert(before@ =~= content@.take(s as int));
            assert(after@ =~= content@.skip(e + n));
            Some((before, after))
        },
        None => None,
    }
}

/// What the index's block holds.
pub open spec fn index_inner(memories: Seq<Memory>) -> Seq<char> {
    "\n## Memory index\n\n"@ + index_spec(memories)
}

/// The index's block.
pub open spec fn index_block(memories: Seq<Memory>) -> Seq<char> {
    INDEX_START@ + index_inner(memories) + INDEX_END@
}

/// What a new file begins with.
pub const FRESH_HEAD: &'static str = "# Brain\n\nCore notes for this project's agents.\n\n";

/// The file with its index rewritten.
pub open spec fn indexed(content: Seq<char>, memories: Seq<Memory>) -> Seq<char> {
    block::replaced(
        content,
        INDEX_START@,
        INDEX_END@,
        0,
        index_block(memories),
        FRESH_HEAD@ + index_block(memories) + "\n"@,
    )
}

/// The file with its index rewritten; what stands around it is kept.
pub fn replace_index_block(content: &str, memories: &Vec<Memory>) -> (r: String)
    ensures
        r@ == indexed(content@, memories@),
{
    let lines = index_lines(memories);
    let inner = text::cat2("\n## Memory index\n\n", lines.as_str());
    let built = text::cat3(INDEX_START, inner.as_str(), INDEX_END);
    let fresh = text::cat3(FRESH_HEAD, built.as_str(), "\n");
    block::replace_block(content, INDEX_START, INDEX_END, 0, built.as_str(), fresh)
}

// ---------------------------------------------------------------------------
// The section of a prompt
// ---------------------------------------------------------------------------

/// What a context with the tools is told.
pub const TOOLS_TEXT: &'static str = "Lessons accumulated across this project's runs. The index below lists stored memories by name — their full content is NOT in this context. Before working in an area a memory covers, call `brain_read` with its name. When you learn something durable and non-obvious (a correction from the user, a project convention, a failure worth avoiding), save it with `brain_write`: a short kebab-case name, a one-line description, and concise content. Update the existing memory instead of creating a near-duplicate; `brain_forget` deletes one that proved wrong.\n\n";

/// What a context without the tools is told.
pub const FILES_TEXT: &'static str = "Lessons accumulated across this project's runs. The index below lists stored memories; each one's full content lives in ";

/// The notes by hand: the file without its index.
pub open spec fn core_spec(index_file: Seq<char>) -> Seq<char> {
    text::trim_spec(
        match split_spec(index_file) {
            Some((before, after)) => text::trim_end_spec(before) + "\n"@ + text::trim_spec(after),
            None => index_file,
        },
    )
}

/// The section's text.
pub open spec fn section_spec(
    memories: Seq<Memory>,
    index_file: Seq<char>,
    dir: Seq<char>,
    has_tools: bool,
) -> Seq<char> {
    let guidance = if has_tools {
        "# Brain (persistent memory)\n\n"@ + TOOLS_TEXT@
    } else {
        "# Brain (persistent memory)\n\n"@ + (FILES_TEXT@ + dir + "/<name>.md.\n\n"@)
    };
    let core = core_spec(index_file);
    let noted = if core.len() == 0 {
        guidance
    } else {
        guidance + core + "\n\n"@
    };
    text::trim_end_spec(noted + "## Memory index\n\n"@ + index_spec(memories))
}

/// The section of a system prompt: the notes by hand, and an index that is
/// made from the memories themselves, so that it cannot be out of date. A
/// context without the tools has none where there is nothing to show.
pub fn compose_section(memories: &Vec<Memory>, index_file: &str, dir: &str, has_tools: bool) -> (r:
    Option<String>)
    ensures
        match r {
            Some(section) => section@ == section_spec(memories@, index_file@, dir@, has_tools) && (
            memories@.len() > 0 || core_spec(index_file@).len() > 0 || has_tools),
            None => memories@.len() == 0 && core_spec(index_file@).len() == 0 && !has_tools,
        },
{
    let kept = match split_index_block(index_file) {
        Some((before, after)) => {
            let b = text::trim_end(before.as_str());
            let a = text::trim(after.as_str());
            text::cat3(b.as_str(), "\n", a.as_str())
        },
        None => index_file.to_owned(),
    };
    let core = text::trim(kept.as_str());
    if memories.len() == 0 && core.as_str().is_empty() && !has_tools {
        return None;
    }
    let guidance = if has_tools {
        TOOLS_TEXT.to_owned()
    } else {
        text::cat3(FILES_TEXT, dir, "/<name>.md.\n\n")
    };
    let mut section = text::cat2("# Brain (persistent memory)\n\n", guidance.as_str());
    if !core.as_str().is_empty() {
        section.append(core.as_str());
        section.append("\n\n");
    }
    section.append("## Memory index\n\n");
    let lines = index_lines(memories);
    section.append(lines.as_str());
    Some(text::trim_end(section.as_str()))
}

// ---------------------------------------------------------------------------
// Tools
// ---------------------------------------------------------------------------

/// What the model is told of reading.
pub const READ_TEXT: &'static str = "Read one stored memory from the brain (persistent project memory). Use the names listed in the Memory index of your system prompt.";

/// What the model is told of writing.
pub const WRITE_TEXT: &'static str = "Save or update one memory in the brain (persistent project memory that outlives this run). Use it for durable, non-obvious lessons — corrections, conventions, failures worth avoiding — not for run-specific state. Writing an existing name replaces that memory; the index updates automatically.";

/// What the model is told of forgetting.
pub const FORGET_TEXT: &'static str = "Delete one stored memory from the brain. Only for a memory that is wrong or obsolete.";

/// What the model is told of a memory's name.
pub const NAME_TEXT: &'static str = "The memory's name, as shown in the index";

/// The properties of a tool's arguments.
pub open spec fn brain_properties(op: BrainOp) -> Seq<schema::PropertyView> {
    match op {
        BrainOp::Read | BrainOp::Forget => seq![schema::prop("name"@, "string"@, NAME_TEXT@)],
        BrainOp::Write => seq![
            schema::prop("name"@, "string"@, "Short kebab-case name, e.g. `api-retry-policy`"@),
            schema::prop(
                "description"@,
                "string"@,
                "One line stating the lesson — shown in every future run's index"@,
            ),
            schema::prop(
                "content"@,
                "string"@,
                "The full memory: the lesson, why it holds, and how to apply it"@,
            ),
        ],
    }
}

/// The definition of a brain tool.
pub open spec fn brain_definition(op: BrainOp) -> model::DefinitionView {
    model::DefinitionView {
        name: brain_tool_name(op),
        description: match op {
            BrainOp::Read => READ_TEXT@,
            BrainOp::Write => WRITE_TEXT@,
            BrainOp::Forget => FORGET_TEXT@,
        },
        parameters: schema::object_schema_spec(
            brain_properties(op),
            match op {
                BrainOp::Write => Some(seq!["name"@, "description"@, "content"@]),
                _ => Some(seq!["name"@]),
            },
        ),
    }
}

fn definition_of(op: BrainOp) -> (r: ToolDefinition)
    ensures
        r@ == brain_definition(op),
{
    let mut properties: Vec<Property> = Vec::new();
    let mut required: Vec<String> = Vec::new();
    required.push("name".to_owned());
    let description: &str = match op {
        BrainOp::Read => READ_TEXT,
        BrainOp::Write => WRITE_TEXT,
        BrainOp::Forget => FORGET_TEXT,
    };
    match op {
        BrainOp::Write => {
            properties.push(
                schema::property(
                    "name",
                    "string",
                    "Short kebab-case name, e.g. `api-retry-policy`",
                ),
            );
            properties.push(
                schema::property(
                    "description",
                    "string",
                    "One line stating the lesson — shown in every future run's index",
                ),
            );
            properties.push(
                schema::property(
                    "content",
                    "string",
                    "The full memory: the lesson, why it holds, and how to apply it",
                ),
            );
            required.push("description".to_owned());
            required.push("content".to_owned());
            assert(text::views(required@) =~= seq!["name"@, "description"@, "content"@]);
        },
        _ => {
            properties.push(schema::property("name", "string", NAME_TEXT));
            assert(text::views(required@) =~= seq!["name"@]);
        },
    }
    assert(schema::properties_view(properties@) =~= brain_properties(op));
    ToolDefinition {
        name: op.tool_name().to_owned(),
        description: description.to_owned(),
        parameters: schema::object_schema(&properties, Some(&required)),
    }
}

/// The tools of a context that has the brain.
pub fn definitions() -> (r: Vec<(ToolDefinition, BrainOp)>)
    ensures
        r@.len() == 3,
        r@[0].1 == BrainOp::Read && r@[1].1 == BrainOp::Write && r@[2].1 == BrainOp::Forget,
        forall|i: int| 0 <= i < 3 ==> (#[trigger] r@[i]).0@ == brain_definition(r@[i].1),
{
    let mut r: Vec<(ToolDefinition, BrainOp)> = Vec::new();
    r.push((definition_of(BrainOp::Read), BrainOp::Read));
    r.push((definition_of(BrainOp::Write), BrainOp::Write));
    r.push((definition_of(BrainOp::Forget), BrainOp::Forget));
    r
}

/// The files that a call may touch.
pub open spec fn affected_spec(dir: Seq<char>, op: BrainOp, arguments: json::JsonView) -> Seq<
    Seq<char>,
> {
    if op == BrainOp::Read {
        seq![]
    } else {
        match arguments.text_field("name"@) {
            Some(name) => match memory_slug_spec(name) {
                Ok(s) => seq![memory_path_spec(dir, s), paths::under_spec(dir, INDEX_FILE@)],
                Err(_) => seq![],
            },
            None => seq![],
        }
    }
}

/// The files that a call may touch.
pub fn affected_paths(dir: &str, op: BrainOp, arguments: &Json) -> (r: Vec<String>)
    ensures
        text::views(r@) == affected_spec(dir@, op, arguments@),
{
    let mut out: Vec<String> = Vec::new();
    assert(text::views(out@) =~= seq![]);
    if !op.mutating() {
        return out;
    }
    match arguments.text_field("name") {
        Some(name) => match memory_slug(name) {
            Ok(s) => {
                out.push(memory_path(dir, s.as_str()));
                out.push(index_path(dir));
                assert(text::views(out@) =~= seq![
                    memory_path_spec(dir@, s@),
                    paths::under_spec(dir@, INDEX_FILE@),
                ]);
            },
            Err(_) => {},
        },
        None => {},
    }
    out
}

/// A text as one line of bounded length.
pub open spec fn one_line_spec(s: Seq<char>) -> Seq<char> {
    text::excerpt_spec(s, MAX_DESCRIPTION_CHARS as nat)
}

/// A text as one line of bounded length.
pub fn one_line(s: &str) -> (r: String)
    ensures
        r@ == one_line_spec(s@),
{
    text::excerpt(s, MAX_DESCRIPTION_CHARS)
}

/// A memory's file.
pub open spec fn memory_file_spec(name: Seq<char>, description: Seq<char>, body: Seq<char>) -> Seq<
    char,
> {
    "---\nname: "@ + name + "\ndescription: "@ + description + "\n---\n\n"@ + text::trim_spec(body)
        + "\n"@
}

/// A memory's file.
pub fn memory_file(name: &str, description: &str, body: &str) -> (r: String)
    ensures
        r@ == memory_file_spec(name@, description@, body@),
{
    let trimmed = text::trim(body);
    let mut r = text::cat5("---\nname: ", name, "\ndescription: ", description, "\n---\n\n");
    r.append(trimmed.as_str());
    r.append("\n");
    r
}

/// A memory that is ready to be written.
pub struct Draft {
    pub slug: String,
    pub description: String,
    pub content: String,
}

/// The reply to a memory that is too large.
pub open spec fn too_large_text(size: nat) -> Seq<char> {
    "ERROR: memory content is too large ("@ + numbers::decimal_spec(size)
        + " characters, max 100000); distill it or split it into several memories"@
}

/// What a request to save a memory comes to: its name, its description and its
/// content, or the reply that refuses it.
pub open spec fn draft_spec(name: Seq<char>, description: Seq<char>, content: Seq<char>) -> Result<
    (Seq<char>, Seq<char>, Seq<char>),
    Seq<char>,
> {
    let kept = text::trim_spec(content);
    if text::trim_spec(name).len() == 0 {
        Err("ERROR: a memory needs a non-empty `name`"@)
    } else {
        match memory_slug_spec(name) {
            Err(e) => Err(e),
            Ok(s) => if one_line_spec(description).len() == 0 {
                Err("ERROR: a memory needs a one-line `description`"@)
            } else if kept.len() == 0 {
                Err("ERROR: a memory needs non-empty `content`"@)
            } else if kept.len() > MAX_CONTENT_CHARS {
                Err(too_large_text(kept.len()))
            } else {
                Ok((s, one_line_spec(description), kept))
            },
        }
    }
}

/// Check a memory that is to be saved.
pub fn check_memory(name: &str, description: &str, content: &str) -> (r: Result<Draft, String>)
    ensures
        match r {
            Ok(d) => draft_spec(name@, description@, content@) == Ok::<
                (Seq<char>, Seq<char>, Seq<char>),
                Seq<char>,
            >((d.slug@, d.description@, d.content@)) && slug::is_kebab(d.slug@) && d.slug@.len()
                > 0,
            Err(e) => draft_spec(name@, description@, content@) == Err::<
                (Seq<char>, Seq<char>, Seq<char>),
                Seq<char>,
            >(e@),
        },
{
    let bare = text::trim(name);
    if bare.as_str().is_empty() {
        return Err("ERROR: a memory needs a non-empty `name`".to_owned());
    }
    let stored = match memory_slug(name) {
        Ok(s) => s,
        Err(e) => {
            return Err(e);
        },
    };
    let line = one_line(description);
    let kept = text::trim(content);
    if line.as_str().is_empty() {
        return Err("ERROR: a memory needs a one-line `description`".to_owned());
    }
    if kept.as_str().is_empty() {
        return Err("ERROR: a memory needs non-empty `content`".to_owned());
    }
    let size: usize = kept.as_str().unicode_len();
    if size > MAX_CONTENT_CHARS {
        let written = numbers::decimal_len(size);
        return Err(
            text::cat3(
                "ERROR: memory content is too large (",
                written.as_str(),
                " characters, max 100000); distill it or split it into several memories",
            ),
        );
    }
    Ok(Draft { slug: stored, description: line, content: kept })
}

/// What a brain call comes to.
pub enum BrainPlan {
    /// The reply, without touching a file.
    Reply(String),
    /// Read the memory of this name.
    Read(String),
    /// Write this memory.
    Write(Draft),
    /// Delete the memory of this name.
    Forget(String),
}

/// What a brain call comes to.
pub enum PlanView {
    Reply(Seq<char>),
    Read(Seq<char>),
    Write(Seq<char>, Seq<char>, Seq<char>),
    Forget(Seq<char>),
}

impl View for BrainPlan {
    type V = PlanView;

    open spec fn view(&self) -> PlanView {
        match self {
            BrainPlan::Reply(s) => PlanView::Reply(s@),
            BrainPlan::Read(s) => PlanView::Read(s@),
            BrainPlan::Write(d) => PlanView::Write(d.slug@, d.description@, d.content@),
            BrainPlan::Forget(s) => PlanView::Forget(s@),
        }
    }
}

/// What a brain call comes to.
pub open spec fn plan_spec(op: BrainOp, arguments: json::JsonView) -> PlanView {
    let name = arguments.text_or_empty("name"@);
    if text::trim_spec(name).len() == 0 {
        PlanView::Reply("ERROR: "@ + brain_tool_name(op) + " requires a non-empty `name` string"@)
    } else {
        match memory_slug_spec(name) {
            Err(e) => PlanView::Reply(e),
            Ok(s) => match op {
                BrainOp::Read => PlanView::Read(s),
                BrainOp::Forget => PlanView::Forget(s),
                BrainOp::Write => match draft_spec(
                    name,
                    arguments.text_or_empty("description"@),
                    arguments.text_or_empty("content"@),
                ) {
                    Ok((slug, description, content)) => PlanView::Write(slug, description, content),
                    Err(e) => PlanView::Reply(e),
                },
            },
        }
    }
}

/// Decide on a brain call. All failures are replies, so that the model can
/// react to them.
pub fn dispatch(op: BrainOp, arguments: &Json) -> (r: BrainPlan)
    ensures
        r@ == plan_spec(op, arguments@),
        match r {
            BrainPlan::Reply(_) => true,
            BrainPlan::Read(name) => slug::is_kebab(name@) && name@.len() > 0,
            BrainPlan::Write(draft) => slug::is_kebab(draft.slug@) && draft.slug@.len() > 0,
            BrainPlan::Forget(name) => slug::is_kebab(name@) && name@.len() > 0,
        },
{
    let name = arguments.text_or_empty("name");
    let bare = text::trim(name.as_str());
    if bare.as_str().is_empty() {
        return BrainPlan::Reply(
            text::cat3("ERROR: ", op.tool_name(), " requires a non-empty `name` string"),
        );
    }
    let stored = match memory_slug(name.as_str()) {
        Ok(s) => s,
        Err(e) => {
            return BrainPlan::Reply(e);
        },
    };
    match op {
        BrainOp::Read => BrainPlan::Read(stored),
        BrainOp::Forget => BrainPlan::Forget(stored),
        BrainOp::Write => {
            let description = arguments.text_or_empty("description");
            let content = arguments.text_or_empty("content");
            match check_memory(name.as_str(), description.as_str(), content.as_str()) {
                Ok(d) => BrainPlan::Write(d),
                Err(e) => BrainPlan::Reply(e),
            }
        },
    }
}

/// The reply to a read.
pub open spec fn read_reply_spec(name: Seq<char>, raw: Option<Seq<char>>) -> Seq<char> {
    match raw {
        Some(s) => {
            let f = skills::frontmatter_spec(name, s);
            (if f.description.len() == 0 {
                "## "@ + f.name
            } else {
                "## "@ + f.name + " — "@ + f.description
            }) + "\n\n"@ + f.body
        },
        None => "ERROR: no memory named `"@ + name
            + "`. The Memory index in your system prompt lists what exists."@,
    }
}

/// The reply to a read: the memory, or that there is none.
pub fn read_reply(name: &str, raw: Option<&str>) -> (r: String)
    ensures
        r@ == read_reply_spec(
            name@,
            match raw {
                Some(s) => Some(s@),
                None => None,
            },
        ),
{
    match raw {
        Some(s) => {
            let (found, description, body) = skills::parse_frontmatter(name, s);
            let header = if description.as_str().is_empty() {
                text::cat2("## ", found.as_str())
            } else {
                text::cat4("## ", found.as_str(), " — ", description.as_str())
            };
            text::cat3(header.as_str(), "\n\n", body.as_str())
        },
        None => text::cat3(
            "ERROR: no memory named `",
            name,
            "`. The Memory index in your system prompt lists what exists.",
        ),
    }
}

/// The reply to a write that was carried out.
pub open spec fn saved_reply_spec(existed: bool, name: Seq<char>, path: Seq<char>) -> Seq<char> {
    (if existed {
        "updated"@
    } else {
        "saved"@
    }) + " memory `"@ + name + "` ("@ + path + "); the index is updated"@
}

/// The reply to a write that was carried out.
pub fn saved_reply(existed: bool, name: &str, path: &str) -> (r: String)
    ensures
        r@ == saved_reply_spec(existed, name@, path@),
{
    let word: &str = if existed {
        "updated"
    } else {
        "saved"
    };
    let mut r = text::cat5(word, " memory `", name, "` (", path);
    r.append("); the index is updated");
    r
}

/// The reply to a request to forget: whether there was such a memory.
pub fn forget_reply(name: &str, existed: bool) -> (r: String)
    ensures
        r@ == (if existed {
            "forgot memory `"@ + name@ + "`; the index is updated"@
        } else {
            "ERROR: no memory named `"@ + name@ + "` to forget"@
        }),
{
    if existed {
        text::cat3("forgot memory `", name, "`; the index is updated")
    } else {
        text::cat3("ERROR: no memory named `", name, "` to forget")
    }
}

// ---------------------------------------------------------------------------
// Laws
// ---------------------------------------------------------------------------

proof fn lemma_markers()
    ensures
        block::markers(INDEX_START@, INDEX_END@),
        forall|i: int|
            0 <= i < FRESH_HEAD@.len() ==> !#[trigger] find::occurs_at(
                FRESH_HEAD@ + INDEX_START@,
                INDEX_START@,
                i,
            ),
{
    reveal_strlit("<!-- soa:brain:index:start — managed by soa; edit outside this block -->");
    reveal_strlit("<!-- soa:brain:index:end -->");
    reveal_strlit("# Brain\n\nCore notes for this project's agents.\n\n");
    let s = INDEX_START@;
    let e = INDEX_END@;
    assert(s[21] != e[21]);
    let h = FRESH_HEAD@;
    assert forall|i: int| 0 <= i < h.len() implies !#[trigger] find::occurs_at(h + s, s, i) by {
        if find::occurs_at(h + s, s, i) {
            assert((h + s).subrange(i, i + s.len())[0] == h[i]);
        }
    }
}

/// Notes by hand survive every change to the memories: rewriting the index
/// keeps what stands in front of its block and behind it, or the whole file
/// where it had none, and the index then holds a line for each memory.
pub proof fn law_notes_around_the_index_are_kept(content: Seq<char>, memories: Seq<Memory>)
    requires
        block::tidy(content, INDEX_START@, INDEX_END@, 0),
        !find::contains_spec(index_inner(memories), INDEX_END@),
    ensures
        ({
            let before = block::kept_before(content, INDEX_START@, INDEX_END@, 0, FRESH_HEAD@);
            let after = block::kept_after(content, INDEX_START@, INDEX_END@, 0);
            &&& indexed(content, memories) == before + index_block(memories) + after
            &&& split_spec(indexed(content, memories)) == Some((before, after))
        }),
{
    lemma_markers();
    block::law_rewriting_keeps_the_rest(
        content,
        INDEX_START@,
        INDEX_END@,
        0,
        index_inner(memories),
        FRESH_HEAD@,
    );
}

/// There is one index: rewriting it again replaces it.
pub proof fn law_the_index_is_replaced(content: Seq<char>, earlier: Seq<Memory>, later: Seq<Memory>)
    requires
        block::tidy(content, INDEX_START@, INDEX_END@, 0),
        !find::contains_spec(index_inner(earlier), INDEX_END@),
    ensures
        indexed(indexed(content, earlier), later) == indexed(content, later),
{
    lemma_markers();
    block::law_the_last_rewriting_counts(
        content,
        INDEX_START@,
        INDEX_END@,
        0,
        index_inner(earlier),
        index_inner(later),
        FRESH_HEAD@,
    );
}

proof fn lemma_head_lines(name: Seq<char>, description: Seq<char>)
    requires
        slug::is_kebab(name),
        name.len() > 0,
        text_laws::is_line(description),
        text_laws::is_trimmed(description),
    ensures
        text::lines_spec("\nname: "@ + name + "\ndescription: "@ + description) == seq![
            Seq::<char>::empty(),
            "name: "@ + name,
            "description: "@ + description,
        ],
{
    reveal_strlit("\nname: ");
    reveal_strlit("name: ");
    reveal_strlit("\ndescription: ");
    reveal_strlit("description: ");
    let feed = seq!['\n'];
    let none = Seq::<char>::empty();
    let first = "name: "@ + name;
    let second = "description: "@ + description;
    assert(!none.contains('\n'));
    text::lemma_line_ends(none, none, feed);
    assert(none + none + feed =~= feed);
    assert(!first.contains('\n')) by {
        if first.contains('\n') {
            let k = first.index_of('\n');
            if k >= 6 {
                assert(first[k] == name[k - 6]);
            }
        }
    }
    assert(first.last() == name.last());
    text::lemma_line_ends(feed, first, feed);
    assert(!second.contains('\n')) by {
        if second.contains('\n') {
            let k = second.index_of('\n');
            if k >= 13 {
                assert(second[k] == description[k - 13]);
                assert(text::is_white_spec('\n'));
            }
        }
    }
    text::lemma_lines_grow(feed + first + feed, second);
    assert("\nname: "@ + name + "\ndescription: "@ + description =~= feed + first + feed + second);
    assert(none + second =~= second);
    assert(seq![none].push(first).push(second) =~= seq![none, first, second]);
}

proof fn lemma_head_fields(name: Seq<char>, description: Seq<char>, given: Seq<char>)
    requires
        slug::is_kebab(name),
        name.len() > 0,
        text_laws::is_trimmed(description),
    ensures
        skills::head_fields(
            seq![Seq::<char>::empty(), "name: "@ + name, "description: "@ + description],
            given,
        ) == (name, description),
{
    reveal_strlit("name: ");
    reveal_strlit("name");
    reveal_strlit("description: ");
    reveal_strlit("description");
    let none = Seq::<char>::empty();
    let first = "name: "@ + name;
    let second = "description: "@ + description;
    let space = seq![' '];
    let lines = seq![none, first, second];
    assert(lines.drop_last() =~= seq![none, first]);
    assert(seq![none, first].drop_last() =~= seq![none]);
    assert(seq![none].drop_last() =~= seq![]);
    assert(find::split_once_spec(none, ':') is None) by {
        find::lemma_find(none, seq![':'], 0);
    }
    assert(skills::head_fields(seq![none], given) == (given, none)) by {
        assert(skills::head_fields(seq![], given) == (given, Seq::<char>::empty()));
        assert(seq![none].last() == none);
    }
    assert(first =~= "name"@ + seq![':'] + (space + name));
    find::lemma_split_at("name"@, ':', space + name);
    assert(text_laws::is_trimmed("name"@));
    text_laws::lemma_trim_padded(seq![], "name"@, seq![]);
    assert(seq![] + "name"@ + seq![] =~= "name"@);
    assert(text_laws::is_trimmed(name)) by {
        assert(!text::is_white_spec(name[0]));
        assert(!text::is_white_spec(name.last()));
    }
    text_laws::lemma_trim_padded(space, name, seq![]);
    assert(space + name + seq![] =~= space + name);
    assert(skills::head_fields(seq![none, first], given) == (name, none));
    assert(second =~= "description"@ + seq![':'] + (space + description));
    find::lemma_split_at("description"@, ':', space + description);
    assert(text_laws::is_trimmed("description"@));
    text_laws::lemma_trim_padded(seq![], "description"@, seq![]);
    assert(seq![] + "description"@ + seq![] =~= "description"@);
    text_laws::lemma_trim_padded(space, description, seq![]);
    assert(space + description + seq![] =~= space + description);
    assert("description"@.len() != "name"@.len());
}

proof fn lemma_head_end(name: Seq<char>, description: Seq<char>, tail: Seq<char>)
    requires
        slug::is_kebab(name),
        name.len() > 0,
        text_laws::is_line(description),
    ensures
        ({
            let head = "\nname: "@ + name + "\ndescription: "@ + description;
            find::find_spec(head + "\n---"@ + tail, "\n---"@, 0) == Some(head.len() as int)
        }),
{
    reveal_strlit("\nname: ");
    reveal_strlit("\ndescription: ");
    reveal_strlit("\n---");
    let head = "\nname: "@ + name + "\ndescription: "@ + description;
    let s = head + "\n---"@ + tail;
    let p = "\n---"@;
    let n = head.len() as int;
    assert(s.subrange(n, n + 4) =~= p);
    assert(find::occurs_at(s, p, n));
    let split = 7 + name.len();
    assert forall|j: int| 0 <= j < n implies !#[trigger] find::occurs_at(s, p, j) by {
        if find::occurs_at(s, p, j) {
            let cut = s.subrange(j, j + 4);
            assert(cut[0] == s[j] && cut[1] == s[j + 1]);
            assert(s[j] == '\n' && s[j + 1] == '-');
            if j < 7 {
                assert(s[j] == "\nname: "@[j]);
                assert(j == 0);
                assert(s[1] == "\nname: "@[1]);
            } else if j < split {
                assert(s[j] == name[j - 7]);
            } else if j < split + 14 {
                assert(s[j] == "\ndescription: "@[j - split]);
                assert(j == split);
                assert(s[j + 1] == "\ndescription: "@[1]);
            } else {
                assert(s[j] == description[j - split - 14]);
                assert(text::is_white_spec('\n'));
            }
        }
    }
    find::lemma_find(s, p, 0);
}

/// A memory's file lies in the memory directory: a name that is stored names
/// no directory and no file outside.
pub proof fn law_memory_files_stay_in_the_directory(dir: Seq<char>, name: Seq<char>)
    requires
        slug::is_kebab(name),
        name.len() > 0,
    ensures
        !name.contains('/'),
        !name.contains('.'),
        memory_path_spec(dir, name) == paths::under_spec(dir, name + ".md"@),
        !paths::is_absolute_spec(name + ".md"@),
{
    if name.contains('/') {
        let i = choose|i: int| 0 <= i < name.len() && name[i] == '/';
        assert(name[i] == '/');
    }
    if name.contains('.') {
        let i = choose|i: int| 0 <= i < name.len() && name[i] == '.';
        assert(name[i] == '.');
    }
    assert((name + ".md"@)[0] == name[0]);
}

/// What is saved is what is read: a memory's file gives back the name, the
/// description and the content that were checked before it was written.
pub proof fn law_saved_memories_read_back(
    name: Seq<char>,
    description: Seq<char>,
    content: Seq<char>,
    given: Seq<char>,
)
    requires
        slug::is_kebab(name),
        name.len() > 0,
    ensures
        skills::frontmatter_spec(
            given,
            memory_file_spec(name, one_line_spec(description), content),
        ) == (skills::FrontView {
            name,
            description: one_line_spec(description),
            body: text::trim_spec(content),
        }),
{
    let line = one_line_spec(description);
    let body = text::trim_spec(content);
    let raw = memory_file_spec(name, line, content);
    text_laws::lemma_excerpt_is_line(description, MAX_DESCRIPTION_CHARS as nat);
    text_laws::lemma_trim_is_trimmed(content);
    reveal_strlit("---\nname: ");
    reveal_strlit("---");
    reveal_strlit("\nname: ");
    reveal_strlit("\n---\n\n");
    reveal_strlit("\n---");
    reveal_strlit("\n");
    let head = "\nname: "@ + name + "\ndescription: "@ + line;
    let gap = seq!['\n', '\n'];
    let tail = gap + body + "\n"@;
    let rest = head + "\n---"@ + tail;
    assert("---\nname: "@ =~= "---"@ + "\nname: "@);
    assert("\n---\n\n"@ =~= "\n---"@ + gap);
    assert(raw =~= "---"@ + rest);
    assert(raw.take(3) =~= "---"@);
    assert(raw.skip(3) =~= rest);
    lemma_head_end(name, line, tail);
    assert(rest.take(head.len() as int) =~= head);
    assert(rest.skip(head.len() as int + 4) =~= tail);
    lemma_head_lines(name, line);
    lemma_head_fields(name, line, given);
    assert(text::is_white_spec('\n'));
    text_laws::lemma_trim_padded(gap, body, "\n"@);
}

} // verus!
