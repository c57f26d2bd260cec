//! The built-in file tools: what they are, how their arguments are read, and
//! what they reply. Reading and writing the files is the caller's part.

use vstd::prelude::*;
use vstd::string::*;

use crate::json;
use crate::json::Json;
use crate::model;
use crate::model::ToolDefinition;
use crate::schema;
use crate::schema::Property;
use crate::text;

verus! {

/// Results that one `glob` call lists.
pub const MAX_GLOB_RESULTS: usize = 500;

/// Matches that one `grep` call lists.
pub const MAX_GREP_MATCHES: usize = 200;

/// Largest file that `grep` reads, in bytes.
pub const MAX_GREP_FILE_BYTES: u64 = 4_000_000;

/// Entries that one walk visits.
pub const MAX_WALK_ENTRIES: usize = 50_000;

/// A file tool.
#[derive(Debug, Clone, Copy, PartialEq, Eq, Structural)]
pub enum FileOp {
    Read,
    /// `read_file` with `LINE:HASH|` anchors, offered where the edit tools
    /// are.
    ReadAnchored,
    Write,
    Edit,
    /// Line edits addressed by anchors.
    EditLines,
    List,
    Glob,
    Grep,
}

/// The advertised name of a file tool.
pub open spec fn file_tool_name(op: FileOp) -> Seq<char> {
    match op {
        FileOp::Read => "read_file"@,
        FileOp::ReadAnchored => "read_file"@,
        FileOp::Write => "write_file"@,
        FileOp::Edit => "edit_file"@,
        FileOp::EditLines => "edit_lines"@,
        FileOp::List => "list_dir"@,
        FileOp::Glob => "glob"@,
        FileOp::Grep => "grep"@,
    }
}

impl FileOp {
    /// The advertised name of the tool.
    pub fn tool_name(self) -> (r: &'static str)
        ensures
            r@ == file_tool_name(self),
    {
        match self {
            FileOp::Read => "read_file",
            FileOp::ReadAnchored => "read_file",
            FileOp::Write => "write_file",
            FileOp::Edit => "edit_file",
            FileOp::EditLines => "edit_lines",
            FileOp::List => "list_dir",
            FileOp::Glob => "glob",
            FileOp::Grep => "grep",
        }
    }
}

// ---------------------------------------------------------------------------
// Definitions
// ---------------------------------------------------------------------------

/// What the model is told of an anchored read.
pub const READ_ANCHORED_TEXT: &'static str = "Read a text file. Each line is prefixed with an anchor `LINE:HASH|` for edit_lines — the prefix is NOT part of the file content. Returns the full content, or a window of it when `offset`/`limit` are given.";

/// What the model is told of a plain read.
pub const READ_TEXT: &'static str = "Read a text file. Returns the full content, or a window of it when `offset`/`limit` are given.";

/// What the model is told of a listing.
pub const LIST_TEXT: &'static str = "List a directory: entries sorted name-ascending, directories marked with a trailing `/`.";

/// What the model is told of a glob.
pub const GLOB_TEXT: &'static str = "Find files whose working-directory-relative path matches a `*` wildcard pattern (`*` also crosses `/`, so `*.rs` finds nested files). Skips .git, node_modules, target.";

/// What the model is told of a search.
pub const GREP_TEXT: &'static str = "Search file contents with a regular expression (prefix `(?i)` for case-insensitive). Returns `path:line: text` matches. Skips binary files and .git, node_modules, target.";

/// What the model is told of a write.
pub const WRITE_TEXT: &'static str = "Write a file, creating it (and parent directories) or replacing its content entirely. For small changes to an existing file prefer edit_file.";

/// What the model is told of a line edit.
pub const EDIT_LINES_TEXT: &'static str = "Replace a range of lines using anchors from read_file. `first` and `last` are anchors like `42:9f3a` copied verbatim from a read_file listing (`last` defaults to `first`). The hash must match the file's current content — if the file changed since you read it, the edit is rejected and you must re-read. `new_text` is raw text WITHOUT anchor prefixes; empty `new_text` deletes the range; `insert_after` inserts without removing lines. The reply shows fresh anchors around the change.";

/// What the model is told of an edit.
pub const EDIT_TEXT: &'static str = "Replace an exact string in a file. `old_string` must match exactly once (include surrounding lines to disambiguate), or pass replace_all to change every occurrence. Prefer edit_lines when you have anchors from read_file.";

/// What the model is told of a file path.
pub const PATH_TEXT: &'static str = "File path, relative to the working directory";

/// The properties of a tool's arguments.
pub open spec fn file_properties(op: FileOp) -> Seq<schema::PropertyView> {
    match op {
        FileOp::Read | FileOp::ReadAnchored => seq![
            schema::prop("path"@, "string"@, PATH_TEXT@),
            schema::prop("offset"@, "integer"@, "1-based line to start from"@),
            schema::prop("limit"@, "integer"@, "Maximum lines to return"@),
        ],
        FileOp::List => seq![
            schema::prop("path"@, "string"@, "Directory path (default: the working directory)"@),
        ],
        FileOp::Glob => seq![
            schema::prop("pattern"@, "string"@, "Pattern like src/*.rs or *config*"@),
        ],
        FileOp::Grep => seq![
            schema::prop("pattern"@, "string"@, "Regular expression to search for"@),
            schema::prop(
                "path"@,
                "string"@,
                "File or directory to search (default: the working directory)"@,
            ),
            schema::prop(
                "glob"@,
                "string"@,
                "Only search files whose relative path matches this `*` pattern"@,
            ),
        ],
        FileOp::Write => seq![
            schema::prop("path"@, "string"@, PATH_TEXT@),
            schema::prop("content"@, "string"@, "The complete new file content"@),
        ],
        FileOp::EditLines => seq![
            schema::prop("path"@, "string"@, PATH_TEXT@),
            schema::prop("first"@, "string"@, "Anchor of the first line, e.g. 42:9f3a"@),
            schema::prop("last"@, "string"@, "Anchor of the last line (default: first)"@),
            schema::prop("new_text"@, "string"@, "Replacement text, without anchor prefixes"@),
            schema::prop(
                "insert_after"@,
                "boolean"@,
                "Insert new_text after `first` instead of replacing (default false)"@,
            ),
        ],
        FileOp::Edit => seq![
            schema::prop("path"@, "string"@, PATH_TEXT@),
            schema::prop("old_string"@, "string"@, "Exact text to replace"@),
            schema::prop("new_string"@, "string"@, "Replacement text"@),
            schema::prop(
                "replace_all"@,
                "boolean"@,
                "Replace every occurrence (default false)"@,
            ),
        ],
    }
}

/// The arguments that a tool cannot do without.
pub open spec fn file_required(op: FileOp) -> Option<Seq<Seq<char>>> {
    match op {
        FileOp::Read | FileOp::ReadAnchored => Some(seq!["path"@]),
        FileOp::List => None,
        FileOp::Glob | FileOp::Grep => Some(seq!["pattern"@]),
        FileOp::Write => Some(seq!["path"@, "content"@]),
        FileOp::EditLines => Some(seq!["path"@, "first"@, "new_text"@]),
        FileOp::Edit => Some(seq!["path"@, "old_string"@, "new_string"@]),
    }
}

/// What the model is told of a tool.
pub open spec fn file_description(op: FileOp) -> Seq<char> {
    match op {
        FileOp::Read => READ_TEXT@,
        FileOp::ReadAnchored => READ_ANCHORED_TEXT@,
        FileOp::List => LIST_TEXT@,
        FileOp::Glob => GLOB_TEXT@,
        FileOp::Grep => GREP_TEXT@,
        FileOp::Write => WRITE_TEXT@,
        FileOp::EditLines => EDIT_LINES_TEXT@,
        FileOp::Edit => EDIT_TEXT@,
    }
}

/// The definition of a file tool.
pub open spec fn file_definition(op: FileOp) -> model::DefinitionView {
    model::DefinitionView {
        name: file_tool_name(op),
        description: file_description(op),
        parameters: schema::object_schema_spec(file_properties(op), file_required(op)),
    }
}

/// The tools that a context exposes, in order.
pub open spec fn file_ops(read_write: bool) -> Seq<FileOp> {
    if read_write {
        seq![
            FileOp::ReadAnchored,
            FileOp::List,
            FileOp::Glob,
            FileOp::Grep,
            FileOp::Write,
            FileOp::EditLines,
            FileOp::Edit,
        ]
    } else {
        seq![FileOp::Read, FileOp::List, FileOp::Glob, FileOp::Grep]
    }
}

/// Whether a tool leaves files as they are.
pub open spec fn reads_only(op: FileOp) -> bool {
    !(op == FileOp::Write || op == FileOp::EditLines || op == FileOp::Edit)
}

fn named(a: &str) -> (r: Vec<String>)
    ensures
        text::views(r@) == seq![a@],
{
    let mut r: Vec<String> = Vec::new();
    r.push(a.to_owned());
    assert(text::views(r@) =~= seq![a@]);
    r
}

fn properties_of(op: FileOp) -> (r: Vec<Property>)
    ensures
        schema::properties_view(r@) == file_properties(op),
{
    let mut r: Vec<Property> = Vec::new();
    match op {
        FileOp::Read | FileOp::ReadAnchored => {
            r.push(schema::property("path", "string", PATH_TEXT));
            r.push(schema::property("offset", "integer", "1-based line to start from"));
            r.push(schema::property("limit", "integer", "Maximum lines to return"));
        },
        FileOp::List => {
            r.push(
                schema::property(
                    "path",
                    "string",
                    "Directory path (default: the working directory)",
                ),
            );
        },
        FileOp::Glob => {
            r.push(schema::property("pattern", "string", "Pattern like src/*.rs or *config*"));
        },
        FileOp::Grep => {
            r.push(schema::property("pattern", "string", "Regular expression to search for"));
            r.push(
                schema::property(
                    "path",
                    "string",
                    "File or directory to search (default: the working directory)",
                ),
            );
            r.push(
                schema::property(
                    "glob",
                    "string",
                    "Only search files whose relative path matches this `*` pattern",
                ),
            );
        },
        FileOp::Write => {
            r.push(schema::property("path", "string", PATH_TEXT));
            r.push(schema::property("content", "string", "The complete new file content"));
        },
        FileOp::EditLines => {
            r.push(schema::property("path", "string", PATH_TEXT));
            r.push(
                schema::property("first", "string", "Anchor of the first line, e.g. 42:9f3a"),
            );
            r.push(
                schema::property("last", "string", "Anchor of the last line (default: first)"),
            );
            r.push(
                schema::property(
                    "new_text",
                    "string",
                    "Replacement text, without anchor prefixes",
                ),
            );
            r.push(
                schema::property(
                    "insert_after",
                    "boolean",
                    "Insert new_text after `first` instead of replacing (default false)",
                ),
            );
        },
        FileOp::Edit => {
            r.push(schema::property("path", "string", PATH_TEXT));
            r.push(schema::property("old_string", "string", "Exact text to replace"));
            r.push(schema::property("new_string", "string", "Replacement text"));
            r.push(
                schema::property(
                    "replace_all",
                    "boolean",
                    "Replace every occurrence (default false)",
                ),
            );
        },
    }
    assert(schema::properties_view(r@) =~= file_properties(op));
    r
}

fn required_of(op: FileOp) -> (r: Option<Vec<String>>)
    ensures
        match r {
            Some(names) => file_required(op) == Some(text::views(names@)),
            None => file_required(op) is None,
        },
{
    match op {
        FileOp::Read | FileOp::ReadAnchored => Some(named("path")),
        FileOp::List => None,
        FileOp::Glob | FileOp::Grep => Some(named("pattern")),
        FileOp::Write => {
            let mut r = named("path");
            text::add_text(&mut r, "content".to_owned());
            assert(text::views(r@) =~= seq!["path"@, "content"@]);
            Some(r)
        },
        FileOp::EditLines => {
            let mut r = named("path");
            text::add_text(&mut r, "first".to_owned());
            text::add_text(&mut r, "new_text".to_owned());
            assert(text::views(r@) =~= seq!["path"@, "first"@, "new_text"@]);
            Some(r)
        },
        FileOp::Edit => {
            let mut r = named("path");
            text::add_text(&mut r, "old_string".to_owned());
            text::add_text(&mut r, "new_string".to_owned());
            assert(text::views(r@) =~= seq!["path"@, "old_string"@, "new_string"@]);
            Some(r)
        },
    }
}

fn definition_of(op: FileOp) -> (r: ToolDefinition)
    ensures
        r@ == file_definition(op),
{
    let description: &str = match op {
        FileOp::Read => READ_TEXT,
        FileOp::ReadAnchored => READ_ANCHORED_TEXT,
        FileOp::List => LIST_TEXT,
        FileOp::Glob => GLOB_TEXT,
        FileOp::Grep => GREP_TEXT,
        FileOp::Write => WRITE_TEXT,
        FileOp::EditLines => EDIT_LINES_TEXT,
        FileOp::Edit => EDIT_TEXT,
    };
    let properties = properties_of(op);
    let parameters = match required_of(op) {
        Some(names) => schema::object_schema(&properties, Some(&names)),
        None => schema::object_schema(&properties, None),
    };
    ToolDefinition {
        name: op.tool_name().to_owned(),
        description: description.to_owned(),
        parameters,
    }
}

/// The file tools a context exposes: read-only ones always, write ones only
/// when `read_write` is true. The flag says whether the tool is read-only.
pub fn definitions(read_write: bool) -> (tools: Vec<(ToolDefinition, FileOp, bool)>)
    ensures
        tools@.len() == file_ops(read_write).len(),
        forall|i: int|
            0 <= i < tools@.len() ==> (#[trigger] tools@[i]).1 == file_ops(read_write)[i]
                && tools@[i].0@ == file_definition(file_ops(read_write)[i]) && tools@[i].2
                == reads_only(file_ops(read_write)[i]),
{
    let mut tools: Vec<(ToolDefinition, FileOp, bool)> = Vec::new();
    let read = if read_write {
        FileOp::ReadAnchored
    } else {
        FileOp::Read
    };
    tools.push((definition_of(read), read, true));
    tools.push((definition_of(FileOp::List), FileOp::List, true));
    tools.push((definition_of(FileOp::Glob), FileOp::Glob, true));
    tools.push((definition_of(FileOp::Grep), FileOp::Grep, true));
    if read_write {
        tools.push((definition_of(FileOp::Write), FileOp::Write, false));
        tools.push((definition_of(FileOp::EditLines), FileOp::EditLines, false));
        tools.push((definition_of(FileOp::Edit), FileOp::Edit, false));
    }
    tools
}

/// A context that may not write is offered no tool that writes.
pub proof fn law_read_only_contexts_get_no_write_tools(i: int)
    requires
        0 <= i < file_ops(false).len(),
    ensures
        reads_only(file_ops(false)[i]),
{
}

// ---------------------------------------------------------------------------
// Arguments
// ---------------------------------------------------------------------------

/// The reply to a call without a required argument.
pub open spec fn missing_spec(key: Seq<char>) -> Seq<char> {
    "ERROR: missing required string argument `"@ + key + "`"@
}

/// The reply to a call without a required argument.
pub fn missing(key: &str) -> (r: String)
    ensures
        r@ == missing_spec(key@),
{
    text::cat3("ERROR: missing required string argument `", key, "`")
}

/// A file call with its arguments read.
#[allow(inconsistent_fields)]
pub enum FileRequest {
    Read { path: String, offset: Option<u64>, limit: Option<u64>, anchored: bool },
    Write { path: String, content: String },
    Edit { path: String, old: String, new: String, all: bool },
    EditLines {
        path: String,
        first: String,
        last: Option<String>,
        new_text: String,
        insert_after: bool,
    },
    List { path: String },
    Glob { pattern: String },
    Grep { pattern: String, path: String, filter: Option<String> },
}

/// What a file call stands for.
#[allow(inconsistent_fields)]
pub enum FileRequestView {
    Read { path: Seq<char>, offset: Option<u64>, limit: Option<u64>, anchored: bool },
    Write { path: Seq<char>, content: Seq<char> },
    Edit { path: Seq<char>, old: Seq<char>, new: Seq<char>, all: bool },
    EditLines {
        path: Seq<char>,
        first: Seq<char>,
        last: Option<Seq<char>>,
        new_text: Seq<char>,
        insert_after: bool,
    },
    List { path: Seq<char> },
    Glob { pattern: Seq<char> },
    Grep { pattern: Seq<char>, path: Seq<char>, filter: Option<Seq<char>> },
}

impl View for FileRequest {
    type V = FileRequestView;

    open spec fn view(&self) -> FileRequestView {
        match self {
            FileRequest::Read { path, offset, limit, anchored } => FileRequestView::Read {
                path: path@,
                offset: *offset,
                limit: *limit,
                anchored: *anchored,
            },
            FileRequest::Write { path, content } => FileRequestView::Write {
                path: path@,
                content: content@,
            },
            FileRequest::Edit { path, old, new, all } => FileRequestView::Edit {
                path: path@,
                old: old@,
                new: new@,
                all: *all,
            },
            FileRequest::EditLines { path, first, last, new_text, insert_after } => {
                FileRequestView::EditLines {
                    path: path@,
                    first: first@,
                    last: model::option_text(*last),
                    new_text: new_text@,
                    insert_after: *insert_after,
                }
            },
            FileRequest::List { path } => FileRequestView::List { path: path@ },
            FileRequest::Glob { pattern } => FileRequestView::Glob { pattern: pattern@ },
            FileRequest::Grep { pattern, path, filter } => FileRequestView::Grep {
                pattern: pattern@,
                path: path@,
                filter: model::option_text(*filter),
            },
        }
    }
}

/// Whether a flag is set in the arguments.
pub open spec fn flag_set(arguments: json::JsonView, name: Seq<char>) -> bool {
    arguments.flag_field(name) == Some(true)
}

/// The first of the required arguments that is not there.
pub open spec fn absent(arguments: json::JsonView, keys: Seq<Seq<char>>) -> Option<Seq<char>>
    decreases keys.len(),
{
    if keys.len() == 0 {
        None
    } else if arguments.text_field(keys[0]) is None {
        Some(keys[0])
    } else {
        absent(arguments, keys.skip(1))
    }
}

/// The required text arguments of each tool, in the order in which they are
/// asked for.
pub open spec fn asked(op: FileOp) -> Seq<Seq<char>> {
    match op {
        FileOp::Read | FileOp::ReadAnchored => seq!["path"@],
        FileOp::Write => seq!["path"@, "content"@],
        FileOp::Edit => seq!["path"@, "old_string"@, "new_string"@],
        FileOp::EditLines => seq!["path"@, "first"@, "new_text"@],
        FileOp::List => seq![],
        FileOp::Glob | FileOp::Grep => seq!["pattern"@],
    }
}

/// The call that the arguments make.
pub open spec fn request_spec(op: FileOp, arguments: json::JsonView) -> Result<
    FileRequestView,
    Seq<char>,
> {
    match absent(arguments, asked(op)) {
        Some(key) => Err(missing_spec(key)),
        None => Ok(
            match op {
                FileOp::Read | FileOp::ReadAnchored => FileRequestView::Read {
                    path: arguments.text_or_empty("path"@),
                    offset: arguments.count_field("offset"@),
                    limit: arguments.count_field("limit"@),
                    anchored: op == FileOp::ReadAnchored,
                },
                FileOp::Write => FileRequestView::Write {
                    path: arguments.text_or_empty("path"@),
                    content: arguments.text_or_empty("content"@),
                },
                FileOp::Edit => FileRequestView::Edit {
                    path: arguments.text_or_empty("path"@),
                    old: arguments.text_or_empty("old_string"@),
                    new: arguments.text_or_empty("new_string"@),
                    all: flag_set(arguments, "replace_all"@),
                },
                FileOp::EditLines => FileRequestView::EditLines {
                    path: arguments.text_or_empty("path"@),
                    first: arguments.text_or_empty("first"@),
                    last: arguments.text_field("last"@),
                    new_text: arguments.text_or_empty("new_text"@),
                    insert_after: flag_set(arguments, "insert_after"@),
                },
                FileOp::List => FileRequestView::List { path: arguments.text_or_empty("path"@) },
                FileOp::Glob => FileRequestView::Glob {
                    pattern: arguments.text_or_empty("pattern"@),
                },
                FileOp::Grep => FileRequestView::Grep {
                    pattern: arguments.text_or_empty("pattern"@),
                    path: arguments.text_or_empty("path"@),
                    filter: arguments.text_field("glob"@),
                },
            },
        ),
    }
}

fn owned(s: Option<&str>) -> (r: Option<String>)
    ensures
        match s {
            Some(t) => model::option_text(r) == Some(t@),
            None => r is None,
        },
{
    match s {
        Some(t) => Some(t.to_owned()),
        None => None,
    }
}

fn is_set(arguments: &Json, name: &str) -> (r: bool)
    ensures
        r == flag_set(arguments@, name@),
{
    match arguments.flag_field(name) {
        Some(b) => b,
        None => false,
    }
}

/// Read the arguments of a file call. A missing one is an `ERROR:` reply.
pub fn read_request(op: FileOp, arguments: &Json) -> (r: Result<FileRequest, String>)
    ensures
        match r {
            Ok(request) => request_spec(op, arguments@) == Ok::<FileRequestView, Seq<char>>(
                request@,
            ),
            Err(e) => request_spec(op, arguments@) == Err::<FileRequestView, Seq<char>>(e@),
        },
{
    let ghost keys = asked(op);
    proof {
        reveal_with_fuel(absent, 4);
        if keys.len() > 1 {
            assert(keys.skip(1)[0] == keys[1]);
        }
        if keys.len() > 2 {
            assert(keys.skip(1).skip(1)[0] == keys[2]);
        }
    }
    match op {
        FileOp::Read | FileOp::ReadAnchored => {
            let path = match arguments.text_field("path") {
                Some(p) => p.to_owned(),
                None => {
                    return Err(missing("path"));
                },
            };
            Ok(
                FileRequest::Read {
                    path,
                    offset: arguments.count_field("offset"),
                    limit: arguments.count_field("limit"),
                    anchored: op == FileOp::ReadAnchored,
                },
            )
        },
        FileOp::Write => {
            let path = match arguments.text_field("path") {
                Some(p) => p.to_owned(),
                None => {
                    return Err(missing("path"));
                },
            };
            let content = match arguments.text_field("content") {
                Some(p) => p.to_owned(),
                None => {
                    return Err(missing("content"));
                },
            };
            Ok(FileRequest::Write { path, content })
        },
        FileOp::Edit => {
            let path = match arguments.text_field("path") {
                Some(p) => p.to_owned(),
                None => {
                    return Err(missing("path"));
                },
            };
            let old = match arguments.text_field("old_string") {
                Some(p) => p.to_owned(),
                None => {
                    return Err(missing("old_string"));
                },
            };
            let new = match arguments.text_field("new_string") {
                Some(p) => p.to_owned(),
                None => {
                    return Err(missing("new_string"));
                },
            };
            Ok(FileRequest::Edit { path, old, new, all: is_set(arguments, "replace_all") })
        },
        FileOp::EditLines => {
            let path = match arguments.text_field("path") {
                Some(p) => p.to_owned(),
                None => {
                    return Err(missing("path"));
                },
            };
            let first = match arguments.text_field("first") {
                Some(p) => p.to_owned(),
                None => {
                    return Err(missing("first"));
                },
            };
            let new_text = match arguments.text_field("new_text") {
                Some(p) => p.to_owned(),
                None => {
                    return Err(missing("new_text"));
                },
            };
            Ok(
                FileRequest::EditLines {
                    path,
                    first,
                    last: owned(arguments.text_field("last")),
                    new_text,
                    insert_after: is_set(arguments, "insert_after"),
                },
            )
        },
        FileOp::List => Ok(FileRequest::List { path: arguments.text_or_empty("path") }),
        FileOp::Glob => {
            let pattern = match arguments.text_field("pattern") {
                Some(p) => p.to_owned(),
                None => {
                    return Err(missing("pattern"));
                },
            };
            Ok(FileRequest::Glob { pattern })
        },
        FileOp::Grep => {
            let pattern = match arguments.text_field("pattern") {
                Some(p) => p.to_owned(),
                None => {
                    return Err(missing("pattern"));
                },
            };
            Ok(
                FileRequest::Grep {
                    pattern,
                    path: arguments.text_or_empty("path"),
                    filter: owned(arguments.text_field("glob")),
                },
            )
        },
    }
}

} // verus!
