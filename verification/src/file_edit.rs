//! Reading windows of files, and edits by exact text or by line anchors.

use vstd::prelude::*;
use vstd::string::*;

use crate::find;
use crate::numbers;
use crate::text;
use crate::text_laws;

verus! {

// ---------------------------------------------------------------------------
// Anchors
// ---------------------------------------------------------------------------

/// FNV-1a over the bytes, 32 bits wide.
pub open spec fn fnv_spec(bytes: Seq<u8>) -> u32
    decreases bytes.len(),
{
    if bytes.len() == 0 {
        0x811c_9dc5
    } else {
        (fnv_spec(bytes.drop_last()) ^ (bytes.last() as u32)).wrapping_mul(0x0100_0193)
    }
}

/// The hash folded to 16 bits.
pub open spec fn folded(hash: u32) -> u32 {
    (hash ^ (hash >> 16)) & 0xffff
}

/// A line's anchor hash: four hexadecimal digits.
pub open spec fn line_hash_spec(line: Seq<char>) -> Seq<char> {
    numbers::hex4_spec(folded(fnv_spec(vstd::utf8::encode_utf8(line))) as nat)
}

/// A short content hash for line anchors: FNV-1a folded to 16 bits, as four
/// hexadecimal digits. It guards a line against having changed; the line
/// number does the locating.
pub fn line_hash(line: &str) -> (r: String)
    ensures
        r@ == line_hash_spec(line@),
{
    let bytes = line.as_bytes();
    let ghost all = bytes@;
    let mut hash: u32 = 0x811c_9dc5;
    let mut i: usize = 0;
    let n: usize = bytes.len();
    while i < n
        invariant
            i <= n,
            n == bytes@.len(),
            all == bytes@,
            hash == fnv_spec(all.take(i as int)),
        decreases n - i,
    {
        assert(all.take(i + 1).drop_last() =~= all.take(i as int));
        hash = hash ^ (bytes[i] as u32);
        hash = hash.wrapping_mul(0x0100_0193);
        i = i + 1;
    }
    assert(all.take(n as int) =~= all);
    let short: u32 = (hash ^ (hash >> 16)) & 0xffff;
    assert(short < 65536) by {
        assert((hash ^ (hash >> 16)) & 0xffff < 65536u32) by (bit_vector);
    }
    numbers::hex4(short)
}

/// The anchor of a line: its number, and a hash of what it holds.
pub open spec fn anchor_of(number: nat, line: Seq<char>) -> Seq<char> {
    numbers::decimal_spec(number) + ":"@ + line_hash_spec(line)
}

/// A line with its anchor.
pub open spec fn anchored_line(number: nat, line: Seq<char>) -> Seq<char> {
    anchor_of(number, line) + "|"@ + line
}

/// Lines with their anchors, numbered from `start`.
pub open spec fn anchored_spec(lines: Seq<Seq<char>>, start: nat) -> Seq<char> {
    text::join_spec(
        Seq::new(lines.len(), |i: int| anchored_line((start + i) as nat, lines[i])),
        "\n"@,
    )
}

fn with_anchor(number: u64, line: &str) -> (r: String)
    ensures
        r@ == anchored_line(number as nat, line@),
{
    text::cat5(
        numbers::decimal(number).as_str(),
        ":",
        line_hash(line).as_str(),
        "|",
        line,
    )
}

/// Render lines with `LINE:HASH|` anchors, numbering from `start`.
pub fn anchored_lines(lines: &Vec<String>, start: u64) -> (r: String)
    requires
        start + lines@.len() <= u64::MAX + 1,
    ensures
        r@ == anchored_spec(text::views(lines@), start as nat),
{
    let ghost expected = Seq::new(
        lines@.len(),
        |i: int| anchored_line((start + i) as nat, text::views(lines@)[i]),
    );
    let mut out: Vec<String> = Vec::new();
    let mut i: usize = 0;
    while i < lines.len()
        invariant
            i <= lines@.len(),
            start + lines@.len() <= u64::MAX + 1,
            out@.len() == i,
            expected == Seq::new(
                lines@.len(),
                |i: int| anchored_line((start + i) as nat, text::views(lines@)[i]),
            ),
            forall|k: int| 0 <= k < i ==> (#[trigger] out@[k])@ == expected[k],
        decreases lines@.len() - i,
    {
        out.push(with_anchor(start + i as u64, lines[i].as_str()));
        i = i + 1;
    }
    assert(text::views(out@) =~= expected);
    text::join(&out, "\n")
}

// ---------------------------------------------------------------------------
// Reading
// ---------------------------------------------------------------------------

/// The lines from `start` on, at most `limit` of them.
pub open spec fn window_spec(lines: Seq<Seq<char>>, start: nat, limit: Option<u64>) -> Seq<
    Seq<char>,
> {
    let rest = if start < lines.len() {
        lines.skip(start as int)
    } else {
        seq![]
    };
    match limit {
        Some(l) => if l < rest.len() {
            rest.take(l as int)
        } else {
            rest
        },
        None => rest,
    }
}

/// What a read replies: the whole content, or a window with a heading that
/// says which lines it holds.
pub open spec fn read_spec(
    content: Seq<char>,
    offset: Option<u64>,
    limit: Option<u64>,
    anchored: bool,
) -> Seq<char> {
    let lines = text::lines_spec(content);
    let from: Option<u64> = match offset {
        Some(o) => Some(o),
        None => if limit is Some {
            Some(1)
        } else {
            None
        },
    };
    match from {
        None => if anchored {
            anchored_spec(lines, 1)
        } else {
            content
        },
        Some(o) => {
            let start: nat = if o > 1 {
                (o - 1) as nat
            } else {
                0
            };
            let window = window_spec(lines, start, limit);
            let body = if anchored {
                anchored_spec(window, start + 1)
            } else {
                text::join_spec(window, "\n"@)
            };
            "[lines "@ + numbers::decimal_spec(start + 1) + "-"@ + numbers::decimal_spec(
                start + window.len(),
            ) + " of "@ + numbers::decimal_spec(lines.len()) + "]\n"@ + body
        },
    }
}

fn window(lines: &Vec<String>, start: u64, limit: Option<u64>) -> (r: Vec<String>)
    ensures
        text::views(r@) == window_spec(text::views(lines@), start as nat, limit),
        r@.len() <= lines@.len(),
        start >= lines@.len() ==> r@.len() == 0,
        start + r@.len() <= lines@.len() || r@.len() == 0,
{
    let mut out: Vec<String> = Vec::new();
    let ghost all = text::views(lines@);
    let ghost expected = window_spec(all, start as nat, limit);
    let n: usize = lines.len();
    if start >= n as u64 {
        assert(text::views(out@) =~= expected);
        return out;
    }
    let from: usize = start as usize;
    let rest: usize = n - from;
    let count: usize = match limit {
        Some(l) => if l < rest as u64 {
            l as usize
        } else {
            rest
        },
        None => rest,
    };
    let mut i: usize = 0;
    while i < count
        invariant
            i <= count,
            from + count <= n,
            n == lines@.len(),
            all == text::views(lines@),
            out@.len() == i,
            forall|k: int| 0 <= k < i ==> (#[trigger] out@[k])@ == all[from + k],
        decreases count - i,
    {
        out.push(lines[from + i].clone());
        i = i + 1;
    }
    assert(text::views(out@) =~= expected);
    out
}

/// What a read of a file with this content replies.
pub fn read_reply(content: &str, offset: Option<u64>, limit: Option<u64>, anchored: bool) -> (r:
    String)
    ensures
        r@ == read_spec(content@, offset, limit, anchored),
{
    let lines = text::lines(content);
    let total: usize = lines.len();
    assert(text::views(lines@).len() == total);
    let from: Option<u64> = match offset {
        Some(o) => Some(o),
        None => if limit.is_some() {
            Some(1)
        } else {
            None
        },
    };
    match from {
        None => {
            if anchored {
                anchored_lines(&lines, 1)
            } else {
                content.to_owned()
            }
        },
        Some(o) => {
            let start: u64 = if o > 1 {
                o - 1
            } else {
                0
            };
            let shown = window(&lines, start, limit);
            assert(text::views(shown@).len() == shown@.len());
            let body = if anchored {
                anchored_lines(&shown, start + 1)
            } else {
                text::join(&shown, "\n")
            };
            let mut out = "[lines ".to_owned();
            out.append(numbers::decimal(start + 1).as_str());
            out.append("-");
            out.append(numbers::decimal(start + shown.len() as u64).as_str());
            out.append(" of ");
            out.append(numbers::decimal_len(total).as_str());
            out.append("]\n");
            out.append(body.as_str());
            out
        },
    }
}

/// A text has at most as many lines as it has characters.
proof fn lemma_line_count(s: Seq<char>)
    ensures
        text::lines_spec(s).len() <= s.len(),
        text::lines_state(s).0.len() + text::lines_state(s).1.len() <= s.len(),
    decreases s.len(),
{
    if s.len() > 0 {
        lemma_line_count(s.drop_last());
    }
}

/// What a write replies.
pub open spec fn write_spec(path: Seq<char>, content: Seq<char>, existed: bool) -> Seq<char> {
    (if existed {
        "overwrote"@
    } else {
        "created"@
    }) + " `"@ + path + "` ("@ + numbers::decimal_spec(text::byte_len(content)) + " bytes)"@
}

/// What a write of this content replies.
pub fn write_reply(path: &str, content: &str, existed: bool) -> (r: String)
    ensures
        r@ == write_spec(path@, content@, existed),
{
    let verb = if existed {
        "overwrote"
    } else {
        "created"
    };
    let mut out = text::cat4(verb, " `", path, "` (");
    out.append(numbers::decimal_len(text::bytes_in(content)).as_str());
    out.append(" bytes)");
    out
}

// ---------------------------------------------------------------------------
// Editing by exact text
// ---------------------------------------------------------------------------

/// A finished edit: the file's new content and the reply.
pub struct FileEdit {
    pub content: String,
    pub reply: String,
}

/// Why an edit may not begin, whatever the file holds.
pub open spec fn edit_refused(old_text: Seq<char>, new_text: Seq<char>) -> Option<Seq<char>> {
    if old_text.len() == 0 {
        Some("ERROR: `old_string` must not be empty"@)
    } else if old_text == new_text {
        Some("ERROR: `old_string` and `new_string` are identical"@)
    } else {
        None
    }
}

/// Whether an edit may begin, whatever the file holds.
pub fn check_edit(old_text: &str, new_text: &str) -> (r: Result<(), String>)
    ensures
        match r {
            Ok(()) => edit_refused(old_text@, new_text@) is None,
            Err(e) => edit_refused(old_text@, new_text@) == Some(e@),
        },
{
    if old_text.is_empty() {
        return Err("ERROR: `old_string` must not be empty".to_owned());
    }
    if text::same(old_text, new_text) {
        return Err("ERROR: `old_string` and `new_string` are identical".to_owned());
    }
    Ok(())
}

/// The new content and the reply of an exact-text edit, or its error.
pub open spec fn edit_spec(
    path: Seq<char>,
    content: Seq<char>,
    old_text: Seq<char>,
    new_text: Seq<char>,
    replace_all: bool,
) -> Result<(Seq<char>, Seq<char>), Seq<char>> {
    let n = find::count_spec(content, old_text, 0);
    match edit_refused(old_text, new_text) {
        Some(e) => Err(e),
        None => if n == 0 {
            Err(
                "ERROR: `old_string` was not found in `"@ + path
                    + "` — re-read the file and match the current text exactly"@,
            )
        } else if n > 1 && !replace_all {
            Err(
                "ERROR: `old_string` occurs "@ + numbers::decimal_spec(n) + " times in `"@ + path
                    + "` — include more surrounding context to pin down one occurrence, or pass replace_all"@,
            )
        } else {
            Ok(
                (
                    if replace_all {
                        find::replace_spec(content, old_text, new_text, 0)
                    } else {
                        find::replace_first_spec(content, old_text, new_text)
                    },
                    "edited `"@ + path + "` ("@ + numbers::decimal_spec(n) + " replacement"@ + (
                    if n == 1 {
                        ""@
                    } else {
                        "s"@
                    }) + ")"@,
                ),
            )
        },
    }
}

/// Replace an exact string: it must occur once, or `replace_all` be set.
pub fn edit_text(path: &str, content: &str, old_text: &str, new_text: &str, replace_all: bool) -> (r:
    Result<FileEdit, String>)
    ensures
        match r {
            Ok(edit) => edit_spec(path@, content@, old_text@, new_text@, replace_all) == Ok::<
                (Seq<char>, Seq<char>),
                Seq<char>,
            >((edit.content@, edit.reply@)),
            Err(e) => edit_spec(path@, content@, old_text@, new_text@, replace_all) == Err::<
                (Seq<char>, Seq<char>),
                Seq<char>,
            >(e@),
        },
{
    match check_edit(old_text, new_text) {
        Err(e) => {
            return Err(e);
        },
        Ok(()) => {},
    }
    let n: usize = find::count(content, old_text);
    if n == 0 {
        return Err(
            text::cat3(
                "ERROR: `old_string` was not found in `",
                path,
                "` — re-read the file and match the current text exactly",
            ),
        );
    }
    if n > 1 && !replace_all {
        return Err(
            text::cat5(
                "ERROR: `old_string` occurs ",
                numbers::decimal_len(n).as_str(),
                " times in `",
                path,
                "` — include more surrounding context to pin down one occurrence, or pass replace_all",
            ),
        );
    }
    let updated = if replace_all {
        find::replace(content, old_text, new_text)
    } else {
        find::replace_first(content, old_text, new_text)
    };
    let mut reply = text::cat5(
        "edited `",
        path,
        "` (",
        numbers::decimal_len(n).as_str(),
        " replacement",
    );
    if n == 1 {
        reply.append("");
    } else {
        reply.append("s");
    }
    reply.append(")");
    Ok(FileEdit { content: updated, reply })
}

// ---------------------------------------------------------------------------
// Editing by anchors
// ---------------------------------------------------------------------------

/// The line number and hash that an anchor names.
pub open spec fn anchor_parts(anchor: Seq<char>) -> Option<(nat, Seq<char>)> {
    match find::split_once_spec(text::trim_spec(anchor), ':') {
        None => None,
        Some((number, hash)) => match numbers::parse_spec(number, usize::MAX as nat) {
            None => None,
            Some(n) => if n > 0 && text::trim_spec(hash).len() > 0 {
                Some((n, text::lowercased(text::trim_spec(hash))))
            } else {
                None
            },
        },
    }
}

/// The reply to an anchor that is none.
pub open spec fn not_an_anchor(anchor: Seq<char>) -> Seq<char> {
    "ERROR: `"@ + anchor
        + "` is not a line anchor — copy one verbatim from a read_file listing (they look like `42:9f3a`)"@
}

proof fn lemma_anchor_is_read(number: nat, line: Seq<char>)
    requires
        0 < number <= usize::MAX,
    ensures
        ({
            let anchor = anchor_of(number, line);
            let hash = line_hash_spec(line);
            &&& find::split_once_spec(text::trim_spec(anchor), ':') == Some(
                (numbers::decimal_spec(number), hash),
            )
            &&& numbers::parse_spec(numbers::decimal_spec(number), usize::MAX as nat) == Some(
                number,
            )
            &&& text::trim_spec(hash) == hash
            &&& hash.len() > 0
            &&& vstd::utf8::is_ascii_chars(hash)
            &&& hash.map_values(|c: char| text::ascii_lower_spec(c)) == hash
        }),
{
    let digits = numbers::decimal_spec(number);
    let hash = line_hash_spec(line);
    let anchor = anchor_of(number, line);
    reveal_strlit(":");
    numbers::lemma_decimal_reads_back(number);
    numbers::lemma_hex_is_plain(folded(fnv_spec(vstd::utf8::encode_utf8(line))) as nat);
    assert(anchor[0] == digits[0]);
    assert(anchor.last() == hash.last());
    assert('0' <= digits[0] <= '9');
    text_laws::lemma_trim_padded(seq![], anchor, seq![]);
    assert(seq![] + anchor + seq![] =~= anchor);
    text_laws::lemma_trim_padded(seq![], hash, seq![]);
    assert(seq![] + hash + seq![] =~= hash);
    if digits.contains(':') {
        let i = choose|i: int| 0 <= i < digits.len() && digits[i] == ':';
        assert('0' <= digits[i] <= '9');
    }
    find::lemma_split_at(digits, ':', hash);
    assert(anchor =~= digits + seq![':'] + hash);
    assert(hash.map_values(|c: char| text::ascii_lower_spec(c)) =~= hash);
}

/// Parse an anchor like `42:9f3a` into its 1-based line number and hash. The
/// anchor of a line is read as that line's number and hash.
pub fn parse_anchor(anchor: &str) -> (r: Result<(usize, String), String>)
    ensures
        match r {
            Ok((number, hash)) => anchor_parts(anchor@) == Some((number as nat, hash@)) && number
                > 0,
            Err(e) => anchor_parts(anchor@) is None && e@ == not_an_anchor(anchor@),
        },
        forall|n: nat, line: Seq<char>|
            0 < n <= usize::MAX && anchor@ == #[trigger] anchor_of(n, line) ==> (r matches Ok(
                (number, hash),
            ) && number == n && hash@ == line_hash_spec(line)),
{
    let trimmed = text::trim(anchor);
    match find::split_once(trimmed.as_str(), ':') {
        None => {},
        Some((number, hash)) => {
            let hash = text::trim(hash.as_str());
            match numbers::parse(number.as_str(), usize::MAX as u64) {
                None => {},
                Some(n) => {
                    if n > 0 && !hash.as_str().is_empty() {
                        let low = text::lowercase(hash.as_str());
                        proof {
                            assert forall|k: nat, line: Seq<char>|
                                0 < k <= usize::MAX && anchor@ == #[trigger] anchor_of(
                                    k,
                                    line,
                                ) implies n == k && low@ == line_hash_spec(line) by {
                                lemma_anchor_is_read(k, line);
                            }
                        }
                        return Ok((n as usize, low));
                    }
                },
            }
        },
    }
    proof {
        assert forall|k: nat, line: Seq<char>| 0 < k <= usize::MAX implies anchor@
            != #[trigger] anchor_of(k, line) by {
            lemma_anchor_is_read(k, line);
        }
    }
    Err(
        text::cat3(
            "ERROR: `",
            anchor,
            "` is not a line anchor — copy one verbatim from a read_file listing (they look like `42:9f3a`)",
        ),
    )
}

/// The line that an anchor names, where its hash is still that line's.
pub open spec fn verified_line(path: Seq<char>, lines: Seq<Seq<char>>, anchor: Seq<char>) -> Result<
    nat,
    Seq<char>,
> {
    match anchor_parts(anchor) {
        None => Err(not_an_anchor(anchor)),
        Some((number, hash)) => if number > lines.len() {
            Err(
                "ERROR: anchor `"@ + anchor + "` is out of range — `"@ + path + "` has "@
                    + numbers::decimal_spec(lines.len()) + " line(s)"@,
            )
        } else {
            let line = lines[number - 1];
            if line_hash_spec(line) != hash {
                Err(
                    "ERROR: stale anchor `"@ + anchor + "` — line "@ + numbers::decimal_spec(
                        number,
                    ) + " is now `"@ + anchored_line(number, line)
                        + "`. The file changed since you read it; re-read it and use fresh anchors."@,
                )
            } else {
                Ok(number)
            }
        },
    }
}

fn verify_anchor(path: &str, lines: &Vec<String>, anchor: &str) -> (r: Result<usize, String>)
    ensures
        match r {
            Ok(n) => verified_line(path@, text::views(lines@), anchor@) == Ok::<nat, Seq<char>>(
                n as nat,
            ) && 1 <= n <= lines@.len(),
            Err(e) => verified_line(path@, text::views(lines@), anchor@) == Err::<nat, Seq<char>>(
                e@,
            ),
        },
        forall|n: nat|
            1 <= n <= lines@.len() && anchor@ == #[trigger] anchor_of(
                n,
                text::views(lines@)[n - 1],
            ) ==> (r matches Ok(k) && k == n),
{
    let count: usize = lines.len();
    let (number, hash) = match parse_anchor(anchor) {
        Ok(p) => p,
        Err(e) => {
            return Err(e);
        },
    };
    if number > count {
        let mut e = text::cat5("ERROR: anchor `", anchor, "` is out of range — `", path, "` has ");
        e.append(numbers::decimal_len(count).as_str());
        e.append(" line(s)");
        return Err(e);
    }
    let line = lines[number - 1].as_str();
    assert(text::views(lines@)[number - 1] == line@);
    let current = line_hash(line);
    if !text::same(current.as_str(), hash.as_str()) {
        let mut e = text::cat5(
            "ERROR: stale anchor `",
            anchor,
            "` — line ",
            numbers::decimal_len(number).as_str(),
            " is now `",
        );
        e.append(with_anchor(number as u64, line).as_str());
        e.append(
            "`. The file changed since you read it; re-read it and use fresh anchors.",
        );
        return Err(e);
    }
    Ok(number)
}

/// The lines that replace the range.
pub open spec fn replacement_lines(new_text: Seq<char>) -> Seq<Seq<char>> {
    if new_text.len() == 0 {
        seq![]
    } else {
        text::lines_spec(new_text)
    }
}

/// The file's lines after the edit.
pub open spec fn edited_lines(
    lines: Seq<Seq<char>>,
    first: nat,
    last: nat,
    replacement: Seq<Seq<char>>,
    insert_after: bool,
) -> Seq<Seq<char>> {
    if insert_after {
        lines.take(first as int) + replacement + lines.skip(first as int)
    } else {
        lines.take(first - 1) + replacement + lines.skip(last as int)
    }
}

/// The file's content after the edit: a trailing line feed is kept where
/// there was one.
pub open spec fn edited_content(content: Seq<char>, lines: Seq<Seq<char>>) -> Seq<char> {
    let joined = text::join_spec(lines, "\n"@);
    if content.len() > 0 && content.last() == '\n' && joined.len() > 0 {
        joined.push('\n')
    } else {
        joined
    }
}

/// What the edit did, in words.
pub open spec fn action_text(first: nat, last: nat, count: nat, insert_after: bool) -> Seq<char> {
    if insert_after {
        "inserted "@ + numbers::decimal_spec(count) + " line(s) after line "@
            + numbers::decimal_spec(first)
    } else if count == 0 {
        "deleted lines "@ + numbers::decimal_spec(first) + "-"@ + numbers::decimal_spec(last)
    } else {
        "replaced lines "@ + numbers::decimal_spec(first) + "-"@ + numbers::decimal_spec(last)
            + " with "@ + numbers::decimal_spec(count) + " line(s)"@
    }
}

/// The reply to a line edit: what it did, and fresh anchors two lines around
/// the change.
pub open spec fn edit_lines_reply(
    path: Seq<char>,
    updated: Seq<Seq<char>>,
    first: nat,
    last: nat,
    count: nat,
    insert_after: bool,
) -> Seq<char> {
    let region: int = if insert_after {
        first as int
    } else {
        first - 1
    };
    let from: int = if region > 2 {
        region - 2
    } else {
        0
    };
    let to: int = if region + count + 2 < updated.len() {
        region + count + 2
    } else {
        updated.len() as int
    };
    let head = "edited `"@ + path + "`: "@ + action_text(first, last, count, insert_after);
    if from < to {
        head + "\n[lines "@ + numbers::decimal_spec((from + 1) as nat) + "-"@
            + numbers::decimal_spec(to as nat) + " of "@ + numbers::decimal_spec(updated.len())
            + " — fresh anchors]\n"@ + anchored_spec(
            updated.subrange(from, to),
            (from + 1) as nat,
        )
    } else {
        head
    }
}

/// The last line of the range: the one that `last` names, unless lines are
/// inserted or none is named.
pub open spec fn range_end(
    path: Seq<char>,
    lines: Seq<Seq<char>>,
    first: nat,
    last: Option<Seq<char>>,
    insert_after: bool,
) -> Result<nat, Seq<char>> {
    match last {
        Some(anchor) => if insert_after {
            Ok(first)
        } else {
            verified_line(path, lines, anchor)
        },
        None => Ok(first),
    }
}

/// The new content and the reply of a line edit, or its error.
pub open spec fn edit_lines_spec(
    path: Seq<char>,
    content: Seq<char>,
    first: Seq<char>,
    last: Option<Seq<char>>,
    new_text: Seq<char>,
    insert_after: bool,
) -> Result<(Seq<char>, Seq<char>), Seq<char>> {
    let lines = text::lines_spec(content);
    match verified_line(path, lines, first) {
        Err(e) => Err(e),
        Ok(from) => match range_end(path, lines, from, last, insert_after) {
            Err(e) => Err(e),
            Ok(to) => if to < from {
                Err(
                    "ERROR: `last` (line "@ + numbers::decimal_spec(to)
                        + ") is before `first` (line "@ + numbers::decimal_spec(from) + ")"@,
                )
            } else {
                let replacement = replacement_lines(new_text);
                let updated = edited_lines(lines, from, to, replacement, insert_after);
                Ok(
                    (
                        edited_content(content, updated),
                        edit_lines_reply(
                            path,
                            updated,
                            from,
                            to,
                            replacement.len(),
                            insert_after,
                        ),
                    ),
                )
            },
        },
    }
}

fn push_range(out: &mut Vec<String>, lines: &Vec<String>, from: usize, to: usize)
    requires
        from <= to <= lines@.len(),
    ensures
        text::views(final(out)@) == text::views(old(out)@) + text::views(lines@).subrange(
            from as int,
            to as int,
        ),
{
    let ghost start = text::views(out@);
    let ghost all = text::views(lines@);
    let mut i: usize = from;
    assert(start + all.subrange(from as int, from as int) =~= start);
    while i < to
        invariant
            from <= i <= to <= lines@.len(),
            all == text::views(lines@),
            text::views(out@) == start + all.subrange(from as int, i as int),
        decreases to - i,
    {
        text::add_text(out, lines[i].clone());
        assert(start + all.subrange(from as int, i + 1) =~= (start + all.subrange(
            from as int,
            i as int,
        )).push(all[i as int]));
        i = i + 1;
    }
}

fn action(first: usize, last: usize, count: usize, insert_after: bool) -> (r: String)
    ensures
        r@ == action_text(first as nat, last as nat, count as nat, insert_after),
{
    let from = numbers::decimal_len(first);
    let to = numbers::decimal_len(last);
    let n = numbers::decimal_len(count);
    if insert_after {
        text::cat4("inserted ", n.as_str(), " line(s) after line ", from.as_str())
    } else if count == 0 {
        text::cat4("deleted lines ", from.as_str(), "-", to.as_str())
    } else {
        let mut out = text::cat5("replaced lines ", from.as_str(), "-", to.as_str(), " with ");
        out.append(n.as_str());
        out.append(" line(s)");
        out
    }
}

fn lines_reply(
    path: &str,
    updated: &Vec<String>,
    first: usize,
    last: usize,
    count: usize,
    insert_after: bool,
) -> (r: String)
    requires
        1 <= first,
        first + count <= updated@.len() + 1,
        insert_after ==> first + count <= updated@.len(),
        updated@.len() < usize::MAX - 2,
    ensures
        r@ == edit_lines_reply(
            path@,
            text::views(updated@),
            first as nat,
            last as nat,
            count as nat,
            insert_after,
        ),
{
    let region: usize = if insert_after {
        first
    } else {
        first - 1
    };
    let from: usize = if region > 2 {
        region - 2
    } else {
        0
    };
    let n: usize = updated.len();
    let to: usize = if region + count + 2 < n {
        region + count + 2
    } else {
        n
    };
    let done = action(first, last, count, insert_after);
    let mut out = text::cat4("edited `", path, "`: ", done.as_str());
    assert(text::views(updated@).len() == n);
    if from < to {
        let mut shown: Vec<String> = Vec::new();
        push_range(&mut shown, updated, from, to);
        let ghost part = text::views(updated@).subrange(from as int, to as int);
        assert(text::views(shown@) =~= part);
        assert(text::views(shown@).len() == shown@.len());
        out.append("\n[lines ");
        out.append(numbers::decimal_len(from + 1).as_str());
        out.append("-");
        out.append(numbers::decimal_len(to).as_str());
        out.append(" of ");
        out.append(numbers::decimal_len(n).as_str());
        out.append(" — fresh anchors]\n");
        out.append(anchored_lines(&shown, from as u64 + 1).as_str());
    }
    out
}

/// The anchor that a reading of a file shows for a line.
pub open spec fn shown_anchor(content: Seq<char>, number: nat) -> Seq<char> {
    anchor_of(number, text::lines_spec(content)[number - 1])
}

/// Whether an edit with this last anchor ends at a line: at the first one
/// where lines are inserted or no last anchor is given.
pub open spec fn ends_at(
    content: Seq<char>,
    last: Option<Seq<char>>,
    from: nat,
    to: nat,
    insert_after: bool,
) -> bool {
    match last {
        Some(anchor) => if insert_after {
            to == from
        } else {
            anchor == shown_anchor(content, to)
        },
        None => to == from,
    }
}

/// Replace a range of lines by anchors. An anchor is only usable while the
/// line it names has the content that the anchor was made from; the anchors
/// that a reading shows are accepted as long as the file is as it was read.
pub fn edit_lines(
    path: &str,
    content: &str,
    first: &str,
    last: Option<&str>,
    new_text: &str,
    insert_after: bool,
) -> (r: Result<FileEdit, String>)
    requires
        content@.len() + new_text@.len() < usize::MAX - 2,
    ensures
        ({
            let expected = edit_lines_spec(
                path@,
                content@,
                first@,
                match last {
                    Some(l) => Some(l@),
                    None => None,
                },
                new_text@,
                insert_after,
            );
            match r {
                Ok(edit) => expected == Ok::<(Seq<char>, Seq<char>), Seq<char>>(
                    (edit.content@, edit.reply@),
                ),
                Err(e) => expected == Err::<(Seq<char>, Seq<char>), Seq<char>>(e@),
            }
        }),
        forall|from: nat, to: nat|
            #![trigger shown_anchor(content@, from), shown_anchor(content@, to)]
            1 <= from <= to <= text::lines_spec(content@).len() && first@ == shown_anchor(
                content@,
                from,
            ) && ends_at(
                content@,
                match last {
                    Some(l) => Some(l@),
                    None => None,
                },
                from,
                to,
                insert_after,
            ) ==> (r matches Ok(edit) && edit.content@ == edited_content(
                content@,
                edited_lines(
                    text::lines_spec(content@),
                    from,
                    to,
                    replacement_lines(new_text@),
                    insert_after,
                ),
            )),
{
    let lines = text::lines(content);
    let ghost all = text::views(lines@);
    assert(all.len() == lines@.len());
    let from: usize = match verify_anchor(path, &lines, first) {
        Ok(n) => n,
        Err(e) => {
            return Err(e);
        },
    };
    let to: usize = match last {
        Some(anchor) => if insert_after {
            from
        } else {
            match verify_anchor(path, &lines, anchor) {
                Ok(n) => n,
                Err(e) => {
                    return Err(e);
                },
            }
        },
        None => from,
    };
    if to < from {
        return Err(
            text::cat5(
                "ERROR: `last` (line ",
                numbers::decimal_len(to).as_str(),
                ") is before `first` (line ",
                numbers::decimal_len(from).as_str(),
                ")",
            ),
        );
    }
    let replacement: Vec<String> = if new_text.is_empty() {
        Vec::new()
    } else {
        text::lines(new_text)
    };
    let ghost fresh = replacement_lines(new_text@);
    assert(text::views(replacement@) =~= fresh);
    assert(fresh.len() == replacement@.len());
    proof {
        lemma_line_count(content@);
        lemma_line_count(new_text@);
    }
    let mut updated: Vec<String> = Vec::new();
    let head: usize = if insert_after {
        from
    } else {
        from - 1
    };
    let tail: usize = if insert_after {
        from
    } else {
        to
    };
    push_range(&mut updated, &lines, 0, head);
    push_range(&mut updated, &replacement, 0, replacement.len());
    push_range(&mut updated, &lines, tail, lines.len());
    let ghost expected = edited_lines(all, from as nat, to as nat, fresh, insert_after);
    assert(text::views(updated@) =~= expected);
    assert(text::views(updated@).len() == updated@.len());
    let mut new_content = text::join(&updated, "\n");
    let v = text::chars(content);
    let trailing = v.len() > 0 && v[v.len() - 1] == '\n';
    if trailing && !new_content.as_str().is_empty() {
        new_content.push('\n');
    }
    let reply = lines_reply(path, &updated, from, to, replacement.len(), insert_after);
    Ok(FileEdit { content: new_content, reply })
}

/// An edit by a stale anchor is refused: where the named line's hash is not
/// the anchor's, the result is an error whatever else the call says.
pub proof fn law_stale_anchors_are_refused(
    path: Seq<char>,
    content: Seq<char>,
    first: Seq<char>,
    last: Option<Seq<char>>,
    new_text: Seq<char>,
    insert_after: bool,
    number: nat,
    hash: Seq<char>,
)
    requires
        anchor_parts(first) == Some((number, hash)),
        1 <= number <= text::lines_spec(content).len(),
        line_hash_spec(text::lines_spec(content)[number - 1]) != hash,
    ensures
        edit_lines_spec(path, content, first, last, new_text, insert_after) is Err,
{
}

/// A line edit leaves the lines before and after its range as they were.
pub proof fn law_line_edits_touch_only_their_range(
    lines: Seq<Seq<char>>,
    first: nat,
    last: nat,
    replacement: Seq<Seq<char>>,
    insert_after: bool,
)
    requires
        1 <= first <= last <= lines.len(),
        insert_after ==> last == first,
    ensures
        ({
            let out = edited_lines(lines, first, last, replacement, insert_after);
            let kept: int = if insert_after {
                first as int
            } else {
                first - 1
            };
            &&& out.take(kept) == lines.take(kept)
            &&& out.subrange(kept, kept + replacement.len()) == replacement
            &&& out.skip(kept + replacement.len()) == lines.skip(last as int)
        }),
{
    let out = edited_lines(lines, first, last, replacement, insert_after);
    let kept: int = if insert_after {
        first as int
    } else {
        first - 1
    };
    assert(out.take(kept) =~= lines.take(kept));
    assert(out.subrange(kept, kept + replacement.len()) =~= replacement);
    assert(out.skip(kept + replacement.len()) =~= lines.skip(last as int));
}

/// Whether texts are lines: none holds a line feed.
pub open spec fn all_lines(lines: Seq<Seq<char>>) -> bool {
    forall|i: int| 0 <= i < lines.len() ==> !(#[trigger] lines[i]).contains('\n')
}

proof fn lemma_lines_are_lines(s: Seq<char>)
    ensures
        all_lines(text::lines_state(s).0),
        !text::lines_state(s).1.contains('\n'),
        all_lines(text::lines_spec(s)),
    decreases s.len(),
{
    if s.len() > 0 {
        lemma_lines_are_lines(s.drop_last());
        let (done, open) = text::lines_state(s.drop_last());
        if s.last() == '\n' {
            let line = text::drop_cr(open);
            if line.contains('\n') {
                let i = choose|i: int| 0 <= i < line.len() && line[i] == '\n';
                assert(open[i] == '\n');
            }
        } else {
            let grown = open.push(s.last());
            if grown.contains('\n') {
                let i = choose|i: int| 0 <= i < grown.len() && grown[i] == '\n';
                assert(i < open.len());
                assert(open[i] == '\n');
            }
        }
    }
}

/// Whether a text ends with a carriage return.
pub open spec fn ends_in_return(line: Seq<char>) -> bool {
    line.len() > 0 && line.last() == '\r'
}

proof fn lemma_joined_lines(lines: Seq<Seq<char>>)
    requires
        lines.len() > 0,
        all_lines(lines),
        forall|i: int| 0 <= i < lines.len() - 1 ==> !ends_in_return(#[trigger] lines[i]),
    ensures
        text::lines_state(text::join_spec(lines, "\n"@)) == (lines.drop_last(), lines.last()),
    decreases lines.len(),
{
    reveal_strlit("\n");
    let last = lines.last();
    assert(!last.contains('\n')) by {
        assert(lines[lines.len() - 1] == last);
    }
    if lines.len() == 1 {
        text::lemma_lines_grow(seq![], last);
        assert(seq![] + last =~= last);
        assert(text::lines_state(seq![]).1 + last =~= last);
        assert(lines.drop_last() =~= seq![]);
        assert(text::lines_state(seq![]).0 =~= lines.drop_last());
    } else {
        let front = lines.drop_last();
        assert forall|i: int| 0 <= i < front.len() implies !(#[trigger] front[i]).contains('\n') by {
            assert(front[i] == lines[i]);
        }
        assert forall|i: int| 0 <= i < front.len() - 1 implies !ends_in_return(
            #[trigger] front[i],
        ) by {
            assert(front[i] == lines[i]);
        }
        lemma_joined_lines(front);
        let joined = text::join_spec(front, "\n"@);
        let closed = joined + "\n"@;
        assert(closed.drop_last() =~= joined);
        assert(closed.last() == '\n');
        assert(!ends_in_return(lines[lines.len() - 2]));
        assert(front.last() == lines[lines.len() - 2]);
        assert(text::drop_cr(front.last()) == front.last());
        assert(front.drop_last().push(front.last()) =~= front);
        assert(text::lines_state(closed) == (front, Seq::<char>::empty()));
        text::lemma_lines_grow(closed, last);
        assert(Seq::<char>::empty() + last =~= last);
    }
}

/// Whether an edited file is read back line by line: no line that a line feed
/// follows ends with a carriage return, and the last line is not an empty one
/// without a line feed.
pub open spec fn lines_keep(content: Seq<char>, lines: Seq<Seq<char>>) -> bool {
    let closed = content.len() > 0 && content.last() == '\n';
    &&& forall|i: int|
        0 <= i < lines.len() && (closed || i < lines.len() - 1) ==> !ends_in_return(
            #[trigger] lines[i],
        )
    &&& lines.len() > 0 && lines.last().len() == 0 ==> closed && lines.len() > 1
}

/// An edited file holds the lines that the edit made: the anchors that its
/// reply shows are those of the file, and serve for the next edit.
pub proof fn law_edited_files_hold_their_lines(
    content: Seq<char>,
    new_text: Seq<char>,
    first: nat,
    last: nat,
    insert_after: bool,
)
    requires
        1 <= first <= last <= text::lines_spec(content).len(),
        lines_keep(
            content,
            edited_lines(
                text::lines_spec(content),
                first,
                last,
                replacement_lines(new_text),
                insert_after,
            ),
        ),
    ensures
        ({
            let lines = edited_lines(
                text::lines_spec(content),
                first,
                last,
                replacement_lines(new_text),
                insert_after,
            );
            text::lines_spec(edited_content(content, lines)) == lines
        }),
{
    let before = text::lines_spec(content);
    let added = replacement_lines(new_text);
    let lines = edited_lines(before, first, last, added, insert_after);
    lemma_lines_are_lines(content);
    lemma_lines_are_lines(new_text);
    let head: int = if insert_after {
        first as int
    } else {
        first - 1
    };
    let tail: int = if insert_after {
        first as int
    } else {
        last as int
    };
    assert forall|i: int| 0 <= i < lines.len() implies !(#[trigger] lines[i]).contains('\n') by {
        if i < head {
            assert(lines[i] == before[i]);
        } else if i < head + added.len() {
            assert(lines[i] == added[i - head]);
        } else {
            assert(lines[i] == before[i - head - added.len() + tail]);
        }
    }
    let joined = text::join_spec(lines, "\n"@);
    let file = edited_content(content, lines);
    if lines.len() == 0 {
        assert(joined =~= seq![]);
        assert(text::lines_spec(joined) =~= lines);
    } else {
        lemma_joined_lines(lines);
        assert(lines.drop_last().push(lines.last()) =~= lines);
        if joined.len() == 0 {
            assert(text::lines_state(joined).0 =~= seq![]);
            assert(text::lines_state(joined).1 =~= seq![]);
            assert(lines.drop_last().len() == 0);
        }
        if content.len() > 0 && content.last() == '\n' {
            assert(joined.len() > 0);
            assert(file == joined.push('\n'));
            assert(file.drop_last() =~= joined);
            assert(!ends_in_return(lines[lines.len() - 1]));
            assert(text::drop_cr(lines.last()) == lines.last());
            assert(text::lines_state(file) == (lines, Seq::<char>::empty()));
        }
    }
}

/// How many lines a read shows: those that are left from the asked line on,
/// no more than the limit, and none behind the end.
pub open spec fn lines_shown(total: nat, first: nat, limit: Option<u64>) -> nat {
    let left: int = if first <= total {
        total - first + 1
    } else {
        0
    };
    match limit {
        Some(most) => if most <= left {
            most as nat
        } else {
            left as nat
        },
        None => left as nat,
    }
}

/// A read from a line on shows that line and those behind it, each as it
/// stands in the file, as many as were asked for and are there; the heading
/// gives the first and the last number and the number of lines in the file.
/// With anchors, each line has its own number and hash in front. A read
/// without a first line starts at the first one where a limit was asked for,
/// and else shows everything.
pub proof fn law_reads_show_the_asked_lines(content: Seq<char>, first: u64, limit: Option<u64>)
    requires
        first >= 1,
    ensures
        ({
            let lines = text::lines_spec(content);
            let count = lines_shown(lines.len(), first as nat, limit);
            let heading = "[lines "@ + numbers::decimal_spec(first as nat) + "-"@
                + numbers::decimal_spec((first - 1 + count) as nat) + " of "@
                + numbers::decimal_spec(lines.len()) + "]\n"@;
            let plain = Seq::new(count, |k: int| lines[first - 1 + k]);
            let marked = Seq::new(
                count,
                |k: int|
                    numbers::decimal_spec((first + k) as nat) + ":"@ + line_hash_spec(
                        lines[first - 1 + k],
                    ) + "|"@ + lines[first - 1 + k],
            );
            &&& read_spec(content, Some(first), limit, false) == heading + text::join_spec(
                plain,
                "\n"@,
            )
            &&& read_spec(content, Some(first), limit, true) == heading + text::join_spec(
                marked,
                "\n"@,
            )
        }),
        read_spec(content, Some(0), limit, false) == read_spec(content, Some(1), limit, false),
        read_spec(content, Some(0), limit, true) == read_spec(content, Some(1), limit, true),
        limit is Some ==> read_spec(content, None, limit, false) == read_spec(
            content,
            Some(1),
            limit,
            false,
        ) && read_spec(content, None, limit, true) == read_spec(content, Some(1), limit, true),
        read_spec(content, None, None, false) == content,
        ({
            let lines = text::lines_spec(content);
            read_spec(content, None, None, true) == text::join_spec(
                Seq::new(
                    lines.len(),
                    |k: int|
                        numbers::decimal_spec((1 + k) as nat) + ":"@ + line_hash_spec(lines[k])
                            + "|"@ + lines[k],
                ),
                "\n"@,
            )
        }),
{
    let lines = text::lines_spec(content);
    let start: nat = (first - 1) as nat;
    let count = lines_shown(lines.len(), first as nat, limit);
    let window = window_spec(lines, start, limit);
    assert(window =~= Seq::new(count, |k: int| lines[first - 1 + k]));
    assert(Seq::new(window.len(), |i: int| anchored_line((start + 1 + i) as nat, window[i]))
        =~= Seq::new(
        count,
        |k: int|
            numbers::decimal_spec((first + k) as nat) + ":"@ + line_hash_spec(
                lines[first - 1 + k],
            ) + "|"@ + lines[first - 1 + k],
    ));
    assert(Seq::new(lines.len(), |i: int| anchored_line((1 + i) as nat, lines[i])) =~= Seq::new(
        lines.len(),
        |k: int|
            numbers::decimal_spec((1 + k) as nat) + ":"@ + line_hash_spec(lines[k]) + "|"@
                + lines[k],
    ));
}

} // verus!
