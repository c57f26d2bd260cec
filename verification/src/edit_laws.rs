//! What holds of edits to files.

use vstd::prelude::*;
use vstd::string::*;

use crate::file_edit;
use crate::find;
use crate::numbers;
use crate::splitting_laws;
use crate::text;
use crate::text_laws;

verus! {

/// Whether a text stands in another one nowhere.
pub open spec fn stands_nowhere(s: Seq<char>, pat: Seq<char>) -> bool {
    forall|i: int| 0 <= i <= s.len() - pat.len() ==> #[trigger] s.subrange(i, i + pat.len()) != pat
}

/// A text that stands in a file once is replaced where it stands, and the rest
/// of the file is kept. Where it stands more often, the edit is refused unless
/// every occurrence was meant, and then each of them is replaced.
pub proof fn law_edits_replace_the_text(
    path: Seq<char>,
    front: Seq<char>,
    old_text: Seq<char>,
    back: Seq<char>,
    new_text: Seq<char>,
    all: bool,
)
    requires
        old_text.len() > 0,
        old_text != new_text,
        forall|i: int|
            0 <= i < front.len() ==> #[trigger] (front + old_text + back).subrange(
                i,
                i + old_text.len(),
            ) != old_text,
    ensures
        ({
            let r = file_edit::edit_spec(path, front + old_text + back, old_text, new_text, all);
            &&& stands_nowhere(back, old_text) ==> (r matches Ok(edit) && edit.0 == front
                + new_text + back)
            &&& !stands_nowhere(back, old_text) && !all ==> r is Err
            &&& all ==> (r matches Ok(edit) && edit.0 == front + new_text + find::replace_spec(
                back,
                old_text,
                new_text,
                0,
            ))
        }),
{
    splitting_laws::law_each_occurrence_is_replaced(front, old_text, new_text, back);
    if stands_nowhere(back, old_text) {
        splitting_laws::law_nothing_is_replaced_where_nothing_stands(back, old_text, new_text);
    } else {
        let i = choose|i: int|
            0 <= i <= back.len() - old_text.len() && #[trigger] back.subrange(
                i,
                i + old_text.len(),
            ) == old_text;
        find::lemma_find(back, old_text, 0);
        assert(find::occurs_at(back, old_text, i));
        assert(find::count_spec(back, old_text, 0) >= 1);
    }
}

/// An edit is refused where the text to be replaced is empty, is the new text,
/// or stands nowhere in the file.
pub proof fn law_idle_edits_are_refused(
    path: Seq<char>,
    content: Seq<char>,
    old_text: Seq<char>,
    new_text: Seq<char>,
    all: bool,
)
    requires
        old_text.len() == 0 || old_text == new_text || stands_nowhere(content, old_text),
    ensures
        file_edit::edit_spec(path, content, old_text, new_text, all) is Err,
{
    if old_text.len() > 0 && old_text != new_text {
        splitting_laws::law_nothing_is_replaced_where_nothing_stands(content, old_text, new_text);
    }
}

/// Lines with a line feed between them, and one at the end where a file that
/// is not empty had one.
pub open spec fn file_of(lines: Seq<Seq<char>>, closed: bool) -> Seq<char> {
    let joined = text::join_spec(lines, seq!['\n']);
    if closed && joined.len() > 0 {
        joined + seq!['\n']
    } else {
        joined
    }
}

/// An edit by anchors that are fresh puts the new lines in the place of the
/// lines from the first to the last anchor, or behind the first where it
/// inserts; every other line stays. Without a last anchor the first names the
/// only line. A range that ends before it begins is refused, and so is a line
/// that the file does not have.
pub proof fn law_line_edits_replace_the_range(
    path: Seq<char>,
    content: Seq<char>,
    first: Seq<char>,
    last: Seq<char>,
    new_text: Seq<char>,
    from: nat,
    to: nat,
)
    requires
        1 <= from <= text::lines_spec(content).len(),
        1 <= to <= text::lines_spec(content).len(),
        file_edit::anchor_parts(first) == Some(
            (from, file_edit::line_hash_spec(text::lines_spec(content)[from - 1])),
        ),
        file_edit::anchor_parts(last) == Some(
            (to, file_edit::line_hash_spec(text::lines_spec(content)[to - 1])),
        ),
    ensures
        ({
            let lines = text::lines_spec(content);
            let new_lines = text::lines_spec(new_text);
            let closed = content.len() > 0 && content.last() == '\n';
            let ranged = file_edit::edit_lines_spec(
                path,
                content,
                first,
                Some(last),
                new_text,
                false,
            );
            let single = file_edit::edit_lines_spec(path, content, first, None, new_text, false);
            let inserted = file_edit::edit_lines_spec(path, content, first, None, new_text, true);
            &&& from <= to ==> (ranged matches Ok(edit) && edit.0 == file_of(
                lines.subrange(0, from - 1) + new_lines + lines.subrange(
                    to as int,
                    lines.len() as int,
                ),
                closed,
            ))
            &&& to < from ==> ranged is Err
            &&& (single matches Ok(edit) && edit.0 == file_of(
                lines.subrange(0, from - 1) + new_lines + lines.subrange(
                    from as int,
                    lines.len() as int,
                ),
                closed,
            ))
            &&& (inserted matches Ok(edit) && edit.0 == file_of(
                lines.subrange(0, from as int) + new_lines + lines.subrange(
                    from as int,
                    lines.len() as int,
                ),
                closed,
            ))
        }),
{
    let lines = text::lines_spec(content);
    let new_lines = text::lines_spec(new_text);
    reveal_strlit("\n");
    assert("\n"@ =~= seq!['\n']);
    assert(new_text.len() == 0 ==> new_lines =~= seq![]);
    assert(file_edit::replacement_lines(new_text) == new_lines);
    if from <= to {
        assert(file_edit::edited_lines(lines, from, to, new_lines, false) =~= lines.subrange(
            0,
            from - 1,
        ) + new_lines + lines.subrange(to as int, lines.len() as int));
    }
    assert(file_edit::edited_lines(lines, from, from, new_lines, false) =~= lines.subrange(
        0,
        from - 1,
    ) + new_lines + lines.subrange(from as int, lines.len() as int));
    assert(file_edit::edited_lines(lines, from, from, new_lines, true) =~= lines.subrange(
        0,
        from as int,
    ) + new_lines + lines.subrange(from as int, lines.len() as int));
    lemma_file_of(content, file_edit::edited_lines(lines, from, to, new_lines, false));
    lemma_file_of(content, file_edit::edited_lines(lines, from, from, new_lines, false));
    lemma_file_of(content, file_edit::edited_lines(lines, from, from, new_lines, true));
}

proof fn lemma_file_of(content: Seq<char>, lines: Seq<Seq<char>>)
    ensures
        file_edit::edited_content(content, lines) == file_of(
            lines,
            content.len() > 0 && content.last() == '\n',
        ),
{
    reveal_strlit("\n");
    assert("\n"@ =~= seq!['\n']);
    let joined = text::join_spec(lines, "\n"@);
    assert(joined.push('\n') =~= joined + seq!['\n']);
}

/// A line that a file does not have cannot be edited.
pub proof fn law_lines_behind_the_end_are_refused(
    path: Seq<char>,
    content: Seq<char>,
    first: Seq<char>,
    last: Option<Seq<char>>,
    new_text: Seq<char>,
    insert_after: bool,
    number: nat,
    hash: Seq<char>,
)
    requires
        file_edit::anchor_parts(first) == Some((number, hash)),
        number > text::lines_spec(content).len(),
    ensures
        file_edit::edit_lines_spec(path, content, first, last, new_text, insert_after) is Err,
{
}

/// An anchor is a number, a colon and a hash, and stands for them; the number
/// counts from one.
pub proof fn law_anchors_are_a_number_and_a_hash(n: nat, hash: Seq<char>)
    requires
        n <= usize::MAX,
        hash.len() > 0,
        forall|i: int| 0 <= i < hash.len() ==> '!' <= #[trigger] hash[i] <= '~',
    ensures
        ({
            let anchor = numbers::decimal_spec(n) + seq![':'] + hash;
            file_edit::anchor_parts(anchor) == if n > 0 {
                Some((n, text::lowercased(hash)))
            } else {
                None
            }
        }),
        !hash.contains(':') ==> file_edit::anchor_parts(hash) is None,
{
    let digits = numbers::decimal_spec(n);
    let anchor = digits + seq![':'] + hash;
    numbers::lemma_decimal_reads_back(n);
    assert('0' <= digits[0] <= '9');
    assert(!text::is_white_spec(anchor[0])) by {
        assert(anchor[0] == digits[0]);
    }
    assert('!' <= hash[0] <= '~');
    assert('!' <= hash[hash.len() - 1] <= '~');
    assert(!text::is_white_spec(anchor.last())) by {
        assert(anchor.last() == hash[hash.len() - 1]);
    }
    text_laws::lemma_trim_padded(seq![], anchor, seq![]);
    assert(seq![] + anchor + seq![] =~= anchor);
    assert(!text::is_white_spec(hash[0]));
    text_laws::lemma_trim_padded(seq![], hash, seq![]);
    assert(seq![] + hash + seq![] =~= hash);
    assert(!digits.contains(':')) by {
        if digits.contains(':') {
            let i = choose|i: int| 0 <= i < digits.len() && digits[i] == ':';
            assert('0' <= digits[i] <= '9');
        }
    }
    splitting_laws::law_pieces_end_at_the_character(digits, ':', hash);
    splitting_laws::law_digits_stand_for_numbers(n, 0, usize::MAX as nat, seq![], ':');
    if !hash.contains(':') {
        splitting_laws::law_pieces_end_at_the_character(hash, ':', seq![]);
    }
}

/// A line's hash goes over the bytes of the line one by one, the last one
/// last, and is told in four hexadecimal digits.
pub proof fn law_hashes_take_in_every_byte(bytes: Seq<u8>, b: u8, line: Seq<char>)
    ensures
        file_edit::fnv_spec(seq![]) == 0x811c_9dc5u32,
        file_edit::fnv_spec(bytes.push(b)) == (file_edit::fnv_spec(bytes) ^ (b as u32)).wrapping_mul(
            0x0100_0193,
        ),
        file_edit::line_hash_spec(line).len() == 4,
        forall|i: int|
            0 <= i < 4 ==> '0' <= #[trigger] file_edit::line_hash_spec(line)[i] <= '9' || 'a'
                <= file_edit::line_hash_spec(line)[i] <= 'f',
{
    assert(bytes.push(b).drop_last() =~= bytes);
    numbers::lemma_hex_is_plain(
        file_edit::folded(file_edit::fnv_spec(vstd::utf8::encode_utf8(line))) as nat,
    );
}

/// A listing with anchors shows each line behind its number and hash.
pub proof fn law_anchored_lines_show_their_number(lines: Seq<Seq<char>>, start: nat, line: Seq<char>)
    ensures
        lines.len() > 0 ==> file_edit::anchored_spec(lines.push(line), start)
            == file_edit::anchored_spec(lines, start) + seq!['\n'] + numbers::decimal_spec(
            start + lines.len(),
        ) + seq![':'] + file_edit::line_hash_spec(line) + seq!['|'] + line,
        file_edit::anchored_spec(seq![line], start) == numbers::decimal_spec(start) + seq![':']
            + file_edit::line_hash_spec(line) + seq!['|'] + line,
{
    reveal_strlit("\n");
    reveal_strlit(":");
    reveal_strlit("|");
    assert("\n"@ =~= seq!['\n']);
    assert(":"@ =~= seq![':']);
    assert("|"@ =~= seq!['|']);
    let n = lines.len();
    let longer = Seq::new(
        lines.push(line).len(),
        |i: int| file_edit::anchored_line((start + i) as nat, lines.push(line)[i]),
    );
    let shorter = Seq::new(
        lines.len(),
        |i: int| file_edit::anchored_line((start + i) as nat, lines[i]),
    );
    assert(longer =~= shorter.push(file_edit::anchored_line(start + n, line)));
    splitting_laws::law_joined_parts_have_separators_between(
        shorter,
        file_edit::anchored_line(start + n, line),
        "\n"@,
    );
    let only = Seq::new(
        seq![line].len(),
        |i: int| file_edit::anchored_line((start + i) as nat, seq![line][i]),
    );
    assert(only =~= seq![file_edit::anchored_line(start, line)]);
    splitting_laws::law_joined_parts_have_separators_between(
        shorter,
        file_edit::anchored_line(start, line),
        "\n"@,
    );
    if n > 0 {
        assert(file_edit::anchored_spec(lines.push(line), start) =~= file_edit::anchored_spec(
            lines,
            start,
        ) + seq!['\n'] + numbers::decimal_spec(start + lines.len()) + seq![':']
            + file_edit::line_hash_spec(line) + seq!['|'] + line);
    }
}

} // verus!
