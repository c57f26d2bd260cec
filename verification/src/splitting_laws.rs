//! What holds of cutting, joining, searching and reading texts.

use vstd::prelude::*;
use vstd::string::*;

use crate::find;
use crate::json;
use crate::numbers;
use crate::paths;
use crate::table::Table;
use crate::text;

verus! {

proof fn lemma_lines_state(head: Seq<char>, rest: Seq<char>)
    requires
        head.len() > 0,
        head.last() == '\n',
    ensures
        text::lines_state(head + rest).0 == text::lines_state(head).0 + text::lines_state(rest).0,
        text::lines_state(head + rest).1 == text::lines_state(rest).1,
    decreases rest.len(),
{
    if rest.len() == 0 {
        assert(head + rest =~= head);
        assert(text::lines_state(head).0 + text::lines_state(rest).0 =~= text::lines_state(head).0);
    } else {
        lemma_lines_state(head, rest.drop_last());
        assert((head + rest).drop_last() =~= head + rest.drop_last());
        assert((head + rest).last() == rest.last());
        assert(text::lines_state(head + rest).0 =~= text::lines_state(head).0
            + text::lines_state(rest).0);
    }
}

proof fn lemma_open_line(line: Seq<char>)
    requires
        !line.contains('\n'),
    ensures
        text::lines_state(line) == (Seq::<Seq<char>>::empty(), line),
    decreases line.len(),
{
    if line.len() > 0 {
        assert(line[line.len() - 1] == line.last());
        assert forall|i: int| 0 <= i < line.drop_last().len() implies line.drop_last()[i]
            != '\n' by {
            assert(line[i] == line.drop_last()[i]);
        }
        lemma_open_line(line.drop_last());
        assert(line.drop_last().push(line.last()) =~= line);
    }
}

/// A text's first line is what stands before its first line feed, without one
/// carriage return at its end; the other lines are those of what follows. A
/// text without a line feed is one line, and an empty one has none.
pub proof fn law_lines_end_at_line_feeds(line: Seq<char>, rest: Seq<char>)
    requires
        !line.contains('\n'),
    ensures
        !(line.len() > 0 && line.last() == '\r') ==> text::lines_spec(line + seq!['\n'] + rest)
            == seq![line] + text::lines_spec(rest),
        text::lines_spec(line + seq!['\r', '\n'] + rest) == seq![line] + text::lines_spec(rest),
        line.len() > 0 ==> text::lines_spec(line) == seq![line],
        text::lines_spec(seq![]) == Seq::<Seq<char>>::empty(),
{
    lemma_open_line(line);
    let head = line + seq!['\n'];
    assert(head.drop_last() =~= line);
    lemma_lines_state(head, rest);
    assert(text::lines_state(head).0 =~= seq![text::drop_cr(line)]);
    assert(text::lines_spec(head + rest) =~= seq![text::drop_cr(line)] + text::lines_spec(rest));
    let returned = line.push('\r');
    assert forall|i: int| 0 <= i < returned.len() implies returned[i] != '\n' by {
        if i < line.len() {
            assert(returned[i] == line[i]);
        }
    }
    lemma_open_line(returned);
    let closed = returned + seq!['\n'];
    assert(closed.drop_last() =~= returned);
    lemma_lines_state(closed, rest);
    assert(text::drop_cr(returned) =~= line);
    assert(text::lines_state(closed).0 =~= seq![line]);
    assert(text::lines_spec(closed + rest) =~= seq![line] + text::lines_spec(rest));
    assert(line + seq!['\r', '\n'] + rest =~= closed + rest);
}

proof fn lemma_split_state(head: Seq<char>, rest: Seq<char>, c: char)
    requires
        head.len() > 0,
        head.last() == c,
    ensures
        find::split_state(head + rest, c).0 == find::split_state(head, c).0 + find::split_state(
            rest,
            c,
        ).0,
        find::split_state(head + rest, c).1 == find::split_state(rest, c).1,
    decreases rest.len(),
{
    if rest.len() == 0 {
        assert(head + rest =~= head);
        assert(find::split_state(head, c).0 + find::split_state(rest, c).0 =~= find::split_state(
            head,
            c,
        ).0);
    } else {
        lemma_split_state(head, rest.drop_last(), c);
        assert((head + rest).drop_last() =~= head + rest.drop_last());
        assert((head + rest).last() == rest.last());
        assert(find::split_state(head + rest, c).0 =~= find::split_state(head, c).0
            + find::split_state(rest, c).0);
    }
}

proof fn lemma_open_piece(piece: Seq<char>, c: char)
    requires
        !piece.contains(c),
    ensures
        find::split_state(piece, c) == (Seq::<Seq<char>>::empty(), piece),
    decreases piece.len(),
{
    if piece.len() > 0 {
        assert(piece[piece.len() - 1] == piece.last());
        assert forall|i: int| 0 <= i < piece.drop_last().len() implies piece.drop_last()[i] != c by {
            assert(piece[i] == piece.drop_last()[i]);
        }
        lemma_open_piece(piece.drop_last(), c);
        assert(piece.drop_last().push(piece.last()) =~= piece);
    }
}

/// A text is cut at each occurrence of a character, which belongs to no piece;
/// empty pieces count.
pub proof fn law_pieces_end_at_the_character(piece: Seq<char>, c: char, rest: Seq<char>)
    requires
        !piece.contains(c),
    ensures
        find::split_spec(piece + seq![c] + rest, c) == seq![piece] + find::split_spec(rest, c),
        find::split_spec(piece, c) == seq![piece],
        find::split_once_spec(piece + seq![c] + rest, c) == Some((piece, rest)),
        find::split_once_spec(piece, c) is None,
{
    lemma_open_piece(piece, c);
    let head = piece + seq![c];
    assert(head.drop_last() =~= piece);
    lemma_split_state(head, rest, c);
    assert(find::split_state(head, c).0 =~= seq![piece]);
    assert(find::split_spec(head + rest, c) =~= seq![piece] + find::split_spec(rest, c));
    assert(find::split_spec(piece, c) =~= seq![piece]);
    find::lemma_split_at(piece, c, rest);
    find::lemma_find(piece, seq![c], 0);
    if find::find_spec(piece, seq![c], 0) is Some {
        let i = find::find_spec(piece, seq![c], 0)->0;
        assert(piece.subrange(i, i + 1)[0] == seq![c][0]);
        assert(piece[i] == c);
    }
}

proof fn lemma_words_open(word: Seq<char>)
    requires
        forall|i: int| 0 <= i < word.len() ==> !text::is_white_spec(#[trigger] word[i]),
    ensures
        text::words_state(word) == (Seq::<Seq<char>>::empty(), word),
    decreases word.len(),
{
    if word.len() > 0 {
        assert(!text::is_white_spec(word[word.len() - 1]));
        assert forall|i: int| 0 <= i < word.drop_last().len() implies !text::is_white_spec(
            #[trigger] word.drop_last()[i],
        ) by {
            assert(word[i] == word.drop_last()[i]);
        }
        lemma_words_open(word.drop_last());
        assert(word.drop_last().push(word.last()) =~= word);
    }
}

proof fn lemma_words_state(head: Seq<char>, rest: Seq<char>)
    requires
        head.len() > 0,
        text::is_white_spec(head.last()),
    ensures
        text::words_state(head + rest).0 == text::words_state(head).0 + text::words_state(rest).0,
        text::words_state(head + rest).1 == text::words_state(rest).1,
    decreases rest.len(),
{
    if rest.len() == 0 {
        assert(head + rest =~= head);
        assert(text::words_state(head).0 + text::words_state(rest).0 =~= text::words_state(head).0);
        assert(text::words_state(head).1 =~= seq![]);
    } else {
        lemma_words_state(head, rest.drop_last());
        assert((head + rest).drop_last() =~= head + rest.drop_last());
        assert((head + rest).last() == rest.last());
        assert(text::words_state(head + rest).0 =~= text::words_state(head).0
            + text::words_state(rest).0);
    }
}

/// Words are what stands between white space: a word and white space behind
/// it make one word in front of those that follow, white space in front of a
/// text adds none, and a text without white space is one word.
pub proof fn law_words_stand_between_white_space(word: Seq<char>, gap: char, rest: Seq<char>)
    requires
        gap == ' ' || gap == '\t' || gap == '\n' || gap == '\r',
        word.len() > 0,
        forall|i: int| 0 <= i < word.len() ==> '!' <= #[trigger] word[i] <= '~',
    ensures
        text::words_spec(word + seq![gap] + rest) == seq![word] + text::words_spec(rest),
        text::words_spec(seq![gap] + rest) == text::words_spec(rest),
        text::words_spec(word) == seq![word],
        text::words_spec(seq![]) == Seq::<Seq<char>>::empty(),
        text::trim_spec(word) == word,
        text::trim_spec(seq![gap] + word + seq![gap]) == word,
        text::trim_spec(seq![gap]) == Seq::<char>::empty(),
{
    assert(text::is_white_spec(gap));
    assert forall|i: int| 0 <= i < word.len() implies !text::is_white_spec(#[trigger] word[i]) by {
        let c = word[i];
        assert(0x21 <= c as u32 <= 0x7e);
    }
    lemma_words_open(word);
    let head = word + seq![gap];
    assert(head.drop_last() =~= word);
    lemma_words_state(head, rest);
    assert(text::words_state(head).0 =~= seq![word]);
    assert(text::words_spec(head + rest) =~= seq![word] + text::words_spec(rest));
    lemma_words_state(seq![gap], rest);
    assert(seq![gap].drop_last() =~= seq![]);
    assert(text::words_state(seq![gap].drop_last()) == (Seq::<Seq<char>>::empty(), Seq::<
        char,
    >::empty()));
    assert(text::words_state(seq![gap]).0 =~= seq![]);
    assert(text::words_spec(seq![gap] + rest) =~= text::words_spec(rest));
    assert(text::words_spec(word) =~= seq![word]);
    assert(!text::is_white_spec(word[0]));
    assert(!text::is_white_spec(word[word.len() - 1]));
    crate::text_laws::lemma_trim_padded(seq![gap], word, seq![gap]);
    crate::text_laws::lemma_trim_padded(seq![], word, seq![]);
    assert(seq![] + word + seq![] =~= word);
    crate::text_laws::lemma_trim_padded(seq![gap], seq![], seq![]);
    assert(seq![gap] + seq![] + seq![] =~= seq![gap]);
}

/// Joined parts stand one behind the other with the separator between
/// neighbours, and nowhere else.
pub proof fn law_joined_parts_have_separators_between(
    parts: Seq<Seq<char>>,
    part: Seq<char>,
    sep: Seq<char>,
)
    ensures
        text::join_spec(seq![], sep) == Seq::<char>::empty(),
        text::join_spec(seq![part], sep) == part,
        parts.len() > 0 ==> text::join_spec(parts.push(part), sep) == text::join_spec(parts, sep)
            + sep + part,
{
    assert(parts.push(part).drop_last() =~= parts);
}

/// A text holds another exactly where the other stands in it somewhere, and
/// starts with it exactly where the other stands in front.
pub proof fn law_texts_are_found_where_they_stand(
    front: Seq<char>,
    pat: Seq<char>,
    back: Seq<char>,
    s: Seq<char>,
)
    ensures
        find::contains_spec(front + pat + back, pat),
        find::starts_spec(pat + back, pat),
        find::strip_prefix_spec(pat + back, pat) == Some(back),
        find::contains_spec(s, pat) ==> exists|i: int|
            0 <= i <= s.len() - pat.len() && #[trigger] s.subrange(i, i + pat.len()) == pat,
        find::starts_spec(s, pat) ==> s == pat + s.skip(pat.len() as int),
        find::strip_prefix_spec(s, pat) is Some ==> s == pat + find::strip_prefix_spec(s, pat)->0,
{
    let whole = front + pat + back;
    let n = front.len() as int;
    find::lemma_find(whole, pat, 0);
    assert(whole.subrange(n, n + pat.len()) =~= pat);
    assert(find::occurs_at(whole, pat, n));
    assert((pat + back).take(pat.len() as int) =~= pat);
    assert((pat + back).skip(pat.len() as int) =~= back);
    find::lemma_find(s, pat, 0);
    if find::contains_spec(s, pat) {
        let i = find::find_spec(s, pat, 0)->0;
        assert(s.subrange(i, i + pat.len()) == pat);
    }
    if find::starts_spec(s, pat) {
        assert(s =~= s.take(pat.len() as int) + s.skip(pat.len() as int));
    }
}

/// What stands behind a text is found as it is found alone.
pub proof fn lemma_found_behind(head: Seq<char>, rest: Seq<char>, pat: Seq<char>, from: int)
    requires
        0 <= from <= rest.len(),
    ensures
        find::find_spec(head + rest, pat, head.len() + from) == match find::find_spec(
            rest,
            pat,
            from,
        ) {
            Some(i) => Some(head.len() + i),
            None => None,
        },
    decreases rest.len() + 1 - from,
{
    let n = head.len() as int;
    if from + pat.len() <= rest.len() {
        assert((head + rest).subrange(n + from, n + from + pat.len()) =~= rest.subrange(
            from,
            from + pat.len(),
        ));
    }
    assert(find::occurs_at(head + rest, pat, n + from) == find::occurs_at(rest, pat, from));
    if !find::occurs_at(rest, pat, from) && from < rest.len() {
        lemma_found_behind(head, rest, pat, from + 1);
    } else if !find::occurs_at(rest, pat, from) {
        assert(find::find_spec(rest, pat, from + 1) is None);
        assert(find::find_spec(head + rest, pat, n + from + 1) is None);
    }
}

proof fn lemma_replaced_behind(
    head: Seq<char>,
    rest: Seq<char>,
    pat: Seq<char>,
    new: Seq<char>,
    from: int,
)
    requires
        0 <= from <= rest.len(),
        pat.len() > 0,
    ensures
        find::replace_spec(head + rest, pat, new, head.len() + from) == find::replace_spec(
            rest,
            pat,
            new,
            from,
        ),
        find::count_spec(head + rest, pat, head.len() + from) == find::count_spec(rest, pat, from),
    decreases rest.len() - from,
{
    let n = head.len() as int;
    lemma_found_behind(head, rest, pat, from);
    find::lemma_find(rest, pat, from);
    match find::find_spec(rest, pat, from) {
        Some(i) => {
            lemma_replaced_behind(head, rest, pat, new, i + pat.len());
            assert((head + rest).subrange(n + from, n + i) =~= rest.subrange(from, i));
        },
        None => {
            assert((head + rest).skip(n + from) =~= rest.skip(from));
        },
    }
}

/// A text is replaced wherever it stands, from left to right and without
/// overlap: what stands before the first place is kept, the new text takes the
/// place, and what follows is treated likewise. Each place counts once. A text
/// in which it does not stand is left alone.
pub proof fn law_each_occurrence_is_replaced(
    front: Seq<char>,
    pat: Seq<char>,
    new: Seq<char>,
    back: Seq<char>,
)
    requires
        pat.len() > 0,
        forall|i: int|
            0 <= i < front.len() ==> #[trigger] (front + pat + back).subrange(i, i + pat.len())
                != pat,
    ensures
        find::replace_spec(front + pat + back, pat, new, 0) == front + new + find::replace_spec(
            back,
            pat,
            new,
            0,
        ),
        find::count_spec(front + pat + back, pat, 0) == 1 + find::count_spec(back, pat, 0),
        find::replace_first_spec(front + pat + back, pat, new) == front + new + back,
        find::find_spec(front + pat + back, pat, 0) == Some(front.len() as int),
{
    let whole = front + pat + back;
    let n = front.len() as int;
    find::lemma_find(whole, pat, 0);
    assert(whole.subrange(n, n + pat.len()) =~= pat);
    assert(find::occurs_at(whole, pat, n));
    assert forall|i: int| 0 <= i < n implies !#[trigger] find::occurs_at(whole, pat, i) by {
        assert(whole.subrange(i, i + pat.len()) != pat);
    }
    let at = find::find_spec(whole, pat, 0)->0;
    assert(at == n);
    assert(whole.subrange(0, n) =~= front);
    assert(whole.take(n) =~= front);
    assert(whole.skip(n + pat.len()) =~= back);
    lemma_replaced_behind(front + pat, back, pat, new, 0);
}

/// A text in which another does not stand is not changed by replacing it.
pub proof fn law_nothing_is_replaced_where_nothing_stands(
    s: Seq<char>,
    pat: Seq<char>,
    new: Seq<char>,
)
    requires
        pat.len() > 0,
        forall|i: int|
            0 <= i <= s.len() - pat.len() ==> #[trigger] s.subrange(i, i + pat.len()) != pat,
    ensures
        find::replace_spec(s, pat, new, 0) == s,
        find::count_spec(s, pat, 0) == 0,
        find::replace_first_spec(s, pat, new) == s,
        find::find_spec(s, pat, 0) is None,
        !find::contains_spec(s, pat),
{
    find::lemma_find(s, pat, 0);
    if find::find_spec(s, pat, 0) is Some {
        let i = find::find_spec(s, pat, 0)->0;
        assert(s.subrange(i, i + pat.len()) == pat);
    }
    assert(s.skip(0) =~= s);
}

/// A text that is cut keeps its beginning and gets an ellipsis; one that is
/// short enough is left alone.
pub proof fn law_cut_texts_keep_their_beginning(s: Seq<char>, max: nat)
    ensures
        s.len() <= max ==> text::truncate_spec(s, max) == s && text::take_spec(s, max) == s,
        s.len() > max ==> {
            &&& text::truncate_spec(s, max).len() == max + 1
            &&& text::truncate_spec(s, max)[max as int] == '…'
            &&& text::take_spec(s, max).len() == max
            &&& forall|i: int|
                0 <= i < max ==> #[trigger] text::truncate_spec(s, max)[i] == s[i]
                    && text::take_spec(s, max)[i] == s[i]
        },
{
    reveal_strlit("…");
}

/// A number's digits: a small one has one, and another digit behind a number
/// stands for ten times the number and the digit. Read back they give the
/// number, and nothing but digits is read as a number.
pub proof fn law_digits_stand_for_numbers(n: nat, d: nat, limit: nat, s: Seq<char>, c: char)
    requires
        d < 10,
    ensures
        numbers::decimal_spec(d) == seq![('0' as nat + d) as char],
        n > 0 ==> numbers::decimal_spec(10 * n + d) == numbers::decimal_spec(n).push(
            ('0' as nat + d) as char,
        ),
        numbers::parse_spec(numbers::decimal_spec(n), limit) == if n <= limit {
            Some(n)
        } else {
            None::<nat>
        },
        numbers::parse_spec(seq![], limit) is None,
        s.contains(c) && c != '+' && !('0' <= c <= '9') ==> numbers::parse_spec(s, limit) is None,
{
    assert((10 * n + d) / 10 == n);
    assert((10 * n + d) % 10 == d);
    numbers::lemma_decimal_reads_back(n);
    let t = numbers::decimal_spec(n);
    assert('0' <= t[0] <= '9');
    if s.contains(c) && c != '+' && !('0' <= c <= '9') {
        let i = choose|i: int| 0 <= i < s.len() && s[i] == c;
        if s[0] == '+' {
            assert(s.skip(1)[i - 1] == c);
        }
    }
}

/// An object's field is the first one of its name; where no field has the
/// name, or the value is no object, there is none.
pub proof fn law_fields_are_found_by_name(
    front: Seq<(Seq<char>, json::JsonView)>,
    name: Seq<char>,
    value: json::JsonView,
    back: Seq<(Seq<char>, json::JsonView)>,
)
    requires
        forall|i: int| 0 <= i < front.len() ==> (#[trigger] front[i]).0 != name,
    ensures
        json::JsonView::Object(front + seq![(name, value)] + back).field(name) == Some(value),
        json::JsonView::Object(front).field(name) is None,
        json::JsonView::Array(seq![value]).field(name) is None,
        json::JsonView::Null.field(name) is None,
{
    lemma_field(front + seq![(name, value)] + back, name, front.len() as int, 0);
    lemma_no_field(front, name, 0);
}

proof fn lemma_field(fields: Seq<(Seq<char>, json::JsonView)>, name: Seq<char>, at: int, from: int)
    requires
        0 <= from <= at < fields.len(),
        fields[at].0 == name,
        forall|i: int| 0 <= i < at ==> (#[trigger] fields[i]).0 != name,
    ensures
        json::JsonView::field_from(fields, name, from) == Some(at),
    decreases at - from,
{
    if from < at {
        assert(fields[from].0 != name);
        lemma_field(fields, name, at, from + 1);
    }
}

proof fn lemma_no_field(fields: Seq<(Seq<char>, json::JsonView)>, name: Seq<char>, from: int)
    requires
        0 <= from <= fields.len(),
        forall|i: int| 0 <= i < fields.len() ==> (#[trigger] fields[i]).0 != name,
    ensures
        json::JsonView::field_from(fields, name, from) is None,
    decreases fields.len() - from,
{
    if from < fields.len() {
        assert(fields[from].0 != name);
        lemma_no_field(fields, name, from + 1);
    }
}

/// A table has a name exactly where one of its rows has it, and holds under it
/// what that row holds.
pub proof fn law_rows_are_found_by_name<V>(t: Table<V>, name: Seq<char>, i: int)
    requires
        t.ordered(),
    ensures
        t.has_name(name) <==> exists|j: int|
            0 <= j < t.entries@.len() && (#[trigger] t.entries@[j]).0@ == name,
        0 <= i < t.entries@.len() && t.entries@[i].0@ == name ==> t.has_name(name) && t.at(name)
            == t.entries@[i].1,
{
    t.lemma_row_from(name, 0);
    if 0 <= i < t.entries@.len() && t.entries@[i].0@ == name {
        let row = t.row(name)->0;
        if row != i {
            Table::lemma_unique(t, row, i);
        }
    }
}

/// A path's parts are folded from left to right: a name goes deeper, `..`
/// takes the part before it away, and there is no way up from the root.
pub proof fn law_dots_lead_upwards(parts: Seq<Seq<char>>, name: Seq<char>)
    requires
        name != ".."@,
    ensures
        paths::folded_spec(seq![]) == Some(Seq::<Seq<char>>::empty()),
        paths::folded_spec(seq![".."@]) is None,
        paths::folded_spec(parts) matches Some(done) ==> {
            &&& paths::folded_spec(parts.push(name)) == Some(done.push(name))
            &&& paths::folded_spec(parts.push(name).push(".."@)) == Some(done)
        },
        paths::folded_spec(parts) is None ==> paths::folded_spec(parts.push(name)) is None
            && paths::folded_spec(parts.push(".."@)) is None,
{
    assert(parts.push(name).drop_last() =~= parts);
    assert(parts.push(name).push(".."@).drop_last() =~= parts.push(name));
    assert(parts.push(".."@).drop_last() =~= parts);
    assert(seq![".."@].drop_last() =~= seq![]);
    assert(paths::folded_spec(seq![".."@].drop_last()) == Some(Seq::<Seq<char>>::empty()));
    if paths::folded_spec(parts) is Some {
        let done = paths::folded_spec(parts)->0;
        assert(done.push(name).drop_last() =~= done);
    }
}

/// The parts of a path stand between its slashes; empty ones and `.` say
/// nothing.
pub proof fn law_parts_stand_between_slashes(path: Seq<char>, name: Seq<char>)
    requires
        !name.contains('/'),
        name.len() > 0,
        name != "."@,
    ensures
        paths::components_spec(name) == seq![name],
        paths::components_spec(path + seq!['/'] + name) == paths::components_spec(path).push(name),
        paths::components_spec(path + seq!['/']) == paths::components_spec(path),
        paths::components_spec(path + seq!['/', '.']) == paths::components_spec(path),
        paths::components_spec(seq![]) == Seq::<Seq<char>>::empty(),
{
    reveal_strlit(".");
    lemma_split_last(path, name, '/');
    lemma_split_last(path, seq![], '/');
    lemma_split_last(path, "."@, '/');
    lemma_open_piece(name, '/');
    lemma_open_piece(seq![], '/');
    assert(path + seq!['/'] + seq![] =~= path + seq!['/']);
    assert(path + seq!['/'] + "."@ =~= path + seq!['/', '.']);
    let pieces = find::split_spec(path, '/');
    assert(pieces.push(name).drop_last() =~= pieces);
    assert(pieces.push(seq![]).drop_last() =~= pieces);
    assert(pieces.push("."@).drop_last() =~= pieces);
    assert(find::split_spec(name, '/') =~= seq![name]);
    assert(seq![name].drop_last() =~= seq![]);
    assert(paths::components_of(seq![name].drop_last()) =~= seq![]);
    assert(paths::components_spec(name) =~= seq![name]);
    assert(find::split_spec(seq![], '/') =~= seq![Seq::<char>::empty()]);
    assert(seq![Seq::<char>::empty()].drop_last() =~= seq![]);
    assert(paths::components_of(seq![Seq::<char>::empty()].drop_last()) =~= seq![]);
}

proof fn lemma_split_last(front: Seq<char>, piece: Seq<char>, c: char)
    requires
        !piece.contains(c),
    ensures
        find::split_spec(front + seq![c] + piece, c) == find::split_spec(front, c).push(piece),
{
    let head = front + seq![c];
    assert(head.drop_last() =~= front);
    lemma_split_state(head, piece, c);
    lemma_open_piece(piece, c);
    assert(find::split_state(head, c).0 =~= find::split_spec(front, c));
    assert(find::split_spec(head + piece, c) =~= find::split_spec(front, c).push(piece));
}

/// A path lies in a directory exactly where its parts begin with those of the
/// directory, and what is reached through a link that leads out is refused.
pub proof fn law_only_paths_inside_are_settled(
    path: Seq<char>,
    root: Seq<char>,
    normal: Seq<char>,
    ancestor: Seq<char>,
    canonical: Seq<char>,
)
    ensures
        ({
            let r = paths::settled_spec(path, root, normal, ancestor, canonical);
            let a = paths::components_spec(root);
            let b = paths::components_spec(canonical);
            &&& r is Ok <==> a.len() <= b.len() && (forall|i: int|
                0 <= i < a.len() ==> a[i] == #[trigger] b[i])
            &&& r is Ok && ancestor == normal ==> r == Ok::<Seq<char>, Seq<char>>(canonical)
            &&& r is Ok && ancestor != normal ==> r == Ok::<Seq<char>, Seq<char>>(normal)
        }),
{
    let a = paths::components_spec(root);
    let b = paths::components_spec(canonical);
    if a.len() <= b.len() && (forall|i: int| 0 <= i < a.len() ==> a[i] == #[trigger] b[i]) {
        assert(a.is_prefix_of(b));
    }
    if a.is_prefix_of(b) {
        assert forall|i: int| 0 <= i < a.len() implies a[i] == #[trigger] b[i] by {
            assert(b.subrange(0, a.len() as int)[i] == a[i]);
        }
    }
}

} // verus!
