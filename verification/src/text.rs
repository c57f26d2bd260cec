//! Text primitives over sequences of characters: trimming, splitting,
//! searching, replacing and number formatting.

use vstd::prelude::*;
use vstd::string::*;

verus! {

/// `String::push`: the character is added at the end.
pub assume_specification[ String::push ](s: &mut String, c: char)
    ensures
        final(s)@ == old(s)@.push(c),
;

// ---------------------------------------------------------------------------
// Conversions
// ---------------------------------------------------------------------------

/// The characters of a string.
pub fn chars(s: &str) -> (out: Vec<char>)
    ensures
        out@ == s@,
{
    let mut out: Vec<char> = Vec::new();
    let n: usize = s.unicode_len();
    let mut iter = s.chars();
    let mut i: usize = 0;
    while i < n
        invariant
            i <= n,
            n == s@.len(),
            out@ == s@.take(i as int),
            vstd::std_specs::iter::IteratorSpec::remaining(&iter) == s@.skip(i as int),
        decreases n - i,
    {
        match iter.next() {
            Some(c) => {
                out.push(c);
                assert(s@.take(i + 1) =~= s@.take(i as int).push(s@[i as int]));
                assert(s@.skip(i as int).drop_first() =~= s@.skip(i + 1));
            },
            None => {
                assert(false);
            },
        }
        i = i + 1;
    }
    assert(s@.take(n as int) =~= s@);
    out
}

/// The string made of the characters `v[from..to]`.
pub fn text_range(v: &[char], from: usize, to: usize) -> (out: String)
    requires
        from <= to <= v@.len(),
    ensures
        out@ == v@.subrange(from as int, to as int),
{
    let mut out = String::new();
    let mut i: usize = from;
    while i < to
        invariant
            from <= i <= to <= v@.len(),
            out@ == v@.subrange(from as int, i as int),
        decreases to - i,
    {
        out.push(v[i]);
        assert(v@.subrange(from as int, i + 1) =~= v@.subrange(from as int, i as int).push(
            v@[i as int],
        ));
        i = i + 1;
    }
    out
}

/// The string made of all of `v`.
pub fn text(v: &[char]) -> (out: String)
    ensures
        out@ == v@,
{
    let out = text_range(v, 0, v.len());
    assert(v@.subrange(0, v@.len() as int) =~= v@);
    out
}

/// The views of a list of strings.
pub open spec fn views(list: Seq<String>) -> Seq<Seq<char>> {
    Seq::new(list.len(), |i: int| list[i]@)
}

/// Whether two strings hold the same characters.
pub fn same(a: &str, b: &str) -> (r: bool)
    ensures
        r == (a@ == b@),
{
    let x = a.to_owned();
    let y = b.to_owned();
    x == y
}

/// Whether `name` occurs in `list`.
pub fn listed(list: &Vec<String>, name: &str) -> (r: bool)
    ensures
        r == views(list@).contains(name@),
{
    let mut i: usize = 0;
    while i < list.len()
        invariant
            i <= list@.len(),
            forall|j: int| 0 <= j < i ==> #[trigger] list@[j]@ != name@,
        decreases list@.len() - i,
    {
        if same(list[i].as_str(), name) {
            assert(views(list@)[i as int] == name@);
            return true;
        }
        i = i + 1;
    }
    assert(!views(list@).contains(name@)) by {
        if views(list@).contains(name@) {
            let j = choose|j: int| 0 <= j < views(list@).len() && views(list@)[j] == name@;
            assert(list@[j]@ == name@);
        }
    }
    false
}

/// The number of bytes of the UTF-8 form.
pub open spec fn byte_len(s: Seq<char>) -> nat {
    vstd::utf8::encode_utf8(s).len()
}

/// The number of bytes of a string.
pub fn bytes_in(s: &str) -> (n: usize)
    ensures
        n == byte_len(s@),
{
    s.as_bytes().len()
}

// ---------------------------------------------------------------------------
// White space
// ---------------------------------------------------------------------------

/// The characters with the Unicode `White_Space` property.
pub open spec fn is_white_spec(c: char) -> bool {
    let u = c as u32;
    ||| 0x09 <= u <= 0x0d
    ||| u == 0x20
    ||| u == 0x85
    ||| u == 0xa0
    ||| u == 0x1680
    ||| 0x2000 <= u <= 0x200a
    ||| u == 0x2028
    ||| u == 0x2029
    ||| u == 0x202f
    ||| u == 0x205f
    ||| u == 0x3000
}

/// Whether a character has the Unicode `White_Space` property.
pub fn is_white(c: char) -> (r: bool)
    ensures
        r == is_white_spec(c),
{
    let u: u32 = c as u32;
    (0x09 <= u && u <= 0x0d) || u == 0x20 || u == 0x85 || u == 0xa0 || u == 0x1680 || (0x2000 <= u
        && u <= 0x200a) || u == 0x2028 || u == 0x2029 || u == 0x202f || u == 0x205f || u == 0x3000
}

/// `s` without its leading white space.
pub open spec fn trim_start_spec(s: Seq<char>) -> Seq<char>
    decreases s.len(),
{
    if s.len() > 0 && is_white_spec(s[0]) {
        trim_start_spec(s.skip(1))
    } else {
        s
    }
}

/// `s` without its trailing white space.
pub open spec fn trim_end_spec(s: Seq<char>) -> Seq<char>
    decreases s.len(),
{
    if s.len() > 0 && is_white_spec(s.last()) {
        trim_end_spec(s.drop_last())
    } else {
        s
    }
}

/// `s` without its leading and trailing white space.
pub open spec fn trim_spec(s: Seq<char>) -> Seq<char> {
    trim_start_spec(trim_end_spec(s))
}

/// The end of `v[from..to]` once trailing white space is dropped.
fn trimmed_end(v: &[char], from: usize, to: usize) -> (end: usize)
    requires
        from <= to <= v@.len(),
    ensures
        from <= end <= to,
        v@.subrange(from as int, end as int) == trim_end_spec(
            v@.subrange(from as int, to as int),
        ),
{
    let mut end: usize = to;
    while end > from && is_white(v[end - 1])
        invariant
            from <= end <= to <= v@.len(),
            trim_end_spec(v@.subrange(from as int, end as int)) == trim_end_spec(
                v@.subrange(from as int, to as int),
            ),
        decreases end,
    {
        assert(v@.subrange(from as int, end as int).drop_last() =~= v@.subrange(
            from as int,
            end - 1,
        ));
        end = end - 1;
    }
    end
}

/// The start of `v[from..to]` once leading white space is dropped.
fn trimmed_start(v: &[char], from: usize, to: usize) -> (start: usize)
    requires
        from <= to <= v@.len(),
    ensures
        from <= start <= to,
        v@.subrange(start as int, to as int) == trim_start_spec(
            v@.subrange(from as int, to as int),
        ),
{
    let mut start: usize = from;
    while start < to && is_white(v[start])
        invariant
            from <= start <= to <= v@.len(),
            trim_start_spec(v@.subrange(start as int, to as int)) == trim_start_spec(
                v@.subrange(from as int, to as int),
            ),
        decreases to - start,
    {
        assert(v@.subrange(start as int, to as int).skip(1) =~= v@.subrange(start + 1, to as int));
        start = start + 1;
    }
    start
}

/// `s` without its leading and trailing white space.
pub fn trim(s: &str) -> (out: String)
    ensures
        out@ == trim_spec(s@),
{
    let v = chars(s);
    let end = trimmed_end(v.as_slice(), 0, v.len());
    let start = trimmed_start(v.as_slice(), 0, end);
    assert(v@.subrange(0, v@.len() as int) =~= v@);
    text_range(v.as_slice(), start, end)
}

/// `s` without its trailing white space.
pub fn trim_end(s: &str) -> (out: String)
    ensures
        out@ == trim_end_spec(s@),
{
    let v = chars(s);
    let end = trimmed_end(v.as_slice(), 0, v.len());
    assert(v@.subrange(0, v@.len() as int) =~= v@);
    text_range(v.as_slice(), 0, end)
}

/// `s` without its leading white space.
pub fn trim_start(s: &str) -> (out: String)
    ensures
        out@ == trim_start_spec(s@),
{
    let v = chars(s);
    let start = trimmed_start(v.as_slice(), 0, v.len());
    assert(v@.subrange(0, v@.len() as int) =~= v@);
    text_range(v.as_slice(), start, v.len())
}

// ---------------------------------------------------------------------------
// Splitting and joining
// ---------------------------------------------------------------------------

/// Finished words and the word still open after reading `s`.
pub open spec fn words_state(s: Seq<char>) -> (Seq<Seq<char>>, Seq<char>)
    decreases s.len(),
{
    if s.len() == 0 {
        (seq![], seq![])
    } else {
        let (done, open) = words_state(s.drop_last());
        if is_white_spec(s.last()) {
            if open.len() == 0 {
                (done, open)
            } else {
                (done.push(open), seq![])
            }
        } else {
            (done, open.push(s.last()))
        }
    }
}

/// The maximal runs of characters that are not white space, in order.
pub open spec fn words_spec(s: Seq<char>) -> Seq<Seq<char>> {
    let (done, open) = words_state(s);
    if open.len() == 0 {
        done
    } else {
        done.push(open)
    }
}

/// The words of `s`.
pub fn words(s: &str) -> (out: Vec<String>)
    ensures
        views(out@) == words_spec(s@),
{
    let v = chars(s);
    let mut out: Vec<String> = Vec::new();
    let mut open = String::new();
    let mut fresh = true;
    let mut i: usize = 0;
    while i < v.len()
        invariant
            i <= v@.len(),
            words_state(v@.take(i as int)) == (views(out@), open@),
            fresh == (open@.len() == 0),
        decreases v@.len() - i,
    {
        let c = v[i];
        assert(v@.take(i + 1).drop_last() =~= v@.take(i as int));
        if is_white(c) {
            if !fresh {
                let ghost before = views(out@);
                let ghost word = open@;
                out.push(open);
                assert(views(out@) =~= before.push(word));
                open = String::new();
                fresh = true;
            }
        } else {
            open.push(c);
            fresh = false;
        }
        i = i + 1;
    }
    assert(v@.take(v@.len() as int) =~= v@);
    if !fresh {
        let ghost before = views(out@);
        let ghost word = open@;
        out.push(open);
        assert(views(out@) =~= before.push(word));
    }
    out
}

/// A line's text once the carriage return before its line feed is dropped.
pub open spec fn drop_cr(s: Seq<char>) -> Seq<char> {
    if s.len() > 0 && s.last() == '\r' {
        s.drop_last()
    } else {
        s
    }
}

/// Finished lines and the line still open after reading `s`.
pub open spec fn lines_state(s: Seq<char>) -> (Seq<Seq<char>>, Seq<char>)
    decreases s.len(),
{
    if s.len() == 0 {
        (seq![], seq![])
    } else {
        let (done, open) = lines_state(s.drop_last());
        if s.last() == '\n' {
            (done.push(drop_cr(open)), seq![])
        } else {
            (done, open.push(s.last()))
        }
    }
}

/// The lines of `s`: each ends at a line feed or a carriage return and line
/// feed, neither of which belongs to it; a last line needs no ending.
pub open spec fn lines_spec(s: Seq<char>) -> Seq<Seq<char>> {
    let (done, open) = lines_state(s);
    if open.len() == 0 {
        done
    } else {
        done.push(open)
    }
}

/// Text without a line feed only adds to the open line.
pub proof fn lemma_lines_grow(s: Seq<char>, t: Seq<char>)
    requires
        !t.contains('\n'),
    ensures
        lines_state(s + t) == (lines_state(s).0, lines_state(s).1 + t),
    decreases t.len(),
{
    if t.len() == 0 {
        assert(s + t =~= s);
        assert(lines_state(s).1 + t =~= lines_state(s).1);
    } else {
        assert(t.last() != '\n') by {
            assert(t.contains(t.last()));
        }
        assert(!t.drop_last().contains('\n')) by {
            if t.drop_last().contains('\n') {
                let k = t.drop_last().index_of('\n');
                assert(t[k] == '\n');
            }
        }
        lemma_lines_grow(s, t.drop_last());
        assert((s + t).drop_last() =~= s + t.drop_last());
        assert((lines_state(s).1 + t.drop_last()).push(t.last()) =~= lines_state(s).1 + t);
    }
}

/// A text and a line feed finish the open line.
pub proof fn lemma_line_ends(s: Seq<char>, t: Seq<char>, feed: Seq<char>)
    requires
        !t.contains('\n'),
        feed == seq!['\n'],
        t.len() > 0 ==> t.last() != '\r',
        lines_state(s).1.len() == 0,
    ensures
        lines_state(s + t + feed) == (lines_state(s).0.push(t), Seq::<char>::empty()),
{
    lemma_lines_grow(s, t);
    assert((s + t + feed).drop_last() =~= s + t);
    assert((s + t + feed).last() == '\n');
    assert(lines_state(s).1 + t =~= t);
}

/// The lines of `s`.
pub fn lines(s: &str) -> (out: Vec<String>)
    ensures
        views(out@) == lines_spec(s@),
{
    let v = chars(s);
    let mut out: Vec<String> = Vec::new();
    let mut start: usize = 0;
    let mut i: usize = 0;
    while i < v.len()
        invariant
            start <= i <= v@.len(),
            lines_state(v@.take(i as int)) == (views(out@), v@.subrange(start as int, i as int)),
        decreases v@.len() - i,
    {
        let c = v[i];
        assert(v@.take(i + 1).drop_last() =~= v@.take(i as int));
        let ghost open = v@.subrange(start as int, i as int);
        if c == '\n' {
            let end: usize = if i > start && v[i - 1] == '\r' {
                i - 1
            } else {
                i
            };
            let line = text_range(v.as_slice(), start, end);
            assert(line@ =~= drop_cr(open));
            let ghost before = views(out@);
            out.push(line);
            assert(views(out@) =~= before.push(drop_cr(open)));
            start = i + 1;
            assert(v@.subrange(start as int, i + 1) =~= seq![]);
        } else {
            assert(v@.subrange(start as int, i + 1) =~= open.push(c));
        }
        i = i + 1;
    }
    assert(v@.take(v@.len() as int) =~= v@);
    if start < v.len() {
        let line = text_range(v.as_slice(), start, v.len());
        let ghost before = views(out@);
        let ghost last = line@;
        out.push(line);
        assert(views(out@) =~= before.push(last));
    }
    out
}

/// `parts` one after the other with `sep` between neighbours.
pub open spec fn join_spec(parts: Seq<Seq<char>>, sep: Seq<char>) -> Seq<char>
    decreases parts.len(),
{
    if parts.len() == 0 {
        seq![]
    } else if parts.len() == 1 {
        parts[0]
    } else {
        join_spec(parts.drop_last(), sep) + sep + parts.last()
    }
}

/// `parts` joined by `sep`.
pub fn join(parts: &Vec<String>, sep: &str) -> (out: String)
    ensures
        out@ == join_spec(views(parts@), sep@),
{
    let mut out = String::new();
    let mut i: usize = 0;
    while i < parts.len()
        invariant
            i <= parts@.len(),
            out@ == join_spec(views(parts@).take(i as int), sep@),
        decreases parts@.len() - i,
    {
        assert(views(parts@).take(i + 1).drop_last() =~= views(parts@).take(i as int));
        if i > 0 {
            out.append(sep);
        }
        out.append(parts[i].as_str());
        assert(i == 0 ==> out@ =~= parts@[0]@);
        i = i + 1;
    }
    assert(views(parts@).take(parts@.len() as int) =~= views(parts@));
    out
}

/// Two texts, one after the other.
pub fn cat2(a: &str, b: &str) -> (out: String)
    ensures
        out@ == a@ + b@,
{
    let mut out = a.to_owned();
    out.append(b);
    out
}

/// Three texts, one after the other.
pub fn cat3(a: &str, b: &str, c: &str) -> (out: String)
    ensures
        out@ == a@ + b@ + c@,
{
    let mut out = a.to_owned();
    out.append(b);
    out.append(c);
    out
}

/// Four texts, one after the other.
pub fn cat4(a: &str, b: &str, c: &str, d: &str) -> (out: String)
    ensures
        out@ == a@ + b@ + c@ + d@,
{
    let mut out = a.to_owned();
    out.append(b);
    out.append(c);
    out.append(d);
    out
}

/// Five texts, one after the other.
pub fn cat5(a: &str, b: &str, c: &str, d: &str, e: &str) -> (out: String)
    ensures
        out@ == a@ + b@ + c@ + d@ + e@,
{
    let mut out = a.to_owned();
    out.append(b);
    out.append(c);
    out.append(d);
    out.append(e);
    out
}

/// Add a text to a list.
pub fn add_text(list: &mut Vec<String>, item: String)
    ensures
        views(final(list)@) == views(old(list)@).push(item@),
{
    let ghost before = views(list@);
    let ghost added = item@;
    list.push(item);
    assert(views(list@) =~= before.push(added));
}

/// Add texts to a list, in their order.
pub fn add_texts(list: &mut Vec<String>, more: &Vec<String>)
    ensures
        views(final(list)@) == views(old(list)@) + views(more@),
{
    let ghost start = views(list@);
    let ghost all = views(more@);
    let mut i: usize = 0;
    assert(start + all.take(0) =~= start);
    while i < more.len()
        invariant
            i <= more@.len(),
            all == views(more@),
            views(list@) == start + all.take(i as int),
        decreases more@.len() - i,
    {
        add_text(list, more[i].clone());
        assert((start + all.take(i as int)).push(all[i as int]) =~= start + all.take(i + 1));
        i = i + 1;
    }
    assert(all.take(all.len() as int) =~= all);
}

/// A copy of a list of texts.
pub fn copy_list(list: &Vec<String>) -> (out: Vec<String>)
    ensures
        views(out@) == views(list@),
        out@.len() == list@.len(),
{
    let mut out: Vec<String> = Vec::new();
    let mut i: usize = 0;
    while i < list.len()
        invariant
            i <= list@.len(),
            out@.len() == i,
            forall|k: int| 0 <= k < i ==> (#[trigger] out@[k])@ == list@[k]@,
        decreases list@.len() - i,
    {
        out.push(list[i].clone());
        i = i + 1;
    }
    assert(views(out@) =~= views(list@));
    out
}

/// The first `max` characters.
pub open spec fn take_spec(s: Seq<char>, max: nat) -> Seq<char> {
    if s.len() <= max {
        s
    } else {
        s.take(max as int)
    }
}

/// The first `max` characters.
pub fn take(s: &str, max: usize) -> (out: String)
    ensures
        out@ == take_spec(s@, max as nat),
{
    let v = chars(s);
    if v.len() <= max {
        s.to_owned()
    } else {
        let out = text_range(v.as_slice(), 0, max);
        assert(out@ =~= s@.take(max as int));
        out
    }
}

/// A text cut to `max` characters, with an ellipsis where it was cut.
pub open spec fn truncate_spec(s: Seq<char>, max: nat) -> Seq<char> {
    if s.len() <= max {
        s
    } else {
        s.take(max as int) + "…"@
    }
}

/// A text cut to `max` characters, with an ellipsis where it was cut.
pub fn truncate(s: &str, max: usize) -> (out: String)
    ensures
        out@ == truncate_spec(s@, max as nat),
{
    let v = chars(s);
    if v.len() <= max {
        s.to_owned()
    } else {
        let mut out = text_range(v.as_slice(), 0, max);
        assert(out@ =~= s@.take(max as int));
        out.append("…");
        out
    }
}

/// The words of a text with single spaces between them.
pub open spec fn squash_spec(s: Seq<char>) -> Seq<char> {
    join_spec(words_spec(s), " "@)
}

/// The words of a text with single spaces between them.
pub fn squash(s: &str) -> (out: String)
    ensures
        out@ == squash_spec(s@),
{
    let parts = words(s);
    join(&parts, " ")
}

/// A text on one line, cut to `max` characters.
pub open spec fn excerpt_spec(s: Seq<char>, max: nat) -> Seq<char> {
    truncate_spec(squash_spec(s), max)
}

/// A text on one line, cut to `max` characters.
pub fn excerpt(s: &str, max: usize) -> (out: String)
    ensures
        out@ == excerpt_spec(s@, max as nat),
{
    let line = squash(s);
    truncate(line.as_str(), max)
}

// ---------------------------------------------------------------------------
// Letters
// ---------------------------------------------------------------------------

/// What `str::to_lowercase` makes of a text.
pub uninterp spec fn lowercased(s: Seq<char>) -> Seq<char>;

/// An ASCII letter in lower case; any other character as it is.
pub open spec fn ascii_lower_spec(c: char) -> char {
    if 'A' <= c <= 'Z' {
        (c as u32 + 32) as char
    } else {
        c
    }
}

/// `str::to_lowercase`: the text in lower case by Unicode's rules. The result
/// is named; stated is that it holds no ASCII capital letter, and that an
/// ASCII text is changed letter by letter.
#[verifier::external_body]
pub(crate) fn lowercase(s: &str) -> (r: String)
    ensures
        r@ == lowercased(s@),
        forall|i: int| 0 <= i < r@.len() ==> !('A' <= #[trigger] r@[i] <= 'Z'),
        vstd::utf8::is_ascii_chars(s@) ==> r@ == s@.map_values(|c: char| ascii_lower_spec(c)),
{
    s.to_lowercase()
}

/// Whether a character is an ASCII letter or digit.
pub open spec fn ascii_alnum(c: char) -> bool {
    'a' <= c <= 'z' || 'A' <= c <= 'Z' || '0' <= c <= '9'
}

/// Whether a character is an ASCII letter or digit.
pub fn is_ascii_alnum(c: char) -> (r: bool)
    ensures
        r == ascii_alnum(c),
{
    ('a' <= c && c <= 'z') || ('A' <= c && c <= 'Z') || ('0' <= c && c <= '9')
}

/// Whether `char::is_alphanumeric` holds of a character.
pub uninterp spec fn alphanumeric(c: char) -> bool;

/// `char::is_alphanumeric`: whether a character is a letter or a digit by
/// Unicode's rules. The result is named; stated is what holds of ASCII.
#[verifier::external_body]
pub(crate) fn is_alphanumeric(c: char) -> (r: bool)
    ensures
        r == alphanumeric(c),
        (c as u32) < 128 ==> r == ascii_alnum(c),
{
    c.is_alphanumeric()
}

/// A text with its ASCII capitals in lower case.
pub open spec fn ascii_lowercased(s: Seq<char>) -> Seq<char> {
    Seq::new(s.len(), |i: int| ascii_lower_spec(s[i]))
}

/// A text with its ASCII capitals in lower case.
pub fn ascii_lowercase(s: &str) -> (r: String)
    ensures
        r@ == ascii_lowercased(s@),
{
    let v = chars(s);
    let mut out = String::new();
    let mut i: usize = 0;
    while i < v.len()
        invariant
            i <= v@.len(),
            v@ == s@,
            out@ == ascii_lowercased(s@).take(i as int),
        decreases v@.len() - i,
    {
        let c = v[i];
        let low = if 'A' <= c && c <= 'Z' {
            ((c as u8) + 32) as char
        } else {
            c
        };
        assert(low == ascii_lower_spec(c));
        out.push(low);
        assert(ascii_lowercased(s@).take(i + 1) =~= ascii_lowercased(s@).take(i as int).push(low));
        i = i + 1;
    }
    assert(ascii_lowercased(s@).take(v@.len() as int) =~= ascii_lowercased(s@));
    out
}

/// A text in quotes, with the escapes that Rust's debug form gives it.
pub uninterp spec fn quoted_text(s: Seq<char>) -> Seq<char>;

/// Formats a `str` with `{:?}`. The claim: the debug form of a text depends
/// on the text alone. Which characters it escapes, and how, is named and not
/// stated.
#[verifier::external_body]
pub(crate) fn quoted(s: &str) -> (r: String)
    ensures
        r@ == quoted_text(s@),
{
    format!("{s:?}")
}

} // verus!
