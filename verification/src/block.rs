//! A managed block inside a file that people edit: what stands between two
//! markers is rewritten, what stands around them is kept.

use vstd::prelude::*;
use vstd::string::*;

use crate::find;
use crate::text;

verus! {

/// The places of the two markers of a block: the first start, and the first
/// end from `skip` characters behind it on.
pub open spec fn block_span(
    content: Seq<char>,
    start: Seq<char>,
    end: Seq<char>,
    skip: nat,
) -> Option<(int, int)> {
    match find::find_spec(content, start, 0) {
        Some(s) => match find::find_spec(content, end, s + skip) {
            Some(e) => Some((s, e)),
            None => None,
        },
        None => None,
    }
}

/// The places of the two markers of a block.
pub fn find_block(content: &str, start: &str, end: &str, skip: usize) -> (r: Option<(usize, usize)>)
    requires
        skip <= start@.len(),
    ensures
        match r {
            Some((s, e)) => block_span(content@, start@, end@, skip as nat) == Some(
                (s as int, e as int),
            ) && s + skip <= e && s + start@.len() <= content@.len() && e + end@.len()
                <= content@.len() <= usize::MAX,
            None => block_span(content@, start@, end@, skip as nat) is None,
        },
{
    let v = text::chars(content);
    let first = text::chars(start);
    let last = text::chars(end);
    match find::find_in(v.as_slice(), first.as_slice(), 0) {
        Some(s) => match find::find_in(v.as_slice(), last.as_slice(), s + skip) {
            Some(e) => Some((s, e)),
            None => None,
        },
        None => None,
    }
}

/// A file with its block rewritten. A file without one gets it at its end,
/// and a blank file becomes `fresh`.
pub open spec fn replaced(
    content: Seq<char>,
    start: Seq<char>,
    end: Seq<char>,
    skip: nat,
    block: Seq<char>,
    fresh: Seq<char>,
) -> Seq<char> {
    match block_span(content, start, end, skip) {
        Some((s, e)) => content.take(s) + block + content.skip(e + end.len()),
        None => if text::trim_spec(content).len() == 0 {
            fresh
        } else {
            text::trim_end_spec(content) + "\n\n"@ + block + "\n"@
        },
    }
}

/// Rewrite the block of a file.
pub fn replace_block(
    content: &str,
    start: &str,
    end: &str,
    skip: usize,
    block: &str,
    fresh: String,
) -> (r: String)
    requires
        skip <= start@.len(),
    ensures
        r@ == replaced(content@, start@, end@, skip as nat, block@, fresh@),
{
    match find_block(content, start, end, skip) {
        Some((s, e)) => {
            let v = text::chars(content);
            let head = text::text_range(v.as_slice(), 0, s);
            let n: usize = end.unicode_len();
            let tail = text::text_range(v.as_slice(), e + n, v.len());
            assert(head@ =~= content@.take(s as int));
            assert(tail@ =~= content@.skip(e + n));
            text::cat3(head.as_str(), block, tail.as_str())
        },
        None => {
            let trimmed = text::trim(content);
            if trimmed.as_str().is_empty() {
                fresh
            } else {
                let kept = text::trim_end(content);
                text::cat4(kept.as_str(), "\n\n", block, "\n")
            }
        },
    }
}

// ---------------------------------------------------------------------------
// Laws
// ---------------------------------------------------------------------------

/// What two markers need so that a block is found again: each begins with a
/// character that it holds nowhere else, neither holds a line's end, and they
/// differ.
pub open spec fn markers(start: Seq<char>, end: Seq<char>) -> bool {
    &&& start.len() > 0 && end.len() > 0
    &&& start[0] == '<' && end[0] == '<'
    &&& forall|i: int| 0 < i < start.len() ==> #[trigger] start[i] != '<'
    &&& forall|i: int| 0 < i < end.len() ==> #[trigger] end[i] != '<'
    &&& forall|i: int| 0 <= i < start.len() ==> #[trigger] start[i] != '\n'
    &&& exists|i: int| 0 <= i < start.len() && i < end.len() && start[i] != #[trigger] end[i]
}

proof fn lemma_at(s: Seq<char>, pat: Seq<char>, i: int, k: int)
    requires
        find::occurs_at(s, pat, i),
        0 <= k < pat.len(),
    ensures
        s[i + k] == pat[k],
{
    assert(s.subrange(i, i + pat.len())[k] == s[i + k]);
}

proof fn lemma_first(s: Seq<char>, pat: Seq<char>, from: int, i: int)
    requires
        0 <= from <= i,
        find::occurs_at(s, pat, i),
        forall|j: int| from <= j < i ==> !#[trigger] find::occurs_at(s, pat, j),
    ensures
        find::find_spec(s, pat, from) == Some(i),
{
    find::lemma_find(s, pat, from);
}

/// A block that stands behind a head without a start is found, and it is the
/// whole of it.
pub proof fn lemma_block_found(
    head: Seq<char>,
    start: Seq<char>,
    inner: Seq<char>,
    end: Seq<char>,
    tail: Seq<char>,
    skip: nat,
)
    requires
        markers(start, end),
        skip == 0 || skip == start.len(),
        !find::contains_spec(inner, end),
        forall|i: int| 0 <= i < head.len() ==> !#[trigger] find::occurs_at(head + start, start, i),
    ensures
        ({
            let content = head + (start + inner + end) + tail;
            let s = head.len() as int;
            let e = s + start.len() + inner.len();
            &&& block_span(content, start, end, skip) == Some((s, e))
            &&& content.take(s) == head
            &&& content.subrange(s + start.len(), e) == inner
            &&& content.skip(e + end.len()) == tail
        }),
{
    let content = head + (start + inner + end) + tail;
    let s = head.len() as int;
    let e = s + start.len() + inner.len();
    assert(content.take(s) =~= head);
    assert(content.subrange(s + start.len(), e) =~= inner);
    assert(content.skip(e + end.len()) =~= tail);
    assert(content.subrange(s, s + start.len()) =~= start);
    assert(content.subrange(e, e + end.len()) =~= end);
    assert forall|j: int| 0 <= j < s implies !#[trigger] find::occurs_at(content, start, j) by {
        if find::occurs_at(content, start, j) {
            assert((head + start).subrange(j, j + start.len()) =~= content.subrange(
                j,
                j + start.len(),
            ));
            assert(find::occurs_at(head + start, start, j));
        }
    }
    lemma_first(content, start, 0, s);
    assert forall|j: int| s + skip <= j < e implies !#[trigger] find::occurs_at(content, end, j) by {
        if find::occurs_at(content, end, j) {
            lemma_at(content, end, j, 0);
            if j < s + start.len() {
                if j == s {
                    let k = choose|i: int|
                        0 <= i < start.len() && i < end.len() && start[i] != #[trigger] end[i];
                    lemma_at(content, end, j, k);
                    assert(content[s + k] == start[k]);
                } else {
                    assert(content[j] == start[j - s]);
                }
            } else if j + end.len() > e {
                lemma_at(content, end, j, e - j);
                assert(content[e] == end[0]);
            } else {
                let p = j - s - start.len();
                assert(inner.subrange(p, p + end.len()) =~= content.subrange(j, j + end.len()));
                assert(find::occurs_at(inner, end, p));
                find::lemma_find(inner, end, 0);
            }
        }
    }
    lemma_first(content, end, s + skip, e);
}

proof fn lemma_shared_prefix(a: Seq<char>, b: Seq<char>, pat: Seq<char>, n: int, i: int)
    requires
        0 <= n <= a.len(),
        n <= b.len(),
        a.take(n) == b.take(n),
        i + pat.len() <= n,
        find::occurs_at(a, pat, i),
    ensures
        find::occurs_at(b, pat, i),
{
    assert(a.subrange(i, i + pat.len()) =~= a.take(n).subrange(i, i + pat.len()));
    assert(b.subrange(i, i + pat.len()) =~= b.take(n).subrange(i, i + pat.len()));
}

proof fn lemma_head_of_block(content: Seq<char>, start: Seq<char>, s: int)
    requires
        find::find_spec(content, start, 0) == Some(s),
    ensures
        forall|i: int|
            0 <= i < s ==> !#[trigger] find::occurs_at(content.take(s) + start, start, i),
        0 <= s,
        s + start.len() <= content.len(),
{
    find::lemma_find(content, start, 0);
    let head = content.take(s);
    let n = s + start.len();
    assert((head + start).take(n) =~= content.take(n)) by {
        assert(content.subrange(s, n) == start);
        assert forall|k: int| 0 <= k < n implies (head + start)[k] == content[k] by {
            if k >= s {
                assert(content.subrange(s, n)[k - s] == content[k]);
            }
        }
    }
    assert forall|i: int| 0 <= i < s implies !#[trigger] find::occurs_at(head + start, start, i) by {
        if find::occurs_at(head + start, start, i) {
            lemma_shared_prefix(head + start, content, start, n, i);
        }
    }
}

/// A head that ends in a line's end, or is empty, and holds no start, holds
/// none together with the block's own either.
proof fn lemma_head_of_lines(body: Seq<char>, gap: Seq<char>, start: Seq<char>, end: Seq<char>)
    requires
        markers(start, end),
        !find::contains_spec(body, start),
        gap.len() > 0,
        forall|i: int| 0 <= i < gap.len() ==> #[trigger] gap[i] == '\n',
    ensures
        forall|i: int|
            0 <= i < (body + gap).len() ==> !#[trigger] find::occurs_at(
                body + gap + start,
                start,
                i,
            ),
{
    let head = body + gap;
    find::lemma_find(body, start, 0);
    assert forall|i: int| 0 <= i < head.len() implies !#[trigger] find::occurs_at(
        head + start,
        start,
        i,
    ) by {
        if find::occurs_at(head + start, start, i) {
            if i >= body.len() {
                lemma_at(head + start, start, i, 0);
                assert((head + start)[i] == gap[i - body.len()]);
            } else if i + start.len() > body.len() {
                lemma_at(head + start, start, i, body.len() - i);
                assert((head + start)[body.len() as int] == gap[0]);
            } else {
                assert(body.subrange(i, i + start.len()) =~= (head + start).subrange(
                    i,
                    i + start.len(),
                ));
                assert(find::occurs_at(body, start, i));
            }
        }
    }
}

/// Whether the law below holds of a file: its block is complete, or it holds
/// no start at all.
pub open spec fn tidy(content: Seq<char>, start: Seq<char>, end: Seq<char>, skip: nat) -> bool {
    block_span(content, start, end, skip) is Some || !find::contains_spec(content, start)
}

/// What stands in front of the block once a file was rewritten.
pub open spec fn kept_before(
    content: Seq<char>,
    start: Seq<char>,
    end: Seq<char>,
    skip: nat,
    fresh_head: Seq<char>,
) -> Seq<char> {
    match block_span(content, start, end, skip) {
        Some((s, e)) => content.take(s),
        None => if text::trim_spec(content).len() == 0 {
            fresh_head
        } else {
            text::trim_end_spec(content) + "\n\n"@
        },
    }
}

/// What stands behind the block once a file was rewritten.
pub open spec fn kept_after(content: Seq<char>, start: Seq<char>, end: Seq<char>, skip: nat) -> Seq<
    char,
> {
    match block_span(content, start, end, skip) {
        Some((s, e)) => content.skip(e + end.len()),
        None => "\n"@,
    }
}

proof fn lemma_appended_head(content: Seq<char>, start: Seq<char>, end: Seq<char>)
    requires
        markers(start, end),
        !find::contains_spec(content, start),
    ensures
        ({
            let head = text::trim_end_spec(content) + "\n\n"@;
            forall|i: int|
                0 <= i < head.len() ==> !#[trigger] find::occurs_at(head + start, start, i)
        }),
{
    let body = text::trim_end_spec(content);
    lemma_trim_end_prefix(content);
    find::lemma_find(body, start, 0);
    find::lemma_find(content, start, 0);
    if find::contains_spec(body, start) {
        let i = find::find_spec(body, start, 0)->0;
        assert(body.take(body.len() as int) =~= content.take(body.len() as int));
        lemma_shared_prefix(body, content, start, body.len() as int, i);
    }
    reveal_strlit("\n\n");
    lemma_head_of_lines(body, "\n\n"@, start, end);
}

proof fn lemma_trim_end_prefix(s: Seq<char>)
    ensures
        text::trim_end_spec(s).len() <= s.len(),
        text::trim_end_spec(s) == s.take(text::trim_end_spec(s).len() as int),
    decreases s.len(),
{
    if s.len() > 0 && text::is_white_spec(s.last()) {
        lemma_trim_end_prefix(s.drop_last());
        assert(s.drop_last().take(text::trim_end_spec(s).len() as int) =~= s.take(
            text::trim_end_spec(s).len() as int,
        ));
    } else {
        assert(s.take(s.len() as int) =~= s);
    }
}

/// Rewriting keeps what people wrote: in the new file the block is found
/// again, it holds what was put into it, and what stands around it is what
/// stood around the old block, or the whole old file where there was none.
/// `fresh` is a head without a start and the block.
pub proof fn law_rewriting_keeps_the_rest(
    content: Seq<char>,
    start: Seq<char>,
    end: Seq<char>,
    skip: nat,
    inner: Seq<char>,
    fresh_head: Seq<char>,
)
    requires
        markers(start, end),
        skip == 0 || skip == start.len(),
        !find::contains_spec(inner, end),
        tidy(content, start, end, skip),
        forall|i: int|
            0 <= i < fresh_head.len() ==> !#[trigger] find::occurs_at(
                fresh_head + start,
                start,
                i,
            ),
    ensures
        ({
            let block = start + inner + end;
            let fresh = fresh_head + block + "\n"@;
            let new = replaced(content, start, end, skip, block, fresh);
            let before = kept_before(content, start, end, skip, fresh_head);
            let after = kept_after(content, start, end, skip);
            let s = before.len() as int;
            let e = s + start.len() + inner.len();
            &&& new == before + block + after
            &&& block_span(new, start, end, skip) == Some((s, e))
            &&& new.take(s) == before
            &&& new.subrange(s + start.len(), e) == inner
            &&& new.skip(e + end.len()) == after
        }),
{
    let block = start + inner + end;
    let before = kept_before(content, start, end, skip, fresh_head);
    let after = kept_after(content, start, end, skip);
    match block_span(content, start, end, skip) {
        Some((s, e)) => {
            lemma_head_of_block(content, start, s);
        },
        None => {
            if text::trim_spec(content).len() > 0 {
                lemma_appended_head(content, start, end);
            }
        },
    }
    lemma_block_found(before, start, inner, end, after, skip);
}

/// Rewriting again replaces the block and adds no other: what was put in
/// first leaves no trace.
pub proof fn law_the_last_rewriting_counts(
    content: Seq<char>,
    start: Seq<char>,
    end: Seq<char>,
    skip: nat,
    first: Seq<char>,
    second: Seq<char>,
    fresh_head: Seq<char>,
)
    requires
        markers(start, end),
        skip == 0 || skip == start.len(),
        !find::contains_spec(first, end),
        tidy(content, start, end, skip),
        forall|i: int|
            0 <= i < fresh_head.len() ==> !#[trigger] find::occurs_at(
                fresh_head + start,
                start,
                i,
            ),
    ensures
        ({
            let one = start + first + end;
            let two = start + second + end;
            let new = replaced(content, start, end, skip, one, fresh_head + one + "\n"@);
            replaced(new, start, end, skip, two, fresh_head + two + "\n"@) == replaced(
                content,
                start,
                end,
                skip,
                two,
                fresh_head + two + "\n"@,
            )
        }),
{
    law_rewriting_keeps_the_rest(content, start, end, skip, first, fresh_head);
}

} // verus!
