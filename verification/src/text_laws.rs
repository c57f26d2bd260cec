//! What holds of trimmed, squashed, cut and joined texts.

use vstd::prelude::*;
use vstd::string::*;

use crate::text;

verus! {

/// Whether a text has no white space at its edges.
pub open spec fn is_trimmed(s: Seq<char>) -> bool {
    s.len() == 0 || (!text::is_white_spec(s[0]) && !text::is_white_spec(s.last()))
}

/// Whether a text is white space throughout.
pub open spec fn all_white(s: Seq<char>) -> bool {
    forall|i: int| 0 <= i < s.len() ==> text::is_white_spec(#[trigger] s[i])
}

/// Whether a text fits on a line: its only white space is the plain space.
pub open spec fn is_line(s: Seq<char>) -> bool {
    forall|i: int| 0 <= i < s.len() ==> !text::is_white_spec(#[trigger] s[i]) || s[i] == ' '
}

/// The bytes of two texts in a row add up.
pub proof fn lemma_bytes_of_joined(a: Seq<char>, b: Seq<char>)
    ensures
        text::byte_len(a + b) == text::byte_len(a) + text::byte_len(b),
    decreases a.len(),
{
    if a.len() == 0 {
        assert(a + b =~= b);
    } else {
        lemma_bytes_of_joined(a.drop_first(), b);
        assert((a + b).drop_first() =~= a.drop_first() + b);
    }
}

/// Each character takes a byte at least.
pub proof fn lemma_chars_take_bytes(s: Seq<char>)
    ensures
        s.len() <= text::byte_len(s),
    decreases s.len(),
{
    if s.len() > 0 {
        lemma_chars_take_bytes(s.drop_first());
    }
}

proof fn lemma_trim_end_padding(s: Seq<char>, pad: Seq<char>)
    requires
        all_white(pad),
    ensures
        text::trim_end_spec(s + pad) == text::trim_end_spec(s),
    decreases pad.len(),
{
    if pad.len() == 0 {
        assert(s + pad =~= s);
    } else {
        assert(text::is_white_spec(pad[pad.len() - 1]));
        assert((s + pad).drop_last() =~= s + pad.drop_last());
        assert(all_white(pad.drop_last()));
        lemma_trim_end_padding(s, pad.drop_last());
    }
}

proof fn lemma_trim_start_padding(pad: Seq<char>, s: Seq<char>)
    requires
        all_white(pad),
    ensures
        text::trim_start_spec(pad + s) == text::trim_start_spec(s),
    decreases pad.len(),
{
    if pad.len() == 0 {
        assert(pad + s =~= s);
    } else {
        assert(text::is_white_spec(pad[0]));
        assert((pad + s).skip(1) =~= pad.skip(1) + s);
        assert forall|i: int| 0 <= i < pad.skip(1).len() implies text::is_white_spec(
            #[trigger] pad.skip(1)[i],
        ) by {
            assert(text::is_white_spec(pad[i + 1]));
        }
        lemma_trim_start_padding(pad.skip(1), s);
    }
}

/// A text without white space at its edges is what trimming gives of it,
/// whatever white space is put around it.
pub proof fn lemma_trim_padded(front: Seq<char>, s: Seq<char>, back: Seq<char>)
    requires
        all_white(front),
        all_white(back),
        is_trimmed(s),
    ensures
        text::trim_spec(front + s + back) == s,
{
    lemma_trim_end_padding(front + s, back);
    if s.len() == 0 {
        assert(front + s =~= seq![] + front);
        lemma_trim_end_padding(seq![], front);
    } else {
        assert((front + s).last() == s.last());
        lemma_trim_start_padding(front, s);
    }
}

proof fn lemma_trim_end(s: Seq<char>)
    ensures
        text::trim_end_spec(s).len() > 0 ==> !text::is_white_spec(text::trim_end_spec(s).last()),
        text::trim_end_spec(s).len() <= s.len(),
    decreases s.len(),
{
    if s.len() > 0 && text::is_white_spec(s.last()) {
        lemma_trim_end(s.drop_last());
    }
}

proof fn lemma_trim_start(s: Seq<char>)
    ensures
        text::trim_start_spec(s).len() > 0 ==> !text::is_white_spec(text::trim_start_spec(s)[0])
            && text::trim_start_spec(s).last() == s.last(),
        text::trim_start_spec(s).len() <= s.len(),
    decreases s.len(),
{
    if s.len() > 0 && text::is_white_spec(s[0]) {
        lemma_trim_start(s.skip(1));
        if s.len() > 1 {
            assert(s.skip(1).last() == s.last());
        }
    }
}

/// Trimming leaves no white space at the edges.
pub proof fn lemma_trim_is_trimmed(s: Seq<char>)
    ensures
        is_trimmed(text::trim_spec(s)),
        text::trim_spec(text::trim_spec(s)) == text::trim_spec(s),
{
    lemma_trim_end(s);
    lemma_trim_start(text::trim_end_spec(s));
    let t = text::trim_spec(s);
    lemma_trim_padded(seq![], t, seq![]);
    assert(seq![] + t + seq![] =~= t);
}

proof fn lemma_trim_end_keeps_front(front: Seq<char>, s: Seq<char>)
    requires
        text::trim_end_spec(s).len() > 0,
    ensures
        text::trim_end_spec(front + s) == front + text::trim_end_spec(s),
    decreases s.len(),
{
    assert((front + s).last() == s.last());
    if text::is_white_spec(s.last()) {
        assert((front + s).drop_last() =~= front + s.drop_last());
        lemma_trim_end_keeps_front(front, s.drop_last());
    }
}

proof fn lemma_blank(s: Seq<char>)
    requires
        text::trim_end_spec(s).len() == 0,
    ensures
        all_white(s),
    decreases s.len(),
{
    if s.len() > 0 {
        lemma_blank(s.drop_last());
        assert forall|i: int| 0 <= i < s.len() implies text::is_white_spec(#[trigger] s[i]) by {
            if i < s.len() - 1 {
                assert(s[i] == s.drop_last()[i]);
            }
        }
    }
}

/// White space around a text makes no difference once it is trimmed.
pub proof fn lemma_trim_ignores_padding(front: Seq<char>, s: Seq<char>, back: Seq<char>)
    requires
        all_white(front),
        all_white(back),
    ensures
        text::trim_spec(front + s + back) == text::trim_spec(s),
{
    lemma_trim_end_padding(front + s, back);
    if text::trim_end_spec(s).len() > 0 {
        lemma_trim_end_keeps_front(front, s);
        lemma_trim_start_padding(front, text::trim_end_spec(s));
    } else {
        lemma_blank(s);
        lemma_trim_end_padding(front, s);
        lemma_trim_end_padding(seq![], front);
        assert(seq![] + front =~= front);
        assert(text::trim_end_spec(seq![]) =~= seq![]);
        assert(text::trim_end_spec(s) =~= seq![]);
    }
}

/// Whether a text is a word: not empty, and without white space.
pub open spec fn is_solid(s: Seq<char>) -> bool {
    s.len() > 0 && forall|i: int| 0 <= i < s.len() ==> !text::is_white_spec(#[trigger] s[i])
}

proof fn lemma_words_state(s: Seq<char>)
    ensures
        forall|k: int|
            0 <= k < text::words_state(s).0.len() ==> is_solid(
                #[trigger] text::words_state(s).0[k],
            ),
        text::words_state(s).1.len() > 0 ==> is_solid(text::words_state(s).1),
    decreases s.len(),
{
    if s.len() > 0 {
        lemma_words_state(s.drop_last());
    }
}

proof fn lemma_joined_line(words: Seq<Seq<char>>)
    requires
        forall|k: int| 0 <= k < words.len() ==> is_solid(#[trigger] words[k]),
    ensures
        is_line(text::join_spec(words, " "@)),
        is_trimmed(text::join_spec(words, " "@)),
        words.len() > 0 ==> text::join_spec(words, " "@).len() > 0,
    decreases words.len(),
{
    reveal_strlit(" ");
    if words.len() == 1 {
        assert(is_solid(words[0]));
    } else if words.len() > 1 {
        assert forall|k: int| 0 <= k < words.drop_last().len() implies is_solid(
            #[trigger] words.drop_last()[k],
        ) by {
            assert(is_solid(words[k]));
        }
        lemma_joined_line(words.drop_last());
        assert(is_solid(words[words.len() - 1]));
        let head = text::join_spec(words.drop_last(), " "@);
        let all = text::join_spec(words, " "@);
        assert(all =~= head + " "@ + words.last());
        assert(all[0] == head[0]);
        assert(all.last() == words.last().last());
    }
}

/// A text with a word in it is not squashed to nothing.
pub proof fn lemma_squash_of_words(s: Seq<char>)
    requires
        text::words_spec(s).len() > 0,
    ensures
        text::squash_spec(s).len() > 0,
{
    lemma_words_state(s);
    let words = text::words_spec(s);
    let (done, open) = text::words_state(s);
    assert forall|k: int| 0 <= k < words.len() implies is_solid(#[trigger] words[k]) by {
        if k < done.len() {
            assert(is_solid(done[k]));
        }
    }
    lemma_joined_line(words);
}

/// A squashed text is one line without white space at its edges.
pub proof fn lemma_squash_is_line(s: Seq<char>)
    ensures
        is_line(text::squash_spec(s)),
        is_trimmed(text::squash_spec(s)),
{
    lemma_words_state(s);
    let words = text::words_spec(s);
    let (done, open) = text::words_state(s);
    assert forall|k: int| 0 <= k < words.len() implies is_solid(#[trigger] words[k]) by {
        if k < done.len() {
            assert(is_solid(done[k]));
        }
    }
    lemma_joined_line(words);
}

/// An excerpt is one line without white space at its edges, and no longer than
/// its limit and the ellipsis.
pub proof fn lemma_excerpt_is_line(s: Seq<char>, max: nat)
    requires
        max > 0,
    ensures
        is_line(text::excerpt_spec(s, max)),
        is_trimmed(text::excerpt_spec(s, max)),
        text::excerpt_spec(s, max).len() <= max + 1,
{
    lemma_squash_is_line(s);
    reveal_strlit("…");
    let line = text::squash_spec(s);
    if line.len() > max {
        let cut = text::excerpt_spec(s, max);
        assert(cut[0] == line[0]);
        assert(cut.last() == '…');
        assert forall|i: int| 0 <= i < cut.len() implies !text::is_white_spec(#[trigger] cut[i])
            || cut[i] == ' ' by {
            if i < max {
                assert(cut[i] == line[i]);
            }
        }
    }
}

} // verus!
