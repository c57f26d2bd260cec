//! Names that are safe as file names: small letters, digits and dashes.

use vstd::prelude::*;
use vstd::string::*;

use crate::find;
use crate::model;
use crate::text;

verus! {

/// Characters that a slug has at most.
pub const MAX_SLUG_LEN: usize = 64;

/// A text with a dash for every character but ASCII letters and digits.
pub open spec fn dashed(s: Seq<char>) -> Seq<char> {
    Seq::new(
        s.len(),
        |i: int|
            if text::ascii_alnum(s[i]) {
                s[i]
            } else {
                '-'
            },
    )
}

/// The pieces that are not empty.
pub open spec fn nonempty(pieces: Seq<Seq<char>>) -> Seq<Seq<char>>
    decreases pieces.len(),
{
    if pieces.len() == 0 {
        seq![]
    } else {
        let before = nonempty(pieces.drop_last());
        if pieces.last().len() == 0 {
            before
        } else {
            before.push(pieces.last())
        }
    }
}

/// A name as words joined by single dashes.
pub open spec fn kebab(name: Seq<char>) -> Seq<char> {
    text::join_spec(
        nonempty(find::split_spec(dashed(text::lowercased(text::trim_spec(name))), '-')),
        "-"@,
    )
}

/// The slug of a name, if anything usable remains of it.
pub open spec fn slug_spec(name: Seq<char>) -> Option<Seq<char>> {
    let s = kebab(name);
    if 0 < s.len() <= MAX_SLUG_LEN {
        Some(s)
    } else {
        None
    }
}

/// Whether a text holds nothing but small letters, digits and single dashes,
/// and no dash at its edges.
pub open spec fn is_kebab(s: Seq<char>) -> bool {
    &&& forall|i: int|
        0 <= i < s.len() ==> 'a' <= #[trigger] s[i] <= 'z' || '0' <= s[i] <= '9' || s[i] == '-'
    &&& s.len() > 0 ==> s[0] != '-' && s.last() != '-'
    &&& forall|i: int, j: int|
        0 <= i < j < s.len() && #[trigger] s[i] == '-' && #[trigger] s[j] == '-' ==> i + 1 < j
}

/// Whether a text is made of small letters and digits.
pub open spec fn is_word(s: Seq<char>) -> bool {
    forall|i: int| 0 <= i < s.len() ==> 'a' <= #[trigger] s[i] <= 'z' || '0' <= s[i] <= '9'
}

proof fn lemma_split_words(s: Seq<char>)
    requires
        forall|i: int|
            0 <= i < s.len() ==> 'a' <= #[trigger] s[i] <= 'z' || '0' <= s[i] <= '9' || s[i] == '-',
    ensures
        forall|k: int|
            0 <= k < find::split_state(s, '-').0.len() ==> is_word(
                #[trigger] find::split_state(s, '-').0[k],
            ),
        is_word(find::split_state(s, '-').1),
    decreases s.len(),
{
    if s.len() > 0 {
        lemma_split_words(s.drop_last());
    }
}

proof fn lemma_nonempty_words(pieces: Seq<Seq<char>>)
    requires
        forall|k: int| 0 <= k < pieces.len() ==> is_word(#[trigger] pieces[k]),
    ensures
        forall|k: int|
            0 <= k < nonempty(pieces).len() ==> is_word(#[trigger] nonempty(pieces)[k])
                && nonempty(pieces)[k].len() > 0,
    decreases pieces.len(),
{
    if pieces.len() > 0 {
        assert forall|k: int| 0 <= k < pieces.drop_last().len() implies is_word(
            #[trigger] pieces.drop_last()[k],
        ) by {
            assert(is_word(pieces[k]));
        }
        lemma_nonempty_words(pieces.drop_last());
        let before = nonempty(pieces.drop_last());
        assert(is_word(pieces[pieces.len() - 1]));
        assert forall|k: int| 0 <= k < nonempty(pieces).len() implies is_word(
            #[trigger] nonempty(pieces)[k],
        ) && nonempty(pieces)[k].len() > 0 by {
            if k < before.len() {
                assert(nonempty(pieces)[k] == before[k]);
            }
        }
    }
}

proof fn lemma_joined_words(words: Seq<Seq<char>>)
    requires
        forall|k: int| 0 <= k < words.len() ==> is_word(#[trigger] words[k]) && words[k].len() > 0,
    ensures
        is_kebab(text::join_spec(words, "-"@)),
        words.len() > 0 ==> text::join_spec(words, "-"@).len() > 0,
    decreases words.len(),
{
    reveal_strlit("-");
    if words.len() == 1 {
        assert(is_word(words[0]));
    } else if words.len() > 1 {
        assert forall|k: int| 0 <= k < words.drop_last().len() implies is_word(
            #[trigger] words.drop_last()[k],
        ) && words.drop_last()[k].len() > 0 by {
            assert(is_word(words[k]));
        }
        lemma_joined_words(words.drop_last());
        assert(is_word(words[words.len() - 1]));
        let head = text::join_spec(words.drop_last(), "-"@);
        let all = text::join_spec(words, "-"@);
        assert(all =~= head + "-"@ + words.last());
        assert(all[0] == head[0]);
        assert(all.last() == words.last().last());
        assert forall|i: int, j: int|
            0 <= i < j < all.len() && #[trigger] all[i] == '-' && #[trigger] all[j]
                == '-' implies i + 1 < j by {
            let n = head.len() as int;
            assert(i < n ==> all[i] == head[i]);
            assert(j < n ==> all[j] == head[j]);
            assert(j > n ==> all[j] == words.last()[j - n - 1]);
            assert(head.last() != '-');
        }
    }
}

/// The pieces between single dashes are not empty.
proof fn lemma_split_single(s: Seq<char>)
    requires
        s.len() > 0 ==> s[0] != '-',
        forall|i: int, j: int|
            0 <= i < j < s.len() && #[trigger] s[i] == '-' && #[trigger] s[j] == '-' ==> i + 1 < j,
    ensures
        forall|k: int|
            0 <= k < find::split_state(s, '-').0.len() ==> (#[trigger] find::split_state(
                s,
                '-',
            ).0[k]).len() > 0,
        find::split_state(s, '-').1.len() == 0 <==> s.len() == 0 || s.last() == '-',
    decreases s.len(),
{
    if s.len() > 0 {
        let t = s.drop_last();
        assert forall|i: int, j: int|
            0 <= i < j < t.len() && #[trigger] t[i] == '-' && #[trigger] t[j] == '-' implies i + 1
            < j by {
            assert(s[i] == '-' && s[j] == '-');
        }
        lemma_split_single(t);
        if s.last() == '-' && t.len() > 0 {
            assert(s[t.len() - 1] == t.last());
            assert(s[s.len() - 1] == '-');
        }
    }
}

/// What was cut at dashes is joined by dashes again.
proof fn lemma_split_joins(s: Seq<char>)
    ensures
        text::join_spec(find::split_spec(s, '-'), "-"@) == s,
    decreases s.len(),
{
    reveal_strlit("-");
    if s.len() == 0 {
        assert(find::split_spec(s, '-') =~= seq![Seq::<char>::empty()]);
    } else {
        lemma_split_joins(s.drop_last());
        let (done, open) = find::split_state(s.drop_last(), '-');
        let pieces = find::split_spec(s, '-');
        if s.last() == '-' {
            assert(pieces.drop_last() =~= done.push(open));
            assert(text::join_spec(pieces, "-"@) =~= s.drop_last() + "-"@);
            assert(s =~= s.drop_last() + "-"@);
        } else {
            assert(pieces.drop_last() =~= done);
            assert(done.push(open).drop_last() =~= done);
            assert(text::join_spec(pieces, "-"@) =~= s.drop_last().push(s.last()));
            assert(s =~= s.drop_last().push(s.last()));
        }
    }
}

proof fn lemma_all_nonempty(pieces: Seq<Seq<char>>)
    requires
        forall|k: int| 0 <= k < pieces.len() ==> (#[trigger] pieces[k]).len() > 0,
    ensures
        nonempty(pieces) == pieces,
    decreases pieces.len(),
{
    if pieces.len() > 0 {
        let shorter = pieces.drop_last();
        assert forall|k: int| 0 <= k < shorter.len() implies (#[trigger] shorter[k]).len() > 0 by {
            assert(pieces[k].len() > 0);
        }
        lemma_all_nonempty(shorter);
        assert(pieces[pieces.len() - 1].len() > 0);
        assert(shorter.push(pieces.last()) =~= pieces);
    } else {
        assert(nonempty(pieces) =~= pieces);
    }
}

/// A text of single-dashed words, which is in lower case already, is made
/// into itself.
proof fn lemma_kebab_stays(s: Seq<char>)
    requires
        is_kebab(s),
        s.len() > 0,
        text::lowercased(text::trim_spec(s)) == text::trim_spec(s),
    ensures
        kebab(s) == s,
{
    assert(!text::is_white_spec(s[0]));
    assert(!text::is_white_spec(s[s.len() - 1]));
    assert(text::trim_spec(s) == s);
    assert(dashed(s) =~= s);
    lemma_split_single(s);
    lemma_split_joins(s);
    let pieces = find::split_spec(s, '-');
    let (done, open) = find::split_state(s, '-');
    assert forall|k: int| 0 <= k < pieces.len() implies (#[trigger] pieces[k]).len() > 0 by {
        if k < done.len() {
            assert(pieces[k] == done[k]);
        }
    }
    lemma_all_nonempty(pieces);
}

fn dash_out(s: &str) -> (r: String)
    ensures
        r@ == dashed(s@),
{
    let v = text::chars(s);
    let mut out: Vec<char> = Vec::new();
    let mut i: usize = 0;
    while i < v.len()
        invariant
            i <= v@.len(),
            v@ == s@,
            out@ == dashed(s@).take(i as int),
        decreases v@.len() - i,
    {
        let c: char = if text::is_ascii_alnum(v[i]) {
            v[i]
        } else {
            '-'
        };
        out.push(c);
        assert(dashed(s@).take(i as int).push(dashed(s@)[i as int]) =~= dashed(s@).take(i + 1));
        i = i + 1;
    }
    assert(out@ =~= dashed(s@));
    text::text(out.as_slice())
}

fn drop_empty(pieces: &Vec<String>) -> (r: Vec<String>)
    ensures
        text::views(r@) == nonempty(text::views(pieces@)),
{
    let ghost all = text::views(pieces@);
    let mut out: Vec<String> = Vec::new();
    let mut i: usize = 0;
    assert(text::views(out@) =~= seq![]);
    while i < pieces.len()
        invariant
            i <= pieces@.len(),
            all == text::views(pieces@),
            text::views(out@) == nonempty(all.take(i as int)),
        decreases pieces@.len() - i,
    {
        assert(all.take(i + 1).drop_last() =~= all.take(i as int));
        if !pieces[i].as_str().is_empty() {
            text::add_text(&mut out, pieces[i].clone());
        }
        i = i + 1;
    }
    assert(all.take(all.len() as int) =~= all);
    out
}

/// A file name for a name: small letters, digits and single dashes, or nothing
/// where nothing usable remains. A slug holds neither a dot nor a slash, so a
/// path that is made of one stays in its directory. The slug of a slug is the
/// slug itself.
pub fn slug(name: &str) -> (r: Option<String>)
    ensures
        model::option_text(r) == slug_spec(name@),
        r matches Some(s) ==> is_kebab(s@) && 0 < s@.len() <= MAX_SLUG_LEN,
        is_kebab(name@) && 0 < name@.len() <= MAX_SLUG_LEN ==> model::option_text(r) == Some(
            name@,
        ),
{
    let trimmed = text::trim(name);
    let lower = text::lowercase(trimmed.as_str());
    proof {
        if is_kebab(name@) && name@.len() > 0 {
            assert(!text::is_white_spec(name@[0]));
            assert(!text::is_white_spec(name@[name@.len() - 1]));
            assert(trimmed@ == name@);
            assert(vstd::utf8::is_ascii_chars(name@));
            assert(lower@ =~= name@);
            lemma_kebab_stays(name@);
        }
    }
    let cleaned = dash_out(lower.as_str());
    let pieces = find::split(cleaned.as_str(), '-');
    let words = drop_empty(&pieces);
    let s = text::join(&words, "-");
    proof {
        assert forall|i: int| 0 <= i < cleaned@.len() implies 'a' <= #[trigger] cleaned@[i] <= 'z'
            || '0' <= cleaned@[i] <= '9' || cleaned@[i] == '-' by {
            assert(!('A' <= lower@[i] <= 'Z'));
        }
        lemma_split_words(cleaned@);
        assert forall|k: int| 0 <= k < text::views(pieces@).len() implies is_word(
            #[trigger] text::views(pieces@)[k],
        ) by {
            let (done, open) = find::split_state(cleaned@, '-');
            if k < done.len() {
                assert(is_word(done[k]));
            }
        }
        lemma_nonempty_words(text::views(pieces@));
        lemma_joined_words(text::views(words@));
    }
    let n: usize = s.as_str().unicode_len();
    if n > 0 && n <= MAX_SLUG_LEN {
        Some(s)
    } else {
        None
    }
}

} // verus!
