//! Searching in text: substrings, prefixes, splitting at a character and
//! replacing. Positions count characters.

use crate::text;
use vstd::prelude::*;
use vstd::string::*;

verus! {

/// Whether `pat` stands in `s` at position `i`.
pub open spec fn occurs_at(s: Seq<char>, pat: Seq<char>, i: int) -> bool {
    0 <= i && i + pat.len() <= s.len() && s.subrange(i, i + pat.len()) == pat
}

/// The first position from `from` on at which `pat` stands in `s`.
pub open spec fn find_spec(s: Seq<char>, pat: Seq<char>, from: int) -> Option<int>
    decreases s.len() + 1 - from,
{
    if from < 0 || from > s.len() {
        None
    } else if occurs_at(s, pat, from) {
        Some(from)
    } else {
        find_spec(s, pat, from + 1)
    }
}

/// Whether `pat` stands anywhere in `s`.
pub open spec fn contains_spec(s: Seq<char>, pat: Seq<char>) -> bool {
    find_spec(s, pat, 0) is Some
}

/// Whether `s` begins with `pat`.
pub open spec fn starts_spec(s: Seq<char>, pat: Seq<char>) -> bool {
    s.len() >= pat.len() && s.take(pat.len() as int) == pat
}

/// What `find_spec` returns is the earliest occurrence, and it returns
/// nothing only where there is none.
pub proof fn lemma_find(s: Seq<char>, pat: Seq<char>, from: int)
    requires
        0 <= from,
    ensures
        match find_spec(s, pat, from) {
            Some(i) => from <= i && occurs_at(s, pat, i) && (forall|j: int|
                from <= j < i ==> !#[trigger] occurs_at(s, pat, j)),
            None => forall|j: int| from <= j ==> !#[trigger] occurs_at(s, pat, j),
        },
    decreases s.len() + 1 - from,
{
    if from <= s.len() && !occurs_at(s, pat, from) {
        lemma_find(s, pat, from + 1);
    }
}

/// Whether `pat` stands in `v` at position `i`.
pub fn matches_at(v: &[char], pat: &[char], i: usize) -> (r: bool)
    ensures
        r == occurs_at(v@, pat@, i as int),
{
    let n: usize = v.len();
    if i > n || n - i < pat.len() {
        return false;
    }
    let mut k: usize = 0;
    while k < pat.len()
        invariant
            k <= pat@.len(),
            n == v@.len(),
            i + pat@.len() <= n,
            forall|j: int| 0 <= j < k ==> v@[i + j] == #[trigger] pat@[j],
        decreases pat@.len() - k,
    {
        if v[i + k] != pat[k] {
            assert(v@.subrange(i as int, i + pat@.len())[k as int] != pat@[k as int]);
            return false;
        }
        k = k + 1;
    }
    assert(v@.subrange(i as int, i + pat@.len()) =~= pat@);
    true
}

/// The first position from `from` on at which `pat` stands in `v`.
pub fn find_in(v: &[char], pat: &[char], from: usize) -> (r: Option<usize>)
    requires
        from <= v@.len(),
    ensures
        match r {
            Some(i) => find_spec(v@, pat@, from as int) == Some(i as int),
            None => find_spec(v@, pat@, from as int) is None,
        },
        r matches Some(i) ==> from <= i && i + pat@.len() <= v@.len() <= usize::MAX,
{
    let n: usize = v.len();
    let mut i: usize = from;
    while i <= n
        invariant
            n == v@.len(),
            from <= i <= n,
            find_spec(v@, pat@, from as int) == find_spec(v@, pat@, i as int),
        decreases v@.len() + 1 - i,
    {
        if matches_at(v, pat, i) {
            return Some(i);
        }
        if i == n {
            assert(find_spec(v@, pat@, i + 1) is None);
            return None;
        }
        i = i + 1;
    }
    None
}

/// The first position at which `pat` stands in `s`.
pub fn find(s: &str, pat: &str) -> (r: Option<usize>)
    ensures
        match r {
            Some(i) => find_spec(s@, pat@, 0) == Some(i as int),
            None => find_spec(s@, pat@, 0) is None,
        },
        r matches Some(i) ==> i + pat@.len() <= s@.len() <= usize::MAX,
{
    let v = text::chars(s);
    let p = text::chars(pat);
    find_in(v.as_slice(), p.as_slice(), 0)
}

/// Whether `pat` stands anywhere in `s`.
pub fn contains(s: &str, pat: &str) -> (r: bool)
    ensures
        r == contains_spec(s@, pat@),
{
    find(s, pat).is_some()
}

/// Whether `c` is one of the characters of `s`.
pub fn contains_char(s: &str, c: char) -> (r: bool)
    ensures
        r == s@.contains(c),
{
    let v = text::chars(s);
    let mut i: usize = 0;
    while i < v.len()
        invariant
            i <= v@.len(),
            v@ == s@,
            forall|j: int| 0 <= j < i ==> v@[j] != c,
        decreases v@.len() - i,
    {
        if v[i] == c {
            assert(s@[i as int] == c);
            return true;
        }
        i = i + 1;
    }
    false
}

/// Whether `s` begins with `pat`.
pub fn starts_with(s: &str, pat: &str) -> (r: bool)
    ensures
        r == starts_spec(s@, pat@),
{
    let v = text::chars(s);
    let p = text::chars(pat);
    let r = matches_at(v.as_slice(), p.as_slice(), 0);
    assert(s@.len() >= pat@.len() ==> s@.subrange(0, pat@.len() as int) =~= s@.take(
        pat@.len() as int,
    ));
    r
}

/// What follows `pat` at the start of `s`.
pub open spec fn strip_prefix_spec(s: Seq<char>, pat: Seq<char>) -> Option<Seq<char>> {
    if starts_spec(s, pat) {
        Some(s.skip(pat.len() as int))
    } else {
        None
    }
}

/// What follows `pat` at the start of `s`.
pub fn strip_prefix(s: &str, pat: &str) -> (r: Option<String>)
    ensures
        match r {
            Some(rest) => strip_prefix_spec(s@, pat@) == Some(rest@),
            None => strip_prefix_spec(s@, pat@) is None,
        },
{
    let v = text::chars(s);
    let p = text::chars(pat);
    assert(s@.len() >= pat@.len() ==> s@.subrange(0, pat@.len() as int) =~= s@.take(
        pat@.len() as int,
    ));
    if matches_at(v.as_slice(), p.as_slice(), 0) {
        let rest = text::text_range(v.as_slice(), p.len(), v.len());
        assert(rest@ =~= s@.skip(pat@.len() as int));
        Some(rest)
    } else {
        None
    }
}

/// The text before and after the first `c`.
pub open spec fn split_once_spec(s: Seq<char>, c: char) -> Option<(Seq<char>, Seq<char>)> {
    match find_spec(s, seq![c], 0) {
        Some(i) => Some((s.take(i), s.skip(i + 1))),
        None => None,
    }
}

/// A text is split at a character that does not stand before.
pub proof fn lemma_split_at(front: Seq<char>, c: char, back: Seq<char>)
    requires
        !front.contains(c),
    ensures
        split_once_spec(front + seq![c] + back, c) == Some((front, back)),
{
    let s = front + seq![c] + back;
    let p = seq![c];
    lemma_find(s, p, 0);
    let n = front.len() as int;
    assert(s.subrange(n, n + 1) =~= p);
    assert(occurs_at(s, p, n));
    assert forall|j: int| 0 <= j < n implies !#[trigger] occurs_at(s, p, j) by {
        if occurs_at(s, p, j) {
            assert(s.subrange(j, j + 1)[0] == front[j]);
            assert(front.contains(c));
        }
    }
    assert(s.take(n) =~= front);
    assert(s.skip(n + 1) =~= back);
}

/// The text before and after the first `c`.
pub fn split_once(s: &str, c: char) -> (r: Option<(String, String)>)
    ensures
        match r {
            Some((a, b)) => split_once_spec(s@, c) == Some((a@, b@)),
            None => split_once_spec(s@, c) is None,
        },
{
    let v = text::chars(s);
    let mut p: Vec<char> = Vec::new();
    p.push(c);
    assert(p@ =~= seq![c]);
    match find_in(v.as_slice(), p.as_slice(), 0) {
        Some(i) => {
            let a = text::text_range(v.as_slice(), 0, i);
            let b = text::text_range(v.as_slice(), i + 1, v.len());
            assert(a@ =~= s@.take(i as int));
            assert(b@ =~= s@.skip(i + 1));
            Some((a, b))
        },
        None => None,
    }
}

/// Closed pieces and the open piece after reading `s`, cut at each `c`.
pub open spec fn split_state(s: Seq<char>, c: char) -> (Seq<Seq<char>>, Seq<char>)
    decreases s.len(),
{
    if s.len() == 0 {
        (seq![], seq![])
    } else {
        let (done, open) = split_state(s.drop_last(), c);
        if s.last() == c {
            (done.push(open), seq![])
        } else {
            (done, open.push(s.last()))
        }
    }
}

/// The pieces of `s` between occurrences of `c`, empty ones too.
pub open spec fn split_spec(s: Seq<char>, c: char) -> Seq<Seq<char>> {
    let (done, open) = split_state(s, c);
    done.push(open)
}

/// The pieces of `s` between occurrences of `c`, empty ones too.
pub fn split(s: &str, c: char) -> (out: Vec<String>)
    ensures
        text::views(out@) == split_spec(s@, c),
{
    let v = text::chars(s);
    let mut out: Vec<String> = Vec::new();
    let mut start: usize = 0;
    let mut i: usize = 0;
    while i < v.len()
        invariant
            start <= i <= v@.len(),
            split_state(v@.take(i as int), c) == (
                text::views(out@),
                v@.subrange(start as int, i as int),
            ),
        decreases v@.len() - i,
    {
        assert(v@.take(i + 1).drop_last() =~= v@.take(i as int));
        let ghost open = v@.subrange(start as int, i as int);
        if v[i] == c {
            let piece = text::text_range(v.as_slice(), start, i);
            let ghost before = text::views(out@);
            out.push(piece);
            assert(text::views(out@) =~= before.push(open));
            start = i + 1;
            assert(v@.subrange(start as int, i + 1) =~= seq![]);
        } else {
            assert(v@.subrange(start as int, i + 1) =~= open.push(v@[i as int]));
        }
        i = i + 1;
    }
    assert(v@.take(v@.len() as int) =~= v@);
    let piece = text::text_range(v.as_slice(), start, v.len());
    let ghost before = text::views(out@);
    let ghost last = piece@;
    out.push(piece);
    assert(text::views(out@) =~= before.push(last));
    out
}

/// `s` from `from` on, with each occurrence of `pat`, found left to right
/// without overlap, replaced by `new`.
pub open spec fn replace_spec(s: Seq<char>, pat: Seq<char>, new: Seq<char>, from: int) -> Seq<char>
    decreases s.len() - from,
{
    proof {
        if 0 <= from {
            lemma_find(s, pat, from);
        }
    }
    if from < 0 || from > s.len() || pat.len() == 0 {
        seq![]
    } else {
        match find_spec(s, pat, from) {
            Some(i) => s.subrange(from, i) + new + replace_spec(s, pat, new, i + pat.len()),
            None => s.skip(from),
        }
    }
}

/// How many occurrences of `pat` stand in `s` from `from` on, found left to
/// right without overlap.
pub open spec fn count_spec(s: Seq<char>, pat: Seq<char>, from: int) -> nat
    decreases s.len() - from,
{
    proof {
        if 0 <= from {
            lemma_find(s, pat, from);
        }
    }
    if from < 0 || from > s.len() || pat.len() == 0 {
        0
    } else {
        match find_spec(s, pat, from) {
            Some(i) => 1 + count_spec(s, pat, i + pat.len()),
            None => 0,
        }
    }
}

/// How many occurrences of `pat` stand in `s`, without overlap.
pub fn count(s: &str, pat: &str) -> (n: usize)
    requires
        pat@.len() > 0,
    ensures
        n == count_spec(s@, pat@, 0),
        n <= s@.len(),
{
    let v = text::chars(s);
    let p = text::chars(pat);
    let mut n: usize = 0;
    let mut pos: usize = 0;
    loop
        invariant
            pos <= v@.len(),
            n <= pos,
            p@.len() > 0,
            n + count_spec(v@, p@, pos as int) == count_spec(v@, p@, 0),
        ensures
            n == count_spec(v@, p@, 0),
            n <= v@.len(),
        decreases v@.len() - pos,
    {
        match find_in(v.as_slice(), p.as_slice(), pos) {
            Some(i) => {
                n = n + 1;
                pos = i + p.len();
            },
            None => {
                break;
            },
        }
    }
    n
}

/// `s` with each occurrence of `pat` replaced by `new`.
pub fn replace(s: &str, pat: &str, new: &str) -> (out: String)
    requires
        pat@.len() > 0,
    ensures
        out@ == replace_spec(s@, pat@, new@, 0),
{
    let v = text::chars(s);
    let p = text::chars(pat);
    let mut out = String::new();
    let mut pos: usize = 0;
    loop
        invariant_except_break
            pos <= v@.len(),
            p@.len() > 0,
            out@ + replace_spec(v@, p@, new@, pos as int) == replace_spec(v@, p@, new@, 0),
        ensures
            out@ == replace_spec(v@, p@, new@, 0),
        decreases v@.len() - pos,
    {
        match find_in(v.as_slice(), p.as_slice(), pos) {
            Some(i) => {
                let kept = text::text_range(v.as_slice(), pos, i);
                let ghost before = out@;
                out.append(kept.as_str());
                out.append(new);
                let ghost rest = replace_spec(v@, p@, new@, i + p@.len());
                assert(before + (kept@ + new@ + rest) =~= out@ + rest);
                pos = i + p.len();
            },
            None => {
                let kept = text::text_range(v.as_slice(), pos, v.len());
                assert(kept@ =~= v@.skip(pos as int));
                out.append(kept.as_str());
                break;
            },
        }
    }
    out
}

/// `s` with its first occurrence of `pat` replaced by `new`.
pub open spec fn replace_first_spec(s: Seq<char>, pat: Seq<char>, new: Seq<char>) -> Seq<char> {
    match find_spec(s, pat, 0) {
        Some(i) => s.take(i) + new + s.skip(i + pat.len()),
        None => s,
    }
}

/// `s` with its first occurrence of `pat` replaced by `new`.
pub fn replace_first(s: &str, pat: &str, new: &str) -> (out: String)
    ensures
        out@ == replace_first_spec(s@, pat@, new@),
{
    let v = text::chars(s);
    let p = text::chars(pat);
    match find_in(v.as_slice(), p.as_slice(), 0) {
        Some(i) => {
            let mut out = text::text_range(v.as_slice(), 0, i);
            assert(out@ =~= s@.take(i as int));
            out.append(new);
            let rest = text::text_range(v.as_slice(), i + p.len(), v.len());
            assert(rest@ =~= s@.skip(i + pat@.len()));
            out.append(rest.as_str());
            out
        },
        None => s.to_owned(),
    }
}

/// The part of `s` from position `from` up to `to`.
pub fn slice(s: &str, from: usize, to: usize) -> (out: String)
    requires
        from <= to <= s@.len(),
    ensures
        out@ == s@.subrange(from as int, to as int),
{
    let v = text::chars(s);
    text::text_range(v.as_slice(), from, to)
}

} // verus!
