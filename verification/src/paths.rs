//! Paths as texts: their components, and whether a path stays in the working
//! directory.

use vstd::prelude::*;
use vstd::string::*;

use crate::find;
use crate::text;

verus! {

/// Whether a piece between slashes is a component: empty pieces and `.` are
/// none.
pub open spec fn is_component(piece: Seq<char>) -> bool {
    piece.len() > 0 && piece != "."@
}

/// The pieces that are components.
pub open spec fn components_of(pieces: Seq<Seq<char>>) -> Seq<Seq<char>>
    decreases pieces.len(),
{
    if pieces.len() == 0 {
        seq![]
    } else {
        let rest = components_of(pieces.drop_last());
        if is_component(pieces.last()) {
            rest.push(pieces.last())
        } else {
            rest
        }
    }
}

/// The components of a path, `..` among them.
pub open spec fn components_spec(path: Seq<char>) -> Seq<Seq<char>> {
    components_of(find::split_spec(path, '/'))
}

/// The components of a path, `..` among them.
pub fn components(path: &str) -> (out: Vec<String>)
    ensures
        text::views(out@) == components_spec(path@),
{
    let pieces = find::split(path, '/');
    let ghost all = text::views(pieces@);
    let mut out: Vec<String> = Vec::new();
    let mut i: usize = 0;
    assert(text::views(out@) =~= seq![]);
    while i < pieces.len()
        invariant
            i <= pieces@.len(),
            all == text::views(pieces@),
            text::views(out@) == components_of(all.take(i as int)),
        decreases pieces@.len() - i,
    {
        assert(all.take(i + 1).drop_last() =~= all.take(i as int));
        let piece = pieces[i].as_str();
        assert(all[i as int] == piece@);
        if !piece.is_empty() && !text::same(piece, ".") {
            text::add_text(&mut out, piece.to_owned());
        }
        i = i + 1;
    }
    assert(all.take(pieces@.len() as int) =~= all);
    out
}

/// The components with each `..` taking its predecessor away, unless one has
/// none.
pub open spec fn folded_spec(parts: Seq<Seq<char>>) -> Option<Seq<Seq<char>>>
    decreases parts.len(),
{
    if parts.len() == 0 {
        Some(seq![])
    } else {
        match folded_spec(parts.drop_last()) {
            None => None,
            Some(done) => if parts.last() != ".."@ {
                Some(done.push(parts.last()))
            } else if done.len() > 0 {
                Some(done.drop_last())
            } else {
                None
            },
        }
    }
}

/// Whether a path starts at the root.
pub open spec fn is_absolute_spec(path: Seq<char>) -> bool {
    path.len() > 0 && path[0] == '/'
}

/// Whether a path starts at the root.
pub fn is_absolute(path: &str) -> (r: bool)
    ensures
        r == is_absolute_spec(path@),
{
    proof {
        reveal_strlit("/");
    }
    assert("/"@ =~= seq!['/']);
    let r = find::starts_with(path, "/");
    assert(path@.len() > 0 ==> path@.take(1) =~= seq![path@[0]]);
    assert(seq!['/'][0] == '/');
    assert(path@.len() > 0 ==> seq![path@[0]][0] == path@[0]);
    r
}

/// A path taken from a working directory: an absolute one stands for itself.
pub open spec fn joined_spec(root: Seq<char>, path: Seq<char>) -> Seq<char> {
    if is_absolute_spec(path) {
        path
    } else {
        root + "/"@ + path
    }
}

/// A path under a directory: an absolute one stands for itself.
pub open spec fn under_spec(dir: Seq<char>, path: Seq<char>) -> Seq<char> {
    if is_absolute_spec(path) {
        path
    } else if dir.len() == 0 || dir.last() == '/' {
        dir + path
    } else {
        dir + "/"@ + path
    }
}

/// A path under a directory.
pub fn under(dir: &str, path: &str) -> (r: String)
    ensures
        r@ == under_spec(dir@, path@),
{
    if is_absolute(path) {
        return path.to_owned();
    }
    let v = text::chars(dir);
    if v.len() == 0 || v[v.len() - 1] == '/' {
        text::cat2(dir, path)
    } else {
        text::cat3(dir, "/", path)
    }
}

/// The text of an absolute path with these components.
pub open spec fn absolute_text(parts: Seq<Seq<char>>) -> Seq<char> {
    "/"@ + text::join_spec(parts, "/"@)
}

/// What a path names, taken from the working directory without looking at
/// the file system.
pub open spec fn normal_spec(root: Seq<char>, path: Seq<char>) -> Result<Seq<char>, Seq<char>> {
    if text::trim_spec(path).len() == 0 {
        Err("ERROR: `path` must not be empty"@)
    } else {
        match folded_spec(components_spec(joined_spec(root, path))) {
            Some(parts) => Ok(absolute_text(parts)),
            None => Err("ERROR: `"@ + path + "` escapes the working directory"@),
        }
    }
}

fn fold_parts(parts: &Vec<String>) -> (r: Option<Vec<String>>)
    ensures
        match r {
            Some(done) => folded_spec(text::views(parts@)) == Some(text::views(done@)),
            None => folded_spec(text::views(parts@)) is None,
        },
{
    let ghost all = text::views(parts@);
    let mut out: Vec<String> = Vec::new();
    let mut i: usize = 0;
    assert(text::views(out@) =~= seq![]);
    while i < parts.len()
        invariant
            i <= parts@.len(),
            all == text::views(parts@),
            folded_spec(all.take(i as int)) == Some(text::views(out@)),
        decreases parts@.len() - i,
    {
        assert(all.take(i + 1).drop_last() =~= all.take(i as int));
        assert(all.take(i + 1).last() == parts@[i as int]@);
        assert(text::views(out@).len() == out@.len());
        if !text::same(parts[i].as_str(), "..") {
            text::add_text(&mut out, parts[i].clone());
        } else if out.len() > 0 {
            let ghost before = out@;
            out.pop();
            assert(text::views(out@) =~= text::views(before).drop_last());
        } else {
            proof {
                lemma_unfoldable(all, i + 1);
            }
            return None;
        }
        i = i + 1;
    }
    assert(all.take(parts@.len() as int) =~= all);
    Some(out)
}

/// A path whose start climbs above the root does so whatever follows.
proof fn lemma_unfoldable(parts: Seq<Seq<char>>, n: int)
    requires
        0 <= n <= parts.len(),
        folded_spec(parts.take(n)) is None,
    ensures
        folded_spec(parts) is None,
    decreases parts.len() - n,
{
    if n == parts.len() {
        assert(parts.take(n) =~= parts);
    } else {
        assert(parts.take(n + 1).drop_last() =~= parts.take(n));
        lemma_unfoldable(parts, n + 1);
    }
}

/// What a path names, taken from the working directory without looking at
/// the file system.
pub fn normalize(root: &str, path: &str) -> (r: Result<String, String>)
    ensures
        match r {
            Ok(p) => normal_spec(root@, path@) == Ok::<Seq<char>, Seq<char>>(p@),
            Err(e) => normal_spec(root@, path@) == Err::<Seq<char>, Seq<char>>(e@),
        },
{
    let trimmed = text::trim(path);
    if trimmed.as_str().is_empty() {
        return Err("ERROR: `path` must not be empty".to_owned());
    }
    let joined = if is_absolute(path) {
        path.to_owned()
    } else {
        text::cat3(root, "/", path)
    };
    let parts = components(joined.as_str());
    match fold_parts(&parts) {
        Some(done) => Ok(text::cat2("/", text::join(&done, "/").as_str())),
        None => Err(text::cat3("ERROR: `", path, "` escapes the working directory")),
    }
}

/// Whether a path lies in a directory, component by component.
pub open spec fn contained(root: Seq<char>, path: Seq<char>) -> bool {
    components_spec(root).is_prefix_of(components_spec(path))
}

/// Whether a path lies in a directory, component by component.
pub fn lies_in(root: &str, path: &str) -> (r: bool)
    ensures
        r == contained(root@, path@),
{
    let a = components(root);
    let b = components(path);
    let ghost x = text::views(a@);
    let ghost y = text::views(b@);
    assert(x.len() == a@.len() && y.len() == b@.len());
    if a.len() > b.len() {
        return false;
    }
    let mut i: usize = 0;
    while i < a.len()
        invariant
            i <= a@.len() <= b@.len(),
            x == text::views(a@),
            y == text::views(b@),
            x == components_spec(root@),
            y == components_spec(path@),
            x.len() == a@.len(),
            forall|k: int| 0 <= k < i ==> x[k] == y[k],
        decreases a@.len() - i,
    {
        if !text::same(a[i].as_str(), b[i].as_str()) {
            assert(y.subrange(0, x.len() as int)[i as int] != x[i as int]);
            return false;
        }
        i = i + 1;
    }
    assert(x.is_prefix_of(y));
    true
}

/// Where a path may be used: its nearest existing ancestor, with every link
/// followed, has to lie in the working directory. An existing target is used
/// by its canonical path, a new one by its own.
pub open spec fn settled_spec(
    path: Seq<char>,
    root: Seq<char>,
    normal: Seq<char>,
    ancestor: Seq<char>,
    canonical: Seq<char>,
) -> Result<Seq<char>, Seq<char>> {
    if !contained(root, canonical) {
        Err("ERROR: `"@ + path + "` is outside the working directory "@ + root)
    } else if ancestor == normal {
        Ok(canonical)
    } else {
        Ok(normal)
    }
}

/// Decide on a path once its nearest existing ancestor and that ancestor's
/// canonical path are known.
pub fn settle(path: &str, root: &str, normal: &str, ancestor: &str, canonical: &str) -> (r: Result<
    String,
    String,
>)
    ensures
        match r {
            Ok(p) => settled_spec(path@, root@, normal@, ancestor@, canonical@) == Ok::<
                Seq<char>,
                Seq<char>,
            >(p@),
            Err(e) => settled_spec(path@, root@, normal@, ancestor@, canonical@) == Err::<
                Seq<char>,
                Seq<char>,
            >(e@),
        },
{
    if !lies_in(root, canonical) {
        return Err(text::cat4("ERROR: `", path, "` is outside the working directory ", root));
    }
    if text::same(ancestor, normal) {
        Ok(canonical.to_owned())
    } else {
        Ok(normal.to_owned())
    }
}

/// The last component of a path, unless it leads upwards.
pub open spec fn file_name_spec(path: Seq<char>) -> Option<Seq<char>> {
    let parts = components_spec(path);
    if parts.len() == 0 || parts.last() == ".."@ {
        None
    } else {
        Some(parts.last())
    }
}

/// The last component of a path, unless it leads upwards.
pub fn file_name(path: &str) -> (r: Option<String>)
    ensures
        match r {
            Some(name) => file_name_spec(path@) == Some(name@),
            None => file_name_spec(path@) is None,
        },
{
    let mut parts = components(path);
    let ghost all = text::views(parts@);
    assert(all.len() == parts@.len());
    match parts.pop() {
        Some(name) => {
            assert(name@ == all.last());
            if text::same(name.as_str(), "..") {
                None
            } else {
                Some(name)
            }
        },
        None => None,
    }
}

/// A file that exists is only ever used inside the working directory: where
/// its canonical path leaves it, the path is refused, and where the path is
/// accepted, the accepted one lies inside.
pub proof fn law_existing_files_stay_inside(
    path: Seq<char>,
    root: Seq<char>,
    normal: Seq<char>,
    canonical: Seq<char>,
)
    ensures
        match settled_spec(path, root, normal, normal, canonical) {
            Ok(p) => contained(root, p),
            Err(_) => !contained(root, canonical),
        },
{
}

} // verus!
