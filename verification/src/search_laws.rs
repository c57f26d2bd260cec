//! What holds of walking, listing and searching directories.

use vstd::prelude::*;
use vstd::string::*;

use crate::find;
use crate::numbers;
use crate::paths;
use crate::search;
use crate::search::EntryKind;
use crate::sort;
use crate::text;
use crate::tools;

verus! {

proof fn lemma_literal(front: Seq<char>, rest: Seq<char>, t: Seq<char>)
    requires
        !front.contains('*'),
    ensures
        tools::wildcard_spec(front + rest, t) == (t.len() >= front.len() && t.take(
            front.len() as int,
        ) == front && tools::wildcard_spec(rest, t.skip(front.len() as int))),
    decreases front.len(),
{
    if front.len() == 0 {
        assert(front + rest =~= rest);
        assert(t.skip(0) =~= t);
        assert(t.take(0) =~= front);
    } else {
        assert(front[0] != '*');
        let p = front + rest;
        assert(p[0] == front[0]);
        assert(p.skip(1) =~= front.skip(1) + rest);
        assert(!front.skip(1).contains('*')) by {
            if front.skip(1).contains('*') {
                let i = choose|i: int| 0 <= i < front.skip(1).len() && front.skip(1)[i] == '*';
                assert(front[i + 1] == '*');
            }
        }
        if t.len() > 0 {
            lemma_literal(front.skip(1), rest, t.skip(1));
            if t.len() >= front.len() {
                assert(t.skip(1).skip(front.len() - 1) =~= t.skip(front.len() as int));
                let a = t.take(front.len() as int);
                assert(a =~= seq![t[0]] + t.skip(1).take(front.len() - 1));
                assert(front =~= seq![front[0]] + front.skip(1));
                if a == front {
                    assert(a[0] == front[0]);
                    assert(t.skip(1).take(front.len() - 1) =~= a.skip(1));
                }
            }
        }
    }
}

proof fn lemma_star(back: Seq<char>, t: Seq<char>)
    ensures
        tools::wildcard_spec(seq!['*'] + back, t) <==> exists|k: int|
            0 <= k <= t.len() && tools::wildcard_spec(back, #[trigger] t.skip(k)),
    decreases t.len(),
{
    let p = seq!['*'] + back;
    assert(p.skip(1) =~= back);
    assert(t.skip(0) =~= t);
    if t.len() > 0 {
        lemma_star(back, t.skip(1));
        if tools::wildcard_spec(p, t.skip(1)) {
            let k = choose|k: int|
                0 <= k <= t.skip(1).len() && tools::wildcard_spec(back, #[trigger] t.skip(1).skip(k));
            assert(t.skip(1).skip(k) =~= t.skip(k + 1));
            assert(tools::wildcard_spec(back, t.skip(k + 1)));
        }
        if exists|k: int| 0 <= k <= t.len() && tools::wildcard_spec(back, #[trigger] t.skip(k)) {
            let k = choose|k: int|
                0 <= k <= t.len() && tools::wildcard_spec(back, #[trigger] t.skip(k));
            if k > 0 {
                assert(t.skip(1).skip(k - 1) =~= t.skip(k));
                assert(tools::wildcard_spec(back, t.skip(1).skip(k - 1)));
            }
        }
    } else {
        if tools::wildcard_spec(p, t) {
            assert(tools::wildcard_spec(back, t.skip(0)));
        }
    }
}

/// A star stands for any text, the empty one too: a pattern matches exactly
/// where a text begins with what stands before the first star and some rest of
/// it matches what stands behind.
pub proof fn law_a_star_stands_for_any_text(front: Seq<char>, back: Seq<char>, t: Seq<char>)
    requires
        !front.contains('*'),
    ensures
        tools::wildcard_spec(front + seq!['*'] + back, t) <==> exists|k: int|
            front.len() <= k <= t.len() && t.subrange(0, front.len() as int) == front
                && tools::wildcard_spec(back, #[trigger] t.skip(k)),
        tools::wildcard_spec(front, t) <==> front == t,
{
    tools::law_plain_pattern_matches_itself_only(front, t);
    let n = front.len() as int;
    assert(front + seq!['*'] + back =~= front + (seq!['*'] + back));
    lemma_literal(front, seq!['*'] + back, t);
    if t.len() >= n {
        let rest = t.skip(n);
        lemma_star(back, rest);
        assert(t.take(n) =~= t.subrange(0, n));
        if tools::wildcard_spec(front + seq!['*'] + back, t) {
            let k = choose|k: int|
                0 <= k <= rest.len() && tools::wildcard_spec(back, #[trigger] rest.skip(k));
            assert(rest.skip(k) =~= t.skip(n + k));
            assert(tools::wildcard_spec(back, t.skip(n + k)));
        }
        if exists|k: int|
            n <= k <= t.len() && t.subrange(0, n) == front && tools::wildcard_spec(
                back,
                #[trigger] t.skip(k),
            ) {
            let k = choose|k: int|
                n <= k <= t.len() && t.subrange(0, n) == front && tools::wildcard_spec(
                    back,
                    #[trigger] t.skip(k),
                );
            assert(rest.skip(k - n) =~= t.skip(k));
            assert(tools::wildcard_spec(back, rest.skip(k - n)));
        }
    }
}

/// A command may run where no patterns are given, and else exactly where one
/// of them matches it without the white space around it.
pub proof fn law_commands_are_allowed_by_pattern(allow: Seq<Seq<char>>, command: Seq<char>)
    ensures
        tools::allowed_spec(allow, command) <==> allow.len() == 0 || exists|i: int|
            0 <= i < allow.len() && tools::wildcard_spec(
                #[trigger] allow[i],
                text::trim_spec(command),
            ),
{
}

/// A command is simple exactly where it holds no character by which a shell
/// chains, redirects or nests commands.
pub proof fn law_simple_commands_are_one_command(command: Seq<char>)
    ensures
        tools::simple_command(command) <==> !command.contains('|') && !command.contains('&')
            && !command.contains(';') && !command.contains('<') && !command.contains('>')
            && !command.contains('(') && !command.contains(')') && !command.contains('`')
            && !command.contains('\n'),
{
    if !tools::simple_command(command) {
        let i = choose|i: int|
            0 <= i < command.len() && tools::is_shell_operator(#[trigger] command[i]);
        assert(command.contains(command[i]));
    } else {
        assert forall|i: int| 0 <= i < command.len() implies !tools::is_shell_operator(
            #[trigger] command[i],
        ) by {}
    }
}

/// A directory's listing holds each of its entries once, sorted, one on a
/// line, and a directory's name with a slash behind it.
pub proof fn law_listings_show_every_entry(target: Seq<char>, entries: Seq<(String, bool)>)
    requires
        entries.len() > 0,
    ensures
        exists|names: Seq<Seq<char>>|
            {
                &&& names.to_multiset() == Seq::new(
                    entries.len(),
                    |i: int|
                        if entries[i].1 {
                            entries[i].0@ + seq!['/']
                        } else {
                            entries[i].0@
                        },
                ).to_multiset()
                &&& sort::ascending(names)
                &&& #[trigger] text::join_spec(names, seq!['\n']) == search::list_spec(
                    target,
                    entries,
                )
            },
{
    let plain = Seq::new(
        entries.len(),
        |i: int|
            if entries[i].1 {
                entries[i].0@ + seq!['/']
            } else {
                entries[i].0@
            },
    );
    assert forall|i: int| 0 <= i < entries.len() implies plain[i] == search::listed_names(
        entries,
    )[i] by {
        assert(entries[i].0@.push('/') =~= entries[i].0@ + seq!['/']);
    }
    assert(plain =~= search::listed_names(entries));
    sort::law_sorting_orders_and_keeps(plain);
    reveal_strlit("\n");
    assert("\n"@ =~= seq!['\n']);
    let names = sort::sorted_spec(plain);
    assert(text::join_spec(names, seq!['\n']) == search::list_spec(target, entries));
}

/// Whether a part of a path is looked into.
pub open spec fn open_part(part: Seq<char>) -> bool {
    part == ".."@ || (part[0] != '.' && part != "node_modules"@ && part != "target"@)
}

proof fn lemma_searchable_part(part: Seq<char>)
    requires
        part.len() > 0,
    ensures
        search::searchable_part(part) == open_part(part),
{
    reveal_strlit(".git");
    assert(".git"@[0] == '.');
}

proof fn lemma_components(pieces: Seq<Seq<char>>)
    ensures
        forall|i: int|
            0 <= i < paths::components_of(pieces).len() ==> (#[trigger] paths::components_of(
                pieces,
            )[i]).len() > 0,
    decreases pieces.len(),
{
    if pieces.len() > 0 {
        let rest = paths::components_of(pieces.drop_last());
        lemma_components(pieces.drop_last());
        let all = paths::components_of(pieces);
        assert forall|i: int| 0 <= i < all.len() implies (#[trigger] all[i]).len() > 0 by {
            if i < rest.len() {
                assert(all[i] == rest[i]);
            }
        }
    }
}

/// A path is searched exactly where none of its parts is hidden or one of the
/// directories that hold what was built or fetched.
pub proof fn law_hidden_paths_are_not_searched(path: Seq<char>)
    ensures
        search::searchable_spec(path) <==> forall|i: int|
            0 <= i < paths::components_spec(path).len() ==> open_part(
                #[trigger] paths::components_spec(path)[i],
            ),
{
    let parts = paths::components_spec(path);
    lemma_components(find::split_spec(path, '/'));
    assert forall|i: int| 0 <= i < parts.len() implies search::searchable_part(
        #[trigger] parts[i],
    ) == open_part(parts[i]) by {
        lemma_searchable_part(parts[i]);
    }
}

proof fn lemma_entries_of(pieces: Seq<Seq<char>>)
    ensures
        search::entries_of(pieces) == pieces.filter(|p: Seq<char>| p.len() > 0),
        search::searchable_of(pieces) == pieces.filter(|p: Seq<char>| search::searchable_spec(p)),
    decreases pieces.len(),
{
    reveal(Seq::filter);
    if pieces.len() > 0 {
        lemma_entries_of(pieces.drop_last());
    }
}

/// A repository's files are those that it lists, in its order, without those
/// that are not searched; of a very long listing only the start is looked at.
pub proof fn law_repository_files_are_the_listed_ones(listing: Seq<char>)
    ensures
        ({
            let names = find::split_spec(listing, '\0').filter(|p: Seq<char>| p.len() > 0);
            &&& names.len() <= 50_000 ==> search::searchable_of(
                search::within_cap(search::listed_paths(listing)),
            ) == names.filter(|p: Seq<char>| search::searchable_spec(p))
            &&& names.len() > 50_000 ==> search::searchable_of(
                search::within_cap(search::listed_paths(listing)),
            ) == names.take(50_000).filter(|p: Seq<char>| search::searchable_spec(p))
            &&& search::listed_paths(listing) == names
        }),
{
    lemma_entries_of(find::split_spec(listing, '\0'));
    let names = search::listed_paths(listing);
    lemma_entries_of(names);
    lemma_entries_of(names.take(50_000));
}

/// A name under a directory, which is empty for the one that is walked.
pub open spec fn path_in(dir: Seq<char>, name: Seq<char>) -> Seq<char> {
    if dir.len() == 0 {
        name
    } else {
        dir + seq!['/'] + name
    }
}

/// Of a directory that is walked, each plain file that is not hidden is found
/// and each directory that is neither hidden nor left out is walked later, all
/// in the order of the entries; links are not followed.
pub proof fn law_walks_find_every_file(
    dir: Seq<char>,
    entries: Seq<(String, EntryKind)>,
    name: String,
    kind: EntryKind,
)
    requires
        name@.len() > 0,
    ensures
        search::files_in(dir, seq![]) == Seq::<Seq<char>>::empty(),
        search::directories_in(dir, seq![]) == Seq::<Seq<char>>::empty(),
        search::files_in(dir, entries.push((name, kind))) == if kind is File && name@[0] != '.' {
            search::files_in(dir, entries).push(path_in(dir, name@))
        } else {
            search::files_in(dir, entries)
        },
        search::directories_in(dir, entries.push((name, kind))) == if kind is Directory && name@[0]
            != '.' && name@ != "node_modules"@ && name@ != "target"@ {
            search::directories_in(dir, entries).push(path_in(dir, name@))
        } else {
            search::directories_in(dir, entries)
        },
{
    reveal_strlit("/");
    reveal_strlit(".git");
    assert("/"@ =~= seq!['/']);
    assert(".git"@[0] == '.');
    assert(entries.push((name, kind)).drop_last() =~= entries);
    assert(entries.push((name, kind)).last() == (name, kind));
}

/// A walk reads the directory in front: its files follow those found before,
/// and its directories those still to be read, unless the walk has now seen as
/// many entries as it may, which ends it.
pub proof fn law_walks_read_directory_by_directory(
    w: search::WalkView,
    entries: Seq<(String, EntryKind)>,
)
    requires
        w.directories.len() > 0,
        w.seen <= 50_000,
    ensures
        ({
            let next = search::walk_step(w, entries);
            let dir = w.directories[0];
            &&& w.seen + entries.len() <= 50_000 ==> {
                &&& next.files == w.files + search::files_in(dir, entries)
                &&& next.directories == w.directories.subrange(1, w.directories.len() as int)
                    + search::directories_in(dir, entries)
                &&& next.seen == w.seen + entries.len()
                &&& next.cut == w.cut
            }
            &&& w.seen + entries.len() > 50_000 ==> {
                &&& next.cut
                &&& next.directories.len() == 0
                &&& next.seen == 50_000
                &&& next.files == w.files + search::files_in(dir, entries.take(50_000 - w.seen))
            }
        }),
{
    assert(w.directories.skip(1) =~= w.directories.subrange(1, w.directories.len() as int));
}

/// The first few of a sequence.
pub open spec fn at_most<T>(s: Seq<T>, n: int) -> Seq<T> {
    if s.len() <= n {
        s
    } else {
        s.take(n)
    }
}

/// A search by name finds, in order, the files that the pattern matches, the
/// first five hundred at most.
pub proof fn law_globs_find_what_matches(pattern: Seq<char>, files: Seq<Seq<char>>)
    ensures
        search::glob_matches(pattern, files) == at_most(
            files.filter(|p: Seq<char>| tools::wildcard_spec(pattern, p)),
            500,
        ),
    decreases files.len(),
{
    reveal(Seq::filter);
    let hit = |p: Seq<char>| tools::wildcard_spec(pattern, p);
    if files.len() > 0 {
        law_globs_find_what_matches(pattern, files.drop_last());
        let before = files.drop_last().filter(hit);
        let after = files.filter(hit);
        if hit(files.last()) {
            assert(after =~= before.push(files.last()));
            if before.len() < 500 {
                assert(at_most(after, 500) =~= at_most(before, 500).push(files.last()));
            } else {
                assert(at_most(after, 500) =~= at_most(before, 500));
            }
        }
    }
}

/// A reply to a search by name lists what was found, sorted, one on a line,
/// and says where there may be more.
pub proof fn law_glob_replies_list_what_was_found(
    pattern: Seq<char>,
    found: Seq<Seq<char>>,
    cut: bool,
)
    requires
        found.len() > 0,
    ensures
        exists|names: Seq<Seq<char>>|
            {
                &&& names.to_multiset() == found.to_multiset()
                &&& sort::ascending(names)
                &&& #[trigger] text::join_spec(names, seq!['\n']).is_prefix_of(
                    search::glob_reply(pattern, found, cut),
                )
                &&& found.len() < 500 && !cut <==> text::join_spec(names, seq!['\n'])
                    == search::glob_reply(pattern, found, cut)
            },
{
    reveal_strlit("\n");
    assert("\n"@ =~= seq!['\n']);
    reveal_strlit("\n… [result truncated — use a narrower pattern]");
    sort::law_sorting_orders_and_keeps(found);
    let names = sort::sorted_spec(found);
    let listed = text::join_spec(names, seq!['\n']);
    let reply = search::glob_reply(pattern, found, cut);
    assert(reply.subrange(0, listed.len() as int) =~= listed);
    assert(listed.is_prefix_of(reply));
    if !(found.len() < 500 && !cut) {
        assert(reply.len() > listed.len());
    }
}

/// A search in a file goes through its lines in order: each line that the
/// pattern matches is listed behind the file's path and the line's number,
/// without white space at its end and cut to 300 characters, until two hundred
/// matches are listed; the other lines add nothing.
pub proof fn law_matching_lines_are_listed(
    pattern: Seq<char>,
    path: Seq<char>,
    lines: Seq<Seq<char>>,
    line: Seq<char>,
    before: Seq<Seq<char>>,
)
    ensures
        search::file_matches(pattern, path, seq![], before) == before,
        ({
            let so_far = search::file_matches(pattern, path, lines, before);
            let after = search::file_matches(pattern, path, lines.push(line), before);
            if search::pattern_matches(pattern, line) && so_far.len() < 200 {
                after == so_far.push(
                    path + seq![':'] + numbers::decimal_spec(lines.len() + 1) + seq![':', ' ']
                        + at_most(text::trim_end_spec(line), 300),
                )
            } else {
                after == so_far
            }
        }),
{
    reveal_strlit(":");
    reveal_strlit(": ");
    assert(":"@ =~= seq![':']);
    assert(": "@ =~= seq![':', ' ']);
    assert(lines.push(line).drop_last() =~= lines);
    assert(lines.push(line).last() == line);
}

/// A file is searched exactly where the filter, if there is one, matches its
/// path, it has at most four million bytes and no zero byte near its start;
/// other files change nothing. A file in which something was found counts once.
pub proof fn law_text_files_are_searched(g: search::GrepView, path: Seq<char>, bytes: Seq<u8>)
    ensures
        ({
            let next = search::grep_step(g, path, bytes);
            let meant = (g.filter matches Some(f) ==> tools::wildcard_spec(f, path)) && bytes.len()
                <= 4_000_000 && (forall|i: int|
                0 <= i < bytes.len() && i < 8192 ==> #[trigger] bytes[i] != 0);
            &&& next.pattern == g.pattern && next.filter == g.filter
            &&& meant && g.lines.len() < 200 ==> next.lines == search::file_matches(
                g.pattern,
                path,
                text::lines_spec(search::lossy_text(bytes)),
                g.lines,
            )
            &&& !meant || g.lines.len() >= 200 ==> next == g
            &&& next.files_matched == if next.lines.len() > g.lines.len() {
                g.files_matched + 1
            } else {
                g.files_matched
            }
        }),
{
}

/// A search goes through the files one after the other, and its reply lists
/// the matches line by line; it is counted where nothing was cut.
pub proof fn law_searches_go_through_every_file(
    g: search::GrepView,
    files: Seq<(String, Vec<u8>)>,
    file: (String, Vec<u8>),
    cut: bool,
)
    ensures
        search::grep_steps(g, seq![]) == g,
        search::grep_steps(g, files.push(file)) == search::grep_step(
            search::grep_steps(g, files),
            file.0@,
            file.1@,
        ),
        g.lines.len() > 0 ==> text::join_spec(g.lines, seq!['\n']).is_prefix_of(
            search::grep_reply(g, cut),
        ),
        g.lines.len() > 0 && g.lines.len() < 200 && !cut ==> search::grep_reply(g, cut)
            == text::join_spec(g.lines, seq!['\n']) + "\n("@ + numbers::decimal_spec(g.lines.len())
            + " match(es) in "@ + numbers::decimal_spec(g.files_matched) + " file(s))"@,
{
    reveal_strlit("\n");
    assert("\n"@ =~= seq!['\n']);
    assert(files.push(file).drop_last() =~= files);
    assert(files.push(file).last() == file);
    let listed = text::join_spec(g.lines, seq!['\n']);
    let reply = search::grep_reply(g, cut);
    if g.lines.len() > 0 {
        assert(reply.subrange(0, listed.len() as int) =~= listed);
    }
}

} // verus!
