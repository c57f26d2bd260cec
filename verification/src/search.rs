//! Looking through the working directory: listings, walks, `glob` and
//! `grep`.

use vstd::prelude::*;
use vstd::string::*;

use crate::files::MAX_GLOB_RESULTS;
use crate::files::MAX_GREP_FILE_BYTES;
use crate::files::MAX_GREP_MATCHES;
use crate::files::MAX_WALK_ENTRIES;
use crate::find;
use crate::numbers;
use crate::paths;
use crate::sort;
use crate::table::Table;
use crate::text;
use crate::tools;

verus! {

// ---------------------------------------------------------------------------
// Listing
// ---------------------------------------------------------------------------

/// The directory that a path names: the working directory where it is blank.
pub open spec fn target_spec(path: Seq<char>) -> Seq<char> {
    if text::trim_spec(path).len() == 0 {
        "."@
    } else {
        path
    }
}

/// The directory that a path names: the working directory where it is blank.
pub fn search_target(path: &str) -> (r: String)
    ensures
        r@ == target_spec(path@),
{
    let trimmed = text::trim(path);
    if trimmed.as_str().is_empty() {
        ".".to_owned()
    } else {
        path.to_owned()
    }
}

/// An entry of a listing: a directory is marked by a slash.
pub open spec fn listed_name(name: Seq<char>, is_dir: bool) -> Seq<char> {
    if is_dir {
        name.push('/')
    } else {
        name
    }
}

/// The entries of a listing.
pub open spec fn listed_names(entries: Seq<(String, bool)>) -> Seq<Seq<char>> {
    Seq::new(entries.len(), |i: int| listed_name(entries[i].0@, entries[i].1))
}

/// What listing a directory replies.
pub open spec fn list_spec(target: Seq<char>, entries: Seq<(String, bool)>) -> Seq<char> {
    if entries.len() == 0 {
        "(`"@ + target + "` is empty)"@
    } else {
        text::join_spec(sort::sorted_spec(listed_names(entries)), "\n"@)
    }
}

/// What listing a directory with these entries replies; the flag of an entry
/// says whether it is a directory.
pub fn list_dir(target: &str, entries: &Vec<(String, bool)>) -> (r: String)
    ensures
        r@ == list_spec(target@, entries@),
{
    if entries.len() == 0 {
        return text::cat3("(`", target, "` is empty)");
    }
    let mut names: Vec<String> = Vec::new();
    let mut i: usize = 0;
    while i < entries.len()
        invariant
            i <= entries@.len(),
            names@.len() == i,
            forall|k: int|
                0 <= k < i ==> (#[trigger] names@[k])@ == listed_name(entries@[k].0@, entries@[k].1),
        decreases entries@.len() - i,
    {
        let mut name = entries[i].0.clone();
        if entries[i].1 {
            name.push('/');
        }
        names.push(name);
        i = i + 1;
    }
    assert(text::views(names@) =~= listed_names(entries@));
    let sorted = sort::sort_texts(names);
    text::join(&sorted, "\n")
}

// ---------------------------------------------------------------------------
// Walks
// ---------------------------------------------------------------------------

/// Directories that a search does not look into.
pub open spec fn is_ignored(name: Seq<char>) -> bool {
    name == ".git"@ || name == "node_modules"@ || name == "target"@
}

/// Whether a name is hidden.
pub open spec fn is_hidden(name: Seq<char>) -> bool {
    name.len() > 0 && name[0] == '.'
}

fn hidden(name: &str) -> (r: bool)
    ensures
        r == is_hidden(name@),
{
    let v = text::chars(name);
    v.len() > 0 && v[0] == '.'
}

fn ignored(name: &str) -> (r: bool)
    ensures
        r == is_ignored(name@),
{
    text::same(name, ".git") || text::same(name, "node_modules") || text::same(name, "target")
}

/// Whether a search looks at a component of a path.
pub open spec fn searchable_part(part: Seq<char>) -> bool {
    part == ".."@ || (!is_hidden(part) && !is_ignored(part))
}

/// Whether a search looks at a file, by its path.
pub open spec fn searchable_spec(path: Seq<char>) -> bool {
    forall|i: int|
        0 <= i < paths::components_spec(path).len() ==> searchable_part(
            #[trigger] paths::components_spec(path)[i],
        )
}

/// Whether a search looks at a file, by its path: no component of it is
/// hidden or ignored.
pub fn searchable_path(path: &str) -> (r: bool)
    ensures
        r == searchable_spec(path@),
{
    let parts = paths::components(path);
    let ghost all = text::views(parts@);
    assert(all.len() == parts@.len());
    let mut i: usize = 0;
    while i < parts.len()
        invariant
            i <= parts@.len(),
            all == text::views(parts@),
            all == paths::components_spec(path@),
            all.len() == parts@.len(),
            forall|k: int| 0 <= k < i ==> searchable_part(#[trigger] all[k]),
        decreases parts@.len() - i,
    {
        let part = parts[i].as_str();
        assert(all[i as int] == part@);
        if !text::same(part, "..") && (hidden(part) || ignored(part)) {
            assert(!searchable_part(paths::components_spec(path@)[i as int]));
            return false;
        }
        i = i + 1;
    }
    true
}

/// The files that a walk looks at, and whether the walk was cut short.
pub struct Walked {
    pub files: Vec<String>,
    pub cut: bool,
}

/// The pieces of a zero-separated listing that are not empty.
pub open spec fn entries_of(pieces: Seq<Seq<char>>) -> Seq<Seq<char>>
    decreases pieces.len(),
{
    if pieces.len() == 0 {
        seq![]
    } else if pieces.last().len() == 0 {
        entries_of(pieces.drop_last())
    } else {
        entries_of(pieces.drop_last()).push(pieces.last())
    }
}

/// The paths that a search looks at.
pub open spec fn searchable_of(names: Seq<Seq<char>>) -> Seq<Seq<char>>
    decreases names.len(),
{
    if names.len() == 0 {
        seq![]
    } else if searchable_spec(names.last()) {
        searchable_of(names.drop_last()).push(names.last())
    } else {
        searchable_of(names.drop_last())
    }
}

/// The names among the first that a walk may visit.
pub open spec fn within_cap(names: Seq<Seq<char>>) -> Seq<Seq<char>> {
    if names.len() > MAX_WALK_ENTRIES {
        names.take(MAX_WALK_ENTRIES as int)
    } else {
        names
    }
}

fn nonempty(pieces: &Vec<String>) -> (out: Vec<String>)
    ensures
        text::views(out@) == entries_of(text::views(pieces@)),
{
    let ghost all = text::views(pieces@);
    let mut out: Vec<String> = Vec::new();
    let mut i: usize = 0;
    assert(text::views(out@) =~= seq![]);
    while i < pieces.len()
        invariant
            i <= pieces@.len(),
            all == text::views(pieces@),
            text::views(out@) == entries_of(all.take(i as int)),
        decreases pieces@.len() - i,
    {
        assert(all.take(i + 1).drop_last() =~= all.take(i as int));
        assert(all.take(i + 1).last() == pieces@[i as int]@);
        if !pieces[i].as_str().is_empty() {
            text::add_text(&mut out, pieces[i].clone());
        }
        i = i + 1;
    }
    assert(all.take(pieces@.len() as int) =~= all);
    out
}

/// The paths in a repository's listing.
pub open spec fn listed_paths(listing: Seq<char>) -> Seq<Seq<char>> {
    entries_of(find::split_spec(listing, '\0'))
}

/// The files that a repository's listing offers to a search, in its order.
/// The listing is the version control's, separated by zero characters; at
/// most `MAX_WALK_ENTRIES` of its entries are looked at.
pub fn repository_files(listing: &str) -> (r: Walked)
    ensures
        ({
            let names = listed_paths(listing@);
            &&& text::views(r.files@) == searchable_of(within_cap(names))
            &&& r.cut == (names.len() > MAX_WALK_ENTRIES)
        }),
{
    let pieces = find::split(listing, '\0');
    let names = nonempty(&pieces);
    let ghost all = text::views(names@);
    assert(all.len() == names@.len());
    let cut = names.len() > MAX_WALK_ENTRIES;
    let n: usize = if cut {
        MAX_WALK_ENTRIES
    } else {
        names.len()
    };
    let ghost seen = within_cap(all);
    assert(seen =~= all.take(n as int));
    let mut files: Vec<String> = Vec::new();
    let mut i: usize = 0;
    assert(text::views(files@) =~= seq![]);
    while i < n
        invariant
            i <= n <= names@.len(),
            all == text::views(names@),
            text::views(files@) == searchable_of(all.take(i as int)),
        decreases n - i,
    {
        assert(all.take(i + 1).drop_last() =~= all.take(i as int));
        assert(all.take(i + 1).last() == names@[i as int]@);
        if searchable_path(names[i].as_str()) {
            text::add_text(&mut files, names[i].clone());
        }
        i = i + 1;
    }
    Walked { files, cut }
}

/// What an entry of a directory is.
#[derive(Debug, Clone, Copy, PartialEq, Eq, Structural)]
pub enum EntryKind {
    Directory,
    File,
    Link,
    /// The entry could not be inspected.
    Unknown,
}

/// What one directory adds to a walk.
pub struct DirectoryStep {
    /// Paths of the files to look at, in order.
    pub files: Vec<String>,
    /// Paths of the directories to walk later, in order.
    pub directories: Vec<String>,
    /// Whether the walk ends here for having seen too many entries.
    pub cut: bool,
    /// Entries that the walk has seen by now.
    pub seen: usize,
}

/// A path under a directory; the working directory is written as nothing.
pub open spec fn under(dir: Seq<char>, name: Seq<char>) -> Seq<char> {
    if dir.len() == 0 {
        name
    } else {
        dir + "/"@ + name
    }
}

/// The paths of those entries that are files to look at.
pub open spec fn files_in(dir: Seq<char>, entries: Seq<(String, EntryKind)>) -> Seq<Seq<char>>
    decreases entries.len(),
{
    if entries.len() == 0 {
        seq![]
    } else {
        let rest = files_in(dir, entries.drop_last());
        let (name, kind) = entries.last();
        if kind == EntryKind::File && !is_hidden(name@) {
            rest.push(under(dir, name@))
        } else {
            rest
        }
    }
}

/// The paths of those entries that are directories to walk.
pub open spec fn directories_in(dir: Seq<char>, entries: Seq<(String, EntryKind)>) -> Seq<
    Seq<char>,
>
    decreases entries.len(),
{
    if entries.len() == 0 {
        seq![]
    } else {
        let rest = directories_in(dir, entries.drop_last());
        let (name, kind) = entries.last();
        if kind == EntryKind::Directory && !is_hidden(name@) && !is_ignored(name@) {
            rest.push(under(dir, name@))
        } else {
            rest
        }
    }
}

/// The entries of a directory that a walk takes after it has seen so many.
pub open spec fn entries_taken(seen: nat, entries: Seq<(String, EntryKind)>) -> Seq<
    (String, EntryKind),
> {
    if entries.len() > MAX_WALK_ENTRIES - seen {
        entries.take(MAX_WALK_ENTRIES - seen)
    } else {
        entries
    }
}

fn path_under(dir: &str, name: &str) -> (r: String)
    ensures
        r@ == under(dir@, name@),
{
    if dir.is_empty() {
        name.to_owned()
    } else {
        text::cat3(dir, "/", name)
    }
}

/// Take a directory's entries into a walk, in the order of their names.
/// Links are not followed, hidden entries and ignored directories are left
/// out, and the walk ends at the entry that exceeds `MAX_WALK_ENTRIES`.
pub fn walk_directory(dir: &str, entries: &Table<EntryKind>, seen: usize) -> (r: DirectoryStep)
    requires
        entries.ordered(),
        seen <= MAX_WALK_ENTRIES,
    ensures
        ({
            let all = entries.entries@;
            let taken = entries_taken(seen as nat, all);
            &&& r.cut == (all.len() > MAX_WALK_ENTRIES - seen)
            &&& r.seen == seen + taken.len()
            &&& r.seen <= MAX_WALK_ENTRIES
            &&& text::views(r.files@) == files_in(dir@, taken)
            &&& text::views(r.directories@) == directories_in(dir@, taken)
        }),
{
    let room: usize = MAX_WALK_ENTRIES - seen;
    let rows = &entries.entries;
    let ghost all = rows@;
    let cut = rows.len() > room;
    let n: usize = if cut {
        room
    } else {
        rows.len()
    };
    let ghost taken = entries_taken(seen as nat, all);
    assert(taken =~= all.take(n as int));
    let mut files: Vec<String> = Vec::new();
    let mut directories: Vec<String> = Vec::new();
    let mut i: usize = 0;
    assert(text::views(files@) =~= seq![]);
    assert(text::views(directories@) =~= seq![]);
    while i < n
        invariant
            i <= n <= rows@.len(),
            all == rows@,
            text::views(files@) == files_in(dir@, all.take(i as int)),
            text::views(directories@) == directories_in(dir@, all.take(i as int)),
        decreases n - i,
    {
        assert(all.take(i + 1).drop_last() =~= all.take(i as int));
        assert(all.take(i + 1).last() == all[i as int]);
        let name = rows[i].0.as_str();
        match rows[i].1 {
            EntryKind::File => {
                if !hidden(name) {
                    text::add_text(&mut files, path_under(dir, name));
                }
            },
            EntryKind::Directory => {
                if !hidden(name) && !ignored(name) {
                    text::add_text(&mut directories, path_under(dir, name));
                }
            },
            EntryKind::Link => {},
            EntryKind::Unknown => {},
        }
        i = i + 1;
    }
    DirectoryStep { files, directories, cut, seen: seen + n }
}

/// A walk through the files below a directory. Directories are read one
/// after the other, in the order in which they were found, and files are
/// handed out in the order in which they were found.
pub struct Walk {
    /// The directories found.
    pub queue: Vec<String>,
    /// How many of them have been read.
    pub read: usize,
    /// The files found.
    pub found: Vec<String>,
    /// How many of them have been handed out.
    pub handed: usize,
    /// Entries that the walk has seen by now.
    pub seen: usize,
    /// Whether the walk ended early.
    pub cut: bool,
}

/// A walk as its contracts speak of it.
pub struct WalkView {
    /// The directories still to be read, the next one first.
    pub directories: Seq<Seq<char>>,
    /// The files still to be handed out, the next one first.
    pub files: Seq<Seq<char>>,
    pub seen: nat,
    pub cut: bool,
}

impl View for Walk {
    type V = WalkView;

    open spec fn view(&self) -> WalkView {
        WalkView {
            directories: text::views(self.queue@).skip(self.read as int),
            files: text::views(self.found@).skip(self.handed as int),
            seen: self.seen as nat,
            cut: self.cut,
        }
    }
}

/// The first of these texts, if there is one.
pub open spec fn first_of(texts: Seq<Seq<char>>) -> Option<Seq<char>> {
    if texts.len() == 0 {
        None
    } else {
        Some(texts[0])
    }
}

/// A walk after the next directory was read: what it holds comes behind what
/// was found before, and too many entries end the walk.
pub open spec fn walk_step(w: WalkView, entries: Seq<(String, EntryKind)>) -> WalkView {
    if w.directories.len() == 0 {
        w
    } else {
        let dir = w.directories[0];
        let taken = entries_taken(w.seen, entries);
        let cut = entries.len() > MAX_WALK_ENTRIES - w.seen;
        WalkView {
            directories: if cut {
                seq![]
            } else {
                w.directories.skip(1) + directories_in(dir, taken)
            },
            files: w.files + files_in(dir, taken),
            seen: w.seen + taken.len(),
            cut: w.cut || cut,
        }
    }
}

/// A walk that was told to stop: nothing is left of it.
pub open spec fn walk_stopped(w: WalkView) -> WalkView {
    WalkView { directories: seq![], files: seq![], seen: w.seen, cut: true }
}

proof fn lemma_entries_counted(dir: Seq<char>, entries: Seq<(String, EntryKind)>)
    ensures
        files_in(dir, entries).len() + directories_in(dir, entries).len() <= entries.len(),
    decreases entries.len(),
{
    if entries.len() > 0 {
        lemma_entries_counted(dir, entries.drop_last());
    }
}

proof fn lemma_names_counted(names: Seq<Seq<char>>)
    ensures
        searchable_of(names).len() <= names.len(),
    decreases names.len(),
{
    if names.len() > 0 {
        lemma_names_counted(names.drop_last());
    }
}

impl Walk {
    /// The invariant: every file and every directory but the first was an
    /// entry that the walk has seen, and a walk sees `MAX_WALK_ENTRIES` at
    /// most.
    pub open spec fn valid(self) -> bool {
        &&& self.read <= self.queue@.len()
        &&& self.handed <= self.found@.len()
        &&& self.found@.len() + self.queue@.len() <= self.seen + 1
        &&& self.seen <= MAX_WALK_ENTRIES
    }

    /// A walk below a directory.
    pub fn below(dir: &str) -> (r: Walk)
        ensures
            r.valid(),
            r@ == (WalkView { directories: seq![dir@], files: seq![], seen: 0, cut: false }),
    {
        let mut queue: Vec<String> = Vec::new();
        assert(text::views(queue@) =~= seq![]);
        text::add_text(&mut queue, dir.to_owned());
        let r = Walk { queue, read: 0, found: Vec::new(), handed: 0, seen: 0, cut: false };
        assert(r@.directories =~= seq![dir@]);
        assert(r@.files =~= seq![]);
        assert(text::views(r.queue@).len() == r.queue@.len());
        r
    }

    /// A walk through the files that version control lists, each ended by a
    /// zero character.
    pub fn of_repository(listing: &str) -> (r: Walk)
        ensures
            r.valid(),
            r@.directories == Seq::<Seq<char>>::empty(),
            r@.files == searchable_of(within_cap(listed_paths(listing@))),
            r@.cut == (listed_paths(listing@).len() > MAX_WALK_ENTRIES),
    {
        let walked = repository_files(listing);
        proof {
            lemma_names_counted(within_cap(listed_paths(listing@)));
            assert(text::views(walked.files@).len() == walked.files@.len());
        }
        let seen: usize = walked.files.len();
        let r = Walk {
            queue: Vec::new(),
            read: 0,
            found: walked.files,
            handed: 0,
            seen,
            cut: walked.cut,
        };
        assert(r@.directories =~= seq![]);
        assert(r@.files =~= text::views(r.found@));
        r
    }

    /// The directory to read next.
    pub fn directory(&self) -> (r: Option<String>)
        requires
            self.valid(),
        ensures
            match r {
                Some(dir) => first_of(self@.directories) == Some(dir@),
                None => first_of(self@.directories) is None,
            },
    {
        assert(self@.directories.len() == self.queue@.len() - self.read);
        if self.read < self.queue.len() {
            assert(self@.directories[0] == self.queue@[self.read as int]@);
            Some(self.queue[self.read].clone())
        } else {
            None
        }
    }

    /// Take the entries of the directory that was to be read next, none where
    /// it cannot be read; the answer is the one to read after it.
    pub fn next(&mut self, entries: &Table<EntryKind>) -> (r: Option<String>)
        requires
            old(self).valid(),
            entries.ordered(),
        ensures
            final(self).valid(),
            final(self)@ == walk_step(old(self)@, entries.entries@),
            match r {
                Some(dir) => first_of(final(self)@.directories) == Some(dir@),
                None => first_of(final(self)@.directories) is None,
            },
    {
        let ghost start = self@;
        assert(start.directories.len() == self.queue@.len() - self.read);
        if self.read >= self.queue.len() {
            return None;
        }
        let dir = self.queue[self.read].clone();
        assert(start.directories[0] == dir@);
        let step = walk_directory(dir.as_str(), entries, self.seen);
        let ghost taken = entries_taken(start.seen, entries.entries@);
        proof {
            lemma_entries_counted(dir@, taken);
            assert(text::views(step.files@).len() == step.files@.len());
            assert(text::views(step.directories@).len() == step.directories@.len());
        }
        let ghost queued = text::views(self.queue@);
        let ghost found = text::views(self.found@);
        self.seen = step.seen;
        text::add_texts(&mut self.found, &step.files);
        assert(text::views(self.found@).len() == self.found@.len());
        assert(text::views(self.found@).skip(self.handed as int) =~= start.files + files_in(
            dir@,
            taken,
        ));
        if step.cut {
            self.cut = true;
            self.read = self.queue.len();
            assert(self@.directories =~= seq![]);
            return None;
        }
        text::add_texts(&mut self.queue, &step.directories);
        self.read = self.read + 1;
        assert(text::views(self.queue@).len() == self.queue@.len());
        assert(self@.directories =~= start.directories.skip(1) + directories_in(dir@, taken));
        self.directory()
    }

    /// Hand out the next file.
    pub fn file(&mut self) -> (r: Option<String>)
        requires
            old(self).valid(),
        ensures
            final(self).valid(),
            match r {
                Some(path) => first_of(old(self)@.files) == Some(path@),
                None => first_of(old(self)@.files) is None,
            },
            final(self)@ == (WalkView {
                files: if old(self)@.files.len() > 0 {
                    old(self)@.files.skip(1)
                } else {
                    seq![]
                },
                ..old(self)@
            }),
    {
        let ghost start = self@;
        assert(start.files.len() == self.found@.len() - self.handed);
        if self.handed < self.found.len() {
            let path = self.found[self.handed].clone();
            assert(start.files[0] == path@);
            self.handed = self.handed + 1;
            assert(self@.files =~= start.files.skip(1));
            Some(path)
        } else {
            assert(self@.files =~= seq![]);
            None
        }
    }

    /// End the walk at once, because who looks at the files has enough.
    pub fn stop(&mut self)
        requires
            old(self).valid(),
        ensures
            final(self).valid(),
            final(self)@ == walk_stopped(old(self)@),
    {
        self.read = self.queue.len();
        self.handed = self.found.len();
        self.cut = true;
        assert(self@.directories =~= seq![]);
        assert(self@.files =~= seq![]);
    }
}

/// Directories that a walk may still read: entries not yet seen, and those in
/// the queue.
pub open spec fn reads_left(w: WalkView) -> int {
    MAX_WALK_ENTRIES - w.seen + w.directories.len()
}

/// Every walk ends: with each directory that is read, fewer can follow,
/// whatever the directories hold.
pub proof fn law_walks_end(w: WalkView, entries: Seq<(String, EntryKind)>)
    requires
        w.seen <= MAX_WALK_ENTRIES,
        w.directories.len() > 0,
    ensures
        walk_step(w, entries).seen <= MAX_WALK_ENTRIES,
        0 <= reads_left(walk_step(w, entries)) < reads_left(w),
{
    lemma_entries_counted(w.directories[0], entries_taken(w.seen, entries));
}

/// How deep a path lies.
pub open spec fn depth(path: Seq<char>) -> nat {
    if path.len() == 0 {
        0
    } else {
        find::split_spec(path, '/').len()
    }
}

/// Whether an entry has a name that a directory can hold.
pub open spec fn plain_name(name: Seq<char>) -> bool {
    name.len() > 0 && !name.contains('/')
}

/// Whether directories come in the order of their depth, and the last lies at
/// most one level below the first.
pub open spec fn by_depth(directories: Seq<Seq<char>>) -> bool {
    forall|i: int, j: int|
        0 <= i <= j < directories.len() ==> depth(#[trigger] directories[i]) <= depth(
            #[trigger] directories[j],
        ) <= depth(directories[0]) + 1
}

proof fn lemma_no_slash(front: Seq<char>, name: Seq<char>)
    requires
        !name.contains('/'),
    ensures
        find::split_spec(front + name, '/').len() == find::split_spec(front, '/').len(),
    decreases name.len(),
{
    if name.len() == 0 {
        assert(front + name =~= front);
    } else {
        assert(name[name.len() - 1] != '/');
        assert((front + name).drop_last() =~= front + name.drop_last());
        assert(!name.drop_last().contains('/')) by {
            if name.drop_last().contains('/') {
                let i = choose|i: int|
                    0 <= i < name.drop_last().len() && name.drop_last()[i] == '/';
                assert(name[i] == '/');
            }
        }
        lemma_no_slash(front, name.drop_last());
    }
}

proof fn lemma_one_deeper(dir: Seq<char>, name: Seq<char>)
    requires
        plain_name(name),
    ensures
        depth(under(dir, name)) == depth(dir) + 1,
{
    reveal_strlit("/");
    if dir.len() == 0 {
        lemma_no_slash(seq![], name);
        assert(seq![] + name =~= name);
    } else {
        let front = dir + "/"@;
        lemma_no_slash(front, name);
        assert(front.drop_last() =~= dir);
        assert(front.last() == '/');
    }
}

proof fn lemma_entries_deeper(dir: Seq<char>, entries: Seq<(String, EntryKind)>)
    requires
        forall|i: int| 0 <= i < entries.len() ==> plain_name(#[trigger] entries[i].0@),
    ensures
        forall|i: int|
            0 <= i < directories_in(dir, entries).len() ==> depth(
                #[trigger] directories_in(dir, entries)[i],
            ) == depth(dir) + 1,
    decreases entries.len(),
{
    if entries.len() > 0 {
        let shorter = entries.drop_last();
        assert forall|i: int| 0 <= i < shorter.len() implies plain_name(
            #[trigger] shorter[i].0@,
        ) by {
            assert(shorter[i] == entries[i]);
        }
        lemma_entries_deeper(dir, shorter);
        assert(plain_name(entries[entries.len() - 1].0@));
        lemma_one_deeper(dir, entries.last().0@);
        let before = directories_in(dir, shorter);
        let all = directories_in(dir, entries);
        assert forall|i: int| 0 <= i < all.len() implies depth(#[trigger] all[i]) == depth(dir)
            + 1 by {
            if i < before.len() {
                assert(all[i] == before[i]);
            }
        }
    }
}

/// A walk goes by depth: where the directories to be read come in the order
/// of their depth, they still do after the next one was read, so that none is
/// read before one that lies higher.
pub proof fn law_walks_go_by_depth(w: WalkView, entries: Seq<(String, EntryKind)>)
    requires
        w.seen <= MAX_WALK_ENTRIES,
        by_depth(w.directories),
        forall|i: int| 0 <= i < entries.len() ==> plain_name(#[trigger] entries[i].0@),
    ensures
        by_depth(walk_step(w, entries).directories),
        w.directories.len() > 0 ==> forall|i: int|
            0 <= i < walk_step(w, entries).directories.len() ==> depth(w.directories[0]) <= depth(
                #[trigger] walk_step(w, entries).directories[i],
            ),
{
    if w.directories.len() > 0 {
        let dir = w.directories[0];
        let taken = entries_taken(w.seen, entries);
        assert forall|i: int| 0 <= i < taken.len() implies plain_name(#[trigger] taken[i].0@) by {
            assert(taken[i] == entries[i]);
        }
        lemma_entries_deeper(dir, taken);
        let old_part = w.directories.skip(1);
        let new_part = directories_in(dir, taken);
        let all = old_part + new_part;
        assert forall|i: int| 0 <= i < all.len() implies depth(dir) <= depth(#[trigger] all[i])
            <= depth(dir) + 1 by {
            if i < old_part.len() {
                assert(all[i] == w.directories[i + 1]);
            } else {
                assert(all[i] == new_part[i - old_part.len()]);
            }
        }
        assert forall|i: int, j: int| 0 <= i <= j < all.len() implies depth(#[trigger] all[i])
            <= depth(#[trigger] all[j]) <= depth(all[0]) + 1 by {
            assert(depth(dir) <= depth(all[0]));
            if i < old_part.len() {
                assert(all[i] == w.directories[i + 1]);
            } else {
                assert(all[i] == new_part[i - old_part.len()]);
            }
            if j < old_part.len() {
                assert(all[j] == w.directories[j + 1]);
            } else {
                assert(all[j] == new_part[j - old_part.len()]);
            }
        }
    }
}

// ---------------------------------------------------------------------------
// Glob
// ---------------------------------------------------------------------------

/// The paths found after one more was looked at: a matching one is added, up
/// to the number that one call lists.
pub open spec fn glob_step(
    pattern: Seq<char>,
    found: Seq<Seq<char>>,
    path: Seq<char>,
) -> Seq<Seq<char>> {
    if found.len() < MAX_GLOB_RESULTS && tools::wildcard_spec(pattern, path) {
        found.push(path)
    } else {
        found
    }
}

/// The matching paths, up to the number that one call lists.
pub open spec fn glob_matches(pattern: Seq<char>, files: Seq<Seq<char>>) -> Seq<Seq<char>>
    decreases files.len(),
{
    if files.len() == 0 {
        seq![]
    } else {
        glob_step(pattern, glob_matches(pattern, files.drop_last()), files.last())
    }
}

/// What a finished search replies about the paths found.
pub open spec fn glob_reply(pattern: Seq<char>, found: Seq<Seq<char>>, cut: bool) -> Seq<char> {
    if found.len() == 0 {
        "no files match `"@ + pattern + "`"@
    } else if found.len() >= MAX_GLOB_RESULTS || cut {
        text::join_spec(sort::sorted_spec(found), "\n"@)
            + "\n… [result truncated — use a narrower pattern]"@
    } else {
        text::join_spec(sort::sorted_spec(found), "\n"@)
    }
}

/// What `glob` replies about the files of a walk.
pub open spec fn glob_spec(pattern: Seq<char>, files: Seq<Seq<char>>, cut: bool) -> Seq<char> {
    if text::trim_spec(pattern).len() == 0 {
        "ERROR: `pattern` must not be empty"@
    } else {
        glob_reply(pattern, glob_matches(pattern, files), cut)
    }
}

/// A search for paths that match a wildcard pattern.
pub struct GlobSearch {
    pub pattern: String,
    /// The paths found, in walking order.
    pub found: Vec<String>,
}

impl GlobSearch {
    /// Begin a search, unless the pattern is blank.
    pub fn begin(pattern: &str) -> (r: Result<GlobSearch, String>)
        ensures
            match r {
                Ok(g) => text::trim_spec(pattern@).len() > 0 && g.pattern@ == pattern@
                    && g.found@.len() == 0,
                Err(e) => text::trim_spec(pattern@).len() == 0 && e@
                    == "ERROR: `pattern` must not be empty"@,
            },
    {
        let trimmed = text::trim(pattern);
        if trimmed.as_str().is_empty() {
            return Err("ERROR: `pattern` must not be empty".to_owned());
        }
        Ok(GlobSearch { pattern: pattern.to_owned(), found: Vec::new() })
    }

    /// Look at one more path; the answer says whether the search goes on.
    pub fn visit(&mut self, path: &str) -> (more: bool)
        ensures
            final(self).pattern == old(self).pattern,
            text::views(final(self).found@) == glob_step(
                old(self).pattern@,
                text::views(old(self).found@),
                path@,
            ),
            more == (final(self).found@.len() < MAX_GLOB_RESULTS),
    {
        assert(text::views(self.found@).len() == self.found@.len());
        if self.found.len() < MAX_GLOB_RESULTS && tools::wildcard_match(
            self.pattern.as_str(),
            path,
        ) {
            text::add_text(&mut self.found, path.to_owned());
        }
        self.found.len() < MAX_GLOB_RESULTS
    }

    /// What the finished search replies.
    pub fn reply(self, cut: bool) -> (r: String)
        ensures
            r@ == glob_reply(self.pattern@, text::views(self.found@), cut),
    {
        let found = self.found;
        assert(text::views(found@).len() == found@.len());
        if found.len() == 0 {
            return text::cat3("no files match `", self.pattern.as_str(), "`");
        }
        let many = found.len() >= MAX_GLOB_RESULTS;
        let sorted = sort::sort_texts(found);
        let mut out = text::join(&sorted, "\n");
        if many || cut {
            out.append("\n… [result truncated — use a narrower pattern]");
        }
        out
    }
}

/// What `glob` replies about the files of a walk, in walking order.
pub fn glob(pattern: &str, walked: &Walked) -> (r: String)
    ensures
        r@ == glob_spec(pattern@, text::views(walked.files@), walked.cut),
{
    let mut search = match GlobSearch::begin(pattern) {
        Ok(search) => search,
        Err(e) => {
            return e;
        },
    };
    let files = &walked.files;
    let ghost all = text::views(files@);
    let mut i: usize = 0;
    assert(text::views(search.found@) =~= glob_matches(pattern@, all.take(0)));
    while i < files.len()
        invariant
            i <= files@.len(),
            all == text::views(files@),
            search.pattern@ == pattern@,
            text::views(search.found@) == glob_matches(pattern@, all.take(i as int)),
        decreases files@.len() - i,
    {
        assert(all.take(i + 1).drop_last() =~= all.take(i as int));
        assert(all.take(i + 1).last() == files@[i as int]@);
        search.visit(files[i].as_str());
        i = i + 1;
    }
    assert(all.take(files@.len() as int) =~= all);
    search.reply(walked.cut)
}

// ---------------------------------------------------------------------------
// Grep
// ---------------------------------------------------------------------------

/// Why a text is no regular expression, or nothing where it is one.
pub uninterp spec fn pattern_fault(pattern: Seq<char>) -> Option<Seq<char>>;

/// Whether a regular expression matches somewhere in a text.
pub uninterp spec fn pattern_matches(pattern: Seq<char>, line: Seq<char>) -> bool;

/// Calls `regex::Regex::new` and, where it succeeds, `Regex::is_match` on
/// each line. The claim: whether the pattern compiles, and the text of the
/// error where it does not, depend on the pattern alone, and whether a line
/// matches depends on the pattern and that line alone.
#[verifier::external_body]
fn match_lines(pattern: &str, lines: &Vec<String>) -> (r: Result<Vec<bool>, String>)
    ensures
        match r {
            Ok(hits) => pattern_fault(pattern@) is None && hits@.len() == lines@.len() && forall|
                i: int,
            |
                0 <= i < lines@.len() ==> #[trigger] hits@[i] == pattern_matches(
                    pattern@,
                    lines@[i]@,
                ),
            Err(e) => pattern_fault(pattern@) == Some(e@),
        },
{
    match regex::Regex::new(pattern) {
        Ok(compiled) => Ok(lines.iter().map(|line| compiled.is_match(line)).collect()),
        Err(e) => Err(e.to_string()),
    }
}

/// The text of bytes, where invalid sequences are replaced.
pub uninterp spec fn lossy_text(bytes: Seq<u8>) -> Seq<char>;

/// Calls `String::from_utf8_lossy`. The claim: the text depends on the bytes
/// alone, and bytes that are valid UTF-8 are decoded as they stand.
#[verifier::external_body]
pub(crate) fn lossy(bytes: &[u8]) -> (r: String)
    ensures
        r@ == lossy_text(bytes@),
        vstd::utf8::valid_utf8(bytes@) ==> r@ == vstd::utf8::decode_utf8(bytes@),
{
    String::from_utf8_lossy(bytes).into_owned()
}

/// Bytes at a file's start that are looked at to tell a binary file.
pub const BINARY_PROBE: usize = 8192;

/// Whether a file is binary: a zero byte stands near its start.
pub open spec fn is_binary(bytes: Seq<u8>) -> bool {
    exists|i: int| 0 <= i < bytes.len() && i < BINARY_PROBE && #[trigger] bytes[i] == 0
}

fn binary(bytes: &Vec<u8>) -> (r: bool)
    ensures
        r == is_binary(bytes@),
{
    let mut i: usize = 0;
    while i < bytes.len() && i < BINARY_PROBE
        invariant
            i <= bytes@.len(),
            forall|k: int| 0 <= k < i ==> #[trigger] bytes@[k] != 0,
        decreases bytes@.len() - i,
    {
        if bytes[i] == 0 {
            return true;
        }
        i = i + 1;
    }
    false
}

/// A match as `grep` lists it.
pub open spec fn match_line(path: Seq<char>, number: nat, line: Seq<char>) -> Seq<char> {
    path + ":"@ + numbers::decimal_spec(number) + ": "@ + text::take_spec(
        text::trim_end_spec(line),
        300,
    )
}

/// The listed matches after the first `lines` of a file, when `before` were
/// listed already.
pub open spec fn file_matches(
    pattern: Seq<char>,
    path: Seq<char>,
    lines: Seq<Seq<char>>,
    before: Seq<Seq<char>>,
) -> Seq<Seq<char>>
    decreases lines.len(),
{
    if lines.len() == 0 {
        before
    } else {
        let so_far = file_matches(pattern, path, lines.drop_last(), before);
        if so_far.len() < MAX_GREP_MATCHES && pattern_matches(pattern, lines.last()) {
            so_far.push(match_line(path, lines.len(), lines.last()))
        } else {
            so_far
        }
    }
}

/// A search through files for lines that match a regular expression.
pub struct GrepSearch {
    pub pattern: String,
    pub filter: Option<String>,
    /// The matches found, as they are listed.
    pub lines: Vec<String>,
    /// Files in which a match was found.
    pub files_matched: usize,
}

/// A search as its contracts speak of it.
pub struct GrepView {
    pub pattern: Seq<char>,
    pub filter: Option<Seq<char>>,
    pub lines: Seq<Seq<char>>,
    pub files_matched: nat,
}

impl View for GrepSearch {
    type V = GrepView;

    open spec fn view(&self) -> GrepView {
        GrepView {
            pattern: self.pattern@,
            filter: match self.filter {
                Some(f) => Some(f@),
                None => None,
            },
            lines: text::views(self.lines@),
            files_matched: self.files_matched as nat,
        }
    }
}

/// Whether a search wants to see a file of a size: the filter admits it, and
/// it is not too large.
pub open spec fn wanted(g: GrepView, path: Seq<char>, size: nat) -> bool {
    &&& match g.filter {
        Some(f) => tools::wildcard_spec(f, path),
        None => true,
    }
    &&& size <= MAX_GREP_FILE_BYTES
}

/// Whether a search looks into a file: it wants to see it, and the file is
/// not binary.
pub open spec fn looked_into(g: GrepView, path: Seq<char>, bytes: Seq<u8>) -> bool {
    wanted(g, path, bytes.len()) && !is_binary(bytes)
}

/// A search after one more file.
pub open spec fn grep_step(g: GrepView, path: Seq<char>, bytes: Seq<u8>) -> GrepView {
    if g.lines.len() >= MAX_GREP_MATCHES || !looked_into(g, path, bytes) {
        g
    } else {
        let lines = file_matches(
            g.pattern,
            path,
            text::lines_spec(lossy_text(bytes)),
            g.lines,
        );
        GrepView {
            pattern: g.pattern,
            filter: g.filter,
            lines,
            files_matched: if lines.len() > g.lines.len() {
                g.files_matched + 1
            } else {
                g.files_matched
            },
        }
    }
}

/// What a finished search replies.
pub open spec fn grep_reply(g: GrepView, cut: bool) -> Seq<char> {
    if g.lines.len() == 0 {
        "no matches for `"@ + g.pattern + "`"@
    } else if g.lines.len() >= MAX_GREP_MATCHES || cut {
        text::join_spec(g.lines, "\n"@)
            + "\n… [matches truncated — narrow the pattern or path]"@
    } else {
        text::join_spec(g.lines, "\n"@) + "\n("@ + numbers::decimal_spec(g.lines.len())
            + " match(es) in "@ + numbers::decimal_spec(g.files_matched) + " file(s))"@
    }
}

/// Every listed match belongs to the file that adds it, and at most the
/// allowed number is listed.
proof fn lemma_file_matches(
    pattern: Seq<char>,
    path: Seq<char>,
    lines: Seq<Seq<char>>,
    before: Seq<Seq<char>>,
)
    requires
        before.len() <= MAX_GREP_MATCHES,
    ensures
        before.len() <= file_matches(pattern, path, lines, before).len() <= MAX_GREP_MATCHES,
    decreases lines.len(),
{
    if lines.len() > 0 {
        lemma_file_matches(pattern, path, lines.drop_last(), before);
    }
}

impl GrepSearch {
    /// The invariant: no more matches than are listed, and a match for each
    /// file counted.
    pub open spec fn valid(self) -> bool {
        &&& self.lines@.len() <= MAX_GREP_MATCHES
        &&& self.files_matched <= self.lines@.len()
        &&& pattern_fault(self.pattern@) is None
    }

    /// Begin a search, unless the pattern is no regular expression.
    pub fn begin(pattern: &str, filter: Option<&str>) -> (r: Result<GrepSearch, String>)
        ensures
            match r {
                Ok(g) => pattern_fault(pattern@) is None && g.valid() && g@ == (GrepView {
                    pattern: pattern@,
                    filter: match filter {
                        Some(f) => Some(f@),
                        None => None,
                    },
                    lines: seq![],
                    files_matched: 0,
                }),
                Err(e) => match pattern_fault(pattern@) {
                    Some(fault) => e@ == "ERROR: invalid regular expression: "@ + fault,
                    None => false,
                },
            },
    {
        let none: Vec<String> = Vec::new();
        match match_lines(pattern, &none) {
            Err(e) => Err(text::cat2("ERROR: invalid regular expression: ", e.as_str())),
            Ok(_) => {
                let g = GrepSearch {
                    pattern: pattern.to_owned(),
                    filter: match filter {
                        Some(f) => Some(f.to_owned()),
                        None => None,
                    },
                    lines: Vec::new(),
                    files_matched: 0,
                };
                assert(g@.lines =~= seq![]);
                Ok(g)
            },
        }
    }

    /// Whether the search wants to see a file of a size.
    pub fn wants(&self, path: &str, size: u64) -> (r: bool)
        ensures
            r == wanted(self@, path@, size as nat),
    {
        let admitted = match &self.filter {
            Some(f) => tools::wildcard_match(f.as_str(), path),
            None => true,
        };
        admitted && size <= MAX_GREP_FILE_BYTES
    }

    /// Look through one more file; the answer says whether the search goes
    /// on.
    pub fn visit(&mut self, path: &str, bytes: &Vec<u8>) -> (more: bool)
        requires
            old(self).valid(),
        ensures
            final(self).valid(),
            final(self)@ == grep_step(old(self)@, path@, bytes@),
            (old(self).lines@.len() >= MAX_GREP_MATCHES) ==> !more,
            (old(self).lines@.len() < MAX_GREP_MATCHES && looked_into(old(self)@, path@, bytes@))
                ==> more == (final(self).lines@.len() < MAX_GREP_MATCHES),
            (old(self).lines@.len() < MAX_GREP_MATCHES && !looked_into(old(self)@, path@, bytes@))
                ==> more,
    {
        let ghost start = self@;
        assert(start.lines.len() == self.lines@.len());
        if self.lines.len() >= MAX_GREP_MATCHES {
            return false;
        }
        if !self.wants(path, bytes.len() as u64) || binary(bytes) {
            return true;
        }
        let content = lossy(bytes.as_slice());
        let lines = text::lines(content.as_str());
        let hits = match match_lines(self.pattern.as_str(), &lines) {
            Ok(hits) => hits,
            Err(_) => {
                assert(false);
                return true;
            },
        };
        let before: usize = self.lines.len();
        let ghost all = text::views(lines@);
        assert(all.len() == lines@.len());
        let mut i: usize = 0;
        let ghost unchanged = *self;
        assert(all.take(0) =~= seq![]);
        while i < lines.len()
            invariant
                i <= lines@.len() == hits@.len(),
                all == text::views(lines@),
                before == start.lines.len(),
                before < MAX_GREP_MATCHES,
                start == unchanged@,
                self.pattern == unchanged.pattern,
                self.filter == unchanged.filter,
                self.files_matched == unchanged.files_matched,
                forall|k: int|
                    0 <= k < lines@.len() ==> #[trigger] hits@[k] == pattern_matches(
                        start.pattern,
                        lines@[k]@,
                    ),
                text::views(self.lines@) == file_matches(
                    start.pattern,
                    path@,
                    all.take(i as int),
                    start.lines,
                ),
            decreases lines@.len() - i,
        {
            assert(all.take(i + 1).drop_last() =~= all.take(i as int));
            assert(all.take(i + 1).last() == lines@[i as int]@);
            assert(text::views(self.lines@).len() == self.lines@.len());
            assert(hits@[i as int] == pattern_matches(start.pattern, lines@[i as int]@));
            if self.lines.len() < MAX_GREP_MATCHES && hits[i] {
                let shown = text::take(text::trim_end(lines[i].as_str()).as_str(), 300);
                let number = numbers::decimal_len(i + 1);
                let entry = text::cat5(path, ":", number.as_str(), ": ", shown.as_str());
                text::add_text(&mut self.lines, entry);
            }
            i = i + 1;
        }
        assert(all.take(lines@.len() as int) =~= all);
        proof {
            lemma_file_matches(start.pattern, path@, all, start.lines);
        }
        assert(text::views(self.lines@).len() == self.lines@.len());
        if self.lines.len() > before {
            self.files_matched = self.files_matched + 1;
        }
        self.lines.len() < MAX_GREP_MATCHES
    }

    /// What the finished search replies.
    pub fn reply(&self, cut: bool) -> (r: String)
        ensures
            r@ == grep_reply(self@, cut),
    {
        assert(self@.lines.len() == self.lines@.len());
        if self.lines.len() == 0 {
            return text::cat3("no matches for `", self.pattern.as_str(), "`");
        }
        let mut out = text::join(&self.lines, "\n");
        if self.lines.len() >= MAX_GREP_MATCHES || cut {
            out.append("\n… [matches truncated — narrow the pattern or path]");
        } else {
            out.append("\n(");
            out.append(numbers::decimal_len(self.lines.len()).as_str());
            out.append(" match(es) in ");
            out.append(numbers::decimal_len(self.files_matched).as_str());
            out.append(" file(s))");
        }
        out
    }
}

/// A search after each of these files.
pub open spec fn grep_steps(g: GrepView, files: Seq<(String, Vec<u8>)>) -> GrepView
    decreases files.len(),
{
    if files.len() == 0 {
        g
    } else {
        grep_step(grep_steps(g, files.drop_last()), files.last().0@, files.last().1@)
    }
}

/// What `grep` replies about the files of a walk.
pub open spec fn grep_spec(
    pattern: Seq<char>,
    filter: Option<Seq<char>>,
    files: Seq<(String, Vec<u8>)>,
    cut: bool,
) -> Seq<char> {
    match pattern_fault(pattern) {
        Some(fault) => "ERROR: invalid regular expression: "@ + fault,
        None => grep_reply(
            grep_steps(GrepView { pattern, filter, lines: seq![], files_matched: 0 }, files),
            cut,
        ),
    }
}

/// Search these files, given by path and content in walking order. Matching
/// lines are listed up to `MAX_GREP_MATCHES`.
pub fn grep(
    pattern: &str,
    filter: Option<&str>,
    files: &Vec<(String, Vec<u8>)>,
    cut: bool,
) -> (r: String)
    ensures
        r@ == grep_spec(
            pattern@,
            match filter {
                Some(f) => Some(f@),
                None => None,
            },
            files@,
            cut,
        ),
{
    let mut search = match GrepSearch::begin(pattern, filter) {
        Ok(search) => search,
        Err(e) => {
            return e;
        },
    };
    let ghost start = search@;
    let mut i: usize = 0;
    while i < files.len()
        invariant
            i <= files@.len(),
            search.valid(),
            search@ == grep_steps(start, files@.take(i as int)),
        decreases files@.len() - i,
    {
        assert(files@.take(i + 1).drop_last() =~= files@.take(i as int));
        search.visit(files[i].0.as_str(), &files[i].1);
        i = i + 1;
    }
    assert(files@.take(files@.len() as int) =~= files@);
    search.reply(cut)
}

} // verus!
