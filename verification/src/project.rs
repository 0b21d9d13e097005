//! Project resolution: which files are the sources of a project, and what they are called.
//!
//! The file system stays outside. A [`Walk`] says which directory to list next and takes the
//! listing; a [`Reading`] says which file to read next and takes its contents. Either takes a
//! failure instead, and ends with it.

use vstd::prelude::*;
use vstd::string::*;

use crate::order::{
    is_sorted_form, sort_by_key, sorted_form_exists, sorted_form_is_unique, views, Keyed,
};
use crate::text::{chars_of, optional_text, same_text, sources_view, text_le};

verus! {

/// A project-resolution failure: no sources, or one that cannot be read.
#[derive(Debug, Clone, PartialEq, Eq)]
pub struct ResolveError(pub String);

impl ResolveError {
    /// The failure as it is shown.
    pub fn message(&self) -> (message: String)
        ensures
            message@ == "resolution-error: "@ + self.0@,
    {
        let mut message = "resolution-error: ".to_owned();
        message.append(self.0.as_str());
        message
    }

    /// The exit code of a project that cannot be resolved.
    pub fn exit_code(&self) -> (code: u8)
        ensures
            code == 5,
    {
        5
    }
}

/// The failure of a directory that cannot be listed, or of a file that cannot be read.
pub fn unreadable(path: &str, error: &str) -> (e: ResolveError)
    ensures
        e.0@ == path@ + ": "@ + error@,
{
    let mut text = path.to_owned();
    text.append(": ");
    text.append(error);
    ResolveError(text)
}

/// The text of the failure of a project without sources.
pub open spec fn no_sources_text(dir: Seq<char>) -> Seq<char> {
    "no `.myc` sources under "@ + dir
        + " — nothing to check (a clean exit here would be a silent pass; G2)"@
}

/// The failure of a project without sources.
fn no_sources(dir: &str) -> (e: ResolveError)
    ensures
        e.0@ == no_sources_text(dir@),
{
    let mut text = "no `.myc` sources under ".to_owned();
    text.append(dir);
    text.append(" — nothing to check (a clean exit here would be a silent pass; G2)");
    ResolveError(text)
}

/// An entry of a directory listing.
#[derive(Debug, Clone, PartialEq, Eq)]
pub struct Entry<P> {
    /// The entry's path.
    pub path: P,
    /// What entries are ordered by: the bytes of the file name, one character for each.
    pub key: String,
    /// The file name, or nothing where it is not Unicode.
    pub name: String,
    /// Whether the path is that of a directory.
    pub is_dir: bool,
    /// The file name's extension, if it has one that is Unicode.
    pub extension: Option<String>,
}

/// The contents of an [`Entry`].
pub struct EntryView<P> {
    pub path: P,
    pub key: Seq<char>,
    pub name: Seq<char>,
    pub is_dir: bool,
    pub extension: Option<Seq<char>>,
}

impl<P> View for Entry<P> {
    type V = EntryView<P>;

    open spec fn view(&self) -> EntryView<P> {
        EntryView {
            path: self.path,
            key: self.key@,
            name: self.name@,
            is_dir: self.is_dir,
            extension: optional_text(self.extension),
        }
    }
}

impl<P> Keyed for Entry<P> {
    open spec fn key_of(view: EntryView<P>) -> Seq<char> {
        view.key
    }

    fn key(&self) -> (key: &str) {
        self.key.as_str()
    }
}

/// A path that a walk has not come to yet.
#[derive(Debug, Clone, PartialEq, Eq)]
pub enum Pending<P> {
    /// A directory to go through.
    Dir(P),
    /// A source file.
    File(P),
}

/// Whether a walk passes over entries with this name: hidden ones, and the build directory.
pub open spec fn is_skipped(name: Seq<char>) -> bool {
    (name.len() > 0 && name[0] == '.') || name == "target"@
}

/// What a walk keeps of an entry: directories to go through and `.myc` files, unless they are
/// passed over.
pub open spec fn kept<P>(entry: EntryView<P>) -> Option<Pending<P>> {
    if is_skipped(entry.name) {
        None
    } else if entry.is_dir {
        Some(Pending::Dir(entry.path))
    } else if entry.extension == Some("myc"@) {
        Some(Pending::File(entry.path))
    } else {
        None
    }
}

/// Whether `sorted` is a listing in the order of the names.
pub open spec fn is_by_name<P>(entries: Seq<EntryView<P>>, sorted: Seq<EntryView<P>>) -> bool {
    is_sorted_form(entries, sorted, |e: EntryView<P>| e.key)
}

/// The entries of a listing in the order of their names.
pub open spec fn by_name<P>(entries: Seq<EntryView<P>>) -> Seq<EntryView<P>> {
    choose|sorted: Seq<EntryView<P>>| is_by_name(entries, sorted)
}

/// What a walk keeps of a listing, in the order of the names.
pub open spec fn contents<P>(entries: Seq<EntryView<P>>) -> Seq<Pending<P>> {
    by_name(entries).filter_map(|e: EntryView<P>| kept(e))
}

/// How far a walk has come.
#[verifier::ext_equal]
pub struct WalkView<P> {
    /// The files found so far.
    pub found: Seq<P>,
    /// What is left to come to, in order.
    pub todo: Seq<Pending<P>>,
}

impl<P> WalkView<P> {
    /// The walk with the files that it comes to next collected.
    pub open spec fn settled(self) -> WalkView<P>
        decreases self.todo.len(),
    {
        if self.todo.len() == 0 {
            self
        } else {
            match self.todo[0] {
                Pending::File(path) => WalkView {
                    found: self.found.push(path),
                    todo: self.todo.skip(1),
                }.settled(),
                Pending::Dir(_) => self,
            }
        }
    }

    /// A walk of `root` before its first listing.
    pub open spec fn start(root: P) -> WalkView<P> {
        WalkView { found: seq![], todo: seq![Pending::Dir(root)] }
    }

    /// The directory that is to be listed next.
    pub open spec fn next(self) -> Option<P> {
        if self.todo.len() == 0 {
            None
        } else {
            match self.todo[0] {
                Pending::Dir(path) => Some(path),
                Pending::File(_) => None,
            }
        }
    }

    /// The walk after the listing of the next directory: what it holds comes first.
    pub open spec fn after_listing(self, entries: Seq<EntryView<P>>) -> WalkView<P> {
        WalkView { found: self.found, todo: contents(entries) + self.todo.skip(1) }.settled()
    }
}

/// A walk through the directories of a project, which collects its sources.
#[derive(Debug)]
pub struct Walk<P> {
    found: Vec<P>,
    /// What is left to come to, the next one last.
    stack: Vec<Pending<P>>,
}

impl<P> View for Walk<P> {
    type V = WalkView<P>;

    closed spec fn view(&self) -> WalkView<P> {
        WalkView { found: self.found@, todo: self.stack@.reverse() }
    }
}

/// What a walk keeps of one entry.
fn keep<P>(entry: Entry<P>) -> (pending: Option<Pending<P>>)
    ensures
        pending == kept(entry@),
{
    let Entry { path, key: _, name, is_dir, extension } = entry;
    let chars = chars_of(name.as_str());
    if (chars.len() > 0 && chars[0] == '.') || same_text(name.as_str(), "target") {
        None
    } else if is_dir {
        Some(Pending::Dir(path))
    } else {
        match extension {
            Some(extension) => if same_text(extension.as_str(), "myc") {
                Some(Pending::File(path))
            } else {
                None
            },
            None => None,
        }
    }
}

impl<P> Walk<P> {
    /// A walk never stops in front of a file.
    #[verifier::type_invariant]
    spec fn inv(self) -> bool {
        self.stack@.len() > 0 ==> self.stack@.last() is Dir
    }

    /// A walk of `root`, before its first listing.
    pub fn new(root: P) -> (walk: Walk<P>)
        ensures
            walk@ == WalkView::start(root),
    {
        let walk = Walk { found: Vec::new(), stack: vec![Pending::Dir(root)] };
        assert(walk@ =~= WalkView::start(root));
        walk
    }

    /// The directory to list next; none once the walk is done.
    pub fn next(&self) -> (dir: Option<&P>)
        ensures
            match dir {
                Some(dir) => self@.next() == Some(*dir),
                None => self@.next() is None && self@.todo.len() == 0,
            },
    {
        proof {
            use_type_invariant(self);
        }
        let n = self.stack.len();
        if n == 0 {
            None
        } else {
            assert(self@.todo[0] == self.stack@[n - 1]);
            match &self.stack[n - 1] {
                Pending::Dir(path) => Some(path),
                Pending::File(_) => None,
            }
        }
    }

    /// The walk after the listing of the directory that was asked for.
    pub fn listed(self, entries: Vec<Entry<P>>) -> (next: Walk<P>)
        requires
            self@.next() is Some,
        ensures
            next@ == self@.after_listing(views(entries@)),
    {
        let ghost before = self@;
        let ghost given = views(entries@);
        let Walk { found, stack } = self;
        let mut found = found;
        let mut stack = stack;
        let ghost rest = before.todo.skip(1);
        let _ = stack.pop();
        assert(stack@.reverse() =~= rest);
        let mut sorted = sort_by_key(entries);
        let ghost all = views(sorted@);
        proof {
            let key = |e: EntryView<P>| e.key;
            assert((|v: EntryView<P>| Entry::<P>::key_of(v)) =~= key);
            assert(is_by_name(given, all));
            assert(is_by_name(given, by_name(given)));
            sorted_form_is_unique(all, by_name(given), key);
        }
        let ghost pick = |e: EntryView<P>| kept(e);
        let ghost start = stack@;
        assert(all.skip(all.len() as int).filter_map(pick) =~= Seq::<Pending<P>>::empty());
        assert(stack@.reverse() =~= all.skip(all.len() as int).filter_map(pick) + rest);
        while sorted.len() > 0
            invariant
                sorted.len() <= all.len(),
                pick == (|e: EntryView<P>| kept(e)),
                views(sorted@) == all.take(sorted.len() as int),
                stack@.reverse() == all.skip(sorted.len() as int).filter_map(pick) + rest,
            decreases sorted.len(),
        {
            let ghost n = sorted.len() as int;
            let ghost stack0 = stack@;
            assert(views(sorted@)[n - 1] == all[n - 1]);
            match sorted.pop() {
                Some(entry) => {
                    proof {
                        assert(entry@ == all[n - 1]);
                        assert(all.skip(n - 1) =~= seq![entry@] + all.skip(n));
                        lemma_filter_map_first(entry@, all.skip(n), pick);
                    }
                    if let Some(pending) = keep(entry) {
                        stack.push(pending);
                        assert(stack@.reverse() =~= seq![pending] + stack0.reverse());
                    }
                    assert(stack@.reverse() =~= all.skip(n - 1).filter_map(pick) + rest);
                    assert(views(sorted@) =~= all.take(n - 1));
                },
                None => {},
            }
        }
        assert(all.skip(0) =~= all);
        let ghost target = WalkView {
            found: before.found,
            todo: contents(given) + rest,
        };
        assert(stack@.reverse() == target.todo);
        assert(WalkView { found: found@, todo: stack@.reverse() } =~= target);
        loop
            invariant
                target.settled() == (WalkView { found: found@, todo: stack@.reverse() }).settled(),
            ensures
                stack@.len() > 0 ==> stack@.last() is Dir,
                target.settled() == (WalkView { found: found@, todo: stack@.reverse() }),
            decreases stack@.len(),
        {
            let ghost here = WalkView { found: found@, todo: stack@.reverse() };
            match stack.pop() {
                None => {
                    break ;
                },
                Some(Pending::Dir(path)) => {
                    assert(here.todo[0] == Pending::Dir(path));
                    stack.push(Pending::Dir(path));
                    assert(stack@.reverse() =~= here.todo);
                    break ;
                },
                Some(Pending::File(path)) => {
                    assert(here.todo[0] == Pending::File(path));
                    assert(stack@.reverse() =~= here.todo.skip(1));
                    found.push(path);
                },
            }
        }
        Walk { found, stack }
    }

    /// The end of a walk whose next directory cannot be listed: nothing is found, and the failure
    /// names the directory.
    pub fn unlistable(self, path: &str, error: &str) -> (e: ResolveError)
        requires
            self@.next() is Some,
        ensures
            e.0@ == path@ + ": "@ + error@,
    {
        unreadable(path, error)
    }

    /// The files found.
    pub fn into_found(self) -> (found: Vec<P>)
        ensures
            found@ == self@.found,
    {
        self.found
    }
}

/// What is picked from a list with one more item in front.
proof fn lemma_filter_map_first<A, B>(x: A, rest: Seq<A>, pick: spec_fn(A) -> Option<B>)
    ensures
        (seq![x] + rest).filter_map(pick) == (match pick(x) {
            Some(y) => seq![y],
            None => seq![],
        }) + rest.filter_map(pick),
    decreases rest.len(),
{
    let all = seq![x] + rest;
    if rest.len() == 0 {
        assert(all.drop_last() =~= Seq::<A>::empty());
        assert(all.drop_last().filter_map(pick) =~= Seq::<B>::empty());
        assert(rest.filter_map(pick) =~= Seq::<B>::empty());
        assert(all.last() == x);
    } else {
        assert(all.drop_last() =~= seq![x] + rest.drop_last());
        assert(all.last() == rest.last());
        lemma_filter_map_first(x, rest.drop_last(), pick);
    }
    assert(all.filter_map(pick) =~= (match pick(x) {
        Some(y) => seq![y],
        None => seq![],
    }) + rest.filter_map(pick));
}

/// The listing in the order of the names is the listing, ordered: there is such an order, and only
/// one.
pub proof fn by_name_is_the_ordered_listing<P>(
    entries: Seq<EntryView<P>>,
    sorted: Seq<EntryView<P>>,
)
    ensures
        is_by_name(entries, sorted) <==> sorted == by_name(entries),
{
    let key = |e: EntryView<P>| e.key;
    let some = sorted_form_exists(entries, key);
    assert(is_by_name(entries, some));
    if is_by_name(entries, sorted) {
        sorted_form_is_unique(sorted, by_name(entries), key);
    }
}

/// What is picked from a list was picked from one of its items.
proof fn lemma_filter_map_source<A, B>(items: Seq<A>, pick: spec_fn(A) -> Option<B>, k: int) -> (i:
    int)
    requires
        0 <= k < items.filter_map(pick).len(),
    ensures
        0 <= i < items.len(),
        pick(items[i]) == Some(items.filter_map(pick)[k]),
    decreases items.len(),
{
    let shorter = items.drop_last();
    if k < shorter.filter_map(pick).len() {
        lemma_filter_map_source(shorter, pick, k)
    } else {
        items.len() - 1
    }
}

/// A walk keeps sources only: what it keeps of a listing is an entry of it that is neither hidden
/// nor the build directory, and a file among them has the extension of a source.
pub proof fn walk_keeps_sources_only<P>(entries: Seq<EntryView<P>>, k: int) -> (i: int)
    requires
        0 <= k < contents(entries).len(),
    ensures
        0 <= i < entries.len(),
        !is_skipped(entries[i].name),
        match contents(entries)[k] {
            Pending::Dir(path) => path == entries[i].path && entries[i].is_dir,
            Pending::File(path) => {
                &&& path == entries[i].path
                &&& !entries[i].is_dir
                &&& entries[i].extension == Some("myc"@)
            },
        },
{
    by_name_is_the_ordered_listing(entries, by_name(entries));
    let sorted = by_name(entries);
    let at = lemma_filter_map_source(sorted, |e: EntryView<P>| kept(e), k);
    let e = sorted[at];
    assert(sorted.contains(e));
    vstd::seq_lib::to_multiset_contains(sorted, e);
    vstd::seq_lib::to_multiset_contains(entries, e);
    choose|i: int| 0 <= i < entries.len() && entries[i] == e
}

/// The source files at and below these paths, by what each directory's listing is: files in the
/// order of the names, a directory's files in the place of the directory.
pub open spec fn files_below<P>(
    list: spec_fn(P) -> Seq<EntryView<P>>,
    paths: Seq<Pending<P>>,
    depth: nat,
) -> Seq<P>
    decreases depth, paths.len(),
{
    if paths.len() == 0 {
        seq![]
    } else {
        (match paths[0] {
            Pending::File(path) => seq![path],
            Pending::Dir(dir) => if depth == 0 {
                seq![]
            } else {
                files_below(list, contents(list(dir)), (depth - 1) as nat)
            },
        }) + files_below(list, paths.skip(1), depth)
    }
}

/// The directories to be listed at and below these paths, in the order in which a walk comes to
/// them.
pub open spec fn dirs_below<P>(
    list: spec_fn(P) -> Seq<EntryView<P>>,
    paths: Seq<Pending<P>>,
    depth: nat,
) -> Seq<P>
    decreases depth, paths.len(),
{
    if paths.len() == 0 {
        seq![]
    } else {
        (match paths[0] {
            Pending::File(_) => seq![],
            Pending::Dir(dir) => if depth == 0 {
                seq![]
            } else {
                seq![dir] + dirs_below(list, contents(list(dir)), (depth - 1) as nat)
            },
        }) + dirs_below(list, paths.skip(1), depth)
    }
}

/// Whether directories are nested at and below these paths no deeper than `depth`.
pub open spec fn nests_within<P>(
    list: spec_fn(P) -> Seq<EntryView<P>>,
    paths: Seq<Pending<P>>,
    depth: nat,
) -> bool
    decreases depth, paths.len(),
{
    paths.len() == 0 || {
        &&& match paths[0] {
            Pending::File(_) => true,
            Pending::Dir(dir) => depth > 0 && nests_within(
                list,
                contents(list(dir)),
                (depth - 1) as nat,
            ),
        }
        &&& nests_within(list, paths.skip(1), depth)
    }
}

/// A depth that is enough is enough: a larger one shows the same.
proof fn lemma_deeper<P>(
    list: spec_fn(P) -> Seq<EntryView<P>>,
    paths: Seq<Pending<P>>,
    depth: nat,
)
    requires
        nests_within(list, paths, depth),
    ensures
        nests_within(list, paths, depth + 1),
        files_below(list, paths, depth + 1) == files_below(list, paths, depth),
        dirs_below(list, paths, depth + 1) == dirs_below(list, paths, depth),
    decreases depth, paths.len(),
{
    if paths.len() > 0 {
        if let Pending::Dir(dir) = paths[0] {
            lemma_deeper(list, contents(list(dir)), (depth - 1) as nat);
        }
        lemma_deeper(list, paths.skip(1), depth);
    }
}

/// What is below two lists of paths is what is below the one and what is below the other.
pub(crate) proof fn lemma_below_concat<P>(
    list: spec_fn(P) -> Seq<EntryView<P>>,
    a: Seq<Pending<P>>,
    b: Seq<Pending<P>>,
    depth: nat,
)
    ensures
        files_below(list, a + b, depth) == files_below(list, a, depth) + files_below(
            list,
            b,
            depth,
        ),
        dirs_below(list, a + b, depth) == dirs_below(list, a, depth) + dirs_below(list, b, depth),
        nests_within(list, a + b, depth) <==> nests_within(list, a, depth) && nests_within(
            list,
            b,
            depth,
        ),
    decreases a.len(),
{
    if a.len() == 0 {
        assert(a + b =~= b);
        assert(files_below(list, a, depth) + files_below(list, b, depth) =~= files_below(
            list,
            b,
            depth,
        ));
        assert(dirs_below(list, a, depth) + dirs_below(list, b, depth) =~= dirs_below(
            list,
            b,
            depth,
        ));
    } else {
        assert((a + b).skip(1) =~= a.skip(1) + b);
        assert((a + b)[0] == a[0]);
        lemma_below_concat(list, a.skip(1), b, depth);
        assert(files_below(list, a + b, depth) =~= files_below(list, a, depth) + files_below(
            list,
            b,
            depth,
        ));
        assert(dirs_below(list, a + b, depth) =~= dirs_below(list, a, depth) + dirs_below(
            list,
            b,
            depth,
        ));
    }
}

/// Collecting the files that come next changes nothing of what a walk finds in the end.
proof fn lemma_settled<P>(list: spec_fn(P) -> Seq<EntryView<P>>, walk: WalkView<P>, depth: nat)
    requires
        nests_within(list, walk.todo, depth),
    ensures
        ({
            let next = walk.settled();
            &&& nests_within(list, next.todo, depth)
            &&& next.found + files_below(list, next.todo, depth) == walk.found + files_below(
                list,
                walk.todo,
                depth,
            )
            &&& dirs_below(list, next.todo, depth) == dirs_below(list, walk.todo, depth)
            &&& next.todo.len() > 0 ==> next.todo[0] is Dir
        }),
    decreases walk.todo.len(),
{
    if walk.todo.len() > 0 {
        if let Pending::File(path) = walk.todo[0] {
            let next = WalkView { found: walk.found.push(path), todo: walk.todo.skip(1) };
            lemma_settled(list, next, depth);
            assert(walk.found.push(path) + files_below(list, next.todo, depth) =~= walk.found
                + files_below(list, walk.todo, depth));
            assert(dirs_below(list, walk.todo, depth) =~= dirs_below(list, next.todo, depth));
        }
    }
}

/// A listing takes a walk one directory on: the directories that it comes to are the one that was
/// listed and those that are left, and what it finds in the end stays the same.
pub proof fn a_listing_goes_one_directory_on<P>(
    list: spec_fn(P) -> Seq<EntryView<P>>,
    walk: WalkView<P>,
    depth: nat,
)
    requires
        nests_within(list, walk.todo, depth),
        walk.next() is Some,
    ensures
        ({
            let dir = walk.next()->0;
            let next = walk.after_listing(list(dir));
            &&& nests_within(list, next.todo, depth)
            &&& next.todo.len() > 0 ==> next.next() is Some
            &&& dirs_below(list, walk.todo, depth) == seq![dir] + dirs_below(
                list,
                next.todo,
                depth,
            )
            &&& next.found + files_below(list, next.todo, depth) == walk.found + files_below(
                list,
                walk.todo,
                depth,
            )
        }),
{
    let dir = walk.next()->0;
    let inside = contents(list(dir));
    let rest = walk.todo.skip(1);
    lemma_deeper(list, inside, (depth - 1) as nat);
    lemma_below_concat(list, inside, rest, depth);
    lemma_settled(list, WalkView { found: walk.found, todo: inside + rest }, depth);
    assert(dirs_below(list, walk.todo, depth) =~= seq![dir] + dirs_below(
        list,
        inside + rest,
        depth,
    ));
}

impl<P> WalkView<P> {
    /// The walk `n` listings on, where directories are listed like this.
    pub open spec fn steps(self, list: spec_fn(P) -> Seq<EntryView<P>>, n: nat) -> WalkView<P>
        decreases n,
    {
        if n == 0 {
            self
        } else {
            match self.next() {
                Some(dir) => self.after_listing(list(dir)).steps(list, (n - 1) as nat),
                None => self,
            }
        }
    }
}

proof fn lemma_walk<P>(
    list: spec_fn(P) -> Seq<EntryView<P>>,
    walk: WalkView<P>,
    depth: nat,
    n: nat,
)
    requires
        nests_within(list, walk.todo, depth),
        walk.todo.len() > 0 ==> walk.todo[0] is Dir,
        n == dirs_below(list, walk.todo, depth).len(),
    ensures
        walk.steps(list, n).todo.len() == 0,
        walk.steps(list, n).found == walk.found + files_below(list, walk.todo, depth),
    decreases n,
{
    if walk.todo.len() == 0 {
        assert(walk.found + files_below(list, walk.todo, depth) =~= walk.found);
    } else if let Pending::Dir(dir) = walk.todo[0] {
        a_listing_goes_one_directory_on(list, walk, depth);
        lemma_walk(list, walk.after_listing(list(dir)), depth, (n - 1) as nat);
    }
}

/// A walk of a directory tree ends, after one listing for each directory that is not passed over,
/// and has then found the source files of the tree, in the order of the names at each level.
pub proof fn walk_collects_the_sources<P>(
    list: spec_fn(P) -> Seq<EntryView<P>>,
    root: P,
    depth: nat,
)
    requires
        nests_within(list, seq![Pending::Dir(root)], depth),
    ensures
        ({
            let all = seq![Pending::Dir(root)];
            let end = WalkView::start(root).steps(list, dirs_below(list, all, depth).len());
            &&& end.todo.len() == 0
            &&& end.found == files_below(list, all, depth)
        }),
{
    let all = seq![Pending::Dir(root)];
    lemma_walk(list, WalkView::start(root), depth, dirs_below(list, all, depth).len());
    assert(WalkView::start(root).found + files_below(list, all, depth) =~= files_below(
        list,
        all,
        depth,
    ));
}

/// Whether paths `a` and `b` first differ in their name number `n`, and that of `a` comes first.
pub open spec fn differ_at(a: Seq<Seq<char>>, b: Seq<Seq<char>>, n: int) -> bool {
    &&& 0 <= n < a.len()
    &&& n < b.len()
    &&& a.take(n) == b.take(n)
    &&& a[n] != b[n]
    &&& text_le(a[n], b[n])
}

/// Whether path `a` stands before path `b`: at the first name in which they differ, that of `a`
/// comes first.
pub open spec fn path_before(a: Seq<Seq<char>>, b: Seq<Seq<char>>) -> bool {
    exists|n: int| differ_at(a, b, n)
}

/// Whether the paths stand in order, none twice.
pub open spec fn in_path_order(paths: Seq<Seq<Seq<char>>>) -> bool {
    forall|k: int, l: int|
        0 <= k < l < paths.len() ==> path_before(#[trigger] paths[k], #[trigger] paths[l])
}

/// Whether `file` is, or lies below, one of these entries of directory `dir`.
spec fn lies_below(
    file: Seq<Seq<char>>,
    items: Seq<Pending<Seq<Seq<char>>>>,
    dir: Seq<Seq<char>>,
) -> bool {
    &&& file.len() > dir.len()
    &&& exists|i: int|
        0 <= i < items.len() && file.take(dir.len() as int + 1) == pending_path(
            #[trigger] items[i],
        )
}

/// Whether the listings are those of a directory tree: an entry's path is that of its directory
/// and its name, and no name occurs twice in a directory.
pub open spec fn lists_a_tree(
    list: spec_fn(Seq<Seq<char>>) -> Seq<EntryView<Seq<Seq<char>>>>,
) -> bool {
    &&& forall|dir: Seq<Seq<char>>, i: int|
        0 <= i < list(dir).len() ==> (#[trigger] list(dir)[i]).path == dir.push(list(dir)[i].key)
    &&& forall|dir: Seq<Seq<char>>, i: int, j: int|
        0 <= i < j < list(dir).len() ==> (#[trigger] list(dir)[i]).key != (
        #[trigger] list(dir)[j]).key
}

/// The path of what a walk has not come to yet.
pub open spec fn pending_path<P>(pending: Pending<P>) -> P {
    match pending {
        Pending::Dir(path) => path,
        Pending::File(path) => path,
    }
}

/// Whether these are entries of directory `dir`, in the order of their names.
spec fn are_ordered_entries(items: Seq<Pending<Seq<Seq<char>>>>, dir: Seq<Seq<char>>) -> bool {
    &&& forall|i: int|
        0 <= i < items.len() ==> {
            let path = pending_path(#[trigger] items[i]);
            path.len() == dir.len() + 1 && path.drop_last() == dir
        }
    &&& forall|i: int, j: int|
        0 <= i < j < items.len() ==> {
            let (a, b) = (pending_path(#[trigger] items[i]), pending_path(#[trigger] items[j]));
            a.last() != b.last() && text_le(a.last(), b.last())
        }
}

/// Two picks from a list come from two of its items, in the same order.
proof fn lemma_filter_map_pair<A, B>(
    items: Seq<A>,
    pick: spec_fn(A) -> Option<B>,
    i: int,
    j: int,
) -> (at: (int, int))
    requires
        0 <= i < j < items.filter_map(pick).len(),
    ensures
        0 <= at.0 < at.1 < items.len(),
        pick(items[at.0]) == Some(items.filter_map(pick)[i]),
        pick(items[at.1]) == Some(items.filter_map(pick)[j]),
    decreases items.len(),
{
    let shorter = items.drop_last();
    if j < shorter.filter_map(pick).len() {
        lemma_filter_map_pair(shorter, pick, i, j)
    } else {
        let a = lemma_filter_map_source(shorter, pick, i);
        assert(shorter[a] == items[a]);
        (a, items.len() - 1)
    }
}

/// What a walk keeps of a directory of a tree are entries of it, in the order of their names.
proof fn lemma_contents_are_ordered(
    list: spec_fn(Seq<Seq<char>>) -> Seq<EntryView<Seq<Seq<char>>>>,
    dir: Seq<Seq<char>>,
)
    requires
        lists_a_tree(list),
    ensures
        are_ordered_entries(contents(list(dir)), dir),
{
    let key = |e: EntryView<Seq<Seq<char>>>| e.key;
    let pick = |e: EntryView<Seq<Seq<char>>>| kept(e);
    let entries = list(dir);
    let sorted = by_name(entries);
    let items = contents(entries);
    by_name_is_the_ordered_listing(entries, sorted);
    assert forall|k: int| 0 <= k < sorted.len() implies (#[trigger] sorted[k]).path == dir.push(
        sorted[k].key,
    ) by {
        vstd::seq_lib::to_multiset_contains(sorted, sorted[k]);
        vstd::seq_lib::to_multiset_contains(entries, sorted[k]);
        assert(sorted.contains(sorted[k]));
        let i = choose|i: int| 0 <= i < entries.len() && entries[i] == sorted[k];
        assert(list(dir)[i].path == dir.push(list(dir)[i].key));
    }
    assert(entries.no_duplicates()) by {
        assert forall|i: int, j: int|
            0 <= i < entries.len() && 0 <= j < entries.len() && i != j implies entries[i]
            != entries[j] by {
            if i < j {
                assert(list(dir)[i].key != list(dir)[j].key);
            } else {
                assert(list(dir)[j].key != list(dir)[i].key);
            }
        }
    }
    entries.lemma_multiset_has_no_duplicates();
    sorted.lemma_multiset_has_no_duplicates_conv();
    assert forall|i: int, j: int| 0 <= i < j < sorted.len() implies (#[trigger] sorted[i]).key != (
    #[trigger] sorted[j]).key by {
        let (x, y) = (sorted[i], sorted[j]);
        assert(sorted.contains(x) && sorted.contains(y));
        vstd::seq_lib::to_multiset_contains(sorted, x);
        vstd::seq_lib::to_multiset_contains(entries, x);
        vstd::seq_lib::to_multiset_contains(sorted, y);
        vstd::seq_lib::to_multiset_contains(entries, y);
        let a = choose|a: int| 0 <= a < entries.len() && entries[a] == x;
        let b = choose|b: int| 0 <= b < entries.len() && entries[b] == y;
        assert(x != y);
        if a < b {
            assert(list(dir)[a].key != list(dir)[b].key);
        } else {
            assert(list(dir)[b].key != list(dir)[a].key);
        }
    }
    assert forall|i: int| 0 <= i < items.len() implies {
        let path = pending_path(#[trigger] items[i]);
        path.len() == dir.len() + 1 && path.drop_last() == dir
    } by {
        let at = lemma_filter_map_source(sorted, pick, i);
        assert(pending_path(items[i]) == sorted[at].path);
        assert(dir.push(sorted[at].key).drop_last() =~= dir);
    }
    assert forall|i: int, j: int| 0 <= i < j < items.len() implies {
        let (a, b) = (pending_path(#[trigger] items[i]), pending_path(#[trigger] items[j]));
        a.last() != b.last() && text_le(a.last(), b.last())
    } by {
        let (a, b) = lemma_filter_map_pair(sorted, pick, i, j);
        assert(pending_path(items[i]) == sorted[a].path);
        assert(pending_path(items[j]) == sorted[b].path);
        assert(text_le(key(sorted[a]), key(sorted[b])));
    }
}

/// The files below ordered entries of a directory lie in it, each below one of the entries, and
/// stand in the order of their paths.
proof fn lemma_files_are_ordered(
    list: spec_fn(Seq<Seq<char>>) -> Seq<EntryView<Seq<Seq<char>>>>,
    items: Seq<Pending<Seq<Seq<char>>>>,
    dir: Seq<Seq<char>>,
    depth: nat,
)
    requires
        lists_a_tree(list),
        are_ordered_entries(items, dir),
    ensures
        ({
            let files = files_below(list, items, depth);
            &&& forall|k: int|
                0 <= k < files.len() ==> lies_below(#[trigger] files[k], items, dir)
            &&& in_path_order(files)
        }),
    decreases depth, items.len(),
{
    let files = files_below(list, items, depth);
    if items.len() > 0 {
        let first = pending_path(items[0]);
        let rest_items = items.skip(1);
        let rest = files_below(list, rest_items, depth);
        let head = match items[0] {
            Pending::File(path) => seq![path],
            Pending::Dir(d) => if depth == 0 {
                seq![]
            } else {
                files_below(list, contents(list(d)), (depth - 1) as nat)
            },
        };
        assert(files == head + rest);
        assert(are_ordered_entries(rest_items, dir)) by {
            assert forall|i: int| 0 <= i < rest_items.len() implies {
                let path = pending_path(#[trigger] rest_items[i]);
                path.len() == dir.len() + 1 && path.drop_last() == dir
            } by {
                assert(rest_items[i] == items[i + 1]);
            }
            assert forall|i: int, j: int| 0 <= i < j < rest_items.len() implies {
                let (a, b) = (
                    pending_path(#[trigger] rest_items[i]),
                    pending_path(#[trigger] rest_items[j]),
                );
                a.last() != b.last() && text_le(a.last(), b.last())
            } by {
                assert(rest_items[i] == items[i + 1] && rest_items[j] == items[j + 1]);
            }
        }
        lemma_files_are_ordered(list, rest_items, dir, depth);
        if let Pending::Dir(d) = items[0] {
            if depth > 0 {
                lemma_contents_are_ordered(list, d);
                lemma_files_are_ordered(list, contents(list(d)), d, (depth - 1) as nat);
                let inside = contents(list(d));
                assert forall|k: int| 0 <= k < head.len() implies (#[trigger] head[k]).len()
                    > dir.len() && head[k].take(dir.len() as int + 1) == first by {
                    assert(lies_below(head[k], inside, d));
                    let i = choose|i: int|
                        0 <= i < inside.len() && head[k].take(d.len() as int + 1) == pending_path(
                            #[trigger] inside[i],
                        );
                    assert(pending_path(inside[i]).drop_last() == d);
                    assert(head[k].take(dir.len() as int + 1) =~= head[k].take(
                        d.len() as int + 1,
                    ).drop_last());
                }
            }
        } else {
            assert(first.take(dir.len() as int + 1) =~= first);
        }
        assert forall|k: int| 0 <= k < files.len() implies lies_below(
            #[trigger] files[k],
            items,
            dir,
        ) by {
            if k < head.len() {
                assert(files[k] == head[k]);
                assert(files[k].take(dir.len() as int + 1) == pending_path(items[0]));
            } else {
                let m = k - head.len();
                assert(files[k] == rest[m]);
                assert(lies_below(rest[m], rest_items, dir));
                let i = choose|i: int|
                    0 <= i < rest_items.len() && rest[m].take(dir.len() as int + 1) == pending_path(
                        #[trigger] rest_items[i],
                    );
                assert(rest_items[i] == items[i + 1]);
            }
        }
        assert forall|k: int, l: int| 0 <= k < l < files.len() implies path_before(
            #[trigger] files[k],
            #[trigger] files[l],
        ) by {
            if l < head.len() {
                assert(files[k] == head[k] && files[l] == head[l]);
            } else if k >= head.len() {
                assert(files[k] == rest[k - head.len()] && files[l] == rest[l - head.len()]);
            } else {
                let (a, b) = (files[k], files[l]);
                let m = l - head.len();
                assert(a == head[k]);
                assert(b == rest[m]);
                assert(lies_below(rest[m], rest_items, dir));
                let i = choose|i: int|
                    0 <= i < rest_items.len() && rest[m].take(dir.len() as int + 1) == pending_path(
                        #[trigger] rest_items[i],
                    );
                assert(rest_items[i] == items[i + 1]);
                let other = pending_path(items[i + 1]);
                let n = dir.len() as int;
                assert(a.take(n + 1) == first);
                assert(b.take(n + 1) == other);
                assert(first.last() != other.last() && text_le(first.last(), other.last()));
                assert(a[n] == a.take(n + 1)[n]);
                assert(b[n] == b.take(n + 1)[n]);
                assert(a.take(n) =~= first.drop_last());
                assert(b.take(n) =~= other.drop_last());
                assert(first.drop_last() == dir && other.drop_last() == dir);
                assert(differ_at(a, b, n));
            }
        }
    }
}

/// The sources of a directory tree are found in the order of their paths, name by name, and none
/// twice.
pub proof fn sources_are_found_in_path_order(
    list: spec_fn(Seq<Seq<char>>) -> Seq<EntryView<Seq<Seq<char>>>>,
    root: Seq<Seq<char>>,
    depth: nat,
)
    requires
        lists_a_tree(list),
    ensures
        in_path_order(files_below(list, seq![Pending::Dir(root)], depth)),
{
    let all = seq![Pending::Dir(root)];
    assert(all.skip(1) =~= Seq::<Pending<Seq<Seq<char>>>>::empty());
    assert(files_below(list, all.skip(1), depth) =~= Seq::<Seq<Seq<char>>>::empty());
    if depth > 0 {
        let inside = files_below(list, contents(list(root)), (depth - 1) as nat);
        lemma_contents_are_ordered(list, root);
        lemma_files_are_ordered(list, contents(list(root)), root, (depth - 1) as nat);
        assert(files_below(list, all, depth) =~= inside);
    }
}

/// A path below the project as a label: with slashes, whatever the platform separates names by.
pub open spec fn slashed(path: Seq<char>) -> Seq<char> {
    path.map_values(|c: char| if c == '\\' { '/' } else { c })
}

/// The label of a source, by its path below the project.
pub fn source_label(path: &str) -> (label: String)
    ensures
        label@ == slashed(path@),
{
    let chars = chars_of(path);
    let mut label = String::new();
    let mut i: usize = 0;
    while i < chars.len()
        invariant
            i <= chars.len(),
            chars@ == path@,
            label@ == slashed(path@).take(i as int),
        decreases chars.len() - i,
    {
        label.push(
            if chars[i] == '\\' {
                '/'
            } else {
                chars[i]
            },
        );
        assert(label@ =~= slashed(path@).take(i + 1));
        i += 1;
    }
    assert(slashed(path@).take(chars.len() as int) =~= slashed(path@));
    label
}

/// How far the reading of a project's sources has come.
pub struct ReadingView<P> {
    /// The files to read, in order.
    pub files: Seq<P>,
    /// The sources read so far: the label and the contents of each file.
    pub sources: Seq<(Seq<char>, Seq<char>)>,
}

impl<P> ReadingView<P> {
    /// The file that is to be read next.
    pub open spec fn next(self) -> Option<P> {
        if self.sources.len() < self.files.len() {
            Some(self.files[self.sources.len() as int])
        } else {
            None
        }
    }
}

/// The reading of a project's sources, one file after the other.
#[derive(Debug)]
pub struct Reading<P> {
    files: Vec<P>,
    sources: Vec<(String, String)>,
}

impl<P> View for Reading<P> {
    type V = ReadingView<P>;

    closed spec fn view(&self) -> ReadingView<P> {
        ReadingView { files: self.files@, sources: sources_view(self.sources@) }
    }
}

/// Starts to read the files found under `dir`. A project without any is refused: to check nothing
/// would be a silent pass.
pub fn read_sources<P>(dir: &str, files: Vec<P>) -> (reading: Result<Reading<P>, ResolveError>)
    ensures
        match reading {
            Ok(reading) => {
                &&& files@.len() > 0
                &&& reading@.files == files@
                &&& reading@.sources.len() == 0
            },
            Err(e) => files@.len() == 0 && e.0@ == no_sources_text(dir@),
        },
{
    if files.len() == 0 {
        Err(no_sources(dir))
    } else {
        Ok(Reading { files, sources: Vec::new() })
    }
}

impl<P> Reading<P> {
    /// There is something to read, and no more is read than that.
    #[verifier::type_invariant]
    spec fn inv(self) -> bool {
        self.files@.len() > 0 && self.sources@.len() <= self.files@.len()
    }

    /// The file to read next; none once all are read.
    pub fn next(&self) -> (file: Option<&P>)
        ensures
            match file {
                Some(file) => self@.next() == Some(*file),
                None => self@.next() is None,
            },
    {
        if self.sources.len() < self.files.len() {
            Some(&self.files[self.sources.len()])
        } else {
            None
        }
    }

    /// The reading after the file that was asked for: its path below the project, and its
    /// contents.
    pub fn read(self, path: &str, contents: String) -> (next: Reading<P>)
        requires
            self@.next() is Some,
        ensures
            next@.files == self@.files,
            next@.sources == self@.sources.push((slashed(path@), contents@)),
    {
        let ghost before = self@;
        let Reading { files, sources } = self;
        let ghost earlier = sources@;
        let mut sources = sources;
        sources.push((source_label(path), contents));
        assert(sources_view(sources@) =~= sources_view(earlier).push((slashed(path@), contents@)));
        Reading { files, sources }
    }

    /// The end of a reading whose next file cannot be read: no source counts, and the failure
    /// names the file.
    pub fn unreadable(self, path: &str, error: &str) -> (e: ResolveError)
        requires
            self@.next() is Some,
        ensures
            e.0@ == path@ + ": "@ + error@,
    {
        unreadable(path, error)
    }

    /// The sources read.
    pub fn into_sources(self) -> (sources: Vec<(String, String)>)
        ensures
            sources_view(sources@) == self@.sources,
            self@.next() is None ==> sources@.len() == self@.files.len() > 0,
    {
        proof {
            use_type_invariant(&self);
        }
        self.sources
    }
}

} // verus!
