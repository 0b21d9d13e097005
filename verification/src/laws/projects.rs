//! Laws of project resolution: which entries are sources, where they are found, and what comes of
//! a failure.

use vstd::prelude::*;
use vstd::string::*;

use crate::laws::imports::lemma_filter_map_concat;
use crate::laws::texts::what_is_in_order_stays;
use crate::project::{
    a_listing_goes_one_directory_on, by_name, by_name_is_the_ordered_listing, contents, dirs_below,
    files_below, is_by_name, kept, lemma_below_concat, nests_within, slashed, EntryView, Pending,
    ReadingView, WalkView,
};
use crate::resolution::{
    resolution_ends_with_the_first_failure, FileRequest, FileSystem, ResolutionView,
};
use crate::text::text_le;

verus! {

/// Whether an entry is passed over by its name: it is hidden, or it is the build directory.
pub open spec fn is_passed_over(name: Seq<char>) -> bool {
    ||| name.len() > 0 && name.first() == '.'
    ||| name == seq!['t', 'a', 'r', 'g', 'e', 't']
}

/// Whether an entry is to be kept as a directory to go through.
pub open spec fn is_project_dir<P>(entry: EntryView<P>) -> bool {
    entry.is_dir && !is_passed_over(entry.name)
}

/// Whether an entry is to be kept as a source file.
pub open spec fn is_source_file<P>(entry: EntryView<P>) -> bool {
    &&& !entry.is_dir
    &&& !is_passed_over(entry.name)
    &&& entry.extension is Some
    &&& entry.extension->0 == seq!['m', 'y', 'c']
}

/// An entry is kept exactly when its name neither begins with a dot nor is that of the build
/// directory, and it is a directory or has the extension of a source; it is kept as what it is.
pub proof fn an_entry_is_kept_by_its_name_and_kind<P>(entry: EntryView<P>)
    ensures
        kept(entry) == Some(Pending::Dir(entry.path)) <==> is_project_dir(entry),
        kept(entry) == Some(Pending::File(entry.path)) <==> is_source_file(entry),
        kept(entry) is None <==> !is_project_dir(entry) && !is_source_file(entry),
{
    reveal_strlit("target");
    reveal_strlit("myc");
    assert("target"@ =~= seq!['t', 'a', 'r', 'g', 'e', 't']);
    assert("myc"@ =~= seq!['m', 'y', 'c']);
}

/// What is picked from two orders of the same items is the same, but for the order.
proof fn lemma_picked_from_reordered<A, B>(a: Seq<A>, b: Seq<A>, pick: spec_fn(A) -> Option<B>)
    requires
        a.to_multiset() == b.to_multiset(),
    ensures
        a.filter_map(pick).to_multiset() == b.filter_map(pick).to_multiset(),
    decreases a.len(),
{
    vstd::seq_lib::to_multiset_len(a);
    vstd::seq_lib::to_multiset_len(b);
    if a.len() == 0 {
        assert(a =~= b);
    } else {
        let x = a.last();
        assert(a.contains(x));
        vstd::seq_lib::to_multiset_contains(a, x);
        vstd::seq_lib::to_multiset_contains(b, x);
        let i = choose|i: int| 0 <= i < b.len() && b[i] == x;
        let front = b.take(i);
        let back = b.skip(i + 1);
        let p = a.drop_last();
        assert(a =~= p + seq![x]);
        assert(b =~= front + seq![x] + back);
        assert(a.remove(a.len() - 1) =~= p);
        assert(b.remove(i) =~= front + back);
        vstd::seq_lib::to_multiset_remove(a, a.len() - 1);
        vstd::seq_lib::to_multiset_remove(b, i);
        lemma_picked_from_reordered(p, front + back, pick);
        lemma_filter_map_concat(p, seq![x], pick);
        lemma_filter_map_concat(front, seq![x], pick);
        lemma_filter_map_concat(front + seq![x], back, pick);
        lemma_filter_map_concat(front, back, pick);
        let y = seq![x].filter_map(pick);
        vstd::seq_lib::lemma_multiset_commutative(p.filter_map(pick), y);
        vstd::seq_lib::lemma_multiset_commutative(front.filter_map(pick), y);
        vstd::seq_lib::lemma_multiset_commutative(
            front.filter_map(pick) + y,
            back.filter_map(pick),
        );
        vstd::seq_lib::lemma_multiset_commutative(front.filter_map(pick), back.filter_map(pick));
        assert(a.filter_map(pick).to_multiset() =~= b.filter_map(pick).to_multiset());
    }
}

proof fn lemma_same_pick<A, B>(
    items: Seq<A>,
    pick: spec_fn(A) -> Option<B>,
    other: spec_fn(A) -> Option<B>,
)
    requires
        forall|x: A| #[trigger] pick(x) == other(x),
    ensures
        items.filter_map(pick) == items.filter_map(other),
{
    assert(pick =~= other);
}

/// Nothing is lost from a listing and nothing comes twice: what is kept of it is each directory to
/// go through and each source file, as often as it is listed. In a listing that is in the order of
/// the names, they keep their order.
pub proof fn a_listing_is_kept_whole<P>(
    entries: Seq<EntryView<P>>,
    pick: spec_fn(EntryView<P>) -> Option<Pending<P>>,
)
    requires
        forall|e: EntryView<P>| #[trigger]
            pick(e) == (if is_project_dir(e) {
                Some(Pending::Dir(e.path))
            } else if is_source_file(e) {
                Some(Pending::File(e.path))
            } else {
                None
            }),
    ensures
        contents(entries).to_multiset() == entries.filter_map(pick).to_multiset(),
        (forall|i: int, j: int|
            0 <= i < j < entries.len() ==> text_le(
                (#[trigger] entries[i]).key,
                (#[trigger] entries[j]).key,
            )) ==> contents(entries) == entries.filter_map(pick),
{
    let keeps = |e: EntryView<P>| kept(e);
    assert forall|e: EntryView<P>| #[trigger] pick(e) == keeps(e) by {
        an_entry_is_kept_by_its_name_and_kind(e);
    }
    lemma_same_pick(entries, pick, keeps);
    by_name_is_the_ordered_listing(entries, by_name(entries));
    lemma_picked_from_reordered(by_name(entries), entries, keeps);
    let key = |e: EntryView<P>| e.key;
    if forall|i: int, j: int|
        0 <= i < j < entries.len() ==> text_le(
            (#[trigger] entries[i]).key,
            (#[trigger] entries[j]).key,
        ) {
        what_is_in_order_stays(entries, key);
        assert(is_by_name(entries, entries));
        by_name_is_the_ordered_listing(entries, entries);
    }
}

proof fn lemma_filter_map_holds<A, B>(items: Seq<A>, pick: spec_fn(A) -> Option<B>, i: int)
    requires
        0 <= i < items.len(),
        pick(items[i]) is Some,
    ensures
        items.filter_map(pick).contains(pick(items[i])->0),
    decreases items.len(),
{
    let shorter = items.drop_last();
    let part = shorter.filter_map(pick);
    if i < shorter.len() {
        assert(shorter[i] == items[i]);
        lemma_filter_map_holds(shorter, pick, i);
        let at = choose|at: int| 0 <= at < part.len() && part[at] == pick(items[i])->0;
        assert(items.filter_map(pick)[at] == pick(items[i])->0);
    } else {
        assert(items.filter_map(pick)[part.len() as int] == pick(items[i])->0);
    }
}

/// Every directory and every source file of a listing that is not passed over is kept, wherever it
/// stands in the listing.
pub proof fn no_source_is_passed_over<P>(entries: Seq<EntryView<P>>, i: int)
    requires
        0 <= i < entries.len(),
    ensures
        is_project_dir(entries[i]) ==> contents(entries).contains(Pending::Dir(entries[i].path)),
        is_source_file(entries[i]) ==> contents(entries).contains(Pending::File(entries[i].path)),
{
    let e = entries[i];
    an_entry_is_kept_by_its_name_and_kind(e);
    by_name_is_the_ordered_listing(entries, by_name(entries));
    let sorted = by_name(entries);
    assert(entries.contains(e));
    vstd::seq_lib::to_multiset_contains(entries, e);
    vstd::seq_lib::to_multiset_contains(sorted, e);
    let at = choose|at: int| 0 <= at < sorted.len() && sorted[at] == e;
    if kept(e) is Some {
        lemma_filter_map_holds(sorted, |x: EntryView<P>| kept(x), at);
    }
}

/// The order in which a file system lists entries with different names does not show in what is
/// kept.
pub proof fn the_order_of_a_listing_does_not_show<P>(
    a: Seq<EntryView<P>>,
    b: Seq<EntryView<P>>,
)
    requires
        a.to_multiset() == b.to_multiset(),
        forall|i: int, j: int| 0 <= i < j < a.len() ==> (#[trigger] a[i]).key != (#[trigger] a[j]).key,
    ensures
        contents(a) == contents(b),
{
    by_name_is_the_ordered_listing(a, by_name(a));
    by_name_is_the_ordered_listing(b, by_name(b));
    let key = |e: EntryView<P>| e.key;
    let s = by_name(a);
    let t = by_name(b);
    lemma_distinct_keys(a, s, key);
    lemma_distinct_keys(a, t, key);
    assert forall|k: Seq<char>| #[trigger]
        crate::order::with_key(s, key, k) == crate::order::with_key(t, key, k) by {
        lemma_one_with_key(s, t, key, k);
    }
    crate::order::sorted_form_is_unique(s, t, key);
}

/// Different keys stay different in another order.
proof fn lemma_distinct_keys<V>(a: Seq<V>, b: Seq<V>, key: spec_fn(V) -> Seq<char>)
    requires
        a.to_multiset() == b.to_multiset(),
        forall|i: int, j: int|
            0 <= i < j < a.len() ==> key(#[trigger] a[i]) != key(#[trigger] a[j]),
    ensures
        forall|i: int, j: int|
            0 <= i < j < b.len() ==> key(#[trigger] b[i]) != key(#[trigger] b[j]),
{
    a.lemma_multiset_has_no_duplicates();
    b.lemma_multiset_has_no_duplicates_conv();
    assert forall|i: int, j: int| 0 <= i < j < b.len() implies key(#[trigger] b[i]) != key(
        #[trigger] b[j],
    ) by {
        assert(b.contains(b[i]) && b.contains(b[j]));
        vstd::seq_lib::to_multiset_contains(b, b[i]);
        vstd::seq_lib::to_multiset_contains(b, b[j]);
        vstd::seq_lib::to_multiset_contains(a, b[i]);
        vstd::seq_lib::to_multiset_contains(a, b[j]);
        let x = choose|x: int| 0 <= x < a.len() && a[x] == b[i];
        let y = choose|y: int| 0 <= y < a.len() && a[y] == b[j];
        assert(b[i] != b[j]);
        if x < y {
            assert(key(a[x]) != key(a[y]));
        } else {
            assert(key(a[y]) != key(a[x]));
        }
    }
}

/// Of items with different keys, there is one with a key, or none.
proof fn lemma_with_key_at<V>(items: Seq<V>, key: spec_fn(V) -> Seq<char>, at: int)
    requires
        0 <= at < items.len(),
        forall|i: int, j: int|
            0 <= i < j < items.len() ==> key(#[trigger] items[i]) != key(#[trigger] items[j]),
    ensures
        crate::order::with_key(items, key, key(items[at])) == seq![items[at]],
    decreases items.len(),
{
    reveal(Seq::filter);
    let k = key(items[at]);
    let shorter = items.drop_last();
    if at < shorter.len() {
        assert(shorter[at] == items[at]);
        lemma_with_key_at(shorter, key, at);
        assert(key(items[at]) != key(items[items.len() - 1]));
    } else {
        assert forall|i: int| 0 <= i < shorter.len() implies key(#[trigger] shorter[i]) != k by {
            assert(key(items[i]) != key(items[at]));
        }
        crate::order::lemma_none_with_key(shorter, key, k);
        assert(crate::order::with_key(items, key, k) =~= seq![items[at]]);
    }
}

proof fn lemma_one_with_key<V>(s: Seq<V>, t: Seq<V>, key: spec_fn(V) -> Seq<char>, k: Seq<char>)
    requires
        s.to_multiset() == t.to_multiset(),
        forall|i: int, j: int|
            0 <= i < j < s.len() ==> key(#[trigger] s[i]) != key(#[trigger] s[j]),
        forall|i: int, j: int|
            0 <= i < j < t.len() ==> key(#[trigger] t[i]) != key(#[trigger] t[j]),
    ensures
        crate::order::with_key(s, key, k) == crate::order::with_key(t, key, k),
{
    assert forall|v: V| #![trigger s.contains(v)] #![trigger t.contains(v)]
        s.contains(v) <==> t.contains(v) by {
        vstd::seq_lib::to_multiset_contains(s, v);
        vstd::seq_lib::to_multiset_contains(t, v);
    }
    if exists|i: int| 0 <= i < s.len() && key(#[trigger] s[i]) == k {
        let i = choose|i: int| 0 <= i < s.len() && key(#[trigger] s[i]) == k;
        assert(s.contains(s[i]));
        let j = choose|j: int| 0 <= j < t.len() && t[j] == s[i];
        lemma_with_key_at(s, key, i);
        lemma_with_key_at(t, key, j);
    } else {
        assert forall|j: int| 0 <= j < t.len() implies key(#[trigger] t[j]) != k by {
            assert(t.contains(t[j]));
            let i = choose|i: int| 0 <= i < s.len() && s[i] == t[j];
            assert(key(s[i]) != k);
        }
        crate::order::lemma_none_with_key(s, key, k);
        crate::order::lemma_none_with_key(t, key, k);
    }
}

/// What is found below two lists of paths is what is found below the one and then what is found
/// below the other; a file is found as it is, and below a directory is found what is below its
/// contents. A directory is listed before what is below it.
pub proof fn what_is_below_comes_in_place<P>(
    list: spec_fn(P) -> Seq<EntryView<P>>,
    a: Seq<Pending<P>>,
    b: Seq<Pending<P>>,
    path: P,
    depth: nat,
)
    ensures
        files_below(list, a + b, depth) == files_below(list, a, depth) + files_below(list, b, depth),
        dirs_below(list, a + b, depth) == dirs_below(list, a, depth) + dirs_below(list, b, depth),
        nests_within(list, a + b, depth) <==> nests_within(list, a, depth) && nests_within(
            list,
            b,
            depth,
        ),
        files_below(list, seq![Pending::File(path)], depth) == seq![path],
        dirs_below(list, seq![Pending::File(path)], depth).len() == 0,
        nests_within(list, seq![Pending::File(path)], depth),
        files_below(list, seq![Pending::Dir(path)], depth + 1) == files_below(
            list,
            contents(list(path)),
            depth,
        ),
        dirs_below(list, seq![Pending::Dir(path)], depth + 1) == seq![path] + dirs_below(
            list,
            contents(list(path)),
            depth,
        ),
        nests_within(list, seq![Pending::Dir(path)], depth + 1) <==> nests_within(
            list,
            contents(list(path)),
            depth,
        ),
        !nests_within(list, seq![Pending::Dir(path)], 0),
        files_below(list, seq![], depth).len() == 0,
        dirs_below(list, seq![], depth).len() == 0,
{
    lemma_below_concat(list, a, b, depth);
    let file = seq![Pending::File(path)];
    let dir = seq![Pending::Dir(path)];
    let none = Seq::<Pending<P>>::empty();
    assert(file.skip(1) =~= none);
    assert(dir.skip(1) =~= none);
    assert(files_below(list, none, depth) =~= Seq::<P>::empty());
    assert(dirs_below(list, none, depth) =~= Seq::<P>::empty());
    assert(files_below(list, none, depth + 1) =~= Seq::<P>::empty());
    assert(dirs_below(list, none, depth + 1) =~= Seq::<P>::empty());
    assert(nests_within(list, none, depth) && nests_within(list, none, depth + 1));
    assert(files_below(list, file, depth) =~= seq![path]);
    assert(dirs_below(list, file, depth) =~= Seq::<P>::empty());
    let inside = contents(list(path));
    assert(files_below(list, dir, depth + 1) =~= files_below(list, inside, depth));
    assert(dirs_below(list, dir, depth + 1) =~= seq![path] + dirs_below(list, inside, depth));
}

proof fn lemma_kept_is_below<P>(
    list: spec_fn(P) -> Seq<EntryView<P>>,
    paths: Seq<Pending<P>>,
    path: P,
    depth: nat,
)
    requires
        nests_within(list, paths, depth),
    ensures
        paths.contains(Pending::File(path)) ==> files_below(list, paths, depth).contains(path),
        paths.contains(Pending::Dir(path)) ==> dirs_below(list, paths, depth).contains(path),
    decreases paths.len(),
{
    if paths.len() > 0 {
        let rest = paths.skip(1);
        lemma_kept_is_below(list, rest, path, depth);
        assert(paths =~= seq![paths[0]] + rest);
        lemma_below_concat(list, seq![paths[0]], rest, depth);
        let files = files_below(list, seq![paths[0]], depth);
        let dirs = dirs_below(list, seq![paths[0]], depth);
        let more = files_below(list, rest, depth);
        let deeper = dirs_below(list, rest, depth);
        what_is_below_comes_in_place(list, paths, rest, path, depth);
        if depth > 0 {
            what_is_below_comes_in_place(list, paths, rest, path, (depth - 1) as nat);
        }
        if paths.contains(Pending::File(path)) {
            if paths[0] == Pending::File(path) {
                assert((files + more)[0] == path);
            } else {
                let at = choose|at: int| 0 <= at < paths.len() && paths[at] == Pending::File(path);
                assert(rest[at - 1] == Pending::File(path));
                let to = choose|to: int| 0 <= to < more.len() && more[to] == path;
                assert((files + more)[files.len() + to] == path);
            }
        }
        if paths.contains(Pending::Dir(path)) {
            if paths[0] == Pending::Dir(path) {
                assert((dirs + deeper)[0] == path);
            } else {
                let at = choose|at: int| 0 <= at < paths.len() && paths[at] == Pending::Dir(path);
                assert(rest[at - 1] == Pending::Dir(path));
                let to = choose|to: int| 0 <= to < deeper.len() && deeper[to] == path;
                assert((dirs + deeper)[dirs.len() + to] == path);
            }
        }
    }
}

/// A project is searched through: every source file that a directory of the project lists is found,
/// and every directory that it lists is gone through, unless it is passed over.
pub proof fn every_directory_is_searched<P>(
    list: spec_fn(P) -> Seq<EntryView<P>>,
    paths: Seq<Pending<P>>,
    depth: nat,
    dir: P,
    i: int,
)
    requires
        nests_within(list, paths, depth),
        dirs_below(list, paths, depth).contains(dir),
        0 <= i < list(dir).len(),
    ensures
        is_source_file(list(dir)[i]) ==> files_below(list, paths, depth).contains(
            list(dir)[i].path,
        ),
        is_project_dir(list(dir)[i]) ==> dirs_below(list, paths, depth).contains(
            list(dir)[i].path,
        ),
    decreases depth, paths.len(),
{
    let path = list(dir)[i].path;
    if paths.len() > 0 {
        let rest = paths.skip(1);
        assert(paths =~= seq![paths[0]] + rest);
        lemma_below_concat(list, seq![paths[0]], rest, depth);
        let files = files_below(list, seq![paths[0]], depth);
        let dirs = dirs_below(list, seq![paths[0]], depth);
        let more = files_below(list, rest, depth);
        let deeper = dirs_below(list, rest, depth);
        let at = choose|at: int| 0 <= at < (dirs + deeper).len() && (dirs + deeper)[at] == dir;
        if at >= dirs.len() {
            assert(deeper[at - dirs.len()] == dir);
            every_directory_is_searched(list, rest, depth, dir, i);
            lemma_behind(files, more, path);
            lemma_behind(dirs, deeper, path);
        } else {
            match paths[0] {
                Pending::File(file) => {
                    what_is_below_comes_in_place(list, paths, rest, file, depth);
                },
                Pending::Dir(top) => {
                    let less = (depth - 1) as nat;
                    let inside = contents(list(top));
                    what_is_below_comes_in_place(list, paths, rest, top, less);
                    let below = dirs_below(list, inside, less);
                    if at == 0 {
                        assert(dir == top);
                        no_source_is_passed_over(list(dir), i);
                        lemma_kept_is_below(list, inside, path, less);
                    } else {
                        assert(below[at - 1] == dir);
                        every_directory_is_searched(list, inside, less, dir, i);
                    }
                    if is_project_dir(list(dir)[i]) {
                        lemma_behind(seq![top], below, path);
                    }
                },
            }
            lemma_before(files, more, path);
            lemma_before(dirs, deeper, path);
        }
    }
}

proof fn lemma_behind<A>(a: Seq<A>, b: Seq<A>, x: A)
    ensures
        b.contains(x) ==> (a + b).contains(x),
{
    if b.contains(x) {
        let at = choose|at: int| 0 <= at < b.len() && b[at] == x;
        assert((a + b)[a.len() + at] == x);
    }
}

proof fn lemma_before<A>(a: Seq<A>, b: Seq<A>, x: A)
    ensures
        a.contains(x) ==> (a + b).contains(x),
{
    if a.contains(x) {
        let at = choose|at: int| 0 <= at < a.len() && a[at] == x;
        assert((a + b)[at] == x);
    }
}

/// A label is the path below the project with a slash in the place of each backslash, and nothing
/// else changed.
pub proof fn a_label_changes_backslashes_only(path: Seq<char>, i: int)
    ensures
        slashed(path).len() == path.len(),
        0 <= i < path.len() && path[i] == '\\' ==> slashed(path)[i] == '/',
        0 <= i < path.len() && path[i] != '\\' ==> slashed(path)[i] == path[i],
{
}

proof fn lemma_first_unlistable<P>(fs: FileSystem<P>, dirs: Seq<P>, k: int)
    requires
        0 <= k <= dirs.len(),
        forall|i: int| 0 <= i < k ==> (fs.list)(#[trigger] dirs[i]) is Ok,
        k < dirs.len() ==> (fs.list)(dirs[k]) is Err,
    ensures
        k == dirs.len() ==> fs.first_unlistable(dirs) is None,
        k < dirs.len() ==> fs.first_unlistable(dirs) == Some(
            (fs.list)(dirs[k])->Err_0.0 + ": "@ + (fs.list)(dirs[k])->Err_0.1,
        ),
    decreases dirs.len(),
{
    if k > 0 {
        assert((fs.list)(dirs[0]) is Ok);
        assert forall|i: int| 0 <= i < k - 1 implies (fs.list)(#[trigger] dirs.skip(1)[i]) is Ok by {
            assert((fs.list)(dirs[i + 1]) is Ok);
        }
        lemma_first_unlistable(fs, dirs.skip(1), k - 1);
    }
}

proof fn lemma_first_unreadable<P>(fs: FileSystem<P>, files: Seq<P>, k: int)
    requires
        0 <= k <= files.len(),
        forall|i: int| 0 <= i < k ==> (fs.read)(#[trigger] files[i]) is Ok,
        k < files.len() ==> (fs.read)(files[k]) is Err,
    ensures
        k == files.len() ==> fs.first_unreadable(files) is None,
        k < files.len() ==> fs.first_unreadable(files) == Some(
            (fs.read)(files[k])->Err_0.0 + ": "@ + (fs.read)(files[k])->Err_0.1,
        ),
    decreases files.len(),
{
    if k > 0 {
        assert((fs.read)(files[0]) is Ok);
        assert forall|i: int| 0 <= i < k - 1 implies (fs.read)(#[trigger] files.skip(1)[i]) is Ok by {
            assert((fs.read)(files[i + 1]) is Ok);
        }
        lemma_first_unreadable(fs, files.skip(1), k - 1);
    }
}

/// The first directory that cannot be listed is what a resolution fails with: its path and the
/// error. Nothing else counts then.
pub proof fn an_unlistable_directory_is_named<P>(
    fs: FileSystem<P>,
    list: spec_fn(P) -> Seq<EntryView<P>>,
    dir: Seq<char>,
    root: P,
    depth: nat,
    k: int,
)
    requires
        answers(fs, list),
        nests_within(list, seq![Pending::Dir(root)], depth),
        0 <= k < dirs_below(list, seq![Pending::Dir(root)], depth).len(),
        (fs.list)(dirs_below(list, seq![Pending::Dir(root)], depth)[k]) is Err,
        forall|i: int|
            0 <= i < k ==> (fs.list)(
                #[trigger] dirs_below(list, seq![Pending::Dir(root)], depth)[i],
            ) is Ok,
    ensures
        ({
            let (path, error) = (fs.list)(
                dirs_below(list, seq![Pending::Dir(root)], depth)[k],
            )->Err_0;
            end_of(fs, list, dir, root, depth) == Some(
                Err::<Seq<(Seq<char>, Seq<char>)>, _>(path + seq![':', ' '] + error),
            )
        }),
{
    lemma_colon();
    lemma_listing(fs, list);
    resolution_ends_with_the_first_failure(fs, dir, root, depth);
    lemma_first_unlistable(fs, fs.dirs(root, depth), k);
}

/// Whether `list` is what a file system lists, where a directory that cannot be listed shows
/// nothing.
pub open spec fn answers<P>(fs: FileSystem<P>, list: spec_fn(P) -> Seq<EntryView<P>>) -> bool {
    forall|d: P| #[trigger]
        list(d) == (match (fs.list)(d) {
            Ok(entries) => entries,
            Err(_) => seq![],
        })
}

/// What a resolution has come to after one answer for each directory and for each source.
pub open spec fn end_of<P>(
    fs: FileSystem<P>,
    list: spec_fn(P) -> Seq<EntryView<P>>,
    dir: Seq<char>,
    root: P,
    depth: nat,
) -> Option<Result<Seq<(Seq<char>, Seq<char>)>, Seq<char>>> {
    ResolutionView::start(dir, root).steps(
        fs,
        dirs_below(list, seq![Pending::Dir(root)], depth).len() + files_below(
            list,
            seq![Pending::Dir(root)],
            depth,
        ).len(),
    ).outcome()
}

proof fn lemma_colon()
    ensures
        ": "@ == seq![':', ' '],
{
    reveal_strlit(": ");
    assert(": "@ =~= seq![':', ' ']);
}

proof fn lemma_listing<P>(fs: FileSystem<P>, list: spec_fn(P) -> Seq<EntryView<P>>)
    requires
        answers(fs, list),
    ensures
        fs.listing() == list,
{
    assert forall|d: P| #[trigger] list(d) == (fs.listing())(d) by {}
    assert(fs.listing() =~= list);
}

/// Where every directory can be listed and there is no source, a resolution fails and says so: to
/// check nothing would be a silent pass.
pub proof fn a_project_without_sources_fails<P>(
    fs: FileSystem<P>,
    list: spec_fn(P) -> Seq<EntryView<P>>,
    dir: Seq<char>,
    root: P,
    depth: nat,
)
    requires
        answers(fs, list),
        nests_within(list, seq![Pending::Dir(root)], depth),
        forall|i: int|
            0 <= i < dirs_below(list, seq![Pending::Dir(root)], depth).len() ==> (fs.list)(
                #[trigger] dirs_below(list, seq![Pending::Dir(root)], depth)[i],
            ) is Ok,
        files_below(list, seq![Pending::Dir(root)], depth).len() == 0,
    ensures
        end_of(fs, list, dir, root, depth) == Some(
            Err::<Seq<(Seq<char>, Seq<char>)>, _>(
                "no `.myc` sources under "@ + dir
                    + " — nothing to check (a clean exit here would be a silent pass; G2)"@,
            ),
        ),
{
    lemma_listing(fs, list);
    resolution_ends_with_the_first_failure(fs, dir, root, depth);
    lemma_first_unlistable(fs, fs.dirs(root, depth), fs.dirs(root, depth).len() as int);
}

/// Where every directory can be listed, the first source that cannot be read is what a resolution
/// fails with: its path and the error.
pub proof fn an_unreadable_source_is_named<P>(
    fs: FileSystem<P>,
    list: spec_fn(P) -> Seq<EntryView<P>>,
    dir: Seq<char>,
    root: P,
    depth: nat,
    k: int,
)
    requires
        answers(fs, list),
        nests_within(list, seq![Pending::Dir(root)], depth),
        forall|i: int|
            0 <= i < dirs_below(list, seq![Pending::Dir(root)], depth).len() ==> (fs.list)(
                #[trigger] dirs_below(list, seq![Pending::Dir(root)], depth)[i],
            ) is Ok,
        0 <= k < files_below(list, seq![Pending::Dir(root)], depth).len(),
        (fs.read)(files_below(list, seq![Pending::Dir(root)], depth)[k]) is Err,
        forall|i: int|
            0 <= i < k ==> (fs.read)(
                #[trigger] files_below(list, seq![Pending::Dir(root)], depth)[i],
            ) is Ok,
    ensures
        ({
            let (path, error) = (fs.read)(
                files_below(list, seq![Pending::Dir(root)], depth)[k],
            )->Err_0;
            end_of(fs, list, dir, root, depth) == Some(
                Err::<Seq<(Seq<char>, Seq<char>)>, _>(path + seq![':', ' '] + error),
            )
        }),
{
    lemma_colon();
    lemma_listing(fs, list);
    resolution_ends_with_the_first_failure(fs, dir, root, depth);
    lemma_first_unlistable(fs, fs.dirs(root, depth), fs.dirs(root, depth).len() as int);
    lemma_first_unreadable(fs, fs.files(root, depth), k);
}

/// Where every directory can be listed and every source can be read, a resolution yields each
/// source in its place, with its contents, under its path below the project.
pub proof fn a_readable_project_yields_its_sources<P>(
    fs: FileSystem<P>,
    list: spec_fn(P) -> Seq<EntryView<P>>,
    dir: Seq<char>,
    root: P,
    depth: nat,
    k: int,
)
    requires
        answers(fs, list),
        nests_within(list, seq![Pending::Dir(root)], depth),
        forall|i: int|
            0 <= i < dirs_below(list, seq![Pending::Dir(root)], depth).len() ==> (fs.list)(
                #[trigger] dirs_below(list, seq![Pending::Dir(root)], depth)[i],
            ) is Ok,
        forall|i: int|
            0 <= i < files_below(list, seq![Pending::Dir(root)], depth).len() ==> (fs.read)(
                #[trigger] files_below(list, seq![Pending::Dir(root)], depth)[i],
            ) is Ok,
        0 <= k < files_below(list, seq![Pending::Dir(root)], depth).len(),
    ensures
        ({
            let files = files_below(list, seq![Pending::Dir(root)], depth);
            let end = end_of(fs, list, dir, root, depth);
            &&& end is Some
            &&& end->0 is Ok
            &&& end->0->Ok_0.len() == files.len()
            &&& end->0->Ok_0[k].0 == slashed((fs.read)(files[k])->Ok_0.0)
            &&& end->0->Ok_0[k].1 == (fs.read)(files[k])->Ok_0.1
        }),
{
    lemma_listing(fs, list);
    resolution_ends_with_the_first_failure(fs, dir, root, depth);
    lemma_first_unlistable(fs, fs.dirs(root, depth), fs.dirs(root, depth).len() as int);
    lemma_first_unreadable(fs, fs.files(root, depth), fs.files(root, depth).len() as int);
}

/// The directories are asked for in their order, and then the sources in theirs: what is asked for
/// after so many answers is the next of them, and nothing is asked for after the last.
pub proof fn directories_are_listed_and_then_sources_read<P>(
    fs: FileSystem<P>,
    list: spec_fn(P) -> Seq<EntryView<P>>,
    dir: Seq<char>,
    root: P,
    depth: nat,
    k: nat,
)
    requires
        answers(fs, list),
        nests_within(list, seq![Pending::Dir(root)], depth),
    ensures
        ({
            let dirs = dirs_below(list, seq![Pending::Dir(root)], depth);
            let files = files_below(list, seq![Pending::Dir(root)], depth);
            let start = ResolutionView::start(dir, root);
            &&& k < dirs.len() && (forall|i: int|
                0 <= i < k ==> (fs.list)(#[trigger] dirs[i]) is Ok) ==> start.steps(fs, k).next()
                == FileRequest::List(dirs[k as int])
            &&& k < files.len() && (forall|i: int|
                0 <= i < dirs.len() ==> (fs.list)(#[trigger] dirs[i]) is Ok) && (forall|i: int|
                0 <= i < k ==> (fs.read)(#[trigger] files[i]) is Ok) ==> start.steps(
                fs,
                dirs.len() + k,
            ).next() == FileRequest::Read(files[k as int])
        }),
{
    lemma_listing(fs, list);
    let all = seq![Pending::Dir(root)];
    let dirs = dirs_below(list, all, depth);
    let files = files_below(list, all, depth);
    let walk = WalkView::start(root);
    assert(walk.found + files =~= files);
    if k < dirs.len() && (forall|i: int| 0 <= i < k ==> (fs.list)(#[trigger] dirs[i]) is Ok) {
        lemma_listing_in_order(fs, dir, walk, depth, k);
    }
    if k < files.len() && (forall|i: int| 0 <= i < dirs.len() ==> (fs.list)(#[trigger] dirs[i]) is Ok)
        && (forall|i: int| 0 <= i < k ==> (fs.read)(#[trigger] files[i]) is Ok) {
        lemma_listing_to_the_end(fs, dir, walk, depth, k);
        lemma_reading_in_order(fs, ReadingView { files, sources: seq![] }, k);
    }
}

proof fn lemma_listing_in_order<P>(
    fs: FileSystem<P>,
    dir: Seq<char>,
    walk: WalkView<P>,
    depth: nat,
    k: nat,
)
    requires
        nests_within(fs.listing(), walk.todo, depth),
        walk.next() is Some,
        k < dirs_below(fs.listing(), walk.todo, depth).len(),
        forall|i: int|
            0 <= i < k ==> (fs.list)(
                #[trigger] dirs_below(fs.listing(), walk.todo, depth)[i],
            ) is Ok,
    ensures
        (ResolutionView::Walking { dir, walk }).steps(fs, k).next() == FileRequest::List(
            dirs_below(fs.listing(), walk.todo, depth)[k as int],
        ),
    decreases k,
{
    let dirs = dirs_below(fs.listing(), walk.todo, depth);
    a_listing_goes_one_directory_on(fs.listing(), walk, depth);
    let path = walk.next()->0;
    assert(dirs[0] == path);
    if k > 0 {
        assert((fs.list)(dirs[0]) is Ok);
        let next = walk.after_listing((fs.listing())(path));
        let left = dirs_below(fs.listing(), next.todo, depth);
        assert(dirs.skip(1) =~= left);
        assert(left[k - 1] == dirs[k as int]);
        assert(next.todo.len() > 0);
        assert forall|i: int| 0 <= i < k - 1 implies (fs.list)(#[trigger] left[i]) is Ok by {
            assert((fs.list)(dirs[i + 1]) is Ok);
        }
        lemma_listing_in_order(fs, dir, next, depth, (k - 1) as nat);
    }
}

proof fn lemma_listing_to_the_end<P>(
    fs: FileSystem<P>,
    dir: Seq<char>,
    walk: WalkView<P>,
    depth: nat,
    more: nat,
)
    requires
        nests_within(fs.listing(), walk.todo, depth),
        walk.next() is Some,
        forall|i: int|
            0 <= i < dirs_below(fs.listing(), walk.todo, depth).len() ==> (fs.list)(
                #[trigger] dirs_below(fs.listing(), walk.todo, depth)[i],
            ) is Ok,
    ensures
        (ResolutionView::Walking { dir, walk }).steps(
            fs,
            dirs_below(fs.listing(), walk.todo, depth).len() + more,
        ) == ResolutionView::found(
            dir,
            walk.found + files_below(fs.listing(), walk.todo, depth),
        ).steps(fs, more),
    decreases dirs_below(fs.listing(), walk.todo, depth).len(),
{
    let dirs = dirs_below(fs.listing(), walk.todo, depth);
    let files = walk.found + files_below(fs.listing(), walk.todo, depth);
    let r = ResolutionView::Walking { dir, walk };
    a_listing_goes_one_directory_on(fs.listing(), walk, depth);
    let path = walk.next()->0;
    assert(dirs[0] == path);
    assert((fs.list)(dirs[0]) is Ok);
    let next = walk.after_listing((fs.listing())(path));
    let left = dirs_below(fs.listing(), next.todo, depth);
    assert(dirs.skip(1) =~= left);
    assert(r.steps(fs, dirs.len() + more) == r.answered(fs).steps(fs, left.len() + more));
    if next.todo.len() > 0 {
        assert forall|i: int| 0 <= i < left.len() implies (fs.list)(#[trigger] left[i]) is Ok by {
            assert((fs.list)(dirs[i + 1]) is Ok);
        }
        lemma_listing_to_the_end(fs, dir, next, depth, more);
    } else {
        assert(left.len() == 0);
        assert(next.found =~= files);
    }
}

proof fn lemma_reading_in_order<P>(fs: FileSystem<P>, reading: ReadingView<P>, k: nat)
    requires
        reading.sources.len() + k < reading.files.len(),
        forall|i: int|
            reading.sources.len() <= i < reading.sources.len() + k ==> (fs.read)(
                #[trigger] reading.files[i],
            ) is Ok,
    ensures
        ResolutionView::Reading(reading).steps(fs, k).next() == FileRequest::Read(
            reading.files[reading.sources.len() as int + k],
        ),
    decreases k,
{
    if k > 0 {
        let file = reading.files[reading.sources.len() as int];
        assert((fs.read)(file) is Ok);
        let (below, text) = (fs.read)(file)->Ok_0;
        let next = ReadingView {
            files: reading.files,
            sources: reading.sources.push((slashed(below), text)),
        };
        lemma_reading_in_order(fs, next, (k - 1) as nat);
    }
}

} // verus!
