//! Laws of imports: which nodule an import names, and what a nodule rests on.

use vstd::prelude::*;
use vstd::string::*;

use crate::closure::{
    batch_targets, graph_of, is_last_declaration, item_target, last_declaration, nodule_path,
    nodule_paths, use_graph, use_target, use_targets,
};
use crate::laws::texts::joining_goes_part_by_part;
use crate::syntax::{Item, Nodule, UsePath};
use crate::text::texts;

verus! {

/// A dotted path holds the segments in their order, with a dot between neighbours.
pub proof fn a_dotted_path_is_its_segments(n: Nodule, a: Nodule, b: Nodule)
    ensures
        n.path@.len() == 1 ==> nodule_path(n) == n.path@[0]@,
        n.path@.len() == 0 ==> nodule_path(n).len() == 0,
        a.path@.len() > 0 && b.path@.len() > 0 && texts(n.path@) == texts(a.path@) + texts(b.path@)
            ==> nodule_path(n) == nodule_path(a) + seq!['.'] + nodule_path(b),
{
    reveal_strlit(".");
    assert("."@ =~= seq!['.']);
    joining_goes_part_by_part(texts(n.path@), texts(b.path@), "."@);
    joining_goes_part_by_part(texts(a.path@), texts(b.path@), "."@);
}

/// An import of all items of a nodule, and an import of one of them, name that nodule by its path.
/// An import from another phylum names none, and neither does the import of a bare name.
pub proof fn an_import_names_the_nodule_before_the_item(u: UsePath, nodule: Nodule)
    ensures
        u.cross_phylum ==> use_target(u) is None,
        !u.cross_phylum && u.glob && texts(u.path@) == texts(nodule.path@) ==> use_target(u) == Some(
            nodule_path(nodule),
        ),
        !u.cross_phylum && !u.glob && nodule.path@.len() > 0 && u.path@.len() == nodule.path@.len()
            + 1 && texts(u.path@).take(nodule.path@.len() as int) == texts(nodule.path@)
            ==> use_target(u) == Some(nodule_path(nodule)),
        !u.glob && u.path@.len() <= 1 ==> use_target(u) is None,
{
    if u.path@.len() == nodule.path@.len() + 1 {
        assert(texts(u.path@.drop_last()) =~= texts(u.path@).take(nodule.path@.len() as int));
    }
}

/// What is picked from two lists is what is picked from the one and then from the other.
pub(crate) proof fn lemma_filter_map_concat<A, B>(a: Seq<A>, b: Seq<A>, pick: spec_fn(A) -> Option<B>)
    ensures
        (a + b).filter_map(pick) == a.filter_map(pick) + b.filter_map(pick),
    decreases b.len(),
{
    if b.len() == 0 {
        assert(a + b =~= a);
        assert(a.filter_map(pick) + b.filter_map(pick) =~= a.filter_map(pick));
    } else {
        assert((a + b).drop_last() =~= a + b.drop_last());
        assert((a + b).last() == b.last());
        lemma_filter_map_concat(a, b.drop_last(), pick);
        assert((a + b).filter_map(pick) =~= a.filter_map(pick) + b.filter_map(pick));
    }
}

/// The targets of a nodule's imports come in the order of its items, one for each import that
/// names a nodule; other items have none.
pub proof fn targets_come_item_by_item(n: Nodule, a: Nodule, b: Nodule)
    ensures
        n.items@ == a.items@ + b.items@ ==> use_targets(n) == use_targets(a) + use_targets(b),
        n.items@.len() == 0 ==> use_targets(n).len() == 0,
        n.items@.len() == 1 ==> match n.items@[0] {
            Item::Use(u) => use_targets(n) == (match use_target(u) {
                Some(target) => seq![target],
                None => seq![],
            }),
            _ => use_targets(n).len() == 0,
        },
{
    let pick = |item: Item| item_target(item);
    lemma_filter_map_concat(a.items@, b.items@, pick);
    if n.items@.len() == 1 {
        assert(n.items@.drop_last() =~= Seq::<Item>::empty());
        assert(n.items@.drop_last().filter_map(pick) =~= Seq::<Seq<char>>::empty());
    }
}

proof fn lemma_filter_map_holds<A, B>(items: Seq<A>, pick: spec_fn(A) -> Option<B>, x: B)
    ensures
        items.filter_map(pick).contains(x) <==> exists|t: int|
            0 <= t < items.len() && pick(#[trigger] items[t]) == Some(x),
    decreases items.len(),
{
    if items.len() > 0 {
        let shorter = items.drop_last();
        let all = items.filter_map(pick);
        let part = shorter.filter_map(pick);
        lemma_filter_map_holds(shorter, pick, x);
        if all.contains(x) {
            let at = choose|at: int| 0 <= at < all.len() && all[at] == x;
            if at < part.len() {
                assert(part[at] == x);
                assert(part.contains(x));
                let t = choose|t: int| 0 <= t < shorter.len() && pick(#[trigger] shorter[t]) == Some(x);
                assert(items[t] == shorter[t]);
            } else {
                assert(pick(items[items.len() - 1]) == Some(x));
            }
        }
        if exists|t: int| 0 <= t < items.len() && pick(#[trigger] items[t]) == Some(x) {
            let t = choose|t: int| 0 <= t < items.len() && pick(#[trigger] items[t]) == Some(x);
            if t < shorter.len() {
                assert(shorter[t] == items[t]);
                assert(part.contains(x));
                let at = choose|at: int| 0 <= at < part.len() && part[at] == x;
                assert(all[at] == x);
            } else {
                assert(all[part.len() as int] == x);
            }
        }
    }
}

proof fn lemma_last(nodules: Seq<Nodule>, i: int, k: int)
    requires
        0 <= i < nodules.len(),
        0 <= k < nodules.len(),
        nodule_path(nodules[k]) == nodule_path(nodules[i]),
        forall|m: int| k < m < nodules.len() ==> nodule_path(#[trigger] nodules[m]) != nodule_path(
            nodules[i],
        ),
    ensures
        last_declaration(nodule_paths(nodules), i) == k,
{
    let paths = nodule_paths(nodules);
    assert forall|m: int| k < m < paths.len() implies #[trigger] paths[m] != paths[i] by {
        assert(paths[m] == nodule_path(nodules[m]));
    }
    assert(paths[k] == nodule_path(nodules[k]) && paths[i] == nodule_path(nodules[i]));
    assert(is_last_declaration(paths, i, k));
    let other = last_declaration(paths, i);
    assert(is_last_declaration(paths, i, other));
    assert(paths[other] == paths[i] && paths[k] == paths[i]);
}

/// A path's edges within the batch are the targets of the imports of its last nodule, but for those
/// that are not in the batch and for the path itself: what is in the batch is there, what is not is
/// not, and where nothing is to be left out, all are there, in their order.
pub proof fn edges_are_the_targets_within_the_batch(
    nodules: Seq<Nodule>,
    i: int,
    k: int,
    target: Seq<char>,
)
    requires
        0 <= i < nodules.len(),
        0 <= k < nodules.len(),
        nodule_path(nodules[k]) == nodule_path(nodules[i]),
        forall|m: int| k < m < nodules.len() ==> nodule_path(#[trigger] nodules[m]) != nodule_path(
            nodules[i],
        ),
    ensures
        batch_targets(nodules, i).contains(target) <==> {
            &&& exists|t: int|
                0 <= t < nodules[k].items@.len() && (#[trigger] nodules[k].items@[t]) is Use
                    && use_target(nodules[k].items@[t]->Use_0) == Some(target)
            &&& exists|j: int| 0 <= j < nodules.len() && nodule_path(#[trigger] nodules[j]) == target
            &&& target != nodule_path(nodules[i])
        },
        (forall|at: int|
            0 <= at < use_targets(nodules[k]).len() ==> {
                &&& #[trigger] use_targets(nodules[k])[at] != nodule_path(nodules[i])
                &&& nodule_paths(nodules).contains(use_targets(nodules[k])[at])
            }) ==> batch_targets(nodules, i) == use_targets(nodules[k]),
{
    lemma_last(nodules, i, k);
    let paths = nodule_paths(nodules);
    let all = use_targets(nodules[k]);
    let own = |t: Seq<char>| paths.contains(t) && t != nodule_path(nodules[i]);
    assert(batch_targets(nodules, i) == all.filter(own));
    let items = nodules[k].items@;
    let pick = |item: Item| item_target(item);
    lemma_filter_map_holds(items, pick, target);
    if exists|t: int|
        0 <= t < items.len() && (#[trigger] items[t]) is Use && use_target(items[t]->Use_0) == Some(
            target,
        ) {
        let t = choose|t: int|
            0 <= t < items.len() && (#[trigger] items[t]) is Use && use_target(items[t]->Use_0)
                == Some(target);
        assert(pick(items[t]) == Some(target));
    }
    if all.contains(target) {
        let t = choose|t: int| 0 <= t < items.len() && pick(#[trigger] items[t]) == Some(target);
        assert(items[t] is Use && use_target(items[t]->Use_0) == Some(target));
    }
    if exists|j: int| 0 <= j < nodules.len() && nodule_path(#[trigger] nodules[j]) == target {
        let j = choose|j: int| 0 <= j < nodules.len() && nodule_path(#[trigger] nodules[j]) == target;
        assert(paths[j] == target);
    }
    if paths.contains(target) {
        let j = choose|j: int| 0 <= j < paths.len() && paths[j] == target;
        assert(nodule_path(nodules[j]) == target);
    }
    if all.filter(own).contains(target) {
        all.lemma_filter_contains_rev(own, target);
        let at = choose|at: int| 0 <= at < all.filter(own).len() && all.filter(own)[at] == target;
        all.lemma_filter_pred(own, at);
    }
    if all.contains(target) && own(target) {
        let at = choose|at: int| 0 <= at < all.len() && all[at] == target;
        all.lemma_filter_contains(own, at);
    }
    if forall|at: int|
        0 <= at < all.len() ==> {
            &&& #[trigger] all[at] != nodule_path(nodules[i])
            &&& paths.contains(all[at])
        } {
        lemma_filter_all(all, own);
    }
}

proof fn lemma_filter_all<A>(items: Seq<A>, pred: spec_fn(A) -> bool)
    requires
        forall|k: int| 0 <= k < items.len() ==> pred(#[trigger] items[k]),
    ensures
        items.filter(pred) == items,
    decreases items.len(),
{
    reveal(Seq::filter);
    if items.len() > 0 {
        lemma_filter_all(items.drop_last(), pred);
        assert(pred(items[items.len() - 1]));
        assert(items =~= items.drop_last().push(items.last()));
    }
}

/// A nodule rests on the nodules of its own path, and on those whose path an import of the last
/// nodule of its path names; on nothing else.
pub proof fn a_nodule_rests_on_what_its_path_imports(nodules: Seq<Nodule>, i: int, j: int, k: int)
    requires
        0 <= i < nodules.len(),
        0 <= j < nodules.len(),
        0 <= k < nodules.len(),
        nodule_path(nodules[k]) == nodule_path(nodules[i]),
        forall|m: int| k < m < nodules.len() ==> nodule_path(#[trigger] nodules[m]) != nodule_path(
            nodules[i],
        ),
    ensures
        use_graph(nodules).paths.len() == nodules.len(),
        use_graph(nodules).paths[i] == nodule_path(nodules[i]),
        use_graph(nodules).rests_on(i, j) <==> {
            ||| nodule_path(nodules[j]) == nodule_path(nodules[i])
            ||| exists|t: int|
                0 <= t < nodules[k].items@.len() && (#[trigger] nodules[k].items@[t]) is Use
                    && use_target(nodules[k].items@[t]->Use_0) == Some(nodule_path(nodules[j]))
        },
{
    edges_are_the_targets_within_the_batch(nodules, i, k, nodule_path(nodules[j]));
    assert(use_graph(nodules).paths[j] == nodule_path(nodules[j]));
}

/// Edges are read by path: from a nodule they lead to the nodules of its own path, and to those
/// whose path is among the edges at the last place with its path.
pub proof fn edges_are_read_by_path(
    edges: Seq<Vec<String>>,
    paths: Seq<String>,
    i: int,
    j: int,
    k: int,
)
    requires
        edges.len() == paths.len(),
        0 <= i < paths.len(),
        0 <= j < paths.len(),
        0 <= k < paths.len(),
        paths[k]@ == paths[i]@,
        forall|m: int| k < m < paths.len() ==> (#[trigger] paths[m])@ != paths[i]@,
    ensures
        graph_of(edges, paths).rests_on(i, j) <==> {
            ||| paths[j]@ == paths[i]@
            ||| exists|t: int| 0 <= t < edges[k]@.len() && (#[trigger] edges[k]@[t])@ == paths[j]@
        },
{
    let all = texts(paths);
    assert forall|m: int| k < m < all.len() implies #[trigger] all[m] != all[i] by {
        assert(all[m] == paths[m]@);
    }
    assert(all[i] == paths[i]@ && all[j] == paths[j]@ && all[k] == paths[k]@);
    assert(is_last_declaration(all, i, k));
    let other = last_declaration(all, i);
    assert(is_last_declaration(all, i, other));
    assert(all[other] == all[i]);
    assert(other == k);
    let targets = texts(edges[k]@);
    assert(graph_of(edges, paths).targets[i] == targets);
    if targets.contains(paths[j]@) {
        let t = choose|t: int| 0 <= t < targets.len() && targets[t] == paths[j]@;
        assert(edges[k]@[t]@ == paths[j]@);
    }
    if exists|t: int| 0 <= t < edges[k]@.len() && (#[trigger] edges[k]@[t])@ == paths[j]@ {
        let t = choose|t: int| 0 <= t < edges[k]@.len() && (#[trigger] edges[k]@[t])@ == paths[j]@;
        assert(targets[t] == paths[j]@);
    }
}

/// The paths of a batch are those of its nodules, in their places.
pub proof fn the_paths_of_a_batch_are_those_of_its_nodules(nodules: Seq<Nodule>, i: int)
    ensures
        nodule_paths(nodules).len() == nodules.len(),
        0 <= i < nodules.len() ==> nodule_paths(nodules)[i] == nodule_path(nodules[i]),
{
}

/// A path's edges keep the order and the number of the targets that they are: they are what is left
/// of the targets of the path's last nodule without those that name no other path of the batch.
pub proof fn edges_keep_the_order_of_the_targets(
    nodules: Seq<Nodule>,
    i: int,
    k: int,
    stays: spec_fn(Seq<char>) -> bool,
)
    requires
        0 <= i < nodules.len(),
        0 <= k < nodules.len(),
        nodule_path(nodules[k]) == nodule_path(nodules[i]),
        forall|m: int| k < m < nodules.len() ==> nodule_path(#[trigger] nodules[m]) != nodule_path(
            nodules[i],
        ),
        forall|t: Seq<char>| #[trigger]
            stays(t) <==> t != nodule_path(nodules[i]) && exists|j: int|
                0 <= j < nodules.len() && nodule_path(#[trigger] nodules[j]) == t,
    ensures
        batch_targets(nodules, i) == use_targets(nodules[k]).filter(stays),
{
    lemma_last(nodules, i, k);
    let paths = nodule_paths(nodules);
    let own = |t: Seq<char>| paths.contains(t) && t != nodule_path(nodules[i]);
    assert forall|t: Seq<char>| #[trigger] stays(t) == own(t) by {
        if paths.contains(t) {
            let j = choose|j: int| 0 <= j < paths.len() && paths[j] == t;
            assert(nodule_path(nodules[j]) == t);
        }
        if exists|j: int| 0 <= j < nodules.len() && nodule_path(#[trigger] nodules[j]) == t {
            let j = choose|j: int| 0 <= j < nodules.len() && nodule_path(#[trigger] nodules[j]) == t;
            assert(paths[j] == t);
        }
    }
    assert(stays =~= own);
}

} // verus!
