//! Adjacency lists as sequences: finding an edge by its nodes, and what
//! adding and removing edges does to the copies that a list holds.
use crate::fields::hedge::HEdgeView;
use vstd::prelude::*;

verus! {

/// The test "this edge joins exactly these nodes".
pub open spec fn joins(nodes: Set<u32>) -> spec_fn(HEdgeView) -> bool {
    |e: HEdgeView| e.nodes == nodes
}

/// The test "this edge does not touch this node".
pub open spec fn avoids(id: u32) -> spec_fn(HEdgeView) -> bool {
    |e: HEdgeView| !e.nodes.contains(id)
}

/// The edges of a list that join exactly `nodes`, in the order of the list.
pub open spec fn copies(list: Seq<HEdgeView>, nodes: Set<u32>) -> Seq<HEdgeView> {
    list.filter(joins(nodes))
}

/// Whether some edge of the list joins exactly `nodes`.
pub open spec fn has_match(list: Seq<HEdgeView>, nodes: Set<u32>) -> bool {
    exists|i: int| 0 <= i < list.len() && (#[trigger] list[i]).nodes == nodes
}

/// Whether `i` is the place of the first edge of the list that joins exactly
/// `nodes`.
pub open spec fn is_first_match(list: Seq<HEdgeView>, nodes: Set<u32>, i: int) -> bool {
    &&& 0 <= i < list.len()
    &&& list[i].nodes == nodes
    &&& forall|j: int| 0 <= j < i ==> (#[trigger] list[j]).nodes != nodes
}

/// The place of the first edge of the list that joins exactly `nodes`, where
/// there is one.
pub open spec fn first_match(list: Seq<HEdgeView>, nodes: Set<u32>) -> int {
    choose|i: int| is_first_match(list, nodes, i)
}

/// The first edge of the list that joins exactly `nodes`, if there is one.
pub open spec fn find(list: Seq<HEdgeView>, nodes: Set<u32>) -> Option<HEdgeView> {
    if has_match(list, nodes) {
        Some(list[first_match(list, nodes)])
    } else {
        None
    }
}

/// The list without its first edge that joins exactly `nodes`; the list
/// itself if it has no such edge.
pub open spec fn remove_first(list: Seq<HEdgeView>, nodes: Set<u32>) -> Seq<HEdgeView> {
    if has_match(list, nodes) {
        list.remove(first_match(list, nodes))
    } else {
        list
    }
}

/// A list with a match has a first match.
pub proof fn lemma_first_match_exists(list: Seq<HEdgeView>, nodes: Set<u32>)
    requires
        has_match(list, nodes),
    ensures
        is_first_match(list, nodes, first_match(list, nodes)),
{
    let w = choose|i: int| 0 <= i < list.len() && (#[trigger] list[i]).nodes == nodes;
    lemma_least_match(list, nodes, w);
}

proof fn lemma_least_match(list: Seq<HEdgeView>, nodes: Set<u32>, w: int)
    requires
        0 <= w < list.len(),
        list[w].nodes == nodes,
    ensures
        exists|i: int| is_first_match(list, nodes, i),
    decreases w,
{
    if exists|j: int| 0 <= j < w && (#[trigger] list[j]).nodes == nodes {
        let j = choose|j: int| 0 <= j < w && (#[trigger] list[j]).nodes == nodes;
        lemma_least_match(list, nodes, j);
    } else {
        assert(is_first_match(list, nodes, w));
    }
}

/// The first match is the only place that passes for one.
pub proof fn lemma_first_match_unique(list: Seq<HEdgeView>, nodes: Set<u32>, i: int)
    requires
        is_first_match(list, nodes, i),
    ensures
        has_match(list, nodes),
        first_match(list, nodes) == i,
        find(list, nodes) == Some(list[i]),
        remove_first(list, nodes) == list.remove(i),
{
    let k = first_match(list, nodes);
    assert(is_first_match(list, nodes, k));
    if k < i {
        assert(list[k].nodes != nodes);
    }
    if i < k {
        assert(list[i].nodes != nodes);
    }
}

/// A list has a match exactly if it holds a copy.
pub proof fn lemma_match_iff_copy(list: Seq<HEdgeView>, nodes: Set<u32>)
    ensures
        has_match(list, nodes) <==> copies(list, nodes).len() > 0,
{
    let p = joins(nodes);
    if has_match(list, nodes) {
        let i = choose|i: int| 0 <= i < list.len() && (#[trigger] list[i]).nodes == nodes;
        assert(p(list[i]));
        list.lemma_filter_contains(p, i);
    }
    if list.filter(p).len() > 0 {
        list.lemma_filter_pred(p, 0);
        let e = list.filter(p)[0];
        assert(list.filter(p).contains(e));
        list.lemma_filter_contains_rev(p, e);
        let i = choose|i: int| 0 <= i < list.len() && list[i] == e;
        assert(list[i].nodes == nodes);
    }
}

/// What taking one item out of a list does to the items that pass a test:
/// nothing, if the item does not pass; the first of them goes, if the item
/// is the first that passes.
pub proof fn lemma_filter_remove(list: Seq<HEdgeView>, p: spec_fn(HEdgeView) -> bool, i: int)
    requires
        0 <= i < list.len(),
    ensures
        !p(list[i]) ==> list.remove(i).filter(p) == list.filter(p),
        p(list[i]) && (forall|j: int| 0 <= j < i ==> !p(#[trigger] list[j])) ==> {
            &&& list.filter(p).len() > 0
            &&& list.filter(p)[0] == list[i]
            &&& list.remove(i).filter(p) == list.filter(p).drop_first()
        },
{
    let head = list.subrange(0, i);
    let tail = list.subrange(i + 1, list.len() as int);
    let one = Seq::<HEdgeView>::empty().push(list[i]);
    assert(list =~= head + one + tail);
    assert(list.remove(i) =~= head + tail);
    Seq::filter_distributes_over_add(head, one, p);
    Seq::filter_distributes_over_add(head + one, tail, p);
    Seq::filter_distributes_over_add(head, tail, p);
    Seq::<HEdgeView>::empty().lemma_filter_push(list[i], p);
    assert(Seq::<HEdgeView>::empty().filter(p) =~= Seq::empty()) by {
        Seq::<HEdgeView>::empty().lemma_filter_len(p);
    }
    if !p(list[i]) {
        assert(one.filter(p) =~= Seq::empty());
        assert(head.filter(p) + one.filter(p) =~= head.filter(p));
    } else if forall|j: int| 0 <= j < i ==> !p(#[trigger] list[j]) {
        assert(one.filter(p) =~= one);
        if head.filter(p).len() > 0 {
            head.lemma_filter_pred(p, 0);
            let e = head.filter(p)[0];
            assert(head.filter(p).contains(e));
            head.lemma_filter_contains_rev(p, e);
            let j = choose|j: int| 0 <= j < head.len() && head[j] == e;
            assert(!p(list[j]));
        }
        assert(head.filter(p) =~= Seq::empty());
        assert(list.filter(p) =~= one + tail.filter(p));
        assert(list.remove(i).filter(p) =~= tail.filter(p));
        assert((one + tail.filter(p)).drop_first() =~= tail.filter(p));
    }
}

/// What removing the first edge on `nodes` does to the copies of an edge on
/// `others`: the first copy goes where the two sets are the same, and nothing
/// changes where they differ.
pub proof fn lemma_copies_after_remove(list: Seq<HEdgeView>, nodes: Set<u32>, others: Set<u32>)
    ensures
        others != nodes ==> copies(remove_first(list, nodes), others) == copies(list, others),
        has_match(list, nodes) ==> {
            &&& copies(list, nodes).len() > 0
            &&& find(list, nodes) == Some(copies(list, nodes)[0])
            &&& copies(remove_first(list, nodes), nodes) == copies(list, nodes).drop_first()
        },
        !has_match(list, nodes) ==> {
            &&& copies(list, nodes).len() == 0
            &&& find(list, nodes).is_none()
            &&& remove_first(list, nodes) == list
        },
{
    lemma_match_iff_copy(list, nodes);
    if has_match(list, nodes) {
        lemma_first_match_exists(list, nodes);
        let i = first_match(list, nodes);
        lemma_filter_remove(list, joins(nodes), i);
        lemma_filter_remove(list, joins(others), i);
        assert forall|j: int| 0 <= j < i implies !joins(nodes)(#[trigger] list[j]) by {
            assert(list[j].nodes != nodes);
        }
    }
}

/// What adding an edge at the end does to the copies of an edge on `nodes`.
pub proof fn lemma_copies_after_push(list: Seq<HEdgeView>, e: HEdgeView, nodes: Set<u32>)
    ensures
        copies(list.push(e), nodes) == if e.nodes == nodes {
            copies(list, nodes).push(e)
        } else {
            copies(list, nodes)
        },
{
    list.lemma_filter_push(e, joins(nodes));
}

/// An empty list holds no copies.
pub proof fn lemma_copies_of_empty(nodes: Set<u32>)
    ensures
        copies(Seq::empty(), nodes) == Seq::<HEdgeView>::empty(),
{
    Seq::<HEdgeView>::empty().lemma_filter_len(joins(nodes));
    assert(copies(Seq::empty(), nodes) =~= Seq::<HEdgeView>::empty());
}

/// Removing the first edge on `nodes` leaves the edges that avoid `id` as
/// they were, if `id` is one of `nodes`.
pub proof fn lemma_avoiding_after_remove(list: Seq<HEdgeView>, nodes: Set<u32>, id: u32)
    requires
        nodes.contains(id),
    ensures
        remove_first(list, nodes).filter(avoids(id)) == list.filter(avoids(id)),
{
    if has_match(list, nodes) {
        lemma_first_match_exists(list, nodes);
        lemma_filter_remove(list, avoids(id), first_match(list, nodes));
    }
}

/// A list in which every edge avoids `id` is what is left of itself when the
/// edges that touch `id` are taken out.
pub proof fn lemma_avoiding_all(list: Seq<HEdgeView>, id: u32)
    requires
        forall|i: int| 0 <= i < list.len() ==> !(#[trigger] list[i]).nodes.contains(id),
    ensures
        list.filter(avoids(id)) == list,
    decreases list.len(),
{
    reveal(Seq::filter);
    if list.len() > 0 {
        lemma_avoiding_all(list.drop_last(), id);
        assert(avoids(id)(list.last()));
        assert(list.drop_last().push(list.last()) =~= list);
    } else {
        assert(list.filter(avoids(id)) =~= list);
    }
}

/// Every edge that is left when the edges touching `id` are taken out
/// avoids `id`, and was in the list.
pub proof fn lemma_avoiding_holds(list: Seq<HEdgeView>, id: u32, i: int)
    requires
        0 <= i < list.filter(avoids(id)).len(),
    ensures
        !list.filter(avoids(id))[i].nodes.contains(id),
        list.contains(list.filter(avoids(id))[i]),
{
    list.lemma_filter_pred(avoids(id), i);
    let e = list.filter(avoids(id))[i];
    assert(list.filter(avoids(id)).contains(e));
    list.lemma_filter_contains_rev(avoids(id), e);
}

} // verus!
