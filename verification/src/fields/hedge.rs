//! Hyperedges: an edge that joins any number of nodes.
use crate::scalar::Real32;
use std::collections::HashSet;
use vstd::prelude::*;
use vstd::seq_lib::seq_to_set_is_finite;
use vstd::set_lib::lemma_subset_equality;
use vstd::std_specs::cmp::PartialEqSpecImpl;
use vstd::std_specs::hash::group_hash_axioms;
use vstd::std_specs::hash::spec_hash_keys_iter;
use vstd::std_specs::iter::IteratorSpec;

verus! {

broadcast use group_hash_axioms;

/// What an edge carries besides its endpoints.
pub enum EdgeOptions {
    /// A simple edge, without additional information.
    Simple,
    /// An edge with a label.
    Labeled(String),
    /// A weighted edge.
    Weighted(Real32),
    /// A weighted edge with a label.
    WeightedLabeled(String, Real32),
}

impl EdgeOptions {
    /// The label that the options give an edge, if any.
    pub open spec fn label(self) -> Option<Seq<char>> {
        match self {
            EdgeOptions::Simple => None,
            EdgeOptions::Labeled(l) => Some(l@),
            EdgeOptions::Weighted(_) => None,
            EdgeOptions::WeightedLabeled(l, _) => Some(l@),
        }
    }

    /// The weight that the options give an edge, if any.
    pub open spec fn weight(self) -> Option<Real32> {
        match self {
            EdgeOptions::Simple => None,
            EdgeOptions::Labeled(_) => None,
            EdgeOptions::Weighted(w) => Some(w),
            EdgeOptions::WeightedLabeled(_, w) => Some(w),
        }
    }
}

impl Clone for EdgeOptions {
    fn clone(&self) -> (r: Self)
        ensures
            r == *self,
    {
        match self {
            EdgeOptions::Simple => EdgeOptions::Simple,
            EdgeOptions::Labeled(l) => EdgeOptions::Labeled(l.clone()),
            EdgeOptions::Weighted(w) => EdgeOptions::Weighted(*w),
            EdgeOptions::WeightedLabeled(l, w) => EdgeOptions::WeightedLabeled(l.clone(), *w),
        }
    }
}

/// A hyperedge as a mathematical value.
pub struct HEdgeView {
    /// The ids of the nodes that the edge joins.
    pub nodes: Set<u32>,
    pub label: Option<Seq<char>>,
    pub weight: Option<Real32>,
}

/// The edge that `HEdge::new` builds from a list of ids and options.
pub open spec fn edge_of(ids: Seq<u32>, options: EdgeOptions) -> HEdgeView {
    HEdgeView { nodes: ids.to_set(), label: options.label(), weight: options.weight() }
}

/// A hyperedge that can be stored in an `HNetwork`.
#[derive(Debug)]
pub struct HEdge {
    /// The ids of the nodes that the edge joins. A set: an id given twice
    /// counts once, and the order in which ids were given is forgotten.
    pub nodes: HashSet<u32>,
    pub label: Option<String>,
    pub weight: Option<Real32>,
}

impl View for HEdge {
    type V = HEdgeView;

    open spec fn view(&self) -> HEdgeView {
        HEdgeView {
            nodes: self.nodes@,
            label: match self.label {
                Some(l) => Some(l@),
                None => None,
            },
            weight: self.weight,
        }
    }
}

/// The view of an edge that may be absent.
pub open spec fn edge_view(edge: Option<HEdge>) -> Option<HEdgeView> {
    match edge {
        Some(e) => Some(e@),
        None => None,
    }
}

/// The views of a list of edges, in the order of the list.
pub open spec fn views_of(list: Seq<HEdge>) -> Seq<HEdgeView> {
    list.map_values(|e: HEdge| e@)
}

impl HEdge {
    /// Creates a hyperedge over the given node ids.
    pub fn new(list_nodes: &[u32], edge_options: EdgeOptions) -> (hedge: HEdge)
        ensures
            hedge@ == edge_of(list_nodes@, edge_options),
    {
        let max_len = list_nodes.len();
        let mut hedge = match edge_options {
            EdgeOptions::Simple => HEdge {
                nodes: HashSet::with_capacity(max_len),
                label: None,
                weight: None,
            },
            EdgeOptions::Labeled(l) => HEdge {
                nodes: HashSet::with_capacity(max_len),
                label: Some(l),
                weight: None,
            },
            EdgeOptions::Weighted(w) => HEdge {
                nodes: HashSet::with_capacity(max_len),
                label: None,
                weight: Some(w),
            },
            EdgeOptions::WeightedLabeled(l, w) => HEdge {
                nodes: HashSet::with_capacity(max_len),
                label: Some(l),
                weight: Some(w),
            },
        };
        let mut i: usize = 0;
        while i < max_len
            invariant
                i <= max_len,
                max_len == list_nodes@.len(),
                hedge@.label == edge_options.label(),
                hedge@.weight == edge_options.weight(),
                hedge.nodes@ =~= list_nodes@.subrange(0, i as int).to_set(),
            decreases max_len - i,
        {
            hedge.nodes.insert(list_nodes[i]);
            proof {
                let before = list_nodes@.subrange(0, i as int);
                assert(list_nodes@.subrange(0, i + 1) =~= before.push(list_nodes@[i as int]));
                lemma_push_to_set(before, list_nodes@[i as int]);
            }
            i += 1;
        }
        proof {
            assert(list_nodes@.subrange(0, max_len as int) =~= list_nodes@);
        }
        hedge
    }

    /// The ids of the nodes that the edge joins, each once, in no
    /// particular order.
    pub fn endpoints(&self) -> (ids: Vec<u32>)
        ensures
            ids@.to_set() == self@.nodes,
            ids@.no_duplicates(),
    {
        let mut ids: Vec<u32> = Vec::with_capacity(self.nodes.len());
        for n in it: self.nodes.iter()
            invariant
                it.seq().unref().to_set() == self.nodes@,
                it.seq().no_duplicates(),
                ids@ == it.seq().unref().subrange(0, it.index()),
                it.index() == it.seq().len() ==> ids@.to_set() == self.nodes@
                    && ids@.no_duplicates(),
        {
            ids.push(*n);
            assert(ids@ == it.seq().unref().subrange(0, it.index() + 1));
            assert(it.index() + 1 == it.seq().len() ==> ids@.to_set() == self.nodes@
                && ids@.no_duplicates()) by {
                if it.index() + 1 == it.seq().len() {
                    assert(ids@ =~= it.seq().unref());
                    assert forall|i: int, j: int|
                        0 <= i < ids@.len() && 0 <= j < ids@.len() && i != j implies ids@[i]
                        != ids@[j] by {
                        assert(it.seq()[i] != it.seq()[j]);
                    }
                }
            }
        }
        ids
    }

    /// Tells whether two edges join the same set of nodes. This is what makes
    /// two edges equal; label and weight do not count.
    pub fn same_nodes(&self, other: &HEdge) -> (r: bool)
        ensures
            r == (self@.nodes == other@.nodes),
    {
        proof {
            lemma_node_set_finite(&self.nodes);
            lemma_node_set_finite(&other.nodes);
        }
        if self.nodes.len() != other.nodes.len() {
            return false;
        }
        let mut all_found = true;
        for n in it: self.nodes.iter()
            invariant
                it.seq().unref().to_set() == self.nodes@,
                all_found <==> (forall|j: int|
                    0 <= j < it.index() ==> other.nodes@.contains(*#[trigger] it.seq()[j])),
                it.index() == it.seq().len() ==> (all_found <==> self.nodes@.subset_of(
                    other.nodes@,
                )),
        {
            if !other.nodes.contains(n) {
                all_found = false;
            }
            assert(it.index() + 1 == it.seq().len() ==> (all_found <==> self.nodes@.subset_of(
                other.nodes@,
            ))) by {
                if it.index() + 1 == it.seq().len() {
                    if all_found {
                        assert forall|x: u32| self.nodes@.contains(x) implies other.nodes@.contains(
                            x,
                        ) by {
                            assert(it.seq().unref().to_set().contains(x));
                            let j = choose|j: int|
                                0 <= j < it.seq().unref().len() && it.seq().unref()[j] == x;
                            assert(other.nodes@.contains(*it.seq()[j]));
                        }
                    } else {
                        let j = choose|j: int|
                            0 <= j <= it.index() && !other.nodes@.contains(*#[trigger] it.seq()[j]);
                        assert(it.seq().unref()[j] == *it.seq()[j]);
                        assert(it.seq().unref().to_set().contains(it.seq().unref()[j]));
                    }
                }
            }
        }
        proof {
            if all_found {
                lemma_subset_equality(self.nodes@, other.nodes@);
            }
        }
        all_found
    }
}

impl Clone for HEdge {
    /// A copy with the same nodes, label and weight.
    fn clone(&self) -> (r: Self)
        ensures
            r@ == self@,
    {
        let mut nodes: HashSet<u32> = HashSet::with_capacity(self.nodes.len());
        for n in it: self.nodes.iter()
            invariant
                it.seq().unref().to_set() == self.nodes@,
                nodes@ =~= it.seq().unref().subrange(0, it.index()).to_set(),
                it.index() == it.seq().len() ==> nodes@ == self.nodes@,
        {
            nodes.insert(*n);
            assert(nodes@ =~= it.seq().unref().subrange(0, it.index() + 1).to_set()) by {
                assert(it.seq().unref().subrange(0, it.index() + 1) =~= it.seq().unref().subrange(
                    0,
                    it.index(),
                ).push(*n));
                lemma_push_to_set(it.seq().unref().subrange(0, it.index()), *n);
            }
            assert(it.index() + 1 == it.seq().len() ==> nodes@ == self.nodes@) by {
                if it.index() + 1 == it.seq().len() {
                    assert(it.seq().unref().subrange(0, it.index() + 1) =~= it.seq().unref());
                }
            }
        }
        let label = match &self.label {
            Some(l) => Some(l.clone()),
            None => None,
        };
        HEdge { nodes, label, weight: self.weight }
    }
}

impl PartialEq for HEdge {
    /// Two hyperedges are equal if their sets of nodes are equal.
    fn eq(&self, other: &Self) -> (r: bool) {
        self.same_nodes(other)
    }
}

impl PartialEqSpecImpl for HEdge {
    open spec fn obeys_eq_spec() -> bool {
        true
    }

    open spec fn eq_spec(&self, other: &Self) -> bool {
        self@.nodes == other@.nodes
    }
}

impl Eq for HEdge {

}

/// The set of a sequence with one more item is the set of the sequence with
/// that item added.
pub proof fn lemma_push_to_set(s: Seq<u32>, n: u32)
    ensures
        s.push(n).to_set() =~= s.to_set().insert(n),
{
    assert forall|x: u32| s.push(n).to_set().contains(x) <==> s.to_set().insert(n).contains(
        x,
    ) by {
        if s.contains(x) {
            let j = choose|j: int| 0 <= j < s.len() && s[j] == x;
            assert(s.push(n)[j] == x);
        }
        if x == n {
            assert(s.push(n)[s.len() as int] == x);
        }
    }
}

/// The ids held by a hash set are finitely many, as many as its length says.
pub proof fn lemma_node_set_finite(nodes: &HashSet<u32>)
    ensures
        nodes@.finite(),
        nodes@.len() == nodes.len(),
{
    assert(spec_hash_keys_iter(nodes).remaining().unref().to_set() == nodes@);
    seq_to_set_is_finite(spec_hash_keys_iter(nodes).remaining().unref());
}

} // verus!
