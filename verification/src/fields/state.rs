//! The hypergraph field as a mathematical value, and its operations as
//! functions on that value.
use crate::fields::hedge::edge_of;
use crate::fields::hedge::EdgeOptions;
use crate::fields::hedge::HEdgeView;
use crate::fields::lists::avoids;
use crate::fields::lists::copies;
use crate::fields::lists::find;
use crate::fields::lists::first_match;
use crate::fields::lists::has_match;
use crate::fields::lists::joins;
use crate::fields::lists::lemma_avoiding_holds;
use crate::fields::lists::lemma_copies_after_push;
use crate::fields::lists::lemma_copies_after_remove;
use crate::fields::lists::lemma_copies_of_empty;
use crate::fields::lists::lemma_first_match_exists;
use crate::fields::lists::remove_first;
use crate::fields::node::NodeObject;
use vstd::prelude::*;

verus! {

/// The list stored under `id`; the empty list where nothing is stored.
pub open spec fn list_at(edges: Map<u32, Seq<HEdgeView>>, id: u32) -> Seq<HEdgeView> {
    if edges.contains_key(id) {
        edges[id]
    } else {
        Seq::empty()
    }
}

/// The lists after edge `e` has been added at the end of the list of each
/// node in `done`. Nodes without a list get one.
pub open spec fn with_edge_at(edges: Map<u32, Seq<HEdgeView>>, e: HEdgeView, done: Set<u32>) -> Map<
    u32,
    Seq<HEdgeView>,
> {
    Map::new(
        |v: u32| edges.contains_key(v) || done.contains(v),
        |v: u32|
            if done.contains(v) {
                list_at(edges, v).push(e)
            } else {
                edges[v]
            },
    )
}

/// The lists after edge `e` has been added at the end of the list of each of
/// its endpoints.
pub open spec fn with_edge(edges: Map<u32, Seq<HEdgeView>>, e: HEdgeView) -> Map<
    u32,
    Seq<HEdgeView>,
> {
    with_edge_at(edges, e, e.nodes)
}

/// The lists after the first edge on `nodes` has been taken out of the list
/// of each node in `done`.
pub open spec fn without_edge_at(
    edges: Map<u32, Seq<HEdgeView>>,
    nodes: Set<u32>,
    done: Set<u32>,
) -> Map<u32, Seq<HEdgeView>> {
    Map::new(
        |v: u32| edges.contains_key(v),
        |v: u32|
            if done.contains(v) {
                remove_first(edges[v], nodes)
            } else {
                edges[v]
            },
    )
}

/// The lists after the first edge on `nodes` has been taken out of the list
/// of each node in `nodes`.
pub open spec fn without_edge(edges: Map<u32, Seq<HEdgeView>>, nodes: Set<u32>) -> Map<
    u32,
    Seq<HEdgeView>,
> {
    without_edge_at(edges, nodes, nodes)
}

/// The lists after every edge that touches `id` has been taken out of every
/// list.
pub open spec fn without_node(edges: Map<u32, Seq<HEdgeView>>, id: u32) -> Map<
    u32,
    Seq<HEdgeView>,
> {
    Map::new(|v: u32| edges.contains_key(v), |v: u32| edges[v].filter(avoids(id)))
}

/// Every stored edge is stored under one of its own endpoints.
pub open spec fn stored_under_endpoints(edges: Map<u32, Seq<HEdgeView>>) -> bool {
    forall|v: u32, i: int|
        edges.contains_key(v) && 0 <= i < edges[v].len() ==> (#[trigger] edges[v][i]).nodes.contains(
            v,
        )
}

/// The copies of the edges on `nodes` in the list of node `v`.
pub open spec fn copies_at(edges: Map<u32, Seq<HEdgeView>>, v: u32, nodes: Set<u32>) -> Seq<
    HEdgeView,
> {
    copies(list_at(edges, v), nodes)
}

/// An edge is stored once for each of its endpoints: the lists of any two
/// endpoints of a set of nodes hold the same edges on that set, in the same
/// order.
pub open spec fn replicated(edges: Map<u32, Seq<HEdgeView>>) -> bool {
    forall|a: u32, b: u32, nodes: Set<u32>|
        #![trigger copies_at(edges, a, nodes), copies_at(edges, b, nodes)]
        nodes.contains(a) && nodes.contains(b) ==> copies_at(edges, a, nodes) == copies_at(
            edges,
            b,
            nodes,
        )
}

/// What holds of the adjacency lists of a field at all times.
pub open spec fn edges_wf(edges: Map<u32, Seq<HEdgeView>>) -> bool {
    stored_under_endpoints(edges) && replicated(edges)
}

/// Adding an edge keeps the lists well-formed.
pub proof fn lemma_with_edge_wf(edges: Map<u32, Seq<HEdgeView>>, e: HEdgeView)
    requires
        edges_wf(edges),
    ensures
        edges_wf(with_edge(edges, e)),
{
    let after = with_edge(edges, e);
    assert forall|v: u32, i: int| after.contains_key(v) && 0 <= i < after[v].len() implies (
    #[trigger] after[v][i]).nodes.contains(v) by {
        if e.nodes.contains(v) {
            if i < list_at(edges, v).len() {
                assert(after[v][i] == edges[v][i]);
            }
        } else {
            assert(after[v][i] == edges[v][i]);
        }
    }
    assert forall|a: u32, b: u32, nodes: Set<u32>|
        #![trigger copies_at(after, a, nodes), copies_at(after, b, nodes)]
        nodes.contains(a) && nodes.contains(b) implies copies_at(after, a, nodes) == copies_at(
        after,
        b,
        nodes,
    ) by {
        lemma_copies_after_push(list_at(edges, a), e, nodes);
        lemma_copies_after_push(list_at(edges, b), e, nodes);
        assert(copies_at(edges, a, nodes) == copies_at(edges, b, nodes));
    }
}

/// Removing an edge keeps the lists well-formed.
pub proof fn lemma_without_edge_wf(edges: Map<u32, Seq<HEdgeView>>, nodes: Set<u32>)
    requires
        edges_wf(edges),
    ensures
        edges_wf(without_edge(edges, nodes)),
{
    let after = without_edge(edges, nodes);
    assert forall|v: u32, i: int| after.contains_key(v) && 0 <= i < after[v].len() implies (
    #[trigger] after[v][i]).nodes.contains(v) by {
        if nodes.contains(v) && has_match(edges[v], nodes) {
            lemma_first_match_exists(edges[v], nodes);
            let k = first_match(edges[v], nodes);
            if i < k {
                assert(after[v][i] == edges[v][i]);
            } else {
                assert(after[v][i] == edges[v][i + 1]);
            }
        } else {
            assert(after[v][i] == edges[v][i]);
        }
    }
    assert forall|a: u32, b: u32, others: Set<u32>|
        #![trigger copies_at(after, a, others), copies_at(after, b, others)]
        others.contains(a) && others.contains(b) implies copies_at(after, a, others) == copies_at(
        after,
        b,
        others,
    ) by {
        lemma_list_after_remove(edges, nodes, a);
        lemma_list_after_remove(edges, nodes, b);
        lemma_copies_after_remove(list_at(edges, a), nodes, others);
        lemma_copies_after_remove(list_at(edges, b), nodes, others);
        assert(copies_at(edges, a, others) == copies_at(edges, b, others));
    }
}

/// The list of a node after an edge has been removed.
pub proof fn lemma_list_after_remove(edges: Map<u32, Seq<HEdgeView>>, nodes: Set<u32>, v: u32)
    ensures
        list_at(without_edge(edges, nodes), v) == if nodes.contains(v) {
            remove_first(list_at(edges, v), nodes)
        } else {
            list_at(edges, v)
        },
{
    if !edges.contains_key(v) {
        assert(!has_match(Seq::<HEdgeView>::empty(), nodes));
    }
}

/// A hypergraph field as a mathematical value.
///
/// `edges`, `nodes2id` and `id2nodes` are the write generation: what the
/// operations of a step change. `redges` and `rid2nodes` are the read
/// generation: what was published last, and what readers see.
pub struct NetworkState {
    /// Write generation: the edges of each node, by node id.
    pub edges: Map<u32, Seq<HEdgeView>>,
    /// Read generation: the edges of each node, by node id.
    pub redges: Map<u32, Seq<HEdgeView>>,
    /// The id of each registered object, by the object's key.
    pub nodes2id: Map<u64, u32>,
    /// Write generation: the object of each id.
    pub id2nodes: Map<u32, NodeObject>,
    /// Read generation: the object of each id.
    pub rid2nodes: Map<u32, NodeObject>,
    /// The id that the next registration gets. Ids are given in rising
    /// order and never given twice.
    pub next_id: u32,
}

impl NetworkState {
    /// The field that `HNetwork::new` makes: no node, no edge.
    pub open spec fn empty() -> NetworkState {
        NetworkState {
            edges: Map::empty(),
            redges: Map::empty(),
            nodes2id: Map::empty(),
            id2nodes: Map::empty(),
            rid2nodes: Map::empty(),
            next_id: 0,
        }
    }

    /// What holds of a field at all times: the id of a registered object
    /// leads back to that object; no id is ahead of the counter; the
    /// adjacency lists are well-formed; and every node that a stored edge
    /// touches has an object.
    pub open spec fn wf(self) -> bool {
        &&& forall|k: u64|
            self.nodes2id.contains_key(k) ==> self.id2nodes.contains_key(
                #[trigger] self.nodes2id[k],
            ) && self.id2nodes[self.nodes2id[k]].key == k
        &&& forall|id: u32| #[trigger] self.id2nodes.contains_key(id) ==> id < self.next_id
        &&& edges_wf(self.edges)
        &&& forall|v: u32, i: int, n: u32|
            self.edges.contains_key(v) && 0 <= i < self.edges[v].len() && (
            #[trigger] self.edges[v][i].nodes.contains(n)) ==> self.id2nodes.contains_key(n)
    }

    /// Whether every key is that of a registered object.
    pub open spec fn registered(self, keys: Seq<u64>) -> bool {
        forall|i: int| 0 <= i < keys.len() ==> self.nodes2id.contains_key(#[trigger] keys[i])
    }

    /// Whether a list of endpoints names an edge: it is not empty and every
    /// endpoint is registered.
    pub open spec fn resolves(self, keys: Seq<u64>) -> bool {
        keys.len() > 0 && self.registered(keys)
    }

    /// The ids of the objects with the given keys, in the order of the keys.
    pub open spec fn ids(self, keys: Seq<u64>) -> Seq<u32> {
        keys.map_values(|k: u64| self.nodes2id[k])
    }

    /// The set of nodes that a list of endpoints names.
    pub open spec fn node_set(self, keys: Seq<u64>) -> Set<u32> {
        self.ids(keys).to_set()
    }

    /// Registration of an object: it gets the next id, both mappings are
    /// stored, and the new node gets an empty list of edges.
    pub open spec fn add_node(self, object: NodeObject) -> NetworkState {
        NetworkState {
            edges: if self.edges.contains_key(self.next_id) {
                self.edges
            } else {
                self.edges.insert(self.next_id, Seq::empty())
            },
            nodes2id: self.nodes2id.insert(object.key, self.next_id),
            id2nodes: self.id2nodes.insert(self.next_id, object),
            next_id: (self.next_id + 1) as u32,
            ..self
        }
    }

    /// A new payload for a registered object. The id stays.
    pub open spec fn update_node(self, object: NodeObject) -> NetworkState {
        if self.nodes2id.contains_key(object.key) && self.id2nodes.contains_key(
            self.nodes2id[object.key],
        ) {
            NetworkState {
                id2nodes: self.id2nodes.insert(self.nodes2id[object.key], object),
                ..self
            }
        } else {
            self
        }
    }

    /// A new edge on the given endpoints: one copy at the end of the list of
    /// each node that the edge touches. Nothing changes if the endpoints do
    /// not resolve.
    pub open spec fn add_edge(self, keys: Seq<u64>, options: EdgeOptions) -> NetworkState {
        if self.resolves(keys) {
            NetworkState { edges: with_edge(self.edges, edge_of(self.ids(keys), options)), ..self }
        } else {
            self
        }
    }

    /// The edge that `remove_edge` takes out: the first edge on the named
    /// set of nodes in the list of the first endpoint.
    pub open spec fn removed_edge(self, keys: Seq<u64>) -> Option<HEdgeView> {
        if self.resolves(keys) {
            find(list_at(self.edges, self.ids(keys)[0]), self.node_set(keys))
        } else {
            None
        }
    }

    /// Removal of an edge: the first edge on the named set of nodes leaves
    /// the list of each node of the set.
    pub open spec fn remove_edge(self, keys: Seq<u64>) -> NetworkState {
        if self.resolves(keys) {
            NetworkState { edges: without_edge(self.edges, self.node_set(keys)), ..self }
        } else {
            self
        }
    }

    /// Removal of every edge: no node keeps a list.
    pub open spec fn remove_all_edges(self) -> NetworkState {
        NetworkState { edges: Map::empty(), ..self }
    }

    /// Removal of an object: every edge that touches its node leaves every
    /// list, and the object leaves both mappings. Nothing changes if the
    /// object is not registered.
    pub open spec fn remove_object(self, key: u64) -> NetworkState {
        if self.nodes2id.contains_key(key) {
            NetworkState {
                edges: without_node(self.edges, self.nodes2id[key]),
                nodes2id: self.nodes2id.remove(key),
                id2nodes: self.id2nodes.remove(self.nodes2id[key]),
                ..self
            }
        } else {
            self
        }
    }

    /// Publication: the read generation becomes a copy of the write
    /// generation.
    pub open spec fn publish(self) -> NetworkState {
        NetworkState { redges: self.edges, rid2nodes: self.id2nodes, ..self }
    }

    /// What a reader finds for a list of endpoints: the first edge on the
    /// named set of nodes in the published list of the first endpoint.
    pub open spec fn get_edge(self, keys: Seq<u64>) -> Option<HEdgeView> {
        if self.resolves(keys) && self.redges.contains_key(self.ids(keys)[0]) {
            find(self.redges[self.ids(keys)[0]], self.node_set(keys))
        } else {
            None
        }
    }

    /// What a reader finds for a node: its published list of edges.
    pub open spec fn get_edges(self, key: u64) -> Option<Seq<HEdgeView>> {
        if self.nodes2id.contains_key(key) && self.redges.contains_key(self.nodes2id[key]) {
            Some(self.redges[self.nodes2id[key]])
        } else {
            None
        }
    }

    /// What a reader finds for an id: the published object.
    pub open spec fn get_object(self, id: u32) -> Option<NodeObject> {
        if self.rid2nodes.contains_key(id) {
            Some(self.rid2nodes[id])
        } else {
            None
        }
    }
}

/// Registration keeps a field well-formed.
pub proof fn lemma_add_node_wf(s: NetworkState, object: NodeObject)
    requires
        s.wf(),
        s.next_id < u32::MAX,
    ensures
        s.add_node(object).wf(),
{
    let t = s.add_node(object);
    assert forall|k: u64| t.nodes2id.contains_key(k) implies t.id2nodes.contains_key(
        #[trigger] t.nodes2id[k],
    ) && t.id2nodes[t.nodes2id[k]].key == k by {
        if k != object.key {
            assert(s.id2nodes.contains_key(s.nodes2id[k]));
        }
    }
    assert forall|a: u32, b: u32, nodes: Set<u32>|
        #![trigger copies_at(t.edges, a, nodes), copies_at(t.edges, b, nodes)]
        nodes.contains(a) && nodes.contains(b) implies copies_at(t.edges, a, nodes) == copies_at(
        t.edges,
        b,
        nodes,
    ) by {
        assert(list_at(t.edges, a) == list_at(s.edges, a));
        assert(list_at(t.edges, b) == list_at(s.edges, b));
        assert(copies_at(s.edges, a, nodes) == copies_at(s.edges, b, nodes));
    }
    assert forall|v: u32, i: int, n: u32|
        t.edges.contains_key(v) && 0 <= i < t.edges[v].len() && (
        #[trigger] t.edges[v][i].nodes.contains(n)) implies t.id2nodes.contains_key(n) by {
        assert(s.edges[v][i].nodes.contains(n));
    }
}

/// A new payload keeps a field well-formed.
pub proof fn lemma_update_node_wf(s: NetworkState, object: NodeObject)
    requires
        s.wf(),
    ensures
        s.update_node(object).wf(),
{
    let t = s.update_node(object);
    assert forall|k: u64| t.nodes2id.contains_key(k) implies t.id2nodes.contains_key(
        #[trigger] t.nodes2id[k],
    ) && t.id2nodes[t.nodes2id[k]].key == k by {
        assert(s.id2nodes.contains_key(s.nodes2id[k]));
        assert(s.id2nodes[s.nodes2id[k]].key == k);
        if s.nodes2id.contains_key(object.key) {
            assert(s.id2nodes[s.nodes2id[object.key]].key == object.key);
        }
    }
    assert forall|v: u32, i: int, n: u32|
        t.edges.contains_key(v) && 0 <= i < t.edges[v].len() && (
        #[trigger] t.edges[v][i].nodes.contains(n)) implies t.id2nodes.contains_key(n) by {
        assert(s.edges[v][i].nodes.contains(n));
    }
}

/// A field without edges is well-formed if it was before.
pub proof fn lemma_remove_all_edges_wf(s: NetworkState)
    requires
        s.wf(),
    ensures
        s.remove_all_edges().wf(),
{
    let t = s.remove_all_edges();
    assert forall|a: u32, b: u32, nodes: Set<u32>|
        #![trigger copies_at(t.edges, a, nodes), copies_at(t.edges, b, nodes)]
        nodes.contains(a) && nodes.contains(b) implies copies_at(t.edges, a, nodes) == copies_at(
        t.edges,
        b,
        nodes,
    ) by {
        assert(list_at(t.edges, a) == list_at(t.edges, b));
    }
}

/// A new edge keeps a field well-formed.
pub proof fn lemma_add_edge_wf(s: NetworkState, keys: Seq<u64>, options: EdgeOptions)
    requires
        s.wf(),
    ensures
        s.add_edge(keys, options).wf(),
{
    if s.resolves(keys) {
        let e = edge_of(s.ids(keys), options);
        let t = s.add_edge(keys, options);
        lemma_with_edge_wf(s.edges, e);
        assert forall|v: u32, i: int, n: u32|
            t.edges.contains_key(v) && 0 <= i < t.edges[v].len() && (
            #[trigger] t.edges[v][i].nodes.contains(n)) implies t.id2nodes.contains_key(n) by {
            if e.nodes.contains(v) && i == list_at(s.edges, v).len() {
                let j = choose|j: int| 0 <= j < s.ids(keys).len() && s.ids(keys)[j] == n;
                assert(s.nodes2id.contains_key(keys[j]));
                assert(s.id2nodes.contains_key(s.nodes2id[keys[j]]));
            } else {
                assert(t.edges[v][i] == s.edges[v][i]);
                assert(s.edges[v][i].nodes.contains(n));
            }
        }
    }
}

/// The field after the first edge on `nodes` has left the list of each node
/// of `nodes`.
pub open spec fn detach(s: NetworkState, nodes: Set<u32>) -> NetworkState {
    NetworkState { edges: without_edge(s.edges, nodes), ..s }
}

/// Taking an edge out keeps a field well-formed.
pub proof fn lemma_detach_wf(s: NetworkState, nodes: Set<u32>)
    requires
        s.wf(),
    ensures
        detach(s, nodes).wf(),
{
    let t = detach(s, nodes);
    lemma_without_edge_wf(s.edges, nodes);
    assert forall|v: u32, i: int, n: u32|
        t.edges.contains_key(v) && 0 <= i < t.edges[v].len() && (
        #[trigger] t.edges[v][i].nodes.contains(n)) implies t.id2nodes.contains_key(n) by {
        if nodes.contains(v) && has_match(s.edges[v], nodes) {
            lemma_first_match_exists(s.edges[v], nodes);
            let k = first_match(s.edges[v], nodes);
            if i < k {
                assert(t.edges[v][i] == s.edges[v][i]);
                assert(s.edges[v][i].nodes.contains(n));
            } else {
                assert(t.edges[v][i] == s.edges[v][i + 1]);
                assert(s.edges[v][i + 1].nodes.contains(n));
            }
        } else {
            assert(t.edges[v][i] == s.edges[v][i]);
            assert(s.edges[v][i].nodes.contains(n));
        }
    }
}

/// Removing an edge keeps a field well-formed.
pub proof fn lemma_remove_edge_wf(s: NetworkState, keys: Seq<u64>)
    requires
        s.wf(),
    ensures
        s.remove_edge(keys).wf(),
{
    if s.resolves(keys) {
        lemma_detach_wf(s, s.node_set(keys));
    }
}

/// In well-formed lists, the first edge on a set of nodes is the same in the
/// list of each node of the set.
pub proof fn lemma_find_agrees(edges: Map<u32, Seq<HEdgeView>>, nodes: Set<u32>, a: u32, b: u32)
    requires
        replicated(edges),
        nodes.contains(a),
        nodes.contains(b),
    ensures
        find(list_at(edges, a), nodes) == find(list_at(edges, b), nodes),
{
    assert(copies_at(edges, a, nodes) == copies_at(edges, b, nodes));
    lemma_copies_after_remove(list_at(edges, a), nodes, nodes);
    lemma_copies_after_remove(list_at(edges, b), nodes, nodes);
}

/// In well-formed lists, a node whose own list is empty is touched by no
/// stored edge.
pub proof fn lemma_untouched(edges: Map<u32, Seq<HEdgeView>>, id: u32, v: u32, i: int)
    requires
        edges_wf(edges),
        list_at(edges, id).len() == 0,
        edges.contains_key(v),
        0 <= i < edges[v].len(),
    ensures
        !edges[v][i].nodes.contains(id),
{
    let nodes = edges[v][i].nodes;
    if nodes.contains(id) {
        assert(nodes.contains(v));
        assert(copies_at(edges, v, nodes) == copies_at(edges, id, nodes));
        lemma_copies_of_empty(nodes);
        assert(list_at(edges, id) =~= Seq::empty());
        assert(joins(nodes)(edges[v][i]));
        edges[v].lemma_filter_contains(joins(nodes), i);
    }
}

/// Publication keeps a field well-formed.
pub proof fn lemma_publish_wf(s: NetworkState)
    requires
        s.wf(),
    ensures
        s.publish().wf(),
{
    let t = s.publish();
    assert(t.edges == s.edges);
    assert forall|k: u64| t.nodes2id.contains_key(k) implies t.id2nodes.contains_key(
        #[trigger] t.nodes2id[k],
    ) && t.id2nodes[t.nodes2id[k]].key == k by {
        assert(s.id2nodes.contains_key(s.nodes2id[k]));
    }
    assert forall|v: u32, i: int, n: u32|
        t.edges.contains_key(v) && 0 <= i < t.edges[v].len() && (
        #[trigger] t.edges[v][i].nodes.contains(n)) implies t.id2nodes.contains_key(n) by {
        assert(s.edges[v][i].nodes.contains(n));
    }
}

/// Removing an object keeps a field well-formed.
pub proof fn lemma_remove_object_wf(s: NetworkState, key: u64)
    requires
        s.wf(),
    ensures
        s.remove_object(key).wf(),
{
    if s.nodes2id.contains_key(key) {
        let id = s.nodes2id[key];
        let t = s.remove_object(key);
        assert forall|k: u64| t.nodes2id.contains_key(k) implies t.id2nodes.contains_key(
            #[trigger] t.nodes2id[k],
        ) && t.id2nodes[t.nodes2id[k]].key == k by {
            assert(s.id2nodes[s.nodes2id[k]].key == k);
            assert(s.id2nodes[s.nodes2id[key]].key == key);
        }
        assert forall|v: u32, i: int| t.edges.contains_key(v) && 0 <= i < t.edges[v].len() implies (
        #[trigger] t.edges[v][i]).nodes.contains(v) by {
            lemma_avoiding_holds(s.edges[v], id, i);
            let j = choose|j: int| 0 <= j < s.edges[v].len() && s.edges[v][j] == t.edges[v][i];
            assert(s.edges[v][j].nodes.contains(v));
        }
        assert forall|a: u32, b: u32, nodes: Set<u32>|
            #![trigger copies_at(t.edges, a, nodes), copies_at(t.edges, b, nodes)]
            nodes.contains(a) && nodes.contains(b) implies copies_at(t.edges, a, nodes)
            == copies_at(t.edges, b, nodes) by {
            lemma_copies_without_node(s.edges, id, a, nodes);
            lemma_copies_without_node(s.edges, id, b, nodes);
            assert(copies_at(s.edges, a, nodes) == copies_at(s.edges, b, nodes));
        }
        assert forall|v: u32, i: int, n: u32|
            t.edges.contains_key(v) && 0 <= i < t.edges[v].len() && (
            #[trigger] t.edges[v][i].nodes.contains(n)) implies t.id2nodes.contains_key(n) by {
            lemma_avoiding_holds(s.edges[v], id, i);
            let j = choose|j: int| 0 <= j < s.edges[v].len() && s.edges[v][j] == t.edges[v][i];
            assert(s.edges[v][j].nodes.contains(n));
        }
    }
}

/// What taking a node's edges out of every list does to the copies of the
/// edges on `nodes`: none is left where the node is one of `nodes`, and
/// nothing changes where it is not.
pub proof fn lemma_copies_without_node(
    edges: Map<u32, Seq<HEdgeView>>,
    id: u32,
    v: u32,
    nodes: Set<u32>,
)
    ensures
        copies_at(without_node(edges, id), v, nodes) == if nodes.contains(id) {
            Seq::empty()
        } else {
            copies_at(edges, v, nodes)
        },
{
    lemma_copies_of_empty(nodes);
    if edges.contains_key(v) {
        lemma_copies_of_avoiding(edges[v], id, nodes);
    }
}

/// The copies of the edges on `nodes` among the edges of a list that avoid
/// a node.
pub proof fn lemma_copies_of_avoiding(list: Seq<HEdgeView>, id: u32, nodes: Set<u32>)
    ensures
        copies(list.filter(avoids(id)), nodes) == if nodes.contains(id) {
            Seq::empty()
        } else {
            copies(list, nodes)
        },
    decreases list.len(),
{
    reveal(Seq::filter);
    if list.len() == 0 {
        lemma_copies_of_empty(nodes);
        assert(list.filter(avoids(id)) =~= Seq::empty());
        assert(list =~= Seq::empty());
    } else {
        let rest = list.drop_last();
        let last = list.last();
        lemma_copies_of_avoiding(rest, id, nodes);
        assert(list.filter(avoids(id)) == if avoids(id)(last) {
            rest.filter(avoids(id)).push(last)
        } else {
            rest.filter(avoids(id))
        });
        assert(copies(list, nodes) == if joins(nodes)(last) {
            copies(rest, nodes).push(last)
        } else {
            copies(rest, nodes)
        });
        if avoids(id)(last) {
            lemma_copies_after_push(rest.filter(avoids(id)), last, nodes);
        }
    }
}

} // verus!
