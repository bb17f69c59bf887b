//! A network whose edges join any number of nodes, kept as a field: changes
//! go to a write generation, and readers see what was last published.
use crate::fields::field::Field;
use crate::fields::hedge::edge_view;
use crate::fields::hedge::EdgeOptions;
use crate::fields::hedge::HEdge;
use crate::fields::hedge::HEdgeView;
use crate::fields::hedge::lemma_push_to_set;
use crate::fields::hedge::views_of;
use crate::fields::lists::avoids;
use crate::fields::lists::find;
use crate::fields::lists::has_match;
use crate::fields::lists::is_first_match;
use crate::fields::lists::lemma_avoiding_after_remove;
use crate::fields::lists::lemma_avoiding_all;
use crate::fields::lists::lemma_first_match_unique;
use crate::fields::node::keys_of;
use crate::fields::node::NodeObject;
use crate::fields::state::detach;
use crate::fields::state::edges_wf;
use crate::fields::state::lemma_add_edge_wf;
use crate::fields::state::lemma_add_node_wf;
use crate::fields::state::lemma_detach_wf;
use crate::fields::state::lemma_find_agrees;
use crate::fields::state::lemma_publish_wf;
use crate::fields::state::lemma_remove_all_edges_wf;
use crate::fields::state::lemma_remove_object_wf;
use crate::fields::state::lemma_untouched;
use crate::fields::state::lemma_update_node_wf;
use crate::fields::state::list_at;
use crate::fields::state::NetworkState;
use crate::fields::state::with_edge_at;
use crate::fields::state::without_edge_at;
use crate::fields::state::without_node;
use crate::fields::tables::adjacency;
use crate::fields::tables::EdgeTable;
use crate::fields::tables::ids_by_key;
use crate::fields::tables::NodeIndex;
use crate::fields::tables::objects;
use crate::fields::tables::ObjectTable;
use vstd::prelude::*;

verus! {

/// A generalization of a network, to connect multiple nodes with one edge.
pub struct HNetwork {
    /// Write state of hyper-edges.
    edges: EdgeTable,
    /// Read state of hyper-edges.
    redges: EdgeTable,
    /// Write state to manage ids using nodes.
    nodes2id: NodeIndex,
    /// Write state to manage nodes using ids.
    id2nodes: ObjectTable,
    /// Read state to manage nodes using ids.
    rid2nodes: ObjectTable,
    /// The id of the next node.
    next_id: u32,
}

impl View for HNetwork {
    type V = NetworkState;

    closed spec fn view(&self) -> NetworkState {
        NetworkState {
            edges: adjacency(self.edges),
            redges: adjacency(self.redges),
            nodes2id: ids_by_key(self.nodes2id),
            id2nodes: objects(self.id2nodes),
            rid2nodes: objects(self.rid2nodes),
            next_id: self.next_id,
        }
    }
}

/// The place of the first edge of `list` that joins the nodes of `key`.
fn position(list: &Vec<HEdge>, key: &HEdge) -> (place: Option<usize>)
    ensures
        place.is_some() == has_match(views_of(list@), key@.nodes),
        place.is_some() ==> is_first_match(views_of(list@), key@.nodes, place.unwrap() as int),
{
    let mut i: usize = 0;
    while i < list.len()
        invariant
            i <= list.len(),
            forall|j: int| 0 <= j < i ==> (#[trigger] views_of(list@)[j]).nodes != key@.nodes,
        decreases list.len() - i,
    {
        if list[i].same_nodes(key) {
            assert(views_of(list@)[i as int].nodes == key@.nodes);
            return Some(i);
        }
        i += 1;
    }
    None
}

/// A copy of a list of edges.
fn copy_list(list: &Vec<HEdge>) -> (copy: Vec<HEdge>)
    ensures
        views_of(copy@) == views_of(list@),
{
    let mut copy: Vec<HEdge> = Vec::with_capacity(list.len());
    let mut i: usize = 0;
    while i < list.len()
        invariant
            i <= list.len(),
            copy@.len() == i,
            views_of(copy@) == views_of(list@).subrange(0, i as int),
        decreases list.len() - i,
    {
        let ghost before = copy@;
        let edge = list[i].clone();
        assert(edge@ == views_of(list@)[i as int]);
        copy.push(edge);
        assert forall|j: int| 0 <= j < copy@.len() implies views_of(copy@)[j] == views_of(
            list@,
        ).subrange(0, i + 1)[j] by {
            if j < i {
                assert(views_of(before)[j] == views_of(list@).subrange(0, i as int)[j]);
            }
        }
        assert(views_of(copy@) =~= views_of(list@).subrange(0, i + 1));
        i += 1;
    }
    assert(views_of(list@).subrange(0, list@.len() as int) =~= views_of(list@));
    copy
}

impl HNetwork {
    /// Whether the field is in a state that its operations can start from.
    /// `new` gives such a state and every operation keeps it.
    pub open spec fn wf(&self) -> bool {
        self@.wf()
    }

    /// Creates a new network, without nodes and edges.
    pub fn new() -> (network: HNetwork)
        ensures
            network@ == NetworkState::empty(),
            network.wf(),
    {
        HNetwork {
            edges: EdgeTable::new(),
            redges: EdgeTable::new(),
            nodes2id: NodeIndex::new(),
            id2nodes: ObjectTable::new(),
            rid2nodes: ObjectTable::new(),
            next_id: 0,
        }
    }

    /// The id that the next registered node gets.
    pub fn next_id(&self) -> (id: u32)
        ensures
            id == self@.next_id,
    {
        self.next_id
    }

    /// The ids of the given objects, if all of them are registered.
    fn resolve(&self, nodes: &[NodeObject]) -> (ids: Option<Vec<u32>>)
        ensures
            ids.is_some() == self@.registered(keys_of(nodes@)),
            ids.is_some() ==> ids.unwrap()@ == self@.ids(keys_of(nodes@)),
    {
        let mut ids: Vec<u32> = Vec::with_capacity(nodes.len());
        let mut i: usize = 0;
        while i < nodes.len()
            invariant
                i <= nodes.len(),
                ids@ == self@.ids(keys_of(nodes@)).subrange(0, i as int),
                forall|j: int|
                    0 <= j < i ==> self@.nodes2id.contains_key(#[trigger] keys_of(nodes@)[j]),
            decreases nodes.len() - i,
        {
            match self.nodes2id.get(nodes[i].key) {
                Some(val) => ids.push(val),
                None => {
                    assert(!self@.nodes2id.contains_key(keys_of(nodes@)[i as int]));
                    return None;
                },
            }
            assert(ids@ =~= self@.ids(keys_of(nodes@)).subrange(0, i + 1));
            i += 1;
        }
        assert(ids@ =~= self@.ids(keys_of(nodes@)));
        Some(ids)
    }

    /// Add a new hyper-edge. The edge is stored once for each node that it
    /// joins, at the end of that node's list. Fails, and changes nothing, if
    /// `nodes` is empty or one of the nodes is not registered.
    ///
    /// An edge on nodes that an earlier edge joins already is stored beside
    /// it: `get_edge` and `remove_edge` then see the earlier one, whatever
    /// the labels and weights of the two.
    pub fn add_edge(&mut self, nodes: &[NodeObject], edge_options: EdgeOptions) -> (added: bool)
        requires
            old(self).wf(),
        ensures
            added == old(self)@.resolves(keys_of(nodes@)),
            final(self)@ == old(self)@.add_edge(keys_of(nodes@), edge_options),
            final(self).wf(),
    {
        if nodes.is_empty() {
            return false;
        }
        let ids = match self.resolve(nodes) {
            Some(ids) => ids,
            None => return false,
        };
        let hedge = HEdge::new(ids.as_slice(), edge_options);
        let endpoints = hedge.endpoints();
        let ghost before = adjacency(self.edges);
        let mut i: usize = 0;
        while i < endpoints.len()
            invariant
                i <= endpoints.len(),
                endpoints@.no_duplicates(),
                adjacency(self.edges) == with_edge_at(
                    before,
                    hedge@,
                    endpoints@.subrange(0, i as int).to_set(),
                ),
                self.redges == old(self).redges,
                self.nodes2id == old(self).nodes2id,
                self.id2nodes == old(self).id2nodes,
                self.rid2nodes == old(self).rid2nodes,
                self.next_id == old(self).next_id,
            decreases endpoints.len() - i,
        {
            let id = endpoints[i];
            let ghost done = endpoints@.subrange(0, i as int);
            let ghost current = adjacency(self.edges);
            assert(!done.to_set().contains(id)) by {
                if done.contains(id) {
                    let j = choose|j: int| 0 <= j < done.len() && done[j] == id;
                    assert(endpoints@[j] == endpoints@[i as int]);
                }
            }
            match self.edges.get_mut(id) {
                Some(uedges) => {
                    uedges.push(hedge.clone());
                    assert(views_of(uedges@) =~= current[id].push(hedge@));
                },
                None => {
                    let vec = vec![hedge.clone()];
                    assert(views_of(vec@) =~= Seq::empty().push(hedge@));
                    self.edges.insert(id, vec);
                },
            }
            proof {
                assert(endpoints@.subrange(0, i + 1) =~= done.push(id));
                lemma_push_to_set(done, id);
                assert(adjacency(self.edges) =~= with_edge_at(
                    before,
                    hedge@,
                    done.to_set().insert(id),
                ));
            }
            i += 1;
        }
        proof {
            assert(endpoints@.subrange(0, endpoints@.len() as int) =~= endpoints@);
            lemma_add_edge_wf(old(self)@, keys_of(nodes@), edge_options);
        }
        true
    }

    /// Remove an edge passing an `HEdge` object: the first edge on the same
    /// nodes leaves the list of each of these nodes. Returns the edge that
    /// left, if any did.
    fn remove_edge_with_hedge(&mut self, to_remove: &HEdge) -> (removed: Option<HEdge>)
        requires
            old(self).wf(),
        ensures
            final(self)@ == detach(old(self)@, to_remove@.nodes),
            final(self).wf(),
            forall|v: u32|
                to_remove@.nodes.contains(v) ==> edge_view(removed) == find(
                    #[trigger] list_at(old(self)@.edges, v),
                    to_remove@.nodes,
                ),
            (forall|v: u32| !to_remove@.nodes.contains(v)) ==> removed.is_none(),
    {
        let mut removed: Option<HEdge> = None;
        let endpoints = to_remove.endpoints();
        let ghost before = adjacency(self.edges);
        let ghost nodes = to_remove@.nodes;
        let mut i: usize = 0;
        while i < endpoints.len()
            invariant
                i <= endpoints.len(),
                endpoints@.no_duplicates(),
                endpoints@.to_set() == nodes,
                nodes == to_remove@.nodes,
                edges_wf(before),
                adjacency(self.edges) == without_edge_at(
                    before,
                    nodes,
                    endpoints@.subrange(0, i as int).to_set(),
                ),
                i == 0 ==> removed.is_none(),
                forall|j: int|
                    0 <= j < i ==> edge_view(removed) == find(
                        list_at(before, #[trigger] endpoints@[j]),
                        nodes,
                    ),
                self.redges == old(self).redges,
                self.nodes2id == old(self).nodes2id,
                self.id2nodes == old(self).id2nodes,
                self.rid2nodes == old(self).rid2nodes,
                self.next_id == old(self).next_id,
            decreases endpoints.len() - i,
        {
            let id = endpoints[i];
            let ghost done = endpoints@.subrange(0, i as int);
            let ghost current = adjacency(self.edges);
            let ghost list = list_at(before, id);
            proof {
                assert(!done.to_set().contains(id)) by {
                    if done.contains(id) {
                        let j = choose|j: int| 0 <= j < done.len() && done[j] == id;
                        assert(endpoints@[j] == endpoints@[i as int]);
                    }
                }
                assert(nodes.contains(id)) by {
                    assert(endpoints@.contains(endpoints@[i as int]));
                }
                if i > 0 {
                    assert(endpoints@.contains(endpoints@[0]));
                    lemma_find_agrees(before, nodes, endpoints@[0], id);
                }
                assert(!has_match(Seq::<HEdgeView>::empty(), nodes));
            }
            match self.edges.get_mut(id) {
                Some(edges) => {
                    match position(edges, to_remove) {
                        Some(index) => {
                            proof {
                                lemma_first_match_unique(list, nodes, index as int);
                            }
                            let edge = edges.remove(index);
                            assert(views_of(edges@) =~= list.remove(index as int));
                            removed = Some(edge);
                        },
                        None => {},
                    }
                },
                None => {},
            }
            proof {
                assert(endpoints@.subrange(0, i + 1) =~= done.push(id));
                lemma_push_to_set(done, id);
                assert(adjacency(self.edges) =~= without_edge_at(
                    before,
                    nodes,
                    done.to_set().insert(id),
                ));
                assert forall|j: int| 0 <= j < i + 1 implies edge_view(removed) == find(
                    list_at(before, #[trigger] endpoints@[j]),
                    nodes,
                ) by {
                    assert(endpoints@.contains(endpoints@[j]));
                    lemma_find_agrees(before, nodes, endpoints@[j], id);
                }
            }
            i += 1;
        }
        proof {
            assert(endpoints@.subrange(0, endpoints@.len() as int) =~= endpoints@);
            lemma_detach_wf(old(self)@, nodes);
            assert forall|v: u32| nodes.contains(v) implies edge_view(removed) == find(
                #[trigger] list_at(before, v),
                nodes,
            ) by {
                let j = choose|j: int| 0 <= j < endpoints@.len() && endpoints@[j] == v;
                assert(edge_view(removed) == find(list_at(before, endpoints@[j]), nodes));
            }
            if forall|v: u32| !nodes.contains(v) {
                if endpoints.len() > 0 {
                    assert(endpoints@.contains(endpoints@[0]));
                }
            }
        }
        removed
    }

    /// Remove a specific edge using a list of nodes: the first edge on
    /// these nodes leaves the list of each of them. Returns the edge that
    /// left; none if `nodes` is empty, one of the nodes is not registered,
    /// or no such edge is stored.
    pub fn remove_edge(&mut self, nodes: &[NodeObject]) -> (removed: Option<HEdge>)
        requires
            old(self).wf(),
        ensures
            edge_view(removed) == old(self)@.removed_edge(keys_of(nodes@)),
            final(self)@ == old(self)@.remove_edge(keys_of(nodes@)),
            final(self).wf(),
    {
        if nodes.is_empty() {
            return None;
        }
        let ids = match self.resolve(nodes) {
            Some(ids) => ids,
            None => return None,
        };
        let to_remove: HEdge = HEdge::new(ids.as_slice(), EdgeOptions::Simple);
        proof {
            assert(ids@.contains(ids@[0]));
        }
        self.remove_edge_with_hedge(&to_remove)
    }

    /// Add a new node. The node gets the next id, which is returned.
    pub fn add_node(&mut self, u: NodeObject) -> (uid: u32)
        requires
            old(self).wf(),
            old(self)@.next_id < u32::MAX,
        ensures
            uid == old(self)@.next_id,
            final(self)@ == old(self)@.add_node(u),
            final(self).wf(),
    {
        let uid = self.next_id;
        self.nodes2id.insert(u.key, uid);
        self.id2nodes.insert(uid, u);
        match self.edges.get(uid) {
            Some(_edges) => {},
            None => {
                let vec: Vec<HEdge> = Vec::new();
                assert(views_of(vec@) =~= Seq::empty());
                self.edges.insert(uid, vec);
            },
        }
        self.next_id = uid + 1;
        proof {
            lemma_add_node_wf(old(self)@, u);
        }
        uid
    }

    /// Get a node from its id, as it was last published.
    pub fn get_object(&self, uid: u32) -> (object: Option<NodeObject>)
        ensures
            object == self@.get_object(uid),
    {
        match self.rid2nodes.get(uid) {
            Some(o) => Some(o.clone()),
            None => None,
        }
    }

    /// Get all edges of a node, as they were last published.
    pub fn get_edges(&self, u: NodeObject) -> (edges: Option<Vec<HEdge>>)
        ensures
            edges.is_some() == self@.get_edges(u.key).is_some(),
            edges.is_some() ==> views_of(edges.unwrap()@) == self@.get_edges(u.key).unwrap(),
    {
        let uid = match self.nodes2id.get(u.key) {
            Some(u) => u,
            None => return None,
        };
        match self.redges.get(uid) {
            Some(es) => Some(copy_list(es)),
            None => None,
        }
    }

    /// Get a hyper-edge from a list of nodes, as it was last published.
    pub fn get_edge(&self, nodes: &[NodeObject]) -> (edge: Option<HEdge>)
        ensures
            edge_view(edge) == self@.get_edge(keys_of(nodes@)),
    {
        if nodes.is_empty() {
            return None;
        }
        let ids = match self.resolve(nodes) {
            Some(ids) => ids,
            None => return None,
        };
        match self.redges.get(ids[0]) {
            Some(uedges) => {
                let edge: HEdge = HEdge::new(ids.as_slice(), EdgeOptions::Simple);
                match position(uedges, &edge) {
                    Some(i) => {
                        proof {
                            lemma_first_match_unique(views_of(uedges@), edge@.nodes, i as int);
                        }
                        Some(uedges[i].clone())
                    },
                    None => None,
                }
            },
            None => None,
        }
    }

    /// Remove all the edges of the network.
    pub fn remove_all_edges(&mut self)
        requires
            old(self).wf(),
        ensures
            final(self)@ == old(self)@.remove_all_edges(),
            final(self).wf(),
    {
        self.edges.clear();
        proof {
            lemma_remove_all_edges_wf(old(self)@);
        }
    }

    /// Remove a specific node and all the edges that involve it. Fails, and
    /// changes nothing, if the node is not registered.
    pub fn remove_object(&mut self, u: NodeObject) -> (removed: bool)
        requires
            old(self).wf(),
        ensures
            removed == old(self)@.nodes2id.contains_key(u.key),
            final(self)@ == old(self)@.remove_object(u.key),
            final(self).wf(),
    {
        let uid = match self.nodes2id.get(u.key) {
            Some(uid) => uid,
            None => return false,
        };
        let to_remove: Vec<HEdge> = match self.edges.get(uid) {
            Some(list) => copy_list(list),
            None => {
                let none: Vec<HEdge> = Vec::new();
                assert(views_of(none@) =~= Seq::empty());
                none
            },
        };
        let ghost before = adjacency(self.edges);
        let mut i: usize = 0;
        while i < to_remove.len()
            invariant
                i <= to_remove.len(),
                self.wf(),
                adjacency(self.edges).dom() == before.dom(),
                list_at(adjacency(self.edges), uid) == views_of(to_remove@).subrange(
                    i as int,
                    to_remove@.len() as int,
                ),
                forall|v: u32|
                    before.contains_key(v) ==> (#[trigger] adjacency(self.edges)[v]).filter(
                        avoids(uid),
                    ) == before[v].filter(avoids(uid)),
                self@.redges == old(self)@.redges,
                self@.nodes2id == old(self)@.nodes2id,
                self@.id2nodes == old(self)@.id2nodes,
                self@.rid2nodes == old(self)@.rid2nodes,
                self@.next_id == old(self)@.next_id,
            decreases to_remove.len() - i,
        {
            let ghost current = adjacency(self.edges);
            let ghost nodes = to_remove[i as int]@.nodes;
            proof {
                let rest = views_of(to_remove@).subrange(i as int, to_remove@.len() as int);
                assert(rest.len() == to_remove@.len() - i);
                assert(list_at(current, uid) == rest);
                assert(current.contains_key(uid));
                assert(current[uid][0] == rest[0]);
                assert(rest[0] == to_remove@[i as int]@);
                assert(self@.edges == current);
                assert(current[uid][0].nodes.contains(uid));
                assert(nodes.contains(uid));
                lemma_first_match_unique(current[uid], nodes, 0);
                assert(current[uid].remove(0) =~= views_of(to_remove@).subrange(
                    i + 1,
                    to_remove@.len() as int,
                ));
            }
            self.remove_edge_with_hedge(&to_remove[i]);
            proof {
                assert forall|v: u32| before.contains_key(v) implies (#[trigger] adjacency(
                    self.edges,
                )[v]).filter(avoids(uid)) == before[v].filter(avoids(uid)) by {
                    lemma_avoiding_after_remove(current[v], nodes, uid);
                }
            }
            i += 1;
        }
        proof {
            let current = adjacency(self.edges);
            assert(current =~= without_node(before, uid)) by {
                assert forall|v: u32| current.contains_key(v) implies current[v] == before[v].filter(
                    avoids(uid),
                ) by {
                    assert forall|j: int| 0 <= j < current[v].len() implies !(
                    #[trigger] current[v][j]).nodes.contains(uid) by {
                        lemma_untouched(current, uid, v, j);
                    }
                    lemma_avoiding_all(current[v], uid);
                }
            }
            lemma_remove_object_wf(old(self)@, u.key);
        }
        self.id2nodes.remove(uid);
        self.nodes2id.remove(u.key);
        true
    }

    /// Update a node: the object stored for its id is replaced by `u`.
    pub fn update_node(&mut self, u: NodeObject)
        requires
            old(self).wf(),
        ensures
            final(self)@ == old(self)@.update_node(u),
            final(self).wf(),
    {
        let uid = match self.nodes2id.get(u.key) {
            Some(u) => u,
            None => return ,
        };
        if let Some(value) = self.id2nodes.get_mut(uid) {
            *value = u
        }
        proof {
            lemma_update_node_wf(old(self)@, u);
        }
    }
}

impl Default for HNetwork {
    fn default() -> (network: Self)
        ensures
            network@ == NetworkState::empty(),
            network.wf(),
    {
        Self::new()
    }
}

impl Field for HNetwork {
    /// Publishes the write generation: readers see from now on the edges
    /// and objects as they are at this moment.
    fn update(&mut self)
        ensures
            final(self)@ == old(self)@.publish(),
            old(self).wf() ==> final(self).wf(),
    {
        self.redges = self.edges.duplicate();
        self.rid2nodes = self.id2nodes.duplicate();
        proof {
            if old(self).wf() {
                lemma_publish_wf(old(self)@);
            }
        }
    }

    /// Publishes as `update` does: this field defers nothing.
    fn lazy_update(&mut self)
        ensures
            final(self)@ == old(self)@.publish(),
            old(self).wf() ==> final(self).wf(),
    {
        self.redges = self.edges.duplicate();
        self.rid2nodes = self.id2nodes.duplicate();
        proof {
            if old(self).wf() {
                lemma_publish_wf(old(self)@);
            }
        }
    }
}

} // verus!
