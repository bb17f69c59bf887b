//! What holds of the operations of a hypergraph field taken together.
use crate::fields::hedge::edge_of;
use crate::fields::hedge::EdgeOptions;
use crate::fields::lists::has_match;
use crate::fields::lists::lemma_avoiding_holds;
use crate::fields::lists::lemma_first_match_exists;
use crate::fields::node::NodeObject;
use crate::fields::state::list_at;
use crate::fields::state::NetworkState;
use vstd::prelude::*;

verus! {

/// The field after the objects of a list have been registered one after the
/// other.
pub open spec fn add_nodes(s: NetworkState, objects: Seq<NodeObject>) -> NetworkState
    decreases objects.len(),
{
    if objects.len() == 0 {
        s
    } else {
        add_nodes(s, objects.drop_last()).add_node(objects.last())
    }
}

/// Registrations give out consecutive ids and keep what was registered
/// before.
pub proof fn lemma_add_nodes(s: NetworkState, objects: Seq<NodeObject>, i: int)
    requires
        s.next_id + objects.len() <= u32::MAX,
        0 <= i < objects.len(),
    ensures
        add_nodes(s, objects).next_id == s.next_id + objects.len(),
        add_nodes(s, objects).id2nodes.contains_key((s.next_id + i) as u32),
        add_nodes(s, objects).id2nodes[(s.next_id + i) as u32] == objects[i],
    decreases objects.len(),
{
    let rest = objects.drop_last();
    if rest.len() > 0 {
        if i < rest.len() {
            lemma_add_nodes(s, rest, i);
        } else {
            lemma_add_nodes(s, rest, 0);
        }
    } else {
        assert(add_nodes(s, rest) == s);
    }
}

/// After any sequence of registrations and a publication, the id that a
/// registration returned leads to the object that was registered with it.
/// The ids are given in the order of the registrations, from the id that
/// was next before the first.
pub proof fn lemma_registered_objects_are_found(
    s: NetworkState,
    objects: Seq<NodeObject>,
    i: int,
)
    requires
        s.next_id + objects.len() <= u32::MAX,
        0 <= i < objects.len(),
    ensures
        add_nodes(s, objects.take(i)).next_id == s.next_id + i,
        add_nodes(s, objects).publish().get_object((s.next_id + i) as u32) == Some(objects[i]),
{
    lemma_add_nodes(s, objects, i);
    if i > 0 {
        lemma_add_nodes(s, objects.take(i), 0);
    } else {
        assert(add_nodes(s, objects.take(i)) == s);
    }
}

/// Objects and ids go together one to one: two registered objects with the
/// same id are the same object, and the id of a registered object leads to
/// an object with that object's key.
pub proof fn lemma_objects_and_ids_are_paired(s: NetworkState, one: u64, other: u64)
    requires
        s.wf(),
        s.nodes2id.contains_key(one),
        s.nodes2id.contains_key(other),
    ensures
        s.nodes2id[one] == s.nodes2id[other] ==> one == other,
        s.id2nodes.contains_key(s.nodes2id[one]),
        s.id2nodes[s.nodes2id[one]].key == one,
{
    assert(s.id2nodes[s.nodes2id[one]].key == one);
    assert(s.id2nodes[s.nodes2id[other]].key == other);
}

/// An id is given once: the id that a registration gives belongs to no
/// object at that moment, the next registration gives a greater one, and no
/// other operation moves the counter, so that the id of a removed object
/// does not come back.
pub proof fn lemma_ids_are_given_once(
    s: NetworkState,
    object: NodeObject,
    keys: Seq<u64>,
    options: EdgeOptions,
    key: u64,
)
    requires
        s.wf(),
        s.next_id < u32::MAX,
    ensures
        !s.id2nodes.contains_key(s.next_id),
        forall|k: u64| s.nodes2id.contains_key(k) ==> #[trigger] s.nodes2id[k] != s.next_id,
        s.add_node(object).next_id == s.next_id + 1,
        s.add_node(object).nodes2id[object.key] == s.next_id,
        s.remove_object(key).next_id == s.next_id,
        s.update_node(object).next_id == s.next_id,
        s.add_edge(keys, options).next_id == s.next_id,
        s.remove_edge(keys).next_id == s.next_id,
        s.remove_all_edges().next_id == s.next_id,
        s.publish().next_id == s.next_id,
{
    assert forall|k: u64| s.nodes2id.contains_key(k) implies #[trigger] s.nodes2id[k]
        != s.next_id by {
        assert(s.id2nodes.contains_key(s.nodes2id[k]));
    }
}

/// An edge added on some endpoints is found, once published, through any
/// list of endpoints that names the same nodes, whichever endpoint comes
/// first. What is found joins exactly these nodes.
pub proof fn lemma_added_edge_is_found(
    s: NetworkState,
    keys: Seq<u64>,
    options: EdgeOptions,
    query: Seq<u64>,
)
    requires
        s.resolves(keys),
        s.resolves(query),
        s.node_set(query) == s.node_set(keys),
    ensures
        s.add_edge(keys, options).publish().get_edge(query).is_some(),
        s.add_edge(keys, options).publish().get_edge(query).unwrap().nodes == s.node_set(keys),
{
    let e = edge_of(s.ids(keys), options);
    let t = s.add_edge(keys, options).publish();
    let first = s.ids(query)[0];
    assert(s.ids(query).contains(first));
    assert(e.nodes.contains(first));
    let list = t.redges[first];
    assert(list == list_at(s.edges, first).push(e));
    assert(list[list.len() - 1].nodes == s.node_set(keys));
    assert(has_match(list, s.node_set(query)));
    lemma_first_match_exists(list, s.node_set(query));
}

/// Once an object has been removed and the removal published, the edges of
/// the object are not to be had, and no published list holds an edge that
/// touches the node that the object had.
pub proof fn lemma_removed_object_leaves_no_edge(s: NetworkState, key: u64)
    requires
        s.nodes2id.contains_key(key),
    ensures
        s.remove_object(key).publish().get_edges(key).is_none(),
        forall|v: u32, i: int|
            #![trigger s.remove_object(key).publish().redges[v][i]]
            s.remove_object(key).publish().redges.contains_key(v) && 0 <= i < s.remove_object(
                key,
            ).publish().redges[v].len() ==> !s.remove_object(
                key,
            ).publish().redges[v][i].nodes.contains(s.nodes2id[key]),
{
    let t = s.remove_object(key).publish();
    assert forall|v: u32, i: int|
        #![trigger t.redges[v][i]]
        t.redges.contains_key(v) && 0 <= i < t.redges[v].len() implies !t.redges[v][i].nodes.contains(
        s.nodes2id[key],
    ) by {
        lemma_avoiding_holds(s.edges[v], s.nodes2id[key], i);
    }
}

/// What readers see does not change while edges are added and removed and
/// payloads replaced: it changes when the field is published, and then it
/// is the write generation of that moment.
pub proof fn lemma_readers_see_the_last_publication(
    s: NetworkState,
    keys: Seq<u64>,
    options: EdgeOptions,
    object: NodeObject,
    query: Seq<u64>,
    key: u64,
    id: u32,
)
    ensures
        s.add_edge(keys, options).get_edge(query) == s.get_edge(query),
        s.add_edge(keys, options).get_edges(key) == s.get_edges(key),
        s.remove_edge(keys).get_edge(query) == s.get_edge(query),
        s.remove_edge(keys).get_edges(key) == s.get_edges(key),
        s.remove_all_edges().get_edge(query) == s.get_edge(query),
        s.remove_all_edges().get_edges(key) == s.get_edges(key),
        s.update_node(object).get_object(id) == s.get_object(id),
        s.add_node(object).get_object(id) == s.get_object(id),
        s.remove_object(key).get_object(id) == s.get_object(id),
        s.publish().redges == s.edges,
        s.publish().rid2nodes == s.id2nodes,
{
    assert(s.add_edge(keys, options).ids(query) == s.ids(query));
    assert(s.remove_edge(keys).ids(query) == s.ids(query));
    assert(s.remove_all_edges().ids(query) == s.ids(query));
}

} // verus!
