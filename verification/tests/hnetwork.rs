use abm::fields::field::Field;
use abm::fields::hedge::EdgeOptions;
use abm::fields::hedge::HEdge;
use abm::fields::hnetwork::HNetwork;
use abm::fields::node::NodeObject;
use abm::scalar::Real32;
use std::collections::HashSet;

fn node(key: u64, payload: &str) -> NodeObject {
    NodeObject::new(key, payload.to_string())
}

fn ids(list: &[u32]) -> HashSet<u32> {
    list.iter().copied().collect()
}

fn weight(x: f32) -> Real32 {
    Real32::from_bits(x.to_bits())
}

/// A network with the nodes A (key 10), B (key 20) and C (key 30), which get
/// the ids 0, 1 and 2.
fn three_nodes() -> HNetwork {
    let mut net = HNetwork::new();
    assert_eq!(net.add_node(node(10, "A")), 0);
    assert_eq!(net.add_node(node(20, "B")), 1);
    assert_eq!(net.add_node(node(30, "C")), 2);
    net
}

#[test]
fn simple_edge_is_found_after_update() {
    let mut net = HNetwork::new();
    let a = net.add_node(node(10, "A"));
    let b = net.add_node(node(20, "B"));
    assert!(net.add_edge(&[node(10, "A"), node(20, "B")], EdgeOptions::Simple));
    net.update();
    let edge = net.get_edge(&[node(10, "A"), node(20, "B")]).unwrap();
    assert_eq!(edge.nodes, ids(&[a, b]));
    assert_eq!(edge.label, None);
    assert_eq!(edge.weight, None);
}

#[test]
fn edge_is_found_through_any_endpoint() {
    let mut net = three_nodes();
    assert!(net.add_edge(&[node(10, ""), node(20, ""), node(30, "")], EdgeOptions::Simple));
    net.update();
    let orders: [[u64; 3]; 6] =
        [[10, 20, 30], [10, 30, 20], [20, 10, 30], [20, 30, 10], [30, 10, 20], [30, 20, 10]];
    for order in orders {
        let query: Vec<NodeObject> = order.iter().map(|k| node(*k, "")).collect();
        let edge = net.get_edge(&query).unwrap();
        assert_eq!(edge.nodes, ids(&[0, 1, 2]));
    }
    for key in [10, 20, 30] {
        let list = net.get_edges(node(key, "")).unwrap();
        assert_eq!(list.len(), 1);
        assert_eq!(list[0].nodes, ids(&[0, 1, 2]));
    }
}

#[test]
fn edge_is_not_seen_before_update() {
    let mut net = three_nodes();
    net.update();
    assert!(net.add_edge(&[node(10, ""), node(20, "")], EdgeOptions::Simple));
    assert!(net.get_edge(&[node(10, ""), node(20, "")]).is_none());
    assert_eq!(net.get_edges(node(10, "")).unwrap().len(), 0);
    net.update();
    assert!(net.get_edge(&[node(10, ""), node(20, "")]).is_some());
    assert_eq!(net.get_edges(node(10, "")).unwrap().len(), 1);
}

#[test]
fn removal_is_not_seen_before_update() {
    let mut net = three_nodes();
    assert!(net.add_edge(&[node(10, ""), node(20, "")], EdgeOptions::Simple));
    net.update();
    assert!(net.remove_edge(&[node(10, ""), node(20, "")]).is_some());
    assert!(net.get_edge(&[node(10, ""), node(20, "")]).is_some());
    net.update();
    assert!(net.get_edge(&[node(10, ""), node(20, "")]).is_none());
}

#[test]
fn add_edge_fails_without_endpoints() {
    let mut net = three_nodes();
    assert!(!net.add_edge(&[], EdgeOptions::Simple));
    net.update();
    assert_eq!(net.get_edges(node(10, "")).unwrap().len(), 0);
}

#[test]
fn add_edge_fails_on_unregistered_endpoint() {
    let mut net = three_nodes();
    assert!(!net.add_edge(&[node(10, ""), node(99, "")], EdgeOptions::Simple));
    net.update();
    assert_eq!(net.get_edges(node(10, "")).unwrap().len(), 0);
    assert!(net.get_edge(&[node(10, ""), node(99, "")]).is_none());
}

#[test]
fn get_edge_is_absent_for_empty_unregistered_or_unknown() {
    let mut net = three_nodes();
    assert!(net.add_edge(&[node(10, ""), node(20, "")], EdgeOptions::Simple));
    net.update();
    assert!(net.get_edge(&[]).is_none());
    assert!(net.get_edge(&[node(10, ""), node(99, "")]).is_none());
    assert!(net.get_edge(&[node(10, ""), node(30, "")]).is_none());
    assert!(net.get_edge(&[node(10, "")]).is_none());
    assert!(net.get_edges(node(99, "")).is_none());
}

#[test]
fn options_give_label_and_weight() {
    let mut net = three_nodes();
    assert!(net.add_edge(&[node(10, ""), node(20, "")], EdgeOptions::Labeled("road".to_string())));
    assert!(net.add_edge(&[node(10, ""), node(30, "")], EdgeOptions::Weighted(weight(2.5))));
    assert!(net.add_edge(
        &[node(20, ""), node(30, "")],
        EdgeOptions::WeightedLabeled("rail".to_string(), weight(-1.0))
    ));
    net.update();
    let road = net.get_edge(&[node(10, ""), node(20, "")]).unwrap();
    assert_eq!(road.label, Some("road".to_string()));
    assert_eq!(road.weight, None);
    let plain = net.get_edge(&[node(10, ""), node(30, "")]).unwrap();
    assert_eq!(plain.label, None);
    assert_eq!(f32::from_bits(plain.weight.unwrap().to_bits()), 2.5);
    let rail = net.get_edge(&[node(20, ""), node(30, "")]).unwrap();
    assert_eq!(rail.label, Some("rail".to_string()));
    assert_eq!(f32::from_bits(rail.weight.unwrap().to_bits()), -1.0);
}

#[test]
fn hedge_new_forgets_order_and_repetition() {
    let one = HEdge::new(&[3, 1, 2, 1], EdgeOptions::Simple);
    let other = HEdge::new(&[1, 2, 3], EdgeOptions::Labeled("x".to_string()));
    assert_eq!(one.nodes, ids(&[1, 2, 3]));
    assert!(one == other);
    assert!(one.same_nodes(&other));
    let smaller = HEdge::new(&[1, 2], EdgeOptions::Simple);
    assert!(one != smaller);
    let shifted = HEdge::new(&[1, 2, 4], EdgeOptions::Simple);
    assert!(one != shifted);
    let empty = HEdge::new(&[], EdgeOptions::Weighted(weight(1.0)));
    assert!(empty.nodes.is_empty());
    assert_eq!(f32::from_bits(empty.weight.unwrap().to_bits()), 1.0);
}

#[test]
fn hedge_clone_keeps_everything() {
    let edge = HEdge::new(&[5, 6], EdgeOptions::WeightedLabeled("l".to_string(), weight(0.25)));
    let copy = edge.clone();
    assert_eq!(copy.nodes, ids(&[5, 6]));
    assert_eq!(copy.label, Some("l".to_string()));
    assert_eq!(copy.weight, Some(weight(0.25)));
    let mut ends = edge.endpoints();
    ends.sort();
    assert_eq!(ends, vec![5, 6]);
}

#[test]
fn repeated_endpoint_gets_one_copy() {
    let mut net = three_nodes();
    assert!(net.add_edge(&[node(10, ""), node(10, ""), node(20, "")], EdgeOptions::Simple));
    net.update();
    assert_eq!(net.get_edges(node(10, "")).unwrap().len(), 1);
    assert_eq!(net.get_edges(node(20, "")).unwrap().len(), 1);
    assert_eq!(net.get_edge(&[node(20, ""), node(10, "")]).unwrap().nodes, ids(&[0, 1]));
}

#[test]
fn remove_edge_takes_the_edge_from_every_endpoint() {
    let mut net = three_nodes();
    assert!(net.add_edge(
        &[node(10, ""), node(20, ""), node(30, "")],
        EdgeOptions::Labeled("t".to_string())
    ));
    assert!(net.add_edge(&[node(10, ""), node(20, "")], EdgeOptions::Simple));
    let removed = net.remove_edge(&[node(30, ""), node(10, ""), node(20, "")]).unwrap();
    assert_eq!(removed.nodes, ids(&[0, 1, 2]));
    assert_eq!(removed.label, Some("t".to_string()));
    net.update();
    assert!(net.get_edge(&[node(10, ""), node(20, ""), node(30, "")]).is_none());
    assert_eq!(net.get_edges(node(10, "")).unwrap().len(), 1);
    assert_eq!(net.get_edges(node(20, "")).unwrap().len(), 1);
    assert_eq!(net.get_edges(node(30, "")).unwrap().len(), 0);
    assert!(net.get_edge(&[node(10, ""), node(20, "")]).is_some());
}

#[test]
fn remove_edge_is_absent_for_empty_unregistered_or_unknown() {
    let mut net = three_nodes();
    assert!(net.add_edge(&[node(10, ""), node(20, "")], EdgeOptions::Simple));
    assert!(net.remove_edge(&[]).is_none());
    assert!(net.remove_edge(&[node(10, ""), node(99, "")]).is_none());
    assert!(net.remove_edge(&[node(10, ""), node(30, "")]).is_none());
    net.update();
    assert_eq!(net.get_edges(node(10, "")).unwrap().len(), 1);
}

#[test]
fn edges_on_the_same_nodes_shadow_each_other() {
    let mut net = three_nodes();
    let ends = [node(10, ""), node(20, "")];
    assert!(net.add_edge(&ends, EdgeOptions::Labeled("first".to_string())));
    assert!(net.add_edge(&ends, EdgeOptions::Labeled("second".to_string())));
    net.update();
    assert_eq!(net.get_edges(node(10, "")).unwrap().len(), 2);
    assert_eq!(net.get_edge(&ends).unwrap().label, Some("first".to_string()));
    assert_eq!(net.remove_edge(&ends).unwrap().label, Some("first".to_string()));
    net.update();
    assert_eq!(net.get_edge(&ends).unwrap().label, Some("second".to_string()));
    assert_eq!(net.get_edges(node(20, "")).unwrap().len(), 1);
    assert_eq!(net.remove_edge(&ends).unwrap().label, Some("second".to_string()));
    assert!(net.remove_edge(&ends).is_none());
}

#[test]
fn remove_object_purges_its_edges_everywhere() {
    let mut net = three_nodes();
    assert!(net.add_edge(&[node(10, ""), node(20, "")], EdgeOptions::Simple));
    assert!(net.add_edge(&[node(10, ""), node(20, ""), node(30, "")], EdgeOptions::Simple));
    assert!(net.add_edge(&[node(20, ""), node(30, "")], EdgeOptions::Labeled("keep".to_string())));
    assert!(net.add_edge(&[node(10, ""), node(20, "")], EdgeOptions::Labeled("twice".to_string())));
    net.update();
    assert!(net.remove_object(node(10, "")));
    net.update();
    assert!(net.get_edges(node(10, "")).is_none());
    for key in [20, 30] {
        let list = net.get_edges(node(key, "")).unwrap();
        assert_eq!(list.len(), 1);
        assert!(!list[0].nodes.contains(&0));
        assert_eq!(list[0].label, Some("keep".to_string()));
    }
    assert!(net.get_edge(&[node(20, ""), node(30, "")]).is_some());
}

#[test]
fn remove_object_purges_edges_that_were_never_published() {
    let mut net = three_nodes();
    net.update();
    assert!(net.add_edge(&[node(10, ""), node(20, "")], EdgeOptions::Simple));
    assert!(net.remove_object(node(10, "")));
    net.update();
    assert_eq!(net.get_edges(node(20, "")).unwrap().len(), 0);
}

#[test]
fn remove_object_fails_on_unregistered_object() {
    let mut net = three_nodes();
    assert!(!net.remove_object(node(99, "")));
    assert!(net.remove_object(node(10, "")));
    assert!(!net.remove_object(node(10, "")));
    assert!(!net.add_edge(&[node(10, ""), node(20, "")], EdgeOptions::Simple));
}

#[test]
fn registered_object_is_found_by_its_id() {
    let mut net = HNetwork::new();
    let mut given = Vec::new();
    for i in 0..20u64 {
        let id = net.add_node(node(100 + i, &format!("object {}", i)));
        given.push(id);
    }
    net.update();
    for i in 0..20u64 {
        let found = net.get_object(given[i as usize]).unwrap();
        assert_eq!(found.key, 100 + i);
        assert_eq!(found.payload, format!("object {}", i));
    }
    assert!(net.get_object(20).is_none());
}

#[test]
fn object_is_not_found_before_update() {
    let mut net = HNetwork::new();
    let id = net.add_node(node(1, "x"));
    assert!(net.get_object(id).is_none());
    net.update();
    assert_eq!(net.get_object(id).unwrap().payload, "x");
    assert!(net.remove_object(node(1, "")));
    assert!(net.get_object(id).is_some());
    net.update();
    assert!(net.get_object(id).is_none());
}

#[test]
fn ids_rise_and_are_never_given_twice() {
    let mut net = HNetwork::new();
    assert_eq!(net.next_id(), 0);
    assert_eq!(net.add_node(node(1, "")), 0);
    assert_eq!(net.add_node(node(2, "")), 1);
    assert!(net.remove_object(node(1, "")));
    assert_eq!(net.add_node(node(3, "")), 2);
    assert_eq!(net.add_node(node(1, "")), 3);
    assert_eq!(net.next_id(), 4);
    net.update();
    assert!(net.get_object(0).is_none());
    assert_eq!(net.get_object(1).unwrap().key, 2);
    assert_eq!(net.get_object(2).unwrap().key, 3);
    assert_eq!(net.get_object(3).unwrap().key, 1);
}

#[test]
fn update_node_replaces_the_payload_and_keeps_the_id() {
    let mut net = three_nodes();
    net.update();
    net.update_node(node(20, "B, later"));
    assert_eq!(net.get_object(1).unwrap().payload, "B");
    net.update();
    let found = net.get_object(1).unwrap();
    assert_eq!(found.key, 20);
    assert_eq!(found.payload, "B, later");
    assert_eq!(net.get_object(0).unwrap().payload, "A");
    assert_eq!(net.next_id(), 3);
}

#[test]
fn update_node_ignores_unregistered_object() {
    let mut net = three_nodes();
    net.update_node(node(99, "nobody"));
    net.update();
    assert_eq!(net.next_id(), 3);
    for id in 0..3 {
        assert_ne!(net.get_object(id).unwrap().payload, "nobody");
    }
    assert!(net.get_object(3).is_none());
}

#[test]
fn remove_all_edges_clears_the_write_generation() {
    let mut net = three_nodes();
    assert!(net.add_edge(&[node(10, ""), node(20, "")], EdgeOptions::Simple));
    net.update();
    net.remove_all_edges();
    assert!(net.get_edge(&[node(10, ""), node(20, "")]).is_some());
    net.update();
    assert!(net.get_edge(&[node(10, ""), node(20, "")]).is_none());
    assert!(net.get_edges(node(10, "")).is_none());
    assert!(net.remove_edge(&[node(10, ""), node(20, "")]).is_none());
    assert!(net.remove_object(node(30, "")));
    assert!(net.add_edge(&[node(10, ""), node(20, "")], EdgeOptions::Simple));
    net.update();
    assert_eq!(net.get_edges(node(10, "")).unwrap().len(), 1);
    assert_eq!(net.get_edges(node(20, "")).unwrap().len(), 1);
}

#[test]
fn lazy_update_publishes_as_update_does() {
    let mut net = three_nodes();
    assert!(net.add_edge(&[node(10, ""), node(20, "")], EdgeOptions::Simple));
    net.lazy_update();
    assert!(net.get_edge(&[node(20, ""), node(10, "")]).is_some());
    assert_eq!(net.get_object(2).unwrap().payload, "C");
}

#[test]
fn new_network_is_empty() {
    let net = HNetwork::default();
    assert_eq!(net.next_id(), 0);
    assert!(net.get_object(0).is_none());
    assert!(net.get_edges(node(1, "")).is_none());
    assert!(net.get_edge(&[node(1, "")]).is_none());
}

#[test]
fn published_lists_are_copies() {
    let mut net = three_nodes();
    assert!(net.add_edge(&[node(10, ""), node(20, "")], EdgeOptions::Simple));
    net.update();
    assert!(net.add_edge(&[node(10, ""), node(30, "")], EdgeOptions::Simple));
    let seen = net.get_edges(node(10, "")).unwrap();
    assert_eq!(seen.len(), 1);
    assert_eq!(seen[0].nodes, ids(&[0, 1]));
}
