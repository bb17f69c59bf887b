//! The domain objects that a field registers as nodes.
use vstd::prelude::*;

verus! {

/// A domain object: what a simulation registers as a node of a network.
///
/// The `key` is the object's identity: two objects with the same key are the
/// same node, whatever their payloads. The `payload` is the object's state in
/// serialized form; the field stores it and hands it back, and never looks
/// inside.
#[derive(Debug)]
pub struct NodeObject {
    pub key: u64,
    pub payload: String,
}

impl NodeObject {
    /// An object with the given identity and state.
    pub fn new(key: u64, payload: String) -> (r: NodeObject)
        ensures
            r.key == key,
            r.payload == payload,
    {
        NodeObject { key, payload }
    }
}

impl Clone for NodeObject {
    fn clone(&self) -> (r: Self)
        ensures
            r == *self,
    {
        NodeObject { key: self.key, payload: self.payload.clone() }
    }
}

/// The keys of a list of objects, in the order of the list.
pub open spec fn keys_of(objects: Seq<NodeObject>) -> Seq<u64> {
    objects.map_values(|o: NodeObject| o.key)
}

} // verus!
