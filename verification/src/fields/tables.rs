//! The hash tables under the hypergraph field.
//!
//! The tables are `hashbrown` maps. What a table holds is named by a
//! specification function, and each operation used on a table is stated here
//! against that name. These statements are taken on trust from the map's
//! documented behaviour; everything built on them is proved.
use crate::fields::hedge::HEdge;
use crate::fields::hedge::HEdgeView;
use crate::fields::hedge::views_of;
use crate::fields::node::NodeObject;
use hashbrown::HashMap;
use vstd::prelude::*;

verus! {

/// Adjacency lists by node id: a `hashbrown::HashMap<u32, Vec<HEdge>>`.
#[verifier::external_body]
pub struct EdgeTable {
    inner: HashMap<u32, Vec<HEdge>>,
}

/// The lists that an edge table holds, each as the sequence of its edges.
pub uninterp spec fn adjacency(table: EdgeTable) -> Map<u32, Seq<HEdgeView>>;

impl EdgeTable {
    /// `HashMap::new`: a table that holds nothing.
    #[verifier::external_body]
    pub(crate) fn new() -> (table: EdgeTable)
        ensures
            adjacency(table) =~= Map::empty(),
    {
        EdgeTable { inner: HashMap::new() }
    }

    /// `HashMap::get`: the list stored under `id`, if there is one.
    #[verifier::external_body]
    pub(crate) fn get(&self, id: u32) -> (found: Option<&Vec<HEdge>>)
        ensures
            found.is_some() == adjacency(*self).contains_key(id),
            found.is_some() ==> views_of(found.unwrap()@) == adjacency(*self)[id],
    {
        self.inner.get(&id)
    }

    /// `HashMap::get_mut`: the list stored under `id`, if there is one, for
    /// changing in place. What the caller leaves in the list is what the
    /// table holds under `id` afterwards; nothing else in the table changes.
    #[verifier::external_body]
    pub(crate) fn get_mut(&mut self, id: u32) -> (found: Option<&mut Vec<HEdge>>)
        ensures
            found.is_some() == adjacency(*old(self)).contains_key(id),
            found.is_none() ==> adjacency(*final(self)) == adjacency(*old(self)),
            found.is_some() ==> views_of(found.unwrap()@) == adjacency(*old(self))[id],
            found.is_some() ==> adjacency(*final(self)) == adjacency(*old(self)).insert(
                id,
                views_of(final(found.unwrap())@),
            ),
    {
        self.inner.get_mut(&id)
    }

    /// `HashMap::insert`: afterwards the table holds `list` under `id`, in
    /// place of what it held there before, and is otherwise unchanged.
    #[verifier::external_body]
    pub(crate) fn insert(&mut self, id: u32, list: Vec<HEdge>)
        ensures
            adjacency(*final(self)) == adjacency(*old(self)).insert(id, views_of(list@)),
    {
        self.inner.insert(id, list);
    }

    /// `HashMap::clear`: afterwards the table holds nothing.
    #[verifier::external_body]
    pub(crate) fn clear(&mut self)
        ensures
            adjacency(*final(self)) =~= Map::empty(),
    {
        self.inner.clear();
    }

    /// `HashMap::clone`: a table that holds, under the same ids, copies of
    /// the same lists. The copies are made by `HEdge::clone`, which keeps
    /// nodes, label and weight.
    #[verifier::external_body]
    pub(crate) fn duplicate(&self) -> (copy: EdgeTable)
        ensures
            adjacency(copy) == adjacency(*self),
    {
        EdgeTable { inner: self.inner.clone() }
    }
}

/// Objects by node id: a `hashbrown::HashMap<u32, NodeObject>`.
#[verifier::external_body]
pub struct ObjectTable {
    inner: HashMap<u32, NodeObject>,
}

/// The objects that an object table holds.
pub uninterp spec fn objects(table: ObjectTable) -> Map<u32, NodeObject>;

impl ObjectTable {
    /// `HashMap::new`: a table that holds nothing.
    #[verifier::external_body]
    pub(crate) fn new() -> (table: ObjectTable)
        ensures
            objects(table) =~= Map::empty(),
    {
        ObjectTable { inner: HashMap::new() }
    }

    /// `HashMap::get`: the object stored under `id`, if there is one.
    #[verifier::external_body]
    pub(crate) fn get(&self, id: u32) -> (found: Option<&NodeObject>)
        ensures
            found.is_some() == objects(*self).contains_key(id),
            found.is_some() ==> *found.unwrap() == objects(*self)[id],
    {
        self.inner.get(&id)
    }

    /// `HashMap::get_mut`: the object stored under `id`, if there is one, for
    /// changing in place. What the caller leaves there is what the table
    /// holds under `id` afterwards; nothing else in the table changes.
    #[verifier::external_body]
    pub(crate) fn get_mut(&mut self, id: u32) -> (found: Option<&mut NodeObject>)
        ensures
            found.is_some() == objects(*old(self)).contains_key(id),
            found.is_none() ==> objects(*final(self)) == objects(*old(self)),
            found.is_some() ==> *found.unwrap() == objects(*old(self))[id],
            found.is_some() ==> objects(*final(self)) == objects(*old(self)).insert(
                id,
                *final(found.unwrap()),
            ),
    {
        self.inner.get_mut(&id)
    }

    /// `HashMap::insert`: afterwards the table holds `object` under `id`, in
    /// place of what it held there before, and is otherwise unchanged.
    #[verifier::external_body]
    pub(crate) fn insert(&mut self, id: u32, object: NodeObject)
        ensures
            objects(*final(self)) == objects(*old(self)).insert(id, object),
    {
        self.inner.insert(id, object);
    }

    /// `HashMap::remove`: afterwards the table holds nothing under `id`, and
    /// is otherwise unchanged.
    #[verifier::external_body]
    pub(crate) fn remove(&mut self, id: u32)
        ensures
            objects(*final(self)) == objects(*old(self)).remove(id),
    {
        self.inner.remove(&id);
    }

    /// `HashMap::clone`: a table that holds, under the same ids, copies of
    /// the same objects. The copies are made by `NodeObject::clone`, which
    /// returns an equal object.
    #[verifier::external_body]
    pub(crate) fn duplicate(&self) -> (copy: ObjectTable)
        ensures
            objects(copy) == objects(*self),
    {
        ObjectTable { inner: self.inner.clone() }
    }
}

/// Node ids by object key: a `hashbrown::HashMap<u64, u32>`.
#[verifier::external_body]
pub struct NodeIndex {
    inner: HashMap<u64, u32>,
}

/// The ids that a node index holds.
pub uninterp spec fn ids_by_key(table: NodeIndex) -> Map<u64, u32>;

impl NodeIndex {
    /// `HashMap::new`: an index that holds nothing.
    #[verifier::external_body]
    pub(crate) fn new() -> (table: NodeIndex)
        ensures
            ids_by_key(table) =~= Map::empty(),
    {
        NodeIndex { inner: HashMap::new() }
    }

    /// `HashMap::get`: the id stored under `key`, if there is one.
    #[verifier::external_body]
    pub(crate) fn get(&self, key: u64) -> (found: Option<u32>)
        ensures
            found.is_some() == ids_by_key(*self).contains_key(key),
            found.is_some() ==> found.unwrap() == ids_by_key(*self)[key],
    {
        self.inner.get(&key).copied()
    }

    /// `HashMap::insert`: afterwards the index holds `id` under `key`, in
    /// place of what it held there before, and is otherwise unchanged.
    #[verifier::external_body]
    pub(crate) fn insert(&mut self, key: u64, id: u32)
        ensures
            ids_by_key(*final(self)) == ids_by_key(*old(self)).insert(key, id),
    {
        self.inner.insert(key, id);
    }

    /// `HashMap::remove`: afterwards the index holds nothing under `key`,
    /// and is otherwise unchanged.
    #[verifier::external_body]
    pub(crate) fn remove(&mut self, key: u64)
        ensures
            ids_by_key(*final(self)) == ids_by_key(*old(self)).remove(key),
    {
        self.inner.remove(&key);
    }
}

} // verus!
