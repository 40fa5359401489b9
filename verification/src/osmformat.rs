//! The raw message records of the exchange format, as plain values.

use vstd::prelude::*;

verus! {

/// Context shared by every record of a group: the interned strings and the
/// parameters that turn stored coordinates into nanodegrees.
#[derive(Debug, Clone)]
pub struct PrimitiveBlock {
    /// Interned byte strings, referenced by 0-based index.
    pub stringtable: Vec<Vec<u8>>,
    /// Nanodegrees per stored coordinate unit.
    pub granularity: i32,
    /// Latitude offset in nanodegrees.
    pub lat_offset: i64,
    /// Longitude offset in nanodegrees.
    pub lon_offset: i64,
}

/// A node stored on its own, with absolute id and coordinates.
#[derive(Debug, Clone)]
pub struct Node {
    pub id: i64,
    pub lat: i64,
    pub lon: i64,
    pub keys: Vec<u32>,
    pub vals: Vec<u32>,
}

/// Many nodes packed into parallel delta-coded arrays, with one flattened
/// stream of key and value indices in which `0` ends each node's tags.
#[derive(Debug, Clone)]
pub struct DenseNodes {
    pub id: Vec<i64>,
    pub lat: Vec<i64>,
    pub lon: Vec<i64>,
    pub keys_vals: Vec<i32>,
}

/// A way with delta-coded node references.
#[derive(Debug, Clone)]
pub struct Way {
    pub id: i64,
    pub refs: Vec<i64>,
    pub keys: Vec<u32>,
    pub vals: Vec<u32>,
}

/// The kind of object a relation member refers to.
#[derive(Debug, Clone, Copy, PartialEq, Eq, Structural)]
pub enum MemberType {
    Node,
    Way,
    Relation,
}

/// A relation with delta-coded member ids and parallel type and role arrays.
#[derive(Debug, Clone)]
pub struct Relation {
    pub id: i64,
    pub memids: Vec<i64>,
    pub types: Vec<MemberType>,
    pub roles_sid: Vec<i32>,
    pub keys: Vec<u32>,
    pub vals: Vec<u32>,
}

/// One batch of records that share a block.
#[derive(Debug, Clone)]
pub struct PrimitiveGroup {
    pub nodes: Vec<Node>,
    pub dense: DenseNodes,
    pub ways: Vec<Way>,
    pub relations: Vec<Relation>,
}

impl PrimitiveBlock {
    /// Whether `k` is a position of the string table.
    pub open spec fn holds(&self, k: int) -> bool {
        0 <= k < self.stringtable@.len()
    }
}

} // verus!
