//! Decoding of the records that stand alone: simple nodes, ways, relations.

use vstd::prelude::*;
use crate::decode::{
    decode_deltas, delta_decoded, indices_in_table, make_lat, make_lon, make_tags, nanodegrees,
    pairs_in_table, resolve_pairs, running_sum, shorter, zip_indices,
};
use crate::objects::{Node, NodeModel, OsmId, Ref, RefModel, Relation, RelationModel, Way, WayModel};
use crate::osmformat;
use crate::osmformat::{MemberType, PrimitiveBlock};
use crate::text::{make_string, table_text};

verus! {

/// Every tag index that decoding the node reads is in the string table.
pub open spec fn node_resolvable(n: &osmformat::Node, b: &PrimitiveBlock) -> bool {
    pairs_in_table(zip_indices(n.keys@, n.vals@), b)
}

/// The node that a simple node record stands for: the id as stored, each
/// coordinate scaled and shifted by its own axis offset, the tags resolved.
pub open spec fn node_model(n: &osmformat::Node, b: &PrimitiveBlock) -> NodeModel {
    NodeModel {
        id: n.id,
        lat_nano: nanodegrees(b.lat_offset, b.granularity, n.lat),
        lon_nano: nanodegrees(b.lon_offset, b.granularity, n.lon),
        tags: resolve_pairs(zip_indices(n.keys@, n.vals@), b),
    }
}

/// Decodes one simple node record.
pub fn decode_node(n: &osmformat::Node, b: &PrimitiveBlock) -> (node: Node)
    requires
        node_resolvable(n, b),
    ensures
        node.tags.wf(),
        node@ == node_model(n, b),
{
    Node {
        id: n.id,
        lat_nano: make_lat(n.lat, b),
        lon_nano: make_lon(n.lon, b),
        tags: make_tags(n.keys.as_slice(), n.vals.as_slice(), b),
    }
}

/// Every tag index that decoding the way reads is in the string table.
pub open spec fn way_resolvable(w: &osmformat::Way, b: &PrimitiveBlock) -> bool {
    pairs_in_table(zip_indices(w.keys@, w.vals@), b)
}

/// The way that a way record stands for: its node ids are the running sums
/// of its own refs, starting from zero.
pub open spec fn way_model(w: &osmformat::Way, b: &PrimitiveBlock) -> WayModel {
    WayModel {
        id: w.id,
        nodes: delta_decoded(w.refs@),
        tags: resolve_pairs(zip_indices(w.keys@, w.vals@), b),
    }
}

/// Decodes one way record.
pub fn decode_way(w: &osmformat::Way, b: &PrimitiveBlock) -> (way: Way)
    requires
        way_resolvable(w, b),
    ensures
        way.tags.wf(),
        way@ == way_model(w, b),
{
    Way {
        id: w.id,
        nodes: decode_deltas(w.refs.as_slice()),
        tags: make_tags(w.keys.as_slice(), w.vals.as_slice(), b),
    }
}

/// The typed id for a member of kind `t` with id `id`.
pub open spec fn member_of(t: MemberType, id: i64) -> OsmId {
    match t {
        MemberType::Node => OsmId::Node(id),
        MemberType::Way => OsmId::Way(id),
        MemberType::Relation => OsmId::Relation(id),
    }
}

/// The typed id for a member of kind `t` with id `id`.
pub fn member_id(t: MemberType, id: i64) -> (r: OsmId)
    ensures
        r == member_of(t, id),
{
    match t {
        MemberType::Node => OsmId::Node(id),
        MemberType::Way => OsmId::Way(id),
        MemberType::Relation => OsmId::Relation(id),
    }
}

/// The number of members: the length of the shortest of the three arrays.
pub open spec fn member_count(memids: Seq<i64>, types: Seq<MemberType>, roles: Seq<i32>) -> nat {
    shorter(shorter(memids.len(), types.len()), roles.len())
}

/// Every role index that decoding the members reads is in the string table.
pub open spec fn members_resolvable(
    memids: Seq<i64>,
    types: Seq<MemberType>,
    roles: Seq<i32>,
    b: &PrimitiveBlock,
) -> bool {
    forall|i: int| 0 <= i < member_count(memids, types, roles) ==> b.holds(#[trigger] roles[i] as int)
}

/// The members that three parallel arrays stand for: member `i` has the kind
/// `types[i]`, the running sum of the ids up to `i`, and the role text.
pub open spec fn members_model(
    memids: Seq<i64>,
    types: Seq<MemberType>,
    roles: Seq<i32>,
    b: &PrimitiveBlock,
) -> Seq<RefModel> {
    Seq::new(
        member_count(memids, types, roles),
        |i: int|
            RefModel {
                member: member_of(types[i], running_sum(memids, i + 1)),
                role: table_text(b, roles[i] as int),
            },
    )
}

/// Each member has the kind of its type tag and the sum of the member ids
/// up to its own as its id.
pub proof fn lemma_member_kinds(
    memids: Seq<i64>,
    types: Seq<MemberType>,
    roles: Seq<i32>,
    b: &PrimitiveBlock,
    i: int,
)
    requires
        0 <= i < member_count(memids, types, roles),
    ensures
        types[i] == MemberType::Node <==> members_model(memids, types, roles, b)[i].member
            == OsmId::Node(running_sum(memids, i + 1)),
        types[i] == MemberType::Way <==> members_model(memids, types, roles, b)[i].member
            == OsmId::Way(running_sum(memids, i + 1)),
        types[i] == MemberType::Relation <==> members_model(memids, types, roles, b)[i].member
            == OsmId::Relation(running_sum(memids, i + 1)),
{
}

/// Decodes the members of a relation.
pub fn decode_members(memids: &[i64], types: &[MemberType], roles: &[i32], b: &PrimitiveBlock) -> (out:
    Vec<Ref>)
    requires
        members_resolvable(memids@, types@, roles@, b),
    ensures
        out@.len() == member_count(memids@, types@, roles@),
        forall|i: int|
            0 <= i < out@.len() ==> (#[trigger] out@[i])@ == members_model(
                memids@,
                types@,
                roles@,
                b,
            )[i],
{
    let a: usize = if memids.len() <= types.len() {
        memids.len()
    } else {
        types.len()
    };
    let n: usize = if a <= roles.len() {
        a
    } else {
        roles.len()
    };
    let mut out: Vec<Ref> = Vec::new();
    let mut m: i64 = 0;
    let mut i: usize = 0;
    while i < n
        invariant
            i <= n,
            n == member_count(memids@, types@, roles@),
            members_resolvable(memids@, types@, roles@, b),
            m == running_sum(memids@, i as int),
            out@.len() == i,
            forall|j: int|
                0 <= j < i ==> (#[trigger] out@[j])@ == members_model(memids@, types@, roles@, b)[j],
        decreases n - i,
    {
        m = m.wrapping_add(memids[i]);
        let role: i32 = roles[i];
        assert(b.holds(roles@[i as int] as int));
        let r = Ref { member: member_id(types[i], m), role: make_string(role as usize, b) };
        out.push(r);
        i += 1;
    }
    out
}

/// Every index that decoding the relation reads is in the string table.
pub open spec fn relation_resolvable(r: &osmformat::Relation, b: &PrimitiveBlock) -> bool {
    &&& pairs_in_table(zip_indices(r.keys@, r.vals@), b)
    &&& members_resolvable(r.memids@, r.types@, r.roles_sid@, b)
}

/// The relation that a relation record stands for.
pub open spec fn relation_model(r: &osmformat::Relation, b: &PrimitiveBlock) -> RelationModel {
    RelationModel {
        id: r.id,
        refs: members_model(r.memids@, r.types@, r.roles_sid@, b),
        tags: resolve_pairs(zip_indices(r.keys@, r.vals@), b),
    }
}

/// Decodes one relation record.
pub fn decode_relation(r: &osmformat::Relation, b: &PrimitiveBlock) -> (rel: Relation)
    requires
        relation_resolvable(r, b),
    ensures
        rel.tags.wf(),
        rel@ == relation_model(r, b),
{
    let refs = decode_members(r.memids.as_slice(), r.types.as_slice(), r.roles_sid.as_slice(), b);
    let rel = Relation {
        id: r.id,
        refs,
        tags: make_tags(r.keys.as_slice(), r.vals.as_slice(), b),
    };
    assert(rel@.refs =~= members_model(r.memids@, r.types@, r.roles_sid@, b));
    rel
}

/// Whether every index that [`decode_node`] would read is in the string table.
pub fn node_is_resolvable(n: &osmformat::Node, b: &PrimitiveBlock) -> (ok: bool)
    ensures
        ok == node_resolvable(n, b),
{
    indices_in_table(n.keys.as_slice(), n.vals.as_slice(), b)
}

/// Whether every index that [`decode_way`] would read is in the string table.
pub fn way_is_resolvable(w: &osmformat::Way, b: &PrimitiveBlock) -> (ok: bool)
    ensures
        ok == way_resolvable(w, b),
{
    indices_in_table(w.keys.as_slice(), w.vals.as_slice(), b)
}

/// Whether every role index that [`decode_members`] would read is in the
/// string table.
pub fn roles_in_table(memids: &[i64], types: &[MemberType], roles: &[i32], b: &PrimitiveBlock) -> (ok:
    bool)
    ensures
        ok == members_resolvable(memids@, types@, roles@, b),
{
    let a: usize = if memids.len() <= types.len() {
        memids.len()
    } else {
        types.len()
    };
    let n: usize = if a <= roles.len() {
        a
    } else {
        roles.len()
    };
    let len: usize = b.stringtable.len();
    let mut i: usize = 0;
    while i < n
        invariant
            i <= n,
            n == member_count(memids@, types@, roles@),
            len == b.stringtable@.len(),
            forall|j: int| 0 <= j < i ==> b.holds(#[trigger] roles@[j] as int),
        decreases n - i,
    {
        let role: i32 = roles[i];
        if role < 0 || role as usize >= len {
            assert(!b.holds(roles@[i as int] as int));
            return false;
        }
        i += 1;
    }
    true
}

/// Whether every index that [`decode_relation`] would read is in the string
/// table.
pub fn relation_is_resolvable(r: &osmformat::Relation, b: &PrimitiveBlock) -> (ok: bool)
    ensures
        ok == relation_resolvable(r, b),
{
    indices_in_table(r.keys.as_slice(), r.vals.as_slice(), b) && roles_in_table(
        r.memids.as_slice(),
        r.types.as_slice(),
        r.roles_sid.as_slice(),
        b,
    )
}

} // verus!
