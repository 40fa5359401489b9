//! Producers that hand out the objects of a group one at a time.
//!
//! Each producer is a position in the group's records. `remaining` is the
//! sequence of objects it has yet to hand out; `next` hands out the first of
//! them and moves on.

use vstd::prelude::*;
use crate::decode::{make_lat, make_lon, running_sum};
use crate::dense::{
    dense_count, dense_is_resolvable, dense_model, dense_resolvable, lemma_segment_start_bounds,
    read_segment, segment_end, segment_start,
};
use crate::objects::{Node, NodeModel, ObjModel, OsmObj, Relation, RelationModel, Way, WayModel};
use crate::osmformat;
use crate::osmformat::{PrimitiveBlock, PrimitiveGroup};
use crate::records::{
    decode_node, decode_relation, decode_way, node_is_resolvable, node_model, node_resolvable,
    relation_is_resolvable, relation_model, relation_resolvable, way_is_resolvable, way_model,
    way_resolvable,
};

verus! {

/// The nodes that the simple node records of a group stand for, in order.
pub open spec fn simple_nodes_model(g: &PrimitiveGroup, b: &PrimitiveBlock) -> Seq<NodeModel> {
    Seq::new(g.nodes@.len(), |i: int| node_model(&g.nodes@[i], b))
}

/// The ways that the way records of a group stand for, in order.
pub open spec fn ways_model(g: &PrimitiveGroup, b: &PrimitiveBlock) -> Seq<WayModel> {
    Seq::new(g.ways@.len(), |i: int| way_model(&g.ways@[i], b))
}

/// The relations that the relation records of a group stand for, in order.
pub open spec fn relations_model(g: &PrimitiveGroup, b: &PrimitiveBlock) -> Seq<RelationModel> {
    Seq::new(g.relations@.len(), |i: int| relation_model(&g.relations@[i], b))
}

/// All nodes of a group: the simple ones, then the densely packed ones.
pub open spec fn nodes_model(g: &PrimitiveGroup, b: &PrimitiveBlock) -> Seq<NodeModel> {
    simple_nodes_model(g, b) + dense_model(&g.dense, b)
}

/// Nodes as objects of any kind.
pub open spec fn node_objects(s: Seq<NodeModel>) -> Seq<ObjModel> {
    Seq::new(s.len(), |i: int| ObjModel::Node(s[i]))
}

/// Ways as objects of any kind.
pub open spec fn way_objects(s: Seq<WayModel>) -> Seq<ObjModel> {
    Seq::new(s.len(), |i: int| ObjModel::Way(s[i]))
}

/// Relations as objects of any kind.
pub open spec fn relation_objects(s: Seq<RelationModel>) -> Seq<ObjModel> {
    Seq::new(s.len(), |i: int| ObjModel::Relation(s[i]))
}

/// All objects of a group: its nodes, then its ways, then its relations.
pub open spec fn objects_model(g: &PrimitiveGroup, b: &PrimitiveBlock) -> Seq<ObjModel> {
    node_objects(nodes_model(g, b)) + way_objects(ways_model(g, b)) + relation_objects(
        relations_model(g, b),
    )
}

/// Every index that decoding the simple nodes reads is in the string table.
pub open spec fn simple_nodes_resolvable(g: &PrimitiveGroup, b: &PrimitiveBlock) -> bool {
    forall|i: int| 0 <= i < g.nodes@.len() ==> node_resolvable(&#[trigger] g.nodes@[i], b)
}

/// Every index that decoding the ways reads is in the string table.
pub open spec fn ways_resolvable(g: &PrimitiveGroup, b: &PrimitiveBlock) -> bool {
    forall|i: int| 0 <= i < g.ways@.len() ==> way_resolvable(&#[trigger] g.ways@[i], b)
}

/// Every index that decoding the relations reads is in the string table.
pub open spec fn relations_resolvable(g: &PrimitiveGroup, b: &PrimitiveBlock) -> bool {
    forall|i: int|
        0 <= i < g.relations@.len() ==> relation_resolvable(&#[trigger] g.relations@[i], b)
}

/// Every index that decoding the nodes reads is in the string table.
pub open spec fn nodes_resolvable(g: &PrimitiveGroup, b: &PrimitiveBlock) -> bool {
    simple_nodes_resolvable(g, b) && dense_resolvable(&g.dense, b)
}

/// Every index that decoding the group reads is in the string table.
pub open spec fn group_resolvable(g: &PrimitiveGroup, b: &PrimitiveBlock) -> bool {
    nodes_resolvable(g, b) && ways_resolvable(g, b) && relations_resolvable(g, b)
}

/// Producer of the simple nodes of a group.
pub struct SimpleNodes<'a> {
    group: &'a PrimitiveGroup,
    block: &'a PrimitiveBlock,
    pos: usize,
}

impl<'a> SimpleNodes<'a> {
    /// The position is inside the records, and what is left can be resolved.
    pub closed spec fn wf(&self) -> bool {
        self.pos <= self.group.nodes@.len() && simple_nodes_resolvable(self.group, self.block)
    }

    /// The nodes yet to be handed out.
    pub closed spec fn remaining(&self) -> Seq<NodeModel> {
        simple_nodes_model(self.group, self.block).skip(self.pos as int)
    }

    /// Hands out the next node, or `None` when none is left.
    pub fn next(&mut self) -> (r: Option<Node>)
        requires
            old(self).wf(),
        ensures
            final(self).wf(),
            match r {
                Some(n) => {
                    &&& old(self).remaining().len() > 0
                    &&& n.tags.wf()
                    &&& n@ == old(self).remaining()[0]
                    &&& final(self).remaining() == old(self).remaining().skip(1)
                },
                None => old(self).remaining().len() == 0 && *final(self) == *old(self),
            },
    {
        if self.pos >= self.group.nodes.len() {
            return None;
        }
        let n = decode_node(&self.group.nodes[self.pos], self.block);
        self.pos += 1;
        assert(self.remaining() =~= old(self).remaining().skip(1));
        Some(n)
    }

    /// The number of nodes yet to be handed out, as lower and upper bound.
    pub fn size_hint(&self) -> (r: (usize, Option<usize>))
        requires
            self.wf(),
        ensures
            r.0 == self.remaining().len(),
            r.1 == Some(r.0),
    {
        let n: usize = self.group.nodes.len() - self.pos;
        (n, Some(n))
    }
}

/// A producer of the simple nodes of `group`, from the first on.
pub fn simple_nodes<'a>(group: &'a PrimitiveGroup, block: &'a PrimitiveBlock) -> (it: SimpleNodes<'a>)
    requires
        simple_nodes_resolvable(group, block),
    ensures
        it.wf(),
        it.remaining() == simple_nodes_model(group, block),
{
    let it = SimpleNodes { group, block, pos: 0 };
    assert(it.remaining() =~= simple_nodes_model(group, block));
    it
}

/// Producer of the densely packed nodes of a group.
///
/// The three sums run over the whole group: each node adds its deltas to
/// what the nodes before it have left.
pub struct DenseNodes<'a> {
    block: &'a PrimitiveBlock,
    dense: &'a osmformat::DenseNodes,
    pos: usize,
    kv_pos: usize,
    cur_id: i64,
    cur_lat: i64,
    cur_lon: i64,
}

impl<'a> DenseNodes<'a> {
    /// The sums and the stream position are those that belong to the node
    /// position, and what is left can be resolved.
    pub closed spec fn wf(&self) -> bool {
        &&& self.pos <= dense_count(self.dense)
        &&& self.kv_pos == segment_start(self.dense.keys_vals@, self.pos as int)
        &&& self.cur_id == running_sum(self.dense.id@, self.pos as int)
        &&& self.cur_lat == running_sum(self.dense.lat@, self.pos as int)
        &&& self.cur_lon == running_sum(self.dense.lon@, self.pos as int)
        &&& dense_resolvable(self.dense, self.block)
    }

    /// The nodes yet to be handed out.
    pub closed spec fn remaining(&self) -> Seq<NodeModel> {
        dense_model(self.dense, self.block).skip(self.pos as int)
    }

    /// Hands out the next node, or `None` when one of the three delta arrays
    /// is used up.
    pub fn next(&mut self) -> (r: Option<Node>)
        requires
            old(self).wf(),
        ensures
            final(self).wf(),
            match r {
                Some(n) => {
                    &&& old(self).remaining().len() > 0
                    &&& n.tags.wf()
                    &&& n@ == old(self).remaining()[0]
                    &&& final(self).remaining() == old(self).remaining().skip(1)
                },
                None => old(self).remaining().len() == 0 && *final(self) == *old(self),
            },
    {
        let d = self.dense;
        let i: usize = self.pos;
        if i >= d.id.len() || i >= d.lat.len() || i >= d.lon.len() {
            return None;
        }
        proof {
            lemma_segment_start_bounds(d.keys_vals@, i as int);
            assert(segment_start(d.keys_vals@, i + 1) == segment_end(
                d.keys_vals@,
                segment_start(d.keys_vals@, i as int),
            ));
        }
        self.cur_id = self.cur_id.wrapping_add(d.id[i]);
        self.cur_lat = self.cur_lat.wrapping_add(d.lat[i]);
        self.cur_lon = self.cur_lon.wrapping_add(d.lon[i]);
        let (tags, end) = read_segment(d.keys_vals.as_slice(), self.kv_pos, self.block);
        self.kv_pos = end;
        self.pos = i + 1;
        let n = Node {
            id: self.cur_id,
            lat_nano: make_lat(self.cur_lat, self.block),
            lon_nano: make_lon(self.cur_lon, self.block),
            tags,
        };
        assert(self.remaining() =~= old(self).remaining().skip(1));
        Some(n)
    }
}

/// A producer of the densely packed nodes of `group`, from the first on,
/// with all three sums at zero.
pub fn dense_nodes<'a>(group: &'a PrimitiveGroup, block: &'a PrimitiveBlock) -> (it: DenseNodes<'a>)
    requires
        dense_resolvable(&group.dense, block),
    ensures
        it.wf(),
        it.remaining() == dense_model(&group.dense, block),
{
    let it = DenseNodes {
        block,
        dense: &group.dense,
        pos: 0,
        kv_pos: 0,
        cur_id: 0,
        cur_lat: 0,
        cur_lon: 0,
    };
    assert(it.remaining() =~= dense_model(&group.dense, block));
    it
}

/// Producer of all nodes of a group: the simple ones, then the dense ones.
pub struct Nodes<'a> {
    simple: SimpleNodes<'a>,
    dense: DenseNodes<'a>,
}

impl<'a> Nodes<'a> {
    /// Both parts are well formed.
    pub closed spec fn wf(&self) -> bool {
        self.simple.wf() && self.dense.wf()
    }

    /// The nodes yet to be handed out.
    pub closed spec fn remaining(&self) -> Seq<NodeModel> {
        self.simple.remaining() + self.dense.remaining()
    }

    /// Hands out the next node, or `None` when none is left.
    pub fn next(&mut self) -> (r: Option<Node>)
        requires
            old(self).wf(),
        ensures
            final(self).wf(),
            match r {
                Some(n) => {
                    &&& old(self).remaining().len() > 0
                    &&& n.tags.wf()
                    &&& n@ == old(self).remaining()[0]
                    &&& final(self).remaining() == old(self).remaining().skip(1)
                },
                None => old(self).remaining().len() == 0 && *final(self) == *old(self),
            },
    {
        match self.simple.next() {
            Some(n) => {
                assert(self.remaining() =~= old(self).remaining().skip(1));
                Some(n)
            },
            None => {
                let r = self.dense.next();
                assert(old(self).remaining() =~= old(self).dense.remaining());
                assert(self.remaining() =~= self.dense.remaining());
                r
            },
        }
    }
}

/// A producer of all nodes of `group`.
pub fn nodes<'a>(g: &'a PrimitiveGroup, b: &'a PrimitiveBlock) -> (it: Nodes<'a>)
    requires
        nodes_resolvable(g, b),
    ensures
        it.wf(),
        it.remaining() == nodes_model(g, b),
{
    Nodes { simple: simple_nodes(g, b), dense: dense_nodes(g, b) }
}

/// Producer of the ways of a group.
pub struct Ways<'a> {
    group: &'a PrimitiveGroup,
    block: &'a PrimitiveBlock,
    pos: usize,
}

impl<'a> Ways<'a> {
    /// The position is inside the records, and what is left can be resolved.
    pub closed spec fn wf(&self) -> bool {
        self.pos <= self.group.ways@.len() && ways_resolvable(self.group, self.block)
    }

    /// The ways yet to be handed out.
    pub closed spec fn remaining(&self) -> Seq<WayModel> {
        ways_model(self.group, self.block).skip(self.pos as int)
    }

    /// Hands out the next way, or `None` when none is left.
    pub fn next(&mut self) -> (r: Option<Way>)
        requires
            old(self).wf(),
        ensures
            final(self).wf(),
            match r {
                Some(w) => {
                    &&& old(self).remaining().len() > 0
                    &&& w.tags.wf()
                    &&& w@ == old(self).remaining()[0]
                    &&& final(self).remaining() == old(self).remaining().skip(1)
                },
                None => old(self).remaining().len() == 0 && *final(self) == *old(self),
            },
    {
        if self.pos >= self.group.ways.len() {
            return None;
        }
        let w = decode_way(&self.group.ways[self.pos], self.block);
        self.pos += 1;
        assert(self.remaining() =~= old(self).remaining().skip(1));
        Some(w)
    }

    /// The number of ways yet to be handed out, as lower and upper bound.
    pub fn size_hint(&self) -> (r: (usize, Option<usize>))
        requires
            self.wf(),
        ensures
            r.0 == self.remaining().len(),
            r.1 == Some(r.0),
    {
        let n: usize = self.group.ways.len() - self.pos;
        (n, Some(n))
    }
}

/// A producer of the ways of `group`, from the first on.
pub fn ways<'a>(group: &'a PrimitiveGroup, block: &'a PrimitiveBlock) -> (it: Ways<'a>)
    requires
        ways_resolvable(group, block),
    ensures
        it.wf(),
        it.remaining() == ways_model(group, block),
{
    let it = Ways { group, block, pos: 0 };
    assert(it.remaining() =~= ways_model(group, block));
    it
}

/// Producer of the relations of a group.
pub struct Relations<'a> {
    group: &'a PrimitiveGroup,
    block: &'a PrimitiveBlock,
    pos: usize,
}

impl<'a> Relations<'a> {
    /// The position is inside the records, and what is left can be resolved.
    pub closed spec fn wf(&self) -> bool {
        self.pos <= self.group.relations@.len() && relations_resolvable(self.group, self.block)
    }

    /// The relations yet to be handed out.
    pub closed spec fn remaining(&self) -> Seq<RelationModel> {
        relations_model(self.group, self.block).skip(self.pos as int)
    }

    /// Hands out the next relation, or `None` when none is left.
    pub fn next(&mut self) -> (r: Option<Relation>)
        requires
            old(self).wf(),
        ensures
            final(self).wf(),
            match r {
                Some(rel) => {
                    &&& old(self).remaining().len() > 0
                    &&& rel.tags.wf()
                    &&& rel@ == old(self).remaining()[0]
                    &&& final(self).remaining() == old(self).remaining().skip(1)
                },
                None => old(self).remaining().len() == 0 && *final(self) == *old(self),
            },
    {
        if self.pos >= self.group.relations.len() {
            return None;
        }
        let rel = decode_relation(&self.group.relations[self.pos], self.block);
        self.pos += 1;
        assert(self.remaining() =~= old(self).remaining().skip(1));
        Some(rel)
    }

    /// The number of relations yet to be handed out, as lower and upper bound.
    pub fn size_hint(&self) -> (r: (usize, Option<usize>))
        requires
            self.wf(),
        ensures
            r.0 == self.remaining().len(),
            r.1 == Some(r.0),
    {
        let n: usize = self.group.relations.len() - self.pos;
        (n, Some(n))
    }
}

/// A producer of the relations of `group`, from the first on.
pub fn relations<'a>(group: &'a PrimitiveGroup, block: &'a PrimitiveBlock) -> (it: Relations<'a>)
    requires
        relations_resolvable(group, block),
    ensures
        it.wf(),
        it.remaining() == relations_model(group, block),
{
    let it = Relations { group, block, pos: 0 };
    assert(it.remaining() =~= relations_model(group, block));
    it
}

/// Producer of all objects of a group: nodes, then ways, then relations.
pub struct OsmObjs<'a> {
    nodes: Nodes<'a>,
    ways: Ways<'a>,
    relations: Relations<'a>,
}

impl<'a> OsmObjs<'a> {
    /// All three parts are well formed.
    pub closed spec fn wf(&self) -> bool {
        self.nodes.wf() && self.ways.wf() && self.relations.wf()
    }

    /// The objects yet to be handed out.
    pub closed spec fn remaining(&self) -> Seq<ObjModel> {
        node_objects(self.nodes.remaining()) + way_objects(self.ways.remaining())
            + relation_objects(self.relations.remaining())
    }

    /// Hands out the next object, or `None` when none is left.
    pub fn next(&mut self) -> (r: Option<OsmObj>)
        requires
            old(self).wf(),
        ensures
            final(self).wf(),
            match r {
                Some(o) => {
                    &&& old(self).remaining().len() > 0
                    &&& o.wf()
                    &&& o@ == old(self).remaining()[0]
                    &&& final(self).remaining() == old(self).remaining().skip(1)
                },
                None => old(self).remaining().len() == 0 && *final(self) == *old(self),
            },
    {
        if let Some(n) = self.nodes.next() {
            assert(self.remaining() =~= old(self).remaining().skip(1));
            return Some(node_into_obj(n));
        }
        if let Some(w) = self.ways.next() {
            assert(self.remaining() =~= old(self).remaining().skip(1));
            return Some(way_into_obj(w));
        }
        if let Some(rel) = self.relations.next() {
            assert(self.remaining() =~= old(self).remaining().skip(1));
            return Some(rel_into_obj(rel));
        }
        None
    }
}

fn node_into_obj(n: Node) -> (o: OsmObj)
    ensures
        o == OsmObj::Node(n),
{
    OsmObj::Node(n)
}

fn way_into_obj(w: Way) -> (o: OsmObj)
    ensures
        o == OsmObj::Way(w),
{
    OsmObj::Way(w)
}

fn rel_into_obj(r: Relation) -> (o: OsmObj)
    ensures
        o == OsmObj::Relation(r),
{
    OsmObj::Relation(r)
}

/// A producer of all objects of `group`: every simple node, every densely
/// packed node, every way, every relation, each kind in record order.
pub fn iter<'a>(g: &'a PrimitiveGroup, b: &'a PrimitiveBlock) -> (it: OsmObjs<'a>)
    requires
        group_resolvable(g, b),
    ensures
        it.wf(),
        it.remaining() == objects_model(g, b),
{
    OsmObjs { nodes: nodes(g, b), ways: ways(g, b), relations: relations(g, b) }
}

/// The views of a vector of nodes.
pub open spec fn node_views(v: Seq<Node>) -> Seq<NodeModel> {
    Seq::new(v.len(), |i: int| v[i]@)
}

/// The views of a vector of ways.
pub open spec fn way_views(v: Seq<Way>) -> Seq<WayModel> {
    Seq::new(v.len(), |i: int| v[i]@)
}

/// The views of a vector of relations.
pub open spec fn relation_views(v: Seq<Relation>) -> Seq<RelationModel> {
    Seq::new(v.len(), |i: int| v[i]@)
}

/// The views of a vector of objects.
pub open spec fn object_views(v: Seq<OsmObj>) -> Seq<ObjModel> {
    Seq::new(v.len(), |i: int| v[i]@)
}

impl<'a> SimpleNodes<'a> {
    /// Hands out all simple nodes that are left, in order.
    pub fn collect(self) -> (out: Vec<Node>)
        requires
            self.wf(),
        ensures
            node_views(out@) == self.remaining(),
            forall|i: int| 0 <= i < out@.len() ==> (#[trigger] out@[i]).tags.wf(),
    {
        let ghost all = self.remaining();
        let mut it = self;
        let mut out: Vec<Node> = Vec::new();
        loop
            invariant
                it.wf(),
                node_views(out@) + it.remaining() == all,
                forall|i: int| 0 <= i < out@.len() ==> (#[trigger] out@[i]).tags.wf(),
            ensures
                node_views(out@) == all,
                forall|i: int| 0 <= i < out@.len() ==> (#[trigger] out@[i]).tags.wf(),
            decreases it.remaining().len(),
        {
            let ghost before = node_views(out@);
            let ghost rest = it.remaining();
            match it.next() {
                Some(o) => {
                    out.push(o);
                    assert(node_views(out@) + it.remaining() =~= before + rest);
                },
                None => {
                    assert(before + rest =~= before);
                    break ;
                },
            }
        }
        out
    }
}

impl<'a> DenseNodes<'a> {
    /// Hands out all densely packed nodes that are left, in order.
    pub fn collect(self) -> (out: Vec<Node>)
        requires
            self.wf(),
        ensures
            node_views(out@) == self.remaining(),
            forall|i: int| 0 <= i < out@.len() ==> (#[trigger] out@[i]).tags.wf(),
    {
        let ghost all = self.remaining();
        let mut it = self;
        let mut out: Vec<Node> = Vec::new();
        loop
            invariant
                it.wf(),
                node_views(out@) + it.remaining() == all,
                forall|i: int| 0 <= i < out@.len() ==> (#[trigger] out@[i]).tags.wf(),
            ensures
                node_views(out@) == all,
                forall|i: int| 0 <= i < out@.len() ==> (#[trigger] out@[i]).tags.wf(),
            decreases it.remaining().len(),
        {
            let ghost before = node_views(out@);
            let ghost rest = it.remaining();
            match it.next() {
                Some(o) => {
                    out.push(o);
                    assert(node_views(out@) + it.remaining() =~= before + rest);
                },
                None => {
                    assert(before + rest =~= before);
                    break ;
                },
            }
        }
        out
    }
}

impl<'a> Nodes<'a> {
    /// Hands out all nodes that are left, in order.
    pub fn collect(self) -> (out: Vec<Node>)
        requires
            self.wf(),
        ensures
            node_views(out@) == self.remaining(),
            forall|i: int| 0 <= i < out@.len() ==> (#[trigger] out@[i]).tags.wf(),
    {
        let ghost all = self.remaining();
        let mut it = self;
        let mut out: Vec<Node> = Vec::new();
        loop
            invariant
                it.wf(),
                node_views(out@) + it.remaining() == all,
                forall|i: int| 0 <= i < out@.len() ==> (#[trigger] out@[i]).tags.wf(),
            ensures
                node_views(out@) == all,
                forall|i: int| 0 <= i < out@.len() ==> (#[trigger] out@[i]).tags.wf(),
            decreases it.remaining().len(),
        {
            let ghost before = node_views(out@);
            let ghost rest = it.remaining();
            match it.next() {
                Some(o) => {
                    out.push(o);
                    assert(node_views(out@) + it.remaining() =~= before + rest);
                },
                None => {
                    assert(before + rest =~= before);
                    break ;
                },
            }
        }
        out
    }
}

impl<'a> Ways<'a> {
    /// Hands out all ways that are left, in order.
    pub fn collect(self) -> (out: Vec<Way>)
        requires
            self.wf(),
        ensures
            way_views(out@) == self.remaining(),
            forall|i: int| 0 <= i < out@.len() ==> (#[trigger] out@[i]).tags.wf(),
    {
        let ghost all = self.remaining();
        let mut it = self;
        let mut out: Vec<Way> = Vec::new();
        loop
            invariant
                it.wf(),
                way_views(out@) + it.remaining() == all,
                forall|i: int| 0 <= i < out@.len() ==> (#[trigger] out@[i]).tags.wf(),
            ensures
                way_views(out@) == all,
                forall|i: int| 0 <= i < out@.len() ==> (#[trigger] out@[i]).tags.wf(),
            decreases it.remaining().len(),
        {
            let ghost before = way_views(out@);
            let ghost rest = it.remaining();
            match it.next() {
                Some(o) => {
                    out.push(o);
                    assert(way_views(out@) + it.remaining() =~= before + rest);
                },
                None => {
                    assert(before + rest =~= before);
                    break ;
                },
            }
        }
        out
    }
}

impl<'a> Relations<'a> {
    /// Hands out all relations that are left, in order.
    pub fn collect(self) -> (out: Vec<Relation>)
        requires
            self.wf(),
        ensures
            relation_views(out@) == self.remaining(),
            forall|i: int| 0 <= i < out@.len() ==> (#[trigger] out@[i]).tags.wf(),
    {
        let ghost all = self.remaining();
        let mut it = self;
        let mut out: Vec<Relation> = Vec::new();
        loop
            invariant
                it.wf(),
                relation_views(out@) + it.remaining() == all,
                forall|i: int| 0 <= i < out@.len() ==> (#[trigger] out@[i]).tags.wf(),
            ensures
                relation_views(out@) == all,
                forall|i: int| 0 <= i < out@.len() ==> (#[trigger] out@[i]).tags.wf(),
            decreases it.remaining().len(),
        {
            let ghost before = relation_views(out@);
            let ghost rest = it.remaining();
            match it.next() {
                Some(o) => {
                    out.push(o);
                    assert(relation_views(out@) + it.remaining() =~= before + rest);
                },
                None => {
                    assert(before + rest =~= before);
                    break ;
                },
            }
        }
        out
    }
}

impl<'a> OsmObjs<'a> {
    /// Hands out all objects that are left, in order.
    pub fn collect(self) -> (out: Vec<OsmObj>)
        requires
            self.wf(),
        ensures
            object_views(out@) == self.remaining(),
            forall|i: int| 0 <= i < out@.len() ==> (#[trigger] out@[i]).wf(),
    {
        let ghost all = self.remaining();
        let mut it = self;
        let mut out: Vec<OsmObj> = Vec::new();
        loop
            invariant
                it.wf(),
                object_views(out@) + it.remaining() == all,
                forall|i: int| 0 <= i < out@.len() ==> (#[trigger] out@[i]).wf(),
            ensures
                object_views(out@) == all,
                forall|i: int| 0 <= i < out@.len() ==> (#[trigger] out@[i]).wf(),
            decreases it.remaining().len(),
        {
            let ghost before = object_views(out@);
            let ghost rest = it.remaining();
            match it.next() {
                Some(o) => {
                    out.push(o);
                    assert(object_views(out@) + it.remaining() =~= before + rest);
                },
                None => {
                    assert(before + rest =~= before);
                    break ;
                },
            }
        }
        out
    }
}

/// Each simple node has its stored coordinates, scaled by the granularity
/// and shifted by the offset of its own axis.
pub proof fn lemma_simple_node_coordinates(g: &PrimitiveGroup, b: &PrimitiveBlock, i: int)
    requires
        0 <= i < g.nodes@.len(),
    ensures
        simple_nodes_model(g, b).len() == g.nodes@.len(),
        simple_nodes_model(g, b)[i].id == g.nodes@[i].id,
        simple_nodes_model(g, b)[i].lat_nano == b.lat_offset + b.granularity * g.nodes@[i].lat,
        simple_nodes_model(g, b)[i].lon_nano == b.lon_offset + b.granularity * g.nodes@[i].lon,
{
}

/// The objects of a group come kind by kind: the simple nodes, the densely
/// packed nodes, the ways, the relations, each kind in record order.
pub proof fn lemma_objects_order(g: &PrimitiveGroup, b: &PrimitiveBlock, i: int)
    requires
        0 <= i < objects_model(g, b).len(),
    ensures
        objects_model(g, b).len() == g.nodes@.len() + dense_count(&g.dense) + g.ways@.len()
            + g.relations@.len(),
        i < g.nodes@.len() ==> objects_model(g, b)[i] == ObjModel::Node(node_model(&g.nodes@[i], b)),
        g.nodes@.len() <= i < g.nodes@.len() + dense_count(&g.dense) ==> objects_model(g, b)[i]
            == ObjModel::Node(dense_model(&g.dense, b)[i - g.nodes@.len()]),
        ({
            let n = g.nodes@.len() + dense_count(&g.dense);
            n <= i < n + g.ways@.len() ==> objects_model(g, b)[i] == ObjModel::Way(
                way_model(&g.ways@[i - n], b),
            )
        }),
        ({
            let n = g.nodes@.len() + dense_count(&g.dense) + g.ways@.len();
            n <= i ==> objects_model(g, b)[i] == ObjModel::Relation(
                relation_model(&g.relations@[i - n], b),
            )
        }),
{
}

/// A group without records has no objects.
pub proof fn lemma_empty_group(g: &PrimitiveGroup, b: &PrimitiveBlock)
    requires
        g.nodes@.len() == 0,
        dense_count(&g.dense) == 0,
        g.ways@.len() == 0,
        g.relations@.len() == 0,
    ensures
        group_resolvable(g, b),
        objects_model(g, b) == Seq::<ObjModel>::empty(),
{
    assert(objects_model(g, b) =~= Seq::<ObjModel>::empty());
}

/// Decoding one group with one block twice gives the same objects: two
/// results of [`OsmObjs::collect`] on producers that [`iter`] made for the
/// same group and block have the same length and the same views throughout.
pub proof fn lemma_decoding_repeatable(
    g: &PrimitiveGroup,
    b: &PrimitiveBlock,
    first: Seq<OsmObj>,
    second: Seq<OsmObj>,
)
    requires
        object_views(first) == objects_model(g, b),
        object_views(second) == objects_model(g, b),
    ensures
        first.len() == second.len(),
        forall|i: int| 0 <= i < first.len() ==> (#[trigger] first[i])@ == second[i]@,
{
    assert(object_views(first).len() == first.len());
    assert(object_views(second).len() == second.len());
    assert forall|i: int| 0 <= i < first.len() implies (#[trigger] first[i])@ == second[i]@ by {
        assert(object_views(first)[i] == first[i]@);
        assert(object_views(second)[i] == second[i]@);
    }
}

/// Whether [`simple_nodes`] can be called on the group.
pub fn simple_nodes_are_resolvable(g: &PrimitiveGroup, b: &PrimitiveBlock) -> (ok: bool)
    ensures
        ok == simple_nodes_resolvable(g, b),
{
    let n: usize = g.nodes.len();
    let mut i: usize = 0;
    while i < n
        invariant
            i <= n,
            n == g.nodes@.len(),
            forall|j: int| 0 <= j < i ==> node_resolvable(&#[trigger] g.nodes@[j], b),
        decreases n - i,
    {
        if !node_is_resolvable(&g.nodes[i], b) {
            return false;
        }
        i += 1;
    }
    true
}

/// Whether [`ways`] can be called on the group.
pub fn ways_are_resolvable(g: &PrimitiveGroup, b: &PrimitiveBlock) -> (ok: bool)
    ensures
        ok == ways_resolvable(g, b),
{
    let n: usize = g.ways.len();
    let mut i: usize = 0;
    while i < n
        invariant
            i <= n,
            n == g.ways@.len(),
            forall|j: int| 0 <= j < i ==> way_resolvable(&#[trigger] g.ways@[j], b),
        decreases n - i,
    {
        if !way_is_resolvable(&g.ways[i], b) {
            return false;
        }
        i += 1;
    }
    true
}

/// Whether [`relations`] can be called on the group.
pub fn relations_are_resolvable(g: &PrimitiveGroup, b: &PrimitiveBlock) -> (ok: bool)
    ensures
        ok == relations_resolvable(g, b),
{
    let n: usize = g.relations.len();
    let mut i: usize = 0;
    while i < n
        invariant
            i <= n,
            n == g.relations@.len(),
            forall|j: int| 0 <= j < i ==> relation_resolvable(&#[trigger] g.relations@[j], b),
        decreases n - i,
    {
        if !relation_is_resolvable(&g.relations[i], b) {
            return false;
        }
        i += 1;
    }
    true
}

/// Whether [`nodes`] can be called on the group.
pub fn nodes_are_resolvable(g: &PrimitiveGroup, b: &PrimitiveBlock) -> (ok: bool)
    ensures
        ok == nodes_resolvable(g, b),
{
    simple_nodes_are_resolvable(g, b) && dense_is_resolvable(&g.dense, b)
}

/// Whether [`iter`] can be called on the group: whether every string-table
/// index that decoding the group reads is in the block's string table.
pub fn group_is_resolvable(g: &PrimitiveGroup, b: &PrimitiveBlock) -> (ok: bool)
    ensures
        ok == group_resolvable(g, b),
{
    nodes_are_resolvable(g, b) && ways_are_resolvable(g, b) && relations_are_resolvable(g, b)
}

} // verus!
