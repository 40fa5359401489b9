//! The resolved domain objects: nodes, ways, relations and their tags.

use vstd::prelude::*;

verus! {

/// A string-to-string mapping with unique keys.
///
/// The entries are kept in the order in which their keys were first inserted.
#[derive(Debug, Clone)]
pub struct Tags {
    entries: Vec<(String, String)>,
}

/// The entries of a tag list as pairs of texts.
pub type Pairs = Seq<(Seq<char>, Seq<char>)>;

/// No key occurs in two entries of `s`.
pub open spec fn distinct_keys(s: Pairs) -> bool {
    forall|i: int, j: int| 0 <= i < j < s.len() ==> (#[trigger] s[i]).0 != (#[trigger] s[j]).0
}

/// Some entry of `s` has the key `k`.
pub open spec fn has_key(s: Pairs, k: Seq<char>) -> bool {
    exists|i: int| 0 <= i < s.len() && (#[trigger] s[i]).0 == k
}

/// The position of an entry of `s` with the key `k`.
pub open spec fn slot(s: Pairs, k: Seq<char>) -> int {
    choose|i: int| 0 <= i < s.len() && (#[trigger] s[i]).0 == k
}

/// The mapping that the entries of `s` stand for.
pub open spec fn as_map(s: Pairs) -> Map<Seq<char>, Seq<char>> {
    Map::new(|k: Seq<char>| has_key(s, k), |k: Seq<char>| s[slot(s, k)].1)
}

/// With distinct keys, each entry is what the mapping holds for its key.
pub proof fn lemma_slot(s: Pairs, i: int)
    requires
        distinct_keys(s),
        0 <= i < s.len(),
    ensures
        has_key(s, s[i].0),
        slot(s, s[i].0) == i,
        as_map(s).dom().contains(s[i].0),
        as_map(s)[s[i].0] == s[i].1,
{
    let k = s[i].0;
    let j = slot(s, k);
    assert(0 <= j < s.len() && s[j].0 == k);
    if j < i {
        assert(s[j].0 != s[i].0);
    } else if i < j {
        assert(s[i].0 != s[j].0);
    }
}

/// Replacing the value of the entry `i` that has the key `k`, or, with `i`
/// the number of entries and `k` a new key, appending an entry for it, binds
/// `k` to `v` in the mapping and leaves the other keys as they were.
pub proof fn lemma_bind(before: Pairs, after: Pairs, i: int, k: Seq<char>, v: Seq<char>)
    requires
        distinct_keys(before),
        0 <= i <= before.len(),
        i < before.len() ==> before[i].0 == k && after == before.update(i, (k, v)),
        i == before.len() ==> !has_key(before, k) && after == before.push((k, v)),
    ensures
        distinct_keys(after),
        as_map(after) == as_map(before).insert(k, v),
{
    let n = before.len() as int;
    assert(0 <= i < after.len() && after[i] == (k, v));
    assert forall|j: int| 0 <= j < n && j != i implies #[trigger] after[j] == before[j] by {}
    assert forall|j: int| 0 <= j < n && j != i implies (#[trigger] before[j]).0 != k by {
        if i < n {
            if j < i {
                assert(before[j].0 != before[i].0);
            } else {
                assert(before[i].0 != before[j].0);
            }
        }
    }
    assert(distinct_keys(after)) by {
        assert forall|a: int, b: int| 0 <= a < b < after.len() implies (#[trigger] after[a]).0 != (
        #[trigger] after[b]).0 by {
            if a != i && b != i {
                assert(before[a].0 != before[b].0);
            } else if a == i {
                assert(before[b].0 != k);
            } else {
                assert(before[a].0 != k);
            }
        }
    }
    assert forall|q: Seq<char>| has_key(after, q) <==> (has_key(before, q) || q == k) by {
        if has_key(after, q) {
            let j = slot(after, q);
            if j != i {
                assert(before[j].0 == q);
            }
        }
        if has_key(before, q) {
            let j = slot(before, q);
            if j != i {
                assert(after[j].0 == q);
            } else {
                assert(after[i].0 == q);
            }
        }
        if q == k {
            assert(after[i].0 == q);
        }
    }
    assert forall|q: Seq<char>| has_key(after, q) implies as_map(after)[q] == (if q == k {
        v
    } else {
        as_map(before)[q]
    }) by {
        let j = slot(after, q);
        lemma_slot(after, j);
        if q != k {
            assert(j != i);
            assert(before[j] == after[j]);
            lemma_slot(before, j);
        } else {
            lemma_slot(after, i);
        }
    }
    assert(as_map(after) =~= as_map(before).insert(k, v));
}

/// With distinct keys, the mapping has as many keys as there are entries.
pub proof fn lemma_dom_len(s: Pairs)
    requires
        distinct_keys(s),
    ensures
        as_map(s).dom().finite(),
        as_map(s).dom().len() == s.len(),
    decreases s.len(),
{
    if s.len() == 0 {
        assert(as_map(s).dom() =~= Set::<Seq<char>>::empty());
    } else {
        let t = s.drop_last();
        let k = s.last().0;
        assert forall|i: int, j: int| 0 <= i < j < t.len() implies (#[trigger] t[i]).0 != (
        #[trigger] t[j]).0 by {
            assert(s[i].0 != s[j].0);
        }
        lemma_dom_len(t);
        assert(!has_key(t, k)) by {
            if has_key(t, k) {
                let j = slot(t, k);
                assert(s[j].0 != s[s.len() - 1].0);
            }
        }
        assert(s == t.push((k, s.last().1)));
        lemma_bind(t, s, t.len() as int, k, s.last().1);
        assert(as_map(s).dom() =~= as_map(t).dom().insert(k));
    }
}

impl View for Tags {
    type V = Map<Seq<char>, Seq<char>>;

    open spec fn view(&self) -> Map<Seq<char>, Seq<char>> {
        as_map(self.pairs())
    }
}

impl Tags {
    /// The entries as pairs of texts, in the order in which they are kept.
    pub closed spec fn pairs(&self) -> Pairs {
        Seq::new(self.entries@.len(), |i: int| (self.entries@[i].0@, self.entries@[i].1@))
    }

    /// No key occurs in two entries.
    pub open spec fn wf(&self) -> bool {
        distinct_keys(self.pairs())
    }

    /// An empty mapping.
    pub fn new() -> (tags: Tags)
        ensures
            tags.wf(),
            tags@ == Map::<Seq<char>, Seq<char>>::empty(),
    {
        let tags = Tags { entries: Vec::new() };
        assert(tags@ =~= Map::<Seq<char>, Seq<char>>::empty());
        tags
    }

    fn position(&self, key: &String) -> (r: Option<usize>)
        ensures
            match r {
                Some(i) => i < self.pairs().len() && self.pairs()[i as int].0 == key@,
                None => !has_key(self.pairs(), key@),
            },
    {
        let n: usize = self.entries.len();
        let mut i: usize = 0;
        while i < n
            invariant
                i <= n,
                n == self.entries@.len(),
                forall|j: int| 0 <= j < i ==> (#[trigger] self.pairs()[j]).0 != key@,
            decreases n - i,
        {
            if self.entries[i].0 == *key {
                return Some(i);
            }
            i += 1;
        }
        None
    }

    /// Binds `key` to `value`, replacing what `key` was bound to before.
    pub fn insert(&mut self, key: String, value: String)
        requires
            old(self).wf(),
        ensures
            final(self).wf(),
            final(self)@ == old(self)@.insert(key@, value@),
    {
        let ghost before = self.pairs();
        let ghost k = key@;
        let ghost v = value@;
        match self.position(&key) {
            Some(i) => {
                self.entries.set(i, (key, value));
                proof {
                    assert(self.pairs() =~= before.update(i as int, (k, v)));
                    lemma_bind(before, self.pairs(), i as int, k, v);
                }
            },
            None => {
                self.entries.push((key, value));
                proof {
                    assert(self.pairs() =~= before.push((k, v)));
                    lemma_bind(before, self.pairs(), before.len() as int, k, v);
                }
            },
        }
    }

    /// The value that `key` is bound to, if any.
    pub fn get(&self, key: &str) -> (r: Option<&String>)
        requires
            self.wf(),
        ensures
            match r {
                Some(value) => self@.dom().contains(key@) && value@ == self@[key@],
                None => !self@.dom().contains(key@),
            },
    {
        let owned: String = key.to_owned();
        match self.position(&owned) {
            Some(i) => {
                proof {
                    lemma_slot(self.pairs(), i as int);
                }
                Some(&self.entries[i].1)
            },
            None => None,
        }
    }

    /// The entries, in the order in which their keys were first inserted.
    pub fn as_pairs(&self) -> (r: &[(String, String)])
        ensures
            r@.len() == self.pairs().len(),
            forall|i: int|
                0 <= i < r@.len() ==> ((#[trigger] r@[i]).0@, r@[i].1@) == self.pairs()[i],
    {
        self.entries.as_slice()
    }

    /// The number of keys.
    pub fn len(&self) -> (n: usize)
        requires
            self.wf(),
        ensures
            self@.dom().finite(),
            n == self@.dom().len(),
    {
        proof {
            lemma_dom_len(self.pairs());
        }
        self.entries.len()
    }
}

/// A typed reference to another object.
#[derive(Debug, Clone, Copy, PartialEq, Eq, Structural)]
pub enum OsmId {
    Node(i64),
    Way(i64),
    Relation(i64),
}

/// A point: its id, its position in nanodegrees, and its tags.
#[derive(Debug, Clone)]
pub struct Node {
    pub id: i64,
    /// Latitude in nanodegrees (degrees scaled by 10^9).
    pub lat_nano: i128,
    /// Longitude in nanodegrees (degrees scaled by 10^9).
    pub lon_nano: i128,
    pub tags: Tags,
}

/// A polyline: its id, the ids of its nodes in order, and its tags.
#[derive(Debug, Clone)]
pub struct Way {
    pub id: i64,
    pub nodes: Vec<i64>,
    pub tags: Tags,
}

/// A member of a relation: what it refers to, and in which role.
#[derive(Debug, Clone, PartialEq, Eq)]
pub struct Ref {
    pub member: OsmId,
    pub role: String,
}

/// A relation: its id, its members in order, and its tags.
#[derive(Debug, Clone)]
pub struct Relation {
    pub id: i64,
    pub refs: Vec<Ref>,
    pub tags: Tags,
}

/// Any one of the three kinds of object.
#[derive(Debug, Clone)]
pub enum OsmObj {
    Node(Node),
    Way(Way),
    Relation(Relation),
}

/// What a [`Node`] stands for.
pub struct NodeModel {
    pub id: i64,
    pub lat_nano: int,
    pub lon_nano: int,
    pub tags: Map<Seq<char>, Seq<char>>,
}

/// What a [`Way`] stands for.
pub struct WayModel {
    pub id: i64,
    pub nodes: Seq<i64>,
    pub tags: Map<Seq<char>, Seq<char>>,
}

/// What a [`Ref`] stands for.
pub struct RefModel {
    pub member: OsmId,
    pub role: Seq<char>,
}

/// What a [`Relation`] stands for.
pub struct RelationModel {
    pub id: i64,
    pub refs: Seq<RefModel>,
    pub tags: Map<Seq<char>, Seq<char>>,
}

/// What an [`OsmObj`] stands for.
pub enum ObjModel {
    Node(NodeModel),
    Way(WayModel),
    Relation(RelationModel),
}

impl View for Node {
    type V = NodeModel;

    open spec fn view(&self) -> NodeModel {
        NodeModel {
            id: self.id,
            lat_nano: self.lat_nano as int,
            lon_nano: self.lon_nano as int,
            tags: self.tags@,
        }
    }
}

impl View for Way {
    type V = WayModel;

    open spec fn view(&self) -> WayModel {
        WayModel { id: self.id, nodes: self.nodes@, tags: self.tags@ }
    }
}

impl View for Ref {
    type V = RefModel;

    open spec fn view(&self) -> RefModel {
        RefModel { member: self.member, role: self.role@ }
    }
}

impl View for Relation {
    type V = RelationModel;

    open spec fn view(&self) -> RelationModel {
        RelationModel {
            id: self.id,
            refs: Seq::new(self.refs@.len(), |i: int| self.refs@[i]@),
            tags: self.tags@,
        }
    }
}

impl View for OsmObj {
    type V = ObjModel;

    open spec fn view(&self) -> ObjModel {
        match self {
            OsmObj::Node(n) => ObjModel::Node(n@),
            OsmObj::Way(w) => ObjModel::Way(w@),
            OsmObj::Relation(r) => ObjModel::Relation(r@),
        }
    }
}

impl OsmObj {
    /// The tags are well formed, whatever the kind.
    pub open spec fn wf(&self) -> bool {
        match self {
            OsmObj::Node(n) => n.tags.wf(),
            OsmObj::Way(w) => w.tags.wf(),
            OsmObj::Relation(r) => r.tags.wf(),
        }
    }
}

} // verus!
