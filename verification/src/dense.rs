//! The flattened key/value stream of densely packed nodes.

use vstd::prelude::*;
use crate::decode::{
    exact_sum, lemma_pairs_in_table_push, lemma_running_sum_exact, nanodegrees, pairs_in_table,
    resolve_pairs, running_sum, shorter,
};
use crate::objects::{NodeModel, Tags};
use crate::osmformat;
use crate::osmformat::PrimitiveBlock;
use crate::text::make_string;

verus! {

/// Whether a tag segment that starts at `pos` holds a pair there: a key that
/// is not the terminator `0`, followed by a value.
pub open spec fn pair_at(kv: Seq<i32>, pos: int) -> bool {
    0 <= pos && pos + 1 < kv.len() && kv[pos] != 0
}

/// The index pairs of the tag segment that starts at `pos`: pairs are read
/// until the stream ends or a key is `0`; a key that the stream ends on is
/// left out.
pub open spec fn segment_pairs(kv: Seq<i32>, pos: int) -> Seq<(int, int)>
    decreases kv.len() - pos,
{
    if pair_at(kv, pos) {
        seq![(kv[pos] as int, kv[pos + 1] as int)] + segment_pairs(kv, pos + 2)
    } else {
        Seq::empty()
    }
}

/// Where the stream stands after the tag segment that starts at `pos`: behind
/// its terminator, or at the end of the stream.
pub open spec fn segment_end(kv: Seq<i32>, pos: int) -> int
    decreases kv.len() - pos,
{
    if pair_at(kv, pos) {
        segment_end(kv, pos + 2)
    } else if 0 <= pos < kv.len() && kv[pos] == 0 {
        pos + 1
    } else if 0 <= pos < kv.len() {
        kv.len() as int
    } else {
        pos
    }
}

/// Where the tag segment of node `k` starts.
pub open spec fn segment_start(kv: Seq<i32>, k: int) -> int
    decreases k,
{
    if k <= 0 {
        0
    } else {
        segment_end(kv, segment_start(kv, k - 1))
    }
}

/// A segment ends inside the stream, at or behind its start.
pub proof fn lemma_segment_end_bounds(kv: Seq<i32>, pos: int)
    requires
        0 <= pos <= kv.len(),
    ensures
        pos <= segment_end(kv, pos) <= kv.len(),
    decreases kv.len() - pos,
{
    if pair_at(kv, pos) {
        lemma_segment_end_bounds(kv, pos + 2);
    }
}

/// Every segment starts inside the stream.
pub proof fn lemma_segment_start_bounds(kv: Seq<i32>, k: int)
    ensures
        0 <= segment_start(kv, k) <= kv.len(),
    decreases k,
{
    if k > 0 {
        lemma_segment_start_bounds(kv, k - 1);
        lemma_segment_end_bounds(kv, segment_start(kv, k - 1));
    }
}

/// Reads the tag segment that starts at `pos`, and says where the next one
/// starts.
pub fn read_segment(kv: &[i32], pos: usize, b: &PrimitiveBlock) -> (r: (Tags, usize))
    requires
        pos <= kv@.len(),
        pairs_in_table(segment_pairs(kv@, pos as int), b),
    ensures
        r.0.wf(),
        r.0@ == resolve_pairs(segment_pairs(kv@, pos as int), b),
        r.1 == segment_end(kv@, pos as int),
{
    let n: usize = kv.len();
    let ghost all = segment_pairs(kv@, pos as int);
    let ghost done: Seq<(int, int)> = Seq::empty();
    let mut tags = Tags::new();
    let mut cur: usize = pos;
    while cur < n && n - cur >= 2 && kv[cur] != 0
        invariant
            pos <= cur <= n,
            n == kv@.len(),
            all == segment_pairs(kv@, pos as int),
            pairs_in_table(all, b),
            done + segment_pairs(kv@, cur as int) == all,
            segment_end(kv@, cur as int) == segment_end(kv@, pos as int),
            tags.wf(),
            tags@ == resolve_pairs(done, b),
        decreases n - cur,
    {
        let ghost pair = (kv@[cur as int] as int, kv@[cur + 1] as int);
        proof {
            assert(pair_at(kv@, cur as int));
            assert(all[done.len() as int] == segment_pairs(kv@, cur as int)[0]);
            assert(all[done.len() as int] == pair);
            assert(b.holds(pair.0) && b.holds(pair.1));
        }
        let k = make_string(kv[cur] as usize, b);
        let v = make_string(kv[cur + 1] as usize, b);
        tags.insert(k, v);
        proof {
            assert(done.push(pair).drop_last() =~= done);
            assert(done.push(pair) + segment_pairs(kv@, cur + 2) =~= done + segment_pairs(
                kv@,
                cur as int,
            ));
            done = done.push(pair);
        }
        cur += 2;
    }
    proof {
        assert(!pair_at(kv@, cur as int));
        assert(done =~= all);
    }
    if cur < n {
        if kv[cur] == 0 {
            (tags, cur + 1)
        } else {
            (tags, n)
        }
    } else {
        (tags, cur)
    }
}

/// The number of densely packed nodes: the length of the shortest of the
/// three delta arrays.
pub open spec fn dense_count(d: &osmformat::DenseNodes) -> nat {
    shorter(shorter(d.id@.len(), d.lat@.len()), d.lon@.len())
}

/// Every tag index that decoding the densely packed nodes reads is in the
/// string table.
pub open spec fn dense_resolvable(d: &osmformat::DenseNodes, b: &PrimitiveBlock) -> bool {
    forall|k: int|
        0 <= k < dense_count(d) ==> pairs_in_table(
            segment_pairs(d.keys_vals@, #[trigger] segment_start(d.keys_vals@, k)),
            b,
        )
}

/// The `k`-th densely packed node: id and stored coordinates are the running
/// sums of the deltas up to `k`, the tags those of the `k`-th segment.
pub open spec fn dense_node_model(d: &osmformat::DenseNodes, b: &PrimitiveBlock, k: int) -> NodeModel {
    NodeModel {
        id: running_sum(d.id@, k + 1),
        lat_nano: nanodegrees(b.lat_offset, b.granularity, running_sum(d.lat@, k + 1)),
        lon_nano: nanodegrees(b.lon_offset, b.granularity, running_sum(d.lon@, k + 1)),
        tags: resolve_pairs(segment_pairs(d.keys_vals@, segment_start(d.keys_vals@, k)), b),
    }
}

/// The nodes that a dense record stands for, in order.
pub open spec fn dense_model(d: &osmformat::DenseNodes, b: &PrimitiveBlock) -> Seq<NodeModel> {
    Seq::new(dense_count(d), |k: int| dense_node_model(d, b, k))
}

/// A key that the stream ends on gives no tag: where the segment that starts
/// at `pos` is `pairs` whole pairs that reach the end of the stream, one more
/// element behind them leaves the tags of the segment as they were, and the
/// segment then ends behind that element.
pub proof fn lemma_trailing_key_dropped(kv: Seq<i32>, pos: int, pairs: nat, key: i32)
    requires
        0 <= pos,
        kv.len() == pos + 2 * pairs,
        forall|j: int| 0 <= j < pairs ==> #[trigger] kv[pos + 2 * j] != 0,
    ensures
        segment_pairs(kv.push(key), pos) == segment_pairs(kv, pos),
        segment_pairs(kv.push(key), pos).len() == pairs,
        segment_end(kv.push(key), pos) == kv.len() + 1,
    decreases pairs,
{
    let longer = kv.push(key);
    if pairs == 0 {
        assert(!pair_at(kv, pos));
        assert(!pair_at(longer, pos));
        assert(longer[pos] == key);
    } else {
        assert(kv[pos + 2 * 0] != 0);
        assert(pair_at(kv, pos));
        assert(pair_at(longer, pos));
        assert(longer[pos] == kv[pos] && longer[pos + 1] == kv[pos + 1]);
        assert forall|j: int| 0 <= j < pairs - 1 implies #[trigger] kv[pos + 2 + 2 * j] != 0 by {
            assert(kv[pos + 2 * (j + 1)] != 0);
        }
        lemma_trailing_key_dropped(kv, pos + 2, (pairs - 1) as nat, key);
    }
}

/// A dense record gives as many nodes as its shortest delta array is long,
/// and while the prefix sums of the deltas fit in an `i64`, node `k` has the
/// sum of the first `k + 1` id deltas as its id, and the sums of the first
/// `k + 1` coordinate deltas, scaled and shifted, as its coordinates.
pub proof fn lemma_dense_prefix_sums(d: &osmformat::DenseNodes, b: &PrimitiveBlock, k: int)
    requires
        0 <= k < dense_count(d),
        forall|j: int| 0 <= j <= k + 1 ==> i64::MIN <= #[trigger] exact_sum(d.id@, j) <= i64::MAX,
        forall|j: int| 0 <= j <= k + 1 ==> i64::MIN <= #[trigger] exact_sum(d.lat@, j) <= i64::MAX,
        forall|j: int| 0 <= j <= k + 1 ==> i64::MIN <= #[trigger] exact_sum(d.lon@, j) <= i64::MAX,
    ensures
        dense_model(d, b).len() == dense_count(d),
        dense_model(d, b)[k].id == exact_sum(d.id@, k + 1),
        dense_model(d, b)[k].lat_nano == b.lat_offset + b.granularity * exact_sum(d.lat@, k + 1),
        dense_model(d, b)[k].lon_nano == b.lon_offset + b.granularity * exact_sum(d.lon@, k + 1),
{
    lemma_running_sum_exact(d.id@, k + 1);
    lemma_running_sum_exact(d.lat@, k + 1);
    lemma_running_sum_exact(d.lon@, k + 1);
}

/// Whether every index that [`read_segment`] would read from `pos` on is in
/// the string table, and where the next segment starts.
pub fn segment_in_table(kv: &[i32], pos: usize, b: &PrimitiveBlock) -> (r: (bool, usize))
    requires
        pos <= kv@.len(),
    ensures
        r.0 == pairs_in_table(segment_pairs(kv@, pos as int), b),
        r.1 == segment_end(kv@, pos as int),
{
    let n: usize = kv.len();
    let len: usize = b.stringtable.len();
    let ghost all = segment_pairs(kv@, pos as int);
    let ghost done: Seq<(int, int)> = Seq::empty();
    let mut ok: bool = true;
    let mut cur: usize = pos;
    while cur < n && n - cur >= 2 && kv[cur] != 0
        invariant
            pos <= cur <= n,
            n == kv@.len(),
            len == b.stringtable@.len(),
            all == segment_pairs(kv@, pos as int),
            done + segment_pairs(kv@, cur as int) == all,
            segment_end(kv@, cur as int) == segment_end(kv@, pos as int),
            ok == pairs_in_table(done, b),
        decreases n - cur,
    {
        let ghost pair = (kv@[cur as int] as int, kv@[cur + 1] as int);
        let k: i32 = kv[cur];
        let v: i32 = kv[cur + 1];
        proof {
            assert(pair_at(kv@, cur as int));
            lemma_pairs_in_table_push(done, pair, b);
            assert(done.push(pair) + segment_pairs(kv@, cur + 2) =~= done + segment_pairs(
                kv@,
                cur as int,
            ));
            done = done.push(pair);
        }
        if k < 0 || k as usize >= len || v < 0 || v as usize >= len {
            ok = false;
        }
        cur += 2;
    }
    proof {
        assert(!pair_at(kv@, cur as int));
        assert(done =~= all);
    }
    if cur < n {
        if kv[cur] == 0 {
            (ok, cur + 1)
        } else {
            (ok, n)
        }
    } else {
        (ok, cur)
    }
}

/// Whether every index that decoding the densely packed nodes would read is
/// in the string table.
pub fn dense_is_resolvable(d: &osmformat::DenseNodes, b: &PrimitiveBlock) -> (ok: bool)
    ensures
        ok == dense_resolvable(d, b),
{
    let a: usize = if d.id.len() <= d.lat.len() {
        d.id.len()
    } else {
        d.lat.len()
    };
    let n: usize = if a <= d.lon.len() {
        a
    } else {
        d.lon.len()
    };
    let mut k: usize = 0;
    let mut pos: usize = 0;
    while k < n
        invariant
            k <= n,
            n == dense_count(d),
            pos == segment_start(d.keys_vals@, k as int),
            pos <= d.keys_vals@.len(),
            forall|j: int|
                0 <= j < k ==> pairs_in_table(
                    segment_pairs(d.keys_vals@, #[trigger] segment_start(d.keys_vals@, j)),
                    b,
                ),
        decreases n - k,
    {
        let (ok, end) = segment_in_table(d.keys_vals.as_slice(), pos, b);
        if !ok {
            return false;
        }
        proof {
            lemma_segment_end_bounds(d.keys_vals@, pos as int);
            assert(segment_start(d.keys_vals@, k + 1) == segment_end(
                d.keys_vals@,
                segment_start(d.keys_vals@, k as int),
            ));
        }
        pos = end;
        k += 1;
    }
    true
}

} // verus!
