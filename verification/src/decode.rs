//! What decoding means, stated over sequences and integers, and the
//! primitives that compute it: coordinates, tag maps, running sums.

use vstd::prelude::*;
use crate::objects::Tags;
use crate::osmformat::PrimitiveBlock;
use crate::text::{make_string, table_text};

verus! {

/// A coordinate in nanodegrees: the axis offset plus the stored value scaled
/// by the granularity.
pub open spec fn nanodegrees(offset: i64, granularity: i32, c: i64) -> int {
    offset + granularity * c
}

/// The smaller of two lengths.
pub open spec fn shorter(a: nat, b: nat) -> nat {
    if a <= b {
        a
    } else {
        b
    }
}

/// The key and value indices of a record, paired up to the shorter array.
pub open spec fn zip_indices(keys: Seq<u32>, vals: Seq<u32>) -> Seq<(int, int)> {
    Seq::new(shorter(keys.len(), vals.len()), |i: int| (keys[i] as int, vals[i] as int))
}

/// Every index of `pairs` is a position of the block's string table.
pub open spec fn pairs_in_table(pairs: Seq<(int, int)>, block: &PrimitiveBlock) -> bool {
    forall|i: int|
        0 <= i < pairs.len() ==> block.holds((#[trigger] pairs[i]).0) && block.holds(pairs[i].1)
}

/// The tags that a sequence of index pairs stands for: each pair binds the
/// text of its key to the text of its value, a later pair overriding an
/// earlier one with the same key text.
pub open spec fn resolve_pairs(pairs: Seq<(int, int)>, block: &PrimitiveBlock) -> Map<
    Seq<char>,
    Seq<char>,
>
    decreases pairs.len(),
{
    if pairs.len() == 0 {
        Map::empty()
    } else {
        resolve_pairs(pairs.drop_last(), block).insert(
            table_text(block, pairs.last().0),
            table_text(block, pairs.last().1),
        )
    }
}

/// A key text is bound by the tags exactly when some pair has it as its key.
pub proof fn lemma_resolve_pairs_keys(pairs: Seq<(int, int)>, block: &PrimitiveBlock, k: Seq<char>)
    ensures
        resolve_pairs(pairs, block).dom().contains(k) <==> exists|i: int|
            0 <= i < pairs.len() && table_text(block, (#[trigger] pairs[i]).0) == k,
    decreases pairs.len(),
{
    if pairs.len() > 0 {
        let front = pairs.drop_last();
        lemma_resolve_pairs_keys(front, block, k);
        if resolve_pairs(pairs, block).dom().contains(k) {
            if table_text(block, pairs.last().0) == k {
                assert(table_text(block, pairs[pairs.len() - 1].0) == k);
            } else {
                let i = choose|i: int|
                    0 <= i < front.len() && table_text(block, (#[trigger] front[i]).0) == k;
                assert(table_text(block, pairs[i].0) == k);
            }
        }
        if exists|i: int| 0 <= i < pairs.len() && table_text(block, (#[trigger] pairs[i]).0) == k {
            let i = choose|i: int|
                0 <= i < pairs.len() && table_text(block, (#[trigger] pairs[i]).0) == k;
            if i < front.len() {
                assert(table_text(block, front[i].0) == k);
            }
        }
    }
}

/// A key text is bound to the value text of the last pair that has it: where
/// no pair behind pair `i` has the same key text, the tags bind the key text
/// of pair `i` to its value text.
pub proof fn lemma_resolve_pairs_last_wins(pairs: Seq<(int, int)>, block: &PrimitiveBlock, i: int)
    requires
        0 <= i < pairs.len(),
        forall|j: int|
            i < j < pairs.len() ==> table_text(block, (#[trigger] pairs[j]).0) != table_text(
                block,
                pairs[i].0,
            ),
    ensures
        resolve_pairs(pairs, block).dom().contains(table_text(block, pairs[i].0)),
        resolve_pairs(pairs, block)[table_text(block, pairs[i].0)] == table_text(
            block,
            pairs[i].1,
        ),
    decreases pairs.len(),
{
    if i < pairs.len() - 1 {
        let front = pairs.drop_last();
        assert(front[i] == pairs[i]);
        assert forall|j: int| i < j < front.len() implies table_text(
            block,
            (#[trigger] front[j]).0,
        ) != table_text(block, front[i].0) by {
            assert(front[j] == pairs[j]);
        }
        lemma_resolve_pairs_last_wins(front, block, i);
        assert(table_text(block, pairs[pairs.len() - 1].0) != table_text(block, pairs[i].0));
    }
}

/// The sum of the first `n` deltas, wrapping around at the bounds of `i64`.
pub open spec fn running_sum(deltas: Seq<i64>, n: int) -> i64
    decreases n,
{
    if n <= 0 {
        0
    } else {
        running_sum(deltas, n - 1).wrapping_add(deltas[n - 1])
    }
}

/// The sum of the first `n` deltas as a mathematical integer.
pub open spec fn exact_sum(deltas: Seq<i64>, n: int) -> int
    decreases n,
{
    if n <= 0 {
        0
    } else {
        exact_sum(deltas, n - 1) + deltas[n - 1]
    }
}

/// The values that a delta-coded sequence stands for: element `i` is the sum
/// of the deltas up to and including `i`.
pub open spec fn delta_decoded(deltas: Seq<i64>) -> Seq<i64> {
    Seq::new(deltas.len(), |i: int| running_sum(deltas, i + 1))
}

/// While every prefix sum fits in an `i64`, the running sum is the exact sum.
pub proof fn lemma_running_sum_exact(deltas: Seq<i64>, n: int)
    requires
        0 <= n <= deltas.len(),
        forall|k: int| 0 <= k <= n ==> i64::MIN <= #[trigger] exact_sum(deltas, k) <= i64::MAX,
    ensures
        running_sum(deltas, n) == exact_sum(deltas, n),
    decreases n,
{
    if n > 0 {
        lemma_running_sum_exact(deltas, n - 1);
        assert(i64::MIN <= exact_sum(deltas, n) <= i64::MAX);
    }
}

/// The latitude in nanodegrees of the stored value `c`.
///
/// The result is exact: the product and the sum are taken in 128 bits, which
/// hold them for every granularity, offset and stored value.
pub fn make_lat(c: i64, b: &PrimitiveBlock) -> (r: i128)
    ensures
        r == nanodegrees(b.lat_offset, b.granularity, c),
{
    scale(b.lat_offset, b.granularity, c)
}

/// The longitude in nanodegrees of the stored value `c`.
///
/// The result is exact, as for [`make_lat`].
pub fn make_lon(c: i64, b: &PrimitiveBlock) -> (r: i128)
    ensures
        r == nanodegrees(b.lon_offset, b.granularity, c),
{
    scale(b.lon_offset, b.granularity, c)
}

fn scale(offset: i64, granularity: i32, c: i64) -> (r: i128)
    ensures
        r == nanodegrees(offset, granularity, c),
{
    let g: i128 = granularity as i128;
    let v: i128 = c as i128;
    assert(-0x4000_0000_0000_0000_0000_0000 <= g * v <= 0x4000_0000_0000_0000_0000_0000)
        by (nonlinear_arith)
        requires
            -0x8000_0000 <= g < 0x8000_0000,
            -0x8000_0000_0000_0000 <= v < 0x8000_0000_0000_0000,
    ;
    offset as i128 + g * v
}

/// The values of a delta-coded sequence.
pub fn decode_deltas(deltas: &[i64]) -> (out: Vec<i64>)
    ensures
        out@ == delta_decoded(deltas@),
{
    let n: usize = deltas.len();
    let mut out: Vec<i64> = Vec::new();
    let mut acc: i64 = 0;
    let mut i: usize = 0;
    while i < n
        invariant
            i <= n,
            n == deltas@.len(),
            acc == running_sum(deltas@, i as int),
            out@.len() == i,
            forall|j: int| 0 <= j < i ==> out@[j] == running_sum(deltas@, j + 1),
        decreases n - i,
    {
        acc = acc.wrapping_add(deltas[i]);
        out.push(acc);
        i += 1;
    }
    assert(out@ =~= delta_decoded(deltas@));
    out
}

/// The tags of a record with parallel key and value index arrays.
pub fn make_tags(keys: &[u32], vals: &[u32], b: &PrimitiveBlock) -> (tags: Tags)
    requires
        pairs_in_table(zip_indices(keys@, vals@), b),
    ensures
        tags.wf(),
        tags@ == resolve_pairs(zip_indices(keys@, vals@), b),
{
    let n: usize = if keys.len() <= vals.len() {
        keys.len()
    } else {
        vals.len()
    };
    let ghost pairs = zip_indices(keys@, vals@);
    let mut tags = Tags::new();
    let mut i: usize = 0;
    while i < n
        invariant
            i <= n,
            n == pairs.len(),
            pairs == zip_indices(keys@, vals@),
            pairs_in_table(pairs, b),
            tags.wf(),
            tags@ == resolve_pairs(pairs.take(i as int), b),
        decreases n - i,
    {
        assert(pairs[i as int] == (keys@[i as int] as int, vals@[i as int] as int));
        let k = make_string(keys[i] as usize, b);
        let v = make_string(vals[i] as usize, b);
        tags.insert(k, v);
        proof {
            assert(pairs.take(i + 1).drop_last() =~= pairs.take(i as int));
        }
        i += 1;
    }
    assert(pairs.take(n as int) =~= pairs);
    tags
}

/// Appending a pair keeps all indices in the table exactly when they were
/// and the indices of the new pair are.
pub proof fn lemma_pairs_in_table_push(pairs: Seq<(int, int)>, p: (int, int), b: &PrimitiveBlock)
    ensures
        pairs_in_table(pairs.push(p), b) == (pairs_in_table(pairs, b) && b.holds(p.0) && b.holds(
            p.1,
        )),
{
    let longer = pairs.push(p);
    if pairs_in_table(longer, b) {
        assert(longer[pairs.len() as int] == p);
        assert forall|i: int| 0 <= i < pairs.len() implies b.holds((#[trigger] pairs[i]).0)
            && b.holds(pairs[i].1) by {
            assert(longer[i] == pairs[i]);
        }
    }
    if pairs_in_table(pairs, b) && b.holds(p.0) && b.holds(p.1) {
        assert forall|i: int| 0 <= i < longer.len() implies b.holds((#[trigger] longer[i]).0)
            && b.holds(longer[i].1) by {
            if i < pairs.len() {
                assert(longer[i] == pairs[i]);
            }
        }
    }
}

/// Whether every index that [`make_tags`] would read is in the string table.
pub fn indices_in_table(keys: &[u32], vals: &[u32], b: &PrimitiveBlock) -> (ok: bool)
    ensures
        ok == pairs_in_table(zip_indices(keys@, vals@), b),
{
    let n: usize = if keys.len() <= vals.len() {
        keys.len()
    } else {
        vals.len()
    };
    let len: usize = b.stringtable.len();
    let ghost pairs = zip_indices(keys@, vals@);
    let mut i: usize = 0;
    while i < n
        invariant
            i <= n,
            n == pairs.len(),
            len == b.stringtable@.len(),
            pairs == zip_indices(keys@, vals@),
            forall|j: int| 0 <= j < i ==> b.holds((#[trigger] pairs[j]).0) && b.holds(pairs[j].1),
        decreases n - i,
    {
        assert(pairs[i as int] == (keys@[i as int] as int, vals@[i as int] as int));
        if keys[i] as usize >= len || vals[i] as usize >= len {
            return false;
        }
        i += 1;
    }
    true
}

} // verus!
