//! The terrain pipeline's pure core: batches the sampled coordinates,
//! reassembles the batch results, and builds the topology — all or nothing.
//! Callers only dispatch the batch requests between sampling and this step.

use vstd::prelude::*;
use vstd::arithmetic::div_mod::lemma_div_is_ordered;
use vstd::arithmetic::div_mod::lemma_div_by_self;
use vstd::arithmetic::div_mod::lemma_fundamental_div_mod;
use vstd::arithmetic::div_mod::lemma_fundamental_div_mod_converse_div;
use vstd::arithmetic::mul::lemma_mul_inequality;

use crate::grid::GridCoordinate;
use crate::grid::dims_wf;
use crate::fetch::Arrival;
use crate::fetch::TerrainError;
use crate::fetch::arrival_for;
use crate::fetch::arrivals_wf;
use crate::fetch::batch_at;
use crate::fetch::batch_ok;
use crate::fetch::batch_count;
use crate::fetch::concat_all;
use crate::fetch::payload_of;
use crate::fetch::payloads;
use crate::fetch::assemble_elevations;
use crate::fetch::split_batches;
use crate::mesh::Topology;
use crate::mesh::build_topology;
use crate::mesh::index_at;
use crate::mesh::vertex_at;

verus! {

/// How many coordinates batch `k` of an `n`-coordinate split carries.
pub open spec fn batch_len(n: int, batch_size: int, k: int) -> int {
    if (k + 1) * batch_size <= n {
        (k + 1) * batch_size - k * batch_size
    } else {
        n - k * batch_size
    }
}

/// Batch `k` of the split carries `batch_len` coordinates.
pub proof fn lemma_batch_at_len(s: Seq<GridCoordinate>, batch_size: int, k: int)
    requires
        1 <= batch_size,
        0 <= k < batch_count(s.len() as int, batch_size),
    ensures
        batch_at(s, batch_size, k).len() == batch_len(s.len() as int, batch_size, k),
{
    lemma_batch_bounds(s.len() as int, batch_size, k);
    assert(0 <= k * batch_size) by (nonlinear_arith)
        requires 0 <= k && 1 <= batch_size;
    assert(k * batch_size < (k + 1) * batch_size) by (nonlinear_arith)
        requires 1 <= batch_size;
}

/// Within the split, batch `k` starts strictly inside the sequence and the
/// batches before it are all full.
pub proof fn lemma_batch_bounds(n: int, batch_size: int, k: int)
    requires
        1 <= batch_size,
        0 <= n,
        0 <= k < batch_count(n, batch_size),
    ensures
        k * batch_size < n,
{
    let bs = batch_size;
    let m = n + bs - 1;
    let q = m / bs;
    lemma_fundamental_div_mod(m, bs);
    assert(m == q * bs + m % bs);
    assert(k + 1 <= q);
    lemma_mul_inequality(k + 1, q, bs);
    assert((k + 1) * bs == k * bs + bs) by (nonlinear_arith);
    assert(q * bs >= k * bs + bs);
    assert(n >= k * bs + 1);
}

/// One elevation per coordinate: payload sequences whose per-batch lengths
/// match the split of an `n`-coordinate sequence concatenate to exactly `n`
/// elevations.
pub proof fn lemma_batches_total_len(n: int, batch_size: int, ps: Seq<Seq<i64>>)
    requires
        1 <= batch_size,
        0 <= n,
        ps.len() == batch_count(n, batch_size),
        forall|k: int|
            0 <= k < ps.len() ==> (#[trigger] ps[k]).len() == batch_len(n, batch_size, k),
    ensures
        concat_all(ps).len() == n,
    decreases ps.len(),
{
    let bs = batch_size;
    if ps.len() == 0 {
        if n >= 1 {
            assert(n + bs - 1 >= bs);
            lemma_div_is_ordered(bs, n + bs - 1, bs);
            lemma_div_by_self(bs);
            assert(false);
        }
    } else {
        let k = ps.len() - 1;
        lemma_batch_bounds(n, bs, k);
        // The split has no batch past `k`: n fits within k + 1 batches.
        let m = n + bs - 1;
        lemma_fundamental_div_mod(m, bs);
        assert((k + 1) * bs == k * bs + bs) by (nonlinear_arith);
        assert(bs * (k + 1) == (k + 1) * bs) by (nonlinear_arith);
        assert(m == (k + 1) * bs + m % bs);
        assert(n <= (k + 1) * bs);
        // The first k batches are the split of the first k * batch_size
        // coordinates, which the induction covers.
        let n2 = k * bs;
        lemma_fundamental_div_mod_converse_div(n2 + bs - 1, bs, k, bs - 1);
        assert(batch_count(n2, bs) == k);
        assert forall|t: int| 0 <= t < k implies (#[trigger] ps.drop_last()[t]).len() == batch_len(
            n2,
            bs,
            t,
        ) by {
            assert(ps.drop_last()[t] == ps[t]);
            lemma_mul_inequality(t + 1, k, bs);
            assert(ps[t].len() == batch_len(n, bs, t));
            assert((t + 1) * bs <= n2);
            assert(n2 <= n);
        }
        lemma_batches_total_len(n2, bs, ps.drop_last());
        assert(concat_all(ps) == concat_all(ps.drop_last()) + ps.last());
        assert(ps.last().len() == n - n2);
    }
}

/// Batching never reorders: the coordinate at position `i` travels in batch
/// `i / batch_size`, at offset `i % batch_size` within it.
pub proof fn lemma_batch_of_position(s: Seq<GridCoordinate>, batch_size: int, i: int)
    requires
        1 <= batch_size,
        0 <= i < s.len(),
    ensures
        0 <= i / batch_size < batch_count(s.len() as int, batch_size),
        batch_at(s, batch_size, i / batch_size)[i % batch_size] == s[i],
{
    let bs = batch_size;
    let n = s.len() as int;
    let k = i / bs;
    let r = i % bs;
    lemma_fundamental_div_mod(i, bs);
    vstd::arithmetic::div_mod::lemma_mod_bound(i, bs);
    vstd::arithmetic::div_mod::lemma_div_pos_is_pos(i, bs);
    assert(bs * k == k * bs) by (nonlinear_arith);
    assert((k + 1) * bs == k * bs + bs) by (nonlinear_arith);
    // Batch k exists: n reaches past its start, so the split has more than
    // k batches.
    assert(n + bs - 1 >= (k + 1) * bs);
    vstd::arithmetic::div_mod::lemma_div_multiples_vanish(k + 1, bs);
    assert(bs * (k + 1) == (k + 1) * bs) by (nonlinear_arith);
    lemma_div_is_ordered((k + 1) * bs, n + bs - 1, bs);
    assert(batch_count(n, bs) >= k + 1);
    lemma_batch_at_len(s, bs, i / bs);
}

/// Assembly never reorders either: position `i` of the concatenated result
/// comes from batch `i / batch_size`, at offset `i % batch_size` — together
/// with `lemma_batch_of_position`, the elevation at position `i` belongs to
/// exactly the coordinate sampled at position `i`.
pub proof fn lemma_height_of_position(n: int, batch_size: int, ps: Seq<Seq<i64>>, i: int)
    requires
        1 <= batch_size,
        0 <= i < n,
        ps.len() == batch_count(n, batch_size),
        forall|k: int|
            0 <= k < ps.len() ==> (#[trigger] ps[k]).len() == batch_len(n, batch_size, k),
    ensures
        0 <= i / batch_size < ps.len(),
        0 <= i % batch_size < ps[i / batch_size].len(),
        concat_all(ps)[i] == ps[i / batch_size][i % batch_size],
    decreases ps.len(),
{
    let bs = batch_size;
    if ps.len() == 0 {
        assert(n + bs - 1 >= bs);
        lemma_div_is_ordered(bs, n + bs - 1, bs);
        lemma_div_by_self(bs);
        assert(false);
    } else {
        let k = ps.len() - 1;
        lemma_batch_bounds(n, bs, k);
        let m = n + bs - 1;
        lemma_fundamental_div_mod(m, bs);
        assert((k + 1) * bs == k * bs + bs) by (nonlinear_arith);
        assert(bs * (k + 1) == (k + 1) * bs) by (nonlinear_arith);
        assert(n <= (k + 1) * bs);
        let n2 = k * bs;
        lemma_fundamental_div_mod_converse_div(n2 + bs - 1, bs, k, bs - 1);
        assert(batch_count(n2, bs) == k);
        assert forall|t: int| 0 <= t < k implies (#[trigger] ps.drop_last()[t]).len() == batch_len(
            n2,
            bs,
            t,
        ) by {
            assert(ps.drop_last()[t] == ps[t]);
            lemma_mul_inequality(t + 1, k, bs);
            assert(ps[t].len() == batch_len(n, bs, t));
            assert((t + 1) * bs <= n2);
        }
        lemma_batches_total_len(n2, bs, ps.drop_last());
        assert(concat_all(ps) == concat_all(ps.drop_last()) + ps.last());
        if i < n2 {
            lemma_height_of_position(n2, bs, ps.drop_last(), i);
            assert(concat_all(ps)[i] == concat_all(ps.drop_last())[i]);
            vstd::arithmetic::div_mod::lemma_multiply_divide_lt(i, bs, k);
            assert(ps.drop_last()[i / bs] == ps[i / bs]);
        } else {
            vstd::arithmetic::div_mod::lemma_fundamental_div_mod_converse_mod(i, bs, k, i - n2);
            lemma_fundamental_div_mod_converse_div(i, bs, k, i - n2);
            assert(concat_all(ps)[i] == ps.last()[i - n2]);
            assert(ps.last() == ps[k]);
            assert(ps[k].len() == batch_len(n, bs, k));
        }
    }
}

/// The whole fetch-and-build step after sampling: splits the coordinates
/// into batches of `batch_size` (exactly as `split_batches` hands them to
/// the dispatcher), reassembles the arrived batch results in original
/// coordinate order, and builds the topology. Succeeds with a complete,
/// consistent topology exactly when every batch succeeded with the right
/// count; any batch failure yields the error alone — no partial terrain.
pub fn assemble_topology(
    cords: &Vec<GridCoordinate>,
    batch_size: usize,
    arrivals: &Vec<Arrival>,
    width: u32,
    depth: u32,
    scale: u32,
) -> (r: Result<Topology, TerrainError>)
    requires
        dims_wf(width, depth),
        cords@.len() == width * depth,
        1 <= batch_size,
        1 <= scale,
        arrivals_wf(arrivals@, batch_count(cords@.len() as int, batch_size as int)),
    ensures
        r is Ok <==> (forall|k: int|
            0 <= k < batch_count(cords@.len() as int, batch_size as int) ==> arrival_for(
                arrivals@,
                k,
            ) is Ok && payload_of(arrivals@, k).len() == batch_at(
                cords@,
                batch_size as int,
                k,
            ).len()),
        r matches Ok(t) ==> {
            let heights = concat_all(
                payloads(arrivals@, batch_count(cords@.len() as int, batch_size as int)),
            );
            &&& t.vertices@.len() == cords@.len()
            &&& forall|i: int|
                0 <= i < t.vertices@.len() ==> t.vertices@[i] == vertex_at(
                    cords@[i],
                    heights[i],
                    scale,
                )
            &&& t.indices@.len() == 6 * (((width - 1) as int) * ((depth - 1) as int))
            &&& forall|j: int|
                0 <= j < t.indices@.len() ==> t.indices@[j] == index_at(width as int, j)
            &&& forall|j: int| 0 <= j < t.indices@.len() ==> t.indices@[j] < t.vertices@.len()
        },
        r matches Err(TerrainError::Fetch(f)) ==> {
            &&& f.batch < batch_count(cords@.len() as int, batch_size as int)
            &&& arrival_for(arrivals@, f.batch as int) is Err
        },
        r matches Err(TerrainError::Consistency(c)) ==> {
            &&& c.batch < batch_count(cords@.len() as int, batch_size as int)
            &&& arrival_for(arrivals@, c.batch as int) is Ok
            &&& c.actual == payload_of(arrivals@, c.batch as int).len()
            &&& c.expected == batch_at(cords@, batch_size as int, c.batch as int).len()
            &&& c.actual != c.expected
        },
        r is Err ==> (r->Err_0 is Fetch || r->Err_0 is Consistency),
{
    let batches = split_batches(cords, batch_size);
    let ghost n = cords@.len() as int;
    let ghost bs = batch_size as int;
    let ghost nb = batch_count(n, bs);
    match assemble_elevations(&batches, arrivals) {
        Err(error) => {
            proof {
                if forall|k: int| 0 <= k < nb ==> batch_ok(arrivals@, batches@, k) {
                    assert(false);
                }
                let k0 = choose|k: int| 0 <= k < nb && !batch_ok(arrivals@, batches@, k);
                assert(batches@[k0]@ == batch_at(cords@, bs, k0));
                assert(!(arrival_for(arrivals@, k0) is Ok && payload_of(arrivals@, k0).len()
                    == batch_at(cords@, bs, k0).len()));
            }
            Err(error)
        },
        Ok(heights) => {
            proof {
                assert forall|k: int| 0 <= k < nb implies arrival_for(arrivals@, k) is Ok
                    && payload_of(arrivals@, k).len() == batch_at(cords@, bs, k).len() by {
                    assert(batch_ok(arrivals@, batches@, k));
                    assert(batches@[k]@ == batch_at(cords@, bs, k));
                }
                let ps = payloads(arrivals@, nb);
                assert forall|k: int| 0 <= k < ps.len() implies (#[trigger] ps[k]).len()
                    == batch_len(n, bs, k) by {
                    assert(ps[k] == payload_of(arrivals@, k));
                    assert(batch_ok(arrivals@, batches@, k));
                    lemma_batch_at_len(cords@, bs, k);
                }
                lemma_batches_total_len(n, bs, ps);
                assert(heights@.len() == cords@.len());
            }
            Ok(build_topology(cords, &heights, width, depth, scale))
        },
    }
}

} // verus!
