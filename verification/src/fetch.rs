//! Elevation fetcher: partitions the sampled grid into bounded batches, one
//! outbound request each, and reassembles the per-coordinate elevations in
//! the original order, or fails as a whole if any batch failed.
//!
//! The network itself stays outside this library. Callers dispatch one
//! request per batch (concurrently or not) and hand back one arrival per
//! batch, tagged with the batch's position; assembly is keyed by that
//! position, never by arrival order. Elevations travel as integers in the
//! provider's smallest unit (millimetres when the provider reports metres).

use vstd::prelude::*;
use vstd::seq_lib::group_to_multiset_ensures;
use vstd::arithmetic::div_mod::lemma_fundamental_div_mod_converse_div;

use crate::grid::GridCoordinate;
use crate::grid::SamplingError;

verus! {

/// What a single batch request came back as: its batch position, and either
/// the per-coordinate elevations or what went wrong.
pub type Arrival = (usize, Result<Vec<i64>, FetchErrorKind>);

/// How a single batch request failed.
#[derive(Clone, Copy, PartialEq, Eq, Structural, Debug)]
pub enum FetchErrorKind {
    /// The request never produced a response.
    Transport,
    /// The response carried a non-success status.
    Status,
    /// The response body did not have the expected shape.
    MalformedResponse,
}

/// A batch request failed; no partial terrain is produced.
#[derive(Clone, Copy, PartialEq, Eq, Structural, Debug)]
pub struct FetchFailure {
    pub batch: usize,
    pub kind: FetchErrorKind,
}

/// A batch answered with the wrong number of elevations; detected rather
/// than silently truncated or padded.
#[derive(Clone, Copy, PartialEq, Eq, Structural, Debug)]
pub struct ConsistencyError {
    pub batch: usize,
    pub expected: usize,
    pub actual: usize,
}

/// Everything terrain generation can fail with.
#[derive(Clone, Copy, PartialEq, Eq, Structural, Debug)]
pub enum TerrainError {
    Sampling(SamplingError),
    Fetch(FetchFailure),
    Consistency(ConsistencyError),
}

/// The batch position an arrival is tagged with.
pub open spec fn arrival_key(a: Seq<Arrival>, j: int) -> int {
    a[j].0 as int
}

/// Arrivals are one per batch: as many as there are batches, every tag in
/// range, no tag twice, every batch answered.
pub open spec fn arrivals_wf(a: Seq<Arrival>, n: int) -> bool {
    &&& a.len() == n
    &&& forall|j: int| 0 <= j < a.len() ==> #[trigger] arrival_key(a, j) < n
    &&& forall|j1: int, j2: int|
        0 <= j1 < a.len() && 0 <= j2 < a.len() && j1 != j2 ==> #[trigger] arrival_key(a, j1)
            != #[trigger] arrival_key(a, j2)
    &&& forall|k: int| 0 <= k < n ==> #[trigger] has_arrival(a, k)
}

/// Some arrival is tagged with batch position `k`.
pub open spec fn has_arrival(a: Seq<Arrival>, k: int) -> bool {
    exists|j: int| 0 <= j < a.len() && #[trigger] arrival_key(a, j) == k
}

/// The outcome of batch `k`, whatever position it arrived in.
pub open spec fn arrival_for(a: Seq<Arrival>, k: int) -> Result<Vec<i64>, FetchErrorKind> {
    a[choose|j: int| 0 <= j < a.len() && arrival_key(a, j) == k].1
}

/// The elevations batch `k` answered with.
pub open spec fn payload_of(a: Seq<Arrival>, k: int) -> Seq<i64> {
    arrival_for(a, k)->Ok_0@
}

/// Batch `k` succeeded and answered one elevation per coordinate sent.
pub open spec fn batch_ok(a: Seq<Arrival>, batches: Seq<Vec<GridCoordinate>>, k: int) -> bool {
    &&& arrival_for(a, k) is Ok
    &&& payload_of(a, k).len() == batches[k]@.len()
}

/// The payloads of the first `n` batches, in batch order.
pub open spec fn payloads(a: Seq<Arrival>, n: int) -> Seq<Seq<i64>> {
    Seq::new(n as nat, |k: int| payload_of(a, k))
}

/// All the given sequences, concatenated in order.
pub open spec fn concat_all(s: Seq<Seq<i64>>) -> Seq<i64>
    decreases s.len(),
{
    if s.len() == 0 {
        Seq::empty()
    } else {
        concat_all(s.drop_last()) + s.last()
    }
}

/// How many batches a sequence of `n` coordinates splits into.
pub open spec fn batch_count(n: int, batch_size: int) -> int {
    (n + batch_size - 1) / batch_size
}

/// The contiguous slice of coordinates batch `b` carries.
pub open spec fn batch_at(s: Seq<GridCoordinate>, batch_size: int, b: int) -> Seq<GridCoordinate> {
    s.subrange(
        b * batch_size,
        if (b + 1) * batch_size <= s.len() {
            (b + 1) * batch_size
        } else {
            s.len() as int
        },
    )
}

/// Splits the coordinate sequence into consecutive batches of at most
/// `batch_size`, never reordering: batch `b` is exactly the coordinates from
/// position `b * batch_size` on, and only the last batch may run short.
pub fn split_batches(cords: &Vec<GridCoordinate>, batch_size: usize) -> (r: Vec<
    Vec<GridCoordinate>,
>)
    requires
        1 <= batch_size,
    ensures
        r@.len() == batch_count(cords@.len() as int, batch_size as int),
        forall|b: int|
            0 <= b < r@.len() ==> r@[b]@ == batch_at(cords@, batch_size as int, b),
        forall|b: int| 0 <= b < r@.len() ==> 1 <= (#[trigger] r@[b])@.len() <= batch_size,
{
    let n = cords.len();
    let ghost bs = batch_size as int;
    let mut batches: Vec<Vec<GridCoordinate>> = Vec::new();
    let mut i: usize = 0;
    proof {
        assert(0 * bs == 0) by (nonlinear_arith);
    }
    while i < n
        invariant
            n == cords@.len(),
            1 <= batch_size,
            bs == batch_size,
            i <= n,
            i == if batches@.len() * bs <= n {
                batches@.len() * bs
            } else {
                n as int
            },
            batches@.len() > 0 ==> (batches@.len() - 1) * bs < n,
            forall|b: int| 0 <= b < batches@.len() ==> batch_matches(batches@, cords@, bs, b),
        decreases n - i,
    {
        let ghost kq = batches@.len() as int;
        proof {
            assert(kq * bs <= n);
            assert((kq + 1) * bs == kq * bs + bs) by (nonlinear_arith);
        }
        let rem = n - i;
        let take = if batch_size < rem {
            batch_size
        } else {
            rem
        };
        let mut batch: Vec<GridCoordinate> = Vec::new();
        for t in 0..take
            invariant
                i + take <= n,
                n == cords@.len(),
                batch@.len() == t,
                forall|u: int| 0 <= u < t ==> batch@[u] == cords@[i + u],
        {
            batch.push(cords[i + t]);
        }
        proof {
            assert(batch@ =~= cords@.subrange(i as int, i + take));
            assert(batch_at(cords@, bs, kq) == cords@.subrange(i as int, i + take)) by {
                assert(kq * bs == i);
                assert((kq + 1) * bs == i + bs) by (nonlinear_arith)
                    requires kq * bs == i;
            }
        }
        let ghost prev = batches@;
        let ghost this_batch = batch@;
        batches.push(batch);
        i = i + take;
        proof {
            assert forall|b: int|
                0 <= b < batches@.len() implies batch_matches(batches@, cords@, bs, b) by {
                if b < kq {
                    assert(batch_matches(prev, cords@, bs, b));
                    assert(batches@[b] == prev[b]);
                } else {
                    assert(batches@[b]@ == this_batch);
                }
            }
        }
    }
    proof {
        let k = batches@.len() as int;
        if n == 0 {
            assert(batch_count(0, bs) == (bs - 1) / bs);
            assert((bs - 1) / bs == 0) by {
                vstd::arithmetic::div_mod::lemma_basic_div(bs - 1, bs);
            }
        } else {
            assert(k > 0);
            assert(k * bs >= n);
            assert((k - 1) * bs < n);
            let m = n + bs - 1;
            assert(0 <= m - k * bs < bs) by (nonlinear_arith)
                requires (k - 1) * bs < n && k * bs >= n && m == n + bs - 1 && bs >= 1;
            lemma_fundamental_div_mod_converse_div(m, bs, k, m - k * bs);
        }
        assert forall|b: int| 0 <= b < batches@.len() implies (#[trigger] batches@[b])@ == batch_at(
            cords@,
            bs,
            b,
        ) && 1 <= batches@[b]@.len() <= bs by {
            assert(batch_matches(batches@, cords@, bs, b));
        }
    }
    batches
}

/// Batch `b` of the built list is the right slice of the input.
pub open spec fn batch_matches(
    batches: Seq<Vec<GridCoordinate>>,
    cords: Seq<GridCoordinate>,
    batch_size: int,
    b: int,
) -> bool {
    &&& batches[b]@ == batch_at(cords, batch_size, b)
    &&& 1 <= batches[b]@.len() <= batch_size
}

/// Reassembles the batched elevations in original coordinate order, keyed by
/// each arrival's batch position and never by arrival order. Succeeds only
/// if every batch succeeded with exactly one elevation per coordinate sent;
/// the first batch (in batch order) that failed or miscounted is reported.
pub fn assemble_elevations(
    batches: &Vec<Vec<GridCoordinate>>,
    arrivals: &Vec<Arrival>,
) -> (r: Result<Vec<i64>, TerrainError>)
    requires
        arrivals_wf(arrivals@, batches@.len() as int),
    ensures
        (forall|k: int| 0 <= k < batches@.len() ==> batch_ok(arrivals@, batches@, k)) <==> r is Ok,
        r is Ok ==> r->Ok_0@ == concat_all(payloads(arrivals@, batches@.len() as int)),
        r matches Err(TerrainError::Fetch(f)) ==> {
            &&& f.batch < batches@.len()
            &&& arrival_for(arrivals@, f.batch as int) == Err::<Vec<i64>, FetchErrorKind>(f.kind)
            &&& forall|t: int| 0 <= t < f.batch ==> batch_ok(arrivals@, batches@, t)
        },
        r matches Err(TerrainError::Consistency(c)) ==> {
            &&& c.batch < batches@.len()
            &&& arrival_for(arrivals@, c.batch as int) is Ok
            &&& c.actual == payload_of(arrivals@, c.batch as int).len()
            &&& c.expected == batches@[c.batch as int]@.len()
            &&& c.actual != c.expected
            &&& forall|t: int| 0 <= t < c.batch ==> batch_ok(arrivals@, batches@, t)
        },
        r is Err ==> (r->Err_0 is Fetch || r->Err_0 is Consistency),
{
    let n = batches.len();
    let mut out: Vec<i64> = Vec::new();
    for k in 0..n
        invariant
            n == batches@.len(),
            arrivals_wf(arrivals@, n as int),
            forall|t: int| 0 <= t < k ==> batch_ok(arrivals@, batches@, t),
            out@ == concat_all(payloads(arrivals@, k as int)),
    {
        let mut j: usize = 0;
        while j < n && arrivals[j].0 != k
            invariant
                n == arrivals@.len(),
                j <= n,
                forall|t: int| 0 <= t < j ==> #[trigger] arrival_key(arrivals@, t) != k,
            decreases n - j,
        {
            j = j + 1;
        }
        if j == n {
            proof {
                assert(has_arrival(arrivals@, k as int));
                let jj = choose|jj: int|
                    0 <= jj < arrivals@.len() && #[trigger] arrival_key(arrivals@, jj) == k;
                assert(arrival_key(arrivals@, jj) == k);
                assert(false);
            }
        }
        proof {
            assert(has_arrival(arrivals@, k as int));
            let jc = choose|jc: int|
                0 <= jc < arrivals@.len() && #[trigger] arrival_key(arrivals@, jc) == k;
            assert(arrival_key(arrivals@, j as int) == k);
            assert(jc == j as int);
            assert(arrival_for(arrivals@, k as int) == arrivals@[j as int].1);
        }
        let pair = &arrivals[j];
        match &pair.1 {
            Err(kind) => {
                proof {
                    assert(arrival_for(arrivals@, k as int) == Err::<Vec<i64>, FetchErrorKind>(
                        *kind,
                    ));
                    assert(!batch_ok(arrivals@, batches@, k as int));
                }
                return Err(TerrainError::Fetch(FetchFailure { batch: k, kind: *kind }));
            },
            Ok(heights) => {
                proof {
                    assert(arrival_for(arrivals@, k as int) is Ok);
                    assert(heights@ == payload_of(arrivals@, k as int));
                }
                let expected = batches[k].len();
                if heights.len() != expected {
                    proof {
                        assert(!batch_ok(arrivals@, batches@, k as int));
                    }
                    return Err(
                        TerrainError::Consistency(
                            ConsistencyError { batch: k, expected, actual: heights.len() },
                        ),
                    );
                }
                let m = heights.len();
                for u in 0..m
                    invariant
                        m == heights@.len(),
                        heights@ == payload_of(arrivals@, k as int),
                        out@ == concat_all(payloads(arrivals@, k as int)) + heights@.subrange(
                            0,
                            u as int,
                        ),
                {
                    out.push(heights[u]);
                    proof {
                        assert(heights@.subrange(0, u + 1) =~= heights@.subrange(0, u as int)
                            + seq![heights@[u as int]]);
                    }
                }
                proof {
                    let ps = payloads(arrivals@, k + 1 as int);
                    assert(ps.drop_last() =~= payloads(arrivals@, k as int));
                    assert(heights@.subrange(0, m as int) =~= heights@);
                    assert(concat_all(ps) == concat_all(ps.drop_last()) + ps.last());
                    assert(out@ == concat_all(payloads(arrivals@, k + 1 as int)));
                }
            },
        }
    }
    Ok(out)
}

/// Assembly is keyed by batch position alone: two arrival sequences that are
/// permutations of one another — the same batch results arriving in any two
/// completion orders — assign every batch the same outcome, so the assembled
/// elevation sequence, and with it the final vertex order, cannot change.
pub proof fn lemma_arrival_order_irrelevant(a: Seq<Arrival>, b: Seq<Arrival>, n: int)
    requires
        arrivals_wf(a, n),
        arrivals_wf(b, n),
        a.to_multiset() == b.to_multiset(),
    ensures
        forall|k: int| 0 <= k < n ==> arrival_for(a, k) == arrival_for(b, k),
        payloads(a, n) == payloads(b, n),
{
    broadcast use group_to_multiset_ensures;

    assert forall|k: int| 0 <= k < n implies arrival_for(a, k) == arrival_for(b, k) by {
        assert(has_arrival(a, k));
        assert(has_arrival(b, k));
        let ja = choose|j: int| 0 <= j < a.len() && #[trigger] arrival_key(a, j) == k;
        assert(arrival_key(a, ja) == k);
        assert(a.contains(a[ja])) by {
            assert(exists|i: int| 0 <= i < a.len() && a[i] == a[ja]) by {
                assert(0 <= ja < a.len() && a[ja] == a[ja]);
            }
        }
        assert(b.contains(a[ja])) by {
            assert(a.to_multiset().count(a[ja]) > 0);
        }
        let jb = choose|j: int| 0 <= j < b.len() && b[j] == a[ja];
        assert(arrival_key(b, jb) == k);
        let jc = choose|j: int| 0 <= j < b.len() && #[trigger] arrival_key(b, j) == k;
        assert(jc == jb);
    }
    assert(payloads(a, n) =~= payloads(b, n));
}

} // verus!
