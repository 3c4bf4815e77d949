//! Uniform-cell spatial hash grid over 2-D integer points.
//!
//! The plane is divided into square cells of a fixed size; each occupied
//! cell maps to the list of point indices whose coordinates fall in it, in
//! insertion order. Because the engine sizes cells to the attraction
//! distance, a nearest-neighbor query only ever needs the 3×3 block of
//! cells around the query position.

use vstd::prelude::*;
use std::collections::HashMap;
use crate::COORD_LIMIT;
use crate::coord_in_range;
use crate::spec_dist_sq;
use crate::dist_sq;

verus! {

broadcast use vstd::std_specs::hash::group_hash_axioms;

/// Cell coordinate of a world coordinate `v` for cell size `cell_size`:
/// the floor of `v / cell_size` (all stored and queried coordinates are
/// non-negative, where Euclidean and floor division agree).
pub open spec fn spec_cell_coord(v: int, cell_size: int) -> int
    recommends
        cell_size >= 1,
{
    v / cell_size
}

/// A cell coordinate the grid may be asked about: every cell of an
/// in-range point, and the eight neighbors of any such cell.
pub open spec fn cell_in_probe_range(cx: int, cy: int) -> bool {
    &&& -1 <= cx <= COORD_LIMIT + 1
    &&& -1 <= cy <= COORD_LIMIT + 1
}

/// Packs a cell coordinate pair into one 64-bit map key. Injective over the
/// probe range, so distinct cells never share a key.
pub open spec fn spec_cell_key(cx: int, cy: int) -> u64
    recommends
        cell_in_probe_range(cx, cy),
{
    ((cx + 1) * 0x1_0000_0000 + (cy + 1)) as u64
}

pub proof fn lemma_cell_key_injective(cx1: int, cy1: int, cx2: int, cy2: int)
    requires
        cell_in_probe_range(cx1, cy1),
        cell_in_probe_range(cx2, cy2),
        spec_cell_key(cx1, cy1) == spec_cell_key(cx2, cy2),
    ensures
        cx1 == cx2,
        cy1 == cy2,
{
    let k1 = (cx1 + 1) * 0x1_0000_0000 + (cy1 + 1);
    let k2 = (cx2 + 1) * 0x1_0000_0000 + (cy2 + 1);
    assert(0 <= k1 < 0x1_0000_0000_0000_0000 && 0 <= k2 < 0x1_0000_0000_0000_0000)
        by (nonlinear_arith)
        requires
            0 <= cx1 + 1 <= COORD_LIMIT + 2,
            0 <= cy1 + 1 <= COORD_LIMIT + 2,
            0 <= cx2 + 1 <= COORD_LIMIT + 2,
            0 <= cy2 + 1 <= COORD_LIMIT + 2,
            k1 == (cx1 + 1) * 0x1_0000_0000 + (cy1 + 1),
            k2 == (cx2 + 1) * 0x1_0000_0000 + (cy2 + 1);
    assert(k1 == k2);
    assert(cx1 == cx2 && cy1 == cy2) by (nonlinear_arith)
        requires
            0 <= cy1 + 1 < 0x1_0000_0000,
            0 <= cy2 + 1 < 0x1_0000_0000,
            k1 == (cx1 + 1) * 0x1_0000_0000 + (cy1 + 1),
            k2 == (cx2 + 1) * 0x1_0000_0000 + (cy2 + 1),
            k1 == k2;
}

/// Packs an in-probe-range cell into its map key.
fn cell_key(cx: i64, cy: i64) -> (k: u64)
    requires
        cell_in_probe_range(cx as int, cy as int),
    ensures
        k == spec_cell_key(cx as int, cy as int),
{
    proof {
        assert((cx + 1) * 0x1_0000_0000 + (cy + 1) < 0x1_0000_0000_0000_0000)
            by (nonlinear_arith)
            requires
                0 <= cx + 1 <= COORD_LIMIT + 2,
                0 <= cy + 1 <= COORD_LIMIT + 2;
        assert((cx + 1) * 0x1_0000_0000 >= 0) by (nonlinear_arith)
            requires cx + 1 >= 0;
    }
    ((cx + 1) as u64) * 0x1_0000_0000 + ((cy + 1) as u64)
}

/// The indices (in increasing order) of the points of `points` whose cell
/// is `(cx, cy)`: the model of one grid bucket.
pub open spec fn spec_cell_indices(
    points: Seq<(i64, i64)>,
    cell_size: int,
    cx: int,
    cy: int,
) -> Seq<usize>
    decreases points.len(),
{
    if points.len() == 0 {
        Seq::empty()
    } else {
        let prefix = spec_cell_indices(points.drop_last(), cell_size, cx, cy);
        let p = points.last();
        if spec_cell_coord(p.0 as int, cell_size) == cx && spec_cell_coord(p.1 as int, cell_size)
            == cy {
            prefix.push((points.len() - 1) as usize)
        } else {
            prefix
        }
    }
}

/// Entry `k` of a cell model refers to a point of `points` lying in that
/// cell.
pub proof fn lemma_cell_indices_elements(
    points: Seq<(i64, i64)>,
    cell_size: int,
    cx: int,
    cy: int,
    k: int,
)
    requires
        points.len() <= usize::MAX,
        0 <= k < spec_cell_indices(points, cell_size, cx, cy).len(),
    ensures
        spec_cell_indices(points, cell_size, cx, cy)[k] < points.len(),
        spec_cell_coord(
            points[spec_cell_indices(points, cell_size, cx, cy)[k] as int].0 as int,
            cell_size,
        ) == cx,
        spec_cell_coord(
            points[spec_cell_indices(points, cell_size, cx, cy)[k] as int].1 as int,
            cell_size,
        ) == cy,
    decreases points.len(),
{
    let s = spec_cell_indices(points, cell_size, cx, cy);
    let pre = points.drop_last();
    let sp = spec_cell_indices(pre, cell_size, cx, cy);
    let pl = points.last();
    if spec_cell_coord(pl.0 as int, cell_size) == cx && spec_cell_coord(pl.1 as int, cell_size)
        == cy {
        assert(s == sp.push((points.len() - 1) as usize));
        if k < sp.len() {
            lemma_cell_indices_elements(pre, cell_size, cx, cy, k);
            assert(s[k] == sp[k]);
            assert(pre[sp[k] as int] == points[sp[k] as int]);
        } else {
            assert(s[k] == (points.len() - 1) as usize);
            assert(points.last() == points[points.len() - 1]);
        }
    } else {
        assert(s == sp);
        lemma_cell_indices_elements(pre, cell_size, cx, cy, k);
        assert(pre[sp[k] as int] == points[sp[k] as int]);
    }
}

/// Every point of `points` in cell `(cx, cy)` has its index in the cell
/// model.
pub proof fn lemma_cell_indices_complete(
    points: Seq<(i64, i64)>,
    cell_size: int,
    cx: int,
    cy: int,
    j: int,
)
    requires
        points.len() <= usize::MAX,
        0 <= j < points.len(),
        spec_cell_coord(points[j].0 as int, cell_size) == cx,
        spec_cell_coord(points[j].1 as int, cell_size) == cy,
    ensures
        spec_cell_indices(points, cell_size, cx, cy).contains(j as usize),
    decreases points.len(),
{
    let whole = spec_cell_indices(points, cell_size, cx, cy);
    if j == points.len() - 1 {
        assert(points.last() == points[j]);
        assert(whole.last() == j as usize);
    } else {
        let pre = points.drop_last();
        assert(pre[j] == points[j]);
        lemma_cell_indices_complete(pre, cell_size, cx, cy, j);
        let prefix = spec_cell_indices(pre, cell_size, cx, cy);
        let k = choose|k: int| 0 <= k < prefix.len() && prefix[k] == j as usize;
        assert(0 <= k < whole.len() && whole[k] == j as usize);
    }
}

/// Appending a point extends the model of its own cell by its index and
/// leaves every other cell model unchanged.
pub proof fn lemma_cell_indices_push(
    points: Seq<(i64, i64)>,
    cell_size: int,
    p: (i64, i64),
    cx: int,
    cy: int,
)
    ensures
        spec_cell_indices(points.push(p), cell_size, cx, cy) == if spec_cell_coord(
            p.0 as int,
            cell_size,
        ) == cx && spec_cell_coord(p.1 as int, cell_size) == cy {
            spec_cell_indices(points, cell_size, cx, cy).push(points.len() as usize)
        } else {
            spec_cell_indices(points, cell_size, cx, cy)
        },
{
    assert(points.push(p).drop_last() =~= points);
    assert(points.push(p).last() == p);
}

/// The best candidate among `cands`: the entry with the smallest squared
/// distance to `q`, the earliest such entry winning ties. `None` exactly
/// when `cands` is empty.
pub open spec fn spec_best_candidate(
    points: Seq<(i64, i64)>,
    q: (i64, i64),
    cands: Seq<usize>,
) -> Option<(usize, i64)>
    decreases cands.len(),
{
    if cands.len() == 0 {
        None
    } else {
        let prev = spec_best_candidate(points, q, cands.drop_last());
        let j = cands.last();
        let d = spec_dist_sq(points[j as int], q);
        match prev {
            None => Some((j, d as i64)),
            Some(b) => if d < b.1 as int {
                Some((j, d as i64))
            } else {
                prev
            },
        }
    }
}

/// `b` names a candidate of `cands` whose squared distance to `q` is
/// minimal among all candidates.
pub open spec fn is_min_candidate(
    points: Seq<(i64, i64)>,
    q: (i64, i64),
    cands: Seq<usize>,
    b: (usize, i64),
) -> bool {
    &&& cands.contains(b.0)
    &&& b.0 < points.len()
    &&& b.1 == spec_dist_sq(points[b.0 as int], q)
    &&& forall|k: int|
        0 <= k < cands.len() ==> b.1 <= spec_dist_sq(points[#[trigger] cands[k] as int], q)
}

/// What the candidate fold returns: nothing for no candidates, otherwise a
/// minimal candidate.
pub proof fn lemma_best_candidate_props(points: Seq<(i64, i64)>, q: (i64, i64), cands: Seq<usize>)
    requires
        points.len() <= usize::MAX,
        coord_in_range(q),
        forall|i: int| 0 <= i < points.len() ==> coord_in_range(#[trigger] points[i]),
        forall|k: int| 0 <= k < cands.len() ==> (#[trigger] cands[k]) < points.len(),
    ensures
        cands.len() == 0 ==> spec_best_candidate(points, q, cands) is None,
        cands.len() > 0 ==> {
            &&& spec_best_candidate(points, q, cands) is Some
            &&& is_min_candidate(points, q, cands, spec_best_candidate(points, q, cands)->Some_0)
        },
    decreases cands.len(),
{
    if cands.len() > 0 {
        let pre = cands.drop_last();
        lemma_best_candidate_props(points, q, pre);
        let j = cands.last();
        assert(cands[cands.len() - 1] == j);
        assert(j < points.len());
        let d = spec_dist_sq(points[j as int], q);
        crate::lemma_dist_sq_bounds(points[j as int], q);
        let r = spec_best_candidate(points, q, cands);
        if pre.len() == 0 {
            assert(r == Some((j, d as i64)));
            assert(cands.len() == 1);
            assert(cands[0] == j);
            assert(cands.contains(j));
        } else {
            let b = spec_best_candidate(points, q, pre)->Some_0;
            assert(is_min_candidate(points, q, pre, b));
            assert(pre.contains(b.0)) by {
                assert(is_min_candidate(points, q, pre, b));
            }
            let bk = choose|bk: int| 0 <= bk < pre.len() && pre[bk] == b.0;
            assert(cands[bk] == b.0);
            assert(cands.contains(b.0));
            assert forall|k: int| 0 <= k < pre.len() implies cands[k] == pre[k] by {}
            if d < b.1 as int {
                assert(r == Some((j, d as i64)));
                assert(is_min_candidate(points, q, cands, (j, d as i64)));
            } else {
                assert(r == Some(b));
                assert(is_min_candidate(points, q, cands, b));
            }
        }
    }
}

/// The cell visited at step `n` (0-based, row-major) of the 3×3 scan
/// around the query cell `(qcx, qcy)`.
pub open spec fn probe_cell(qcx: int, qcy: int, n: int) -> (int, int) {
    (qcx - 1 + n / 3, qcy - 1 + n % 3)
}

/// The candidate indices collected by the first `n` steps of the 3×3
/// scan, in scan order.
pub open spec fn spec_neighborhood_upto(
    points: Seq<(i64, i64)>,
    cell_size: int,
    qcx: int,
    qcy: int,
    n: int,
) -> Seq<usize>
    decreases n,
{
    if n <= 0 {
        Seq::empty()
    } else {
        spec_neighborhood_upto(points, cell_size, qcx, qcy, n - 1) + spec_cell_indices(
            points,
            cell_size,
            probe_cell(qcx, qcy, n - 1).0,
            probe_cell(qcx, qcy, n - 1).1,
        )
    }
}

/// All candidate indices in the 3×3 block of cells around `(qcx, qcy)`,
/// in scan order.
pub open spec fn spec_neighborhood(
    points: Seq<(i64, i64)>,
    cell_size: int,
    qcx: int,
    qcy: int,
) -> Seq<usize> {
    spec_neighborhood_upto(points, cell_size, qcx, qcy, 9)
}

/// The nearest-point query's value: the minimal candidate of the 3×3
/// neighborhood of the query position's cell, ties broken by scan order.
pub open spec fn spec_find_nearest(
    points: Seq<(i64, i64)>,
    cell_size: int,
    q: (i64, i64),
) -> Option<(usize, i64)> {
    spec_best_candidate(
        points,
        q,
        spec_neighborhood(
            points,
            cell_size,
            spec_cell_coord(q.0 as int, cell_size),
            spec_cell_coord(q.1 as int, cell_size),
        ),
    )
}

/// Uniform-cell spatial hash: maps packed cell keys to the indices of the
/// points inserted into that cell, in insertion order.
pub struct SpatialGrid {
    cell_size: i64,
    cells: HashMap<u64, Vec<usize>>,
}

impl SpatialGrid {
    /// The fixed cell size this grid was created with.
    pub closed spec fn cell_size(self) -> int {
        self.cell_size as int
    }

    /// The indices stored for cell `(cx, cy)`, in insertion order.
    pub closed spec fn bucket(self, cx: int, cy: int) -> Seq<usize> {
        if self.cells@.contains_key(spec_cell_key(cx, cy)) {
            self.cells@[spec_cell_key(cx, cy)]@
        } else {
            Seq::empty()
        }
    }

    /// The grid's construction-time invariant: a usable cell size.
    pub open spec fn wf(self) -> bool {
        1 <= self.cell_size() <= COORD_LIMIT
    }

    /// The grid holds exactly the points of `points`: every probe-range
    /// bucket equals the model bucket computed from the point sequence.
    pub open spec fn consistent_with(self, points: Seq<(i64, i64)>) -> bool {
        forall|cx: int, cy: int|
            cell_in_probe_range(cx, cy) ==> #[trigger] self.bucket(cx, cy) == spec_cell_indices(
                points,
                self.cell_size(),
                cx,
                cy,
            )
    }

    /// Creates an empty grid with the given cell size.
    pub fn new(cell_size: i64) -> (r: SpatialGrid)
        requires
            1 <= cell_size <= COORD_LIMIT,
        ensures
            r.wf(),
            r.cell_size() == cell_size,
            r.consistent_with(Seq::<(i64, i64)>::empty()),
    {
        let r = SpatialGrid { cell_size, cells: HashMap::new() };
        proof {
            assert forall|cx: int, cy: int| cell_in_probe_range(cx, cy) implies #[trigger] r.bucket(
                cx,
                cy,
            ) == spec_cell_indices(Seq::<(i64, i64)>::empty(), r.cell_size(), cx, cy) by {
                assert(!r.cells@.contains_key(spec_cell_key(cx, cy)));
            }
        }
        r
    }

    /// Computes the cell of an in-range position.
    pub fn get_cell(&self, x: i64, y: i64) -> (c: (i64, i64))
        requires
            self.wf(),
            0 <= x <= COORD_LIMIT,
            0 <= y <= COORD_LIMIT,
        ensures
            c.0 == spec_cell_coord(x as int, self.cell_size()),
            c.1 == spec_cell_coord(y as int, self.cell_size()),
            0 <= c.0 <= COORD_LIMIT,
            0 <= c.1 <= COORD_LIMIT,
    {
        let cx = (x as u64) / (self.cell_size as u64);
        let cy = (y as u64) / (self.cell_size as u64);
        proof {
            vstd::arithmetic::div_mod::lemma_div_nonincreasing(x as int, self.cell_size as int);
            vstd::arithmetic::div_mod::lemma_div_nonincreasing(y as int, self.cell_size as int);
            vstd::arithmetic::div_mod::lemma_div_pos_is_pos(x as int, self.cell_size as int);
            vstd::arithmetic::div_mod::lemma_div_pos_is_pos(y as int, self.cell_size as int);
        }
        (cx as i64, cy as i64)
    }

    /// Appends `index` to the bucket of the cell containing `(x, y)`;
    /// every other bucket is untouched. Insertion always succeeds.
    pub fn insert(&mut self, x: i64, y: i64, index: usize)
        requires
            old(self).wf(),
            0 <= x <= COORD_LIMIT,
            0 <= y <= COORD_LIMIT,
        ensures
            final(self).wf(),
            final(self).cell_size() == old(self).cell_size(),
            ({
                let cx = spec_cell_coord(x as int, old(self).cell_size());
                let cy = spec_cell_coord(y as int, old(self).cell_size());
                &&& final(self).bucket(cx, cy) == old(self).bucket(cx, cy).push(index)
                &&& forall|ox: int, oy: int|
                    cell_in_probe_range(ox, oy) && !(ox == cx && oy == cy)
                        ==> #[trigger] final(self).bucket(ox, oy) == old(self).bucket(ox, oy)
            }),
    {
        let (cx, cy) = self.get_cell(x, y);
        let key = cell_key(cx, cy);
        let ghost old_map = self.cells@;
        let ghost old_bucket = old(self).bucket(cx as int, cy as int);
        let mut entries: Vec<usize> = match self.cells.remove(&key) {
            Some(v) => v,
            None => Vec::new(),
        };
        proof {
            assert(entries@ =~= old_bucket);
        }
        entries.push(index);
        self.cells.insert(key, entries);
        proof {
            let csz = old(self).cell_size();
            let scx = spec_cell_coord(x as int, csz);
            let scy = spec_cell_coord(y as int, csz);
            assert(self.cells@.contains_key(key));
            assert(self.bucket(scx, scy) =~= old_bucket.push(index));
            assert forall|ox: int, oy: int|
                cell_in_probe_range(ox, oy) && !(ox == scx && oy == scy) implies #[trigger] self
                .bucket(ox, oy) == old(self).bucket(ox, oy) by {
                if spec_cell_key(ox, oy) == key {
                    lemma_cell_key_injective(ox, oy, scx, scy);
                }
            }
        }
    }

    /// Scans the 3×3 block of cells around `(x, y)` and returns the stored
    /// index nearest to it together with the squared distance, the
    /// first-encountered candidate winning ties; `None` exactly when all
    /// nine cells are empty.
    pub fn find_nearest(&self, x: i64, y: i64, points: &Vec<(i64, i64)>) -> (r: Option<
        (usize, i64),
    >)
        requires
            self.wf(),
            0 <= x <= COORD_LIMIT,
            0 <= y <= COORD_LIMIT,
            self.consistent_with(points@),
            forall|i: int| 0 <= i < points@.len() ==> coord_in_range(#[trigger] points@[i]),
        ensures
            r == spec_find_nearest(points@, self.cell_size(), (x, y)),
    {
        let ghost cs = self.cell_size();
        let plen = points.len();
        let (qcx, qcy) = self.get_cell(x, y);
        let mut best: Option<(usize, i64)> = None;
        let ghost mut done: Seq<usize> = Seq::empty();
        for step in 0..9usize
            invariant
                self.wf(),
                0 <= x <= COORD_LIMIT,
                0 <= y <= COORD_LIMIT,
                qcx == spec_cell_coord(x as int, cs),
                qcy == spec_cell_coord(y as int, cs),
                0 <= qcx <= COORD_LIMIT,
                0 <= qcy <= COORD_LIMIT,
                cs == self.cell_size(),
                points@.len() <= usize::MAX,
                self.consistent_with(points@),
                forall|i: int| 0 <= i < points@.len() ==> coord_in_range(#[trigger] points@[i]),
                done == spec_neighborhood_upto(points@, cs, qcx as int, qcy as int, step as int),
                forall|k: int| 0 <= k < done.len() ==> (#[trigger] done[k]) < points@.len(),
                best == spec_best_candidate(points@, (x, y), done),
        {
            let cx = qcx - 1 + (step / 3) as i64;
            let cy = qcy - 1 + (step % 3) as i64;
            let ghost cell = probe_cell(qcx as int, qcy as int, step as int);
            proof {
                assert(cell.0 == cx && cell.1 == cy);
                assert(cell_in_probe_range(cx as int, cy as int));
            }
            let ghost bucket_model = spec_cell_indices(points@, cs, cx as int, cy as int);
            proof {
                assert(self.bucket(cx as int, cy as int) == bucket_model);
                assert forall|k: int| 0 <= k < bucket_model.len() implies (#[trigger] bucket_model[
                    k
                ]) < points@.len() by {
                    lemma_cell_indices_elements(points@, cs, cx as int, cy as int, k);
                }
            }
            let key = cell_key(cx, cy);
            match self.cells.get(&key) {
                Some(entries) => {
                    proof {
                        assert(entries@ == bucket_model);
                    }
                    let n = entries.len();
                    let mut t: usize = 0;
                    while t < n
                        invariant
                            n == entries.len(),
                            t <= n,
                            points@.len() <= usize::MAX,
                            entries@ == bucket_model,
                            forall|k: int|
                                0 <= k < bucket_model.len() ==> (#[trigger] bucket_model[k])
                                    < points@.len(),
                            forall|k: int|
                                0 <= k < done.len() ==> (#[trigger] done[k]) < points@.len(),
                            forall|i: int|
                                0 <= i < points@.len() ==> coord_in_range(#[trigger] points@[i]),
                            0 <= x <= COORD_LIMIT,
                            0 <= y <= COORD_LIMIT,
                            best == spec_best_candidate(
                                points@,
                                (x, y),
                                done + bucket_model.take(t as int),
                            ),
                        decreases n - t,
                    {
                        let idx = entries[t];
                        let p = points[idx];
                        let d = dist_sq(p, (x, y));
                        let ghost c0 = done + bucket_model.take(t as int);
                        let ghost c1 = done + bucket_model.take(t as int + 1);
                        proof {
                            assert(c1.drop_last() =~= c0);
                            assert(c1.last() == bucket_model[t as int]);
                            crate::lemma_dist_sq_bounds(p, (x, y));
                        }
                        match best {
                            None => {
                                best = Some((idx, d));
                            },
                            Some(b) => {
                                if d < b.1 {
                                    best = Some((idx, d));
                                }
                            },
                        }
                        proof {
                            assert(best == spec_best_candidate(points@, (x, y), c1));
                        }
                        t = t + 1;
                    }
                    proof {
                        assert(bucket_model.take(bucket_model.len() as int) =~= bucket_model);
                        done = done + bucket_model;
                    }
                },
                None => {
                    proof {
                        assert(bucket_model.len() == 0);
                        assert(done + bucket_model =~= done);
                        done = done + bucket_model;
                    }
                },
            }
        }
        proof {
            assert(done == spec_neighborhood(points@, cs, qcx as int, qcy as int));
        }
        best
    }
}


/// Every candidate the 3×3 scan collects is a valid point index.
pub proof fn lemma_neighborhood_upto_elements(
    points: Seq<(i64, i64)>,
    cell_size: int,
    qcx: int,
    qcy: int,
    n: int,
)
    requires
        points.len() <= usize::MAX,
    ensures
        forall|k: int|
            0 <= k < spec_neighborhood_upto(points, cell_size, qcx, qcy, n).len()
                ==> (#[trigger] spec_neighborhood_upto(points, cell_size, qcx, qcy, n)[k])
                < points.len(),
    decreases n,
{
    if n > 0 {
        lemma_neighborhood_upto_elements(points, cell_size, qcx, qcy, n - 1);
        let prev = spec_neighborhood_upto(points, cell_size, qcx, qcy, n - 1);
        let cell = probe_cell(qcx, qcy, n - 1);
        let bucket = spec_cell_indices(points, cell_size, cell.0, cell.1);
        let whole = spec_neighborhood_upto(points, cell_size, qcx, qcy, n);
        assert forall|k: int| 0 <= k < whole.len() implies (#[trigger] whole[k])
            < points.len() by {
            if k < prev.len() {
                assert(whole[k] == prev[k]);
            } else {
                assert(whole[k] == bucket[k - prev.len()]);
                lemma_cell_indices_elements(points, cell_size, cell.0, cell.1, k - prev.len());
            }
        }
    }
}

/// A candidate seen by step `n` of the scan is still in the collection at
/// any later step.
proof fn lemma_neighborhood_upto_grow(
    points: Seq<(i64, i64)>,
    cell_size: int,
    qcx: int,
    qcy: int,
    n: int,
    m: int,
    j: usize,
)
    requires
        0 <= n <= m,
        spec_neighborhood_upto(points, cell_size, qcx, qcy, n).contains(j),
    ensures
        spec_neighborhood_upto(points, cell_size, qcx, qcy, m).contains(j),
    decreases m - n,
{
    if m > n {
        lemma_neighborhood_upto_grow(points, cell_size, qcx, qcy, n, m - 1, j);
        let prev = spec_neighborhood_upto(points, cell_size, qcx, qcy, m - 1);
        let whole = spec_neighborhood_upto(points, cell_size, qcx, qcy, m);
        let k = choose|k: int| 0 <= k < prev.len() && prev[k] == j;
        assert(0 <= k < whole.len() && whole[k] == j);
    }
}

/// A point whose cell lies in the 3×3 block around the query cell is among
/// the scan's candidates.
pub proof fn lemma_neighborhood_contains(
    points: Seq<(i64, i64)>,
    cell_size: int,
    qcx: int,
    qcy: int,
    j: int,
)
    requires
        points.len() <= usize::MAX,
        0 <= j < points.len(),
        qcx - 1 <= spec_cell_coord(points[j].0 as int, cell_size) <= qcx + 1,
        qcy - 1 <= spec_cell_coord(points[j].1 as int, cell_size) <= qcy + 1,
    ensures
        spec_neighborhood(points, cell_size, qcx, qcy).contains(j as usize),
{
    let cx = spec_cell_coord(points[j].0 as int, cell_size);
    let cy = spec_cell_coord(points[j].1 as int, cell_size);
    lemma_cell_indices_complete(points, cell_size, cx, cy, j);
    let a = cx - (qcx - 1);
    let b = cy - (qcy - 1);
    let n = a * 3 + b;
    vstd::arithmetic::div_mod::lemma_fundamental_div_mod_converse(n, 3, a, b);
    assert(probe_cell(qcx, qcy, n) == (cx, cy));
    let prev = spec_neighborhood_upto(points, cell_size, qcx, qcy, n);
    let bucket = spec_cell_indices(points, cell_size, cx, cy);
    let next = spec_neighborhood_upto(points, cell_size, qcx, qcy, n + 1);
    let k = choose|k: int| 0 <= k < bucket.len() && bucket[k] == j as usize;
    assert(next[prev.len() + k] == j as usize);
    assert(next.contains(j as usize));
    lemma_neighborhood_upto_grow(points, cell_size, qcx, qcy, n + 1, 9, j as usize);
}

/// Two non-negative coordinates closer than one cell width lie in the same
/// or in adjacent cells.
pub proof fn lemma_close_coords_close_cells(a: int, b: int, cell_size: int)
    requires
        0 <= a,
        0 <= b,
        1 <= cell_size,
        -cell_size < a - b < cell_size,
    ensures
        -1 <= spec_cell_coord(a, cell_size) - spec_cell_coord(b, cell_size) <= 1,
{
    vstd::arithmetic::div_mod::lemma_div_is_ordered(a, b + cell_size, cell_size);
    vstd::arithmetic::div_mod::lemma_div_plus_one(b, cell_size);
    vstd::arithmetic::div_mod::lemma_div_is_ordered(b, a + cell_size, cell_size);
    vstd::arithmetic::div_mod::lemma_div_plus_one(a, cell_size);
}

/// The 3×3 scan is complete: whenever some point lies strictly closer to
/// the query than one cell width, the query returns a candidate, and its
/// squared distance is no larger than that point's. With the cell size set
/// to the attraction distance, the scan therefore never misses an
/// attachment opportunity.
pub proof fn lemma_find_nearest_complete(
    points: Seq<(i64, i64)>,
    cell_size: int,
    q: (i64, i64),
    j: int,
)
    requires
        points.len() <= usize::MAX,
        1 <= cell_size <= COORD_LIMIT,
        coord_in_range(q),
        forall|i: int| 0 <= i < points.len() ==> coord_in_range(#[trigger] points[i]),
        0 <= j < points.len(),
        spec_dist_sq(points[j], q) < cell_size * cell_size,
    ensures
        spec_find_nearest(points, cell_size, q) is Some,
        spec_find_nearest(points, cell_size, q)->Some_0.1 <= spec_dist_sq(points[j], q),
{
    let p = points[j];
    let dx = p.0 - q.0;
    let dy = p.1 - q.1;
    assert(-cell_size < dx < cell_size && -cell_size < dy < cell_size) by (nonlinear_arith)
        requires
            dx * dx + dy * dy < cell_size * cell_size,
            cell_size >= 1;
    lemma_close_coords_close_cells(p.0 as int, q.0 as int, cell_size);
    lemma_close_coords_close_cells(p.1 as int, q.1 as int, cell_size);
    let qcx = spec_cell_coord(q.0 as int, cell_size);
    let qcy = spec_cell_coord(q.1 as int, cell_size);
    lemma_neighborhood_contains(points, cell_size, qcx, qcy, j);
    lemma_neighborhood_upto_elements(points, cell_size, qcx, qcy, 9);
    let nb = spec_neighborhood(points, cell_size, qcx, qcy);
    lemma_best_candidate_props(points, q, nb);
    let k = choose|k: int| 0 <= k < nb.len() && nb[k] == j as usize;
    let b = spec_best_candidate(points, q, nb)->Some_0;
    assert(b.1 <= spec_dist_sq(points[nb[k] as int], q));
}

/// A successful query returns a valid point index, its exact squared
/// distance to the query, and a minimal one over the whole 3×3
/// neighborhood.
pub proof fn lemma_find_nearest_props(points: Seq<(i64, i64)>, cell_size: int, q: (i64, i64))
    requires
        points.len() <= usize::MAX,
        coord_in_range(q),
        forall|i: int| 0 <= i < points.len() ==> coord_in_range(#[trigger] points[i]),
    ensures
        spec_find_nearest(points, cell_size, q) matches Some(b) ==> is_min_candidate(
            points,
            q,
            spec_neighborhood(
                points,
                cell_size,
                spec_cell_coord(q.0 as int, cell_size),
                spec_cell_coord(q.1 as int, cell_size),
            ),
            b,
        ),
{
    let qcx = spec_cell_coord(q.0 as int, cell_size);
    let qcy = spec_cell_coord(q.1 as int, cell_size);
    let nb = spec_neighborhood(points, cell_size, qcx, qcy);
    lemma_neighborhood_upto_elements(points, cell_size, qcx, qcy, 9);
    lemma_best_candidate_props(points, q, nb);
}

/// A query against an empty point set returns nothing.
pub proof fn lemma_find_nearest_empty(cell_size: int, q: (i64, i64))
    ensures
        spec_find_nearest(Seq::<(i64, i64)>::empty(), cell_size, q) is None,
{
    let points = Seq::<(i64, i64)>::empty();
    let qcx = spec_cell_coord(q.0 as int, cell_size);
    let qcy = spec_cell_coord(q.1 as int, cell_size);
    lemma_neighborhood_upto_empty(points, cell_size, qcx, qcy, 9);
}

/// The scan over an empty point set collects no candidates.
proof fn lemma_neighborhood_upto_empty(
    points: Seq<(i64, i64)>,
    cell_size: int,
    qcx: int,
    qcy: int,
    n: int,
)
    requires
        points.len() == 0,
    ensures
        spec_neighborhood_upto(points, cell_size, qcx, qcy, n).len() == 0,
    decreases n,
{
    if n > 0 {
        lemma_neighborhood_upto_empty(points, cell_size, qcx, qcy, n - 1);
    }
}

/// A query against a point set holding exactly one point `p` returns that
/// point with the exact squared Euclidean distance, whenever the query's
/// cell is the same as or adjacent to `p`'s cell.
pub proof fn lemma_find_nearest_single(p: (i64, i64), cell_size: int, q: (i64, i64))
    requires
        1 <= cell_size <= COORD_LIMIT,
        coord_in_range(p),
        coord_in_range(q),
        -1 <= spec_cell_coord(p.0 as int, cell_size) - spec_cell_coord(q.0 as int, cell_size)
            <= 1,
        -1 <= spec_cell_coord(p.1 as int, cell_size) - spec_cell_coord(q.1 as int, cell_size)
            <= 1,
    ensures
        spec_find_nearest(seq![p], cell_size, q) == Some((0usize, spec_dist_sq(p, q) as i64)),
{
    let points = seq![p];
    let qcx = spec_cell_coord(q.0 as int, cell_size);
    let qcy = spec_cell_coord(q.1 as int, cell_size);
    assert(points[0] == p);
    lemma_neighborhood_contains(points, cell_size, qcx, qcy, 0);
    lemma_neighborhood_upto_elements(points, cell_size, qcx, qcy, 9);
    let nb = spec_neighborhood(points, cell_size, qcx, qcy);
    lemma_best_candidate_props(points, q, nb);
    let b = spec_best_candidate(points, q, nb)->Some_0;
    assert(b.0 == 0);
    crate::lemma_dist_sq_bounds(p, q);
    assert(b.1 == spec_dist_sq(p, q) as i64);
}


/// After appending index `points.len()` for a new point `pt` (as `insert`
/// reports through its bucket contract), a grid consistent with `points`
/// is consistent with `points.push(pt)`.
pub proof fn lemma_consistency_after_insert(
    g_old: SpatialGrid,
    g_new: SpatialGrid,
    points: Seq<(i64, i64)>,
    pt: (i64, i64),
)
    requires
        1 <= g_old.cell_size() <= COORD_LIMIT,
        g_new.cell_size() == g_old.cell_size(),
        coord_in_range(pt),
        g_old.consistent_with(points),
        ({
            let cx = spec_cell_coord(pt.0 as int, g_old.cell_size());
            let cy = spec_cell_coord(pt.1 as int, g_old.cell_size());
            &&& g_new.bucket(cx, cy) == g_old.bucket(cx, cy).push(points.len() as usize)
            &&& forall|ox: int, oy: int|
                cell_in_probe_range(ox, oy) && !(ox == cx && oy == cy)
                    ==> #[trigger] g_new.bucket(ox, oy) == g_old.bucket(ox, oy)
        }),
    ensures
        g_new.consistent_with(points.push(pt)),
{
    let cs = g_old.cell_size();
    let cx = spec_cell_coord(pt.0 as int, cs);
    let cy = spec_cell_coord(pt.1 as int, cs);
    assert forall|ox: int, oy: int| cell_in_probe_range(ox, oy) implies #[trigger] g_new.bucket(
        ox,
        oy,
    ) == spec_cell_indices(points.push(pt), cs, ox, oy) by {
        lemma_cell_indices_push(points, cs, pt, ox, oy);
        if ox == cx && oy == cy {
            assert(g_new.bucket(ox, oy) == g_old.bucket(ox, oy).push(points.len() as usize));
        } else {
            assert(g_new.bucket(ox, oy) == g_old.bucket(ox, oy));
        }
    }
}

} // verus!
