//! The canonical fingerprint: the least digest of a shape over the 24
//! proper rotations of the cube.  Two shapes in the same rotation orbit get
//! the same fingerprint; the generation driver uses it to deduplicate.
//! Distinct orbits may still collide on the 64-bit value — deduplication by
//! fingerprint alone is a documented approximation, not an exact test.

use vstd::prelude::*;
use crate::digest::{hash_coords, xor_digest};
use crate::model::{c3, le3, nonneg3, Coord, CoordV, Model, ModelV};
use crate::transform::{
    apply_t, compose, lemma_apply_compose, lemma_compose_cancel, lemma_compose_rotation,
    lemma_inverse_rotation, lemma_rotations_complete, lemma_rotations_sound, rotation_list,
    rotations, t_inverse, Perm, Transform,
};

verus! {

/// The image of a shape under one transform: the far corner permuted, every
/// cell remapped relative to the old far corner.
pub open spec fn transform_v(m: ModelV, t: Transform) -> ModelV {
    ModelV {
        bound: t.perm.sel(m.bound),
        cells: m.cells.map_values(|c: CoordV| apply_t(t, m.bound, c)),
    }
}

/// The digest of a shape read through one transform.
pub open spec fn digest_under(t: Transform, m: ModelV) -> u64 {
    xor_digest(transform_v(m, t).cells)
}

/// The running minimum of the digests under a list of transforms, started
/// at the largest 64-bit value.
pub open spec fn min_digest(m: ModelV, ts: Seq<Transform>) -> u64
    decreases ts.len(),
{
    if ts.len() == 0 {
        u64::MAX
    } else {
        let rest = min_digest(m, ts.drop_last());
        let d = digest_under(ts.last(), m);
        if d < rest {
            d
        } else {
            rest
        }
    }
}

/// The canonical fingerprint of a shape.
#[verifier::opaque]
pub open spec fn fingerprint_v(m: ModelV) -> u64 {
    min_digest(m, rotations())
}

/// The running minimum never exceeds its start value.
proof fn lemma_min_le_max(m: ModelV, ts: Seq<Transform>)
    ensures
        min_digest(m, ts) <= u64::MAX,
    decreases ts.len(),
{
    if ts.len() > 0 {
        lemma_min_le_max(m, ts.drop_last());
    }
}

/// The running minimum is a lower bound on every listed digest.
proof fn lemma_min_le(m: ModelV, ts: Seq<Transform>, k: int)
    requires
        0 <= k < ts.len(),
    ensures
        min_digest(m, ts) <= digest_under(ts[k], m),
    decreases ts.len(),
{
    if k == ts.len() - 1 {
        lemma_min_le_max(m, ts);
    } else {
        lemma_min_le(m, ts.drop_last(), k);
        assert(ts.drop_last()[k] == ts[k]);
    }
}

/// The running minimum is the start value or one of the listed digests.
proof fn lemma_min_attained(m: ModelV, ts: Seq<Transform>)
    ensures
        min_digest(m, ts) == u64::MAX || exists|k: int|
            0 <= k < ts.len() && min_digest(m, ts) == digest_under(#[trigger] ts[k], m),
    decreases ts.len(),
{
    if ts.len() > 0 {
        lemma_min_attained(m, ts.drop_last());
        let v = min_digest(m, ts);
        if v == digest_under(ts.last(), m) {
            assert(ts[ts.len() - 1] == ts.last());
            assert(exists|k: int|
                0 <= k < ts.len() && min_digest(m, ts) == digest_under(#[trigger] ts[k], m));
        } else if min_digest(m, ts.drop_last()) != u64::MAX {
            let k = choose|k: int|
                0 <= k < ts.drop_last().len() && min_digest(m, ts.drop_last()) == digest_under(
                    #[trigger] ts.drop_last()[k],
                    m,
                );
            assert(ts.drop_last()[k] == ts[k]);
            assert(min_digest(m, ts) == digest_under(ts[k], m));
        }
    }
}

/// Reading a transformed shape through `u` is reading the original through
/// the composite transform.
proof fn lemma_digest_compose(u: Transform, t: Transform, m: ModelV)
    ensures
        digest_under(u, transform_v(m, t)) == digest_under(compose(u, t), m),
{
    let mt = transform_v(m, t);
    let lhs = mt.cells.map_values(|c: CoordV| apply_t(u, mt.bound, c));
    let rhs = m.cells.map_values(|c: CoordV| apply_t(compose(u, t), m.bound, c));
    assert forall|i: int| 0 <= i < lhs.len() implies lhs[i] == rhs[i] by {
        lemma_apply_compose(u, t, m.bound, m.cells[i]);
    }
    assert(lhs =~= rhs);
}

/// Symmetry invariance of the canonical fingerprint: transforming a shape
/// by any proper rotation of its symmetry group leaves its fingerprint
/// unchanged, for every shape.
pub proof fn lemma_fingerprint_rotation_invariant(m: ModelV, t: Transform)
    requires
        t.is_rotation(),
    ensures
        fingerprint_v(transform_v(m, t)) == fingerprint_v(m),
{
    reveal(fingerprint_v);
    let mt = transform_v(m, t);
    lemma_rotations_sound();
    // The original's fingerprint never exceeds the transformed one: each
    // digest of `mt` is a digest of `m` under the composite rotation.
    lemma_min_attained(mt, rotations());
    if fingerprint_v(mt) == u64::MAX {
        lemma_min_le_max(m, rotations());
    } else {
        let k = choose|k: int|
            0 <= k < rotations().len() && fingerprint_v(mt) == digest_under(
                #[trigger] rotations()[k],
                mt,
            );
        let u = rotations()[k];
        lemma_digest_compose(u, t, m);
        lemma_compose_rotation(u, t);
        lemma_rotations_complete(compose(u, t));
        let j = choose|j: int|
            0 <= j < rotations().len() && rotations()[j] == compose(u, t);
        lemma_min_le(m, rotations(), j);
    }
    // The transformed fingerprint never exceeds the original one: each
    // digest of `m` is a digest of `mt` under the rotation composed with
    // the inverse.
    lemma_min_attained(m, rotations());
    if fingerprint_v(m) == u64::MAX {
        lemma_min_le_max(mt, rotations());
    } else {
        let k = choose|k: int|
            0 <= k < rotations().len() && fingerprint_v(m) == digest_under(
                #[trigger] rotations()[k],
                m,
            );
        let v = rotations()[k];
        let u = compose(v, t_inverse(t));
        lemma_inverse_rotation(t);
        lemma_compose_rotation(v, t_inverse(t));
        lemma_compose_cancel(v, t);
        lemma_digest_compose(u, t, m);
        lemma_rotations_complete(u);
        let j = choose|j: int|
            0 <= j < rotations().len() && rotations()[j] == u;
        lemma_min_le(mt, rotations(), j);
    }
}

/// An axis permutation applied to a byte triple.
pub fn sel_coord(p: Perm, c: Coord) -> (r: Coord)
    ensures
        c3(r) == p.sel(c3(c)),
{
    match p {
        Perm::Xyz => (c.0, c.1, c.2),
        Perm::Xzy => (c.0, c.2, c.1),
        Perm::Yxz => (c.1, c.0, c.2),
        Perm::Yzx => (c.1, c.2, c.0),
        Perm::Zxy => (c.2, c.0, c.1),
        Perm::Zyx => (c.2, c.1, c.0),
    }
}

/// Permuting both a cell and a box that bounds it keeps the cell bounded.
proof fn lemma_sel_le(p: Perm, a: CoordV, b: CoordV)
    requires
        nonneg3(a),
        le3(a, b),
    ensures
        nonneg3(p.sel(a)),
        le3(p.sel(a), p.sel(b)),
{
}

impl Model {
    /// The shape's cells remapped by `t`, in storage order.
    pub fn transformed_cells(&self, t: Transform) -> (v: Vec<Coord>)
        requires
            self.sound(),
        ensures
            v@.map_values(|c: Coord| c3(c)) == transform_v(self@, t).cells,
    {
        let ghost goal = transform_v(self@, t).cells;
        let mut v: Vec<Coord> = Vec::new();
        let mut k: usize = 0;
        while k < self.data.len()
            invariant
                self.sound(),
                goal == transform_v(self@, t).cells,
                0 <= k <= self.data@.len(),
                v@.len() == k,
                forall|i: int| 0 <= i < k ==> c3(#[trigger] v@[i]) == goal[i],
            decreases self.data@.len() - k,
        {
            let c = self.data[k];
            proof {
                assert(self@.cells[k as int] == c3(c));
                assert(nonneg3(c3(c)) && le3(c3(c), self@.bound));
                lemma_sel_le(t.perm, c3(c), self@.bound);
            }
            let ms = sel_coord(t.perm, self.max);
            let cs = sel_coord(t.perm, c);
            let rx = if t.fx { ms.0 - cs.0 } else { cs.0 };
            let ry = if t.fy { ms.1 - cs.1 } else { cs.1 };
            let rz = if t.fz { ms.2 - cs.2 } else { cs.2 };
            proof {
                assert(c3((rx, ry, rz)) == apply_t(t, self@.bound, self@.cells[k as int]));
                assert(goal[k as int] == apply_t(t, self@.bound, self@.cells[k as int]));
            }
            v.push((rx, ry, rz));
            k += 1;
        }
        proof {
            assert(v@.map_values(|c: Coord| c3(c)) =~= goal);
        }
        v
    }

    /// The shape's image under `t`, as a shape of its own.
    pub fn transformed(&self, t: Transform) -> (r: Model)
        requires
            self.sound(),
        ensures
            r@ == transform_v(self@, t),
            r.sound(),
    {
        let data = self.transformed_cells(t);
        let max = sel_coord(t.perm, self.max);
        let r = Model { max, data };
        proof {
            assert(r@.cells == transform_v(self@, t).cells);
            assert(r@ == transform_v(self@, t));
            let g = r@;
            assert forall|i: int| 0 <= i < g.cells.len() implies nonneg3(#[trigger] g.cells[i])
                && le3(g.cells[i], g.bound) by {
                assert(g.cells[i] == apply_t(t, self@.bound, self@.cells[i]));
                lemma_sel_le(t.perm, self@.cells[i], self@.bound);
            }
            lemma_sel_le(t.perm, (0int, 0int, 0int), self@.bound);
            assert(le3(g.bound, (255int, 255int, 255int)));
        }
        r
    }

    /// The canonical fingerprint: the least digest of the shape over all 24
    /// proper rotations, each digest the xor of the remapped cells' mixes.
    pub fn hash(&self) -> (h: u64)
        requires
            self.sound(),
        ensures
            h == fingerprint_v(self@),
    {
        let rots = rotation_list();
        let mut h: u64 = u64::MAX;
        let mut k: usize = 0;
        proof {
            lemma_rotations_sound();
        }
        while k < rots.len()
            invariant
                self.sound(),
                rots@ == rotations(),
                rots@.len() == 24,
                0 <= k <= 24,
                h == min_digest(self@, rotations().take(k as int)),
            decreases rots@.len() - k,
        {
            let tc = self.transformed_cells(rots[k]);
            let d = hash_coords(&tc);
            proof {
                assert(d == digest_under(rots@[k as int], self@));
                assert(rotations().take(k + 1).drop_last() =~= rotations().take(k as int));
                assert(rotations().take(k + 1).last() == rotations()[k as int]);
            }
            if d < h {
                h = d;
            }
            k += 1;
        }
        proof {
            reveal(fingerprint_v);
            assert(rotations().take(24) =~= rotations());
        }
        h
    }
}

} // verus!
