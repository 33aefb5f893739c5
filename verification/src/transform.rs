//! The symmetry group of the cube: axis permutations combined with
//! per-axis reflections about the bounding box's far corner.  The proper
//! rotations are the 24 such transforms whose determinant is positive; a
//! shape's canonical fingerprint is taken over exactly that group.

use vstd::prelude::*;
use crate::model::CoordV;

verus! {

/// An axis permutation: which source axis each result axis reads.
/// `Yzx` reads y into the first axis, z into the second, x into the third.
#[derive(Clone, Copy, PartialEq, Eq, Structural, Debug)]
pub enum Perm {
    Xyz,
    Xzy,
    Yxz,
    Yzx,
    Zxy,
    Zyx,
}

impl Perm {
    /// The permutation applied to an integer triple.
    pub open spec fn sel(self, c: CoordV) -> CoordV {
        match self {
            Perm::Xyz => (c.0,c.1,c.2),
            Perm::Xzy => (c.0,c.2,c.1),
            Perm::Yxz => (c.1,c.0,c.2),
            Perm::Yzx => (c.1,c.2,c.0),
            Perm::Zxy => (c.2,c.0,c.1),
            Perm::Zyx => (c.2,c.1,c.0),
        }
    }

    /// The permutation applied to a triple of reflection flags.
    pub open spec fn selb(self, f: (bool, bool, bool)) -> (bool, bool, bool) {
        match self {
            Perm::Xyz => (f.0,f.1,f.2),
            Perm::Xzy => (f.0,f.2,f.1),
            Perm::Yxz => (f.1,f.0,f.2),
            Perm::Yzx => (f.1,f.2,f.0),
            Perm::Zxy => (f.2,f.0,f.1),
            Perm::Zyx => (f.2,f.1,f.0),
        }
    }

    /// Whether the permutation is odd (a single transposition).
    pub open spec fn odd(self) -> bool {
        match self {
            Perm::Xzy | Perm::Yxz | Perm::Zyx => true,
            _ => false,
        }
    }

    /// The permutation whose action is `self`'s followed by `other`'s:
    /// `self.comp(other).sel(c) == self.sel(other.sel(c))`.
    pub open spec fn comp(self, other: Perm) -> Perm {
        match (self, other) {
            (Perm::Xyz, Perm::Xyz) => Perm::Xyz,
            (Perm::Xyz, Perm::Xzy) => Perm::Xzy,
            (Perm::Xyz, Perm::Yxz) => Perm::Yxz,
            (Perm::Xyz, Perm::Yzx) => Perm::Yzx,
            (Perm::Xyz, Perm::Zxy) => Perm::Zxy,
            (Perm::Xyz, Perm::Zyx) => Perm::Zyx,
            (Perm::Xzy, Perm::Xyz) => Perm::Xzy,
            (Perm::Xzy, Perm::Xzy) => Perm::Xyz,
            (Perm::Xzy, Perm::Yxz) => Perm::Yzx,
            (Perm::Xzy, Perm::Yzx) => Perm::Yxz,
            (Perm::Xzy, Perm::Zxy) => Perm::Zyx,
            (Perm::Xzy, Perm::Zyx) => Perm::Zxy,
            (Perm::Yxz, Perm::Xyz) => Perm::Yxz,
            (Perm::Yxz, Perm::Xzy) => Perm::Zxy,
            (Perm::Yxz, Perm::Yxz) => Perm::Xyz,
            (Perm::Yxz, Perm::Yzx) => Perm::Zyx,
            (Perm::Yxz, Perm::Zxy) => Perm::Xzy,
            (Perm::Yxz, Perm::Zyx) => Perm::Yzx,
            (Perm::Yzx, Perm::Xyz) => Perm::Yzx,
            (Perm::Yzx, Perm::Xzy) => Perm::Zyx,
            (Perm::Yzx, Perm::Yxz) => Perm::Xzy,
            (Perm::Yzx, Perm::Yzx) => Perm::Zxy,
            (Perm::Yzx, Perm::Zxy) => Perm::Xyz,
            (Perm::Yzx, Perm::Zyx) => Perm::Yxz,
            (Perm::Zxy, Perm::Xyz) => Perm::Zxy,
            (Perm::Zxy, Perm::Xzy) => Perm::Yxz,
            (Perm::Zxy, Perm::Yxz) => Perm::Zyx,
            (Perm::Zxy, Perm::Yzx) => Perm::Xyz,
            (Perm::Zxy, Perm::Zxy) => Perm::Yzx,
            (Perm::Zxy, Perm::Zyx) => Perm::Xzy,
            (Perm::Zyx, Perm::Xyz) => Perm::Zyx,
            (Perm::Zyx, Perm::Xzy) => Perm::Yzx,
            (Perm::Zyx, Perm::Yxz) => Perm::Zxy,
            (Perm::Zyx, Perm::Yzx) => Perm::Xzy,
            (Perm::Zyx, Perm::Zxy) => Perm::Yxz,
            (Perm::Zyx, Perm::Zyx) => Perm::Xyz,
        }
    }

    /// The inverse permutation.
    pub open spec fn inv(self) -> Perm {
        match self {
            Perm::Xyz => Perm::Xyz,
            Perm::Xzy => Perm::Xzy,
            Perm::Yxz => Perm::Yxz,
            Perm::Yzx => Perm::Zxy,
            Perm::Zxy => Perm::Yzx,
            Perm::Zyx => Perm::Zyx,
        }
    }
}

/// One symmetry of the cube, relative to a bounding box: permute the axes,
/// then reflect each flagged result axis about the box's far corner.
#[derive(Clone, Copy, PartialEq, Eq, Structural, Debug)]
pub struct Transform {
    pub perm: Perm,
    pub fx: bool,
    pub fy: bool,
    pub fz: bool,
}

impl Transform {
    /// The three reflection flags as a triple.
    pub open spec fn flips(self) -> (bool, bool, bool) {
        (self.fx, self.fy, self.fz)
    }

    /// A proper rotation: the permutation's sign times the reflections'
    /// sign is positive.
    pub open spec fn is_rotation(self) -> bool {
        self.perm.odd() == (self.fx ^ self.fy ^ self.fz)
    }
}

/// One coordinate, optionally reflected about `m`.
pub open spec fn flip1(f: bool, m: int, v: int) -> int {
    if f {
        m - v
    } else {
        v
    }
}

/// The transform applied to cell `c` of a shape whose far corner is `m`.
pub open spec fn apply_t(t: Transform, m: CoordV, c: CoordV) -> CoordV {
    let ms = t.perm.sel(m);
    let cs = t.perm.sel(c);
    (flip1(t.fx, ms.0, cs.0), flip1(t.fy, ms.1, cs.1), flip1(t.fz, ms.2, cs.2))
}

/// The single transform that acts like `t` followed by `u`, where `u` is
/// read relative to the box `t` produces.
pub open spec fn compose(u: Transform, t: Transform) -> Transform {
    let tf = u.perm.selb(t.flips());
    Transform { perm: u.perm.comp(t.perm), fx: u.fx ^ tf.0, fy: u.fy ^ tf.1, fz: u.fz ^ tf.2 }
}

/// The transform that undoes `t`.
pub open spec fn t_inverse(t: Transform) -> Transform {
    let ip = t.perm.inv();
    let f = ip.selb(t.flips());
    Transform { perm: ip, fx: f.0, fy: f.1, fz: f.2 }
}

/// Applying `t` and then `u` (relative to the permuted box) is applying
/// their composition.
#[verifier::rlimit(50)]
pub proof fn lemma_apply_compose(u: Transform, t: Transform, m: CoordV, c: CoordV)
    ensures
        apply_t(u, t.perm.sel(m), apply_t(t, m, c)) == apply_t(compose(u, t), m, c),
{
    match (u.perm, t.perm) {
        (Perm::Xyz, Perm::Xyz) => {
            assert(apply_t(u, t.perm.sel(m), apply_t(t, m, c)) == apply_t(compose(u, t), m, c));
        },
        (Perm::Xyz, Perm::Xzy) => {
            assert(apply_t(u, t.perm.sel(m), apply_t(t, m, c)) == apply_t(compose(u, t), m, c));
        },
        (Perm::Xyz, Perm::Yxz) => {
            assert(apply_t(u, t.perm.sel(m), apply_t(t, m, c)) == apply_t(compose(u, t), m, c));
        },
        (Perm::Xyz, Perm::Yzx) => {
            assert(apply_t(u, t.perm.sel(m), apply_t(t, m, c)) == apply_t(compose(u, t), m, c));
        },
        (Perm::Xyz, Perm::Zxy) => {
            assert(apply_t(u, t.perm.sel(m), apply_t(t, m, c)) == apply_t(compose(u, t), m, c));
        },
        (Perm::Xyz, Perm::Zyx) => {
            assert(apply_t(u, t.perm.sel(m), apply_t(t, m, c)) == apply_t(compose(u, t), m, c));
        },
        (Perm::Xzy, Perm::Xyz) => {
            assert(apply_t(u, t.perm.sel(m), apply_t(t, m, c)) == apply_t(compose(u, t), m, c));
        },
        (Perm::Xzy, Perm::Xzy) => {
            assert(apply_t(u, t.perm.sel(m), apply_t(t, m, c)) == apply_t(compose(u, t), m, c));
        },
        (Perm::Xzy, Perm::Yxz) => {
            assert(apply_t(u, t.perm.sel(m), apply_t(t, m, c)) == apply_t(compose(u, t), m, c));
        },
        (Perm::Xzy, Perm::Yzx) => {
            assert(apply_t(u, t.perm.sel(m), apply_t(t, m, c)) == apply_t(compose(u, t), m, c));
        },
        (Perm::Xzy, Perm::Zxy) => {
            assert(apply_t(u, t.perm.sel(m), apply_t(t, m, c)) == apply_t(compose(u, t), m, c));
        },
        (Perm::Xzy, Perm::Zyx) => {
            assert(apply_t(u, t.perm.sel(m), apply_t(t, m, c)) == apply_t(compose(u, t), m, c));
        },
        (Perm::Yxz, Perm::Xyz) => {
            assert(apply_t(u, t.perm.sel(m), apply_t(t, m, c)) == apply_t(compose(u, t), m, c));
        },
        (Perm::Yxz, Perm::Xzy) => {
            assert(apply_t(u, t.perm.sel(m), apply_t(t, m, c)) == apply_t(compose(u, t), m, c));
        },
        (Perm::Yxz, Perm::Yxz) => {
            assert(apply_t(u, t.perm.sel(m), apply_t(t, m, c)) == apply_t(compose(u, t), m, c));
        },
        (Perm::Yxz, Perm::Yzx) => {
            assert(apply_t(u, t.perm.sel(m), apply_t(t, m, c)) == apply_t(compose(u, t), m, c));
        },
        (Perm::Yxz, Perm::Zxy) => {
            assert(apply_t(u, t.perm.sel(m), apply_t(t, m, c)) == apply_t(compose(u, t), m, c));
        },
        (Perm::Yxz, Perm::Zyx) => {
            assert(apply_t(u, t.perm.sel(m), apply_t(t, m, c)) == apply_t(compose(u, t), m, c));
        },
        (Perm::Yzx, Perm::Xyz) => {
            assert(apply_t(u, t.perm.sel(m), apply_t(t, m, c)) == apply_t(compose(u, t), m, c));
        },
        (Perm::Yzx, Perm::Xzy) => {
            assert(apply_t(u, t.perm.sel(m), apply_t(t, m, c)) == apply_t(compose(u, t), m, c));
        },
        (Perm::Yzx, Perm::Yxz) => {
            assert(apply_t(u, t.perm.sel(m), apply_t(t, m, c)) == apply_t(compose(u, t), m, c));
        },
        (Perm::Yzx, Perm::Yzx) => {
            assert(apply_t(u, t.perm.sel(m), apply_t(t, m, c)) == apply_t(compose(u, t), m, c));
        },
        (Perm::Yzx, Perm::Zxy) => {
            assert(apply_t(u, t.perm.sel(m), apply_t(t, m, c)) == apply_t(compose(u, t), m, c));
        },
        (Perm::Yzx, Perm::Zyx) => {
            assert(apply_t(u, t.perm.sel(m), apply_t(t, m, c)) == apply_t(compose(u, t), m, c));
        },
        (Perm::Zxy, Perm::Xyz) => {
            assert(apply_t(u, t.perm.sel(m), apply_t(t, m, c)) == apply_t(compose(u, t), m, c));
        },
        (Perm::Zxy, Perm::Xzy) => {
            assert(apply_t(u, t.perm.sel(m), apply_t(t, m, c)) == apply_t(compose(u, t), m, c));
        },
        (Perm::Zxy, Perm::Yxz) => {
            assert(apply_t(u, t.perm.sel(m), apply_t(t, m, c)) == apply_t(compose(u, t), m, c));
        },
        (Perm::Zxy, Perm::Yzx) => {
            assert(apply_t(u, t.perm.sel(m), apply_t(t, m, c)) == apply_t(compose(u, t), m, c));
        },
        (Perm::Zxy, Perm::Zxy) => {
            assert(apply_t(u, t.perm.sel(m), apply_t(t, m, c)) == apply_t(compose(u, t), m, c));
        },
        (Perm::Zxy, Perm::Zyx) => {
            assert(apply_t(u, t.perm.sel(m), apply_t(t, m, c)) == apply_t(compose(u, t), m, c));
        },
        (Perm::Zyx, Perm::Xyz) => {
            assert(apply_t(u, t.perm.sel(m), apply_t(t, m, c)) == apply_t(compose(u, t), m, c));
        },
        (Perm::Zyx, Perm::Xzy) => {
            assert(apply_t(u, t.perm.sel(m), apply_t(t, m, c)) == apply_t(compose(u, t), m, c));
        },
        (Perm::Zyx, Perm::Yxz) => {
            assert(apply_t(u, t.perm.sel(m), apply_t(t, m, c)) == apply_t(compose(u, t), m, c));
        },
        (Perm::Zyx, Perm::Yzx) => {
            assert(apply_t(u, t.perm.sel(m), apply_t(t, m, c)) == apply_t(compose(u, t), m, c));
        },
        (Perm::Zyx, Perm::Zxy) => {
            assert(apply_t(u, t.perm.sel(m), apply_t(t, m, c)) == apply_t(compose(u, t), m, c));
        },
        (Perm::Zyx, Perm::Zyx) => {
            assert(apply_t(u, t.perm.sel(m), apply_t(t, m, c)) == apply_t(compose(u, t), m, c));
        },
    }
}

/// The proper rotations are closed under composition.
pub proof fn lemma_compose_rotation(u: Transform, t: Transform)
    requires
        u.is_rotation(),
        t.is_rotation(),
    ensures
        compose(u, t).is_rotation(),
{
}

/// The inverse of a proper rotation is a proper rotation.
pub proof fn lemma_inverse_rotation(t: Transform)
    requires
        t.is_rotation(),
    ensures
        t_inverse(t).is_rotation(),
{
}

/// Composing with a transform's inverse cancels it.
pub proof fn lemma_compose_cancel(v: Transform, t: Transform)
    ensures
        compose(compose(v, t_inverse(t)), t) == v,
{
}

/// The 24 proper rotations of the cube, in a fixed order.
pub open spec fn rotations() -> Seq<Transform> {
    seq![
        Transform { perm: Perm::Xyz, fx: false, fy: false, fz: false },
        Transform { perm: Perm::Xyz, fx: false, fy: true, fz: true },
        Transform { perm: Perm::Xyz, fx: true, fy: false, fz: true },
        Transform { perm: Perm::Xyz, fx: true, fy: true, fz: false },
        Transform { perm: Perm::Xzy, fx: false, fy: false, fz: true },
        Transform { perm: Perm::Xzy, fx: false, fy: true, fz: false },
        Transform { perm: Perm::Xzy, fx: true, fy: false, fz: false },
        Transform { perm: Perm::Xzy, fx: true, fy: true, fz: true },
        Transform { perm: Perm::Yxz, fx: false, fy: false, fz: true },
        Transform { perm: Perm::Yxz, fx: false, fy: true, fz: false },
        Transform { perm: Perm::Yxz, fx: true, fy: false, fz: false },
        Transform { perm: Perm::Yxz, fx: true, fy: true, fz: true },
        Transform { perm: Perm::Yzx, fx: false, fy: false, fz: false },
        Transform { perm: Perm::Yzx, fx: false, fy: true, fz: true },
        Transform { perm: Perm::Yzx, fx: true, fy: false, fz: true },
        Transform { perm: Perm::Yzx, fx: true, fy: true, fz: false },
        Transform { perm: Perm::Zxy, fx: false, fy: false, fz: false },
        Transform { perm: Perm::Zxy, fx: false, fy: true, fz: true },
        Transform { perm: Perm::Zxy, fx: true, fy: false, fz: true },
        Transform { perm: Perm::Zxy, fx: true, fy: true, fz: false },
        Transform { perm: Perm::Zyx, fx: false, fy: false, fz: true },
        Transform { perm: Perm::Zyx, fx: false, fy: true, fz: false },
        Transform { perm: Perm::Zyx, fx: true, fy: false, fz: false },
        Transform { perm: Perm::Zyx, fx: true, fy: true, fz: true }
    ]
}

/// Every entry of the list is a proper rotation.
pub proof fn lemma_rotations_sound()
    ensures
        rotations().len() == 24,
        forall|k: int| 0 <= k < 24 ==> (#[trigger] rotations()[k]).is_rotation(),
{
    assert forall|k: int| 0 <= k < 24 implies (#[trigger] rotations()[k]).is_rotation() by {
        if k < 12 {
            assert(rotations()[k].is_rotation());
        } else {
            assert(rotations()[k].is_rotation());
        }
    }
}

/// Every proper rotation occurs in the list.
pub proof fn lemma_rotations_complete(t: Transform)
    requires
        t.is_rotation(),
    ensures
        rotations().contains(t),
{
    match t.perm {
        Perm::Xyz => {
            if t.fx == false && t.fy == false && t.fz == false {
                assert(rotations()[0] == t);
            }
            if t.fx == false && t.fy == true && t.fz == true {
                assert(rotations()[1] == t);
            }
            if t.fx == true && t.fy == false && t.fz == true {
                assert(rotations()[2] == t);
            }
            if t.fx == true && t.fy == true && t.fz == false {
                assert(rotations()[3] == t);
            }
        },
        Perm::Xzy => {
            if t.fx == false && t.fy == false && t.fz == true {
                assert(rotations()[4] == t);
            }
            if t.fx == false && t.fy == true && t.fz == false {
                assert(rotations()[5] == t);
            }
            if t.fx == true && t.fy == false && t.fz == false {
                assert(rotations()[6] == t);
            }
            if t.fx == true && t.fy == true && t.fz == true {
                assert(rotations()[7] == t);
            }
        },
        Perm::Yxz => {
            if t.fx == false && t.fy == false && t.fz == true {
                assert(rotations()[8] == t);
            }
            if t.fx == false && t.fy == true && t.fz == false {
                assert(rotations()[9] == t);
            }
            if t.fx == true && t.fy == false && t.fz == false {
                assert(rotations()[10] == t);
            }
            if t.fx == true && t.fy == true && t.fz == true {
                assert(rotations()[11] == t);
            }
        },
        Perm::Yzx => {
            if t.fx == false && t.fy == false && t.fz == false {
                assert(rotations()[12] == t);
            }
            if t.fx == false && t.fy == true && t.fz == true {
                assert(rotations()[13] == t);
            }
            if t.fx == true && t.fy == false && t.fz == true {
                assert(rotations()[14] == t);
            }
            if t.fx == true && t.fy == true && t.fz == false {
                assert(rotations()[15] == t);
            }
        },
        Perm::Zxy => {
            if t.fx == false && t.fy == false && t.fz == false {
                assert(rotations()[16] == t);
            }
            if t.fx == false && t.fy == true && t.fz == true {
                assert(rotations()[17] == t);
            }
            if t.fx == true && t.fy == false && t.fz == true {
                assert(rotations()[18] == t);
            }
            if t.fx == true && t.fy == true && t.fz == false {
                assert(rotations()[19] == t);
            }
        },
        Perm::Zyx => {
            if t.fx == false && t.fy == false && t.fz == true {
                assert(rotations()[20] == t);
            }
            if t.fx == false && t.fy == true && t.fz == false {
                assert(rotations()[21] == t);
            }
            if t.fx == true && t.fy == false && t.fz == false {
                assert(rotations()[22] == t);
            }
            if t.fx == true && t.fy == true && t.fz == true {
                assert(rotations()[23] == t);
            }
        },
    }
    assert(rotations().contains(t));
}

/// The 24 proper rotations, as a vector matching [`rotations`].
pub fn rotation_list() -> (v: Vec<Transform>)
    ensures
        v@ == rotations(),
{
    let mut v: Vec<Transform> = Vec::new();
    v.push(Transform { perm: Perm::Xyz, fx: false, fy: false, fz: false });
    v.push(Transform { perm: Perm::Xyz, fx: false, fy: true, fz: true });
    v.push(Transform { perm: Perm::Xyz, fx: true, fy: false, fz: true });
    v.push(Transform { perm: Perm::Xyz, fx: true, fy: true, fz: false });
    v.push(Transform { perm: Perm::Xzy, fx: false, fy: false, fz: true });
    v.push(Transform { perm: Perm::Xzy, fx: false, fy: true, fz: false });
    v.push(Transform { perm: Perm::Xzy, fx: true, fy: false, fz: false });
    v.push(Transform { perm: Perm::Xzy, fx: true, fy: true, fz: true });
    v.push(Transform { perm: Perm::Yxz, fx: false, fy: false, fz: true });
    v.push(Transform { perm: Perm::Yxz, fx: false, fy: true, fz: false });
    v.push(Transform { perm: Perm::Yxz, fx: true, fy: false, fz: false });
    v.push(Transform { perm: Perm::Yxz, fx: true, fy: true, fz: true });
    v.push(Transform { perm: Perm::Yzx, fx: false, fy: false, fz: false });
    v.push(Transform { perm: Perm::Yzx, fx: false, fy: true, fz: true });
    v.push(Transform { perm: Perm::Yzx, fx: true, fy: false, fz: true });
    v.push(Transform { perm: Perm::Yzx, fx: true, fy: true, fz: false });
    v.push(Transform { perm: Perm::Zxy, fx: false, fy: false, fz: false });
    v.push(Transform { perm: Perm::Zxy, fx: false, fy: true, fz: true });
    v.push(Transform { perm: Perm::Zxy, fx: true, fy: false, fz: true });
    v.push(Transform { perm: Perm::Zxy, fx: true, fy: true, fz: false });
    v.push(Transform { perm: Perm::Zyx, fx: false, fy: false, fz: true });
    v.push(Transform { perm: Perm::Zyx, fx: false, fy: true, fz: false });
    v.push(Transform { perm: Perm::Zyx, fx: true, fy: false, fz: false });
    v.push(Transform { perm: Perm::Zyx, fx: true, fy: true, fz: true });
    proof {
        assert(v@ =~= rotations());
    }
    v
}

} // verus!
