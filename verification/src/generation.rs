//! The generation driver: grow every shape of a generation at every
//! (cell, direction) pair, fingerprint each candidate, and keep one shape
//! per fingerprint.  The resident deduplication state is only the
//! fingerprint set, as in the disk-backed variant; the shapes themselves
//! are handed to the caller.

use std::collections::HashSet;
use vstd::assert_sets_equal;
use vstd::prelude::*;
use crate::fingerprint::fingerprint_v;
use crate::model::{
    c3, grow_exhausts, grow_occupied, grown_v, Coord, Dir, LatticeError, Model, ModelV,
};

verus! {

broadcast use vstd::std_specs::hash::group_hash_axioms;

/// The six face directions in the order the driver tries them.
pub open spec fn dir_of(k: int) -> Dir {
    if k == 0 {
        Dir::Xp
    } else if k == 1 {
        Dir::Xn
    } else if k == 2 {
        Dir::Yp
    } else if k == 3 {
        Dir::Yn
    } else if k == 4 {
        Dir::Zp
    } else {
        Dir::Zn
    }
}

/// Fingerprint `f` arises from a successful growth of `m` at cell `i` in
/// direction `k`.
pub open spec fn is_cand_fp(m: ModelV, i: int, k: int, f: u64) -> bool {
    &&& 0 <= i < m.cells.len()
    &&& 0 <= k < 6
    &&& !grow_exhausts(m, m.cells[i], dir_of(k))
    &&& !grow_occupied(m, m.cells[i], dir_of(k))
    &&& f == fingerprint_v(grown_v(m, m.cells[i], dir_of(k)))
}

/// All fingerprints of successful growths of one shape.
pub open spec fn cand_fps(m: ModelV) -> Set<u64> {
    Set::new(|f: u64| exists|i: int, k: int| is_cand_fp(m, i, k, f))
}

/// The fingerprints contributed by (cell, direction) pairs strictly before
/// `(ci, ck)` in the driver's order.
pub open spec fn cand_fps_upto(m: ModelV, ci: int, ck: int) -> Set<u64> {
    Set::new(
        |f: u64|
            exists|i: int, k: int| (i < ci || (i == ci && k < ck)) && is_cand_fp(m, i, k, f),
    )
}

/// All fingerprints of successful growths of any shape in a generation.
pub open spec fn all_cand_fps(ms: Seq<Model>) -> Set<u64> {
    Set::new(|f: u64| exists|i: int| 0 <= i < ms.len() && cand_fps(ms[i]@).contains(f))
}

/// The fingerprints contributed by shapes strictly before index `ci`.
pub open spec fn all_cand_fps_upto(ms: Seq<Model>, ci: int) -> Set<u64> {
    Set::new(|f: u64| exists|i: int| 0 <= i < ci && cand_fps(ms[i]@).contains(f))
}

/// Growth from a shape whose far corner stays below the byte ceiling on
/// every axis can never exhaust the lattice.
proof fn lemma_no_exhaust(m: ModelV, i: int, k: int)
    requires
        m.sound(),
        m.bound.0 < 255 && m.bound.1 < 255 && m.bound.2 < 255,
        0 <= i < m.cells.len(),
        0 <= k < 6,
    ensures
        !grow_exhausts(m, m.cells[i], dir_of(k)),
{
}

/// The six directions, executably.
fn dir_at(k: usize) -> (d: Dir)
    requires
        k < 6,
    ensures
        d == dir_of(k as int),
{
    match k {
        0 => Dir::Xp,
        1 => Dir::Xn,
        2 => Dir::Yp,
        3 => Dir::Yn,
        4 => Dir::Zp,
        _ => Dir::Zn,
    }
}

impl Model {
    /// Grow this shape at every (cell, direction) pair.  Each candidate's
    /// fingerprint is looked up in `set`: a fresh fingerprint is recorded
    /// there and the candidate appended to `out`; a fingerprint already
    /// present means the candidate counts as already seen and is dropped.
    /// `Err` reports the lattice-exhausted range error, with nothing
    /// changed.
    #[verifier::rlimit(100)]
    pub fn add_cubes(&self, set: &mut HashSet<u64>, out: &mut Vec<Model>) -> (r: Result<
        (),
        LatticeError,
    >)
        requires
            self.wf(),
        ensures
            match r {
                Result::Err(_) => {
                    &&& (self@.bound.0 == 255 || self@.bound.1 == 255 || self@.bound.2 == 255)
                    &&& final(set)@ == old(set)@
                    &&& final(out)@ == old(out)@
                },
                Result::Ok(_) => {
                    &&& self@.bound.0 < 255 && self@.bound.1 < 255 && self@.bound.2 < 255
                    &&& final(set)@ == old(set)@.union(cand_fps(self@))
                    &&& final(out)@.len() >= old(out)@.len()
                    &&& forall|j: int|
                        0 <= j < old(out)@.len() ==> final(out)@[j] == old(out)@[j]
                    &&& forall|j: int|
                        old(out)@.len() <= j < final(out)@.len() ==> {
                            let mv = (#[trigger] final(out)@[j])@;
                            &&& final(out)@[j].wf()
                            &&& exists|i: int, k: int|
                                is_cand_fp(self@, i, k, fingerprint_v(mv)) && mv == grown_v(
                                    self@,
                                    self@.cells[i],
                                    dir_of(k),
                                )
                            &&& !old(set)@.contains(fingerprint_v(mv))
                        }
                    &&& forall|j1: int, j2: int|
                        old(out)@.len() <= j1 < final(out)@.len() && old(out)@.len() <= j2
                            < final(out)@.len() && j1 != j2 ==> fingerprint_v(
                            (#[trigger] final(out)@[j1])@,
                        ) != fingerprint_v((#[trigger] final(out)@[j2])@)
                    &&& forall|f: u64|
                        cand_fps(self@).contains(f) && !old(set)@.contains(f) ==> exists|j: int|
                            old(out)@.len() <= j < final(out)@.len() && fingerprint_v(
                                (#[trigger] final(out)@[j])@,
                            ) == f
                },
            },
    {
        if self.max.0 == 255 || self.max.1 == 255 || self.max.2 == 255 {
            return Result::Err(LatticeError::Exhausted);
        }
        let ghost old_set = set@;
        let ghost old_len = out@.len() as int;
        let mut i: usize = 0;
        while i < self.data.len()
            invariant
                self.wf(),
                self@.bound.0 < 255 && self@.bound.1 < 255 && self@.bound.2 < 255,
                0 <= i <= self.data@.len(),
                old_len == old(out)@.len() as int,
                0 <= old_len,
                set@ == old_set.union(cand_fps_upto(self@, i as int, 0)),
                out@.len() >= old_len,
                forall|j: int| 0 <= j < old_len ==> out@[j] == old(out)@[j],
                forall|j: int|
                    old_len <= j < out@.len() ==> {
                        let mv = (#[trigger] out@[j])@;
                        &&& out@[j].wf()
                        &&& exists|ii: int, k: int|
                            is_cand_fp(self@, ii, k, fingerprint_v(mv)) && mv == grown_v(
                                self@,
                                self@.cells[ii],
                                dir_of(k),
                            )
                        &&& !old_set.contains(fingerprint_v(mv))
                        &&& set@.contains(fingerprint_v(mv))
                    },
                forall|j1: int, j2: int|
                    old_len <= j1 < out@.len() && old_len <= j2 < out@.len() && j1 != j2
                        ==> fingerprint_v((#[trigger] out@[j1])@) != fingerprint_v(
                        (#[trigger] out@[j2])@,
                    ),
                forall|f: u64|
                    cand_fps_upto(self@, i as int, 0).contains(f) && !old_set.contains(f)
                        ==> exists|j: int|
                        old_len <= j < out@.len() && fingerprint_v((#[trigger] out@[j])@) == f,
            decreases self.data@.len() - i,
        {
            let cube = self.data[i];
            proof {
                assert(self@.cells[i as int] == c3(cube));
                assert(self@.cells.contains(c3(cube)));
            }
            let mut k: usize = 0;
            while k < 6
                invariant
                    self.wf(),
                    self@.bound.0 < 255 && self@.bound.1 < 255 && self@.bound.2 < 255,
                    0 <= i < self.data@.len(),
                    0 <= k <= 6,
                    c3(cube) == self@.cells[i as int],
                    self@.cells.contains(c3(cube)),
                    old_len == old(out)@.len() as int,
                    0 <= old_len,
                    set@ == old_set.union(cand_fps_upto(self@, i as int, k as int)),
                    out@.len() >= old_len,
                    forall|j: int| 0 <= j < old_len ==> out@[j] == old(out)@[j],
                    forall|j: int|
                        old_len <= j < out@.len() ==> {
                            let mv = (#[trigger] out@[j])@;
                            &&& out@[j].wf()
                            &&& exists|ii: int, kk: int|
                                is_cand_fp(self@, ii, kk, fingerprint_v(mv)) && mv == grown_v(
                                    self@,
                                    self@.cells[ii],
                                    dir_of(kk),
                                )
                            &&& !old_set.contains(fingerprint_v(mv))
                            &&& set@.contains(fingerprint_v(mv))
                        },
                    forall|j1: int, j2: int|
                        old_len <= j1 < out@.len() && old_len <= j2 < out@.len() && j1 != j2
                            ==> fingerprint_v((#[trigger] out@[j1])@) != fingerprint_v(
                            (#[trigger] out@[j2])@,
                        ),
                    forall|f: u64|
                        cand_fps_upto(self@, i as int, k as int).contains(f) && !old_set.contains(
                            f,
                        ) ==> exists|j: int|
                            old_len <= j < out@.len() && fingerprint_v((#[trigger] out@[j])@)
                                == f,
                decreases 6 - k,
            {
                let d = dir_at(k);
                proof {
                    lemma_no_exhaust(self@, i as int, k as int);
                }
                let grown = self.add_cube(cube, d);
                match grown {
                    Result::Err(e) => {
                        // Unreachable: the far corner is below the ceiling.
                        proof {
                            assert(false);
                        }
                        return Result::Err(e);
                    },
                    Result::Ok(Option::None) => {
                        proof {
                            assert_sets_equal!(
                                cand_fps_upto(self@, i as int, k as int + 1)
                                    == cand_fps_upto(self@, i as int, k as int),
                                f => {
                                    if cand_fps_upto(self@, i as int, k as int + 1).contains(f) {
                                        let (ii, kk) = choose|ii: int, kk: int|
                                            (ii < i as int || (ii == i as int && kk < k as int + 1))
                                                && is_cand_fp(self@, ii, kk, f);
                                        if ii == i as int && kk == k as int {
                                            assert(false);
                                        }
                                        assert(cand_fps_upto(self@, i as int, k as int).contains(f));
                                    }
                                    if cand_fps_upto(self@, i as int, k as int).contains(f) {
                                        let (ii, kk) = choose|ii: int, kk: int|
                                            (ii < i as int || (ii == i as int && kk < k as int))
                                                && is_cand_fp(self@, ii, kk, f);
                                        assert(cand_fps_upto(self@, i as int, k as int + 1).contains(f));
                                    }
                                }
                            );
                        }
                    },
                    Result::Ok(Option::Some(m)) => {
                        let f = m.hash();
                        let ghost fv = f;
                        proof {
                            assert(m@ == grown_v(self@, self@.cells[i as int], dir_of(k as int)));
                            assert(is_cand_fp(self@, i as int, k as int, fv));
                            assert_sets_equal!(
                                cand_fps_upto(self@, i as int, k as int + 1)
                                    == cand_fps_upto(self@, i as int, k as int).insert(fv),
                                g => {
                                    if cand_fps_upto(self@, i as int, k as int + 1).contains(g) {
                                        let (ii, kk) = choose|ii: int, kk: int|
                                            (ii < i as int || (ii == i as int && kk < k as int + 1))
                                                && is_cand_fp(self@, ii, kk, g);
                                        if ii == i as int && kk == k as int {
                                            assert(g == fv);
                                        } else {
                                            assert(cand_fps_upto(self@, i as int, k as int).contains(g));
                                        }
                                    }
                                    if cand_fps_upto(self@, i as int, k as int).insert(fv).contains(g) {
                                        if g == fv {
                                            assert(is_cand_fp(self@, i as int, k as int, g));
                                            assert(cand_fps_upto(self@, i as int, k as int + 1).contains(g));
                                        } else {
                                            let (ii, kk) = choose|ii: int, kk: int|
                                                (ii < i as int || (ii == i as int && kk < k as int))
                                                    && is_cand_fp(self@, ii, kk, g);
                                            assert(cand_fps_upto(self@, i as int, k as int + 1).contains(g));
                                        }
                                    }
                                }
                            );
                        }
                        let ghost set_before = set@;
                        let ghost out_before = out@;
                        let added = set.insert(f);
                        if added {
                            out.push(m);
                        }
                        proof {
                            assert(set@ == set_before.insert(fv));
                            assert(added == !set_before.contains(fv));
                            assert(set@ == old_set.union(
                                cand_fps_upto(self@, i as int, k as int + 1),
                            )) by {
                                assert_sets_equal!(
                                    old_set.union(cand_fps_upto(self@, i as int, k as int)).insert(fv)
                                        == old_set.union(cand_fps_upto(self@, i as int, k as int).insert(fv))
                                );
                                if !added {
                                    assert_sets_equal!(
                                        old_set.union(cand_fps_upto(self@, i as int, k as int)).insert(fv)
                                            == old_set.union(cand_fps_upto(self@, i as int, k as int))
                                    );
                                }
                            }
                            if added {
                                assert(out@ == out_before.push(m));
                                assert(out@.len() == out_before.len() + 1);
                                let last = out@.len() - 1;
                                assert(out@[last] == m);
                                assert(fingerprint_v(m@) == fv);
                                assert(!old_set.contains(fv));
                                assert forall|j: int| old_len <= j < out@.len() implies {
                                    let mv = (#[trigger] out@[j])@;
                                    &&& out@[j].wf()
                                    &&& exists|ii: int, kk: int|
                                        is_cand_fp(self@, ii, kk, fingerprint_v(mv)) && mv
                                            == grown_v(self@, self@.cells[ii], dir_of(kk))
                                    &&& !old_set.contains(fingerprint_v(mv))
                                    &&& set@.contains(fingerprint_v(mv))
                                } by {
                                    if j < last {
                                        assert(out@[j] == out_before[j]);
                                        assert(set_before.contains(fingerprint_v(out_before[j]@)));
                                    } else {
                                        assert(out@[j] == m);
                                        assert(is_cand_fp(
                                            self@,
                                            i as int,
                                            k as int,
                                            fingerprint_v(m@),
                                        ) && m@ == grown_v(
                                            self@,
                                            self@.cells[i as int],
                                            dir_of(k as int),
                                        ));
                                    }
                                }
                                assert forall|j1: int, j2: int|
                                    old_len <= j1 < out@.len() && old_len <= j2 < out@.len() && j1
                                        != j2 implies fingerprint_v((#[trigger] out@[j1])@)
                                    != fingerprint_v((#[trigger] out@[j2])@) by {
                                    if j1 < last && j2 < last {
                                        assert(out@[j1] == out_before[j1]);
                                        assert(out@[j2] == out_before[j2]);
                                    } else if j1 == last && j2 < last {
                                        assert(out@[j2] == out_before[j2]);
                                        assert(set_before.contains(fingerprint_v(out_before[j2]@)));
                                    } else if j2 == last && j1 < last {
                                        assert(out@[j1] == out_before[j1]);
                                        assert(set_before.contains(fingerprint_v(out_before[j1]@)));
                                    }
                                }
                                assert forall|g: u64|
                                    cand_fps_upto(self@, i as int, k as int + 1).contains(g)
                                        && !old_set.contains(g) implies exists|j: int|
                                    old_len <= j < out@.len() && fingerprint_v(
                                        (#[trigger] out@[j])@,
                                    ) == g by {
                                    if g == fv {
                                        assert(fingerprint_v(out@[last]@) == g);
                                    } else {
                                        assert(cand_fps_upto(self@, i as int, k as int).contains(
                                            g,
                                        ));
                                        let j = choose|j: int|
                                            old_len <= j < out_before.len() && fingerprint_v(
                                                (#[trigger] out_before[j])@,
                                            ) == g;
                                        assert(out@[j] == out_before[j]);
                                        assert(fingerprint_v(out@[j]@) == g);
                                    }
                                }
                            } else {
                                assert(out@ == out_before);
                                assert(set_before.contains(fv));
                                assert forall|g: u64|
                                    cand_fps_upto(self@, i as int, k as int + 1).contains(g)
                                        && !old_set.contains(g) implies exists|j: int|
                                    old_len <= j < out@.len() && fingerprint_v(
                                        (#[trigger] out@[j])@,
                                    ) == g by {
                                    if g == fv {
                                        assert(set_before.contains(g) && !old_set.contains(g));
                                        assert(cand_fps_upto(self@, i as int, k as int).contains(
                                            g,
                                        ));
                                    } else {
                                        assert(cand_fps_upto(self@, i as int, k as int).contains(
                                            g,
                                        ));
                                    }
                                }
                            }
                        }
                    },
                }
                k += 1;
            }
            proof {
                assert_sets_equal!(
                    cand_fps_upto(self@, i as int, 6) == cand_fps_upto(self@, i as int + 1, 0),
                    f => {
                        if cand_fps_upto(self@, i as int, 6).contains(f) {
                            assert(cand_fps_upto(self@, i as int + 1, 0).contains(f));
                        }
                        if cand_fps_upto(self@, i as int + 1, 0).contains(f) {
                            let (ii, kk) = choose|ii: int, kk: int|
                                ii < i as int + 1 && is_cand_fp(self@, ii, kk, f);
                            assert((ii < i as int || (ii == i as int && kk < 6))
                                && is_cand_fp(self@, ii, kk, f));
                            assert(cand_fps_upto(self@, i as int, 6).contains(f));
                        }
                    }
                );
            }
            i += 1;
        }
        proof {
            assert_sets_equal!(
                cand_fps_upto(self@, self@.cells.len() as int, 0) == cand_fps(self@),
                f => {
                    if cand_fps(self@).contains(f) {
                        let (ii, kk) = choose|ii: int, kk: int| is_cand_fp(self@, ii, kk, f);
                        assert(cand_fps_upto(self@, self@.cells.len() as int, 0).contains(f));
                    }
                }
            );
        }
        Result::Ok(())
    }
}

/// `mv` is a successful growth of some shape of the generation `ms`, and
/// its fingerprint arises from that growth.
pub open spec fn is_candidate_of(ms: Seq<Model>, mv: ModelV) -> bool {
    exists|i: int, ci: int, ck: int|
        0 <= i < ms.len() && is_cand_fp(ms[i]@, ci, ck, fingerprint_v(mv)) && mv == grown_v(
            ms[i]@,
            ms[i]@.cells[ci],
            dir_of(ck),
        )
}

/// Extending the processed prefix by one shape adds exactly that shape's
/// candidate fingerprints.
proof fn lemma_all_upto_step(ms: Seq<Model>, i: int)
    requires
        0 <= i < ms.len(),
    ensures
        all_cand_fps_upto(ms, i + 1) == all_cand_fps_upto(ms, i).union(cand_fps(ms[i]@)),
{
    assert_sets_equal!(
        all_cand_fps_upto(ms, i + 1) == all_cand_fps_upto(ms, i).union(cand_fps(ms[i]@)),
        f => {
            if all_cand_fps_upto(ms, i + 1).contains(f) {
                let ii = choose|ii: int| 0 <= ii < i + 1 && cand_fps(ms[ii]@).contains(f);
                if ii < i {
                    assert(all_cand_fps_upto(ms, i).contains(f));
                }
            }
            if all_cand_fps_upto(ms, i).union(cand_fps(ms[i]@)).contains(f) {
                if all_cand_fps_upto(ms, i).contains(f) {
                    let ii = choose|ii: int| 0 <= ii < i && cand_fps(ms[ii]@).contains(f);
                    assert(0 <= ii < i + 1 && cand_fps(ms[ii]@).contains(f));
                } else {
                    assert(0 <= i < i + 1 && cand_fps(ms[i]@).contains(f));
                }
                assert(all_cand_fps_upto(ms, i + 1).contains(f));
            }
        }
    );
}

/// The whole generation processed is the whole candidate fingerprint set.
proof fn lemma_all_upto_full(ms: Seq<Model>)
    ensures
        all_cand_fps_upto(ms, ms.len() as int) == all_cand_fps(ms),
{
    assert_sets_equal!(
        all_cand_fps_upto(ms, ms.len() as int) == all_cand_fps(ms),
        f => {}
    );
}

/// Advance a whole generation by one cell count.  An empty generation is
/// seeded with the single-cube shape; otherwise every shape is grown at
/// every (cell, direction) pair and exactly one shape is kept for each
/// distinct candidate fingerprint.  `Err` is the fatal lattice-exhausted
/// range error.
pub fn advance(current: &Vec<Model>) -> (r: Result<Vec<Model>, LatticeError>)
    requires
        forall|i: int| 0 <= i < current@.len() ==> (#[trigger] current@[i]).wf(),
    ensures
        match r {
            Result::Ok(next) => {
                &&& forall|j: int| 0 <= j < next@.len() ==> (#[trigger] next@[j]).wf()
                &&& current@.len() == 0 ==> {
                    &&& next@.len() == 1
                    &&& next@[0]@.bound == (0int, 0int, 0int)
                    &&& next@[0]@.cells == seq![(0int, 0int, 0int)]
                }
                &&& current@.len() > 0 ==> {
                    &&& forall|j: int|
                        0 <= j < next@.len() ==> is_candidate_of(current@, (#[trigger] next@[j])@)
                    &&& forall|j1: int, j2: int|
                        0 <= j1 < next@.len() && 0 <= j2 < next@.len() && j1 != j2
                            ==> fingerprint_v((#[trigger] next@[j1])@) != fingerprint_v(
                            (#[trigger] next@[j2])@,
                        )
                    &&& forall|f: u64|
                        all_cand_fps(current@).contains(f) ==> exists|j: int|
                            0 <= j < next@.len() && fingerprint_v((#[trigger] next@[j])@) == f
                }
            },
            Result::Err(_) => exists|i: int|
                0 <= i < current@.len() && {
                    let b = (#[trigger] current@[i])@.bound;
                    b.0 == 255 || b.1 == 255 || b.2 == 255
                },
        },
{
    if current.len() == 0 {
        let mut next: Vec<Model> = Vec::new();
        let seed = Model::default();
        proof {
            assert(seed@.cells =~= seq![(0int, 0int, 0int)]);
        }
        next.push(seed);
        return Result::Ok(next);
    }
    let mut set: HashSet<u64> = HashSet::new();
    let mut next: Vec<Model> = Vec::new();
    let mut i: usize = 0;
    while i < current.len()
        invariant
            forall|ii: int| 0 <= ii < current@.len() ==> (#[trigger] current@[ii]).wf(),
            0 <= i <= current@.len(),
            set@ == all_cand_fps_upto(current@, i as int),
            forall|j: int|
                0 <= j < next@.len() ==> {
                    let mv = (#[trigger] next@[j])@;
                    &&& next@[j].wf()
                    &&& is_candidate_of(current@.take(i as int), mv)
                    &&& set@.contains(fingerprint_v(mv))
                },
            forall|j1: int, j2: int|
                0 <= j1 < next@.len() && 0 <= j2 < next@.len() && j1 != j2 ==> fingerprint_v(
                    (#[trigger] next@[j1])@,
                ) != fingerprint_v((#[trigger] next@[j2])@),
            forall|f: u64|
                all_cand_fps_upto(current@, i as int).contains(f) ==> exists|j: int|
                    0 <= j < next@.len() && fingerprint_v((#[trigger] next@[j])@) == f,
        decreases current@.len() - i,
    {
        let ghost set_before = set@;
        let ghost next_before = next@;
        let r = current[i].add_cubes(&mut set, &mut next);
        match r {
            Result::Err(e) => {
                proof {
                    let b = (current@[i as int])@.bound;
                    assert(b.0 == 255 || b.1 == 255 || b.2 == 255);
                }
                return Result::Err(e);
            },
            Result::Ok(_) => {
                proof {
                    lemma_all_upto_step(current@, i as int);
                    let cm = current@[i as int];
                    assert(set@ == all_cand_fps_upto(current@, i as int + 1)) by {
                        assert(set@ == set_before.union(cand_fps(cm@)));
                    }
                    assert forall|j: int| 0 <= j < next@.len() implies {
                        let mv = (#[trigger] next@[j])@;
                        &&& next@[j].wf()
                        &&& is_candidate_of(current@.take(i as int + 1), mv)
                        &&& set@.contains(fingerprint_v(mv))
                    } by {
                        let mv = next@[j]@;
                        if j < next_before.len() {
                            assert(next@[j] == next_before[j]);
                            assert(is_candidate_of(current@.take(i as int), mv));
                            let (oi, ci, ck) = choose|oi: int, ci: int, ck: int|
                                0 <= oi < current@.take(i as int).len() && is_cand_fp(
                                    current@.take(i as int)[oi]@,
                                    ci,
                                    ck,
                                    fingerprint_v(mv),
                                ) && mv == grown_v(
                                    current@.take(i as int)[oi]@,
                                    current@.take(i as int)[oi]@.cells[ci],
                                    dir_of(ck),
                                );
                            assert(current@.take(i as int + 1)[oi] == current@.take(i as int)[oi]);
                            assert(is_candidate_of(current@.take(i as int + 1), mv));
                        } else {
                            let (ci, ck) = choose|ci: int, ck: int|
                                is_cand_fp(cm@, ci, ck, fingerprint_v(mv)) && mv == grown_v(
                                    cm@,
                                    cm@.cells[ci],
                                    dir_of(ck),
                                );
                            assert(current@.take(i as int + 1)[i as int] == cm);
                            assert(0 <= (i as int) && (i as int) < current@.take(
                                i as int + 1,
                            ).len());
                            assert(is_candidate_of(current@.take(i as int + 1), mv));
                            assert(cand_fps(cm@).contains(fingerprint_v(mv))) by {
                                assert(is_cand_fp(cm@, ci, ck, fingerprint_v(mv)));
                            }
                        }
                    }
                    assert forall|j1: int, j2: int|
                        0 <= j1 < next@.len() && 0 <= j2 < next@.len() && j1 != j2
                            implies fingerprint_v((#[trigger] next@[j1])@) != fingerprint_v(
                        (#[trigger] next@[j2])@,
                    ) by {
                        if j1 < next_before.len() && j2 >= next_before.len() {
                            assert(set_before.contains(fingerprint_v(next_before[j1]@)));
                            assert(next@[j1] == next_before[j1]);
                        } else if j2 < next_before.len() && j1 >= next_before.len() {
                            assert(set_before.contains(fingerprint_v(next_before[j2]@)));
                            assert(next@[j2] == next_before[j2]);
                        }
                    }
                    assert forall|f: u64| #![trigger all_cand_fps_upto(current@, i as int + 1).contains(f)]
                        all_cand_fps_upto(current@, i as int + 1).contains(f) implies exists|
                        j: int,
                    |
                        0 <= j < next@.len() && fingerprint_v((#[trigger] next@[j])@) == f by {
                        if set_before.contains(f) {
                            assert(all_cand_fps_upto(current@, i as int).contains(f));
                            let j = choose|j: int|
                                0 <= j < next_before.len() && fingerprint_v(
                                    (#[trigger] next_before[j])@,
                                ) == f;
                            assert(next@[j] == next_before[j]);
                            assert(fingerprint_v(next@[j]@) == f);
                        } else {
                            assert(cand_fps(cm@).contains(f));
                            let j = choose|j: int|
                                next_before.len() <= j < next@.len() && fingerprint_v(
                                    (#[trigger] next@[j])@,
                                ) == f;
                            assert(0 <= j < next@.len() && fingerprint_v(next@[j]@) == f);
                        }
                    }
                }
            },
        }
        i += 1;
    }
    proof {
        lemma_all_upto_full(current@);
        assert(current@.take(current@.len() as int) =~= current@);
    }
    Result::Ok(next)
}

} // verus!
