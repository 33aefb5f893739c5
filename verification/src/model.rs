//! The lattice shape data model: occupied cells plus a tight bounding box,
//! growth by attaching one cube to an open face, and boundary
//! renormalization that keeps every coordinate non-negative.

use vstd::prelude::*;

verus! {

/// A lattice position, one byte per axis.  The byte width is an explicit,
/// checked ceiling on the span of a shape along each axis.
pub type Coord = (u8, u8, u8);

/// A lattice position over unbounded integers, for specifications.
pub type CoordV = (int, int, int);

/// The ghost image of a [`Coord`].
pub open spec fn c3(c: Coord) -> CoordV {
    (c.0 as int, c.1 as int, c.2 as int)
}

/// Componentwise sum of two ghost coordinates.
pub open spec fn add3(a: CoordV, b: CoordV) -> CoordV {
    (a.0 + b.0, a.1 + b.1, a.2 + b.2)
}

/// Componentwise maximum of two ghost coordinates.
pub open spec fn max3(a: CoordV, b: CoordV) -> CoordV {
    (
        if a.0 >= b.0 { a.0 } else { b.0 },
        if a.1 >= b.1 { a.1 } else { b.1 },
        if a.2 >= b.2 { a.2 } else { b.2 },
    )
}

/// Componentwise order on ghost coordinates.
pub open spec fn le3(a: CoordV, b: CoordV) -> bool {
    a.0 <= b.0 && a.1 <= b.1 && a.2 <= b.2
}

/// Every component is non-negative.
pub open spec fn nonneg3(a: CoordV) -> bool {
    0 <= a.0 && 0 <= a.1 && 0 <= a.2
}

/// The whole cell set, shifted by the same offset.
pub open spec fn shift_cells(cells: Seq<CoordV>, s: CoordV) -> Seq<CoordV> {
    cells.map_values(|c: CoordV| add3(c, s))
}

/// Two cells share a face: they differ by exactly one along exactly one axis.
pub open spec fn adjacent(a: CoordV, b: CoordV) -> bool {
    ||| (a.0 == b.0 && a.1 == b.1 && (a.2 == b.2 + 1 || b.2 == a.2 + 1))
    ||| (a.0 == b.0 && a.2 == b.2 && (a.1 == b.1 + 1 || b.1 == a.1 + 1))
    ||| (a.1 == b.1 && a.2 == b.2 && (a.0 == b.0 + 1 || b.0 == a.0 + 1))
}

/// Cell `i` touches some cell that was placed before it.
pub open spec fn linked_back(cells: Seq<CoordV>, i: int) -> bool {
    exists|j: int| 0 <= j < i && adjacent(cells[i], #[trigger] cells[j])
}

/// Every cell after the first touches an earlier cell, so the whole set is
/// one face-connected component, witnessed by its placement order.
pub open spec fn chain_connected(cells: Seq<CoordV>) -> bool {
    forall|i: int| 1 <= i < cells.len() ==> #[trigger] linked_back(cells, i)
}

/// The ghost image of a shape: its bounding box's far corner and its cells.
pub struct ModelV {
    pub bound: CoordV,
    pub cells: Seq<CoordV>,
}

impl ModelV {
    /// What executable safety rests on: at least one cell, the far corner
    /// within the byte range, and every cell inside the box.
    pub open spec fn sound(self) -> bool {
        &&& 1 <= self.cells.len()
        &&& nonneg3(self.bound)
        &&& le3(self.bound, (255int, 255int, 255int))
        &&& forall|i: int|
            0 <= i < self.cells.len() ==> nonneg3(#[trigger] self.cells[i]) && le3(
                self.cells[i],
                self.bound,
            )
    }

    /// The box is tight: along each axis some cell sits at coordinate 0 and
    /// some cell reaches the far corner's component.
    pub open spec fn tight(self) -> bool {
        &&& exists|i: int| 0 <= i < self.cells.len() && (#[trigger] self.cells[i]).0 == self.bound.0
        &&& exists|i: int| 0 <= i < self.cells.len() && (#[trigger] self.cells[i]).1 == self.bound.1
        &&& exists|i: int| 0 <= i < self.cells.len() && (#[trigger] self.cells[i]).2 == self.bound.2
        &&& exists|i: int| 0 <= i < self.cells.len() && (#[trigger] self.cells[i]).0 == 0
        &&& exists|i: int| 0 <= i < self.cells.len() && (#[trigger] self.cells[i]).1 == 0
        &&& exists|i: int| 0 <= i < self.cells.len() && (#[trigger] self.cells[i]).2 == 0
    }

    /// The full shape invariant: sound, duplicate-free, tight, connected.
    pub open spec fn wf(self) -> bool {
        &&& self.sound()
        &&& self.cells.no_duplicates()
        &&& self.tight()
        &&& chain_connected(self.cells)
    }
}

/// One of the six face directions of the cubic lattice.
#[derive(Clone, Copy, PartialEq, Eq, Structural, Debug)]
pub enum Dir {
    Xp,
    Xn,
    Yp,
    Yn,
    Zp,
    Zn,
}

impl Dir {
    /// The unit vector of this direction.
    pub open spec fn delta(self) -> CoordV {
        match self {
            Dir::Xp => (1int, 0int, 0int),
            Dir::Xn => (-1int, 0int, 0int),
            Dir::Yp => (0int, 1int, 0int),
            Dir::Yn => (0int, -1int, 0int),
            Dir::Zp => (0int, 0int, 1int),
            Dir::Zn => (0int, 0int, -1int),
        }
    }
}

/// Growth would step to a negative coordinate, so the whole shape must be
/// shifted by one instead.
pub open spec fn needs_shift(cube: CoordV, d: Dir) -> bool {
    let dd = d.delta();
    (dd.0 < 0 && cube.0 == 0) || (dd.1 < 0 && cube.1 == 0) || (dd.2 < 0 && cube.2 == 0)
}

/// The offset the whole shape is translated by in the renormalizing case:
/// the direction's negation, +1 on the exhausted axis.
pub open spec fn shift_of(d: Dir) -> CoordV {
    let dd = d.delta();
    (-dd.0, -dd.1, -dd.2)
}

/// Growth would push some coordinate past the byte ceiling: a fatal range
/// error, never a silent wraparound.
pub open spec fn grow_exhausts(m: ModelV, cube: CoordV, d: Dir) -> bool {
    if needs_shift(cube, d) {
        let b = add3(m.bound, shift_of(d));
        b.0 > 255 || b.1 > 255 || b.2 > 255
    } else {
        let t = add3(cube, d.delta());
        t.0 > 255 || t.1 > 255 || t.2 > 255
    }
}

/// The face the new cube would occupy is already occupied: the normal
/// "no growth here" outcome, not an error.
pub open spec fn grow_occupied(m: ModelV, cube: CoordV, d: Dir) -> bool {
    if needs_shift(cube, d) {
        shift_cells(m.cells, shift_of(d)).contains(cube)
    } else {
        m.cells.contains(add3(cube, d.delta()))
    }
}

/// The successor shape when growth succeeds: either the whole shape shifted
/// by one with the new cube at the old cell's place, or the new cube at
/// `cube + delta` with the box enlarged to cover it.
pub open spec fn grown_v(m: ModelV, cube: CoordV, d: Dir) -> ModelV {
    if needs_shift(cube, d) {
        let s = shift_of(d);
        ModelV { bound: add3(m.bound, s), cells: shift_cells(m.cells, s).push(cube) }
    } else {
        let t = add3(cube, d.delta());
        ModelV { bound: max3(m.bound, t), cells: m.cells.push(t) }
    }
}

/// Growth ran out of representable coordinates: the lattice is exhausted.
#[derive(Clone, Copy, PartialEq, Eq, Structural, Debug)]
pub enum LatticeError {
    Exhausted,
}

/// A polycube: the far corner of its bounding box and its occupied cells.
/// The near corner of the box is implicitly the origin.
#[derive(Debug)]
pub struct Model {
    pub max: Coord,
    pub data: Vec<Coord>,
}

impl View for Model {
    type V = ModelV;

    open spec fn view(&self) -> ModelV {
        ModelV { bound: c3(self.max), cells: self.data@.map_values(|c: Coord| c3(c)) }
    }
}

impl Model {
    /// The executable safety invariant, at the ghost level.
    pub open spec fn sound(self) -> bool {
        self@.sound()
    }

    /// The full shape invariant, at the ghost level.
    pub open spec fn wf(self) -> bool {
        self@.wf()
    }
}

impl Default for Model {
    /// The canonical single-cube seed shape: one cell at the origin.
    fn default() -> (m: Model)
        ensures
            m.wf(),
            m@.bound == (0int, 0int, 0int),
            m@.cells =~= seq![(0int, 0int, 0int)],
    {
        let mut data: Vec<Coord> = Vec::new();
        data.push((0, 0, 0));
        let m = Model { max: (0, 0, 0), data };
        proof {
            assert(m@.cells =~= seq![(0int, 0int, 0int)]);
            assert(m@.cells[0] == (0int, 0int, 0int));
            assert(m@.tight());
            assert(chain_connected(m@.cells));
        }
        m
    }
}

/// One byte coordinate moved by a signed offset, with the range checked by
/// the caller: never a wraparound.
pub fn shift_u8(x: u8, o: i8) -> (r: u8)
    requires
        0 <= x as int + o as int <= 255,
    ensures
        r as int == x as int + o as int,
{
    if o >= 0 {
        x + (o as u8)
    } else {
        let m: i16 = -(o as i16);
        x - (m as u8)
    }
}

/// Whether `c` occurs in `v`, by componentwise comparison.
pub fn contains_coord(v: &Vec<Coord>, c: Coord) -> (b: bool)
    ensures
        b == v@.contains(c),
{
    let mut k: usize = 0;
    while k < v.len()
        invariant
            0 <= k <= v@.len(),
            forall|i: int| 0 <= i < k ==> v@[i] != c,
        decreases v@.len() - k,
    {
        let e = v[k];
        if e.0 == c.0 && e.1 == c.1 && e.2 == c.2 {
            assert(v@[k as int] == c);
            return true;
        }
        k += 1;
    }
    false
}

impl Model {
    /// Every cell and the far corner, shifted by the same per-axis offsets.
    pub fn translate(&self, off: (i8, i8, i8)) -> (r: Model)
        requires
            0 <= self@.bound.0 + off.0 <= 255,
            0 <= self@.bound.1 + off.1 <= 255,
            0 <= self@.bound.2 + off.2 <= 255,
            forall|i: int|
                0 <= i < self@.cells.len() ==> {
                    let c = #[trigger] self@.cells[i];
                    &&& 0 <= c.0 + off.0 <= 255
                    &&& 0 <= c.1 + off.1 <= 255
                    &&& 0 <= c.2 + off.2 <= 255
                },
        ensures
            r@.bound == add3(self@.bound, (off.0 as int, off.1 as int, off.2 as int)),
            r@.cells =~= shift_cells(self@.cells, (off.0 as int, off.1 as int, off.2 as int)),
    {
        let ghost offv: CoordV = (off.0 as int, off.1 as int, off.2 as int);
        let mut data: Vec<Coord> = Vec::new();
        let mut k: usize = 0;
        while k < self.data.len()
            invariant
                offv == (off.0 as int, off.1 as int, off.2 as int),
                0 <= k <= self.data@.len(),
                data@.len() == k,
                forall|i: int|
                    0 <= i < self@.cells.len() ==> {
                        let c = #[trigger] self@.cells[i];
                        &&& 0 <= c.0 + offv.0 <= 255
                        &&& 0 <= c.1 + offv.1 <= 255
                        &&& 0 <= c.2 + offv.2 <= 255
                    },
                forall|i: int| 0 <= i < k ==> c3(#[trigger] data@[i]) == add3(self@.cells[i], offv),
            decreases self.data@.len() - k,
        {
            let c = self.data[k];
            proof {
                assert(self@.cells[k as int] == c3(c));
                assert(0 <= c.0 as int + offv.0 <= 255);
                assert(0 <= c.1 as int + offv.1 <= 255);
                assert(0 <= c.2 as int + offv.2 <= 255);
            }
            let nx = shift_u8(c.0, off.0);
            let ny = shift_u8(c.1, off.1);
            let nz = shift_u8(c.2, off.2);
            proof {
                assert(c3((nx, ny, nz)) == add3(self@.cells[k as int], offv));
            }
            data.push((nx, ny, nz));
            k += 1;
        }
        let mx = shift_u8(self.max.0, off.0);
        let my = shift_u8(self.max.1, off.1);
        let mz = shift_u8(self.max.2, off.2);
        let r = Model { max: (mx, my, mz), data };
        proof {
            assert(r@.cells =~= shift_cells(self@.cells, offv));
        }
        r
    }
}

/// The cell at index `i` can be reached from the first-placed (seed) cell
/// within `steps` hops, each hop moving to a face-adjacent cell that was
/// placed earlier — a cell of some ancestor shape.
pub open spec fn reachable(cells: Seq<CoordV>, i: int, steps: nat) -> bool
    decreases steps,
{
    i == 0 || (steps > 0 && exists|j: int|
        0 <= j < i && adjacent(cells[i], #[trigger] cells[j]) && reachable(
            cells,
            j,
            (steps - 1) as nat,
        ))
}

/// More hops reach no fewer cells.
proof fn lemma_reachable_mono(cells: Seq<CoordV>, i: int, a: nat, b: nat)
    requires
        reachable(cells, i, a),
        a <= b,
    ensures
        reachable(cells, i, b),
    decreases a,
{
    if i != 0 {
        let j = choose|j: int|
            0 <= j < i && adjacent(cells[i], #[trigger] cells[j]) && reachable(
                cells,
                j,
                (a - 1) as nat,
            );
        lemma_reachable_mono(cells, j, (a - 1) as nat, (b - 1) as nat);
    }
}

/// Connectivity: every cell of a well-formed shape is reachable from the
/// seed cell through a chain of face-adjacent, earlier-placed cells.
pub proof fn lemma_connected(m: Model, i: int)
    requires
        m.wf(),
        0 <= i < m@.cells.len(),
    ensures
        reachable(m@.cells, i, i as nat),
    decreases i,
{
    if i > 0 {
        assert(linked_back(m@.cells, i));
        let j = choose|j: int| 0 <= j < i && adjacent(m@.cells[i], #[trigger] m@.cells[j]);
        lemma_connected(m, j);
        lemma_reachable_mono(m@.cells, j, j as nat, (i - 1) as nat);
    }
}

/// Uniqueness: a well-formed shape never contains a duplicate coordinate.
pub proof fn lemma_no_duplicate_cells(m: Model)
    requires
        m.wf(),
    ensures
        m@.cells.no_duplicates(),
{
}

/// The larger of two bytes.
pub fn max_u8(a: u8, b: u8) -> (r: u8)
    ensures
        r as int == if a as int >= b as int { a as int } else { b as int },
{
    if a >= b { a } else { b }
}

/// A fresh vector with the same coordinates.
pub fn copy_coords(v: &Vec<Coord>) -> (r: Vec<Coord>)
    ensures
        r@ == v@,
{
    let mut r: Vec<Coord> = Vec::new();
    let mut k: usize = 0;
    while k < v.len()
        invariant
            0 <= k <= v@.len(),
            r@ == v@.take(k as int),
        decreases v@.len() - k,
    {
        r.push(v[k]);
        proof {
            assert(v@.take(k + 1) =~= v@.take(k as int).push(v@[k as int]));
        }
        k += 1;
    }
    proof {
        assert(v@.take(v@.len() as int) =~= v@);
    }
    r
}

/// Membership is the same whether cells are compared as byte triples or as
/// their ghost integer images.
pub proof fn lemma_contains_c3(v: Seq<Coord>, c: Coord)
    ensures
        v.contains(c) <==> v.map_values(|x: Coord| c3(x)).contains(c3(c)),
{
    let m = v.map_values(|x: Coord| c3(x));
    if v.contains(c) {
        let i = choose|i: int| 0 <= i < v.len() && v[i] == c;
        assert(m[i] == c3(c));
        assert(m.contains(c3(c)));
    }
    if m.contains(c3(c)) {
        let i = choose|i: int| 0 <= i < m.len() && m[i] == c3(c);
        assert(c3(v[i]) == c3(c));
        assert(v[i].0 == c.0 && v[i].1 == c.1 && v[i].2 == c.2);
        assert(v[i] == c);
        assert(v.contains(c));
    }
}

/// Face adjacency is invariant under translating both cells by one offset.
pub proof fn lemma_adjacent_shift(a: CoordV, b: CoordV, s: CoordV)
    ensures
        adjacent(add3(a, s), add3(b, s)) == adjacent(a, b),
{
}

impl Model {
    /// Attach one cube to the face of `cube` in direction `dir`.
    ///
    /// `Ok(Some(_))` is the grown shape; `Ok(None)` means the face is
    /// already occupied, the normal "no growth here" outcome; `Err(_)`
    /// means the step would push a coordinate past the byte ceiling, the
    /// fatal "lattice exhausted" range error.  When the step would need a
    /// negative coordinate the whole shape is translated by one instead,
    /// so every coordinate stays non-negative.
    pub fn add_cube(&self, cube: Coord, dir: Dir) -> (r: Result<Option<Model>, LatticeError>)
        requires
            self.sound(),
            self@.cells.contains(c3(cube)),
        ensures
            match r {
                Result::Err(_) => grow_exhausts(self@, c3(cube), dir),
                Result::Ok(o) => !grow_exhausts(self@, c3(cube), dir) && match o {
                    Option::None => grow_occupied(self@, c3(cube), dir),
                    Option::Some(m) => {
                        &&& !grow_occupied(self@, c3(cube), dir)
                        &&& m@ == grown_v(self@, c3(cube), dir)
                        &&& m.sound()
                        &&& (self.wf() ==> m.wf())
                    },
                },
            },
    {
        let (dx, dy, dz): (i8, i8, i8) = match dir {
            Dir::Xp => (1, 0, 0),
            Dir::Xn => (-1, 0, 0),
            Dir::Yp => (0, 1, 0),
            Dir::Yn => (0, -1, 0),
            Dir::Zp => (0, 0, 1),
            Dir::Zn => (0, 0, -1),
        };
        let ghost cv = c3(cube);
        proof {
            assert(dir.delta() == (dx as int, dy as int, dz as int));
            let i = choose|i: int| 0 <= i < self@.cells.len() && self@.cells[i] == cv;
            assert(le3(cv, self@.bound));
        }
        if (dx < 0 && cube.0 == 0) || (dy < 0 && cube.1 == 0) || (dz < 0 && cube.2 == 0) {
            // The step would go negative: renormalize by shifting the whole
            // shape one unit the other way.
            proof {
                assert(needs_shift(cv, dir));
                assert(shift_of(dir) == (-dx as int, -dy as int, -dz as int));
            }
            if (dx < 0 && self.max.0 == 255) || (dy < 0 && self.max.1 == 255) || (dz < 0
                && self.max.2 == 255) {
                return Result::Err(LatticeError::Exhausted);
            }
            let ghost s = shift_of(dir);
            let t = self.translate((-dx, -dy, -dz));
            let ghost g = grown_v(self@, cv, dir);
            if contains_coord(&t.data, cube) {
                proof {
                    lemma_contains_c3(t.data@, cube);
                }
                Result::Ok(Option::None)
            } else {
                proof {
                    lemma_contains_c3(t.data@, cube);
                }
                let mut data = t.data;
                data.push(cube);
                let m = Model { max: t.max, data };
                proof {
                    assert(m@.cells =~= shift_cells(self@.cells, s).push(cv));
                    assert(m@ == g);
                    self.lemma_grow_shift_wf(cv, dir, m@);
                }
                Result::Ok(Option::Some(m))
            }
        } else {
            proof {
                assert(!needs_shift(cv, dir));
            }
            if (dx > 0 && cube.0 == 255) || (dy > 0 && cube.1 == 255) || (dz > 0 && cube.2
                == 255) {
                return Result::Err(LatticeError::Exhausted);
            }
            let tx = shift_u8(cube.0, dx);
            let ty = shift_u8(cube.1, dy);
            let tz = shift_u8(cube.2, dz);
            let target = (tx, ty, tz);
            let ghost tv = add3(cv, dir.delta());
            proof {
                assert(c3(target) == tv);
            }
            if contains_coord(&self.data, target) {
                proof {
                    lemma_contains_c3(self.data@, target);
                }
                Result::Ok(Option::None)
            } else {
                proof {
                    lemma_contains_c3(self.data@, target);
                }
                let ghost g = grown_v(self@, cv, dir);
                let mut data = copy_coords(&self.data);
                data.push(target);
                let m = Model {
                    max: (max_u8(self.max.0, tx), max_u8(self.max.1, ty), max_u8(self.max.2, tz)),
                    data,
                };
                proof {
                    assert(m@.cells =~= self@.cells.push(tv));
                    assert(m@.bound == max3(self@.bound, tv));
                    assert(m@ == g);
                    self.lemma_grow_plain_wf(cv, dir, m@);
                }
                Result::Ok(Option::Some(m))
            }
        }
    }

    /// Soundness and well-formedness carry to the grown shape in the
    /// renormalizing case.
    proof fn lemma_grow_shift_wf(self, cv: CoordV, dir: Dir, g: ModelV)
        requires
            self.sound(),
            self@.cells.contains(cv),
            needs_shift(cv, dir),
            !grow_exhausts(self@, cv, dir),
            !grow_occupied(self@, cv, dir),
            g == grown_v(self@, cv, dir),
        ensures
            g.sound(),
            self.wf() ==> g.wf(),
    {
        let s = shift_of(dir);
        let cells = self@.cells;
        let sc = shift_cells(cells, s);
        let n = cells.len() as int;
        assert(nonneg3(s) && s.0 + s.1 + s.2 == 1);
        assert forall|i: int| 0 <= i < g.cells.len() implies nonneg3(#[trigger] g.cells[i]) && le3(
            g.cells[i],
            g.bound,
        ) by {
            if i < n {
                assert(g.cells[i] == add3(cells[i], s));
            } else {
                assert(g.cells[i] == cv);
                let w = choose|w: int| 0 <= w < n && cells[w] == cv;
                assert(le3(cv, self@.bound));
            }
        }
        assert(g.sound());
        if self.wf() {
            // no duplicates
            assert forall|i: int, j: int|
                0 <= i < g.cells.len() && 0 <= j < g.cells.len() && i != j implies g.cells[i]
                != g.cells[j] by {
                if i < n && j < n {
                    assert(g.cells[i] == add3(cells[i], s) && g.cells[j] == add3(cells[j], s));
                    assert(cells[i] != cells[j]);
                } else if i < n && j == n {
                    assert(!sc.contains(cv));
                    assert(sc[i] == g.cells[i]);
                } else if j < n && i == n {
                    assert(!sc.contains(cv));
                    assert(sc[j] == g.cells[j]);
                }
            }
            assert(g.cells.no_duplicates());
            // tightness
            assert(g.tight()) by {
                let i0 = choose|i: int| 0 <= i < n && (#[trigger] cells[i]).0 == self@.bound.0;
                assert(g.cells[i0].0 == g.bound.0);
                let i1 = choose|i: int| 0 <= i < n && (#[trigger] cells[i]).1 == self@.bound.1;
                assert(g.cells[i1].1 == g.bound.1);
                let i2 = choose|i: int| 0 <= i < n && (#[trigger] cells[i]).2 == self@.bound.2;
                assert(g.cells[i2].2 == g.bound.2);
                // minimum witnesses: on the shifted axis the new cube sits at 0,
                // on the others the old witnesses keep their coordinate.
                let j0 = choose|i: int| 0 <= i < n && (#[trigger] cells[i]).0 == 0;
                let j1 = choose|i: int| 0 <= i < n && (#[trigger] cells[i]).1 == 0;
                let j2 = choose|i: int| 0 <= i < n && (#[trigger] cells[i]).2 == 0;
                if s.0 == 1 {
                    assert(g.cells[n].0 == 0);
                    assert(g.cells[j1].1 == 0 && g.cells[j2].2 == 0);
                } else if s.1 == 1 {
                    assert(g.cells[n].1 == 0);
                    assert(g.cells[j0].0 == 0 && g.cells[j2].2 == 0);
                } else {
                    assert(g.cells[n].2 == 0);
                    assert(g.cells[j0].0 == 0 && g.cells[j1].1 == 0);
                }
            }
            // connectivity chain
            assert forall|i: int| 1 <= i < g.cells.len() implies #[trigger] linked_back(
                g.cells,
                i,
            ) by {
                if i < n {
                    assert(linked_back(cells, i));
                    let j = choose|j: int| 0 <= j < i && adjacent(cells[i], #[trigger] cells[j]);
                    lemma_adjacent_shift(cells[i], cells[j], s);
                    assert(adjacent(g.cells[i], g.cells[j]));
                } else {
                    let w = choose|w: int| 0 <= w < n && cells[w] == cv;
                    assert(g.cells[w] == add3(cv, s));
                    assert(adjacent(g.cells[i], g.cells[w]));
                }
            }
        }
    }

    /// Soundness and well-formedness carry to the grown shape in the plain
    /// (non-renormalizing) case.
    proof fn lemma_grow_plain_wf(self, cv: CoordV, dir: Dir, g: ModelV)
        requires
            self.sound(),
            self@.cells.contains(cv),
            !needs_shift(cv, dir),
            !grow_exhausts(self@, cv, dir),
            !grow_occupied(self@, cv, dir),
            g == grown_v(self@, cv, dir),
        ensures
            g.sound(),
            self.wf() ==> g.wf(),
    {
        let cells = self@.cells;
        let n = cells.len() as int;
        let tv = add3(cv, dir.delta());
        let w = choose|w: int| 0 <= w < n && cells[w] == cv;
        assert(le3(cv, self@.bound));
        assert forall|i: int| 0 <= i < g.cells.len() implies nonneg3(#[trigger] g.cells[i]) && le3(
            g.cells[i],
            g.bound,
        ) by {
            if i < n {
                assert(g.cells[i] == cells[i]);
            } else {
                assert(g.cells[i] == tv);
            }
        }
        assert(g.sound());
        if self.wf() {
            assert forall|i: int, j: int|
                0 <= i < g.cells.len() && 0 <= j < g.cells.len() && i != j implies g.cells[i]
                != g.cells[j] by {
                if i == n {
                    assert(!cells.contains(tv));
                    assert(g.cells[j] == cells[j]);
                } else if j == n {
                    assert(!cells.contains(tv));
                    assert(g.cells[i] == cells[i]);
                }
            }
            assert(g.cells.no_duplicates());
            assert(g.tight()) by {
                let i0 = choose|i: int| 0 <= i < n && (#[trigger] cells[i]).0 == self@.bound.0;
                let i1 = choose|i: int| 0 <= i < n && (#[trigger] cells[i]).1 == self@.bound.1;
                let i2 = choose|i: int| 0 <= i < n && (#[trigger] cells[i]).2 == self@.bound.2;
                if tv.0 > self@.bound.0 {
                    assert(g.cells[n].0 == g.bound.0);
                } else {
                    assert(g.cells[i0].0 == g.bound.0);
                }
                if tv.1 > self@.bound.1 {
                    assert(g.cells[n].1 == g.bound.1);
                } else {
                    assert(g.cells[i1].1 == g.bound.1);
                }
                if tv.2 > self@.bound.2 {
                    assert(g.cells[n].2 == g.bound.2);
                } else {
                    assert(g.cells[i2].2 == g.bound.2);
                }
                let j0 = choose|i: int| 0 <= i < n && (#[trigger] cells[i]).0 == 0;
                let j1 = choose|i: int| 0 <= i < n && (#[trigger] cells[i]).1 == 0;
                let j2 = choose|i: int| 0 <= i < n && (#[trigger] cells[i]).2 == 0;
                assert(g.cells[j0].0 == 0 && g.cells[j1].1 == 0 && g.cells[j2].2 == 0);
            }
            assert forall|i: int| 1 <= i < g.cells.len() implies #[trigger] linked_back(
                g.cells,
                i,
            ) by {
                if i < n {
                    assert(linked_back(cells, i));
                    let j = choose|j: int| 0 <= j < i && adjacent(cells[i], #[trigger] cells[j]);
                    assert(adjacent(g.cells[i], g.cells[j]));
                } else {
                    assert(adjacent(g.cells[i], g.cells[w]));
                }
            }
        }
    }
}

} // verus!
