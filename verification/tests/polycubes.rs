use std::collections::HashSet;

use polycubes::digest::hash_coords;
use polycubes::generation::advance;
use polycubes::model::{Dir, LatticeError, Model};
use polycubes::records::{decode_models, encode_models};
use polycubes::transform::rotation_list;

fn grow(m: &Model, cube: (u8, u8, u8), dir: Dir) -> Model {
    match m.add_cube(cube, dir) {
        Ok(Some(next)) => next,
        Ok(None) => panic!("face already occupied"),
        Err(_) => panic!("lattice exhausted"),
    }
}

fn step(gen: &Vec<Model>) -> Vec<Model> {
    match advance(gen) {
        Ok(next) => next,
        Err(_) => panic!("lattice exhausted"),
    }
}

#[test]
fn reference_sequence_through_generation_seven() {
    let mut counts: Vec<u64> = Vec::new();
    let mut gen: Vec<Model> = Vec::new();
    for _ in 0..7 {
        gen = step(&gen);
        counts.push(gen.len() as u64);
    }
    assert_eq!(counts, vec![1, 1, 2, 8, 29, 166, 1023]);
}

#[test]
fn fingerprint_invariant_under_all_rotations() {
    // An L-shaped tricube has little symmetry of its own, so all 24 images
    // are distinct shapes; their fingerprints must still agree.
    let seed = Model::default();
    let bar = grow(&seed, (0, 0, 0), Dir::Xp);
    let ell = grow(&bar, (1, 0, 0), Dir::Yp);
    let h = ell.hash();
    for t in rotation_list() {
        assert_eq!(ell.transformed(t).hash(), h);
    }
}

#[test]
fn fingerprints_distinguish_the_two_tricubes() {
    let seed = Model::default();
    let bar = grow(&seed, (0, 0, 0), Dir::Xp);
    let line = grow(&bar, (1, 0, 0), Dir::Xp);
    let ell = grow(&bar, (1, 0, 0), Dir::Yp);
    assert_ne!(line.hash(), ell.hash());
}

#[test]
fn renormalizing_growth_from_seed() {
    // Growing the seed cube in the -x direction must shift the whole shape
    // rather than produce a negative coordinate.
    let seed = Model::default();
    assert_eq!(seed.max, (0, 0, 0));
    let grown = grow(&seed, (0, 0, 0), Dir::Xn);
    assert_eq!(grown.max, (1, 0, 0));
    assert_eq!(grown.data, vec![(1, 0, 0), (0, 0, 0)]);
}

#[test]
fn advance_from_empty_seeds_one_cube_then_one_domino() {
    let g1 = step(&Vec::new());
    assert_eq!(g1.len(), 1);
    assert_eq!(g1[0].data, vec![(0, 0, 0)]);
    assert_eq!(g1[0].max, (0, 0, 0));
    // All six growth directions of the seed are symmetric: one domino.
    let g2 = step(&g1);
    assert_eq!(g2.len(), 1);
    assert_eq!(g2[0].data.len(), 2);
}

#[test]
fn record_stream_round_trip_preserves_generations() {
    let mut gen = step(&Vec::new());
    for n in 2usize..=6 {
        gen = step(&gen);
        let bytes = encode_models(&gen);
        assert_eq!(bytes.len(), 3 * n * gen.len());
        let back = decode_models(&bytes, n);
        assert_eq!(back.len(), gen.len());
        let mut written: Vec<u64> = gen.iter().map(|m| m.hash()).collect();
        let mut read: Vec<u64> = back.iter().map(|m| m.hash()).collect();
        written.sort();
        read.sort();
        assert_eq!(written, read);
        for (a, b) in gen.iter().zip(back.iter()) {
            assert_eq!(a.data, b.data);
            assert_eq!(a.max, b.max);
        }
    }
}

#[test]
fn truncated_stream_ends_the_sequence() {
    let gen = step(&step(&Vec::new()));
    let mut bytes = encode_models(&gen);
    // A partial trailing record is end-of-sequence, not an error.
    bytes.pop();
    let back = decode_models(&bytes, 2);
    assert_eq!(back.len(), gen.len() - 1);
}

#[test]
fn cell_digests_have_exact_values() {
    assert_eq!(hash_coords(&Vec::new()), 0);
    assert_eq!(hash_coords(&vec![(0, 0, 0)]), 0xe220a8397b1dcdaf);
    assert_eq!(hash_coords(&vec![(1, 2, 3)]), 0x86bdc63ac722646f);
    // The combiner is an xor of per-cell digests, so order cannot matter.
    assert_eq!(hash_coords(&vec![(0, 0, 0), (1, 2, 3)]), 0x649d6e03bc3fa9c0);
    assert_eq!(hash_coords(&vec![(1, 2, 3), (0, 0, 0)]), 0x649d6e03bc3fa9c0);
}

#[test]
fn lattice_exhausted_at_byte_ceiling() {
    let mut m = Model::default();
    for x in 0..255u16 {
        m = grow(&m, (x as u8, 0, 0), Dir::Xp);
    }
    assert_eq!(m.max, (255, 0, 0));
    assert_eq!(m.data.len(), 256);
    // Growing past the far end exceeds the byte range.
    assert!(matches!(m.add_cube((255, 0, 0), Dir::Xp), Err(LatticeError::Exhausted)));
    // Renormalizing at the near end would shift a cell past the range too.
    assert!(matches!(m.add_cube((0, 0, 0), Dir::Xn), Err(LatticeError::Exhausted)));
    // An occupied face is a normal outcome, not an error.
    assert!(matches!(m.add_cube((0, 0, 0), Dir::Xp), Ok(None)));
}

#[test]
fn translate_shifts_cells_and_bound() {
    let seed = Model::default();
    let domino = grow(&seed, (0, 0, 0), Dir::Yp);
    let moved = domino.translate((3, 0, 2));
    assert_eq!(moved.max, (3, 1, 2));
    assert_eq!(moved.data, vec![(3, 0, 2), (3, 1, 2)]);
}

#[test]
fn add_cubes_collapses_symmetric_growths() {
    // The six dominoes grown from the seed are one rotation orbit: one
    // fingerprint, one retained shape.
    let seed = Model::default();
    let mut set: HashSet<u64> = HashSet::new();
    let mut out: Vec<Model> = Vec::new();
    seed.add_cubes(&mut set, &mut out).expect("lattice exhausted");
    assert_eq!(out.len(), 1);
    assert_eq!(set.len(), 1);
    // A second pass adds nothing new.
    seed.add_cubes(&mut set, &mut out).expect("lattice exhausted");
    assert_eq!(out.len(), 1);
    assert_eq!(set.len(), 1);
}

#[test]
fn duplicate_attachment_is_absorbed() {
    let seed = Model::default();
    let domino = grow(&seed, (0, 0, 0), Dir::Zp);
    assert!(matches!(domino.add_cube((0, 0, 0), Dir::Zp), Ok(None)));
    assert!(matches!(domino.add_cube((0, 0, 1), Dir::Zn), Ok(None)));
}
