//! Fixed-width record streams: the disk-backed variant's persistent form.
//!
//! A generation of shapes with `n` cells each is stored as a flat,
//! headerless byte stream of `3 * n`-byte records, one byte per coordinate
//! axis, one triple per cell, cells in storage order.  The reader
//! recomputes each shape's bounding box from the bytes; a trailing chunk of
//! fewer than `3 * n` bytes ends the sequence — by design this cannot be
//! told apart from truncation.

use vstd::prelude::*;
use crate::fingerprint::fingerprint_v;
use crate::model::{c3, le3, max3, max_u8, nonneg3, Coord, CoordV, Model, ModelV};

verus! {

/// The bytes of one shape's record: x, y, z of each cell in order.
pub open spec fn record_bytes(cells: Seq<CoordV>) -> Seq<u8>
    decreases cells.len(),
{
    if cells.len() == 0 {
        Seq::empty()
    } else {
        record_bytes(cells.drop_last()) + seq![
            cells.last().0 as u8,
            cells.last().1 as u8,
            cells.last().2 as u8,
        ]
    }
}

/// The bytes of a whole generation: one record per shape, in order.
pub open spec fn stream_bytes(ms: Seq<Model>) -> Seq<u8>
    decreases ms.len(),
{
    if ms.len() == 0 {
        Seq::empty()
    } else {
        record_bytes(ms[0]@.cells) + stream_bytes(ms.skip(1))
    }
}

/// The running componentwise maximum of a cell sequence, from the origin:
/// how the reader recomputes a bounding box.
pub open spec fn fold_max(cells: Seq<CoordV>) -> CoordV
    decreases cells.len(),
{
    if cells.len() == 0 {
        (0int, 0int, 0int)
    } else {
        max3(fold_max(cells.drop_last()), cells.last())
    }
}

/// The cells encoded in one complete record of `n` cells.
pub open spec fn chunk_cells(bytes: Seq<u8>, n: int) -> Seq<CoordV> {
    Seq::new(
        n as nat,
        |i: int| (bytes[3 * i] as int, bytes[3 * i + 1] as int, bytes[3 * i + 2] as int),
    )
}

/// The shape read back from one complete record, its box recomputed.
pub open spec fn chunk_model(bytes: Seq<u8>, n: int) -> ModelV {
    ModelV { bound: fold_max(chunk_cells(bytes, n)), cells: chunk_cells(bytes, n) }
}

/// Every shape read from a record stream, first record first; whatever
/// trails after the last complete record is ignored.
pub open spec fn decode_stream_v(bytes: Seq<u8>, n: int) -> Seq<ModelV>
    decreases bytes.len(),
{
    if n <= 0 || bytes.len() < 3 * n {
        Seq::empty()
    } else {
        seq![chunk_model(bytes.take(3 * n), n)] + decode_stream_v(bytes.skip(3 * n), n)
    }
}

/// A record is three bytes per cell.
proof fn lemma_record_len(cells: Seq<CoordV>)
    ensures
        record_bytes(cells).len() == 3 * cells.len(),
    decreases cells.len(),
{
    if cells.len() > 0 {
        lemma_record_len(cells.drop_last());
    }
}

/// Each coordinate byte of a record sits at its cell's offset.
proof fn lemma_record_index(cells: Seq<CoordV>, i: int)
    requires
        0 <= i < cells.len(),
    ensures
        record_bytes(cells)[3 * i] == cells[i].0 as u8,
        record_bytes(cells)[3 * i + 1] == cells[i].1 as u8,
        record_bytes(cells)[3 * i + 2] == cells[i].2 as u8,
    decreases cells.len(),
{
    lemma_record_len(cells);
    lemma_record_len(cells.drop_last());
    if i == cells.len() - 1 {
        assert(cells.last() == cells[i]);
    } else {
        lemma_record_index(cells.drop_last(), i);
        assert(cells.drop_last()[i] == cells[i]);
    }
}

/// The running maximum never exceeds a box that bounds every cell.
proof fn lemma_fold_max_le(cells: Seq<CoordV>, b: CoordV)
    requires
        nonneg3(b),
        forall|i: int| 0 <= i < cells.len() ==> le3(#[trigger] cells[i], b),
    ensures
        le3(fold_max(cells), b),
    decreases cells.len(),
{
    if cells.len() > 0 {
        assert(forall|i: int|
            0 <= i < cells.drop_last().len() ==> #[trigger] cells.drop_last()[i] == cells[i]);
        lemma_fold_max_le(cells.drop_last(), b);
        assert(le3(cells.last(), b));
    }
}

/// The running maximum dominates every cell.
proof fn lemma_fold_max_ge(cells: Seq<CoordV>, i: int)
    requires
        0 <= i < cells.len(),
    ensures
        le3(cells[i], fold_max(cells)),
    decreases cells.len(),
{
    if i == cells.len() - 1 {
        assert(cells.last() == cells[i]);
    } else {
        lemma_fold_max_ge(cells.drop_last(), i);
        assert(cells.drop_last()[i] == cells[i]);
    }
}

/// Reading back one shape's record yields that shape: the cells survive
/// the byte round trip, and the recomputed box is the stored one because
/// the stored box is tight.
proof fn lemma_chunk_round_trip(m: Model, n: int)
    requires
        m.wf(),
        m@.cells.len() == n,
    ensures
        record_bytes(m@.cells).len() == 3 * n,
        chunk_model(record_bytes(m@.cells), n) == m@,
{
    let cells = m@.cells;
    let bytes = record_bytes(cells);
    lemma_record_len(cells);
    let back = chunk_cells(bytes, n);
    assert forall|i: int| 0 <= i < n implies back[i] == cells[i] by {
        lemma_record_index(cells, i);
        assert(nonneg3(cells[i]) && le3(cells[i], m@.bound));
    }
    assert(back =~= cells);
    lemma_fold_max_le(cells, m@.bound);
    let i0 = choose|i: int| 0 <= i < cells.len() && (#[trigger] cells[i]).0 == m@.bound.0;
    lemma_fold_max_ge(cells, i0);
    let i1 = choose|i: int| 0 <= i < cells.len() && (#[trigger] cells[i]).1 == m@.bound.1;
    lemma_fold_max_ge(cells, i1);
    let i2 = choose|i: int| 0 <= i < cells.len() && (#[trigger] cells[i]).2 == m@.bound.2;
    lemma_fold_max_ge(cells, i2);
    assert(fold_max(back) == m@.bound);
}

/// Appending one shape to a generation appends its record to the stream.
proof fn lemma_stream_push(ms: Seq<Model>, m: Model)
    ensures
        stream_bytes(ms.push(m)) == stream_bytes(ms) + record_bytes(m@.cells),
    decreases ms.len(),
{
    if ms.len() == 0 {
        let p = ms.push(m);
        assert(p[0] == m);
        assert(p.skip(1) =~= Seq::<Model>::empty());
        assert(stream_bytes(p.skip(1)) == Seq::<u8>::empty());
        assert(stream_bytes(p) == record_bytes(m@.cells) + stream_bytes(p.skip(1)));
        assert(stream_bytes(p) =~= stream_bytes(ms) + record_bytes(m@.cells));
    } else {
        let p = ms.push(m);
        assert(p[0] == ms[0]);
        assert(p.skip(1) =~= ms.skip(1).push(m));
        lemma_stream_push(ms.skip(1), m);
        assert(stream_bytes(p) == record_bytes(ms[0]@.cells) + stream_bytes(p.skip(1)));
        assert(stream_bytes(p.skip(1)) == stream_bytes(ms.skip(1)) + record_bytes(m@.cells));
        assert(stream_bytes(ms) == record_bytes(ms[0]@.cells) + stream_bytes(ms.skip(1)));
        assert(stream_bytes(p) =~= stream_bytes(ms) + record_bytes(m@.cells));
    }
}

/// Disk round-trip equivalence: writing a generation of well-formed
/// `n`-cell shapes as a record stream and reading the stream back yields
/// exactly the same shapes — so in particular the set of fingerprints of
/// the shapes read back equals that of the shapes written.
pub proof fn lemma_stream_round_trip(ms: Seq<Model>, n: int)
    requires
        1 <= n,
        forall|i: int|
            0 <= i < ms.len() ==> (#[trigger] ms[i]).wf() && ms[i]@.cells.len() == n,
    ensures
        decode_stream_v(stream_bytes(ms), n) == ms.map_values(|m: Model| m@),
        decode_stream_v(stream_bytes(ms), n).map_values(|mv: ModelV| fingerprint_v(mv))
            == ms.map_values(|m: Model| fingerprint_v(m@)),
    decreases ms.len(),
{
    let bytes = stream_bytes(ms);
    assert(ms.map_values(|m: Model| m@).map_values(|mv: ModelV| fingerprint_v(mv)) =~= ms.map_values(
        |m: Model| fingerprint_v(m@),
    ));
    if ms.len() == 0 {
        assert(bytes.len() == 0);
        assert(decode_stream_v(bytes, n) =~= ms.map_values(|m: Model| m@));
    } else {
        let head = ms[0];
        let rec = record_bytes(head@.cells);
        lemma_chunk_round_trip(head, n);
        assert(forall|i: int|
            0 <= i < ms.skip(1).len() ==> #[trigger] ms.skip(1)[i] == ms[i + 1]);
        lemma_stream_round_trip(ms.skip(1), n);
        assert(bytes.take(3 * n) =~= rec);
        assert(bytes.skip(3 * n) =~= stream_bytes(ms.skip(1)));
        assert(chunk_model(bytes.take(3 * n), n) == head@);
        assert(decode_stream_v(bytes, n) =~= ms.map_values(|m: Model| m@));
    }
}

/// Append one shape's raw cell coordinates to a record stream.
pub fn append_record(buf: &mut Vec<u8>, m: &Model)
    ensures
        final(buf)@ == old(buf)@ + record_bytes(m@.cells),
{
    let ghost cells = m@.cells;
    let mut k: usize = 0;
    while k < m.data.len()
        invariant
            cells == m@.cells,
            0 <= k <= m.data@.len(),
            buf@ == old(buf)@ + record_bytes(cells.take(k as int)),
        decreases m.data@.len() - k,
    {
        let c = m.data[k];
        proof {
            assert(cells[k as int] == c3(c));
            assert(cells.take(k + 1).drop_last() =~= cells.take(k as int));
            assert(cells.take(k + 1).last() == cells[k as int]);
        }
        buf.push(c.0);
        buf.push(c.1);
        buf.push(c.2);
        proof {
            assert(buf@ =~= old(buf)@ + record_bytes(cells.take(k + 1)));
        }
        k += 1;
    }
    proof {
        assert(cells.take(cells.len() as int) =~= cells);
    }
}

/// Encode a whole generation as one record stream.
pub fn encode_models(ms: &Vec<Model>) -> (buf: Vec<u8>)
    ensures
        buf@ == stream_bytes(ms@),
{
    let mut buf: Vec<u8> = Vec::new();
    let mut i: usize = 0;
    while i < ms.len()
        invariant
            0 <= i <= ms@.len(),
            buf@ == stream_bytes(ms@.take(i as int)),
        decreases ms@.len() - i,
    {
        proof {
            lemma_stream_push(ms@.take(i as int), ms@[i as int]);
            assert(ms@.take(i + 1) =~= ms@.take(i as int).push(ms@[i as int]));
        }
        append_record(&mut buf, &ms[i]);
        i += 1;
    }
    proof {
        assert(ms@.take(ms@.len() as int) =~= ms@);
    }
    buf
}

/// Read back every complete `n`-cell record of a stream, recomputing each
/// shape's bounding box; an incomplete trailing chunk ends the sequence.
/// Every shape read back is sound; well-formedness is not re-checked and
/// holds when the stream was written by [`encode_models`] from well-formed
/// shapes (see [`lemma_stream_round_trip`]).
pub fn decode_models(bytes: &Vec<u8>, n: usize) -> (ms: Vec<Model>)
    requires
        1 <= n,
        3 * n < usize::MAX,
    ensures
        ms@.map_values(|m: Model| m@) == decode_stream_v(bytes@, n as int),
        forall|j: int| 0 <= j < ms@.len() ==> (#[trigger] ms@[j]).sound(),
    decreases bytes@.len(),
{
    let mut ms: Vec<Model> = Vec::new();
    let mut o: usize = 0;
    let step: usize = 3 * n;
    proof {
        assert(bytes@.len() == bytes.len());
        assert(bytes@.skip(0) =~= bytes@);
        assert(ms@.map_values(|m: Model| m@) + decode_stream_v(bytes@, n as int)
            =~= decode_stream_v(bytes@, n as int));
    }
    while step <= bytes.len() - o && o < bytes.len()
        invariant
            1 <= n,
            step == 3 * n,
            step < usize::MAX,
            0 <= o <= bytes@.len(),
            bytes@.len() <= usize::MAX,
            decode_stream_v(bytes@, n as int) == ms@.map_values(|m: Model| m@)
                + decode_stream_v(bytes@.skip(o as int), n as int),
            forall|j: int| 0 <= j < ms@.len() ==> (#[trigger] ms@[j]).sound(),
        decreases bytes@.len() - o,
    {
        let ghost chunk = bytes@.subrange(o as int, o as int + 3 * n);
        let mut data: Vec<Coord> = Vec::new();
        let mut max: Coord = (0, 0, 0);
        let mut j: usize = 0;
        while j < n
            invariant
                1 <= n,
                step == 3 * n,
                0 <= o,
                o + step <= bytes@.len(),
                bytes@.len() <= usize::MAX,
                chunk == bytes@.subrange(o as int, o as int + 3 * n),
                0 <= j <= n,
                data@.len() == j,
                forall|i: int|
                    0 <= i < j ==> c3(#[trigger] data@[i]) == chunk_cells(chunk, n as int)[i],
                c3(max) == fold_max(chunk_cells(chunk, n as int).take(j as int)),
            decreases n - j,
        {
            let b0 = bytes[o + 3 * j];
            let b1 = bytes[o + 3 * j + 1];
            let b2 = bytes[o + 3 * j + 2];
            proof {
                assert(chunk[3 * (j as int)] == b0);
                assert(chunk[3 * (j as int) + 1] == b1);
                assert(chunk[3 * (j as int) + 2] == b2);
                assert(chunk_cells(chunk, n as int)[j as int] == (
                    b0 as int,
                    b1 as int,
                    b2 as int,
                ));
                assert(chunk_cells(chunk, n as int).take(j + 1).drop_last() =~= chunk_cells(
                    chunk,
                    n as int,
                ).take(j as int));
                assert(chunk_cells(chunk, n as int).take(j + 1).last() == chunk_cells(
                    chunk,
                    n as int,
                )[j as int]);
            }
            data.push((b0, b1, b2));
            max = (max_u8(max.0, b0), max_u8(max.1, b1), max_u8(max.2, b2));
            j += 1;
        }
        let m = Model { max, data };
        proof {
            assert(chunk_cells(chunk, n as int).take(n as int) =~= chunk_cells(
                chunk,
                n as int,
            ));
            assert(m@.cells =~= chunk_cells(chunk, n as int));
            assert(m@ == chunk_model(chunk, n as int));
            assert(m@.sound()) by {
                assert forall|i: int| 0 <= i < m@.cells.len() implies nonneg3(
                    #[trigger] m@.cells[i],
                ) && le3(m@.cells[i], m@.bound) by {
                    lemma_fold_max_ge(m@.cells, i);
                }
            }
            assert(bytes@.skip(o as int).take(3 * (n as int)) =~= chunk);
            assert(bytes@.skip(o as int).skip(3 * (n as int)) =~= bytes@.skip(
                o as int + 3 * (n as int),
            ));
            assert(decode_stream_v(bytes@.skip(o as int), n as int) == seq![m@]
                + decode_stream_v(bytes@.skip(o as int + 3 * (n as int)), n as int));
        }
        let ghost ms_before = ms@;
        ms.push(m);
        proof {
            assert(ms@.map_values(|mm: Model| mm@) =~= ms_before.map_values(|mm: Model| mm@)
                + seq![m@]);
        }
        o += step;
    }
    proof {
        assert(bytes@.skip(o as int).len() < 3 * (n as int));
        assert(decode_stream_v(bytes@.skip(o as int), n as int) =~= Seq::<ModelV>::empty());
        assert(ms@.map_values(|m: Model| m@) =~= decode_stream_v(bytes@, n as int));
    }
    ms
}

} // verus!
