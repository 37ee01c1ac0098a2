//! Big-endian byte codecs and the binary model format.

use vstd::prelude::*;
use vstd::arithmetic::div_mod::lemma_fundamental_div_mod_converse;
use crate::animation::Command;
use crate::vars::{arg_sizes, Commands};

verus! {

/// The value of the four bytes `s[off..off + 4]` read as a big-endian unsigned integer.
pub open spec fn be_at(s: Seq<u8>, off: int) -> int
    recommends
        0 <= off,
        off + 4 <= s.len(),
{
    s[off] * 0x1000000 + s[off + 1] * 0x10000 + s[off + 2] * 0x100 + s[off + 3]
}

/// The value of the four bytes `s[0..4]` read as a big-endian unsigned integer.
pub open spec fn be_value(s: Seq<u8>) -> int
    recommends
        s.len() >= 4,
{
    be_at(s, 0)
}

/// The four big-endian bytes of `x`.
pub open spec fn be_bytes(x: u32) -> Seq<u8> {
    seq![
        (x / 0x1000000) as u8,
        ((x / 0x10000) % 0x100) as u8,
        ((x / 0x100) % 0x100) as u8,
        (x % 0x100) as u8,
    ]
}

/// Reads the first four bytes of `inp` as a big-endian `u32`.
pub fn u8_to_u32(inp: &[u8]) -> (r: u32)
    requires
        inp@.len() >= 4,
    ensures
        r == be_value(inp@),
{
    (inp[0] as u32) * 0x1000000 + (inp[1] as u32) * 0x10000 + (inp[2] as u32) * 0x100 + (inp[3] as u32)
}


/// Reads twelve bytes of `inp` as three big-endian `u32` values.
pub fn u8_to3_u32(inp: &[u8]) -> (r: (u32, u32, u32))
    requires
        inp@.len() >= 12,
    ensures
        r.0 == be_value(inp@),
        r.1 == be_at(inp@, 4),
        r.2 == be_at(inp@, 8),
{
    (u8_to_u32(&inp[0..4]), u8_to_u32(&inp[4..8]), u8_to_u32(&inp[8..12]))
}

/// Splits `conv` into its four bytes, most significant first.
pub fn u32_to_u8(conv: u32) -> (ret: [u8; 4])
    ensures
        ret@ == be_bytes(conv),
{
    let mut ret: [u8; 4] = [0;4];
    ret[0] = (conv / 0x1000000) as u8;
    ret[1] = ((conv / 0x10000) % 0x100) as u8;
    ret[2] = ((conv / 0x100) % 0x100) as u8;
    ret[3] = (conv % 0x100) as u8;
    assert(ret@ =~= be_bytes(conv));
    ret
}

/// Splitting a `u32` into bytes and reading them back gives the same value.
pub proof fn lemma_bytes_then_value(x: u32)
    ensures
        be_value(be_bytes(x)) == x,
{
    let b = be_bytes(x);
    assert(b[0] == x / 0x1000000);
    assert(b[1] == (x / 0x10000) % 0x100);
    assert(b[2] == (x / 0x100) % 0x100);
    assert(b[3] == x % 0x100);
}

/// Reading four bytes as a `u32` and splitting it again gives the same bytes.
pub proof fn lemma_value_then_bytes(s: Seq<u8>)
    requires
        s.len() == 4,
    ensures
        be_value(s) <= u32::MAX,
        be_bytes(be_value(s) as u32) == s,
{
    let v = be_value(s);
    let (a, b, c, d) = (s[0] as int, s[1] as int, s[2] as int, s[3] as int);
    lemma_fundamental_div_mod_converse(v, 0x1000000, a, b * 0x10000 + c * 0x100 + d);
    lemma_fundamental_div_mod_converse(v, 0x10000, a * 0x100 + b, c * 0x100 + d);
    lemma_fundamental_div_mod_converse(a * 0x100 + b, 0x100, a, b);
    lemma_fundamental_div_mod_converse(v, 0x100, a * 0x10000 + b * 0x100 + c, d);
    lemma_fundamental_div_mod_converse(a * 0x10000 + b * 0x100 + c, 0x100, a * 0x100 + b, c);
    assert(be_bytes(v as u32) =~= s);
}


/// Three big-endian values read at `off`, `off + 4` and `off + 8`.
pub open spec fn triple_at(s: Seq<u8>, off: int) -> (u32, u32, u32) {
    (be_at(s, off) as u32, be_at(s, off + 4) as u32, be_at(s, off + 8) as u32)
}

/// The twelve bytes that encode a triple of values.
pub open spec fn triple_bytes(t: (u32, u32, u32)) -> Seq<u8> {
    be_bytes(t.0) + be_bytes(t.1) + be_bytes(t.2)
}

/// The bytes of a sequence of triples, twelve per triple, in order.
pub open spec fn triples_bytes(ts: Seq<(u32, u32, u32)>) -> Seq<u8> {
    Seq::new(12 * ts.len(), |i: int| triple_bytes(ts[i / 12])[i % 12])
}

/// A model as the file stores it: the position and the points as the bit
/// patterns of their coordinates, and the polygons as triples of indices
/// into `points`.
#[derive(Debug, PartialEq, Eq)]
pub struct ObjData {
    pub pos: (u32, u32, u32),
    pub points: Vec<(u32, u32, u32)>,
    pub refs: Vec<(usize, usize, usize)>,
}

/// Why a byte sequence is not a model file.
#[derive(Debug, Clone, Copy, PartialEq, Eq, Structural)]
pub enum ModelError {
    /// Fewer than four bytes: no count of entries.
    MissingCount,
    /// Fewer entries than the count announces.
    MissingPoints,
    /// The polygon section does not end on a whole triple.
    PartialPolygon,
}

/// Number of coordinate triples (the position first, then the points) that a model file announces.
pub open spec fn entry_count(s: Seq<u8>) -> int {
    be_at(s, 0)
}

/// Where the polygon section of a model file begins.
pub open spec fn polygons_start(s: Seq<u8>) -> int {
    4 + 12 * entry_count(s)
}

/// The position a model file gives: its first entry, or the origin when it has none.
pub open spec fn decoded_pos(s: Seq<u8>) -> (u32, u32, u32) {
    if entry_count(s) == 0 {
        (0, 0, 0)
    } else {
        triple_at(s, 4)
    }
}

/// The points of a model file: every entry after the first.
pub open spec fn decoded_points(s: Seq<u8>) -> Seq<(u32, u32, u32)> {
    let n = if entry_count(s) == 0 { 0 } else { entry_count(s) - 1 };
    Seq::new(n as nat, |k: int| triple_at(s, 16 + 12 * k))
}

/// The polygons of a model file: the triples that follow the entries.
pub open spec fn decoded_refs(s: Seq<u8>) -> Seq<(usize, usize, usize)> {
    let start = polygons_start(s);
    Seq::new(
        ((s.len() - start) / 12) as nat,
        |k: int|
            {
                let t = triple_at(s, start + 12 * k);
                (t.0 as usize, t.1 as usize, t.2 as usize)
            },
    )
}

/// What reading a model file gives: an error, or the position, points and polygons.
pub open spec fn decode_model(s: Seq<u8>) -> Result<
    ((u32, u32, u32), Seq<(u32, u32, u32)>, Seq<(usize, usize, usize)>),
    ModelError,
> {
    if s.len() < 4 {
        Err(ModelError::MissingCount)
    } else if s.len() < polygons_start(s) {
        Err(ModelError::MissingPoints)
    } else if (s.len() - polygons_start(s)) % 12 != 0 {
        Err(ModelError::PartialPolygon)
    } else {
        Ok((decoded_pos(s), decoded_points(s), decoded_refs(s)))
    }
}

fn read_triple(s: &[u8], off: usize) -> (t: (u32, u32, u32))
    requires
        off + 12 <= s.len(),
    ensures
        t == triple_at(s@, off as int),
{
    let sub = &s[off..off + 12];
    u8_to3_u32(sub)
}

/// Reads a model file: a big-endian count of entries, the entries (the
/// position, then the points) as three big-endian coordinate bit patterns
/// each, and then the polygons as three big-endian point indices each.
pub fn read_model(u8s: &[u8]) -> (r: Result<ObjData, ModelError>)
    ensures
        match decode_model(u8s@) {
            Ok((pos, points, refs)) => r matches Ok(m) && m.pos == pos && m.points@ == points
                && m.refs@ == refs,
            Err(e) => r == Err::<ObjData, ModelError>(e),
        },
{
    if u8s.len() < 4 {
        return Err(ModelError::MissingCount);
    }
    let nd: u32 = u8_to_u32(u8s);
    let end: u64 = 4 + 12 * (nd as u64);
    if (u8s.len() as u64) < end {
        return Err(ModelError::MissingPoints);
    }
    let beg: usize = end as usize;
    if (u8s.len() - beg) % 12 != 0 {
        return Err(ModelError::PartialPolygon);
    }
    let mut pos: (u32, u32, u32) = (0, 0, 0);
    if nd > 0 {
        pos = read_triple(u8s, 4);
    }
    let mut points: Vec<(u32, u32, u32)> = Vec::new();
    let mut i: u32 = 1;
    while i < nd
        invariant
            1 <= i,
            nd == entry_count(u8s@),
            (i as int) <= nd || (nd == 0 && i == 1),
            4 + 12 * (nd as int) <= u8s.len(),
            points@.len() == i - 1,
            forall|k: int| 0 <= k < points@.len() ==> points@[k] == triple_at(u8s@, 16 + 12 * k),
        decreases nd - i,
    {
        let off: usize = 4 + 12 * (i as usize);
        let t = read_triple(u8s, off);
        points.push(t);
        i = i + 1;
    }
    assert(points@ =~= decoded_points(u8s@));
    let mut refs: Vec<(usize, usize, usize)> = Vec::new();
    let mut j: usize = beg;
    while j < u8s.len()
        invariant
            beg == polygons_start(u8s@),
            beg <= j <= u8s@.len(),
            (j - beg) % 12 == 0,
            (u8s@.len() - beg) % 12 == 0,
            refs@.len() == (j - beg) / 12,
            forall|k: int|
                0 <= k < refs@.len() ==> {
                    let t = #[trigger] triple_at(u8s@, beg + 12 * k);
                    refs@[k] == (t.0 as usize, t.1 as usize, t.2 as usize)
                },
        decreases u8s@.len() - j,
    {
        let t = read_triple(u8s, j);
        assert(triple_at(u8s@, beg + 12 * (refs@.len() as int)) == t);
        refs.push((t.0 as usize, t.1 as usize, t.2 as usize));
        j = j + 12;
    }
    assert(refs@ =~= decoded_refs(u8s@));
    Ok(ObjData { pos, points, refs })
}


/// The count a model file records for `n` points: the points and the
/// position, the number of points taken modulo 2^32.
pub open spec fn encoded_count(n: nat) -> u32 {
    ((n % 0x1_0000_0000) + 1) as u32
}

/// The polygon triple as the file stores it: each index modulo 2^32.
pub open spec fn ref_bits(r: (usize, usize, usize)) -> (u32, u32, u32) {
    ((r.0 as int % 0x1_0000_0000) as u32, (r.1 as int % 0x1_0000_0000) as u32, (r.2 as int % 0x1_0000_0000) as u32)
}

/// The bytes of a model file for a position, points and polygons.
pub open spec fn encode_model(
    pos: (u32, u32, u32),
    points: Seq<(u32, u32, u32)>,
    refs: Seq<(usize, usize, usize)>,
) -> Seq<u8> {
    be_bytes(encoded_count(points.len())) + triple_bytes(pos) + triples_bytes(points)
        + triples_bytes(refs.map_values(|r: (usize, usize, usize)| ref_bits(r)))
}

/// Appending one triple to a sequence appends its twelve bytes.
pub proof fn lemma_triples_bytes_push(ts: Seq<(u32, u32, u32)>, t: (u32, u32, u32))
    ensures
        triples_bytes(ts.push(t)) == triples_bytes(ts) + triple_bytes(t),
{
    let a = triples_bytes(ts.push(t));
    let b = triples_bytes(ts) + triple_bytes(t);
    assert forall|i: int| 0 <= i < a.len() implies a[i] == b[i] by {
        if i < 12 * ts.len() {
            assert(i / 12 < ts.len()) by (nonlinear_arith)
                requires
                    0 <= i < 12 * ts.len(),
            ;
        } else {
            let r = i - 12 * ts.len();
            lemma_fundamental_div_mod_converse(i, 12, ts.len() as int, r);
        }
    }
    assert(a =~= b);
}

fn push_u32(out: &mut Vec<u8>, x: u32)
    ensures
        final(out)@ == old(out)@ + be_bytes(x),
{
    let b = u32_to_u8(x);
    out.push(b[0]);
    out.push(b[1]);
    out.push(b[2]);
    out.push(b[3]);
    assert(final(out)@ =~= old(out)@ + be_bytes(x));
}

fn push_triple(out: &mut Vec<u8>, t: (u32, u32, u32))
    ensures
        final(out)@ == old(out)@ + triple_bytes(t),
{
    push_u32(out, t.0);
    push_u32(out, t.1);
    push_u32(out, t.2);
    assert(final(out)@ =~= old(out)@ + triple_bytes(t));
}

/// Writes a model file in the layout that `read_model` reads: the count of
/// entries (the points and the position), the position, the points, and the
/// polygons with each index taken modulo 2^32.
pub fn write_model(ob: &ObjData) -> (out: Vec<u8>)
    requires
        ob.points@.len() % 0x1_0000_0000 != 0xffff_ffff,
    ensures
        out@ == encode_model(ob.pos, ob.points@, ob.refs@),
{
    let points = &ob.points;
    let nd: u32 = ((points.len() as u64) % 0x1_0000_0000) as u32 + 1;
    let mut out: Vec<u8> = Vec::new();
    push_u32(&mut out, nd);
    push_triple(&mut out, ob.pos);
    let ghost head = out@;
    assert(triples_bytes(points@.take(0)) =~= Seq::<u8>::empty());
    let mut i: usize = 0;
    while i < points.len()
        invariant
            i <= points@.len(),
            out@ == head + triples_bytes(points@.take(i as int)),
        decreases points@.len() - i,
    {
        proof {
            lemma_triples_bytes_push(points@.take(i as int), points@[i as int]);
            assert(points@.take(i as int).push(points@[i as int]) =~= points@.take(i + 1));
        }
        push_triple(&mut out, points[i]);
        i = i + 1;
    }
    assert(points@.take(points@.len() as int) =~= points@);
    let ghost body = out@;
    let ghost bits = ob.refs@.map_values(|r: (usize, usize, usize)| ref_bits(r));
    assert(triples_bytes(bits.take(0)) =~= Seq::<u8>::empty());
    let mut j: usize = 0;
    while j < ob.refs.len()
        invariant
            j <= ob.refs@.len(),
            bits == ob.refs@.map_values(|r: (usize, usize, usize)| ref_bits(r)),
            out@ == body + triples_bytes(bits.take(j as int)),
        decreases ob.refs@.len() - j,
    {
        let r = ob.refs[j];
        let t: (u32, u32, u32) = (
            ((r.0 as u64) % 0x1_0000_0000) as u32,
            ((r.1 as u64) % 0x1_0000_0000) as u32,
            ((r.2 as u64) % 0x1_0000_0000) as u32,
        );
        proof {
            assert(t == bits[j as int]);
            lemma_triples_bytes_push(bits.take(j as int), t);
            assert(bits.take(j as int).push(t) =~= bits.take(j + 1));
        }
        push_triple(&mut out, t);
        j = j + 1;
    }
    assert(bits.take(bits.len() as int) =~= bits);
    out
}


proof fn lemma_triple_at_bytes(s: Seq<u8>, off: int, t: (u32, u32, u32))
    requires
        0 <= off,
        off + 12 <= s.len(),
        forall|j: int| 0 <= j < 12 ==> #[trigger] s[off + j] == triple_bytes(t)[j],
    ensures
        triple_at(s, off) == t,
{
    let tb = triple_bytes(t);
    assert(s.subrange(off, off + 4) =~= be_bytes(t.0)) by {
        assert forall|j: int| 0 <= j < 4 implies s.subrange(off, off + 4)[j] == be_bytes(t.0)[j] by {
            assert(s[off + j] == tb[j]);
        }
    }
    assert(s.subrange(off + 4, off + 8) =~= be_bytes(t.1)) by {
        assert forall|j: int| 0 <= j < 4 implies s.subrange(off + 4, off + 8)[j] == be_bytes(t.1)[j] by {
            assert(s[off + (4 + j)] == tb[4 + j]);
        }
    }
    assert(s.subrange(off + 8, off + 12) =~= be_bytes(t.2)) by {
        assert forall|j: int| 0 <= j < 4 implies s.subrange(off + 8, off + 12)[j] == be_bytes(t.2)[j] by {
            assert(s[off + (8 + j)] == tb[8 + j]);
        }
    }
    lemma_bytes_then_value(t.0);
    lemma_bytes_then_value(t.1);
    lemma_bytes_then_value(t.2);
    assert(be_at(s, off) == be_value(s.subrange(off, off + 4)));
    assert(be_at(s, off + 4) == be_value(s.subrange(off + 4, off + 8)));
    assert(be_at(s, off + 8) == be_value(s.subrange(off + 8, off + 12)));
}

proof fn lemma_triples_bytes_index(ts: Seq<(u32, u32, u32)>, k: int, j: int)
    requires
        0 <= k < ts.len(),
        0 <= j < 12,
    ensures
        12 * k + j < triples_bytes(ts).len(),
        triples_bytes(ts)[12 * k + j] == triple_bytes(ts[k])[j],
{
    lemma_fundamental_div_mod_converse(12 * k + j, 12, k, j);
}

proof fn lemma_section(s: Seq<u8>, base: int, ts: Seq<(u32, u32, u32)>)
    requires
        0 <= base,
        base + 12 * ts.len() <= s.len(),
        s.subrange(base, base + 12 * ts.len()) == triples_bytes(ts),
    ensures
        forall|k: int| 0 <= k < ts.len() ==> #[trigger] triple_at(s, base + 12 * k) == ts[k],
{
    let tb = triples_bytes(ts);
    assert forall|k: int| 0 <= k < ts.len() implies #[trigger] triple_at(s, base + 12 * k) == ts[k] by {
        assert forall|j: int| 0 <= j < 12 implies #[trigger] s[(base + 12 * k) + j] == triple_bytes(
            ts[k],
        )[j] by {
            lemma_triples_bytes_index(ts, k, j);
            assert(12 * k + j < 12 * ts.len()) by (nonlinear_arith)
                requires
                    0 <= j < 12,
                    0 <= k < ts.len(),
            ;
            assert(s.subrange(base, base + 12 * ts.len())[12 * k + j] == tb[12 * k + j]);
        }
        lemma_triple_at_bytes(s, base + 12 * k, ts[k]);
    }
}

proof fn lemma_encode_layout(
    pos: (u32, u32, u32),
    points: Seq<(u32, u32, u32)>,
    refs: Seq<(usize, usize, usize)>,
)
    ensures
        ({
            let s = encode_model(pos, points, refs);
            let start: int = 16 + 12 * (points.len() as int);
            let bits = refs.map_values(|r: (usize, usize, usize)| ref_bits(r));
            &&& s.len() == start + 12 * refs.len()
            &&& s.subrange(0, 4) == be_bytes(encoded_count(points.len()))
            &&& s.subrange(4, 16) == triples_bytes(seq![pos])
            &&& s.subrange(16, start) == triples_bytes(points)
            &&& s.subrange(start, start + 12 * (bits.len() as int)) == triples_bytes(bits)
        }),
{
    let s = encode_model(pos, points, refs);
    let start: int = 16 + 12 * (points.len() as int);
    let bits = refs.map_values(|r: (usize, usize, usize)| ref_bits(r));
    let a = be_bytes(encoded_count(points.len()));
    let b = triple_bytes(pos);
    let c = triples_bytes(points);
    let d = triples_bytes(bits);
    assert(s == a + b + c + d);
    assert(s.subrange(0, 4) =~= a);
    assert(triples_bytes(seq![pos]) =~= b);
    assert(s.subrange(4, 16) =~= b);
    assert(s.subrange(16, start) =~= c);
    assert(s.subrange(start, start + 12 * (bits.len() as int)) =~= d);
}

proof fn lemma_decode_of(
    s: Seq<u8>,
    pos: (u32, u32, u32),
    points: Seq<(u32, u32, u32)>,
    refs: Seq<(usize, usize, usize)>,
    bits: Seq<(u32, u32, u32)>,
)
    requires
        points.len() < 0xffff_ffff,
        bits.len() == refs.len(),
        forall|k: int|
            0 <= k < refs.len() ==> #[trigger] ref_bits(refs[k]) == bits[k] && refs[k].0 < 0x1_0000_0000
                && refs[k].1 < 0x1_0000_0000 && refs[k].2 < 0x1_0000_0000,
        s.len() == 16 + 12 * points.len() + 12 * refs.len(),
        s.subrange(0, 4) == be_bytes((points.len() + 1) as u32),
        s.subrange(4, 16) == triples_bytes(seq![pos]),
        s.subrange(16, 16 + 12 * (points.len() as int)) == triples_bytes(points),
        s.subrange(16 + 12 * (points.len() as int), s.len() as int) == triples_bytes(bits),
    ensures
        decode_model(s) == Ok::<
            ((u32, u32, u32), Seq<(u32, u32, u32)>, Seq<(usize, usize, usize)>),
            ModelError,
        >((pos, points, refs)),
{
    let n = points.len() as int;
    let start = 16 + 12 * n;
    lemma_bytes_then_value((n + 1) as u32);
    assert(be_at(s, 0) == be_value(s.subrange(0, 4)));
    assert(entry_count(s) == n + 1);
    assert(polygons_start(s) == start);
    lemma_section(s, 4, seq![pos]);
    assert(triple_at(s, 4 + 12 * 0int) == pos);
    lemma_section(s, 16, points);
    lemma_section(s, start, bits);
    assert(decoded_points(s) =~= points);
    lemma_fundamental_div_mod_converse(s.len() - start, 12, refs.len() as int, 0);
    assert forall|k: int| 0 <= k < refs.len() implies #[trigger] decoded_refs(s)[k] == refs[k] by {
        assert(triple_at(s, start + 12 * k) == bits[k]);
        assert(ref_bits(refs[k]) == bits[k]);
    }
    assert(decoded_refs(s) =~= refs);
}

/// Reading back a written model gives the same position, points and
/// polygons, when the points number fewer than 2^32 - 1 and every polygon
/// index is below 2^32.
#[verifier::spinoff_prover]
pub proof fn lemma_model_roundtrip(
    pos: (u32, u32, u32),
    points: Seq<(u32, u32, u32)>,
    refs: Seq<(usize, usize, usize)>,
)
    requires
        points.len() < 0xffff_ffff,
        forall|k: int|
            0 <= k < refs.len() ==> (#[trigger] refs[k]).0 < 0x1_0000_0000 && refs[k].1
                < 0x1_0000_0000 && refs[k].2 < 0x1_0000_0000,
    ensures
        decode_model(encode_model(pos, points, refs)) == Ok::<
            ((u32, u32, u32), Seq<(u32, u32, u32)>, Seq<(usize, usize, usize)>),
            ModelError,
        >((pos, points, refs)),
{
    let s = encode_model(pos, points, refs);
    let bits = refs.map_values(|r: (usize, usize, usize)| ref_bits(r));
    lemma_encode_layout(pos, points, refs);
    assert(encoded_count(points.len()) == (points.len() + 1) as u32);
    assert forall|k: int| 0 <= k < refs.len() implies #[trigger] ref_bits(refs[k]) == bits[k] by {}
    lemma_decode_of(s, pos, points, refs, bits);
}


/// The sum of a sequence of sizes.
pub open spec fn size_sum(s: Seq<u8>) -> nat
    decreases s.len(),
{
    if s.len() == 0 {
        0
    } else {
        size_sum(s.drop_last()) + (s.last() as nat)
    }
}

/// The number of argument bytes that follow a command code.
pub open spec fn arg_len(code: u8) -> nat {
    size_sum(arg_sizes(code).unwrap())
}

/// Why a byte sequence is not an animation file.
#[derive(Debug, Clone, Copy, PartialEq, Eq, Structural)]
pub enum ScriptError {
    /// The file ends inside a record.
    Truncated,
    /// A record holds a code that is not a command.
    UnknownCommand(u8),
}

/// The records of an animation file, each a mark, a command code and the
/// command's arguments, in order; or the error of the first record that
/// cannot be read.
pub open spec fn script_records(s: Seq<u8>) -> Result<Seq<(u8, u8, Seq<u8>)>, ScriptError>
    decreases s.len(),
{
    if s.len() == 0 {
        Ok(Seq::empty())
    } else if s.len() < 2 {
        Err(ScriptError::Truncated)
    } else if arg_sizes(s[1]) is None {
        Err(ScriptError::UnknownCommand(s[1]))
    } else if s.len() < 2 + arg_len(s[1]) {
        Err(ScriptError::Truncated)
    } else {
        let n = arg_len(s[1]) as int;
        match script_records(s.skip(2 + n)) {
            Ok(rest) => Ok(seq![(s[0], s[1], s.subrange(2, 2 + n))] + rest),
            Err(e) => Err(e),
        }
    }
}

/// The jump table of a script: mark `m` leads to the index (modulo 256) of
/// the last record that carries mark `m`, or to 0 when none does.
pub open spec fn marks_of(recs: Seq<(u8, u8, Seq<u8>)>) -> Seq<u8>
    decreases recs.len(),
{
    if recs.len() == 0 {
        Seq::new(256, |m: int| 0u8)
    } else {
        marks_of(recs.drop_last()).update(
            recs.last().0 as int,
            ((recs.len() - 1) % 256) as u8,
        )
    }
}

spec fn then_records(
    done: Seq<(u8, u8, Seq<u8>)>,
    r: Result<Seq<(u8, u8, Seq<u8>)>, ScriptError>,
) -> Result<Seq<(u8, u8, Seq<u8>)>, ScriptError> {
    match r {
        Ok(rest) => Ok(done + rest),
        Err(e) => Err(e),
    }
}

/// A jump table has 256 marks.
pub proof fn lemma_marks_len(recs: Seq<(u8, u8, Seq<u8>)>)
    ensures
        marks_of(recs).len() == 256,
    decreases recs.len(),
{
    if recs.len() > 0 {
        lemma_marks_len(recs.drop_last());
    }
}

/// Reads an animation file: a sequence of records, each a mark byte, a
/// command code and the command's argument bytes, as many as the command
/// table gives for the code. Returns the jump table of the marks and the
/// commands in order.
pub fn read_animation(u8s: &[u8]) -> (r: Result<([u8; 256], Vec<Command>), ScriptError>)
    ensures
        match script_records(u8s@) {
            Ok(recs) => r matches Ok((marks, cmds)) && marks@ == marks_of(recs) && cmds@.len()
                == recs.len() && forall|k: int|
                0 <= k < recs.len() ==> #[trigger] cmds@[k]@ == (recs[k].1, recs[k].2),
            Err(e) => r == Err::<([u8; 256], Vec<Command>), ScriptError>(e),
        },
{
    broadcast use vstd::std_specs::hash::group_hash_axioms;

    let mut marks: [u8; 256] = [0; 256];
    let mut cmds: Vec<Command> = Vec::new();
    let mut i: usize = 0;
    let commands = Commands::init();
    let commands_args = commands.get_commands();
    let ghost mut done: Seq<(u8, u8, Seq<u8>)> = Seq::empty();
    assert(marks@ =~= marks_of(done));
    assert(u8s@.skip(0) =~= u8s@);
    while i < u8s.len()
        invariant
            i <= u8s@.len(),
            script_records(u8s@) == then_records(done, script_records(u8s@.skip(i as int))),
            marks@ == marks_of(done),
            cmds@.len() == done.len(),
            forall|k: int| 0 <= k < done.len() ==> #[trigger] cmds@[k]@ == (done[k].1, done[k].2),
            commands_args@.dom() == crate::vars::command_table().dom(),
            forall|code: u8|
                #[trigger] commands_args@.contains_key(code) ==> commands_args@[code]@
                    == crate::vars::command_table()[code],
        decreases u8s@.len() - i,
    {
        let ghost rest = u8s@.skip(i as int);
        let mark = u8s[i];
        proof {
            lemma_marks_len(done);
        }
        marks[mark as usize] = (cmds.len() % 256) as u8;
        i = i + 1;
        if i >= u8s.len() {
            assert(script_records(rest) == Err::<Seq<(u8, u8, Seq<u8>)>, ScriptError>(
                ScriptError::Truncated,
            ));
            return Err(ScriptError::Truncated);
        }
        let cmd = u8s[i];
        i = i + 1;
        let arg_sizes_of = match commands_args.get(&cmd) {
            Some(v) => v,
            None => {
                assert(script_records(rest) == Err::<Seq<(u8, u8, Seq<u8>)>, ScriptError>(
                    ScriptError::UnknownCommand(cmd),
                ));
                return Err(ScriptError::UnknownCommand(cmd));
            },
        };
        assert(arg_sizes_of@ == arg_sizes(cmd).unwrap());
        // the number of argument bytes
        let mut n: usize = 0;
        let mut t: usize = 0;
        while t < arg_sizes_of.len()
            invariant
                t <= arg_sizes_of@.len(),
                arg_sizes_of@ == arg_sizes(cmd).unwrap(),
                arg_sizes(cmd) is Some,
                n == size_sum(arg_sizes_of@.take(t as int)),
                n <= 4 * t,
            decreases arg_sizes_of@.len() - t,
        {
            assert(arg_sizes_of@.take(t + 1).drop_last() =~= arg_sizes_of@.take(t as int));
            assert(arg_sizes_of@[t as int] <= 4);
            n = n + arg_sizes_of[t] as usize;
            t = t + 1;
        }
        assert(arg_sizes_of@.take(t as int) =~= arg_sizes_of@);
        assert(n == arg_len(cmd));
        if u8s.len() - i < n {
            assert(script_records(rest) == Err::<Seq<(u8, u8, Seq<u8>)>, ScriptError>(
                ScriptError::Truncated,
            ));
            return Err(ScriptError::Truncated);
        }
        let mut args: Vec<u8> = Vec::new();
        let mut q: usize = 0;
        while q < n
            invariant
                q <= n,
                i + n <= u8s.len(),
                args@ == u8s@.subrange(i as int, i + q),
            decreases n - q,
        {
            args.push(u8s[i + q]);
            q = q + 1;
            assert(args@ =~= u8s@.subrange(i as int, i + q));
        }
        let ghost rec = (mark, cmd, args@);
        proof {
            assert(rest[0] == mark);
            assert(rest[1] == cmd);
            assert(rest.subrange(2, 2 + n) =~= args@);
            assert(rest.skip(2 + n) =~= u8s@.skip(i + n));
            assert(done.push(rec).drop_last() =~= done);
            match script_records(u8s@.skip(i + n)) {
                Ok(tail) => {
                    assert(done + (seq![rec] + tail) =~= done.push(rec) + tail);
                },
                Err(e) => {},
            }
        }
        cmds.push(Command::make(cmd, &args));
        i = i + n;
        proof {
            done = done.push(rec);
        }
    }
    proof {
        assert(u8s@.skip(i as int) =~= Seq::<u8>::empty());
        assert(done + Seq::<(u8, u8, Seq<u8>)>::empty() =~= done);
    }
    Ok((marks, cmds))
}


/// The number of argument bytes of each command: the sum of its sizes.
pub proof fn lemma_arg_lengths()
    ensures
        arg_len(65) == 5,
        arg_len(66) == 5,
        arg_len(67) == 7,
        arg_len(74) == 1,
        arg_len(77) == 14,
        arg_len(81) == 5,
        arg_len(82) == 18,
        arg_len(83) == 14,
        arg_len(84) == 8,
        arg_len(87) == 2,
        arg_len(97) == 2,
        arg_len(98) == 2,
        arg_len(99) == 4,
        arg_len(106) == 1,
        arg_len(109) == 5,
        arg_len(113) == 2,
        arg_len(114) == 6,
        arg_len(115) == 6,
        arg_len(116) == 5,
        arg_len(119) == 2,
{
    reveal_with_fuel(size_sum, 7);
}

/// A record is its mark, its command code and exactly `arg_len(code)`
/// argument bytes; the records after it are read from the bytes that follow.
pub proof fn lemma_record_split(m: u8, code: u8, args: Seq<u8>, rest: Seq<u8>)
    requires
        arg_sizes(code) is Some,
        args.len() == arg_len(code),
    ensures
        script_records(seq![m, code] + args + rest) == match script_records(rest) {
            Ok(recs) => Ok(seq![(m, code, args)] + recs),
            Err(e) => Err::<Seq<(u8, u8, Seq<u8>)>, ScriptError>(e),
        },
{
    let s = seq![m, code] + args + rest;
    let n = arg_len(code) as int;
    assert(s.skip(2 + n) =~= rest);
    assert(s.subrange(2, 2 + n) =~= args);
    assert(s[0] == m && s[1] == code);
}

/// A record whose code is not a command stops the reading with that code,
/// whatever follows.
pub proof fn lemma_unknown_code(m: u8, code: u8, rest: Seq<u8>)
    requires
        arg_sizes(code) is None,
    ensures
        script_records(seq![m, code] + rest) == Err::<Seq<(u8, u8, Seq<u8>)>, ScriptError>(
            ScriptError::UnknownCommand(code),
        ),
{
    let s = seq![m, code] + rest;
    assert(s[1] == code);
}

/// Bytes that end inside a record, after its mark or inside its arguments,
/// are truncated.
pub proof fn lemma_truncated_record(m: u8, code: u8, args: Seq<u8>)
    requires
        arg_sizes(code) is Some,
        args.len() < arg_len(code),
    ensures
        script_records(seq![m]) == Err::<Seq<(u8, u8, Seq<u8>)>, ScriptError>(ScriptError::Truncated),
        script_records(seq![m, code] + args) == Err::<Seq<(u8, u8, Seq<u8>)>, ScriptError>(
            ScriptError::Truncated,
        ),
{
    let s = seq![m, code] + args;
    assert(s[1] == code);
}

} // verus!
