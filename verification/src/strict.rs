//! Primitive codec: fixed-width little-endian integers and raw byte
//! runs, written to and read from in-memory byte buffers, plus the
//! length-prefixed byte sequence used by the collection codec.

use vstd::prelude::*;

use crate::error::Error;

verus! {

/// Upper bound on the element count a strict-encoded collection may
/// declare; counts travel as 16-bit little-endian words, so nothing
/// larger can be represented on the wire.
pub const STRICT_COLLECTION_MAX: usize = 65535;

/// Little-endian byte image of a 16-bit word.
pub open spec fn spec_u16_le(v: u16) -> Seq<u8> {
    seq![(v & 0xff) as u8, ((v >> 8) & 0xff) as u8]
}

/// Little-endian byte image of a 32-bit word.
pub open spec fn spec_u32_le(v: u32) -> Seq<u8> {
    seq![
        (v & 0xff) as u8,
        ((v >> 8) & 0xff) as u8,
        ((v >> 16) & 0xff) as u8,
        ((v >> 24) & 0xff) as u8,
    ]
}

/// The 16-bit word read from two little-endian bytes.
pub open spec fn u16_from_le(b0: u8, b1: u8) -> u16 {
    (b0 as u16) | ((b1 as u16) << 8)
}

/// The 32-bit word read from four little-endian bytes.
pub open spec fn u32_from_le(b0: u8, b1: u8, b2: u8, b3: u8) -> u32 {
    (b0 as u32) | ((b1 as u32) << 8) | ((b2 as u32) << 16) | ((b3 as u32) << 24)
}

/// Reading back the little-endian image of a 16-bit word returns it.
pub proof fn lemma_u16_le_round(v: u16)
    ensures
        u16_from_le(spec_u16_le(v)[0], spec_u16_le(v)[1]) == v,
{
    assert((((v & 0xff) as u8) as u16 | (((((v >> 8) & 0xff) as u8) as u16) << 8)) == v)
        by (bit_vector);
}

/// Reading back the little-endian image of a 32-bit word returns it.
pub proof fn lemma_u32_le_round(v: u32)
    ensures
        u32_from_le(spec_u32_le(v)[0], spec_u32_le(v)[1], spec_u32_le(v)[2], spec_u32_le(v)[3])
            == v,
{
    assert((((v & 0xff) as u8) as u32 | (((((v >> 8) & 0xff) as u8) as u32) << 8)
        | (((((v >> 16) & 0xff) as u8) as u32) << 16)
        | (((((v >> 24) & 0xff) as u8) as u32) << 24)) == v) by (bit_vector);
}

/// Relates an executable decode result to its specification-level
/// counterpart: same success or failure, same value, same position.
pub open spec fn decode_result_matches<T>(
    r: Result<(T, usize), Error>,
    s: Result<(T, int), Error>,
) -> bool {
    match r {
        Ok(p) => s == Ok::<(T, int), Error>((p.0, p.1 as int)),
        Err(e) => s == Err::<(T, int), Error>(e),
    }
}

/// Appends one raw byte to the sink.
pub fn encode_u8(sink: &mut Vec<u8>, v: u8)
    ensures
        final(sink)@ == old(sink)@ + seq![v],
{
    sink.push(v);
    assert(sink@ =~= old(sink)@ + seq![v]);
}

/// Appends the two little-endian bytes of `v` to the sink.
pub fn encode_u16(sink: &mut Vec<u8>, v: u16)
    ensures
        final(sink)@ == old(sink)@ + spec_u16_le(v),
{
    sink.push((v & 0xff) as u8);
    sink.push(((v >> 8) & 0xff) as u8);
    assert(sink@ =~= old(sink)@ + spec_u16_le(v));
}

/// Appends the four little-endian bytes of `v` to the sink.
pub fn encode_u32(sink: &mut Vec<u8>, v: u32)
    ensures
        final(sink)@ == old(sink)@ + spec_u32_le(v),
{
    sink.push((v & 0xff) as u8);
    sink.push(((v >> 8) & 0xff) as u8);
    sink.push(((v >> 16) & 0xff) as u8);
    sink.push(((v >> 24) & 0xff) as u8);
    assert(sink@ =~= old(sink)@ + spec_u32_le(v));
}

/// Appends a raw byte run to the sink, without any length prefix.
pub fn encode_bytes(sink: &mut Vec<u8>, data: &Vec<u8>)
    ensures
        final(sink)@ == old(sink)@ + data@,
{
    let mut i: usize = 0;
    while i < data.len()
        invariant
            i <= data@.len(),
            sink@ == old(sink)@ + data@.subrange(0, i as int),
        decreases data@.len() - i,
    {
        sink.push(data[i]);
        i = i + 1;
        assert(sink@ =~= old(sink)@ + data@.subrange(0, i as int));
    }
    assert(data@.subrange(0, data@.len() as int) =~= data@);
}

/// Reads one raw byte; fails with `DataIncomplete` on a short stream.
pub fn decode_u8(data: &Vec<u8>, pos: usize) -> (r: Result<(u8, usize), Error>)
    ensures
        pos + 1 <= data@.len() ==> (r matches Ok(p) && p.0 == data@[pos as int] && p.1 == pos
            + 1),
        pos + 1 > data@.len() ==> r == Err::<(u8, usize), Error>(Error::DataIncomplete),
{
    if pos < data.len() {
        Ok((data[pos], pos + 1))
    } else {
        Err(Error::DataIncomplete)
    }
}

/// Reads a 16-bit little-endian word; fails with `DataIncomplete` on a
/// short stream, never zero-padding.
pub fn decode_u16(data: &Vec<u8>, pos: usize) -> (r: Result<(u16, usize), Error>)
    ensures
        pos + 2 <= data@.len() ==> (r matches Ok(p) && p.0 == u16_from_le(
            data@[pos as int],
            data@[pos + 1],
        ) && p.1 == pos + 2),
        pos + 2 > data@.len() ==> r == Err::<(u16, usize), Error>(Error::DataIncomplete),
{
    if data.len() >= 2 && pos <= data.len() - 2 {
        let b0 = data[pos];
        let b1 = data[pos + 1];
        Ok(((b0 as u16) | ((b1 as u16) << 8), pos + 2))
    } else {
        Err(Error::DataIncomplete)
    }
}

/// Reads a 32-bit little-endian word; fails with `DataIncomplete` on a
/// short stream, never zero-padding.
pub fn decode_u32(data: &Vec<u8>, pos: usize) -> (r: Result<(u32, usize), Error>)
    ensures
        pos + 4 <= data@.len() ==> (r matches Ok(p) && p.0 == u32_from_le(
            data@[pos as int],
            data@[pos + 1],
            data@[pos + 2],
            data@[pos + 3],
        ) && p.1 == pos + 4),
        pos + 4 > data@.len() ==> r == Err::<(u32, usize), Error>(Error::DataIncomplete),
{
    if data.len() >= 4 && pos <= data.len() - 4 {
        let b0 = data[pos];
        let b1 = data[pos + 1];
        let b2 = data[pos + 2];
        let b3 = data[pos + 3];
        Ok((
            (b0 as u32) | ((b1 as u32) << 8) | ((b2 as u32) << 16) | ((b3 as u32) << 24),
            pos + 4,
        ))
    } else {
        Err(Error::DataIncomplete)
    }
}

/// Reads exactly `n` raw bytes; fails with `DataIncomplete` if fewer
/// remain.
pub fn decode_bytes(data: &Vec<u8>, pos: usize, n: usize) -> (r: Result<(Vec<u8>, usize), Error>)
    ensures
        pos + n <= data@.len() ==> (r matches Ok(p) && p.0@ == data@.subrange(
            pos as int,
            pos + n,
        ) && p.1 == pos + n),
        pos + n > data@.len() ==> r == Err::<(Vec<u8>, usize), Error>(Error::DataIncomplete),
{
    if n <= data.len() && pos <= data.len() - n {
        let total = data.len();
        let mut out: Vec<u8> = Vec::new();
        let mut i: usize = 0;
        while i < n
            invariant
                i <= n,
                pos + n <= total,
                total == data@.len(),
                out@ == data@.subrange(pos as int, pos + i),
            decreases n - i,
        {
            out.push(data[pos + i]);
            i = i + 1;
            assert(out@ =~= data@.subrange(pos as int, pos + i));
        }
        Ok((out, pos + n))
    } else {
        Err(Error::DataIncomplete)
    }
}


/// Canonical image of a length-prefixed byte sequence: a 16-bit
/// little-endian count, then the bytes themselves.
pub open spec fn spec_byte_seq(s: Seq<u8>) -> Seq<u8>
    recommends
        s.len() <= STRICT_COLLECTION_MAX,
{
    spec_u16_le(s.len() as u16) + s
}

/// What decoding a length-prefixed byte sequence yields from stream
/// `s` at position `pos`: exactly `count` bytes are read, no fewer.
pub open spec fn spec_byte_seq_decode(s: Seq<u8>, pos: int) -> Result<(Seq<u8>, int), Error>
    recommends
        0 <= pos,
{
    if pos + 2 > s.len() {
        Err(Error::DataIncomplete)
    } else if pos + 2 + u16_from_le(s[pos], s[pos + 1]) > s.len() {
        Err(Error::DataIncomplete)
    } else {
        Ok(
            (
                s.subrange(pos + 2, pos + 2 + u16_from_le(s[pos], s[pos + 1])),
                pos + 2 + u16_from_le(s[pos], s[pos + 1]),
            ),
        )
    }
}

/// Appends a byte sequence with its 16-bit count prefix. A run beyond
/// the collection cap is refused and the sink is left untouched.
pub fn encode_byte_seq(sink: &mut Vec<u8>, data: &Vec<u8>) -> (r: Result<(), Error>)
    ensures
        data@.len() <= STRICT_COLLECTION_MAX ==> (r == Ok::<(), Error>(()) && final(sink)@ == old(
            sink,
        )@ + spec_byte_seq(data@)),
        data@.len() > STRICT_COLLECTION_MAX ==> (r == Err::<(), Error>(Error::ValueOutOfRange)
            && final(sink)@ == old(sink)@),
{
    if data.len() > STRICT_COLLECTION_MAX {
        return Err(Error::ValueOutOfRange);
    }
    encode_u16(sink, data.len() as u16);
    encode_bytes(sink, data);
    assert(sink@ =~= old(sink)@ + spec_byte_seq(data@));
    Ok(())
}

/// Reads a length-prefixed byte sequence; a stream that ends before the
/// declared count is complete is refused, never padded or truncated.
pub fn decode_byte_seq(data: &Vec<u8>, pos: usize) -> (r: Result<(Vec<u8>, usize), Error>)
    ensures
        r matches Ok(p) ==> (p.0@.len() <= STRICT_COLLECTION_MAX && spec_byte_seq_decode(
            data@,
            pos as int,
        ) == Ok::<(Seq<u8>, int), Error>((p.0@, p.1 as int))),
        r matches Err(e) ==> spec_byte_seq_decode(data@, pos as int) == Err::<
            (Seq<u8>, int),
            Error,
        >(e),
{
    let count = match decode_u16(data, pos) {
        Ok(p) => p,
        Err(e) => {
            return Err(e);
        },
    };
    match decode_bytes(data, count.1, count.0 as usize) {
        Ok(p) => Ok(p),
        Err(e) => Err(e),
    }
}

/// Reading back a canonically encoded byte sequence, from any stream
/// that carries it, returns exactly that sequence.
pub proof fn lemma_byte_seq_round_trip(v: Seq<u8>, s: Seq<u8>, pos: int)
    requires
        0 <= pos,
        v.len() <= STRICT_COLLECTION_MAX,
        pos + spec_byte_seq(v).len() <= s.len(),
        s.subrange(pos, pos + spec_byte_seq(v).len()) == spec_byte_seq(v),
    ensures
        spec_byte_seq_decode(s, pos) == Ok::<(Seq<u8>, int), Error>((
            v,
            pos + spec_byte_seq(v).len(),
        )),
{
    let b = spec_byte_seq(v);
    let n = b.len();
    assert(forall|i: int| 0 <= i < n ==> s[pos + i] == #[trigger] b[i]) by {
        assert(forall|i: int|
            0 <= i < n ==> #[trigger] s.subrange(pos, pos + n)[i] == s[pos + i]);
    }
    assert(s[pos + 0] == b[0] && s[pos + 1] == b[1]);
    assert(b[0] == spec_u16_le(v.len() as u16)[0] && b[1] == spec_u16_le(v.len() as u16)[1]);
    lemma_u16_le_round(v.len() as u16);
    assert(u16_from_le(s[pos], s[pos + 1]) == v.len());
    assert forall|i: int| 0 <= i < v.len() implies s.subrange(pos + 2, pos + 2 + v.len())[i]
        == v[i] by {
        assert(s.subrange(pos + 2, pos + 2 + v.len())[i] == s[pos + 2 + i]);
        assert(s[pos + 2 + i] == b[2 + i]);
        assert(b[2 + i] == v[i]);
    }
    assert(s.subrange(pos + 2, pos + 2 + v.len()) =~= v);
}

} // verus!
