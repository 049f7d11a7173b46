//! Little-endian integer fields over byte buffers: spec-level encodings,
//! bounds-checked reads that fail with `UnexpectedEof`, and append-only writers.

use vstd::prelude::*;
use crate::model::DecodeError;

verus! {

/// The two bytes of `v`, least significant first.
pub open spec fn le16_bytes(v: u16) -> Seq<u8> {
    seq![(v & 0xff) as u8, ((v >> 8u16) & 0xff) as u8]
}

/// The four bytes of `v`, least significant first.
pub open spec fn le32_bytes(v: u32) -> Seq<u8> {
    seq![
        (v & 0xff) as u8,
        ((v >> 8u32) & 0xff) as u8,
        ((v >> 16u32) & 0xff) as u8,
        ((v >> 24u32) & 0xff) as u8,
    ]
}

pub open spec fn le16_of(b0: u8, b1: u8) -> u16 {
    (b0 as u16) | ((b1 as u16) << 8u16)
}

pub open spec fn le32_of(b0: u8, b1: u8, b2: u8, b3: u8) -> u32 {
    (b0 as u32) | ((b1 as u32) << 8u32) | ((b2 as u32) << 16u32) | ((b3 as u32) << 24u32)
}

/// The little-endian `u16` stored at `p` in `b`.
pub open spec fn le16_at(b: Seq<u8>, p: int) -> u16 {
    le16_of(b[p], b[p + 1])
}

/// The little-endian `u32` stored at `p` in `b`.
pub open spec fn le32_at(b: Seq<u8>, p: int) -> u32 {
    le32_of(b[p], b[p + 1], b[p + 2], b[p + 3])
}

pub proof fn lemma_le16_round_trip(v: u16)
    ensures
        le16_at(le16_bytes(v), 0) == v,
{
    let b = le16_bytes(v);
    let b0 = (v & 0xff) as u8;
    let b1 = ((v >> 8u16) & 0xff) as u8;
    assert(le16_of(b0, b1) == v) by (bit_vector)
        requires
            b0 == (v & 0xff) as u8,
            b1 == ((v >> 8u16) & 0xff) as u8,
    ;
    assert(b[0] == b0 && b[1] == b1);
}

pub proof fn lemma_le32_round_trip(v: u32)
    ensures
        le32_at(le32_bytes(v), 0) == v,
{
    let b = le32_bytes(v);
    let b0 = (v & 0xff) as u8;
    let b1 = ((v >> 8u32) & 0xff) as u8;
    let b2 = ((v >> 16u32) & 0xff) as u8;
    let b3 = ((v >> 24u32) & 0xff) as u8;
    assert(le32_of(b0, b1, b2, b3) == v) by (bit_vector)
        requires
            b0 == (v & 0xff) as u8,
            b1 == ((v >> 8u32) & 0xff) as u8,
            b2 == ((v >> 16u32) & 0xff) as u8,
            b3 == ((v >> 24u32) & 0xff) as u8,
    ;
    assert(b[0] == b0 && b[1] == b1 && b[2] == b2 && b[3] == b3);
}

/// The little-endian `u32` at `pos`.
pub fn read_u32_le(b: &[u8], pos: usize) -> (r: Result<u32, DecodeError>)
    ensures
        match r {
            Ok(v) => pos + 4 <= b@.len() && v == le32_at(b@, pos as int),
            Err(e) => pos + 4 > b@.len() && e == DecodeError::UnexpectedEof,
        },
{
    let len = b.len();
    if pos > len || len - pos < 4 {
        return Err(DecodeError::UnexpectedEof);
    }
    Ok((b[pos] as u32) | ((b[pos + 1] as u32) << 8u32) | ((b[pos + 2] as u32) << 16u32) | ((b[pos + 3] as u32) << 24u32))
}

/// The little-endian `u16` at `pos`.
pub fn read_u16_le(b: &[u8], pos: usize) -> (r: Result<u16, DecodeError>)
    ensures
        match r {
            Ok(v) => pos + 2 <= b@.len() && v == le16_at(b@, pos as int),
            Err(e) => pos + 2 > b@.len() && e == DecodeError::UnexpectedEof,
        },
{
    let len = b.len();
    if pos > len || len - pos < 2 {
        return Err(DecodeError::UnexpectedEof);
    }
    Ok((b[pos] as u16) | ((b[pos + 1] as u16) << 8u16))
}

/// The `n` bytes at `pos`.
pub fn read_exact(b: &[u8], pos: usize, n: usize) -> (r: Result<Vec<u8>, DecodeError>)
    ensures
        match r {
            Ok(v) => pos + n <= b@.len() && v@ == b@.subrange(pos as int, pos + n),
            Err(e) => pos + n > b@.len() && e == DecodeError::UnexpectedEof,
        },
{
    let len = b.len();
    if pos > len || len - pos < n {
        return Err(DecodeError::UnexpectedEof);
    }
    Ok(copy_range(b, pos, pos + n))
}

/// A forward-only cursor over a byte buffer. Each read either consumes
/// exactly the bytes it needs or fails with `UnexpectedEof` and consumes
/// nothing.
pub struct ByteReader<'a> {
    pub bytes: &'a [u8],
    pub pos: usize,
}

impl<'a> ByteReader<'a> {
    /// A cursor at `pos`.
    pub fn at(bytes: &'a [u8], pos: usize) -> (r: Self)
        requires
            pos <= bytes@.len(),
        ensures
            r.bytes@ == bytes@,
            r.pos == pos,
    {
        ByteReader { bytes, pos }
    }

    /// The next little-endian `u32`.
    pub fn read_u32_le(&mut self) -> (r: Result<u32, DecodeError>)
        requires
            old(self).pos <= old(self).bytes@.len(),
        ensures
            final(self).bytes@ == old(self).bytes@,
            final(self).pos <= final(self).bytes@.len(),
            match r {
                Ok(v) => old(self).pos + 4 <= old(self).bytes@.len() && v == le32_at(old(self).bytes@, old(self).pos as int)
                    && final(self).pos == old(self).pos + 4,
                Err(e) => old(self).pos + 4 > old(self).bytes@.len() && e == DecodeError::UnexpectedEof
                    && final(self).pos == old(self).pos,
            },
    {
        let len = self.bytes.len();
        if len - self.pos < 4 {
            return Err(DecodeError::UnexpectedEof);
        }
        let v = read_u32_le(self.bytes, self.pos);
        self.pos = self.pos + 4;
        v
    }

    /// The next `n` bytes.
    pub fn read_exact(&mut self, n: usize) -> (r: Result<Vec<u8>, DecodeError>)
        requires
            old(self).pos <= old(self).bytes@.len(),
        ensures
            final(self).bytes@ == old(self).bytes@,
            final(self).pos <= final(self).bytes@.len(),
            match r {
                Ok(v) => old(self).pos + n <= old(self).bytes@.len()
                    && v@ == old(self).bytes@.subrange(old(self).pos as int, old(self).pos + n)
                    && final(self).pos == old(self).pos + n,
                Err(e) => old(self).pos + n > old(self).bytes@.len() && e == DecodeError::UnexpectedEof
                    && final(self).pos == old(self).pos,
            },
    {
        let len = self.bytes.len();
        if len - self.pos < n {
            return Err(DecodeError::UnexpectedEof);
        }
        let v = read_exact(self.bytes, self.pos, n);
        self.pos = self.pos + n;
        v
    }
}

/// A field is read back from wherever its bytes stand.
pub proof fn lemma_le32_in(b: Seq<u8>, p: int, v: u32)
    requires
        0 <= p,
        p + 4 <= b.len(),
        b.subrange(p, p + 4) == le32_bytes(v),
    ensures
        le32_at(b, p) == v,
{
    lemma_le32_round_trip(v);
    assert(b[p] == b.subrange(p, p + 4)[0]);
    assert(b[p + 1] == b.subrange(p, p + 4)[1]);
    assert(b[p + 2] == b.subrange(p, p + 4)[2]);
    assert(b[p + 3] == b.subrange(p, p + 4)[3]);
}

/// A field is read back from wherever its bytes stand.
pub proof fn lemma_le16_in(b: Seq<u8>, p: int, v: u16)
    requires
        0 <= p,
        p + 2 <= b.len(),
        b.subrange(p, p + 2) == le16_bytes(v),
    ensures
        le16_at(b, p) == v,
{
    lemma_le16_round_trip(v);
    assert(b[p] == b.subrange(p, p + 2)[0]);
    assert(b[p + 1] == b.subrange(p, p + 2)[1]);
}

/// Appends `v` in little-endian order.
pub fn write_u16_le(out: &mut Vec<u8>, v: u16)
    ensures
        final(out)@ == old(out)@ + le16_bytes(v),
{
    out.push((v & 0xff) as u8);
    out.push(((v >> 8u16) & 0xff) as u8);
    assert(final(out)@ =~= old(out)@ + le16_bytes(v));
}

/// Appends `v` in little-endian order.
pub fn write_u32_le(out: &mut Vec<u8>, v: u32)
    ensures
        final(out)@ == old(out)@ + le32_bytes(v),
{
    out.push((v & 0xff) as u8);
    out.push(((v >> 8u32) & 0xff) as u8);
    out.push(((v >> 16u32) & 0xff) as u8);
    out.push(((v >> 24u32) & 0xff) as u8);
    assert(final(out)@ =~= old(out)@ + le32_bytes(v));
}

/// Appends every byte of `bytes`.
pub fn write_bytes(out: &mut Vec<u8>, bytes: &[u8])
    ensures
        final(out)@ == old(out)@ + bytes@,
{
    let mut i: usize = 0;
    while i < bytes.len()
        invariant
            i <= bytes@.len(),
            out@ == old(out)@ + bytes@.subrange(0, i as int),
        decreases bytes@.len() - i,
    {
        out.push(bytes[i]);
        i = i + 1;
        assert(out@ =~= old(out)@ + bytes@.subrange(0, i as int));
    }
    assert(bytes@.subrange(0, i as int) =~= bytes@);
}

/// The bytes `b[from..to]` as a new vector.
pub fn copy_range(b: &[u8], from: usize, to: usize) -> (r: Vec<u8>)
    requires
        from <= to <= b@.len(),
    ensures
        r@ == b@.subrange(from as int, to as int),
{
    let mut out: Vec<u8> = Vec::new();
    let mut i: usize = from;
    while i < to
        invariant
            from <= i <= to <= b@.len(),
            out@ == b@.subrange(from as int, i as int),
        decreases to - i,
    {
        out.push(b[i]);
        i = i + 1;
        assert(out@ =~= b@.subrange(from as int, i as int));
    }
    out
}

/// A copy of `b`.
pub fn copy_all(b: &[u8]) -> (r: Vec<u8>)
    ensures
        r@ == b@,
{
    let r = copy_range(b, 0, b.len());
    assert(b@.subrange(0, b@.len() as int) =~= b@);
    r
}

} // verus!
