//! Bounds-checked access to a guest's linear memory.
//!
//! A guest's memory is a flat byte buffer; every structured read performed by
//! the other wire-format modules goes through the functions here, so the
//! bounds checks in this module are the single choke point between the host
//! and untrusted guest data.  Multi-byte integers on the wire are fixed
//! endian: big-endian for protocol header fields, little-endian (the guest's
//! native order) for raw repeated-record payloads.  Nothing here assumes any
//! alignment of the offsets it is handed.

use vstd::prelude::*;

use crate::WireError;

verus! {

/// The big-endian value of the two bytes of `m` starting at `off`.
pub open spec fn be16_at(m: Seq<u8>, off: int) -> int {
    m[off] * 0x100 + m[off + 1]
}

/// The big-endian value of the four bytes of `m` starting at `off`.
pub open spec fn be32_at(m: Seq<u8>, off: int) -> int {
    m[off] * 0x100_0000 + m[off + 1] * 0x1_0000 + m[off + 2] * 0x100 + m[off + 3]
}

/// The big-endian value of the eight bytes of `m` starting at `off`.
pub open spec fn be64_at(m: Seq<u8>, off: int) -> int {
    be32_at(m, off) * 0x1_0000_0000 + be32_at(m, off + 4)
}

/// The little-endian value of the four bytes of `m` starting at `off`.
pub open spec fn le32_at(m: Seq<u8>, off: int) -> int {
    m[off] + m[off + 1] * 0x100 + m[off + 2] * 0x1_0000 + m[off + 3] * 0x100_0000
}

/// The little-endian value of the eight bytes of `m` starting at `off`.
pub open spec fn le64_at(m: Seq<u8>, off: int) -> int {
    le32_at(m, off) + le32_at(m, off + 4) * 0x1_0000_0000
}

/// The two big-endian bytes of `v`.
pub open spec fn be16_bytes(v: int) -> Seq<u8> {
    seq![(v / 0x100 % 0x100) as u8, (v % 0x100) as u8]
}

/// The four big-endian bytes of `v`.
pub open spec fn be32_bytes(v: int) -> Seq<u8> {
    seq![
        (v / 0x100_0000 % 0x100) as u8,
        (v / 0x1_0000 % 0x100) as u8,
        (v / 0x100 % 0x100) as u8,
        (v % 0x100) as u8,
    ]
}

/// The eight big-endian bytes of `v`.
pub open spec fn be64_bytes(v: int) -> Seq<u8> {
    be32_bytes(v / 0x1_0000_0000) + be32_bytes(v % 0x1_0000_0000)
}

/// The four little-endian bytes of `v`.
pub open spec fn le32_bytes(v: int) -> Seq<u8> {
    seq![
        (v % 0x100) as u8,
        (v / 0x100 % 0x100) as u8,
        (v / 0x1_0000 % 0x100) as u8,
        (v / 0x100_0000 % 0x100) as u8,
    ]
}

/// The eight little-endian bytes of `v`.
pub open spec fn le64_bytes(v: int) -> Seq<u8> {
    le32_bytes(v % 0x1_0000_0000) + le32_bytes(v / 0x1_0000_0000)
}

/// A `size`-byte read at `off` stays inside a buffer of length `len`.
pub open spec fn range_ok(len: int, off: int, size: int) -> bool {
    off + size <= len
}

/// Reads `size` bytes of `m` starting at `offset`, the protocol's one
/// primitive for moving raw bytes out of guest memory.  Fails exactly when
/// the range reaches past the end of the buffer, and never reads partially.
#[verifier::rlimit(100)]
pub fn read_bytes(m: &Vec<u8>, offset: usize, size: usize) -> (r: Result<Vec<u8>, WireError>)
    ensures
        match r {
            Ok(b) => range_ok(m@.len() as int, offset as int, size as int)
                && b@ == m@.subrange(offset as int, offset as int + size as int),
            Err(e) => e == WireError::OutOfBounds
                && !range_ok(m@.len() as int, offset as int, size as int),
        },
{
    if offset > m.len() || size > m.len() - offset {
        return Err(WireError::OutOfBounds);
    }
    let mut out: Vec<u8> = Vec::new();
    let mut i: usize = 0;
    while i < size
        invariant
            i <= size,
            offset + size <= m@.len(),
            m@.len() <= usize::MAX,
            out@ == m@.subrange(offset as int, offset as int + i as int),
        decreases size - i,
    {
        out.push(m[offset + i]);
        assert(out@ =~= m@.subrange(offset as int, offset as int + (i + 1) as int));
        i = i + 1;
    }
    Ok(out)
}

/// Reads one byte at `offset`; fails exactly when `offset` is out of bounds.
pub fn read_u8(m: &Vec<u8>, offset: usize) -> (r: Result<u8, WireError>)
    ensures
        match r {
            Ok(v) => offset < m@.len() && v == m@[offset as int],
            Err(e) => e == WireError::OutOfBounds && offset >= m@.len(),
        },
{
    if offset >= m.len() {
        return Err(WireError::OutOfBounds);
    }
    Ok(m[offset])
}

/// Reads a big-endian `u16` at `offset`.
pub fn read_u16_be(m: &Vec<u8>, offset: usize) -> (r: Result<u16, WireError>)
    ensures
        match r {
            Ok(v) => range_ok(m@.len() as int, offset as int, 2)
                && v == be16_at(m@, offset as int),
            Err(e) => e == WireError::OutOfBounds
                && !range_ok(m@.len() as int, offset as int, 2),
        },
{
    if offset > m.len() || 2 > m.len() - offset {
        return Err(WireError::OutOfBounds);
    }
    let v: u16 = (m[offset] as u16) * 0x100 + (m[offset + 1] as u16);
    Ok(v)
}

/// Reads a big-endian `u32` at `offset`.
pub fn read_u32_be(m: &Vec<u8>, offset: usize) -> (r: Result<u32, WireError>)
    ensures
        match r {
            Ok(v) => range_ok(m@.len() as int, offset as int, 4)
                && v == be32_at(m@, offset as int),
            Err(e) => e == WireError::OutOfBounds
                && !range_ok(m@.len() as int, offset as int, 4),
        },
{
    if offset > m.len() || 4 > m.len() - offset {
        return Err(WireError::OutOfBounds);
    }
    let v: u32 = (m[offset] as u32) * 0x100_0000 + (m[offset + 1] as u32) * 0x1_0000
        + (m[offset + 2] as u32) * 0x100 + (m[offset + 3] as u32);
    Ok(v)
}

/// Reads a big-endian `u64` at `offset`.
pub fn read_u64_be(m: &Vec<u8>, offset: usize) -> (r: Result<u64, WireError>)
    ensures
        match r {
            Ok(v) => range_ok(m@.len() as int, offset as int, 8)
                && v == be64_at(m@, offset as int),
            Err(e) => e == WireError::OutOfBounds
                && !range_ok(m@.len() as int, offset as int, 8),
        },
{
    if offset > m.len() || 8 > m.len() - offset {
        return Err(WireError::OutOfBounds);
    }
    let hi = match read_u32_be(m, offset) {
        Ok(v) => v,
        Err(e) => { return Err(e); }
    };
    let lo = match read_u32_be(m, offset + 4) {
        Ok(v) => v,
        Err(e) => { return Err(e); }
    };
    let v: u64 = (hi as u64) * 0x1_0000_0000 + (lo as u64);
    Ok(v)
}

/// Reads a little-endian `u32` at `offset`.
pub fn read_u32_le(m: &Vec<u8>, offset: usize) -> (r: Result<u32, WireError>)
    ensures
        match r {
            Ok(v) => range_ok(m@.len() as int, offset as int, 4)
                && v == le32_at(m@, offset as int),
            Err(e) => e == WireError::OutOfBounds
                && !range_ok(m@.len() as int, offset as int, 4),
        },
{
    if offset > m.len() || 4 > m.len() - offset {
        return Err(WireError::OutOfBounds);
    }
    let v: u32 = (m[offset] as u32) + (m[offset + 1] as u32) * 0x100
        + (m[offset + 2] as u32) * 0x1_0000 + (m[offset + 3] as u32) * 0x100_0000;
    Ok(v)
}

/// Reads a little-endian `u64` at `offset`.
pub fn read_u64_le(m: &Vec<u8>, offset: usize) -> (r: Result<u64, WireError>)
    ensures
        match r {
            Ok(v) => range_ok(m@.len() as int, offset as int, 8)
                && v == le64_at(m@, offset as int),
            Err(e) => e == WireError::OutOfBounds
                && !range_ok(m@.len() as int, offset as int, 8),
        },
{
    if offset > m.len() || 8 > m.len() - offset {
        return Err(WireError::OutOfBounds);
    }
    let lo = match read_u32_le(m, offset) {
        Ok(v) => v,
        Err(e) => { return Err(e); }
    };
    let hi = match read_u32_le(m, offset + 4) {
        Ok(v) => v,
        Err(e) => { return Err(e); }
    };
    let v: u64 = (lo as u64) + (hi as u64) * 0x1_0000_0000;
    Ok(v)
}

/// Appends the two big-endian bytes of `v` to `out`.
pub fn push_u16_be(out: &mut Vec<u8>, v: u16)
    ensures
        final(out)@ == old(out)@ + be16_bytes(v as int),
{
    out.push((v / 0x100) as u8);
    out.push((v % 0x100) as u8);
    assert(out@ =~= old(out)@ + be16_bytes(v as int));
}

/// Appends the four big-endian bytes of `v` to `out`.
pub fn push_u32_be(out: &mut Vec<u8>, v: u32)
    ensures
        final(out)@ == old(out)@ + be32_bytes(v as int),
{
    out.push((v / 0x100_0000) as u8);
    out.push((v / 0x1_0000 % 0x100) as u8);
    out.push((v / 0x100 % 0x100) as u8);
    out.push((v % 0x100) as u8);
    assert(out@ =~= old(out)@ + be32_bytes(v as int));
}

/// Appends the eight big-endian bytes of `v` to `out`.
pub fn push_u64_be(out: &mut Vec<u8>, v: u64)
    ensures
        final(out)@ == old(out)@ + be64_bytes(v as int),
{
    push_u32_be(out, (v / 0x1_0000_0000) as u32);
    push_u32_be(out, (v % 0x1_0000_0000) as u32);
    assert(out@ =~= old(out)@ + be64_bytes(v as int));
}

/// Appends the four little-endian bytes of `v` to `out`.
pub fn push_u32_le(out: &mut Vec<u8>, v: u32)
    ensures
        final(out)@ == old(out)@ + le32_bytes(v as int),
{
    out.push((v % 0x100) as u8);
    out.push((v / 0x100 % 0x100) as u8);
    out.push((v / 0x1_0000 % 0x100) as u8);
    out.push((v / 0x100_0000) as u8);
    assert(out@ =~= old(out)@ + le32_bytes(v as int));
}

/// Appends the eight little-endian bytes of `v` to `out`.
pub fn push_u64_le(out: &mut Vec<u8>, v: u64)
    ensures
        final(out)@ == old(out)@ + le64_bytes(v as int),
{
    push_u32_le(out, (v % 0x1_0000_0000) as u32);
    push_u32_le(out, (v / 0x1_0000_0000) as u32);
    assert(out@ =~= old(out)@ + le64_bytes(v as int));
}

/// A big-endian `u16` written with `be16_bytes` reads back as itself.
pub proof fn lemma_be16_roundtrip(m: Seq<u8>, off: int, v: int)
    requires
        0 <= off,
        off + 2 <= m.len(),
        0 <= v < 0x1_0000,
        m.subrange(off, off + 2) == be16_bytes(v),
    ensures
        be16_at(m, off) == v,
{
    assert(m[off] == be16_bytes(v)[0]);
    assert(m[off + 1] == be16_bytes(v)[1]);
}

/// A big-endian `u32` written with `be32_bytes` reads back as itself.
pub proof fn lemma_be32_roundtrip(m: Seq<u8>, off: int, v: int)
    requires
        0 <= off,
        off + 4 <= m.len(),
        0 <= v < 0x1_0000_0000,
        m.subrange(off, off + 4) == be32_bytes(v),
    ensures
        be32_at(m, off) == v,
{
    assert(m[off] == be32_bytes(v)[0]);
    assert(m[off + 1] == be32_bytes(v)[1]);
    assert(m[off + 2] == be32_bytes(v)[2]);
    assert(m[off + 3] == be32_bytes(v)[3]);
}

/// A big-endian `u64` written with `be64_bytes` reads back as itself.
#[verifier::rlimit(50)]
pub proof fn lemma_be64_roundtrip(m: Seq<u8>, off: int, v: int)
    requires
        0 <= off,
        off + 8 <= m.len(),
        0 <= v < 0x1_0000_0000_0000_0000,
        m.subrange(off, off + 8) == be64_bytes(v),
    ensures
        be64_at(m, off) == v,
{
    let a = be32_bytes(v / 0x1_0000_0000);
    let b = be32_bytes(v % 0x1_0000_0000);
    let s = m.subrange(off, off + 8);
    assert(s == a + b);
    assert(m.subrange(off, off + 4) =~= s.subrange(0, 4));
    assert(m.subrange(off + 4, off + 8) =~= s.subrange(4, 8));
    assert(s.subrange(0, 4) =~= a);
    assert(s.subrange(4, 8) =~= b);
    lemma_be32_roundtrip(m, off, v / 0x1_0000_0000);
    lemma_be32_roundtrip(m, off + 4, v % 0x1_0000_0000);
}

/// A little-endian `u32` written with `le32_bytes` reads back as itself.
pub proof fn lemma_le32_roundtrip(m: Seq<u8>, off: int, v: int)
    requires
        0 <= off,
        off + 4 <= m.len(),
        0 <= v < 0x1_0000_0000,
        m.subrange(off, off + 4) == le32_bytes(v),
    ensures
        le32_at(m, off) == v,
{
    assert(m[off] == le32_bytes(v)[0]);
    assert(m[off + 1] == le32_bytes(v)[1]);
    assert(m[off + 2] == le32_bytes(v)[2]);
    assert(m[off + 3] == le32_bytes(v)[3]);
}

/// A little-endian `u64` written with `le64_bytes` reads back as itself.
#[verifier::rlimit(50)]
pub proof fn lemma_le64_roundtrip(m: Seq<u8>, off: int, v: int)
    requires
        0 <= off,
        off + 8 <= m.len(),
        0 <= v < 0x1_0000_0000_0000_0000,
        m.subrange(off, off + 8) == le64_bytes(v),
    ensures
        le64_at(m, off) == v,
{
    let a = le32_bytes(v % 0x1_0000_0000);
    let b = le32_bytes(v / 0x1_0000_0000);
    let s = m.subrange(off, off + 8);
    assert(s == a + b);
    assert(m.subrange(off, off + 4) =~= s.subrange(0, 4));
    assert(m.subrange(off + 4, off + 8) =~= s.subrange(4, 8));
    assert(s.subrange(0, 4) =~= a);
    assert(s.subrange(4, 8) =~= b);
    lemma_le32_roundtrip(m, off, v % 0x1_0000_0000);
    lemma_le32_roundtrip(m, off + 4, v / 0x1_0000_0000);
}

/// Concatenation of a sequence of byte chunks, in order.
pub open spec fn concat_all(ss: Seq<Seq<u8>>) -> Seq<u8>
    decreases ss.len(),
{
    if ss.len() == 0 {
        Seq::empty()
    } else {
        ss[0] + concat_all(ss.skip(1))
    }
}

/// Total length of a sequence of byte chunks.
pub open spec fn lens_sum(ss: Seq<Seq<u8>>) -> int
    decreases ss.len(),
{
    if ss.len() == 0 {
        0
    } else {
        ss[0].len() + lens_sum(ss.skip(1))
    }
}

/// The concatenation is as long as its chunks together.
pub proof fn lemma_concat_len(ss: Seq<Seq<u8>>)
    ensures
        concat_all(ss).len() == lens_sum(ss),
        lens_sum(ss) >= 0,
    decreases ss.len(),
{
    if ss.len() > 0 {
        lemma_concat_len(ss.skip(1));
    }
}

/// Concatenating one more chunk appends its bytes.
#[verifier::rlimit(100)]
pub proof fn lemma_concat_snoc(ss: Seq<Seq<u8>>, x: Seq<u8>)
    ensures
        concat_all(ss.push(x)) == concat_all(ss) + x,
        lens_sum(ss.push(x)) == lens_sum(ss) + x.len(),
    decreases ss.len(),
{
    let s = ss.push(x);
    if ss.len() == 0 {
        assert(s[0] == x);
        assert(s.skip(1) =~= Seq::<Seq<u8>>::empty());
        assert(concat_all(s.skip(1)) == Seq::<u8>::empty());
        assert(concat_all(s) == x + concat_all(s.skip(1)));
        assert(concat_all(ss) == Seq::<u8>::empty());
        assert(concat_all(s) =~= concat_all(ss) + x);
        assert(lens_sum(s) == x.len() + lens_sum(s.skip(1)));
        assert(lens_sum(s.skip(1)) == 0);
        assert(lens_sum(ss) == 0);
    } else {
        assert(s[0] == ss[0]);
        assert(s.skip(1) =~= ss.skip(1).push(x));
        lemma_concat_snoc(ss.skip(1), x);
        assert(concat_all(s) == ss[0] + concat_all(s.skip(1)));
        assert(concat_all(s.skip(1)) == concat_all(ss.skip(1)) + x);
        assert(concat_all(ss) == ss[0] + concat_all(ss.skip(1)));
        assert(concat_all(s) =~= concat_all(ss) + x);
        assert(lens_sum(s) == ss[0].len() + lens_sum(s.skip(1)));
    }
}

/// Splitting the chunk list splits the total length.
#[verifier::rlimit(100)]
pub proof fn lemma_lens_sum_split(ss: Seq<Seq<u8>>, k: int)
    requires
        0 <= k <= ss.len(),
    ensures
        lens_sum(ss) == lens_sum(ss.take(k)) + lens_sum(ss.skip(k)),
    decreases k,
{
    if k == 0 {
        assert(ss.take(0) =~= Seq::<Seq<u8>>::empty());
        assert(ss.skip(0) =~= ss);
    } else {
        lemma_lens_sum_split(ss, k - 1);
        lemma_concat_snoc(ss.take(k - 1), ss[k - 1]);
        assert(ss.take(k - 1).push(ss[k - 1]) =~= ss.take(k));
        assert(ss.skip(k - 1)[0] == ss[k - 1]);
        assert(ss.skip(k - 1).skip(1) =~= ss.skip(k));
        assert(lens_sum(ss.skip(k - 1)) == ss[k - 1].len() + lens_sum(ss.skip(k)));
    }
}

/// Chunk `i` sits in the concatenation at the summed length of the chunks
/// before it.
#[verifier::rlimit(100)]
pub proof fn lemma_concat_mid(ss: Seq<Seq<u8>>, i: int)
    requires
        0 <= i < ss.len(),
    ensures
        lens_sum(ss.take(i)) >= 0,
        lens_sum(ss.take(i)) + ss[i].len() <= concat_all(ss).len(),
        concat_all(ss).subrange(lens_sum(ss.take(i)), lens_sum(ss.take(i)) + ss[i].len())
            == ss[i],
    decreases i,
{
    lemma_concat_len(ss);
    lemma_concat_len(ss.take(i));
    lemma_lens_sum_split(ss, i);
    assert(ss.skip(i)[0] == ss[i]);
    assert(ss.skip(i).skip(1) =~= ss.skip(i + 1));
    assert(lens_sum(ss.skip(i)) == ss[i].len() + lens_sum(ss.skip(i + 1)));
    lemma_concat_len(ss.skip(i + 1));
    if i == 0 {
        assert(ss.take(0) =~= Seq::<Seq<u8>>::empty());
        assert(concat_all(ss) == ss[0] + concat_all(ss.skip(1)));
        assert(concat_all(ss).subrange(0, ss[0].len() as int) =~= ss[0]);
    } else {
        lemma_concat_mid(ss.skip(1), i - 1);
        assert(ss.skip(1)[i - 1] == ss[i]);
        assert(ss.skip(1).take(i - 1) =~= ss.take(i).skip(1));
        assert(lens_sum(ss.take(i)) == ss[0].len() + lens_sum(ss.take(i).skip(1)));
        let a = lens_sum(ss.take(i));
        let l0 = ss[0].len() as int;
        assert(concat_all(ss) == ss[0] + concat_all(ss.skip(1)));
        lemma_concat_len(ss.skip(1));
        lemma_lens_sum_split(ss.skip(1), i - 1);
        assert(concat_all(ss.skip(1)).subrange(a - l0, a - l0 + ss[i].len()) == ss[i]);
        assert(concat_all(ss).subrange(a, a + ss[i].len())
            =~= concat_all(ss.skip(1)).subrange(a - l0, a - l0 + ss[i].len()));
    }
}

/// If every chunk has length `stride`, chunk `i` begins at `stride * i`.
#[verifier::rlimit(100)]
pub proof fn lemma_lens_sum_uniform(ss: Seq<Seq<u8>>, stride: int, k: int)
    requires
        0 <= k <= ss.len(),
        forall|j: int| 0 <= j < ss.len() ==> (#[trigger] ss[j]).len() == stride,
    ensures
        lens_sum(ss.take(k)) == stride * k,
    decreases k,
{
    if k == 0 {
        assert(ss.take(0) =~= Seq::<Seq<u8>>::empty());
    } else {
        lemma_lens_sum_uniform(ss, stride, k - 1);
        lemma_concat_snoc(ss.take(k - 1), ss[k - 1]);
        assert(ss.take(k - 1).push(ss[k - 1]) =~= ss.take(k));
        assert(stride * k == stride * (k - 1) + stride) by (nonlinear_arith);
    }
}

/// Appends every byte of `src` to `out`.
#[verifier::rlimit(100)]
pub fn push_bytes(out: &mut Vec<u8>, src: &Vec<u8>)
    ensures
        final(out)@ == old(out)@ + src@,
{
    let mut i: usize = 0;
    while i < src.len()
        invariant
            i <= src@.len(),
            out@ == old(out)@ + src@.take(i as int),
        decreases src@.len() - i,
    {
        out.push(src[i]);
        assert(out@ =~= old(out)@ + src@.take((i + 1) as int));
        i = i + 1;
    }
    assert(out@ =~= old(out)@ + src@);
}

/// A slice of a known slice of `m` is the matching slice of the window.
#[verifier::rlimit(100)]
pub proof fn lemma_subrange_of_subrange(m: Seq<u8>, b: int, r: Seq<u8>, x: int, y: int)
    requires
        0 <= b,
        b + r.len() <= m.len(),
        m.subrange(b, b + r.len()) == r,
        0 <= x <= y <= r.len(),
    ensures
        m.subrange(b + x, b + y) == r.subrange(x, y),
{
    assert forall|k: int| 0 <= k < y - x implies m.subrange(b + x, b + y)[k] == r.subrange(
        x,
        y,
    )[k] by {
        assert(m.subrange(b + x, b + y)[k] == m[b + x + k]);
        assert(m.subrange(b, b + r.len())[x + k] == m[b + x + k]);
        assert(r.subrange(x, y)[k] == r[x + k]);
    }
    assert(m.subrange(b + x, b + y) =~= r.subrange(x, y));
}

} // verus!
