//! Little-endian byte encoding shared by the wire codec, the binary
//! rewriters and the guest-memory backends.
use vstd::prelude::*;

verus! {

/// The `i`-th least significant byte of `v`.
pub open spec fn byte_of(v: u64, i: nat) -> u8 {
    ((v >> ((8 * i) as u64)) & 0xff) as u8
}

/// The `n` low bytes of `v`, least significant first.
pub open spec fn le_bytes(v: u64, n: nat) -> Seq<u8> {
    Seq::new(n, |i: int| byte_of(v, i as nat))
}

/// The integer whose little-endian encoding is `s` (at most eight bytes).
pub open spec fn le_value(s: Seq<u8>) -> u64
    decreases s.len(),
{
    if s.len() == 0 {
        0
    } else {
        le_value(s.drop_last()) | ((s.last() as u64) << ((8 * (s.len() - 1)) as u64))
    }
}

/// Access widths, in bytes, that the encoders handle.
pub open spec fn is_width(n: nat) -> bool {
    n == 1 || n == 2 || n == 4 || n == 8
}

/// Mask keeping the `n` low bytes of a `u64`.
pub open spec fn low_mask(n: nat) -> u64 {
    if n == 1 {
        0xff
    } else if n == 2 {
        0xffff
    } else if n == 4 {
        0xffff_ffff
    } else {
        0xffff_ffff_ffff_ffff
    }
}

/// `s` with the `n` bytes starting at `off` replaced by `new`.
pub open spec fn splice(s: Seq<u8>, off: int, new: Seq<u8>) -> Seq<u8> {
    s.subrange(0, off) + new + s.subrange(off + new.len(), s.len() as int)
}

proof fn lemma_le_value_1(s: Seq<u8>)
    requires s.len() == 1,
    ensures le_value(s) == (s[0] as u64),
{
    reveal_with_fuel(le_value, 2);
    let a = s[0] as u64;
    assert(s.drop_last() =~= Seq::<u8>::empty());
    assert((0u64 | (a << 0u64)) == a) by (bit_vector);
}

proof fn lemma_le_value_2(s: Seq<u8>)
    requires s.len() == 2,
    ensures le_value(s) == (s[0] as u64) | ((s[1] as u64) << 8u64),
{
    reveal_with_fuel(le_value, 3);
    let a = s[0] as u64;
    assert(s.drop_last().drop_last() =~= Seq::<u8>::empty());
    assert((0u64 | (a << 0u64)) == a) by (bit_vector);
}

proof fn lemma_le_value_4(s: Seq<u8>)
    requires s.len() == 4,
    ensures le_value(s) == (s[0] as u64) | ((s[1] as u64) << 8u64) | ((s[2] as u64) << 16u64)
        | ((s[3] as u64) << 24u64),
{
    reveal_with_fuel(le_value, 5);
    let a = s[0] as u64;
    assert(s.drop_last().drop_last().drop_last().drop_last() =~= Seq::<u8>::empty());
    assert((0u64 | (a << 0u64)) == a) by (bit_vector);
}

proof fn lemma_le_value_8(s: Seq<u8>)
    requires s.len() == 8,
    ensures le_value(s) == (s[0] as u64) | ((s[1] as u64) << 8u64) | ((s[2] as u64) << 16u64)
        | ((s[3] as u64) << 24u64) | ((s[4] as u64) << 32u64) | ((s[5] as u64) << 40u64)
        | ((s[6] as u64) << 48u64) | ((s[7] as u64) << 56u64),
{
    reveal_with_fuel(le_value, 9);
    let a = s[0] as u64;
    assert(s.drop_last().drop_last().drop_last().drop_last().drop_last().drop_last().drop_last().drop_last()
        =~= Seq::<u8>::empty());
    assert((0u64 | (a << 0u64)) == a) by (bit_vector);
}

/// Four little-endian bytes never exceed `u32::MAX`.
pub proof fn lemma_le_value_4_bound(s: Seq<u8>)
    requires s.len() == 4,
    ensures le_value(s) <= 0xffff_ffff,
{
    lemma_le_value_4(s);
    let (a, b, c, d) = (s[0], s[1], s[2], s[3]);
    assert((a as u64) | ((b as u64) << 8u64) | ((c as u64) << 16u64) | ((d as u64) << 24u64) <= 0xffff_ffff)
        by (bit_vector);
}

/// Two little-endian bytes never exceed `u16::MAX`.
pub proof fn lemma_le_value_2_bound(s: Seq<u8>)
    requires s.len() == 2,
    ensures le_value(s) <= 0xffff,
{
    lemma_le_value_2(s);
    let (a, b) = (s[0], s[1]);
    assert((a as u64) | ((b as u64) << 8u64) <= 0xffff) by (bit_vector);
}

/// Decoding the `n`-byte encoding of `v` gives back the `n` low bytes of `v`.
pub proof fn lemma_le_value_of_bytes(v: u64, n: nat)
    requires is_width(n),
    ensures le_value(le_bytes(v, n)) == v & low_mask(n),
{
    let s = le_bytes(v, n);
    if n == 1 {
        lemma_le_value_1(s);
        assert((((v >> 0u64) & 0xff) as u8) as u64 == v & 0xff) by (bit_vector);
    } else if n == 2 {
        lemma_le_value_2(s);
        assert(((((v >> 0u64) & 0xff) as u8) as u64) | (((((v >> 8u64) & 0xff) as u8) as u64) << 8u64)
            == v & 0xffff) by (bit_vector);
    } else if n == 4 {
        lemma_le_value_4(s);
        assert(((((v >> 0u64) & 0xff) as u8) as u64) | (((((v >> 8u64) & 0xff) as u8) as u64) << 8u64)
            | (((((v >> 16u64) & 0xff) as u8) as u64) << 16u64)
            | (((((v >> 24u64) & 0xff) as u8) as u64) << 24u64) == v & 0xffff_ffff) by (bit_vector);
    } else {
        lemma_le_value_8(s);
        assert(((((v >> 0u64) & 0xff) as u8) as u64) | (((((v >> 8u64) & 0xff) as u8) as u64) << 8u64)
            | (((((v >> 16u64) & 0xff) as u8) as u64) << 16u64)
            | (((((v >> 24u64) & 0xff) as u8) as u64) << 24u64)
            | (((((v >> 32u64) & 0xff) as u8) as u64) << 32u64)
            | (((((v >> 40u64) & 0xff) as u8) as u64) << 40u64)
            | (((((v >> 48u64) & 0xff) as u8) as u64) << 48u64)
            | (((((v >> 56u64) & 0xff) as u8) as u64) << 56u64) == v) by (bit_vector);
        assert(v & 0xffff_ffff_ffff_ffffu64 == v) by (bit_vector);
    }
}

/// Encoding the value of an `n`-byte sequence gives back that sequence.
pub proof fn lemma_le_bytes_of_value(s: Seq<u8>)
    requires is_width(s.len()),
    ensures le_bytes(le_value(s), s.len()) == s,
{
    let n = s.len();
    let v = le_value(s);
    if n == 1 {
        lemma_le_value_1(s);
        let a = s[0];
        assert(byte_of(v, 0) == a) by {
            assert((((a as u64) >> 0u64) & 0xff) as u8 == a) by (bit_vector);
        }
    } else if n == 2 {
        lemma_le_value_2(s);
        let (a, b) = (s[0], s[1]);
        assert(byte_of(v, 0) == a && byte_of(v, 1) == b) by {
            assert(((((a as u64) | ((b as u64) << 8u64)) >> 0u64) & 0xff) as u8 == a) by (bit_vector);
            assert(((((a as u64) | ((b as u64) << 8u64)) >> 8u64) & 0xff) as u8 == b) by (bit_vector);
        }
    } else if n == 4 {
        lemma_le_value_4(s);
        let (a, b, c, d) = (s[0], s[1], s[2], s[3]);
        let w = (a as u64) | ((b as u64) << 8u64) | ((c as u64) << 16u64) | ((d as u64) << 24u64);
        assert(((w >> 0u64) & 0xff) as u8 == a && ((w >> 8u64) & 0xff) as u8 == b
            && ((w >> 16u64) & 0xff) as u8 == c && ((w >> 24u64) & 0xff) as u8 == d) by (bit_vector)
            requires w == (a as u64) | ((b as u64) << 8u64) | ((c as u64) << 16u64) | ((d as u64) << 24u64);
        assert(byte_of(v, 0) == a && byte_of(v, 1) == b && byte_of(v, 2) == c && byte_of(v, 3) == d);
    } else {
        lemma_le_value_8(s);
        let (a, b, c, d) = (s[0], s[1], s[2], s[3]);
        let (e, f, g, h) = (s[4], s[5], s[6], s[7]);
        let w = (a as u64) | ((b as u64) << 8u64) | ((c as u64) << 16u64) | ((d as u64) << 24u64)
            | ((e as u64) << 32u64) | ((f as u64) << 40u64) | ((g as u64) << 48u64) | ((h as u64) << 56u64);
        assert(((w >> 0u64) & 0xff) as u8 == a && ((w >> 8u64) & 0xff) as u8 == b
            && ((w >> 16u64) & 0xff) as u8 == c && ((w >> 24u64) & 0xff) as u8 == d
            && ((w >> 32u64) & 0xff) as u8 == e && ((w >> 40u64) & 0xff) as u8 == f
            && ((w >> 48u64) & 0xff) as u8 == g && ((w >> 56u64) & 0xff) as u8 == h) by (bit_vector)
            requires w == (a as u64) | ((b as u64) << 8u64) | ((c as u64) << 16u64) | ((d as u64) << 24u64)
                | ((e as u64) << 32u64) | ((f as u64) << 40u64) | ((g as u64) << 48u64) | ((h as u64) << 56u64);
        assert(byte_of(v, 0) == a && byte_of(v, 1) == b && byte_of(v, 2) == c && byte_of(v, 3) == d);
        assert(byte_of(v, 4) == e && byte_of(v, 5) == f && byte_of(v, 6) == g && byte_of(v, 7) == h);
    }
    assert(le_bytes(v, n) =~= s);
}

/// The value of at most eight little-endian bytes of `buf` starting at `off`.
pub fn read_le(buf: &[u8], off: usize, n: usize) -> (v: u64)
    requires
        n <= 8,
        off + n <= buf@.len(),
    ensures
        v == le_value(buf@.subrange(off as int, off + n)),
{
    let len = buf.len();
    let mut value: u64 = 0;
    let mut i: usize = 0;
    while i < n
        invariant
            i <= n <= 8,
            off + n <= buf@.len(),
            len == buf@.len(),
            value == le_value(buf@.subrange(off as int, off + i)),
        decreases n - i,
    {
        let b = buf[off + i];
        proof {
            let t = buf@.subrange(off as int, off + i + 1);
            assert(t.drop_last() =~= buf@.subrange(off as int, off + i));
            assert(t.last() == b);
        }
        value = value | ((b as u64) << ((8 * i) as u64));
        i = i + 1;
    }
    value
}

/// Writes the `n` low bytes of `v`, little-endian, at `off`.
pub fn write_le(buf: &mut Vec<u8>, off: usize, n: usize, v: u64)
    requires
        n <= 8,
        off + n <= old(buf)@.len(),
    ensures
        final(buf)@ == splice(old(buf)@, off as int, le_bytes(v, n as nat)),
{
    let ghost orig = buf@;
    let len = buf.len();
    let mut i: usize = 0;
    while i < n
        invariant
            i <= n <= 8,
            off + n <= orig.len(),
            len == orig.len(),
            buf@ == splice(orig, off as int, le_bytes(v, i as nat)),
        decreases n - i,
    {
        let b = ((v >> ((8 * i) as u64)) & 0xff) as u8;
        assert(((v >> ((8 * i) as u64)) & 0xff) <= 0xff) by (bit_vector);
        buf.set(off + i, b);
        i = i + 1;
        assert(buf@ =~= splice(orig, off as int, le_bytes(v, i as nat)));
    }
}


/// Appends the `n` low bytes of `v`, little-endian.
pub fn push_le(out: &mut Vec<u8>, v: u64, n: usize)
    requires
        n <= 8,
    ensures
        final(out)@ == old(out)@ + le_bytes(v, n as nat),
{
    let ghost orig = out@;
    let mut i: usize = 0;
    while i < n
        invariant
            i <= n <= 8,
            out@ == orig + le_bytes(v, i as nat),
        decreases n - i,
    {
        assert(((v >> ((8 * i) as u64)) & 0xff) <= 0xff) by (bit_vector);
        let b = ((v >> ((8 * i) as u64)) & 0xff) as u8;
        out.push(b);
        i = i + 1;
        assert(out@ =~= orig + le_bytes(v, i as nat));
    }
}

/// Appends all of `bytes`.
pub fn push_all(out: &mut Vec<u8>, bytes: &[u8])
    ensures
        final(out)@ == old(out)@ + bytes@,
{
    let ghost orig = out@;
    let len = bytes.len();
    let mut i: usize = 0;
    while i < len
        invariant
            i <= len,
            len == bytes@.len(),
            out@ == orig + bytes@.subrange(0, i as int),
        decreases len - i,
    {
        out.push(bytes[i]);
        i = i + 1;
        assert(out@ =~= orig + bytes@.subrange(0, i as int));
    }
    assert(bytes@.subrange(0, len as int) =~= bytes@);
}


/// The `n`-byte little-endian value at `off`, when it lies inside `b`.
pub open spec fn le_at(b: Seq<u8>, off: int, n: nat) -> Option<u64> {
    if 0 <= off && off + n <= b.len() {
        Some(le_value(b.subrange(off, off + n)))
    } else {
        None
    }
}

/// Bounds-checked little-endian read of at most eight bytes.
pub fn read_le_at(buf: &[u8], off: u64, n: usize) -> (r: Option<u64>)
    requires
        n <= 8,
    ensures
        r == le_at(buf@, off as int, n as nat),
{
    let len = buf.len();
    if (off as u128) + (n as u128) > (len as u128) {
        None
    } else {
        Some(read_le(buf, off as usize, n))
    }
}

}
