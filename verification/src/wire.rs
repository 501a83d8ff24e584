//! Byte-level building blocks for the wire formats: big-endian integer
//! fields and helpers that assemble and slice byte vectors.

use vstd::prelude::*;
use vstd::assert_seqs_equal;

verus! {

/// Big-endian bytes of a `u16`, most significant first.
pub open spec fn spec_u16_to_be_bytes(x: u16) -> Seq<u8> {
    seq![((x >> 8) & 0xff) as u8, (x & 0xff) as u8]
}

/// The `u16` read big-endian from two bytes.
pub open spec fn spec_u16_from_be_bytes(s: Seq<u8>) -> u16
    recommends
        s.len() == 2,
{
    ((s[0] as u16) << 8 | (s[1] as u16)) as u16
}

pub proof fn lemma_u16_be_bytes_round_trip()
    ensures
        forall|x: u16|
            {
                &&& (#[trigger] spec_u16_to_be_bytes(x)).len() == 2
                &&& spec_u16_from_be_bytes(spec_u16_to_be_bytes(x)) == x
            },
        forall|s: Seq<u8>|
            s.len() == 2 ==> #[trigger] spec_u16_to_be_bytes(spec_u16_from_be_bytes(s)) == s,
{
    assert forall|x: u16|
        {
            &&& (#[trigger] spec_u16_to_be_bytes(x)).len() == 2
            &&& spec_u16_from_be_bytes(spec_u16_to_be_bytes(x)) == x
        } by {
        assert(((x >> 8) & 0xff) < 256 && (x & 0xff) < 256) by (bit_vector);
        assert(x == ((((x >> 8) & 0xff) as u8 as u16) << 8 | ((x & 0xff) as u8 as u16)) as u16)
            by (bit_vector);
    };
    assert forall|s: Seq<u8>| s.len() == 2 implies #[trigger] spec_u16_to_be_bytes(
        spec_u16_from_be_bytes(s),
    ) == s by {
        let x = spec_u16_from_be_bytes(s);
        let s0 = s[0] as u16;
        let s1 = s[1] as u16;
        assert((x == (s0 << 8 | s1) as u16 && s0 < 256 && s1 < 256) ==> s0 == ((x >> 8) & 0xff)
            && s1 == (x & 0xff)) by (bit_vector);
        assert_seqs_equal!(spec_u16_to_be_bytes(spec_u16_from_be_bytes(s)) == s);
    }
}

/// Big-endian bytes of a `u32`, most significant first.
pub open spec fn spec_u32_to_be_bytes(x: u32) -> Seq<u8> {
    seq![
        ((x >> 24) & 0xff) as u8,
        ((x >> 16) & 0xff) as u8,
        ((x >> 8) & 0xff) as u8,
        (x & 0xff) as u8,
    ]
}

/// The `u32` read big-endian from four bytes.
pub open spec fn spec_u32_from_be_bytes(s: Seq<u8>) -> u32
    recommends
        s.len() == 4,
{
    ((s[0] as u32) << 24 | (s[1] as u32) << 16 | (s[2] as u32) << 8 | (s[3] as u32)) as u32
}

pub proof fn lemma_u32_be_bytes_round_trip()
    ensures
        forall|x: u32|
            {
                &&& (#[trigger] spec_u32_to_be_bytes(x)).len() == 4
                &&& spec_u32_from_be_bytes(spec_u32_to_be_bytes(x)) == x
            },
        forall|s: Seq<u8>|
            s.len() == 4 ==> #[trigger] spec_u32_to_be_bytes(spec_u32_from_be_bytes(s)) == s,
{
    assert forall|x: u32|
        {
            &&& (#[trigger] spec_u32_to_be_bytes(x)).len() == 4
            &&& spec_u32_from_be_bytes(spec_u32_to_be_bytes(x)) == x
        } by {
        assert(((x >> 24) & 0xff) < 256 && ((x >> 16) & 0xff) < 256 && ((x >> 8) & 0xff) < 256
            && (x & 0xff) < 256) by (bit_vector);
        assert(x == ((((x >> 24) & 0xff) as u8 as u32) << 24 | (((x >> 16) & 0xff) as u8 as u32)
            << 16 | (((x >> 8) & 0xff) as u8 as u32) << 8 | ((x & 0xff) as u8 as u32)) as u32)
            by (bit_vector);
    };
    assert forall|s: Seq<u8>| s.len() == 4 implies #[trigger] spec_u32_to_be_bytes(
        spec_u32_from_be_bytes(s),
    ) == s by {
        let x = spec_u32_from_be_bytes(s);
        let s0 = s[0] as u32;
        let s1 = s[1] as u32;
        let s2 = s[2] as u32;
        let s3 = s[3] as u32;
        assert((x == (s0 << 24 | s1 << 16 | s2 << 8 | s3) as u32 && s0 < 256 && s1 < 256 && s2
            < 256 && s3 < 256) ==> s0 == ((x >> 24) & 0xff) && s1 == ((x >> 16) & 0xff) && s2 == ((
        x >> 8) & 0xff) && s3 == (x & 0xff)) by (bit_vector);
        assert_seqs_equal!(spec_u32_to_be_bytes(spec_u32_from_be_bytes(s)) == s);
    }
}

/// Big-endian bytes of a `u64`, most significant first.
pub open spec fn spec_u64_to_be_bytes(x: u64) -> Seq<u8> {
    seq![
        ((x >> 56) & 0xff) as u8,
        ((x >> 48) & 0xff) as u8,
        ((x >> 40) & 0xff) as u8,
        ((x >> 32) & 0xff) as u8,
        ((x >> 24) & 0xff) as u8,
        ((x >> 16) & 0xff) as u8,
        ((x >> 8) & 0xff) as u8,
        (x & 0xff) as u8,
    ]
}

/// The `u64` read big-endian from eight bytes.
pub open spec fn spec_u64_from_be_bytes(s: Seq<u8>) -> u64
    recommends
        s.len() == 8,
{
    ((s[0] as u64) << 56 | (s[1] as u64) << 48 | (s[2] as u64) << 40 | (s[3] as u64) << 32 | (
    s[4] as u64) << 24 | (s[5] as u64) << 16 | (s[6] as u64) << 8 | (s[7] as u64)) as u64
}

pub proof fn lemma_u64_be_bytes_round_trip()
    ensures
        forall|x: u64|
            {
                &&& (#[trigger] spec_u64_to_be_bytes(x)).len() == 8
                &&& spec_u64_from_be_bytes(spec_u64_to_be_bytes(x)) == x
            },
        forall|s: Seq<u8>|
            s.len() == 8 ==> #[trigger] spec_u64_to_be_bytes(spec_u64_from_be_bytes(s)) == s,
{
    assert forall|x: u64|
        {
            &&& (#[trigger] spec_u64_to_be_bytes(x)).len() == 8
            &&& spec_u64_from_be_bytes(spec_u64_to_be_bytes(x)) == x
        } by {
        assert(((x >> 56) & 0xff) < 256 && ((x >> 48) & 0xff) < 256 && ((x >> 40) & 0xff) < 256
            && ((x >> 32) & 0xff) < 256 && ((x >> 24) & 0xff) < 256 && ((x >> 16) & 0xff) < 256
            && ((x >> 8) & 0xff) < 256 && (x & 0xff) < 256) by (bit_vector);
        assert(x == ((((x >> 56) & 0xff) as u8 as u64) << 56 | (((x >> 48) & 0xff) as u8 as u64)
            << 48 | (((x >> 40) & 0xff) as u8 as u64) << 40 | (((x >> 32) & 0xff) as u8 as u64)
            << 32 | (((x >> 24) & 0xff) as u8 as u64) << 24 | (((x >> 16) & 0xff) as u8 as u64)
            << 16 | (((x >> 8) & 0xff) as u8 as u64) << 8 | ((x & 0xff) as u8 as u64)) as u64)
            by (bit_vector);
    };
    assert forall|s: Seq<u8>| s.len() == 8 implies #[trigger] spec_u64_to_be_bytes(
        spec_u64_from_be_bytes(s),
    ) == s by {
        let x = spec_u64_from_be_bytes(s);
        let s0 = s[0] as u64;
        let s1 = s[1] as u64;
        let s2 = s[2] as u64;
        let s3 = s[3] as u64;
        let s4 = s[4] as u64;
        let s5 = s[5] as u64;
        let s6 = s[6] as u64;
        let s7 = s[7] as u64;
        assert((x == (s0 << 56 | s1 << 48 | s2 << 40 | s3 << 32 | s4 << 24 | s5 << 16 | s6 << 8
            | s7) as u64 && s0 < 256 && s1 < 256 && s2 < 256 && s3 < 256 && s4 < 256 && s5 < 256
            && s6 < 256 && s7 < 256) ==> s0 == ((x >> 56) & 0xff) && s1 == ((x >> 48) & 0xff)
            && s2 == ((x >> 40) & 0xff) && s3 == ((x >> 32) & 0xff) && s4 == ((x >> 24) & 0xff)
            && s5 == ((x >> 16) & 0xff) && s6 == ((x >> 8) & 0xff) && s7 == (x & 0xff))
            by (bit_vector);
        assert_seqs_equal!(spec_u64_to_be_bytes(spec_u64_from_be_bytes(s)) == s);
    }
}

/// Appends the big-endian bytes of `x` to `out`.
pub fn push_u16_be(out: &mut Vec<u8>, x: u16)
    ensures
        final(out)@ == old(out)@ + spec_u16_to_be_bytes(x),
{
    out.push(((x >> 8) & 0xff) as u8);
    out.push((x & 0xff) as u8);
    assert(final(out)@ =~= old(out)@ + spec_u16_to_be_bytes(x));
}

/// Appends the big-endian bytes of `x` to `out`.
pub fn push_u32_be(out: &mut Vec<u8>, x: u32)
    ensures
        final(out)@ == old(out)@ + spec_u32_to_be_bytes(x),
{
    out.push(((x >> 24) & 0xff) as u8);
    out.push(((x >> 16) & 0xff) as u8);
    out.push(((x >> 8) & 0xff) as u8);
    out.push((x & 0xff) as u8);
    assert(final(out)@ =~= old(out)@ + spec_u32_to_be_bytes(x));
}

/// Appends the big-endian bytes of `x` to `out`.
pub fn push_u64_be(out: &mut Vec<u8>, x: u64)
    ensures
        final(out)@ == old(out)@ + spec_u64_to_be_bytes(x),
{
    out.push(((x >> 56) & 0xff) as u8);
    out.push(((x >> 48) & 0xff) as u8);
    out.push(((x >> 40) & 0xff) as u8);
    out.push(((x >> 32) & 0xff) as u8);
    out.push(((x >> 24) & 0xff) as u8);
    out.push(((x >> 16) & 0xff) as u8);
    out.push(((x >> 8) & 0xff) as u8);
    out.push((x & 0xff) as u8);
    assert(final(out)@ =~= old(out)@ + spec_u64_to_be_bytes(x));
}

/// Reads the big-endian `u16` at `pos`.
pub fn read_u16_be(s: &[u8], pos: usize) -> (x: u16)
    requires
        pos + 2 <= s@.len(),
    ensures
        x == spec_u16_from_be_bytes(s@.subrange(pos as int, pos + 2)),
{
    let ghost b = s@.subrange(pos as int, pos + 2);
    let x = ((s[pos] as u16) << 8 | (s[pos + 1] as u16)) as u16;
    assert(b[0] == s@[pos as int] && b[1] == s@[pos as int + 1]);
    x
}

/// Reads the big-endian `u32` at `pos`.
pub fn read_u32_be(s: &[u8], pos: usize) -> (x: u32)
    requires
        pos + 4 <= s@.len(),
    ensures
        x == spec_u32_from_be_bytes(s@.subrange(pos as int, pos + 4)),
{
    let ghost b = s@.subrange(pos as int, pos + 4);
    let x = ((s[pos] as u32) << 24 | (s[pos + 1] as u32) << 16 | (s[pos + 2] as u32) << 8 | (
    s[pos + 3] as u32)) as u32;
    assert(b[0] == s@[pos as int] && b[1] == s@[pos as int + 1] && b[2] == s@[pos as int + 2]
        && b[3] == s@[pos as int + 3]);
    x
}

/// Reads the big-endian `u64` at `pos`.
pub fn read_u64_be(s: &[u8], pos: usize) -> (x: u64)
    requires
        pos + 8 <= s@.len(),
    ensures
        x == spec_u64_from_be_bytes(s@.subrange(pos as int, pos + 8)),
{
    let ghost b = s@.subrange(pos as int, pos + 8);
    let x = ((s[pos] as u64) << 56 | (s[pos + 1] as u64) << 48 | (s[pos + 2] as u64) << 40 | (
    s[pos + 3] as u64) << 32 | (s[pos + 4] as u64) << 24 | (s[pos + 5] as u64) << 16 | (s[pos
        + 6] as u64) << 8 | (s[pos + 7] as u64)) as u64;
    assert(b[0] == s@[pos as int] && b[1] == s@[pos as int + 1] && b[2] == s@[pos as int + 2]
        && b[3] == s@[pos as int + 3] && b[4] == s@[pos as int + 4] && b[5] == s@[pos as int + 5]
        && b[6] == s@[pos as int + 6] && b[7] == s@[pos as int + 7]);
    x
}

/// Appends every byte of `src` to `out`.
pub fn push_bytes(out: &mut Vec<u8>, src: &[u8])
    ensures
        final(out)@ == old(out)@ + src@,
{
    let n = src.len();
    let mut i: usize = 0;
    while i < n
        invariant
            n == src@.len(),
            0 <= i <= n,
            out@ == old(out)@ + src@.subrange(0, i as int),
        decreases n - i,
    {
        out.push(src[i]);
        assert(old(out)@ + src@.subrange(0, i + 1) =~= (old(out)@ + src@.subrange(0, i as int)).push(
            src@[i as int],
        ));
        i = i + 1;
    }
    assert(src@.subrange(0, n as int) =~= src@);
}

/// Copies `s[start .. start + len]` into a fresh vector.
pub fn copy_range(s: &[u8], start: usize, len: usize) -> (r: Vec<u8>)
    requires
        start + len <= s@.len(),
    ensures
        r@ == s@.subrange(start as int, start + len),
{
    let slen: usize = s.len();
    let mut r: Vec<u8> = Vec::new();
    let mut i: usize = 0;
    while i < len
        invariant
            start + len <= slen,
            slen == s@.len(),
            0 <= i <= len,
            r@ == s@.subrange(start as int, start + i),
        decreases len - i,
    {
        r.push(s[start + i]);
        assert(s@.subrange(start as int, start + i + 1) =~= s@.subrange(
            start as int,
            start + i,
        ).push(s@[start + i]));
        i = i + 1;
    }
    r
}

/// Copies 16 bytes at `start` into an array.
pub fn read_bytes16(s: &[u8], start: usize) -> (r: [u8; 16])
    requires
        start + 16 <= s@.len(),
    ensures
        r@ == s@.subrange(start as int, start + 16),
{
    let slen: usize = s.len();
    let mut r: [u8; 16] = [0u8; 16];
    let mut i: usize = 0;
    while i < 16
        invariant
            start + 16 <= slen,
            slen == s@.len(),
            0 <= i <= 16,
            r@.len() == 16,
            forall|j: int| 0 <= j < i ==> r@[j] == s@[start + j],
        decreases 16 - i,
    {
        r[i] = s[start + i];
        i = i + 1;
    }
    assert(r@ =~= s@.subrange(start as int, start + 16));
    r
}

/// Copies 32 bytes at `start` into an array.
pub fn read_bytes32(s: &[u8], start: usize) -> (r: [u8; 32])
    requires
        start + 32 <= s@.len(),
    ensures
        r@ == s@.subrange(start as int, start + 32),
{
    let slen: usize = s.len();
    let mut r: [u8; 32] = [0u8; 32];
    let mut i: usize = 0;
    while i < 32
        invariant
            start + 32 <= slen,
            slen == s@.len(),
            0 <= i <= 32,
            r@.len() == 32,
            forall|j: int| 0 <= j < i ==> r@[j] == s@[start + j],
        decreases 32 - i,
    {
        r[i] = s[start + i];
        i = i + 1;
    }
    assert(r@ =~= s@.subrange(start as int, start + 32));
    r
}

} // verus!
