//! Big-endian byte encoding of fixed-width integers, and sequences of
//! fixed-size records.

use vstd::prelude::*;

verus! {

/// The two big-endian bytes of `x`.
pub open spec fn be16(x: u16) -> Seq<u8> {
    seq![(x / 256) as u8, (x % 256) as u8]
}

/// The four big-endian bytes of `x`.
pub open spec fn be32(x: u32) -> Seq<u8> {
    be16((x / 65536) as u16) + be16((x % 65536) as u16)
}

/// The eight big-endian bytes of `x`.
pub open spec fn be64(x: u64) -> Seq<u8> {
    be32((x / 0x1_0000_0000) as u32) + be32((x % 0x1_0000_0000) as u32)
}

/// The big-endian `u16` that starts at byte `i` of `b`.
pub open spec fn u16_at(b: Seq<u8>, i: int) -> u16 {
    (b[i] as int * 256 + b[i + 1] as int) as u16
}

/// The big-endian `u32` that starts at byte `i` of `b`.
pub open spec fn u32_at(b: Seq<u8>, i: int) -> u32 {
    (u16_at(b, i) as int * 65536 + u16_at(b, i + 2) as int) as u32
}

/// The big-endian `u64` that starts at byte `i` of `b`.
pub open spec fn u64_at(b: Seq<u8>, i: int) -> u64 {
    (u32_at(b, i) as int * 0x1_0000_0000 + u32_at(b, i + 4) as int) as u64
}

/// The bytes of the records of `s`, one after the other.
pub open spec fn concat_map<T>(s: Seq<T>, f: spec_fn(T) -> Seq<u8>) -> Seq<u8>
    decreases s.len(),
{
    if s.len() == 0 {
        Seq::empty()
    } else {
        concat_map(s.drop_last(), f) + f(s.last())
    }
}

/// Two big-endian bytes of `x` read back as `x`.
pub proof fn lemma_be16_read(b: Seq<u8>, i: int, x: u16)
    requires
        0 <= i,
        i + 2 <= b.len(),
        b.subrange(i, i + 2) == be16(x),
    ensures
        u16_at(b, i) == x,
{
    assert(b[i] == be16(x)[0]);
    assert(b[i + 1] == be16(x)[1]);
    assert((x / 256) * 256 + x % 256 == x) by (nonlinear_arith);
}

/// Four big-endian bytes of `x` read back as `x`.
pub proof fn lemma_be32_read(b: Seq<u8>, i: int, x: u32)
    requires
        0 <= i,
        i + 4 <= b.len(),
        b.subrange(i, i + 4) == be32(x),
    ensures
        u32_at(b, i) == x,
{
    let hi = (x / 65536) as u16;
    let lo = (x % 65536) as u16;
    assert(b.subrange(i, i + 2) =~= be16(hi)) by {
        assert(b.subrange(i, i + 4).subrange(0, 2) =~= b.subrange(i, i + 2));
    }
    assert(b.subrange(i + 2, i + 4) =~= be16(lo)) by {
        assert(b.subrange(i, i + 4).subrange(2, 4) =~= b.subrange(i + 2, i + 4));
    }
    lemma_be16_read(b, i, hi);
    lemma_be16_read(b, i + 2, lo);
    assert((x / 65536) * 65536 + x % 65536 == x) by (nonlinear_arith);
}

/// Eight big-endian bytes of `x` read back as `x`.
pub proof fn lemma_be64_read(b: Seq<u8>, i: int, x: u64)
    requires
        0 <= i,
        i + 8 <= b.len(),
        b.subrange(i, i + 8) == be64(x),
    ensures
        u64_at(b, i) == x,
{
    let hi = (x / 0x1_0000_0000) as u32;
    let lo = (x % 0x1_0000_0000) as u32;
    assert(b.subrange(i, i + 4) =~= be32(hi)) by {
        assert(b.subrange(i, i + 8).subrange(0, 4) =~= b.subrange(i, i + 4));
    }
    assert(b.subrange(i + 4, i + 8) =~= be32(lo)) by {
        assert(b.subrange(i, i + 8).subrange(4, 8) =~= b.subrange(i + 4, i + 8));
    }
    lemma_be32_read(b, i, hi);
    lemma_be32_read(b, i + 4, lo);
    assert((x / 0x1_0000_0000) * 0x1_0000_0000 + x % 0x1_0000_0000 == x) by (nonlinear_arith);
}

/// Records of `n` bytes each take `n` bytes apiece, and record `k` sits at byte `n * k`.
pub proof fn lemma_concat_map<T>(s: Seq<T>, f: spec_fn(T) -> Seq<u8>, n: int)
    requires
        0 <= n,
        forall|t: T| #[trigger] f(t).len() == n,
    ensures
        concat_map(s, f).len() == n * s.len(),
        forall|k: int, j: int|
            0 <= k < s.len() && 0 <= j < n ==> concat_map(s, f)[n * k + j] == #[trigger] f(
                s[k],
            )[j],
        forall|k: int|
            0 <= k < s.len() ==> concat_map(s, f).subrange(n * k, n * k + n) == #[trigger] f(
                s[k],
            ),
    decreases s.len(),
{
    if s.len() > 0 {
        let p = s.drop_last();
        lemma_concat_map(p, f, n);
        assert(n * p.len() + n == n * s.len()) by (nonlinear_arith)
            requires
                p.len() + 1 == s.len(),
        ;
        assert forall|k: int, j: int| 0 <= k < s.len() && 0 <= j < n implies concat_map(s, f)[n
            * k + j] == #[trigger] f(s[k])[j] by {
            if k < p.len() {
                assert(n * k + j < n * p.len()) by (nonlinear_arith)
                    requires
                        k + 1 <= p.len(),
                        0 <= j < n,
                ;
                assert(s[k] == p[k]);
            } else {
                assert(k == p.len());
                assert(n * k == n * p.len());
            }
        }
    }
    assert forall|k: int| 0 <= k < s.len() implies concat_map(s, f).subrange(n * k, n * k + n)
        == #[trigger] f(s[k]) by {
        assert(n * k + n <= n * s.len()) by (nonlinear_arith)
            requires
                0 <= k < s.len(),
                0 <= n,
        ;
        assert(0 <= n * k) by (nonlinear_arith)
            requires
                0 <= k,
                0 <= n,
        ;
        assert forall|j: int| 0 <= j < n implies #[trigger] concat_map(s, f).subrange(
            n * k,
            n * k + n,
        )[j] == f(s[k])[j] by {
            assert(concat_map(s, f)[n * k + j] == f(s[k])[j]);
        }
        assert(concat_map(s, f).subrange(n * k, n * k + n) =~= f(s[k]));
    }
}

/// Taking one more record appends its bytes.
pub proof fn lemma_concat_map_take<T>(s: Seq<T>, f: spec_fn(T) -> Seq<u8>, k: int)
    requires
        0 <= k < s.len(),
    ensures
        concat_map(s.take(k + 1), f) == concat_map(s.take(k), f) + f(s[k]),
{
    assert(s.take(k + 1).drop_last() =~= s.take(k));
    assert(s.take(k + 1).last() == s[k]);
}

/// A slice of a concatenation that lies inside its second part.
pub proof fn lemma_subrange_right(a: Seq<u8>, c: Seq<u8>, i: int, j: int)
    requires
        0 <= i <= j <= c.len(),
    ensures
        (a + c).subrange(a.len() + i, a.len() + j) == c.subrange(i, j),
{
    assert((a + c).subrange(a.len() + i, a.len() + j) =~= c.subrange(i, j));
}

/// A slice of a concatenation that lies inside its first part.
pub proof fn lemma_subrange_left(a: Seq<u8>, c: Seq<u8>, i: int, j: int)
    requires
        0 <= i <= j <= a.len(),
    ensures
        (a + c).subrange(i, j) == a.subrange(i, j),
{
    assert((a + c).subrange(i, j) =~= a.subrange(i, j));
}

/// A slice of a slice of `b` is a slice of `b`.
pub proof fn lemma_sub_sub(b: Seq<u8>, i: int, r: Seq<u8>, lo: int, hi: int)
    requires
        0 <= i,
        i + r.len() <= b.len(),
        b.subrange(i, i + r.len()) == r,
        0 <= lo <= hi <= r.len(),
    ensures
        b.subrange(i + lo, i + hi) == r.subrange(lo, hi),
{
    assert forall|j: int| 0 <= j < hi - lo implies #[trigger] b.subrange(i + lo, i + hi)[j]
        == r.subrange(lo, hi)[j] by {
        assert(b.subrange(i, i + r.len())[lo + j] == r[lo + j]);
    }
    assert(b.subrange(i + lo, i + hi) =~= r.subrange(lo, hi));
}

/// Appends the big-endian bytes of `x`.
pub fn push_u16(bytes: &mut Vec<u8>, x: u16)
    ensures
        final(bytes)@ == old(bytes)@ + be16(x),
{
    bytes.push((x / 256) as u8);
    bytes.push((x % 256) as u8);
}

/// Appends the big-endian bytes of `x`.
pub fn push_u32(bytes: &mut Vec<u8>, x: u32)
    ensures
        final(bytes)@ == old(bytes)@ + be32(x),
{
    let ghost b0 = bytes@;
    push_u16(bytes, (x / 65536) as u16);
    push_u16(bytes, (x % 65536) as u16);
    assert(bytes@ =~= b0 + be32(x));
}

/// Appends the big-endian bytes of `x`.
pub fn push_u64(bytes: &mut Vec<u8>, x: u64)
    ensures
        final(bytes)@ == old(bytes)@ + be64(x),
{
    let ghost b0 = bytes@;
    push_u32(bytes, (x / 0x1_0000_0000) as u32);
    push_u32(bytes, (x % 0x1_0000_0000) as u32);
    assert(bytes@ =~= b0 + be64(x));
}

/// Reads the big-endian `u16` at byte `i`.
pub fn read_u16(buf: &[u8], i: usize) -> (r: u16)
    requires
        i + 2 <= buf@.len(),
    ensures
        r == u16_at(buf@, i as int),
{
    let n = buf.len();
    buf[i] as u16 * 256 + buf[i + 1] as u16
}

/// Reads the big-endian `u32` at byte `i`.
pub fn read_u32(buf: &[u8], i: usize) -> (r: u32)
    requires
        i + 4 <= buf@.len(),
    ensures
        r == u32_at(buf@, i as int),
{
    let n = buf.len();
    let hi = read_u16(buf, i) as u32;
    let lo = read_u16(buf, i + 2) as u32;
    hi * 65536 + lo
}

/// Reads the big-endian `u64` at byte `i`.
pub fn read_u64(buf: &[u8], i: usize) -> (r: u64)
    requires
        i + 8 <= buf@.len(),
    ensures
        r == u64_at(buf@, i as int),
{
    let n = buf.len();
    let hi = read_u32(buf, i) as u64;
    let lo = read_u32(buf, i + 4) as u64;
    hi * 0x1_0000_0000 + lo
}

} // verus!
