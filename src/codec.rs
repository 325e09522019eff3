//! Building blocks of the byte encodings: fixed-size chunks and 8-byte
//! little-endian integers.
use vstd::prelude::*;

verus! {

/// The 8-byte little-endian encoding of `v`.
pub open spec fn u64_le(v: u64) -> Seq<u8> {
    Seq::new(8, |i: int| (v >> (8 * i) as u64) as u8)
}

/// The value of 8 little-endian bytes.
pub open spec fn le_u64(b: Seq<u8>) -> u64 {
    b[0] as u64 | (b[1] as u64) << 8u64 | (b[2] as u64) << 16u64 | (b[3] as u64) << 24u64 | (
    b[4] as u64) << 32u64 | (b[5] as u64) << 40u64 | (b[6] as u64) << 48u64 | (b[7] as u64) << 56u64
}

/// Reading back the encoding of an integer gives the integer, and an integer
/// is the only one with its encoding.
pub proof fn lemma_u64_le(v: u64, b: Seq<u8>)
    ensures
        le_u64(u64_le(v)) == v,
        b.len() == 8 ==> u64_le(le_u64(b)) == b,
{
    let e = u64_le(v);
    let (e0, e1, e2, e3) = (e[0], e[1], e[2], e[3]);
    let (e4, e5, e6, e7) = (e[4], e[5], e[6], e[7]);
    assert(e0 == (v >> 0u64) as u8 && e1 == (v >> 8u64) as u8 && e2 == (v >> 16u64) as u8 && e3 == (
    v >> 24u64) as u8);
    assert(e4 == (v >> 32u64) as u8 && e5 == (v >> 40u64) as u8 && e6 == (v >> 48u64) as u8 && e7 == (
    v >> 56u64) as u8);
    assert(e0 as u64 | (e1 as u64) << 8u64 | (e2 as u64) << 16u64 | (e3 as u64) << 24u64 | (e4 as u64)
        << 32u64 | (e5 as u64) << 40u64 | (e6 as u64) << 48u64 | (e7 as u64) << 56u64 == v)
        by (bit_vector)
        requires
            e0 == (v >> 0u64) as u8,
            e1 == (v >> 8u64) as u8,
            e2 == (v >> 16u64) as u8,
            e3 == (v >> 24u64) as u8,
            e4 == (v >> 32u64) as u8,
            e5 == (v >> 40u64) as u8,
            e6 == (v >> 48u64) as u8,
            e7 == (v >> 56u64) as u8,
    ;
    if b.len() == 8 {
        let w = le_u64(b);
        let (b0, b1, b2, b3) = (b[0], b[1], b[2], b[3]);
        let (b4, b5, b6, b7) = (b[4], b[5], b[6], b[7]);
        assert((w >> 0u64) as u8 == b0 && (w >> 8u64) as u8 == b1 && (w >> 16u64) as u8 == b2 && (w
            >> 24u64) as u8 == b3 && (w >> 32u64) as u8 == b4 && (w >> 40u64) as u8 == b5 && (w
            >> 48u64) as u8 == b6 && (w >> 56u64) as u8 == b7) by (bit_vector)
            requires
                w == b0 as u64 | (b1 as u64) << 8u64 | (b2 as u64) << 16u64 | (b3 as u64) << 24u64 | (
                b4 as u64) << 32u64 | (b5 as u64) << 40u64 | (b6 as u64) << 48u64 | (b7 as u64)
                    << 56u64,
        ;
        assert(u64_le(w) =~= b);
    }
}

/// Appends the 8-byte little-endian encoding of `v`.
pub fn put_u64(out: &mut Vec<u8>, v: u64)
    ensures
        final(out)@ == old(out)@ + u64_le(v),
{
    let mut i: u64 = 0;
    let ghost start = out@;
    while i < 8
        invariant
            i <= 8,
            out@ == start + u64_le(v).subrange(0, i as int),
        decreases 8 - i,
    {
        out.push((v >> (8 * i)) as u8);
        assert(u64_le(v).subrange(0, i + 1) =~= u64_le(v).subrange(0, i as int).push(
            (v >> (8 * i)) as u8,
        ));
        i = i + 1;
    }
    assert(u64_le(v).subrange(0, 8) =~= u64_le(v));
}

/// Reads 8 little-endian bytes at `pos`.
pub fn get_u64(b: &Vec<u8>, pos: usize) -> (r: u64)
    requires
        pos + 8 <= b@.len(),
    ensures
        r == le_u64(b@.subrange(pos as int, pos + 8)),
{
    let s = take(b, pos, 8);
    let r = s[0] as u64 | (s[1] as u64) << 8u64 | (s[2] as u64) << 16u64 | (s[3] as u64) << 24u64
        | (s[4] as u64) << 32u64 | (s[5] as u64) << 40u64 | (s[6] as u64) << 48u64 | (s[7] as u64)
        << 56u64;
    r
}

/// The `len` bytes of `b` from `start`.
pub fn take(b: &Vec<u8>, start: usize, len: usize) -> (r: Vec<u8>)
    requires
        start + len <= b@.len(),
    ensures
        r@ == b@.subrange(start as int, start + len),
{
    let mut r: Vec<u8> = Vec::new();
    let bl = b.len();
    let mut i: usize = 0;
    while i < len
        invariant
            bl == b@.len(),
            start + len <= b@.len(),
            i <= len,
            r@ == b@.subrange(start as int, start + i),
        decreases len - i,
    {
        r.push(b[start + i]);
        assert(b@.subrange(start as int, start + i + 1) =~= b@.subrange(start as int, start + i).push(
            b@[start + i],
        ));
        i = i + 1;
    }
    r
}

/// The concatenation of byte strings, in order.
pub open spec fn flat(s: Seq<Seq<u8>>) -> Seq<u8>
    decreases s.len(),
{
    if s.len() == 0 {
        seq![]
    } else {
        flat(s.drop_last()) + s.last()
    }
}

/// A sequence of byte strings prefixed with its count in 8 little-endian
/// bytes.
pub open spec fn vec_encoding(s: Seq<Seq<u8>>) -> Seq<u8> {
    u64_le(s.len() as u64) + flat(s)
}

/// Whether every element of `s` is `w` bytes long.
pub open spec fn all_width(s: Seq<Seq<u8>>, w: nat) -> bool {
    forall|i: int| 0 <= i < s.len() ==> (#[trigger] s[i]).len() == w
}

/// The elements of a sequence of `w`-byte strings sit at multiples of `w` in
/// its concatenation.
pub proof fn lemma_flat_chunks(s: Seq<Seq<u8>>, w: nat)
    requires
        all_width(s, w),
    ensures
        flat(s).len() == w * s.len(),
        forall|i: int| 0 <= i < s.len() ==> #[trigger] flat(s).subrange(w * i, w * i + w) == s[i],
    decreases s.len(),
{
    if s.len() > 0 {
        let p = s.drop_last();
        lemma_flat_chunks(p, w);
        assert(flat(s) == flat(p) + s.last());
        assert(w * s.len() == w * p.len() + w) by (nonlinear_arith)
            requires
                s.len() == p.len() + 1,
        ;
        assert forall|i: int| 0 <= i < s.len() implies #[trigger] flat(s).subrange(w * i, w * i + w)
            == s[i] by {
            if i < p.len() {
                assert(w * i + w <= w * p.len()) by (nonlinear_arith)
                    requires
                        i < p.len(),
                ;
                assert(flat(s).subrange(w * i, w * i + w) =~= flat(p).subrange(w * i, w * i + w));
            } else {
                assert(w * i == w * p.len());
                assert(flat(s).subrange(w * i, w * i + w) =~= s.last());
            }
        }
    }
}

/// Two sequences of `w`-byte strings with the same concatenation and count
/// are equal.
pub proof fn lemma_flat_injective(a: Seq<Seq<u8>>, b: Seq<Seq<u8>>, w: nat)
    requires
        all_width(a, w),
        all_width(b, w),
        a.len() == b.len(),
        flat(a) == flat(b),
    ensures
        a == b,
{
    lemma_flat_chunks(a, w);
    lemma_flat_chunks(b, w);
    assert forall|i: int| 0 <= i < a.len() implies a[i] == b[i] by {
        assert(flat(a).subrange(w * i, w * i + w) == a[i]);
        assert(flat(b).subrange(w * i, w * i + w) == b[i]);
    }
    assert(a =~= b);
}

} // verus!
