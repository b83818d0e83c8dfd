//! Verified byte-order primitives: little- and big-endian renderings of
//! unsigned integers, two's-complement representation of signed values, and
//! trusted access to the machine's native byte order.

use vstd::prelude::*;

verus! {

/// Little-endian bytes of `v`, `n` bytes long, least significant first.
pub open spec fn le_bytes(v: nat, n: nat) -> Seq<u8>
    decreases n,
{
    if n == 0 {
        Seq::empty()
    } else {
        seq![(v % 256) as u8] + le_bytes(v / 256, (n - 1) as nat)
    }
}

/// Big-endian bytes of `v`, `n` bytes long, most significant first.
pub open spec fn be_bytes(v: nat, n: nat) -> Seq<u8>
    decreases n,
{
    if n == 0 {
        Seq::empty()
    } else {
        be_bytes(v / 256, (n - 1) as nat) + seq![(v % 256) as u8]
    }
}

/// The two's-complement value of an `i64`, as the `u64` with the same bits.
pub open spec fn u64_of_i64(v: i64) -> nat {
    if v >= 0 {
        v as nat
    } else {
        (v + 0x10000000000000000) as nat
    }
}

/// Reinterpret an `i64` as the `u64` with the same two's-complement bits.
pub fn u64_rep(v: i64) -> (r: u64)
    ensures
        r as nat == u64_of_i64(v),
{
    if v >= 0 {
        v as u64
    } else {
        0xffffffffffffffffu64 - ((-(v + 1)) as u64)
    }
}

/// The little-endian rendering of `v` in `n` bytes.
pub fn le_bytes_vec(v: u64, n: usize) -> (r: Vec<u8>)
    ensures
        r@ == le_bytes(v as nat, n as nat),
{
    let mut r: Vec<u8> = Vec::new();
    let mut cur: u64 = v;
    let mut i: usize = 0;
    while i < n
        invariant
            i <= n,
            r@.len() == i,
            le_bytes(v as nat, n as nat) == r@ + le_bytes(cur as nat, (n - i) as nat),
        decreases n - i,
    {
        let b: u8 = (cur % 256) as u8;
        r.push(b);
        cur = cur / 256;
        i = i + 1;
        proof {
            assert(le_bytes(v as nat, n as nat) =~= r@ + le_bytes(cur as nat, (n - i) as nat));
        }
    }
    proof {
        assert(le_bytes(v as nat, n as nat) =~= r@);
    }
    r
}

/// The big-endian rendering of `v` in `n` bytes.
pub fn be_bytes_vec(v: u64, n: usize) -> (r: Vec<u8>)
    ensures
        r@ == be_bytes(v as nat, n as nat),
{
    let mut r: Vec<u8> = Vec::new();
    let mut cur: u64 = v;
    let mut i: usize = 0;
    while i < n
        invariant
            i <= n,
            r@.len() == i,
            be_bytes(v as nat, n as nat) == be_bytes(cur as nat, (n - i) as nat) + r@,
        decreases n - i,
    {
        let b: u8 = (cur % 256) as u8;
        r.insert(0, b);
        cur = cur / 256;
        i = i + 1;
        proof {
            assert(be_bytes(v as nat, n as nat) =~= be_bytes(cur as nat, (n - i) as nat) + r@);
        }
    }
    proof {
        assert(be_bytes(v as nat, n as nat) =~= r@);
    }
    r
}

/// A rendering in `n` bytes has length `n`.
pub proof fn lemma_bytes_len(v: nat, n: nat)
    ensures
        le_bytes(v, n).len() == n,
        be_bytes(v, n).len() == n,
    decreases n,
{
    if n > 0 {
        lemma_bytes_len(v / 256, (n - 1) as nat);
    }
}

/// A one-byte little-endian rendering is the low byte alone.
pub proof fn lemma_le_bytes_1(v: nat)
    ensures
        le_bytes(v, 1) == seq![(v % 256) as u8],
{
    assert(le_bytes(v / 256, 0) =~= Seq::<u8>::empty());
    assert(le_bytes(v, 1) =~= seq![(v % 256) as u8]);
}

/// The signed value of a 16-bit two's-complement pattern.
pub open spec fn signed16(u: int) -> int {
    if u < 0x8000 {
        u
    } else {
        u - 0x10000
    }
}

/// Read a `u16` bit pattern as a signed 16-bit value.
pub fn signed16_of(u: u16) -> (r: i64)
    ensures
        r as int == signed16(u as int),
{
    if u < 0x8000 {
        u as i64
    } else {
        (u as i64) - 0x10000
    }
}

/// Relies on `u64::to_ne_bytes`: the native byte order is either little or big
/// endian.
#[verifier::external_body]
pub fn u64_ne_bytes_vec(v: u64) -> (r: Vec<u8>)
    ensures
        r@ == le_bytes(v as nat, 8) || r@ == be_bytes(v as nat, 8),
{
    v.to_ne_bytes().to_vec()
}

/// Relies on `u16::from_ne_bytes`: the native byte order is either little or
/// big endian.
#[verifier::external_body]
pub fn u16_from_ne(b0: u8, b1: u8) -> (r: u16)
    ensures
        r as int == b0 + 256 * b1 || r as int == b1 + 256 * b0,
{
    u16::from_ne_bytes([b0, b1])
}

} // verus!
