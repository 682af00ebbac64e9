//! Little-endian byte helpers shared by the envelope writer and readers.
use vstd::prelude::*;

verus! {

/// The unsigned 32-bit little-endian value stored at byte `i` of `b`.
pub open spec fn le32(b: Seq<u8>, i: int) -> int {
    b[i] as int + 256 * (b[i + 1] as int) + 65536 * (b[i + 2] as int) + 16777216 * (b[i + 3] as int)
}

/// The four little-endian bytes of `v`.
pub open spec fn le32_bytes(v: int) -> Seq<u8> {
    seq![
        (v % 256) as u8,
        ((v / 256) % 256) as u8,
        ((v / 65536) % 256) as u8,
        ((v / 16777216) % 256) as u8,
    ]
}

/// `n` zero bytes.
pub open spec fn zeros(n: nat) -> Seq<u8> {
    Seq::new(n, |i: int| 0u8)
}

/// Number of 8-byte words needed to hold `n` bytes.
pub open spec fn words_for(n: int) -> int {
    (n + 7) / 8
}

/// `b` followed by zero bytes up to the next multiple of eight.
pub open spec fn padded(b: Seq<u8>) -> Seq<u8> {
    b + zeros((8 * words_for(b.len() as int) - b.len()) as nat)
}

pub proof fn lemma_le32_bytes(v: int)
    requires
        0 <= v < 0x1_0000_0000,
    ensures
        le32(le32_bytes(v), 0) == v,
        le32_bytes(v).len() == 4,
{
    let b = le32_bytes(v);
    assert(b[0] as int == v % 256);
    assert(b[1] as int == (v / 256) % 256);
    assert(b[2] as int == (v / 65536) % 256);
    assert(b[3] as int == (v / 16777216) % 256);
    assert((v % 256) + 256 * ((v / 256) % 256) + 65536 * ((v / 65536) % 256) + 16777216 * ((
    v / 16777216) % 256) == v) by (nonlinear_arith)
        requires
            0 <= v < 0x1_0000_0000,
    ;
}

pub proof fn lemma_padded(b: Seq<u8>)
    ensures
        padded(b).len() == 8 * words_for(b.len() as int),
        padded(b).len() >= b.len(),
        padded(b).len() < b.len() + 8,
        padded(b).subrange(0, b.len() as int) == b,
{
    let n = b.len() as int;
    assert(8 * ((n + 7) / 8) >= n && 8 * ((n + 7) / 8) < n + 8) by (nonlinear_arith)
        requires
            n >= 0,
    ;
    assert(padded(b).subrange(0, n) =~= b);
}

/// Reads the 32-bit little-endian value at byte `i`.
pub fn read_u32(b: &[u8], i: usize) -> (r: u32)
    requires
        i + 4 <= b@.len(),
    ensures
        r == le32(b@, i as int),
{
    let r: u32 = b[i] as u32 + 256 * (b[i + 1] as u32) + 65536 * (b[i + 2] as u32) + 16777216 * (
    b[i + 3] as u32);
    r
}

/// Appends the four little-endian bytes of `v`.
pub fn push_u32(out: &mut Vec<u8>, v: u32)
    ensures
        final(out)@ == old(out)@ + le32_bytes(v as int),
{
    out.push((v % 256) as u8);
    out.push(((v / 256) % 256) as u8);
    out.push(((v / 65536) % 256) as u8);
    out.push(((v / 16777216) % 256) as u8);
    assert(final(out)@ =~= old(out)@ + le32_bytes(v as int));
}

/// Appends `b` and then zero bytes up to the next multiple of eight.
pub fn push_padded(out: &mut Vec<u8>, b: &[u8])
    requires
        b@.len() + 8 <= usize::MAX,
    ensures
        final(out)@ == old(out)@ + padded(b@),
{
    let ghost start = out@;
    let mut i: usize = 0;
    while i < b.len()
        invariant
            i <= b@.len(),
            out@ == start + b@.subrange(0, i as int),
        decreases b@.len() - i,
    {
        out.push(b[i]);
        assert(b@.subrange(0, i + 1) =~= b@.subrange(0, i as int).push(b@[i as int]));
        i = i + 1;
    }
    assert(b@.subrange(0, b@.len() as int) =~= b@);
    proof {
        lemma_padded(b@);
    }
    let target: usize = (b.len() + 7) / 8 * 8;
    let ghost mid = out@;
    while i < target
        invariant
            b@.len() <= i <= target,
            target == 8 * words_for(b@.len() as int),
            mid == start + b@,
            out@ == mid + zeros((i - b@.len()) as nat),
        decreases target - i,
    {
        out.push(0u8);
        assert(zeros((i + 1 - b@.len()) as nat) =~= zeros((i - b@.len()) as nat).push(0u8));
        i = i + 1;
    }
    assert(final(out)@ =~= old(out)@ + padded(b@));
}

} // verus!
