//! Base-128 varints: seven bits per byte, least significant group first, the
//! high bit set on every byte but the last. A varint has at most ten bytes,
//! and the tenth may only be 0 or 1, so that it fits in 64 bits.
use vstd::prelude::*;

verus! {

/// The encoding of `v`.
pub open spec fn varint_bytes(v: nat) -> Seq<u8>
    decreases v,
{
    if v < 128 {
        seq![v as u8]
    } else {
        seq![(v % 128 + 128) as u8] + varint_bytes(v / 128)
    }
}

/// The value of the varint at the start of `b` and its length in bytes,
/// reading at most `n` bytes.
pub open spec fn varint_at(b: Seq<u8>, n: int) -> Option<(nat, nat)>
    decreases n,
{
    if n <= 0 || b.len() == 0 {
        None
    } else if n == 1 && b[0] > 1 {
        None
    } else if b[0] < 128 {
        Some((b[0] as nat, 1))
    } else {
        match varint_at(b.drop_first(), n - 1) {
            Some((v, l)) => Some(((b[0] - 128) as nat + 128 * v, l + 1)),
            None => None,
        }
    }
}

pub open spec fn pow128(k: nat) -> nat
    decreases k,
{
    if k == 0 {
        1
    } else {
        128 * pow128((k - 1) as nat)
    }
}

/// A value below `2 * 128^(n-1)` is read back from its encoding, whatever follows.
pub proof fn lemma_varint_round_trip(v: nat, rest: Seq<u8>, n: int)
    requires
        n >= 1,
        v < 2 * pow128((n - 1) as nat),
    ensures
        varint_at(varint_bytes(v) + rest, n) == Some((v, varint_bytes(v).len())),
        varint_bytes(v).len() >= 1,
    decreases v,
{
    let b = varint_bytes(v) + rest;
    if v < 128 {
        assert(b[0] == v as u8);
        if n == 1 {
            assert(v < 2);
        }
    } else {
        if n == 1 {
            assert(pow128(0) == 1);
            assert(false);
        }
        assert(pow128((n - 1) as nat) == 128 * pow128((n - 2) as nat));
        assert(v / 128 < 2 * pow128((n - 2) as nat)) by (nonlinear_arith)
            requires
                v < 2 * (128 * pow128((n - 2) as nat)),
        ;
        lemma_varint_round_trip(v / 128, rest, n - 1);
        assert(b.drop_first() =~= varint_bytes(v / 128) + rest);
        assert(b[0] == (v % 128 + 128) as u8);
        assert((v % 128) + 128 * (v / 128) == v);
    }
}

pub proof fn lemma_pow128_bound(k: nat)
    ensures
        pow128(k) >= 1,
    decreases k,
{
    if k > 0 {
        lemma_pow128_bound((k - 1) as nat);
    }
}

pub proof fn lemma_pow128_mono(a: nat, b: nat)
    requires
        a <= b,
    ensures
        pow128(a) <= pow128(b),
    decreases b - a,
{
    if a < b {
        lemma_pow128_mono(a, (b - 1) as nat);
        lemma_pow128_bound((b - 1) as nat);
    }
}

/// Powers of 128 up to the ninth.
pub proof fn lemma_pow128_table()
    ensures
        pow128(0) == 1,
        pow128(1) == 0x80,
        pow128(2) == 0x4000,
        pow128(3) == 0x20_0000,
        pow128(4) == 0x1000_0000,
        pow128(5) == 0x8_0000_0000,
        pow128(6) == 0x400_0000_0000,
        pow128(7) == 0x2_0000_0000_0000,
        pow128(8) == 0x100_0000_0000_0000,
        pow128(9) == 0x8000_0000_0000_0000,
{
    reveal_with_fuel(pow128, 10);
}

/// Every 64-bit value fits the ten-byte limit.
pub proof fn lemma_u64_fits(v: u64)
    ensures
        (v as nat) < 2 * pow128(9),
{
    lemma_pow128_table();
}

proof fn lemma_regroup(acc: int, mult: int, b: int, v: int)
    ensures
        acc + mult * (b + 128 * v) == (acc + mult * b) + (mult * 128) * v,
{
    assert(acc + mult * (b + 128 * v) == (acc + mult * b) + (mult * 128) * v) by (nonlinear_arith);
}

proof fn lemma_group_bound(acc: int, mult: int, b: int)
    requires
        0 <= acc < mult,
        0 <= b < 128,
    ensures
        acc + mult * b < mult * 128,
        0 <= mult * b,
{
    assert(acc + mult * b < mult * 128 && 0 <= mult * b) by (nonlinear_arith)
        requires
            0 <= acc < mult,
            0 <= b < 128,
    ;
}

/// Appends the encoding of `v`.
pub fn push_varint(out: &mut Vec<u8>, v: u64)
    ensures
        final(out)@ == old(out)@ + varint_bytes(v as nat),
    decreases v,
{
    if v < 128 {
        out.push(v as u8);
        assert(final(out)@ =~= old(out)@ + varint_bytes(v as nat));
    } else {
        out.push((v % 128 + 128) as u8);
        push_varint(out, v / 128);
        assert(final(out)@ =~= old(out)@ + varint_bytes(v as nat));
    }
}

/// The result of reading the rest of a varint after `k` bytes that gave
/// `acc`, with `mult` the weight of the next byte.
pub open spec fn resume(acc: int, mult: int, k: int, o: Option<(nat, nat)>) -> Option<(nat, nat)> {
    match o {
        Some((v, l)) => Some(((acc + mult * v) as nat, (l + k) as nat)),
        None => None,
    }
}

/// Reads the varint at byte `i` of `b`: its value and the position after it.
pub fn read_varint(b: &[u8], i: usize) -> (r: Option<(u64, usize)>)
    requires
        i <= b@.len(),
    ensures
        match varint_at(b@.subrange(i as int, b@.len() as int), 10) {
            Some((v, l)) => r == Some((v as u64, (i + l) as usize)) && i + l <= b@.len() && v
                < 0x1_0000_0000_0000_0000,
            None => r is None,
        },
        r matches Some((_, j)) ==> i < j <= b@.len(),
{
    proof {
        lemma_pow128_table();
    }
    let len = b.len();
    let ghost full = b@.subrange(i as int, b@.len() as int);
    let mut k: usize = 0;
    let mut acc: u64 = 0;
    let mut mult: u64 = 1;
    assert(full.subrange(0, full.len() as int) =~= full);
    loop
        invariant
            k <= 9,
            i <= len == b@.len(),
            i + k <= len,
            full == b@.subrange(i as int, b@.len() as int),
            mult == pow128(k as nat),
            pow128(9) == 0x8000_0000_0000_0000,
            k <= 8 ==> mult <= 0x100_0000_0000_0000,
            k == 9 ==> mult == 0x8000_0000_0000_0000,
            acc < mult,
            varint_at(full, 10) == resume(
                acc as int,
                mult as int,
                k as int,
                varint_at(full.subrange(k as int, full.len() as int), 10 - k),
            ),
        decreases 10 - k,
    {
        let ghost tail = full.subrange(k as int, full.len() as int);
        if i + k >= len {
            assert(tail.len() == 0);
            return None;
        }
        let byte = b[i + k];
        assert(tail[0] == byte);
        if k == 9 && byte > 1 {
            return None;
        }
        proof {
            lemma_group_bound(acc as int, mult as int, (byte % 128) as int);
        }
        if byte < 128 {
            assert(varint_at(tail, 10 - k) == Some((byte as nat, 1nat)));
            assert(mult * (byte as int) <= 0x8000_0000_0000_0000) by (nonlinear_arith)
                requires
                    k <= 8 ==> mult <= 0x100_0000_0000_0000,
                    k == 9 ==> mult == 0x8000_0000_0000_0000 && byte <= 1,
                    k <= 9,
                    byte < 128,
            ;
            let v = acc + mult * (byte as u64);
            return Some((v, i + k + 1));
        }
        assert(k <= 8);
        proof {
            assert(tail.drop_first() =~= full.subrange(k + 1, full.len() as int));
            match varint_at(tail.drop_first(), 9 - k) {
                Some((v, l)) => {
                    lemma_regroup(acc as int, mult as int, byte - 128, v as int);
                },
                None => {},
            }
            assert(pow128((k + 1) as nat) == 128 * pow128(k as nat));
            if k + 1 <= 8 {
                lemma_pow128_mono((k + 1) as nat, 8);
            }
        }
        acc = acc + mult * ((byte - 128) as u64);
        mult = mult * 128;
        k = k + 1;
    }
}

} // verus!
