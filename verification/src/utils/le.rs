//! Fixed-width little-endian integers, stated arithmetically.
//!
//! A byte string is read as a number in base 256 with the least significant
//! digit first. Signed 32-bit integers travel as their two's complement.

use vstd::prelude::*;

verus! {

/// The first `n` base-256 digits of `x`, least significant first.
pub open spec fn le_bytes(x: nat, n: nat) -> Seq<u8>
    decreases n,
{
    if n == 0 {
        Seq::empty()
    } else {
        seq![(x % 256) as u8] + le_bytes(x / 256, (n - 1) as nat)
    }
}

/// The number whose base-256 digits, least significant first, are `b`.
pub open spec fn le_value(b: Seq<u8>) -> nat
    decreases b.len(),
{
    if b.len() == 0 {
        0
    } else {
        b[0] as nat + 256 * le_value(b.drop_first())
    }
}

/// 256 to the power `n`.
pub open spec fn pow256(n: nat) -> nat
    decreases n,
{
    if n == 0 {
        1
    } else {
        256 * pow256((n - 1) as nat)
    }
}

/// The unsigned 32-bit number that carries `x` in two's complement.
pub open spec fn twos_complement(x: int) -> nat {
    if x >= 0 {
        x as nat
    } else {
        (x + 0x1_0000_0000) as nat
    }
}

/// The signed reading of an unsigned 32-bit number.
pub open spec fn from_twos_complement(n: nat) -> int {
    if n < 0x8000_0000 {
        n as int
    } else {
        n - 0x1_0000_0000
    }
}

pub proof fn lemma_pow256_values()
    ensures
        pow256(0) == 1,
        pow256(1) == 0x100,
        pow256(4) == 0x1_0000_0000,
        pow256(8) == 0x1_0000_0000_0000_0000,
{
    reveal_with_fuel(pow256, 9);
}

pub proof fn lemma_le_bytes_len(x: nat, n: nat)
    ensures
        le_bytes(x, n).len() == n,
    decreases n,
{
    if n > 0 {
        lemma_le_bytes_len(x / 256, (n - 1) as nat);
    }
}

/// Reading back the digits of a number that fits gives the number.
pub proof fn lemma_le_value_of_bytes(x: nat, n: nat)
    requires
        x < pow256(n),
    ensures
        le_value(le_bytes(x, n)) == x,
    decreases n,
{
    if n > 0 {
        let rest = le_bytes(x / 256, (n - 1) as nat);
        let all = le_bytes(x, n);
        lemma_le_bytes_len(x / 256, (n - 1) as nat);
        assert(all.drop_first() =~= rest);
        lemma_le_value_of_bytes(x / 256, (n - 1) as nat);
        assert(all[0] == (x % 256) as u8);
    }
}

/// A byte string reads as a number below 256 to the power of its length.
pub proof fn lemma_le_value_bound(b: Seq<u8>)
    ensures
        le_value(b) < pow256(b.len()),
    decreases b.len(),
{
    if b.len() > 0 {
        lemma_le_value_bound(b.drop_first());
    }
}

/// Writing the number that a byte string reads as gives the byte string.
pub proof fn lemma_le_bytes_of_value(b: Seq<u8>)
    ensures
        le_bytes(le_value(b), b.len()) == b,
    decreases b.len(),
{
    if b.len() > 0 {
        let tail = b.drop_first();
        lemma_le_bytes_of_value(tail);
        let x = le_value(b);
        assert(x % 256 == b[0] as nat);
        assert(x / 256 == le_value(tail));
        assert(le_bytes(x, b.len()) =~= b);
    } else {
        assert(le_bytes(le_value(b), b.len()) =~= b);
    }
}

/// Appends the four bytes of `x`.
pub fn push_u32(out: &mut Vec<u8>, x: u32)
    ensures
        final(out)@ == old(out)@ + le_bytes(x as nat, 4),
{
    let b0: u8 = (x % 256) as u8;
    let b1: u8 = ((x / 0x100) % 256) as u8;
    let b2: u8 = ((x / 0x1_0000) % 256) as u8;
    let b3: u8 = ((x / 0x100_0000) % 256) as u8;
    out.push(b0);
    out.push(b1);
    out.push(b2);
    out.push(b3);
    proof {
        reveal_with_fuel(le_bytes, 5);
        assert(final(out)@ =~= old(out)@ + le_bytes(x as nat, 4));
    }
}

/// Appends the eight bytes of `x`.
pub fn push_u64(out: &mut Vec<u8>, x: u64)
    ensures
        final(out)@ == old(out)@ + le_bytes(x as nat, 8),
{
    let ghost before = out@;
    let mut rest: u64 = x;
    let mut i: usize = 0;
    while i < 8
        invariant
            i <= 8,
            out@.len() == before.len() + i,
            out@ + le_bytes(rest as nat, (8 - i) as nat) == before + le_bytes(x as nat, 8),
        decreases 8 - i,
    {
        let ghost prev = out@;
        out.push((rest % 256) as u8);
        proof {
            let tail = le_bytes((rest / 256) as nat, (8 - i - 1) as nat);
            assert(le_bytes(rest as nat, (8 - i) as nat) == seq![(rest % 256) as u8] + tail);
            assert(out@ + tail =~= prev + (seq![(rest % 256) as u8] + tail));
        }
        rest = rest / 256;
        i = i + 1;
    }
    proof {
        assert(le_bytes(rest as nat, 0) =~= Seq::<u8>::empty());
        assert(out@ + Seq::<u8>::empty() =~= out@);
    }
}

/// Appends the four bytes of `x` in two's complement.
pub fn push_i32(out: &mut Vec<u8>, x: i32)
    ensures
        final(out)@ == old(out)@ + le_bytes(twos_complement(x as int), 4),
{
    let wide: i64 = x as i64;
    let raw: u32 = if x >= 0 {
        x as u32
    } else {
        (wide + 0x1_0000_0000) as u32
    };
    push_u32(out, raw);
}

/// Reads four bytes at `pos` as an unsigned number.
pub fn read_u32(b: &[u8], pos: usize) -> (x: u32)
    requires
        pos + 4 <= b@.len(),
    ensures
        x as nat == le_value(b@.subrange(pos as int, pos + 4)),
{
    let b0: u32 = b[pos] as u32;
    let b1: u32 = b[pos + 1] as u32;
    let b2: u32 = b[pos + 2] as u32;
    let b3: u32 = b[pos + 3] as u32;
    proof {
        let s = b@.subrange(pos as int, pos + 4);
        let s1 = s.drop_first();
        let s2 = s1.drop_first();
        let s3 = s2.drop_first();
        let s4 = s3.drop_first();
        assert(s4.len() == 0);
        assert(le_value(s4) == 0);
        assert(le_value(s3) == s3[0] as nat + 256 * le_value(s4));
        assert(le_value(s2) == s2[0] as nat + 256 * le_value(s3));
        assert(le_value(s1) == s1[0] as nat + 256 * le_value(s2));
        assert(le_value(s) == s[0] as nat + 256 * le_value(s1));
    }
    b0 + b1 * 0x100 + b2 * 0x1_0000 + b3 * 0x100_0000
}

/// Reads eight bytes at `pos` as an unsigned number.
pub fn read_u64(b: &[u8], pos: usize) -> (x: u64)
    requires
        pos + 8 <= b@.len(),
    ensures
        x as nat == le_value(b@.subrange(pos as int, pos + 8)),
{
    let total: usize = b.len();
    assert(pos + 8 <= total);
    let low: u64 = read_u32(b, pos) as u64;
    let high: u64 = read_u32(b, pos + 4) as u64;
    proof {
        let whole = b@.subrange(pos as int, pos + 8);
        assert(whole.subrange(0, 4) =~= b@.subrange(pos as int, pos + 4));
        assert(whole.subrange(4, 8) =~= b@.subrange(pos + 4, pos + 8));
        lemma_le_value_split(whole, 4);
        lemma_pow256_values();
    }
    low + high * 0x1_0000_0000
}

/// A byte string reads as its first `k` bytes plus the rest shifted by `k` digits.
pub proof fn lemma_le_value_split(b: Seq<u8>, k: nat)
    requires
        k <= b.len(),
    ensures
        le_value(b) == le_value(b.subrange(0, k as int)) + pow256(k) * le_value(
            b.subrange(k as int, b.len() as int),
        ),
    decreases k,
{
    if k == 0 {
        assert(b.subrange(0, b.len() as int) =~= b);
        assert(b.subrange(0, 0).len() == 0);
        assert(le_value(b.subrange(0, 0)) == 0);
        assert(pow256(0) == 1);
    } else {
        let tail = b.drop_first();
        lemma_le_value_split(tail, (k - 1) as nat);
        let head = b.subrange(0, k as int);
        let hi = le_value(b.subrange(k as int, b.len() as int));
        let p = pow256((k - 1) as nat);
        assert(head.drop_first() =~= tail.subrange(0, k - 1));
        assert(tail.subrange(k - 1, tail.len() as int) =~= b.subrange(k as int, b.len() as int));
        assert(head[0] == b[0]);
        assert(le_value(tail) == le_value(head.drop_first()) + p * hi);
        assert(le_value(b) == b[0] as nat + 256 * le_value(tail));
        assert(le_value(head) == head[0] as nat + 256 * le_value(head.drop_first()));
        assert(pow256(k) == 256 * p);
        assert(256 * (le_value(head.drop_first()) + p * hi) == 256 * le_value(head.drop_first())
            + (256 * p) * hi) by (nonlinear_arith);
    }
}

/// Reads four bytes at `pos` as a signed number in two's complement.
pub fn read_i32(b: &[u8], pos: usize) -> (x: i32)
    requires
        pos + 4 <= b@.len(),
    ensures
        x as int == from_twos_complement(le_value(b@.subrange(pos as int, pos + 4))),
{
    let raw: u32 = read_u32(b, pos);
    if raw < 0x8000_0000 {
        raw as i32
    } else {
        let wide: i64 = raw as i64;
        (wide - 0x1_0000_0000) as i32
    }
}

/// Appends the bytes of `b`.
pub fn append_bytes(out: &mut Vec<u8>, b: &[u8])
    ensures
        final(out)@ == old(out)@ + b@,
{
    let ghost before = out@;
    let total: usize = b.len();
    let mut i: usize = 0;
    while i < total
        invariant
            i <= total,
            total == b@.len(),
            out@ == before + b@.take(i as int),
        decreases total - i,
    {
        out.push(b[i]);
        i = i + 1;
        proof {
            assert(out@ =~= before + b@.take(i as int));
        }
    }
    proof {
        assert(b@.take(total as int) =~= b@);
    }
}

/// The bytes of `b` from `from` up to `to`.
pub fn copy_range(b: &[u8], from: usize, to: usize) -> (out: Vec<u8>)
    requires
        from <= to <= b@.len(),
    ensures
        out@ == b@.subrange(from as int, to as int),
{
    let mut out: Vec<u8> = Vec::new();
    let mut i: usize = from;
    while i < to
        invariant
            from <= i <= to,
            to <= b@.len(),
            out@ == b@.subrange(from as int, i as int),
        decreases to - i,
    {
        out.push(b[i]);
        i = i + 1;
        proof {
            assert(out@ =~= b@.subrange(from as int, i as int));
        }
    }
    out
}

} // verus!
