//! Little-endian byte encodings.
//!
//! Every numeric field of the output image — immediates embedded in machine
//! code, branch displacements, ELF header fields — is stored little-endian.
//! The spec side is [`le_bytes`] (encoding) and [`le_val`] (decoding); the
//! exec side is [`push_le_bytes`], which appends an encoding to a byte buffer.

use vstd::prelude::*;

verus! {

/// `256^n`, the number of values an `n`-byte field can hold.
pub open spec fn pow256(n: nat) -> int
    decreases n,
{
    if n == 0 {
        1
    } else {
        256 * pow256((n - 1) as nat)
    }
}

/// The `n` little-endian bytes of `x` (higher bytes of `x` are dropped).
pub open spec fn le_bytes(x: int, n: nat) -> Seq<u8>
    decreases n,
{
    if n == 0 {
        Seq::empty()
    } else {
        seq![(x % 256) as u8] + le_bytes(x / 256, (n - 1) as nat)
    }
}

/// The value stored by a little-endian byte string.
pub open spec fn le_val(b: Seq<u8>) -> int
    decreases b.len(),
{
    if b.len() == 0 {
        0
    } else {
        b[0] + 256 * le_val(b.drop_first())
    }
}

/// Two little-endian bytes of a 16-bit field.
pub open spec fn u16_le(x: int) -> Seq<u8> {
    le_bytes(x, 2)
}

/// Four little-endian bytes of a 32-bit field.
pub open spec fn u32_le(x: int) -> Seq<u8> {
    le_bytes(x, 4)
}

/// Eight little-endian bytes of a 64-bit field.
pub open spec fn u64_le(x: int) -> Seq<u8> {
    le_bytes(x, 8)
}

/// The two's-complement encoding of a signed 32-bit value.
pub open spec fn i32_le(d: int) -> Seq<u8> {
    u32_le(if d < 0 {
        d + 0x1_0000_0000
    } else {
        d
    })
}

/// The signed 32-bit value stored by a 4-byte little-endian string.
pub open spec fn decode_i32(b: Seq<u8>) -> int {
    if le_val(b) >= 0x8000_0000 {
        le_val(b) - 0x1_0000_0000
    } else {
        le_val(b)
    }
}

pub proof fn lemma_le_bytes_len(x: int, n: nat)
    ensures
        le_bytes(x, n).len() == n,
    decreases n,
{
    if n > 0 {
        lemma_le_bytes_len(x / 256, (n - 1) as nat);
    }
}

pub proof fn lemma_pow256_pos(n: nat)
    ensures
        pow256(n) >= 1,
    decreases n,
{
    if n > 0 {
        lemma_pow256_pos((n - 1) as nat);
    }
}

/// Decoding inverts encoding for values that fit in `n` bytes.
pub proof fn lemma_le_val_le_bytes(x: int, n: nat)
    requires
        0 <= x < pow256(n),
    ensures
        le_val(le_bytes(x, n)) == x,
    decreases n,
{
    if n == 0 {
    } else {
        let m = (n - 1) as nat;
        lemma_pow256_pos(m);
        assert(0 <= x / 256 && x / 256 < pow256(m)) by (nonlinear_arith)
            requires
                0 <= x,
                x < 256 * pow256(m),
                pow256(m) >= 1,
        {}
        lemma_le_val_le_bytes(x / 256, m);
        let b = le_bytes(x, n);
        assert(b.drop_first() =~= le_bytes(x / 256, m));
        assert(x % 256 + 256 * (x / 256) == x) by (nonlinear_arith);
    }
}

/// A signed 32-bit displacement survives the encode/decode round trip.
pub proof fn lemma_decode_i32_le(d: int)
    requires
        -0x8000_0000 <= d < 0x8000_0000,
    ensures
        i32_le(d).len() == 4,
        decode_i32(i32_le(d)) == d,
{
    let u = if d < 0 {
        d + 0x1_0000_0000
    } else {
        d
    };
    lemma_le_bytes_len(u, 4);
    assert(pow256(4) == 0x1_0000_0000) by {
        reveal_with_fuel(pow256, 5);
    }
    lemma_le_val_le_bytes(u, 4);
}

/// The fixed-width encodings have their stated widths, whatever the value.
pub proof fn lemma_le_widths()
    ensures
        forall|x: int| (#[trigger] u16_le(x)).len() == 2,
        forall|x: int| (#[trigger] u32_le(x)).len() == 4,
        forall|x: int| (#[trigger] u64_le(x)).len() == 8,
        forall|d: int| (#[trigger] i32_le(d)).len() == 4,
{
    assert forall|x: int| (#[trigger] u16_le(x)).len() == 2 by {
        lemma_le_bytes_len(x, 2);
    }
    assert forall|x: int| (#[trigger] u32_le(x)).len() == 4 by {
        lemma_le_bytes_len(x, 4);
    }
    assert forall|x: int| (#[trigger] u64_le(x)).len() == 8 by {
        lemma_le_bytes_len(x, 8);
    }
    assert forall|d: int| (#[trigger] i32_le(d)).len() == 4 by {
        lemma_le_bytes_len(
            if d < 0 {
                d + 0x1_0000_0000
            } else {
                d
            },
            4,
        );
    }
}

/// Appends the `n` little-endian bytes of `x` to `out`.
pub fn push_le_bytes(out: &mut Vec<u8>, x: u64, n: usize)
    ensures
        final(out)@ == old(out)@ + le_bytes(x as int, n as nat),
{
    let ghost orig = out@;
    let mut v: u64 = x;
    let mut i: usize = 0;
    while i < n
        invariant
            i <= n,
            out@.len() == orig.len() + i,
            orig + le_bytes(x as int, n as nat) =~= out@ + le_bytes(v as int, (n - i) as nat),
        decreases n - i,
    {
        let b: u8 = (v % 256) as u8;
        out.push(b);
        proof {
            lemma_le_bytes_len(x as int, n as nat);
            lemma_le_bytes_len(v as int / 256, (n - i - 1) as nat);
            assert(le_bytes(v as int, (n - i) as nat) == seq![(v as int % 256) as u8]
                + le_bytes(v as int / 256, (n - i - 1) as nat));
            assert(b == (v as int % 256) as u8);
        }
        v = v / 256;
        i = i + 1;
        proof {
            assert(orig + le_bytes(x as int, n as nat) =~= out@
                + le_bytes(v as int, (n - i) as nat));
        }
    }
    proof {
        assert(out@ + le_bytes(v as int, 0nat) =~= out@);
    }
}

/// Overwrites the 4 bytes at `at` with the little-endian encoding of `x`,
/// leaving every other byte in place.
pub fn write_u32_le_at(code: &mut Vec<u8>, at: usize, x: u32)
    requires
        at + 4 <= old(code)@.len(),
    ensures
        final(code)@.len() == old(code)@.len(),
        final(code)@.subrange(at as int, at as int + 4) == u32_le(x as int),
        forall|i: int|
            0 <= i < old(code)@.len() && !(at <= i < at + 4) ==> final(code)@[i] == old(
                code,
            )@[i],
{
    let n = code.len();
    let b0: u8 = (x % 256) as u8;
    let b1: u8 = ((x / 256) % 256) as u8;
    let b2: u8 = ((x / 65536) % 256) as u8;
    let b3: u8 = ((x / 16777216) % 256) as u8;
    code[at] = b0;
    code[at + 1] = b1;
    code[at + 2] = b2;
    code[at + 3] = b3;
    proof {
        reveal_with_fuel(le_bytes, 5);
        let v = x as int;
        assert(u32_le(v) == seq![(v % 256) as u8] + (seq![(v / 256 % 256) as u8] + (seq![
            (v / 256 / 256 % 256) as u8,
        ] + (seq![(v / 256 / 256 / 256 % 256) as u8] + Seq::<u8>::empty()))));
        assert(v / 256 / 256 == v / 65536) by (nonlinear_arith);
        assert(v / 256 / 256 / 256 == v / 16777216) by (nonlinear_arith)
            requires
                v >= 0,
        {}
        assert(final(code)@.subrange(at as int, at as int + 4) =~= u32_le(v));
    }
}

} // verus!
