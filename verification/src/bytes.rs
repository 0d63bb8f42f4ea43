//! Integers as bytes: little-endian fields of any width, and the big-endian length prefix of a
//! frame.

use vstd::prelude::*;

verus! {

/// The number of values that `n` bytes can hold.
pub open spec fn pow256(n: nat) -> nat
    decreases n,
{
    if n == 0 {
        1
    } else {
        256 * pow256((n - 1) as nat)
    }
}

/// `x` in `n` bytes, least significant first; what does not fit is cut off at the top.
pub open spec fn le_bytes(x: nat, n: nat) -> Seq<u8>
    decreases n,
{
    if n == 0 {
        Seq::empty()
    } else {
        seq![(x % 256) as u8] + le_bytes(x / 256, (n - 1) as nat)
    }
}

/// The number whose bytes are `s`, least significant first.
pub open spec fn le_value(s: Seq<u8>) -> nat
    decreases s.len(),
{
    if s.len() == 0 {
        0
    } else {
        s[0] as nat + 256 * le_value(s.drop_first())
    }
}

/// `x` in two bytes, most significant first.
pub open spec fn be16(x: u16) -> Seq<u8> {
    seq![(x / 256) as u8, (x % 256) as u8]
}

/// A field of `n` bytes is `n` bytes long.
pub proof fn lemma_le_bytes_len(x: nat, n: nat)
    ensures
        le_bytes(x, n).len() == n,
    decreases n,
{
    if n > 0 {
        lemma_le_bytes_len(x / 256, (n - 1) as nat);
    }
}

/// Reading back a field gives the number that was written, if it fits.
pub proof fn lemma_le_value_of_bytes(x: nat, n: nat)
    requires
        x < pow256(n),
    ensures
        le_value(le_bytes(x, n)) == x,
    decreases n,
{
    lemma_le_bytes_len(x, n);
    if n > 0 {
        lemma_le_value_of_bytes(x / 256, (n - 1) as nat);
        assert(le_bytes(x, n).drop_first() =~= le_bytes(x / 256, (n - 1) as nat));
    }
}

/// Writing the number that a field holds gives the field back.
pub proof fn lemma_le_bytes_of_value(s: Seq<u8>)
    ensures
        le_bytes(le_value(s), s.len()) == s,
        le_value(s) < pow256(s.len()),
    decreases s.len(),
{
    if s.len() > 0 {
        let rest = s.drop_first();
        lemma_le_bytes_of_value(rest);
        let v = le_value(s);
        assert(v % 256 == s[0] && v / 256 == le_value(rest));
        assert(le_bytes(v, s.len()) =~= s);
    }
}

/// A wide field is the field of its low part followed by the field of its high part.
proof fn lemma_le_bytes_split(low: nat, high: nat, a: nat, b: nat)
    requires
        low < pow256(a),
    ensures
        le_bytes(low + pow256(a) * high, a + b) == le_bytes(low, a) + le_bytes(high, b),
    decreases a,
{
    if a == 0 {
        assert(le_bytes(low, a) + le_bytes(high, b) =~= le_bytes(high, b));
    } else {
        let a1 = (a - 1) as nat;
        let m = pow256(a1) * high;
        let x = low + pow256(a) * high;
        assert(pow256(a) * high == 256 * m) by (nonlinear_arith)
            requires
                pow256(a) == 256 * pow256(a1),
                m == pow256(a1) * high,
        ;
        assert(x % 256 == low % 256 && x / 256 == low / 256 + m);
        lemma_le_bytes_split(low / 256, high, a1, b);
        assert((a + b - 1) as nat == a1 + b);
        assert(le_bytes(x, a + b) =~= le_bytes(low, a) + le_bytes(high, b));
    }
}

/// The sizes of the widths in use.
pub proof fn lemma_pow256_values()
    ensures
        pow256(1) == 0x100,
        pow256(2) == 0x1_0000,
        pow256(4) == 0x1_0000_0000,
        pow256(8) == 0x1_0000_0000_0000_0000,
{
    reveal_with_fuel(pow256, 9);
}

/// `x` in two bytes, least significant first.
pub fn u16_to_le(x: u16) -> (b: [u8; 2])
    ensures
        b@ == le_bytes(x as nat, 2),
{
    let b: [u8; 2] = [(x % 256) as u8, (x / 256) as u8];
    proof {
        reveal_with_fuel(le_bytes, 3);
        assert(b@ =~= le_bytes(x as nat, 2));
    }
    b
}

/// `x` in four bytes, least significant first.
pub fn u32_to_le(x: u32) -> (b: [u8; 4])
    ensures
        b@ == le_bytes(x as nat, 4),
{
    let low = u16_to_le((x % 0x1_0000) as u16);
    let high = u16_to_le((x / 0x1_0000) as u16);
    let b: [u8; 4] = [low[0], low[1], high[0], high[1]];
    proof {
        lemma_pow256_values();
        lemma_le_bytes_split((x % 0x1_0000) as nat, (x / 0x1_0000) as nat, 2, 2);
        assert(b@ =~= low@ + high@);
    }
    b
}

/// Appends `x` in two bytes, least significant first.
pub fn push_u16_le(out: &mut Vec<u8>, x: u16)
    ensures
        final(out)@ == old(out)@ + le_bytes(x as nat, 2),
{
    out.push((x % 256) as u8);
    out.push((x / 256) as u8);
    proof {
        reveal_with_fuel(le_bytes, 3);
        assert(out@ =~= old(out)@ + le_bytes(x as nat, 2));
    }
}

/// Appends `x` in four bytes, least significant first.
pub fn push_u32_le(out: &mut Vec<u8>, x: u32)
    ensures
        final(out)@ == old(out)@ + le_bytes(x as nat, 4),
{
    push_u16_le(out, (x % 0x1_0000) as u16);
    push_u16_le(out, (x / 0x1_0000) as u16);
    proof {
        lemma_pow256_values();
        lemma_le_bytes_split((x % 0x1_0000) as nat, (x / 0x1_0000) as nat, 2, 2);
        assert(out@ =~= old(out)@ + le_bytes(x as nat, 4));
    }
}

/// Appends `x` in eight bytes, least significant first.
pub fn push_u64_le(out: &mut Vec<u8>, x: u64)
    ensures
        final(out)@ == old(out)@ + le_bytes(x as nat, 8),
{
    push_u32_le(out, (x % 0x1_0000_0000) as u32);
    push_u32_le(out, (x / 0x1_0000_0000) as u32);
    proof {
        lemma_pow256_values();
        lemma_le_bytes_split((x % 0x1_0000_0000) as nat, (x / 0x1_0000_0000) as nat, 4, 4);
        assert(out@ =~= old(out)@ + le_bytes(x as nat, 8));
    }
}

/// The number in a field of two bytes.
pub fn u16_from_le(b: &[u8]) -> (x: u16)
    requires
        b@.len() == 2,
    ensures
        x == le_value(b@),
{
    proof {
        reveal_with_fuel(le_value, 3);
    }
    b[0] as u16 + 256 * (b[1] as u16)
}

/// The number in a field of four bytes.
pub fn u32_from_le(b: &[u8]) -> (x: u32)
    requires
        b@.len() == 4,
    ensures
        x == le_value(b@),
{
    proof {
        reveal_with_fuel(le_value, 5);
    }
    b[0] as u32 + 0x100 * (b[1] as u32) + 0x1_0000 * (b[2] as u32) + 0x100_0000 * (b[3] as u32)
}

/// The number in a field of eight bytes.
pub fn u64_from_le(b: &[u8]) -> (x: u64)
    requires
        b@.len() == 8,
    ensures
        x == le_value(b@),
{
    proof {
        reveal_with_fuel(le_value, 9);
    }
    let low: u64 = b[0] as u64 + 0x100 * (b[1] as u64) + 0x1_0000 * (b[2] as u64) + 0x100_0000 * (
    b[3] as u64);
    let high: u64 = b[4] as u64 + 0x100 * (b[5] as u64) + 0x1_0000 * (b[6] as u64) + 0x100_0000 * (
    b[7] as u64);
    low + 0x1_0000_0000 * high
}

/// Appends `x` in two bytes, most significant first.
pub fn push_u16_be(out: &mut Vec<u8>, x: u16)
    ensures
        final(out)@ == old(out)@ + be16(x),
{
    out.push((x / 256) as u8);
    out.push((x % 256) as u8);
    assert(out@ =~= old(out)@ + be16(x));
}

/// The number whose two bytes, most significant first, are `high` and `low`.
pub fn u16_from_be(high: u8, low: u8) -> (x: u16)
    ensures
        x == high * 256 + low,
        be16(x) == seq![high, low],
{
    let x: u16 = (high as u16) * 256 + low as u16;
    assert(be16(x) =~= seq![high, low]);
    x
}

/// Appends the bytes of a slice.
pub fn push_all(out: &mut Vec<u8>, bytes: &[u8])
    ensures
        final(out)@ == old(out)@ + bytes@,
{
    out.extend_from_slice(bytes);
    assert(out@ =~= old(out)@ + bytes@);
}

/// A field of two, four or eight bytes, read as digits to the base 256 with the lowest first, is
/// the number it was made from.
pub proof fn law_fields_are_little_endian(x: nat)
    ensures
        x < 0x1_0000 ==> ({
            let b = le_bytes(x, 2);
            b.len() == 2 && b[0] + 0x100 * b[1] == x
        }),
        x < 0x1_0000_0000 ==> ({
            let b = le_bytes(x, 4);
            b.len() == 4 && b[0] + 0x100 * b[1] + 0x1_0000 * b[2] + 0x100_0000 * b[3] == x
        }),
        x < 0x1_0000_0000_0000_0000 ==> ({
            let b = le_bytes(x, 8);
            b.len() == 8 && b[0] + 0x100 * b[1] + 0x1_0000 * b[2] + 0x100_0000 * b[3]
                + 0x1_0000_0000 * b[4] + 0x100_0000_0000 * b[5] + 0x1_0000_0000_0000 * b[6]
                + 0x100_0000_0000_0000 * b[7] == x
        }),
{
    lemma_pow256_values();
    if x < 0x1_0000 {
        lemma_le_value_of_bytes(x, 2);
        law_fields_read_little_endian(le_bytes(x, 2));
    }
    if x < 0x1_0000_0000 {
        lemma_le_value_of_bytes(x, 4);
        law_fields_read_little_endian(le_bytes(x, 4));
    }
    if x < 0x1_0000_0000_0000_0000 {
        lemma_le_value_of_bytes(x, 8);
        law_fields_read_little_endian(le_bytes(x, 8));
    }
    lemma_le_bytes_len(x, 2);
    lemma_le_bytes_len(x, 4);
    lemma_le_bytes_len(x, 8);
}

/// The number in a field of two, four or eight bytes has them for its digits to the base 256, the
/// lowest first.
pub proof fn law_fields_read_little_endian(b: Seq<u8>)
    ensures
        b.len() == 2 ==> le_value(b) == b[0] + 0x100 * b[1],
        b.len() == 4 ==> le_value(b) == b[0] + 0x100 * b[1] + 0x1_0000 * b[2] + 0x100_0000 * b[3],
        b.len() == 8 ==> le_value(b) == b[0] + 0x100 * b[1] + 0x1_0000 * b[2] + 0x100_0000 * b[3]
            + 0x1_0000_0000 * b[4] + 0x100_0000_0000 * b[5] + 0x1_0000_0000_0000 * b[6]
            + 0x100_0000_0000_0000 * b[7],
{
    reveal_with_fuel(le_value, 9);
}

/// A length prefix is two bytes, the higher one first.
pub proof fn law_prefix_is_big_endian(x: u16)
    ensures
        be16(x).len() == 2,
        0x100 * be16(x)[0] + be16(x)[1] == x,
{
}

} // verus!
