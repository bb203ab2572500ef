use vstd::prelude::*;

verus! {

/// 256 raised to the power `n`: the weight of the byte at position `n` of a
/// little-endian byte string.
pub open spec fn pow256(n: nat) -> nat
    decreases n,
{
    if n == 0 {
        1
    } else {
        256 * pow256((n - 1) as nat)
    }
}

/// The number that a byte sequence denotes when read as a little-endian
/// base-256 numeral.
pub open spec fn le_num(s: Seq<u8>) -> nat
    decreases s.len(),
{
    if s.len() == 0 {
        0
    } else {
        (s[0] + 256 * le_num(s.subrange(1, s.len() as int))) as nat
    }
}

pub proof fn lemma_pow256_pos(n: nat)
    ensures
        pow256(n) >= 1,
    decreases n,
{
    if n > 0 {
        lemma_pow256_pos((n - 1) as nat);
    }
}

/// A little-endian numeral is bounded by the weight of its length.
pub proof fn lemma_le_num_bound(s: Seq<u8>)
    ensures
        le_num(s) < pow256(s.len()),
    decreases s.len(),
{
    if s.len() == 0 {
    } else {
        lemma_le_num_bound(s.subrange(1, s.len() as int));
    }
}

/// Concatenation splits a little-endian numeral into a low and a weighted
/// high part.
pub proof fn lemma_le_num_append(a: Seq<u8>, b: Seq<u8>)
    ensures
        le_num(a + b) == le_num(a) + pow256(a.len()) * le_num(b),
    decreases a.len(),
{
    if a.len() == 0 {
        assert(a + b =~= b);
        assert(le_num(a) + pow256(a.len()) * le_num(b) == le_num(b)) by (nonlinear_arith)
            requires le_num(a) == 0 && pow256(a.len()) == 1;
    } else {
        let a1 = a.subrange(1, a.len() as int);
        lemma_le_num_append(a1, b);
        assert((a + b).subrange(1, (a + b).len() as int) =~= a1 + b);
        assert(le_num(a + b) == a[0] + 256 * le_num(a1 + b));
        assert(256 * (le_num(a1) + pow256(a1.len()) * le_num(b))
            == 256 * le_num(a1) + 256 * (pow256(a1.len()) * le_num(b))) by (nonlinear_arith);
        assert(256 * (pow256(a1.len()) * le_num(b))
            == (256 * pow256(a1.len())) * le_num(b)) by (nonlinear_arith);
        assert(le_num(a) == a[0] + 256 * le_num(a1));
        assert(pow256(a.len()) == 256 * pow256(a1.len()));
        assert(le_num(a + b) == a[0] + 256 * le_num(a1) + (256 * pow256(a1.len())) * le_num(b));
        assert(pow256(a.len()) * le_num(b) == (256 * pow256(a1.len())) * le_num(b)) by (nonlinear_arith)
            requires pow256(a.len()) == 256 * pow256(a1.len());
    }
}

/// A sequence of `n` zero bytes.
pub open spec fn zero_bytes(n: nat) -> Seq<u8> {
    Seq::new(n, |i: int| 0u8)
}

/// Zero bytes denote zero.
pub proof fn lemma_le_num_zero_bytes(n: nat)
    ensures
        le_num(zero_bytes(n)) == 0,
    decreases n,
{
    if n > 0 {
        lemma_le_num_zero_bytes((n - 1) as nat);
        assert(zero_bytes(n).subrange(1, n as int) =~= zero_bytes((n - 1) as nat));
    }
}

/// Byte weights multiply as their positions add.
pub proof fn lemma_pow256_add(a: nat, b: nat)
    ensures
        pow256(a + b) == pow256(a) * pow256(b),
    decreases a,
{
    if a == 0 {
        assert(pow256(a) * pow256(b) == pow256(b)) by (nonlinear_arith)
            requires pow256(a) == 1;
    } else {
        lemma_pow256_add((a - 1) as nat, b);
        assert(pow256(a + b) == 256 * pow256((a - 1) as nat + b));
        assert(256 * (pow256((a - 1) as nat) * pow256(b))
            == (256 * pow256((a - 1) as nat)) * pow256(b)) by (nonlinear_arith);
    }
}

/// The little-endian bytes of a 32-bit value.
pub open spec fn u32_le(x: u32) -> Seq<u8> {
    seq![
        (x % 256) as u8,
        ((x / 256) % 256) as u8,
        ((x / 65536) % 256) as u8,
        ((x / 16777216) % 256) as u8,
    ]
}

/// The little-endian bytes of a 64-bit value.
pub open spec fn u64_le(x: u64) -> Seq<u8> {
    seq![
        (x % 256) as u8,
        ((x / 256) % 256) as u8,
        ((x / 0x10000) % 256) as u8,
        ((x / 0x1000000) % 256) as u8,
        ((x / 0x100000000) % 256) as u8,
        ((x / 0x10000000000) % 256) as u8,
        ((x / 0x1000000000000) % 256) as u8,
        ((x / 0x100000000000000) % 256) as u8,
    ]
}

/// The Bitcoin variable-length encoding of an unsigned count.
pub open spec fn compact_size(n: u64) -> Seq<u8> {
    if n < 0xfd {
        seq![n as u8]
    } else if n <= 0xffff {
        seq![0xfdu8, (n % 256) as u8, ((n / 256) % 256) as u8]
    } else if n <= 0xffffffff {
        seq![0xfeu8] + u32_le(n as u32)
    } else {
        seq![0xffu8] + u64_le(n)
    }
}

/// Appends the little-endian bytes of `x` to `out`.
pub fn push_u32_le(out: &mut Vec<u8>, x: u32)
    ensures
        final(out)@ == old(out)@ + u32_le(x),
{
    out.push((x % 256) as u8);
    out.push(((x / 256) % 256) as u8);
    out.push(((x / 65536) % 256) as u8);
    out.push(((x / 16777216) % 256) as u8);
    assert(out@ =~= old(out)@ + u32_le(x));
}

/// Appends the little-endian bytes of `x` to `out`.
pub fn push_u64_le(out: &mut Vec<u8>, x: u64)
    ensures
        final(out)@ == old(out)@ + u64_le(x),
{
    out.push((x % 256) as u8);
    out.push(((x / 256) % 256) as u8);
    out.push(((x / 0x10000) % 256) as u8);
    out.push(((x / 0x1000000) % 256) as u8);
    out.push(((x / 0x100000000) % 256) as u8);
    out.push(((x / 0x10000000000) % 256) as u8);
    out.push(((x / 0x1000000000000) % 256) as u8);
    out.push(((x / 0x100000000000000) % 256) as u8);
    assert(out@ =~= old(out)@ + u64_le(x));
}

/// Appends the Bitcoin variable-length encoding of `n` to `out`.
pub fn push_compact_size(out: &mut Vec<u8>, n: u64)
    ensures
        final(out)@ == old(out)@ + compact_size(n),
{
    if n < 0xfd {
        out.push(n as u8);
        assert(out@ =~= old(out)@ + compact_size(n));
    } else if n <= 0xffff {
        out.push(0xfdu8);
        out.push((n % 256) as u8);
        out.push(((n / 256) % 256) as u8);
        assert(out@ =~= old(out)@ + compact_size(n));
    } else if n <= 0xffffffff {
        out.push(0xfeu8);
        push_u32_le(out, n as u32);
        assert(out@ =~= old(out)@ + compact_size(n));
    } else {
        out.push(0xffu8);
        push_u64_le(out, n);
        assert(out@ =~= old(out)@ + compact_size(n));
    }
}

/// The ASCII character for the hexadecimal digit `d`, lower case.
pub open spec fn hex_char(d: u8) -> u8
    recommends
        d < 16,
{
    if d < 10 {
        (0x30 + d) as u8
    } else {
        (0x57 + d) as u8
    }
}

/// The lower-case hexadecimal spelling of a byte string, two characters per
/// byte, as ASCII bytes.
pub open spec fn hex_of_bytes(s: Seq<u8>) -> Seq<u8>
    decreases s.len(),
{
    if s.len() == 0 {
        Seq::empty()
    } else {
        hex_of_bytes(s.drop_last()) + seq![hex_char(s.last() / 16), hex_char(s.last() % 16)]
    }
}

/// Spells a byte string in lower-case hexadecimal, two ASCII characters per
/// byte, as block submission wants it.
pub fn encode_hex(bytes: &Vec<u8>) -> (r: Vec<u8>)
    ensures
        r@ == hex_of_bytes(bytes@),
{
    let mut out: Vec<u8> = Vec::new();
    let mut i: usize = 0;
    while i < bytes.len()
        invariant
            i <= bytes@.len(),
            out@ == hex_of_bytes(bytes@.take(i as int)),
        decreases bytes@.len() - i,
    {
        let b = bytes[i];
        let hi: u8 = b / 16;
        let lo: u8 = b % 16;
        out.push(if hi < 10 { 0x30 + hi } else { 0x57 + hi - 10 + 10 });
        out.push(if lo < 10 { 0x30 + lo } else { 0x57 + lo - 10 + 10 });
        proof {
            assert(bytes@.take(i + 1).drop_last() =~= bytes@.take(i as int));
            assert(bytes@.take(i + 1).last() == bytes@[i as int]);
            assert(out@ =~= hex_of_bytes(bytes@.take(i + 1)));
        }
        i = i + 1;
    }
    proof {
        assert(bytes@.take(bytes@.len() as int) =~= bytes@);
    }
    out
}

/// The numeric value of an ASCII hexadecimal digit, or 16 for any other byte.
pub open spec fn hex_val(b: u8) -> u8 {
    if 0x30 <= b && b <= 0x39 {
        (b - 0x30) as u8
    } else if 0x61 <= b && b <= 0x66 {
        (b - 0x57) as u8
    } else if 0x41 <= b && b <= 0x46 {
        (b - 0x37) as u8
    } else {
        16
    }
}

/// True of an ASCII byte that spells a hexadecimal digit, either case.
pub open spec fn is_hex_digit(b: u8) -> bool {
    hex_val(b) < 16
}

/// The number spelt by a big-endian string of hexadecimal digits.
pub open spec fn hex_num(s: Seq<u8>) -> nat
    decreases s.len(),
{
    if s.len() == 0 {
        0
    } else {
        (16 * hex_num(s.drop_last()) + hex_val(s.last())) as nat
    }
}

/// 16 raised to the power `n`.
pub open spec fn pow16(n: nat) -> nat
    decreases n,
{
    if n == 0 {
        1
    } else {
        16 * pow16((n - 1) as nat)
    }
}

pub proof fn lemma_pow16_pos(n: nat)
    ensures
        pow16(n) >= 1,
    decreases n,
{
    if n > 0 {
        lemma_pow16_pos((n - 1) as nat);
    }
}


/// Copies a byte string, byte for byte.
pub fn duplicate_bytes(v: &Vec<u8>) -> (r: Vec<u8>)
    ensures
        r@ == v@,
{
    let mut out: Vec<u8> = Vec::new();
    let mut i: usize = 0;
    while i < v.len()
        invariant
            i <= v@.len(),
            out@ == v@.take(i as int),
        decreases v@.len() - i,
    {
        out.push(v[i]);
        proof {
            assert(out@ =~= v@.take(i + 1));
        }
        i = i + 1;
    }
    proof {
        assert(v@.take(v@.len() as int) =~= v@);
    }
    out
}

} // verus!
