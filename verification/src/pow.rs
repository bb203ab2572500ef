use vstd::prelude::*;
use crate::encode::{
    le_num, pow256, zero_bytes, lemma_le_num_append, lemma_le_num_bound, lemma_le_num_zero_bytes,
    lemma_pow256_add, lemma_pow256_pos,
};
use vstd::arithmetic::div_mod::{lemma_small_mod, lemma_mod_multiples_vanish};

verus! {

/// The 256-bit proof-of-work target that compact difficulty bits decode to,
/// with the consensus arithmetic of the reference implementation: a 3-byte
/// mantissa scaled by a byte-count exponent, zero when the mantissa's sign bit
/// is set, the exponent taken modulo 32 bytes and the product truncated to
/// 256 bits as a wrapping shift does.
pub open spec fn target_of(bits: u32) -> nat {
    let e = bits / 0x1000000;
    let m: nat = if e <= 3 {
        ((bits % 0x1000000) as nat) / pow256((3 - e) as nat)
    } else {
        (bits % 0x1000000) as nat
    };
    if m > 0x7fffff {
        0
    } else if e <= 3 {
        m
    } else {
        (m * pow256(((e - 3) % 32) as nat)) % pow256(32)
    }
}

/// A block hash meets the difficulty encoded in `bits` when, read as a
/// little-endian 256-bit number, it is no greater than the decoded target.
pub open spec fn meets_target(hash: Seq<u8>, bits: u32) -> bool {
    le_num(hash) <= target_of(bits)
}

/// Expands compact difficulty bits to the 32 little-endian bytes of the
/// decoded target.
pub fn target_le_bytes(bits: u32) -> (r: Vec<u8>)
    ensures
        r@.len() == 32,
        le_num(r@) == target_of(bits),
{
    let e: u32 = bits / 0x1000000;
    let m0: u32 = bits % 0x1000000;
    let m: u32 = if e == 0 {
        m0 / 0x1000000
    } else if e == 1 {
        m0 / 0x10000
    } else if e == 2 {
        m0 / 0x100
    } else {
        m0
    };
    proof {
        assert(pow256(0) == 1 && pow256(1) == 0x100 && pow256(2) == 0x10000
            && pow256(3) == 0x1000000) by {
            reveal_with_fuel(pow256, 4);
        }
        if e <= 3 {
            if e == 0 {
                assert(pow256((3 - e) as nat) == 0x1000000);
            } else if e == 1 {
                assert(pow256((3 - e) as nat) == 0x10000);
            } else if e == 2 {
                assert(pow256((3 - e) as nat) == 0x100);
            } else {
                assert(pow256((3 - e) as nat) == 1);
            }
            assert(m as nat == ((bits % 0x1000000) as nat) / pow256((3 - e) as nat));
        }
    }
    let mut out: Vec<u8> = Vec::new();
    if m > 0x7fffff {
        proof {
            assert(target_of(bits) == 0);
        }
        let mut i: usize = 0;
        while i < 32
            invariant
                i <= 32,
                out@ == zero_bytes(i as nat),
            decreases 32 - i,
        {
            out.push(0u8);
            proof {
                assert(out@ =~= zero_bytes((i + 1) as nat));
            }
            i = i + 1;
        }
        proof {
            lemma_le_num_zero_bytes(32);
        }
        return out;
    }
    let o: usize = if e <= 3 {
        0
    } else {
        ((e - 3) % 32) as usize
    };
    let b0: u8 = (m % 256) as u8;
    let b1: u8 = ((m / 256) % 256) as u8;
    let b2: u8 = ((m / 65536) % 256) as u8;
    let ghost mb = mantissa_bytes(m, o as nat);
    let mut i: usize = 0;
    while i < o
        invariant
            i <= o,
            o <= 31,
            out@ == zero_bytes(i as nat),
        decreases o - i,
    {
        out.push(0u8);
        proof {
            assert(out@ =~= zero_bytes((i + 1) as nat));
        }
        i = i + 1;
    }
    out.push(b0);
    if o <= 30 {
        out.push(b1);
    }
    if o <= 29 {
        out.push(b2);
    }
    proof {
        assert(out@ =~= zero_bytes(o as nat) + mb);
    }
    let mut j: usize = out.len();
    while j < 32
        invariant
            out@.len() == j,
            o + mb.len() <= j <= 32,
            o <= 31,
            out@ == zero_bytes(o as nat) + mb + zero_bytes((j - o - mb.len()) as nat),
        decreases 32 - j,
    {
        out.push(0u8);
        proof {
            assert(out@ =~= zero_bytes(o as nat) + mb
                + zero_bytes((j + 1 - o - mb.len()) as nat));
        }
        j = j + 1;
    }
    proof {
        if e <= 3 {
            assert(m * pow256(0) == m) by (nonlinear_arith)
                requires pow256(0) == 1;
            assert(m < pow256(32)) by {
                lemma_pow256_add(3, 29);
                lemma_pow256_pos(29);
                assert(pow256(3) * pow256(29) >= pow256(3)) by (nonlinear_arith)
                    requires pow256(29) >= 1 && pow256(3) >= 1;
            }
            lemma_small_mod(m as nat, pow256(32));
            assert(target_of(bits) == ((m as nat) * pow256(o as nat)) % pow256(32));
        } else {
            assert(target_of(bits) == ((m as nat) * pow256(o as nat)) % pow256(32));
        }
        lemma_target_value(m as nat, o as nat, out@, bits);
    }
    out
}

/// The mantissa bytes that land inside the 32-byte window at offset `o`.
pub open spec fn mantissa_bytes(m: u32, o: nat) -> Seq<u8> {
    let b0 = (m % 256) as u8;
    let b1 = ((m / 256) % 256) as u8;
    let b2 = ((m / 65536) % 256) as u8;
    if o <= 29 {
        seq![b0, b1, b2]
    } else if o == 30 {
        seq![b0, b1]
    } else {
        seq![b0]
    }
}

/// Relates the byte layout built by `target_le_bytes` to the arithmetic of
/// `target_of`.
proof fn lemma_target_value(m: nat, o: nat, s: Seq<u8>, bits: u32)
    requires
        m <= 0x7fffff,
        o <= 31,
        s.len() == 32,
        s =~= zero_bytes(o) + mantissa_bytes(m as u32, o) + zero_bytes(
            (32 - o - mantissa_bytes(m as u32, o).len()) as nat),
        target_of(bits) == (m * pow256(o)) % pow256(32),
    ensures
        le_num(s) == target_of(bits),
{
    assert(pow256(3) == 0x1000000) by {
        reveal_with_fuel(pow256, 4);
    }
    let mb = mantissa_bytes(m as u32, o);
    let tailn = (32 - o - mb.len()) as nat;
    lemma_le_num_append(zero_bytes(o) + mb, zero_bytes(tailn));
    lemma_le_num_append(zero_bytes(o), mb);
    lemma_le_num_zero_bytes(o);
    lemma_le_num_zero_bytes(tailn);
    lemma_pow256_pos(o);
    assert(le_num(s) == pow256(o) * le_num(mb) + pow256((zero_bytes(o) + mb).len()) * 0);
    let b0 = (m % 256) as u8;
    let b1 = ((m / 256) % 256) as u8;
    let b2 = ((m / 65536) % 256) as u8;
    reveal_with_fuel(le_num, 4);
    if o <= 29 {
        assert(mb =~= seq![b0, b1, b2]);
        assert(mb.subrange(1, 3) =~= seq![b1, b2]);
        assert(mb.subrange(1, 3).subrange(1, 2) =~= seq![b2]);
        assert(seq![b2].subrange(1, 1) =~= Seq::<u8>::empty());
        assert(le_num(mb) == b0 + 256 * (b1 + 256 * (b2 + 256 * 0)));
        assert(le_num(mb) == m);
        assert(m * pow256(o) < pow256(32)) by {
            lemma_pow256_add(o, 3);
            lemma_pow256_add(o + 3, (29 - o) as nat);
            lemma_pow256_pos((29 - o) as nat);
            assert(m < pow256(3));
            assert(m * pow256(o) < pow256(3) * pow256(o)) by (nonlinear_arith)
                requires m < pow256(3) && pow256(o) >= 1;
            assert(pow256(o + 3) <= pow256(32)) by (nonlinear_arith)
                requires
                    pow256(32) == pow256(o + 3) * pow256((29 - o) as nat)
                        && pow256((29 - o) as nat) >= 1 && pow256(o + 3) >= 1;
        }
        lemma_small_mod(m * pow256(o), pow256(32));
        assert(pow256(o) * le_num(mb) == m * pow256(o)) by (nonlinear_arith)
            requires le_num(mb) == m;
    } else {
        let low: nat = if o == 30 { (b0 + 256 * b1) as nat } else { b0 as nat };
        let high: nat = if o == 30 { b2 as nat } else { (b1 + 256 * b2) as nat };
        if o == 30 {
            assert(mb =~= seq![b0, b1]);
            assert(mb.subrange(1, 2) =~= seq![b1]);
            assert(seq![b1].subrange(1, 1) =~= Seq::<u8>::empty());
            assert(le_num(mb) == low);
            assert(m == low + 0x10000 * high);
        } else {
            assert(o == 31);
            assert(mb =~= seq![b0]);
            assert(seq![b0].subrange(1, 1) =~= Seq::<u8>::empty());
            assert(le_num(mb) == low);
            assert(m == low + 256 * high);
        }
        let gap: nat = if o == 30 { 0x10000 } else { 256 };
        assert(m == low + gap * high);
        assert(pow256(o) * gap == pow256(32)) by {
            lemma_pow256_add(o, (32 - o) as nat);
            reveal_with_fuel(pow256, 3);
        }
        assert(m * pow256(o) == low * pow256(o) + high * pow256(32)) by (nonlinear_arith)
            requires m == low + gap * high && pow256(o) * gap == pow256(32);
        lemma_mod_multiples_vanish(high as int, (low * pow256(o)) as int, pow256(32) as int);
        assert(low * pow256(o) < pow256(32)) by (nonlinear_arith)
            requires
                low < gap && pow256(o) * gap == pow256(32) && pow256(o) >= 1;
        lemma_small_mod(low * pow256(o), pow256(32));
        assert(pow256(o) * le_num(mb) == low * pow256(o)) by (nonlinear_arith)
            requires le_num(mb) == low;
    }
}

/// Compares two equal-length little-endian numerals without materializing
/// them as numbers: the highest differing byte decides.
pub fn le_bytes_leq(a: &Vec<u8>, b: &Vec<u8>) -> (r: bool)
    requires
        a@.len() == b@.len(),
    ensures
        r == (le_num(a@) <= le_num(b@)),
{
    let mut i: usize = a.len();
    while i > 0
        invariant
            i <= a@.len(),
            a@.len() == b@.len(),
            forall|j: int| i <= j < a@.len() ==> a@[j] == b@[j],
        decreases i,
    {
        let x = a[i - 1];
        let y = b[i - 1];
        if x < y {
            proof {
                lemma_le_num_high_byte(a@, b@, (i - 1) as int);
            }
            return true;
        }
        if x > y {
            proof {
                lemma_le_num_high_byte(b@, a@, (i - 1) as int);
            }
            return false;
        }
        i = i - 1;
    }
    proof {
        assert(a@ =~= b@);
    }
    true
}

/// If two equal-length numerals agree above position `i` and differ there,
/// the one with the smaller byte at `i` is strictly smaller.
proof fn lemma_le_num_high_byte(a: Seq<u8>, b: Seq<u8>, i: int)
    requires
        a.len() == b.len(),
        0 <= i < a.len(),
        forall|j: int| i < j < a.len() ==> a[j] == b[j],
        a[i] < b[i],
    ensures
        le_num(a) < le_num(b),
{
    let n = a.len() as int;
    assert(a =~= a.subrange(0, i) + a.subrange(i, n));
    assert(b =~= b.subrange(0, i) + b.subrange(i, n));
    lemma_le_num_append(a.subrange(0, i), a.subrange(i, n));
    lemma_le_num_append(b.subrange(0, i), b.subrange(i, n));
    assert(a.subrange(i, n).subrange(1, n - i) =~= a.subrange(i + 1, n));
    assert(b.subrange(i, n).subrange(1, n - i) =~= b.subrange(i + 1, n));
    assert(a.subrange(i + 1, n) =~= b.subrange(i + 1, n));
    let s = le_num(a.subrange(i + 1, n));
    assert(le_num(a.subrange(i, n)) == a[i] + 256 * s);
    assert(le_num(b.subrange(i, n)) == b[i] + 256 * s);
    lemma_le_num_bound(a.subrange(0, i));
    lemma_le_num_bound(b.subrange(0, i));
    lemma_pow256_pos(i as nat);
    assert(le_num(a) < pow256(i as nat) + pow256(i as nat) * (a[i] + 256 * s)) by (nonlinear_arith)
        requires
            le_num(a) == le_num(a.subrange(0, i)) + pow256(i as nat) * (a[i] + 256 * s)
                && le_num(a.subrange(0, i)) < pow256(i as nat),
    ;
    assert(pow256(i as nat) + pow256(i as nat) * (a[i] + 256 * s)
        <= pow256(i as nat) * (b[i] + 256 * s)) by (nonlinear_arith)
        requires
            a[i] < b[i] && pow256(i as nat) >= 1,
    ;
    assert(le_num(b) >= pow256(i as nat) * (b[i] + 256 * s));
}

/// Checks a 32-byte block hash against the difficulty bits.
pub fn check_target(hash: &Vec<u8>, bits: u32) -> (r: bool)
    requires
        hash@.len() == 32,
    ensures
        r == meets_target(hash@, bits),
{
    let target = target_le_bytes(bits);
    le_bytes_leq(hash, &target)
}

} // verus!
