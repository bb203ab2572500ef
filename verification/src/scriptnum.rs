use vstd::prelude::*;
use crate::encode::{le_num, pow256, lemma_le_num_append, lemma_pow256_pos};

verus! {

/// The little-endian base-256 digits of `n`, least significant first, with no
/// trailing zero digit; the empty sequence for zero.
pub open spec fn le_digits(n: nat) -> Seq<u8>
    decreases n,
{
    if n == 0 {
        Seq::empty()
    } else {
        seq![(n % 256) as u8] + le_digits(n / 256)
    }
}

/// The digits of `n` denote `n`.
pub proof fn lemma_le_digits_val(n: nat)
    ensures
        le_num(le_digits(n)) == n,
    decreases n,
{
    if n > 0 {
        lemma_le_digits_val(n / 256);
        assert(le_digits(n).subrange(1, le_digits(n).len() as int) =~= le_digits(n / 256));
    }
}

/// A positive number has at least one digit, and its top digit is not zero.
pub proof fn lemma_le_digits_shape(n: nat)
    requires
        n > 0,
    ensures
        le_digits(n).len() >= 1,
        le_digits(n).last() != 0,
    decreases n,
{
    if n / 256 > 0 {
        lemma_le_digits_shape(n / 256);
        assert(le_digits(n).last() == le_digits(n / 256).last());
    } else {
        reveal_with_fuel(le_digits, 2);
        assert(le_digits(n) =~= seq![(n % 256) as u8]);
    }
}

/// A number below the weight of `k` has at most `k` digits.
pub proof fn lemma_le_digits_len(n: nat, k: nat)
    requires
        n < pow256(k),
    ensures
        le_digits(n).len() <= k,
    decreases n,
{
    if n > 0 {
        if k == 0 {
            lemma_pow256_pos(k);
        } else {
            assert(n / 256 < pow256((k - 1) as nat)) by (nonlinear_arith)
                requires n < pow256(k) && pow256(k) == 256 * pow256((k - 1) as nat);
            lemma_le_digits_len(n / 256, (k - 1) as nat);
        }
    }
}

/// The signed-magnitude script encoding of a nonzero integer: the digits of
/// the magnitude, with the sign carried by the top bit of the last byte, or by
/// an extra byte when that bit is already taken.
pub open spec fn script_int_bytes(n: int) -> Seq<u8>
    recommends
        n != 0,
{
    let mag = if n >= 0 { n as nat } else { (-n) as nat };
    let d = le_digits(mag);
    if d.last() < 0x80 {
        if n >= 0 {
            d
        } else {
            d.update(d.len() - 1, (d.last() + 0x80) as u8)
        }
    } else {
        d + seq![if n >= 0 { 0u8 } else { 0x80u8 }]
    }
}

/// The integer denoted by a signed-magnitude script encoding.
pub open spec fn script_int_val(s: Seq<u8>) -> int {
    if s.len() == 0 {
        0
    } else {
        let lb = s.last();
        let mag = le_num(s.update(s.len() - 1, (lb % 0x80) as u8));
        if lb >= 0x80 {
            -(mag as int)
        } else {
            mag as int
        }
    }
}

/// Decoding inverts encoding, so the script encoding is injective.
pub proof fn lemma_script_int_roundtrip(n: int)
    requires
        n != 0,
    ensures
        script_int_val(script_int_bytes(n)) == n,
{
    let mag = if n >= 0 { n as nat } else { (-n) as nat };
    let d = le_digits(mag);
    lemma_le_digits_shape(mag);
    lemma_le_digits_val(mag);
    let s = script_int_bytes(n);
    if d.last() < 0x80 {
        if n >= 0 {
            assert(s.update(s.len() - 1, (s.last() % 0x80) as u8) =~= d);
        } else {
            assert(s.len() == d.len());
            assert(s.last() == d.last() + 0x80);
            assert((s.last() % 0x80) as u8 == d.last());
            assert(s.update(s.len() - 1, (s.last() % 0x80) as u8) =~= d);
        }
    } else {
        let sb: u8 = if n >= 0 { 0u8 } else { 0x80u8 };
        assert(s =~= d + seq![sb]);
        assert(s.last() == sb);
        assert((sb % 0x80) as u8 == 0u8);
        assert(s.update(s.len() - 1, 0u8) =~= d + seq![0u8]);
        lemma_le_num_append(d, seq![0u8]);
        assert(le_num(seq![0u8]) == 0) by {
            reveal_with_fuel(le_num, 2);
            assert(seq![0u8].subrange(1, 1) =~= Seq::<u8>::empty());
        }
        assert(pow256(d.len()) * le_num(seq![0u8]) == 0) by (nonlinear_arith)
            requires le_num(seq![0u8]) == 0;
        assert(le_num(d + seq![0u8]) == mag);
    }
}

/// Distinct nonzero integers have distinct script encodings.
pub proof fn lemma_script_int_injective(n1: int, n2: int)
    requires
        n1 != 0,
        n2 != 0,
        script_int_bytes(n1) == script_int_bytes(n2),
    ensures
        n1 == n2,
{
    lemma_script_int_roundtrip(n1);
    lemma_script_int_roundtrip(n2);
}

/// The script encoding of an integer of machine width takes between one and
/// nine bytes.
pub proof fn lemma_script_int_len(n: int)
    requires
        n != 0,
        -0x8000000000000000 <= n <= 0xffffffffffffffff,
    ensures
        1 <= script_int_bytes(n).len() <= 9,
{
    let mag = if n >= 0 { n as nat } else { (-n) as nat };
    lemma_le_digits_shape(mag);
    assert(pow256(8) == 0x10000000000000000) by {
        reveal_with_fuel(pow256, 9);
    }
    lemma_le_digits_len(mag, 8);
}

/// What `push_int` of the script builder emits: a dedicated opcode for the
/// small integers, a length-prefixed signed-magnitude encoding otherwise.
pub open spec fn push_int_bytes(n: int) -> Seq<u8> {
    if n == -1 {
        seq![0x4fu8]
    } else if 1 <= n <= 16 {
        seq![(0x50 + n) as u8]
    } else if n == 0 {
        seq![0u8]
    } else {
        seq![script_int_bytes(n).len() as u8] + script_int_bytes(n)
    }
}

/// Distinct 64-bit integers are pushed as distinct byte strings.
pub proof fn lemma_push_int_injective(n1: int, n2: int)
    requires
        -0x8000000000000000 <= n1 <= 0x7fffffffffffffff,
        -0x8000000000000000 <= n2 <= 0x7fffffffffffffff,
        push_int_bytes(n1) == push_int_bytes(n2),
    ensures
        n1 == n2,
{
    let small1 = n1 == -1 || (1 <= n1 <= 16) || n1 == 0;
    let small2 = n2 == -1 || (1 <= n2 <= 16) || n2 == 0;
    if small1 && small2 {
        let b = push_int_bytes(n1)[0];
        assert(push_int_bytes(n2)[0] == b);
        if n1 == -1 {
            assert(b == 0x4f);
        } else if n1 == 0 {
            assert(b == 0);
        } else {
            assert(b == 0x50 + n1);
        }
        if n2 == -1 {
            assert(b == 0x4f);
        } else if n2 == 0 {
            assert(b == 0);
        } else {
            assert(b == 0x50 + n2);
        }
        assert(n1 == n2);
    } else if small1 != small2 {
        if small1 {
            lemma_script_int_len(n2);
            assert(push_int_bytes(n2).len() >= 2);
        } else {
            lemma_script_int_len(n1);
            assert(push_int_bytes(n1).len() >= 2);
        }
    } else {
        lemma_script_int_len(n1);
        lemma_script_int_len(n2);
        assert(push_int_bytes(n1)[0] == push_int_bytes(n2)[0]);
        assert(push_int_bytes(n1).len() == 1 + script_int_bytes(n1).len());
        assert(push_int_bytes(n2).len() == 1 + script_int_bytes(n2).len());
        assert(script_int_bytes(n1).len() == script_int_bytes(n2).len());
        assert(script_int_bytes(n1) =~= script_int_bytes(n2)) by {
            assert(forall|i: int| 0 <= i < script_int_bytes(n1).len()
                ==> script_int_bytes(n1)[i] == push_int_bytes(n1)[i + 1]
                    && script_int_bytes(n2)[i] == push_int_bytes(n2)[i + 1]);
        }
        lemma_script_int_injective(n1, n2);
    }
}

/// Appends the script push of the integer `n`, exactly as the node expects a
/// coinbase script to carry the template height and the uniqueness value.
pub fn push_int(out: &mut Vec<u8>, n: i64)
    ensures
        final(out)@ == old(out)@ + push_int_bytes(n as int),
{
    if n == -1 {
        out.push(0x4fu8);
        assert(final(out)@ =~= old(out)@ + push_int_bytes(n as int));
    } else if 1 <= n && n <= 16 {
        out.push((0x50 + n) as u8);
        assert(final(out)@ =~= old(out)@ + push_int_bytes(n as int));
    } else if n == 0 {
        out.push(0u8);
        assert(final(out)@ =~= old(out)@ + push_int_bytes(n as int));
    } else {
        let mag: u64 = if n >= 0 {
            n as u64
        } else {
            (-(n as i128)) as u64
        };
        let ghost magn: nat = mag as nat;
        let mut enc: Vec<u8> = Vec::new();
        let mut m: u64 = mag;
        while m > 0
            invariant
                le_digits(magn) == enc@ + le_digits(m as nat),
            decreases m,
        {
            enc.push((m % 256) as u8);
            proof {
                assert(le_digits(m as nat) =~= seq![(m % 256) as u8] + le_digits((m / 256) as nat));
                assert(enc@ + le_digits((m / 256) as nat) =~= le_digits(magn));
            }
            m = m / 256;
        }
        proof {
            assert(enc@ =~= le_digits(magn));
            lemma_le_digits_shape(magn);
            assert(pow256(8) == 0x10000000000000000) by {
                reveal_with_fuel(pow256, 9);
            }
            lemma_le_digits_len(magn, 8);
        }
        let last_idx = enc.len() - 1;
        let lastb = enc[last_idx];
        if lastb < 0x80 {
            if n < 0 {
                let _ = enc.pop();
                enc.push(lastb + 0x80);
                assert(enc@ =~= le_digits(magn).update(le_digits(magn).len() - 1,
                    (le_digits(magn).last() + 0x80) as u8));
            }
        } else {
            enc.push(if n < 0 { 0x80u8 } else { 0u8 });
            assert(enc@ =~= le_digits(magn)
                + seq![if n as int >= 0 { 0u8 } else { 0x80u8 }]);
        }
        assert(enc@ == script_int_bytes(n as int));
        out.push(enc.len() as u8);
        let mut tail = enc;
        out.append(&mut tail);
        assert(final(out)@ =~= old(out)@ + push_int_bytes(n as int));
    }
}

} // verus!
