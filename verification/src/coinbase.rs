use vstd::prelude::*;
use crate::encode::{u32_le, u64_le, compact_size, push_u32_le, push_u64_le, push_compact_size, zero_bytes};
use crate::scriptnum::{push_int_bytes, push_int, lemma_push_int_injective, lemma_script_int_len};

verus! {

/// The coinbase script: the block height pushed first, then the uniqueness
/// salt, so that re-mining the same height gives a different transaction.
pub open spec fn coinbase_script(height: u64, salt: i64) -> Seq<u8> {
    push_int_bytes(height as int) + push_int_bytes(salt as int)
}

/// The pay-to-script-hash output script of the all-zero script hash: a valid
/// but unspendable placeholder for the zero-value coinbase output.
pub open spec fn p2sh_zero_script() -> Seq<u8> {
    seq![0xa9u8, 0x14u8] + zero_bytes(20) + seq![0x87u8]
}

/// The serialization of the one transaction of an empty block: version one,
/// a single input spending the null outpoint with the height-and-salt script,
/// a single zero-value unspendable output, lock time zero.
pub open spec fn coinbase_tx_bytes(height: u64, salt: i64) -> Seq<u8> {
    u32_le(1)
        + seq![1u8]
        + zero_bytes(32)
        + u32_le(0xffffffff)
        + compact_size(coinbase_script(height, salt).len() as u64)
        + coinbase_script(height, salt)
        + u32_le(0xffffffff)
        + seq![1u8]
        + u64_le(0)
        + seq![23u8]
        + p2sh_zero_script()
        + u32_le(0)
}

/// A pushed integer takes between one and ten bytes.
pub proof fn lemma_push_int_len(n: int)
    requires
        -0x8000000000000000 <= n <= 0xffffffffffffffff,
    ensures
        1 <= push_int_bytes(n).len() <= 10,
{
    if n == -1 || (1 <= n <= 16) || n == 0 {
    } else {
        lemma_script_int_len(n);
    }
}

/// Appends `n` zero bytes to `out`.
fn push_zero_bytes(out: &mut Vec<u8>, n: usize)
    ensures
        final(out)@ == old(out)@ + zero_bytes(n as nat),
{
    let mut i: usize = 0;
    while i < n
        invariant
            i <= n,
            out@ == old(out)@ + zero_bytes(i as nat),
        decreases n - i,
    {
        out.push(0u8);
        proof {
            assert(out@ =~= old(out)@ + zero_bytes((i + 1) as nat));
        }
        i = i + 1;
    }
}

/// Builds the serialized coinbase transaction for an empty block at the given
/// height, salted for uniqueness.
pub fn build_coinbase_tx(height: u64, salt: i64) -> (r: Vec<u8>)
    requires
        height <= 0x7fffffffffffffff,
    ensures
        r@ == coinbase_tx_bytes(height, salt),
{
    let mut script: Vec<u8> = Vec::new();
    push_int(&mut script, height as i64);
    push_int(&mut script, salt);
    assert(script@ =~= coinbase_script(height, salt));
    let ghost script_spec = script@;

    let mut tx: Vec<u8> = Vec::new();
    push_u32_le(&mut tx, 1);
    tx.push(1u8);
    push_zero_bytes(&mut tx, 32);
    push_u32_le(&mut tx, 0xffffffff);
    push_compact_size(&mut tx, script.len() as u64);
    tx.append(&mut script);
    push_u32_le(&mut tx, 0xffffffff);
    tx.push(1u8);
    push_u64_le(&mut tx, 0);
    tx.push(23u8);
    tx.push(0xa9u8);
    tx.push(0x14u8);
    push_zero_bytes(&mut tx, 20);
    tx.push(0x87u8);
    push_u32_le(&mut tx, 0);
    proof {
        assert(tx@ =~= coinbase_tx_bytes(height, salt));
    }
    tx
}

/// The fixed 42-byte prefix of the coinbase serialization once the script
/// length byte is fixed: version, input count, null outpoint, and that byte.
pub open spec fn coinbase_prefix(script_len: u64) -> Seq<u8> {
    u32_le(1) + seq![1u8] + zero_bytes(32) + u32_le(0xffffffff) + compact_size(script_len)
}

/// The fixed 41-byte suffix of the coinbase serialization: sequence, output
/// count, zero value, placeholder output script, lock time.
pub open spec fn coinbase_suffix() -> Seq<u8> {
    u32_le(0xffffffff) + seq![1u8] + u64_le(0) + seq![23u8] + p2sh_zero_script() + u32_le(0)
}

/// Distinct salts give distinct coinbase serializations at any height: the
/// uniqueness value in the script is what keeps re-mined blocks from
/// colliding, and it survives serialization.
pub proof fn lemma_coinbase_salt_unique(height: u64, salt1: i64, salt2: i64)
    requires
        salt1 != salt2,
    ensures
        coinbase_tx_bytes(height, salt1) != coinbase_tx_bytes(height, salt2),
{
    let h = push_int_bytes(height as int);
    let p1 = push_int_bytes(salt1 as int);
    let p2 = push_int_bytes(salt2 as int);
    let s1 = coinbase_script(height, salt1);
    let s2 = coinbase_script(height, salt2);
    lemma_push_int_len(height as int);
    lemma_push_int_len(salt1 as int);
    lemma_push_int_len(salt2 as int);
    assert(s1.len() <= 20 && s2.len() <= 20);
    if p1 == p2 {
        lemma_push_int_injective(salt1 as int, salt2 as int);
    }
    assert(p1 != p2);
    if s1 == s2 {
        assert(p1 =~= s1.subrange(h.len() as int, s1.len() as int));
        assert(p2 =~= s2.subrange(h.len() as int, s2.len() as int));
    }
    assert(s1 != s2);

    let t1 = coinbase_tx_bytes(height, salt1);
    let t2 = coinbase_tx_bytes(height, salt2);
    assert(t1 =~= coinbase_prefix(s1.len() as u64) + s1 + coinbase_suffix());
    assert(t2 =~= coinbase_prefix(s2.len() as u64) + s2 + coinbase_suffix());
    if s1.len() == s2.len() {
        let pre = coinbase_prefix(s1.len() as u64);
        if t1 == t2 {
            assert(s1 =~= t1.subrange(pre.len() as int, (pre.len() + s1.len()) as int));
            assert(s2 =~= t2.subrange(pre.len() as int, (pre.len() + s2.len()) as int));
        }
        assert(t1 != t2);
    } else {
        assert(coinbase_prefix(s1.len() as u64).len() == coinbase_prefix(s2.len() as u64).len());
        assert(t1.len() != t2.len());
    }
}

} // verus!
