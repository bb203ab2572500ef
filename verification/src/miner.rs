use vstd::prelude::*;
use crate::encode::{
    u32_le, hex_num, is_hex_digit, pow16, push_u32_le, lemma_pow16_pos,
};
use crate::coinbase::{coinbase_tx_bytes, build_coinbase_tx, lemma_coinbase_salt_unique};
use crate::pow::{meets_target, check_target};
use crate::errors::HarnessError;

verus! {

/// What the node's template request answers, reduced to the fields that
/// mining an empty block reads: compact difficulty bits as hexadecimal text,
/// the hash to build on, the height to mine, and the minimum timestamp.
pub struct GetBlockTemplateResult {
    /// The compact difficulty target, spelt as a 4-byte big-endian
    /// hexadecimal string, in ASCII.
    pub bits: Vec<u8>,
    /// The block hash the template builds on, 32 bytes in internal order.
    pub previous_block_hash: Vec<u8>,
    /// The height of the block to be mined: current height plus one.
    pub height: u64,
    /// The minimum timestamp appropriate for the next block, in seconds
    /// since the epoch.
    pub min_time: u64,
}

impl GetBlockTemplateResult {
    /// A template the miner can work on: a hash-shaped parent, and a height
    /// that a coinbase script integer can carry.
    pub open spec fn wf(&self) -> bool {
        self.previous_block_hash@.len() == 32 && self.height <= 0x7fffffffffffffff
    }
}

/// True of ASCII text that spells a 4-byte big-endian hexadecimal number, the
/// only shape of difficulty bits a template may carry.
pub open spec fn valid_bits_hex(s: Seq<u8>) -> bool {
    s.len() == 8 && (forall|i: int| 0 <= i < 8 ==> is_hex_digit(#[trigger] s[i]))
}

/// The difficulty bits a valid hexadecimal spelling denotes.
pub open spec fn bits_num(s: Seq<u8>) -> u32
    recommends
        valid_bits_hex(s),
{
    hex_num(s) as u32
}

/// Reads the template's difficulty bits, rejecting anything that is not a
/// 4-byte big-endian hexadecimal string.
pub fn parse_bits(s: &Vec<u8>) -> (r: Result<u32, HarnessError>)
    ensures
        valid_bits_hex(s@) ==> (r matches Ok(v) && v as nat == hex_num(s@)),
        !valid_bits_hex(s@) ==> (r matches Err(e) && e is ConsensusDecode),
{
    if s.len() != 8 {
        return Err(HarnessError::ConsensusDecode);
    }
    proof {
        assert(pow16(8) == 0x100000000 && pow16(7) == 0x10000000) by {
            reveal_with_fuel(pow16, 9);
        }
    }
    let mut val: u32 = 0;
    let mut i: usize = 0;
    while i < 8
        invariant
            i <= 8,
            s@.len() == 8,
            forall|j: int| 0 <= j < i ==> is_hex_digit(#[trigger] s@[j]),
            val as nat == hex_num(s@.take(i as int)),
            (val as nat) < pow16(i as nat),
            pow16(8) == 0x100000000,
        decreases 8 - i,
    {
        let b = s[i];
        let d: u8 = if 0x30 <= b && b <= 0x39 {
            b - 0x30
        } else if 0x61 <= b && b <= 0x66 {
            b - 0x57
        } else if 0x41 <= b && b <= 0x46 {
            b - 0x37
        } else {
            return Err(HarnessError::ConsensusDecode);
        };
        proof {
            assert(pow16((i + 1) as nat) == 16 * pow16(i as nat));
            lemma_pow16_monotone_small(i as nat);
            assert(s@.take(i + 1).drop_last() =~= s@.take(i as int));
            assert(s@.take(i + 1).last() == s@[i as int]);
        }
        val = val * 16 + d as u32;
        i = i + 1;
    }
    proof {
        assert(s@.take(8) =~= s@);
    }
    Ok(val)
}

/// Weights of at most eight hexadecimal digits stay within 32 bits.
proof fn lemma_pow16_monotone_small(i: nat)
    requires
        i < 8,
    ensures
        pow16(i) <= pow16(7),
    decreases 8 - i,
{
    if i < 7 {
        lemma_pow16_monotone_small(i + 1);
        lemma_pow16_pos(i);
    }
}

/// The 80 consensus bytes of a block header: default version, parent hash,
/// merkle root, timestamp, difficulty bits, and the nonce, each little-endian
/// where a number.
pub open spec fn header_bytes(prev: Seq<u8>, merkle: Seq<u8>, time: u32, bits: u32, nonce: u32) -> Seq<u8> {
    u32_le(0x20000000) + prev + merkle + u32_le(time) + u32_le(bits) + u32_le(nonce)
}

/// Assembles the 80 header bytes.
pub fn build_header(prev: &Vec<u8>, merkle: &Vec<u8>, time: u32, bits: u32, nonce: u32) -> (r: Vec<u8>)
    requires
        prev@.len() == 32,
        merkle@.len() == 32,
    ensures
        r@ == header_bytes(prev@, merkle@, time, bits, nonce),
{
    let mut h: Vec<u8> = Vec::new();
    push_u32_le(&mut h, 0x20000000);
    h.extend_from_slice(prev.as_slice());
    h.extend_from_slice(merkle.as_slice());
    push_u32_le(&mut h, time);
    push_u32_le(&mut h, bits);
    push_u32_le(&mut h, nonce);
    proof {
        assert(h@ =~= header_bytes(prev@, merkle@, time, bits, nonce));
    }
    h
}

/// The double-SHA256 digest of a byte string; which bytes it is on a given
/// input only the hash library determines.
pub uninterp spec fn sha256d_of(data: Seq<u8>) -> Seq<u8>;

/// Relies on bitcoin_hashes' sha256d: a 32-byte digest that depends on the
/// input bytes alone.
#[verifier::external_body]
fn sha256d(data: &Vec<u8>) -> (r: Vec<u8>)
    ensures
        r@ == sha256d_of(data@),
        r@.len() == 32,
{
    let digest = <bdk_chain::bitcoin::hashes::sha256d::Hash as bdk_chain::bitcoin::hashes::Hash>::hash(
        data.as_slice(),
    );
    bdk_chain::bitcoin::hashes::Hash::to_byte_array(digest).to_vec()
}

/// Relies on the bundled rand generator: a fresh 64-bit integer; nothing is
/// promised of its value, two draws may or may not differ.
#[verifier::external_body]
fn fresh_salt() -> (r: i64) {
    bdk_chain::bitcoin::secp256k1::rand::random()
}

/// Relies on std's system clock: seconds since the epoch, or nothing when the
/// clock reads earlier than the epoch; no two readings are related.
#[verifier::external_body]
fn unix_time_now() -> (r: Option<u64>) {
    match std::time::UNIX_EPOCH.elapsed() {
        Ok(d) => Some(d.as_secs()),
        Err(_) => None,
    }
}

/// The block timestamp: the later of the template's minimum and the clock,
/// truncated to 32 bits.
pub open spec fn block_time(min_time: u64, now: u64) -> u32 {
    ((if min_time >= now { min_time } else { now }) % 0x100000000) as u32
}

/// True when the given nonce finishes a header whose hash meets the target.
pub open spec fn nonce_meets(prev: Seq<u8>, merkle: Seq<u8>, time: u32, bits: u32, n: u32) -> bool {
    meets_target(sha256d_of(header_bytes(prev, merkle, time, bits, n)), bits)
}

/// Searches the whole 32-bit nonce space from zero upward and returns the
/// first nonce whose header hash meets the target, if any does.
pub fn pow_search(prev: &Vec<u8>, merkle: &Vec<u8>, time: u32, bits: u32) -> (r: Option<u32>)
    requires
        prev@.len() == 32,
        merkle@.len() == 32,
    ensures
        r matches Some(n) ==> nonce_meets(prev@, merkle@, time, bits, n)
            && (forall|m: u32| m < n ==> !nonce_meets(prev@, merkle@, time, bits, m)),
        r is None ==> forall|m: u32| !nonce_meets(prev@, merkle@, time, bits, m),
{
    let mut nonce: u64 = 0;
    while nonce <= 0xffffffff
        invariant
            nonce <= 0x100000000,
            prev@.len() == 32,
            merkle@.len() == 32,
            forall|m: u32| m < nonce ==> !nonce_meets(prev@, merkle@, time, bits, m),
        decreases 0x100000000 - nonce,
    {
        let h = build_header(prev, merkle, time, bits, nonce as u32);
        let digest = sha256d(&h);
        if check_target(&digest, bits) {
            return Some(nonce as u32);
        }
        nonce = nonce + 1;
    }
    None
}

/// A block mined by the harness: the height it extends the chain to, its
/// hash, the nonce that met the target, and the raw bytes to submit.
pub struct MinedBlock {
    /// The height of the mined block.
    pub height: u64,
    /// The block's hash: the digest of its 80 header bytes.
    pub hash: Vec<u8>,
    /// The nonce the proof-of-work search settled on.
    pub nonce: u32,
    /// The whole serialized block, ready for a raw submission.
    pub block_bytes: Vec<u8>,
}

/// The header of the empty block that a template, a salt, a timestamp and a
/// nonce determine: its merkle root is the lone coinbase transaction's hash.
pub open spec fn empty_block_header(t: GetBlockTemplateResult, salt: i64, time: u32, nonce: u32) -> Seq<u8> {
    header_bytes(
        t.previous_block_hash@,
        sha256d_of(coinbase_tx_bytes(t.height, salt)),
        time,
        bits_num(t.bits@),
        nonce,
    )
}

/// The serialization of the whole empty block: the header, a transaction
/// count of one, and the coinbase transaction — no room for anything from
/// the mempool.
pub open spec fn empty_block_bytes(t: GetBlockTemplateResult, salt: i64, time: u32, nonce: u32) -> Seq<u8> {
    empty_block_header(t, salt, time, nonce) + seq![1u8] + coinbase_tx_bytes(t.height, salt)
}

/// Everything the miner promises of a block it hands back, relative to the
/// salt and timestamp that went in: the bytes are the empty block's, the hash
/// is the header's digest, it meets the decoded target, and no smaller nonce
/// does.
pub open spec fn mined_block_ok(t: GetBlockTemplateResult, salt: i64, time: u32, b: MinedBlock) -> bool {
    &&& b.height == t.height
    &&& b.block_bytes@ == empty_block_bytes(t, salt, time, b.nonce)
    &&& b.hash@ == sha256d_of(empty_block_header(t, salt, time, b.nonce))
    &&& meets_target(b.hash@, bits_num(t.bits@))
    &&& forall|m: u32| m < b.nonce ==> !nonce_meets(
        t.previous_block_hash@,
        sha256d_of(coinbase_tx_bytes(t.height, salt)),
        time,
        bits_num(t.bits@),
        m,
    )
}

/// Mines the empty block that a template, a salt and a clock reading
/// determine: builds the coinbase, searches the nonce space, and returns the
/// block with its hash, or says exactly why it cannot.
pub fn mine_empty_block_with(t: &GetBlockTemplateResult, salt: i64, now: u64) -> (r: Result<
    MinedBlock,
    HarnessError,
>)
    requires
        t.wf(),
    ensures
        r matches Ok(b) ==> valid_bits_hex(t.bits@)
            && mined_block_ok(*t, salt, block_time(t.min_time, now), b),
        (r matches Err(e) && e is ConsensusDecode) <==> !valid_bits_hex(t.bits@),
        r matches Err(e) && e is ConsensusConstruction ==> valid_bits_hex(t.bits@)
            && (forall|m: u32| !nonce_meets(
            t.previous_block_hash@,
            sha256d_of(coinbase_tx_bytes(t.height, salt)),
            block_time(t.min_time, now),
            bits_num(t.bits@),
            m,
        )),
        r is Err ==> (r matches Err(e) && (e is ConsensusDecode || e is ConsensusConstruction)),
{
    let bits = match parse_bits(&t.bits) {
        Ok(v) => v,
        Err(e) => {
            return Err(HarnessError::ConsensusDecode);
        },
    };
    let tx = build_coinbase_tx(t.height, salt);
    let ghost tx_spec = tx@;
    let txid = sha256d(&tx);
    let later: u64 = if t.min_time >= now {
        t.min_time
    } else {
        now
    };
    let time: u32 = (later % 0x100000000) as u32;
    match pow_search(&t.previous_block_hash, &txid, time, bits) {
        Some(nonce) => {
            let header = build_header(&t.previous_block_hash, &txid, time, bits, nonce);
            let hash = sha256d(&header);
            let mut block_bytes = header;
            block_bytes.push(1u8);
            let mut tx_tail = tx;
            block_bytes.append(&mut tx_tail);
            proof {
                assert(block_bytes@ =~= empty_block_bytes(*t, salt, time, nonce));
            }
            Ok(MinedBlock { height: t.height, hash, nonce, block_bytes })
        },
        None => Err(HarnessError::ConsensusConstruction),
    }
}

/// Mines an empty block for the template, salting the coinbase with a fresh
/// random value and stamping it with the system clock: whatever the salt and
/// the clock turn out to be, the block is an empty one for this template.
pub fn mine_empty_block(t: &GetBlockTemplateResult) -> (r: Result<MinedBlock, HarnessError>)
    requires
        t.wf(),
    ensures
        r matches Ok(b) ==> valid_bits_hex(t.bits@)
            && (exists|salt: i64, time: u32| mined_block_ok(*t, salt, time, b)),
        (r matches Err(e) && e is ConsensusDecode) <==> !valid_bits_hex(t.bits@),
        r is Err ==> (r matches Err(e) && (e is ConsensusDecode || e is ConsensusConstruction
            || e is EnvironmentSetup)),
{
    match parse_bits(&t.bits) {
        Ok(_) => (),
        Err(_) => {
            return Err(HarnessError::ConsensusDecode);
        },
    }
    let now = match unix_time_now() {
        Some(n) => n,
        None => {
            return Err(HarnessError::EnvironmentSetup);
        },
    };
    let salt = fresh_salt();
    let r = mine_empty_block_with(t, salt, now);
    proof {
        if r is Ok {
            let b = r->Ok_0;
            assert(mined_block_ok(*t, salt, block_time(t.min_time, now), b));
        }
    }
    r
}


/// Classifies the node's answer to a raw block submission: the RPC signals
/// acceptance with a null result, and any other payload is a rejection,
/// carried along for diagnosis.
pub fn classify_submission(result_is_null: bool, payload: String) -> (r: Result<(), HarnessError>)
    ensures
        result_is_null <==> r is Ok,
        !result_is_null ==> (r matches Err(e)
            && e matches HarnessError::BlockSubmissionRejected(p) && p@ == payload@),
{
    if result_is_null {
        Ok(())
    } else {
        Err(HarnessError::BlockSubmissionRejected(payload))
    }
}

/// Two empty blocks mined from the same template with different salts never
/// serialize to the same bytes, whatever their timestamps and nonces: the
/// salted coinbase survives into the block, so equal block bytes would force
/// equal salts. Distinct hashes then rest only on the hash being collision
/// free on these two inputs.
pub proof fn lemma_empty_block_salt_unique(
    t: GetBlockTemplateResult,
    salt1: i64,
    salt2: i64,
    time1: u32,
    time2: u32,
    n1: u32,
    n2: u32,
)
    requires
        salt1 != salt2,
    ensures
        sha256d_of(coinbase_tx_bytes(t.height, salt1)).len() == 32
            && sha256d_of(coinbase_tx_bytes(t.height, salt2)).len() == 32
            ==> empty_block_bytes(t, salt1, time1, n1) != empty_block_bytes(t, salt2, time2, n2),
{
    lemma_coinbase_salt_unique(t.height, salt1, salt2);
    let tx1 = coinbase_tx_bytes(t.height, salt1);
    let tx2 = coinbase_tx_bytes(t.height, salt2);
    if sha256d_of(tx1).len() == 32 && sha256d_of(tx2).len() == 32 {
        let b1 = empty_block_bytes(t, salt1, time1, n1);
        let b2 = empty_block_bytes(t, salt2, time2, n2);
        let h1 = empty_block_header(t, salt1, time1, n1);
        let h2 = empty_block_header(t, salt2, time2, n2);
        assert(h1.len() == 48 + t.previous_block_hash@.len());
        assert(h2.len() == 48 + t.previous_block_hash@.len());
        if b1 == b2 {
            let off = h1.len() as int + 1;
            assert(tx1 =~= b1.subrange(off, b1.len() as int));
            assert(tx2 =~= b2.subrange(off, b2.len() as int));
        }
        assert(b1 != b2);
    }
}

} // verus!
