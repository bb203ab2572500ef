use vstd::prelude::*;
use crate::encode::duplicate_bytes;

verus! {

/// A back-linked checkpoint: a block id, and the checkpoint one height
/// below, down to genesis. Built fresh on each call and never mutated; a
/// reorg means rebuilding.
pub struct CheckPoint {
    /// The height of this checkpoint.
    pub height: u32,
    /// The block hash at this height, 32 bytes in internal order.
    pub hash: Vec<u8>,
    /// The checkpoint at the height below, absent only at genesis.
    pub prev: Option<Box<CheckPoint>>,
}

impl CheckPoint {
    /// The block ids along the chain, genesis first, this checkpoint last.
    pub open spec fn blocks(&self) -> Seq<(u32, Seq<u8>)>
        decreases self,
    {
        match self.prev {
            Option::None => seq![(self.height, self.hash@)],
            Option::Some(p) => p.blocks().push((self.height, self.hash@)),
        }
    }

    /// Well-formed as the harness builds it: hash-shaped ids, heights
    /// stepping down one by one along `prev`, ending at genesis height zero.
    pub open spec fn wf(&self) -> bool
        decreases self,
    {
        self.hash@.len() == 32 && match self.prev {
            Option::None => self.height == 0,
            Option::Some(p) => p.height + 1 == self.height && p.wf(),
        }
    }

    /// How many checkpoints the chain holds.
    pub open spec fn count(&self) -> nat {
        self.blocks().len()
    }
}

/// Along a well-formed checkpoint chain, the entry at index `h` carries
/// height `h`: the chain resolves every height from genesis to the tip, and
/// counts one checkpoint more than its tip height.
pub proof fn lemma_checkpoint_heights(cp: CheckPoint)
    requires
        cp.wf(),
    ensures
        cp.count() == cp.height + 1,
        forall|h: int| 0 <= h < cp.blocks().len() ==> (#[trigger] cp.blocks()[h]).0 == h,
    decreases cp,
{
    match cp.prev {
        Option::None => {},
        Option::Some(p) => {
            lemma_checkpoint_heights(*p);
        },
    }
}

/// Materializes the chain as a checkpoint list, walking the height-indexed
/// hashes from genesis upward: `hashes[h]` is the hash the node resolves at
/// height `h`, and the sequence ends at the tip, one short of the first
/// unresolvable height. The chain must resolve height zero — a node without
/// a genesis block is a broken environment, which the caller refuses before
/// building.
pub fn make_checkpoint_tip(hashes: &Vec<Vec<u8>>) -> (r: CheckPoint)
    requires
        1 <= hashes@.len() <= 0x100000000,
        forall|i: int| 0 <= i < hashes@.len() ==> (#[trigger] hashes@[i])@.len() == 32,
    ensures
        r.wf(),
        r.count() == hashes@.len(),
        r.height == hashes@.len() - 1,
        forall|h: int| 0 <= h < hashes@.len()
            ==> #[trigger] r.blocks()[h] == (h as u32, hashes@[h]@),
{
    let genesis = duplicate_bytes(&hashes[0]);
    let mut cp = CheckPoint { height: 0, hash: genesis, prev: Option::None };
    proof {
        assert(cp.blocks() =~= seq![(0u32, hashes@[0]@)]);
    }
    let mut h: usize = 1;
    while h < hashes.len()
        invariant
            1 <= h <= hashes@.len(),
            hashes@.len() <= 0x100000000,
            forall|i: int| 0 <= i < hashes@.len() ==> (#[trigger] hashes@[i])@.len() == 32,
            cp.wf(),
            cp.height == h - 1,
            cp.blocks().len() == h,
            forall|k: int| 0 <= k < h ==> #[trigger] cp.blocks()[k] == (k as u32, hashes@[k]@),
        decreases hashes@.len() - h,
    {
        let hash = duplicate_bytes(&hashes[h]);
        let next = CheckPoint { height: h as u32, hash, prev: Option::Some(Box::new(cp)) };
        proof {
            assert(forall|k: int| 0 <= k < h + 1
                ==> #[trigger] next.blocks()[k] == (k as u32, hashes@[k]@));
        }
        cp = next;
        h = h + 1;
    }
    cp
}

} // verus!
