use vstd::prelude::*;
use crate::encode::duplicate_bytes;
use crate::errors::HarnessError;

verus! {

/// A model of the node's active chain, exactly what the harness can observe
/// of it through the height-indexed hash lookup: entry `h` is the block hash
/// at height `h`, entry zero the genesis hash. The model never caches the
/// node's height elsewhere; it is always the tip index of this list.
pub struct ChainState {
    /// The block hash at each height, genesis first.
    pub hashes: Vec<Vec<u8>>,
}

impl ChainState {
    /// The hashes as mathematical sequences, genesis first.
    pub open spec fn blocks(&self) -> Seq<Seq<u8>> {
        self.hashes@.map_values(|h: Vec<u8>| h@)
    }

    /// A chain the node would serve: a genesis block, every entry
    /// hash-shaped.
    pub open spec fn wf(&self) -> bool {
        self.blocks().len() >= 1 && (forall|i: int|
            0 <= i < self.blocks().len() ==> (#[trigger] self.blocks()[i]).len() == 32)
    }

    /// The chain's height: the index of its tip.
    pub open spec fn height(&self) -> nat {
        (self.blocks().len() - 1) as nat
    }

    /// Starts the model from a genesis hash, the state of a fresh regtest
    /// node.
    pub fn new_chain(genesis: Vec<u8>) -> (r: ChainState)
        requires
            genesis@.len() == 32,
        ensures
            r.wf(),
            r.blocks() == seq![genesis@],
            r.height() == 0,
    {
        let mut hashes: Vec<Vec<u8>> = Vec::new();
        hashes.push(genesis);
        let r = ChainState { hashes };
        proof {
            assert(r.blocks() =~~= seq![genesis@]);
        }
        r
    }

    /// Extends the tip by the given blocks, as the node's bulk generation
    /// RPC does: the new hashes land at the new top heights in order.
    pub fn mine_blocks(&mut self, new_hashes: &Vec<Vec<u8>>)
        requires
            old(self).wf(),
            forall|i: int| 0 <= i < new_hashes@.len()
                ==> (#[trigger] new_hashes@[i])@.len() == 32,
        ensures
            final(self).wf(),
            final(self).blocks() == old(self).blocks()
                + new_hashes@.map_values(|h: Vec<u8>| h@),
            final(self).height() == old(self).height() + new_hashes@.len(),
    {
        let mut i: usize = 0;
        while i < new_hashes.len()
            invariant
                i <= new_hashes@.len(),
                forall|k: int| 0 <= k < new_hashes@.len()
                    ==> (#[trigger] new_hashes@[k])@.len() == 32,
                self.blocks() == old(self).blocks()
                    + new_hashes@.map_values(|h: Vec<u8>| h@).take(i as int),
                old(self).wf(),
            decreases new_hashes@.len() - i,
        {
            let h = duplicate_bytes(&new_hashes[i]);
            let ghost pre = self.hashes@;
            self.hashes.push(h);
            proof {
                let m = new_hashes@.map_values(|h: Vec<u8>| h@);
                assert(m.len() == new_hashes@.len());
                assert(m.take(i as int).len() == i);
                assert(pre.map_values(|h: Vec<u8>| h@).len() == pre.len());
                assert(pre.len() == old(self).blocks().len() + i);
                assert(self.hashes@ == pre.push(h));
                assert(self.hashes@.len() == pre.len() + 1);
                assert forall|k: int| 0 <= k < self.hashes@.len() implies
                    #[trigger] self.blocks()[k] == (old(self).blocks() + m.take(i + 1))[k] by {
                    if k < pre.len() {
                        assert(self.blocks()[k] == pre.map_values(|h: Vec<u8>| h@)[k]);
                        assert(pre.map_values(|h: Vec<u8>| h@)[k]
                            == (old(self).blocks() + m.take(i as int))[k]);
                    } else {
                        assert(self.blocks()[k] == h@);
                        assert((old(self).blocks() + m.take(i + 1))[k] == m[i as int]);
                    }
                }
                assert(self.blocks() =~= old(self).blocks() + m.take(i + 1));
            }
            i = i + 1;
        }
        proof {
            let m = new_hashes@.map_values(|h: Vec<u8>| h@);
            assert(m.take(m.len() as int) =~= m);
            assert(final(self).wf()) by {
                assert(forall|k: int| 0 <= k < final(self).blocks().len()
                    ==> (#[trigger] final(self).blocks()[k]).len() == 32);
            }
        }
    }

    /// Invalidates `count` tip blocks, walking previous-hashes downward as
    /// the invalidate RPC does. Asking for more blocks than the chain has
    /// above genesis runs into the node's own error once the walk reaches
    /// the genesis block, which cannot be invalidated; that error is
    /// propagated, never silently truncated.
    pub fn invalidate_blocks(&mut self, count: usize) -> (r: Result<(), HarnessError>)
        requires
            old(self).wf(),
        ensures
            final(self).wf(),
            count <= old(self).height() ==> r is Ok && final(self).blocks()
                == old(self).blocks().take(old(self).blocks().len() - count),
            count > old(self).height() ==> (r matches Err(e) && e is NodeRpc)
                && final(self).blocks() == old(self).blocks().take(1),
    {
        let mut removed: usize = 0;
        let limit: usize = if count < self.hashes.len() - 1 {
            count
        } else {
            self.hashes.len() - 1
        };
        while removed < limit
            invariant
                removed <= limit,
                limit < old(self).blocks().len(),
                self.blocks() == old(self).blocks().take(
                    old(self).blocks().len() - removed),
                old(self).wf(),
            decreases limit - removed,
        {
            let ghost pre = self.hashes@;
            let _ = self.hashes.pop();
            proof {
                assert(pre.map_values(|h: Vec<u8>| h@).len() == pre.len());
                assert(pre.len() == old(self).blocks().len() - removed);
                assert(self.hashes@ == pre.drop_last());
                let goal = old(self).blocks().take(old(self).blocks().len() - (removed + 1));
                assert forall|k: int| 0 <= k < self.hashes@.len() implies
                    #[trigger] self.blocks()[k] == goal[k] by {
                    assert(self.blocks()[k] == pre.map_values(|h: Vec<u8>| h@)[k]);
                }
                assert(self.blocks() =~= goal);
            }
            removed = removed + 1;
        }
        proof {
            assert(final(self).wf()) by {
                assert(forall|k: int| 0 <= k < self.blocks().len()
                    ==> (#[trigger] self.blocks()[k]).len() == 32);
            }
        }
        if count > limit {
            Err(HarnessError::NodeRpc)
        } else {
            Ok(())
        }
    }

    /// A reorg: invalidate `count` tip blocks, then remine the same count.
    /// Whenever the node accepts the invalidations, the height after equals
    /// the height before — the reorg is height-neutral by construction — and
    /// every block at or below the cut keeps its hash.
    pub fn reorg(&mut self, count: usize, new_hashes: &Vec<Vec<u8>>) -> (r: Result<
        (),
        HarnessError,
    >)
        requires
            old(self).wf(),
            new_hashes@.len() == count,
            forall|i: int| 0 <= i < new_hashes@.len()
                ==> (#[trigger] new_hashes@[i])@.len() == 32,
        ensures
            final(self).wf(),
            count <= old(self).height() ==> r is Ok
                && final(self).height() == old(self).height()
                && final(self).blocks() == old(self).blocks().take(
                    old(self).blocks().len() - count)
                    + new_hashes@.map_values(|h: Vec<u8>| h@)
                && (forall|h: int| 0 <= h <= old(self).height() - count
                    ==> final(self).blocks()[h] == old(self).blocks()[h]),
            count > old(self).height() ==> (r matches Err(e) && e is NodeRpc),
    {
        match self.invalidate_blocks(count) {
            Ok(_) => (),
            Err(e) => {
                return Err(e);
            },
        }
        self.mine_blocks(new_hashes);
        Ok(())
    }
}

/// After a reorg whose replacement hashes all differ from the hashes they
/// replace, every height above the cut carries a new hash, and every height
/// at or below the cut the old one. The premise is what the salted coinbase
/// (or the node's fresh-address mining) provides: re-mined blocks do not
/// reproduce the hashes they displace.
pub proof fn lemma_reorg_fresh_tip(
    before: Seq<Seq<u8>>,
    after: Seq<Seq<u8>>,
    count: int,
    fresh: Seq<Seq<u8>>,
)
    requires
        0 <= count <= before.len() - 1,
        fresh.len() == count,
        after == before.take(before.len() - count) + fresh,
        forall|i: int, j: int| #![trigger fresh[i], before[j]]
            0 <= i < count && before.len() - count <= j < before.len()
            ==> fresh[i] != before[j],
    ensures
        after.len() == before.len(),
        forall|h: int| 0 <= h < before.len() - count ==> after[h] == before[h],
        forall|h: int| before.len() - count <= h < before.len() ==> after[h] != before[h],
{
    assert forall|h: int| before.len() - count <= h < before.len() implies after[h] != before[h] by {
        assert(after[h] == fresh[h - (before.len() - count)]);
    }
}


/// Checks the reorg postcondition against the node's own height readings:
/// a reorg that invalidates and remines the same count must leave the height
/// where it started, and anything else is an invariant violation, not a
/// recoverable state.
pub fn ensure_height_unchanged(before: u64, after: u64) -> (r: Result<(), HarnessError>)
    ensures
        before == after <==> r is Ok,
        r is Err ==> (r matches Err(e) && e is InvariantViolation),
{
    if before == after {
        Ok(())
    } else {
        Err(HarnessError::InvariantViolation)
    }
}

} // verus!
