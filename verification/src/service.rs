//! What the miner has done to the transaction queue and to its work as the chain moves.
use crate::hash::H256;
use crate::miner::Miner;
use crate::uint::U256;
use vstd::prelude::*;

verus! {

/// One step of what the miner has done. Steps are taken in order. Within a step the blocks can be
/// handled in any order, or at once.
pub enum ServiceStep {
    /// Drop every transaction from the queue.
    ClearQueue,
    /// Set the gas limit of the queue: no transaction above it is accepted.
    SetGasLimit(U256),
    /// Put the transactions of these blocks, which left the chain, back into the queue.
    Reimport(Vec<H256>),
    /// Remove the transactions of these blocks from the queue.
    Discard(Vec<H256>),
    /// Have the miner decide about sealing, with [`Miner::update_sealing`].
    UpdateSealing,
}

/// The hashes of a slice as a vector.
fn copy_hashes(hashes: &[H256]) -> (r: Vec<H256>)
    ensures
        r@ == hashes@,
{
    let mut r: Vec<H256> = Vec::new();
    while r.len() < hashes.len()
        invariant
            r.len() <= hashes.len(),
            r@ == hashes@.take(r.len() as int),
        decreases hashes.len() - r.len(),
    {
        let i: usize = r.len();
        r.push(hashes[i]);
        assert(hashes@.take(i + 1) =~= hashes@.take(i as int).push(hashes@[i as int]));
    }
    assert(hashes@.take(hashes.len() as int) =~= hashes@);
    r
}

/// Adds the hashes of `more` to `hashes`, each unless it is there already.
fn insert_hashes(hashes: &mut Vec<H256>, more: &[H256])
    requires
        old(hashes)@.no_duplicates(),
    ensures
        final(hashes)@.no_duplicates(),
        forall|h: H256| #[trigger]
            final(hashes)@.contains(h) <==> old(hashes)@.contains(h) || more@.contains(h),
{
    let mut i: usize = 0;
    while i < more.len()
        invariant
            i <= more.len(),
            hashes@.no_duplicates(),
            forall|h: H256| #[trigger]
                hashes@.contains(h) <==> old(hashes)@.contains(h) || more@.take(i as int).contains(
                    h,
                ),
        decreases more.len() - i,
    {
        let ghost before = hashes@;
        crate::hash::insert_hash(hashes, more[i]);
        proof {
            let item = more@[i as int];
            assert(more@.take(i + 1) =~= more@.take(i as int).push(item));
            assert forall|h: H256| #[trigger] hashes@.contains(h) <==> old(hashes)@.contains(h)
                || more@.take(i + 1).contains(h) by {
                broadcast use vstd::seq_lib::group_seq_properties;

            }
        }
        i += 1;
    }
    assert(more@.take(more.len() as int) =~= more@);
}

impl<P> Miner<P> {
    /// What to do when the chain is to be looked at afresh.
    pub fn clear_and_reset(&self) -> (r: Vec<ServiceStep>)
        ensures
            r@ == seq![ServiceStep::ClearQueue, ServiceStep::UpdateSealing],
    {
        let mut steps: Vec<ServiceStep> = Vec::new();
        steps.push(ServiceStep::ClearQueue);
        steps.push(ServiceStep::UpdateSealing);
        steps
    }

    /// What to do when blocks have been imported, found invalid, enacted or retracted and the
    /// best block has the given gas limit.
    ///
    /// First comes the gas limit, then the transactions of retracted blocks go back into the
    /// queue, and after that those of every block that is known now leave it.
    pub fn chain_new_blocks(
        &self,
        gas_limit: U256,
        imported: &[H256],
        invalid: &[H256],
        enacted: &[H256],
        retracted: &[H256],
    ) -> (r: Vec<ServiceStep>)
        ensures
            r@.len() == 4,
            r@[0] == ServiceStep::SetGasLimit(gas_limit),
            r@[1] matches ServiceStep::Reimport(blocks) && blocks@ == retracted@,
            r@[2] matches ServiceStep::Discard(blocks) && {
                &&& blocks@.no_duplicates()
                &&& forall|h: H256| #[trigger]
                    blocks@.contains(h) <==> imported@.contains(h) || enacted@.contains(h)
                        || invalid@.contains(h)
            },
            r@[3] == ServiceStep::UpdateSealing,
    {
        let mut in_chain: Vec<H256> = Vec::new();
        insert_hashes(&mut in_chain, imported);
        insert_hashes(&mut in_chain, enacted);
        insert_hashes(&mut in_chain, invalid);
        let mut steps: Vec<ServiceStep> = Vec::new();
        steps.push(ServiceStep::SetGasLimit(gas_limit));
        steps.push(ServiceStep::Reimport(copy_hashes(retracted)));
        steps.push(ServiceStep::Discard(in_chain));
        steps.push(ServiceStep::UpdateSealing);
        steps
    }
}

} // verus!
