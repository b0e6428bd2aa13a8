//! What the miner knows of a block that waits for its seal.
use crate::hash::H256;
use vstd::prelude::*;

verus! {

/// A block that is complete but for its seal.
///
/// The hashes and the count are what decisions are made on. `body` is the block itself, as the
/// chain made it: it is carried along and handed back.
#[derive(Debug)]
pub struct ClosedBlock<P> {
    /// Hash of the header of the block that this one extends.
    pub parent_hash: H256,
    /// Hash of this block's own header.
    pub header_hash: H256,
    /// Hash of the header without its seal: what a proof of work is found for.
    pub hash: H256,
    /// How many transactions the block holds.
    pub transaction_count: usize,
    /// The block itself.
    pub body: P,
}

impl<P: Clone> ClosedBlock<P> {
    /// `other` tells the miner the same, and its body is a clone of this one's.
    pub open spec fn copied_as(self, other: ClosedBlock<P>) -> bool {
        &&& other.parent_hash == self.parent_hash
        &&& other.header_hash == self.header_hash
        &&& other.hash == self.hash
        &&& other.transaction_count == self.transaction_count
        &&& cloned::<P>(self.body, other.body)
    }
}

impl<P: Clone> Clone for ClosedBlock<P> {
    fn clone(&self) -> (r: ClosedBlock<P>)
        ensures
            self.copied_as(r),
    {
        ClosedBlock {
            parent_hash: self.parent_hash,
            header_hash: self.header_hash,
            hash: self.hash,
            transaction_count: self.transaction_count,
            body: self.body.clone(),
        }
    }
}

/// A copy of a block tells the miner the same as the block does, and so does a copy of the copy.
pub proof fn law_copy_tells_the_same<P: Clone>(
    block: ClosedBlock<P>,
    copy: ClosedBlock<P>,
    second: ClosedBlock<P>,
)
    requires
        block.copied_as(copy),
        copy.copied_as(second),
    ensures
        copy.parent_hash == block.parent_hash,
        copy.header_hash == block.header_hash,
        copy.hash == block.hash,
        copy.transaction_count == block.transaction_count,
        cloned::<P>(block.body, copy.body),
        second.parent_hash == block.parent_hash,
        second.header_hash == block.header_hash,
        second.hash == block.hash,
        second.transaction_count == block.transaction_count,
{
}

} // verus!
