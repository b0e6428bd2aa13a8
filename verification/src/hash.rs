//! Fixed size byte strings that name blocks, transactions and accounts.
use vstd::prelude::*;

verus! {

/// Variable length byte string.
pub type Bytes = Vec<u8>;

/// 32 byte hash of a block header or of a transaction.
#[derive(Clone, Copy, Debug, Eq)]
pub struct H256(pub [u8; 32]);

impl PartialEq for H256 {
    fn eq(&self, other: &H256) -> (r: bool) {
        let mut i: usize = 0;
        while i < 32
            invariant
                i <= 32,
                forall|j: int| 0 <= j < i ==> self.0@[j] == other.0@[j],
            decreases 32 - i,
        {
            if self.0[i] != other.0[i] {
                return false;
            }
            i += 1;
        }
        assert(self.0 =~= other.0);
        true
    }
}

impl vstd::std_specs::cmp::PartialEqSpecImpl for H256 {
    open spec fn obeys_eq_spec() -> bool {
        true
    }

    open spec fn eq_spec(&self, other: &H256) -> bool {
        *self == *other
    }
}

/// 20 byte account address.
#[derive(Clone, Copy, Debug, PartialEq, Eq)]
pub struct Address(pub [u8; 20]);

impl View for Address {
    type V = Seq<u8>;

    /// The bytes of the address.
    open spec fn view(&self) -> Seq<u8> {
        self.0@
    }
}

/// The bytes of the address that is all zeroes.
pub open spec fn zero_address() -> Seq<u8> {
    Seq::new(20, |i: int| 0u8)
}

impl Default for Address {
    fn default() -> (r: Address)
        ensures
            r@ == zero_address(),
    {
        Address([0u8; 20])
    }
}

/// `s` with `item` in it: at the end, unless it is there already.
pub open spec fn with_item<T>(s: Seq<T>, item: T) -> Seq<T> {
    if s.contains(item) {
        s
    } else {
        s.push(item)
    }
}

/// An item that is added is there afterwards, what was there stays where it was, nothing else
/// comes in, and nothing is there twice that was not before.
pub proof fn law_item_is_added_once<T>(s: Seq<T>, item: T)
    ensures
        with_item(s, item).contains(item),
        with_item(s, item).len() == if s.contains(item) {
            s.len()
        } else {
            s.len() + 1
        },
        forall|i: int| 0 <= i < s.len() ==> #[trigger] with_item(s, item)[i] == s[i],
        s.no_duplicates() ==> with_item(s, item).no_duplicates(),
        with_item(with_item(s, item), item) == with_item(s, item),
{
    if !s.contains(item) {
        assert(with_item(s, item)[s.len() as int] == item);
    }
}

/// Whether `hash` is one of `hashes`.
pub fn contains_hash(hashes: &Vec<H256>, hash: &H256) -> (r: bool)
    ensures
        r == hashes@.contains(*hash),
{
    let mut i: usize = 0;
    while i < hashes.len()
        invariant
            i <= hashes.len(),
            forall|j: int| 0 <= j < i ==> hashes@[j] != *hash,
        decreases hashes.len() - i,
    {
        if hashes[i] == *hash {
            assert(hashes@[i as int] == *hash);
            return true;
        }
        i += 1;
    }
    false
}

/// Adds `hash` to `hashes` unless it is there already.
pub fn insert_hash(hashes: &mut Vec<H256>, hash: H256)
    ensures
        final(hashes)@ == with_item(old(hashes)@, hash),
{
    if !contains_hash(hashes, &hash) {
        hashes.push(hash);
    }
}

} // verus!
