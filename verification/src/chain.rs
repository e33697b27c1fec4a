//! The ancestor chain: the nodes that a donation has already gone through.

use vstd::prelude::*;
use crate::address::Address;

verus! {

/// `chain` with `address` behind it, unless `chain` holds it already.
pub open spec fn extended(chain: Seq<Address>, address: Address) -> Seq<Address> {
    if chain.contains(address) {
        chain
    } else {
        chain.push(address)
    }
}

/// The addresses of `addresses`, each at the place of its first occurrence.
pub open spec fn ordered_set(addresses: Seq<Address>) -> Seq<Address>
    decreases addresses.len(),
{
    if addresses.len() == 0 {
        Seq::empty()
    } else {
        extended(ordered_set(addresses.drop_last()), addresses.last())
    }
}

/// An ordered set of addresses: the nodes already visited in the call tree of
/// one donation, in the order in which they were entered.
///
/// A chain lives as long as the donation that made it. It is handed down the
/// call tree by value and never stored.
#[derive(Debug, PartialEq, Eq)]
pub struct AncestorChain {
    visited: Vec<Address>,
}

impl View for AncestorChain {
    type V = Seq<Address>;

    closed spec fn view(&self) -> Seq<Address> {
        self.visited@
    }
}

impl Clone for AncestorChain {
    fn clone(&self) -> (copy: Self)
        ensures
            copy@ == self@,
    {
        AncestorChain { visited: self.visited.clone() }
    }
}

impl AncestorChain {
    /// The chain that holds nothing.
    pub fn new() -> (chain: AncestorChain)
        ensures
            chain@ == Seq::<Address>::empty(),
    {
        AncestorChain { visited: Vec::new() }
    }

    /// The chain at the root of a donation: the receiving node alone.
    pub fn root(node: [u8; 32]) -> (chain: AncestorChain)
        ensures
            chain@ == seq![Address::Node(node)],
    {
        let mut visited: Vec<Address> = Vec::new();
        visited.push(Address::Node(node));
        AncestorChain { visited }
    }

    /// The chain of the addresses in `addresses`, each kept where it first
    /// occurs.
    pub fn from_vec(addresses: &Vec<Address>) -> (chain: AncestorChain)
        ensures
            chain@ == ordered_set(addresses@),
    {
        let mut chain = AncestorChain::new();
        let mut i: usize = 0;
        while i < addresses.len()
            invariant
                i <= addresses.len(),
                chain@ == ordered_set(addresses@.take(i as int)),
            decreases addresses.len() - i,
        {
            proof {
                let next = addresses@.take(i + 1);
                assert(next.drop_last() == addresses@.take(i as int));
                assert(next.last() == addresses@[i as int]);
            }
            chain = chain.with(addresses[i]);
            i += 1;
        }
        proof {
            assert(addresses@.take(i as int) == addresses@);
        }
        chain
    }

    /// How many addresses the chain holds.
    pub fn len(&self) -> (len: usize)
        ensures
            len == self@.len(),
    {
        self.visited.len()
    }

    /// The addresses of the chain, in order.
    pub fn to_vec(&self) -> (addresses: Vec<Address>)
        ensures
            addresses@ == self@,
    {
        self.visited.clone()
    }

    /// Whether the chain holds `address`.
    pub fn contains(&self, address: &Address) -> (found: bool)
        ensures
            found == self@.contains(*address),
    {
        let mut i: usize = 0;
        while i < self.visited.len()
            invariant
                i <= self.visited.len(),
                forall|j: int| 0 <= j < i ==> self.visited@[j] != *address,
            decreases self.visited.len() - i,
        {
            if self.visited[i].same(address) {
                return true;
            }
            i += 1;
        }
        false
    }

    /// This chain with `address` behind it. A chain that holds `address`
    /// already is returned as it is.
    pub fn with(&self, address: Address) -> (chain: AncestorChain)
        ensures
            chain@ == extended(self@, address),
    {
        let mut visited = self.visited.clone();
        if !self.contains(&address) {
            visited.push(address);
        }
        AncestorChain { visited }
    }
}

/// Extending a chain loses no address and lets none in twice.
pub proof fn lemma_extended(chain: Seq<Address>, address: Address)
    ensures
        extended(chain, address).contains(address),
        forall|other: Address| chain.contains(other) ==> extended(chain, address).contains(other),
        forall|other: Address|
            extended(chain, address).contains(other) ==> other == address || chain.contains(other),
        chain.no_duplicates() ==> extended(chain, address).no_duplicates(),
        extended(extended(chain, address), address) == extended(chain, address),
{
    let after = extended(chain, address);
    if !chain.contains(address) {
        assert(after[chain.len() as int] == address);
        assert forall|other: Address| chain.contains(other) implies after.contains(other) by {
            let i = choose|i: int| 0 <= i < chain.len() && chain[i] == other;
            assert(after[i] == other);
        }
    }
}

/// An ordered set holds the addresses it was made of, each once.
pub proof fn lemma_ordered_set(addresses: Seq<Address>)
    ensures
        ordered_set(addresses).no_duplicates(),
        forall|address: Address|
            ordered_set(addresses).contains(address) <==> addresses.contains(address),
    decreases addresses.len(),
{
    if addresses.len() > 0 {
        let before = addresses.drop_last();
        lemma_ordered_set(before);
        lemma_extended(ordered_set(before), addresses.last());
        assert forall|address: Address|
            ordered_set(addresses).contains(address) <==> addresses.contains(address) by {
            if addresses.contains(address) {
                let i = choose|i: int| 0 <= i < addresses.len() && addresses[i] == address;
                if i < before.len() {
                    assert(before[i] == address);
                }
            }
            if before.contains(address) {
                let i = choose|i: int| 0 <= i < before.len() && before[i] == address;
                assert(addresses[i] == address);
            }
            assert(addresses[addresses.len() - 1] == addresses.last());
        }
    }
}

} // verus!
