//! Who can hold value: accounts, which only hold it, and nodes, which pass it on.

use vstd::prelude::*;

verus! {

/// The destination of a transfer.
///
/// An `Account` is a terminal holder of value. A `Node` is a deployed
/// distribution unit: what it receives it distributes again among its own
/// recipients. Either is named by 32 bytes; an account and a node that carry
/// the same bytes are still two different addresses.
#[derive(Clone, Copy, Debug, PartialEq, Eq, Hash)]
pub enum Address {
    Account([u8; 32]),
    Node([u8; 32]),
}

/// Whether `a` and `b` hold the same 32 bytes.
pub fn same_key(a: &[u8; 32], b: &[u8; 32]) -> (same: bool)
    ensures
        same == (*a == *b),
{
    let mut i: usize = 0;
    while i < 32
        invariant
            i <= 32,
            forall|j: int| 0 <= j < i ==> a[j] == b[j],
        decreases 32 - i,
    {
        if a[i] != b[i] {
            return false;
        }
        i += 1;
    }
    assert(*a =~= *b);
    true
}

impl Address {
    /// Whether this address is a node.
    pub fn is_node(&self) -> (node: bool)
        ensures
            node == (*self is Node),
    {
        match self {
            Address::Account(_) => false,
            Address::Node(_) => true,
        }
    }

    /// Whether `self` and `other` are the same address: of the same kind and
    /// with the same bytes.
    pub fn same(&self, other: &Address) -> (same: bool)
        ensures
            same == (*self == *other),
    {
        match (self, other) {
            (Address::Account(a), Address::Account(b)) => same_key(a, b),
            (Address::Node(a), Address::Node(b)) => same_key(a, b),
            _ => false,
        }
    }
}

} // verus!
