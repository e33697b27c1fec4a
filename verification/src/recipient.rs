//! Recipients, and the registry in which a node keeps its own.

use vstd::prelude::*;
use crate::address::Address;
use crate::share::FULL_SHARE;

verus! {

/// One entry of a node's recipient list: who is paid, and what part of the
/// pool.
///
/// The percentages of a list need not add up to one hundred: what no
/// recipient takes stays with the node.
#[derive(Debug, PartialEq, Eq)]
pub struct Recipient {
    /// A label by which people know the recipient.
    pub name: String,
    /// Where the share goes.
    pub dest: Address,
    /// The share of the pool, in percent.
    pub percentage: u32,
}

impl Clone for Recipient {
    fn clone(&self) -> (copy: Self)
        ensures
            copy == *self,
    {
        Recipient { name: self.name.clone(), dest: self.dest, percentage: self.percentage }
    }
}

impl Recipient {
    /// A recipient is well formed when its percentage is at most one hundred.
    pub open spec fn well_formed(self) -> bool {
        self.percentage <= FULL_SHARE
    }

    /// Whether this recipient is well formed.
    pub fn is_well_formed(&self) -> (well_formed: bool)
        ensures
            well_formed == self.well_formed(),
    {
        self.percentage <= FULL_SHARE
    }
}

/// The percentages of `recipients`, in order.
pub open spec fn percentages(recipients: Seq<Recipient>) -> Seq<nat> {
    Seq::new(recipients.len(), |i: int| recipients[i].percentage as nat)
}

/// The ordered list of recipients that a node owns.
///
/// The registry stores and returns; it judges nothing. A list is replaced as
/// a whole, and a registry that was never given one holds the empty list.
#[derive(Debug, PartialEq, Eq)]
pub struct RecipientRegistry {
    children: Vec<Recipient>,
}

impl View for RecipientRegistry {
    type V = Seq<Recipient>;

    closed spec fn view(&self) -> Seq<Recipient> {
        self.children@
    }
}

/// What a registry holds once `new_children` has been stored in it, whatever
/// it held before.
pub open spec fn stored(before: Seq<Recipient>, new_children: Seq<Recipient>) -> Seq<Recipient> {
    new_children
}

/// What a registry that holds `children` returns when it is read.
pub open spec fn listed(children: Seq<Recipient>) -> Seq<Recipient> {
    children
}

impl Clone for RecipientRegistry {
    fn clone(&self) -> (copy: Self)
        ensures
            copy@ == self@,
    {
        RecipientRegistry { children: self.children.clone() }
    }
}

impl RecipientRegistry {
    /// The registry that was never given a list.
    pub fn new() -> (registry: RecipientRegistry)
        ensures
            registry@ == Seq::<Recipient>::empty(),
    {
        RecipientRegistry { children: Vec::new() }
    }

    /// Replaces the stored list by `new_children`. Nothing is checked, and the
    /// list held before is dropped.
    pub fn set_children(&mut self, new_children: Vec<Recipient>)
        ensures
            final(self)@ == stored(old(self)@, new_children@),
    {
        self.children = new_children;
    }

    /// The stored list, in the order in which it was given.
    pub fn get_children(&self) -> (children: Vec<Recipient>)
        ensures
            children@ == listed(self@),
    {
        self.children.clone()
    }

    /// How many recipients the registry holds.
    pub fn len(&self) -> (len: usize)
        ensures
            len == self@.len(),
    {
        self.children.len()
    }
}

/// A list that is stored and then read comes back as it was given, whatever
/// the registry held before.
pub proof fn lemma_round_trip(before: Seq<Recipient>, list: Seq<Recipient>)
    ensures
        listed(stored(before, list)) == list,
{
}

} // verus!
