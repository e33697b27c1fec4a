//! The deployable unit: a node with its ledger reference and its recipients.

use vstd::prelude::*;
use crate::address::Address;
use crate::chain::{extended, AncestorChain};
use crate::error::DonationError;
use crate::recipient::{listed, stored, Recipient, RecipientRegistry};

verus! {

/// The parts of a node's stored configuration.
#[derive(Clone, Copy, Debug, PartialEq, Eq, Hash)]
pub enum DataKey {
    /// The node's display name.
    Name,
    /// The reference to the ledger on which the node moves value.
    TkContract,
    /// The node's recipient list.
    ChildRecip,
}

/// What a node is, as far as a donation can tell.
pub struct NodeView {
    /// The address under which the node is deployed.
    pub address: [u8; 32],
    /// The currency that the node moves; `None` until the node is initialized.
    pub token: Option<[u8; 32]>,
    /// The node's recipients, in registry order.
    pub children: Seq<Recipient>,
}

/// What is stored in a node: the reference to its ledger, once the node is
/// initialized, and its recipients.
pub struct NodeConfiguration {
    pub token: Option<[u8; 32]>,
    pub children: Seq<Recipient>,
}

impl NodeConfiguration {
    /// The node that holds this configuration at `address`.
    pub open spec fn at(self, address: [u8; 32]) -> NodeView {
        NodeView { address, token: self.token, children: self.children }
    }
}

impl NodeView {
    /// What is stored in the node.
    pub open spec fn configuration(self) -> NodeConfiguration {
        NodeConfiguration { token: self.token, children: self.children }
    }

    /// The currency that an active node moves.
    pub open spec fn currency(self) -> [u8; 32]
        recommends
            self.active(),
    {
        self.token->0
    }

    /// The node at `address` before anything was stored in it.
    pub open spec fn uninitialized(address: [u8; 32]) -> NodeView {
        NodeView { address, token: None, children: Seq::empty() }
    }

    /// Whether the node has been initialized and accepts donations.
    pub open spec fn active(self) -> bool {
        self.token is Some
    }

    /// The node's own address, as a destination.
    pub open spec fn destination(self) -> Address {
        Address::Node(self.address)
    }

    /// What the node answers when a donor gives to it: the order to pull the
    /// amount in, or the refusal of a node that is not initialized.
    pub open spec fn donate(self, amount: u128, donor: Address) -> Result<Pull, DonationError> {
        match self.token {
            None => Err(DonationError::Configuration(DataKey::TkContract)),
            Some(currency) => Ok(
                Pull { currency, spender: self.destination(), from: donor, to: self.destination(), amount },
            ),
        }
    }

    /// What the node answers when a parent has it continue a distribution:
    /// the ancestor chain under which it pays its own recipients, or the
    /// refusal of a node that is not initialized.
    pub open spec fn donate_ch(self, parents: Seq<Address>) -> Result<Seq<Address>, DonationError> {
        match self.token {
            None => Err(DonationError::Configuration(DataKey::TkContract)),
            Some(_) => Ok(extended(parents, self.destination())),
        }
    }
}

/// The order to pull a donation in: `spender` moves `amount` of `currency`
/// from `from` to `to`, out of what `from` has approved for `spender`.
#[derive(Clone, Copy, Debug, PartialEq, Eq)]
pub struct Pull {
    pub currency: [u8; 32],
    pub spender: Address,
    pub from: Address,
    pub to: Address,
    pub amount: u128,
}

/// A distribution node: one deployed unit that receives value and passes it
/// on to its recipients.
///
/// A node starts out uninitialized. `initialize` gives it the reference to
/// its ledger and its first recipient list, and from then on it is active
/// and takes donations for as long as it lives. The node only knows its own
/// recipients, never the graph they form with others.
#[derive(Debug, PartialEq, Eq)]
pub struct CascadingDonationContract {
    address: [u8; 32],
    token: Option<[u8; 32]>,
    registry: RecipientRegistry,
}

impl View for CascadingDonationContract {
    type V = NodeView;

    closed spec fn view(&self) -> NodeView {
        NodeView { address: self.address, token: self.token, children: self.registry@ }
    }
}

impl Clone for CascadingDonationContract {
    fn clone(&self) -> (copy: Self)
        ensures
            copy@ == self@,
    {
        CascadingDonationContract {
            address: self.address,
            token: self.token,
            registry: self.registry.clone(),
        }
    }
}

impl CascadingDonationContract {
    /// A node deployed at `address` and not yet initialized.
    pub fn new(address: [u8; 32]) -> (node: CascadingDonationContract)
        ensures
            node@ == NodeView::uninitialized(address),
    {
        CascadingDonationContract { address, token: None, registry: RecipientRegistry::new() }
    }

    /// The node at `address` with what was stored for it: the reference to
    /// its ledger, where it has one, and its recipients.
    pub fn restore(address: [u8; 32], token: Option<[u8; 32]>, children: Vec<Recipient>) -> (node:
        CascadingDonationContract)
        ensures
            node@ == (NodeView { address, token, children: children@ }),
    {
        let mut registry = RecipientRegistry::new();
        registry.set_children(children);
        CascadingDonationContract { address, token, registry }
    }

    /// The address under which the node is deployed.
    pub fn address(&self) -> (address: [u8; 32])
        ensures
            address == self@.address,
    {
        self.address
    }

    /// Whether the node has been initialized.
    pub fn is_active(&self) -> (active: bool)
        ensures
            active == self@.active(),
    {
        self.token.is_some()
    }

    /// Stores the ledger reference and the recipient list. A node that is
    /// active already is configured anew, without notice.
    pub fn initialize(&mut self, tc_id: [u8; 32], children: Vec<Recipient>)
        ensures
            final(self)@ == (NodeView {
                address: old(self)@.address,
                token: Some(tc_id),
                children: children@,
            }),
    {
        self.set_token_contract_id(tc_id);
        self.s_children(children);
    }

    /// The reference to the node's ledger, or the error of a node that has
    /// none yet.
    pub fn get_token_contract_id(&self) -> (token: Result<[u8; 32], DonationError>)
        ensures
            token == match self@.token {
                Some(currency) => Ok::<[u8; 32], DonationError>(currency),
                None => Err(DonationError::Configuration(DataKey::TkContract)),
            },
    {
        match self.token {
            Some(currency) => Ok(currency),
            None => Err(DonationError::Configuration(DataKey::TkContract)),
        }
    }

    /// Stores the reference to the node's ledger.
    fn set_token_contract_id(&mut self, token_id: [u8; 32])
        ensures
            final(self)@ == (NodeView { token: Some(token_id), ..old(self)@ }),
    {
        self.token = Some(token_id);
    }

    /// Replaces the node's recipient list. Cycles are not looked for here:
    /// they show when a donation runs into one.
    pub fn s_children(&mut self, new_children: Vec<Recipient>)
        ensures
            final(self)@ == (NodeView {
                children: stored(old(self)@.children, new_children@),
                ..old(self)@
            }),
    {
        self.registry.set_children(new_children);
    }

    /// The node's recipient list, in the order in which it was given; empty
    /// for a node that was never given one.
    pub fn g_children(&self) -> (children: Vec<Recipient>)
        ensures
            children@ == listed(self@.children),
    {
        self.registry.get_children()
    }

    /// Takes a donation of `amount` from `donor`: answers with the order to
    /// pull the amount into the node's own balance. What stands on that
    /// balance afterwards is the pool that the node distributes, under the
    /// chain `AncestorChain::root` of its address.
    pub fn donate(&self, amount: u128, donor: Address) -> (pull: Result<Pull, DonationError>)
        ensures
            pull == self@.donate(amount, donor),
    {
        match self.token {
            None => Err(DonationError::Configuration(DataKey::TkContract)),
            Some(currency) => Ok(
                Pull {
                    currency,
                    spender: Address::Node(self.address),
                    from: donor,
                    to: Address::Node(self.address),
                    amount,
                },
            ),
        }
    }

    /// Continues a distribution that a parent began. The parent has moved
    /// `share_amount` onto this node's balance already, so the pool that the
    /// node distributes is its balance, whatever `share_amount` says. The
    /// answer is the chain under which the node pays its recipients:
    /// `parents`, and behind them the node itself.
    pub fn donate_ch(&self, share_amount: u128, parents: &AncestorChain) -> (chain: Result<
        AncestorChain,
        DonationError,
    >)
        ensures
            match self@.donate_ch(parents@) {
                Ok(visited) => chain is Ok && chain->Ok_0@ == visited,
                Err(error) => chain is Err && chain->Err_0 == error,
            },
    {
        match self.token {
            None => Err(DonationError::Configuration(DataKey::TkContract)),
            Some(_) => Ok(parents.with(Address::Node(self.address))),
        }
    }
}

} // verus!
