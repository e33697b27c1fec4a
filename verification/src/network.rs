//! A network of nodes on one ledger, held in memory.
//!
//! [`Network`] carries out what [`crate::cascade`] says a donation does: it
//! runs each node's decisions against the ledger, enters child nodes depth
//! first, and keeps the result only where the whole donation went through.

use vstd::prelude::*;
use vstd::seq_lib::seq_to_set_is_finite;
use vstd::set_lib::lemma_set_subset_finite;
use crate::address::{same_key, Address};
use crate::cascade::{
    continued, donated, handed_down, lemma_entered, lemma_unvisited_shrinks, node_at, settle,
    unvisited, NetworkView,
};
use crate::chain::AncestorChain;
use crate::engine::{apply_donation_type, Step};
use crate::error::DonationError;
use crate::ledger::{Ledger, LedgerError, LedgerView};
use crate::node::{CascadingDonationContract, DataKey, NodeConfiguration, NodeView};
use crate::recipient::{listed, stored, Recipient};

verus! {

/// Whether `i` is the first place of `nodes` that stands at `address`.
pub closed spec fn deployed_at(nodes: Seq<CascadingDonationContract>, address: [u8; 32], i: int)
    -> bool {
    &&& 0 <= i < nodes.len()
    &&& nodes[i]@.address == address
    &&& forall|j: int| 0 <= j < i ==> (#[trigger] nodes[j])@.address != address
}

/// The nodes of `nodes`, each under its address. Where two stand at one
/// address, the first counts.
pub closed spec fn table(nodes: Seq<CascadingDonationContract>) -> Map<
    [u8; 32],
    NodeConfiguration,
> {
    Map::new(
        |address: [u8; 32]| exists|i: int| deployed_at(nodes, address, i),
        |address: [u8; 32]| nodes[choose|i: int| deployed_at(nodes, address, i)]@.configuration(),
    )
}

proof fn lemma_table_finite(nodes: Seq<CascadingDonationContract>)
    ensures
        table(nodes).dom().finite(),
{
    let addresses = Seq::new(nodes.len(), |i: int| nodes[i]@.address);
    seq_to_set_is_finite(addresses);
    assert forall|address: [u8; 32]| table(nodes).dom().contains(address) implies addresses.to_set().contains(
        address,
    ) by {
        let i = choose|i: int| deployed_at(nodes, address, i);
        assert(addresses[i] == address);
        assert(addresses.contains(address));
    }
    assert(table(nodes).dom().subset_of(addresses.to_set()));
    lemma_set_subset_finite(addresses.to_set(), table(nodes).dom());
}

proof fn lemma_deployed(nodes: Seq<CascadingDonationContract>, address: [u8; 32], i: int)
    requires
        deployed_at(nodes, address, i),
    ensures
        table(nodes).dom().contains(address),
        table(nodes)[address] == nodes[i]@.configuration(),
        node_at(table(nodes), address) == nodes[i]@,
{
    let chosen = choose|k: int| deployed_at(nodes, address, k);
    assert(deployed_at(nodes, address, chosen));
    if chosen < i {
        assert(nodes[chosen]@.address != address);
    }
    if i < chosen {
        assert(nodes[i]@.address != address);
    }
}

proof fn lemma_not_deployed(nodes: Seq<CascadingDonationContract>, address: [u8; 32])
    requires
        forall|j: int| 0 <= j < nodes.len() ==> (#[trigger] nodes[j])@.address != address,
    ensures
        !table(nodes).dom().contains(address),
        node_at(table(nodes), address) == NodeView::uninitialized(address),
{
}

fn find(nodes: &Vec<CascadingDonationContract>, address: &[u8; 32]) -> (place: Option<usize>)
    ensures
        match place {
            Some(i) => deployed_at(nodes@, *address, i as int),
            None => forall|j: int|
                0 <= j < nodes@.len() ==> (#[trigger] nodes@[j])@.address != *address,
        },
{
    let mut i: usize = 0;
    while i < nodes.len()
        invariant
            i <= nodes.len(),
            forall|j: int| 0 <= j < i ==> (#[trigger] nodes@[j])@.address != *address,
        decreases nodes.len() - i,
    {
        let here = nodes[i].address();
        if same_key(&here, address) {
            return Some(i);
        }
        i += 1;
    }
    None
}

/// The ledger of a donation that went through, or the error of one that did
/// not.
pub open spec fn outcome(settled: Result<Ledger, DonationError>) -> Result<
    LedgerView,
    DonationError,
> {
    match settled {
        Ok(ledger) => Ok(ledger@),
        Err(error) => Err(error),
    }
}

/// Has the node at place `node` pay its recipients out of `base_balance`,
/// under the chain `parents`, and every child node after it, depth first.
/// The ledger comes back as the payments left it; where the result is an
/// error, the ledger is lost, and with it whatever had been moved.
fn apply_children_donations(
    nodes: &Vec<CascadingDonationContract>,
    funds: Ledger,
    node: usize,
    base_balance: u128,
    parents: &AncestorChain,
) -> (settled: Result<Ledger, DonationError>)
    requires
        node < nodes@.len(),
        deployed_at(nodes@, nodes@[node as int]@.address, node as int),
        nodes@[node as int]@.active(),
    ensures
        outcome(settled) == settle(
            table(nodes@),
            funds@,
            nodes@[node as int]@.address,
            base_balance as nat,
            parents@,
            0,
        ),
    decreases unvisited(table(nodes@), parents@).len(),
{
    let ghost deployed = table(nodes@);
    let ghost start = funds@;
    let ghost this = nodes@[node as int]@;
    proof {
        lemma_table_finite(nodes@);
        lemma_deployed(nodes@, this.address, node as int);
    }
    let children = nodes[node].g_children();
    let me = Address::Node(nodes[node].address());
    let currency = match nodes[node].get_token_contract_id() {
        Ok(currency) => currency,
        Err(error) => {
            return Err(error);
        },
    };
    let down = parents.with(me);
    let mut ledger = funds;
    let mut i: usize = 0;
    while i < children.len()
        invariant
            i <= children.len(),
            node < nodes@.len(),
            down@ == handed_down(this, parents@),
            this == nodes@[node as int]@,
            start == funds@,
            deployed == table(nodes@),
            deployed.dom().finite(),
            node_at(deployed, this.address) == this,
            this.active(),
            children@ == this.children,
            me == this.destination(),
            currency == this.currency(),
            settle(deployed, start, this.address, base_balance as nat, parents@, 0) == settle(
                deployed,
                ledger@,
                this.address,
                base_balance as nat,
                parents@,
                i as nat,
            ),
        decreases children.len() - i,
    {
        let step = match apply_donation_type(&children[i], base_balance, parents) {
            Ok(step) => step,
            Err(error) => {
                return Err(error);
            },
        };
        let to = step.to();
        match ledger.transfer(&currency, &me, &to, step.value()) {
            Ok(()) => {},
            Err(error) => {
                return Err(DonationError::Ledger(error));
            },
        }
        match step {
            Step::Pay { .. } => {},
            Step::Forward { to, amount } => {
                let place = find(nodes, &to);
                match place {
                    None => {
                        proof {
                            lemma_not_deployed(nodes@, to);
                        }
                        return Err(DonationError::Configuration(DataKey::TkContract));
                    },
                    Some(child) => {
                        proof {
                            lemma_deployed(nodes@, to, child as int);
                        }
                        let chain = match nodes[child].donate_ch(amount, &down) {
                            Ok(chain) => chain,
                            Err(error) => {
                                return Err(error);
                            },
                        };
                        let child_currency = match nodes[child].get_token_contract_id() {
                            Ok(currency) => currency,
                            Err(error) => {
                                return Err(error);
                            },
                        };
                        let pool = ledger.balance(&child_currency, &Address::Node(to));
                        proof {
                            lemma_entered(this, parents@, nodes@[child as int]@);
                            lemma_unvisited_shrinks(deployed, parents@, chain@, to);
                        }
                        match apply_children_donations(nodes, ledger, child, pool, &chain) {
                            Ok(after) => {
                                ledger = after;
                            },
                            Err(error) => {
                                return Err(error);
                            },
                        }
                    },
                }
            },
        }
        i += 1;
    }
    Ok(ledger)
}

/// Has the node at `node` take `amount` from `donor` and distribute what it
/// then holds.
fn apply_main_donation(
    nodes: &Vec<CascadingDonationContract>,
    ledger: Ledger,
    node: &[u8; 32],
    donor: &Address,
    amount: u128,
) -> (settled: Result<Ledger, DonationError>)
    ensures
        outcome(settled) == donated(table(nodes@), ledger@, *node, amount, *donor),
{
    let place = match find(nodes, node) {
        Some(place) => place,
        None => {
            proof {
                lemma_not_deployed(nodes@, *node);
            }
            return Err(DonationError::Configuration(DataKey::TkContract));
        },
    };
    proof {
        lemma_deployed(nodes@, *node, place as int);
    }
    let pull = match nodes[place].donate(amount, *donor) {
        Ok(pull) => pull,
        Err(error) => {
            return Err(error);
        },
    };
    let mut ledger = ledger;
    match ledger.transfer_from(&pull.currency, &pull.spender, &pull.from, &pull.to, pull.amount) {
        Ok(()) => {},
        Err(error) => {
            return Err(DonationError::Ledger(error));
        },
    }
    let contract_balance = ledger.balance(&pull.currency, &pull.to);
    let parents = AncestorChain::root(*node);
    apply_children_donations(nodes, ledger, place, contract_balance, &parents)
}

/// Has the node at `node` continue a distribution under the chain `parents`.
fn continue_distribution(
    nodes: &Vec<CascadingDonationContract>,
    ledger: Ledger,
    node: &[u8; 32],
    share_amount: u128,
    parents: &AncestorChain,
) -> (settled: Result<Ledger, DonationError>)
    ensures
        outcome(settled) == continued(table(nodes@), ledger@, *node, parents@),
{
    let place = match find(nodes, node) {
        Some(place) => place,
        None => {
            proof {
                lemma_not_deployed(nodes@, *node);
            }
            return Err(DonationError::Configuration(DataKey::TkContract));
        },
    };
    proof {
        lemma_deployed(nodes@, *node, place as int);
    }
    let chain = match nodes[place].donate_ch(share_amount, parents) {
        Ok(chain) => chain,
        Err(error) => {
            return Err(error);
        },
    };
    let currency = match nodes[place].get_token_contract_id() {
        Ok(currency) => currency,
        Err(error) => {
            return Err(error);
        },
    };
    let contract_balance = ledger.balance(&currency, &Address::Node(*node));
    apply_children_donations(nodes, ledger, place, contract_balance, &chain)
}

/// Whether `after` is `before` with one node written at `at`: over the first
/// that stands at its address, or behind the last where none does.
spec fn written_at(
    before: Seq<CascadingDonationContract>,
    after: Seq<CascadingDonationContract>,
    at: int,
) -> bool {
    &&& 0 <= at < after.len()
    &&& after.len() >= before.len()
    &&& forall|j: int| 0 <= j < before.len() && j != at ==> after[j] == before[j]
    &&& {
        ||| after.len() == before.len() && deployed_at(before, after[at]@.address, at)
        ||| after.len() == before.len() + 1 && at == before.len() && forall|j: int|
            0 <= j < before.len() ==> (#[trigger] before[j])@.address != after[at]@.address
    }
}

proof fn lemma_stored_elsewhere(
    before: Seq<CascadingDonationContract>,
    after: Seq<CascadingDonationContract>,
    at: int,
    other: [u8; 32],
)
    requires
        written_at(before, after, at),
        other != after[at]@.address,
    ensures
        table(after).dom().contains(other) <==> table(before).dom().contains(other),
        table(before).dom().contains(other) ==> table(after)[other] == table(before)[other],
{
    assert forall|i: int| deployed_at(before, other, i) implies deployed_at(after, other, i) by {
        assert forall|j: int| 0 <= j < i implies (#[trigger] after[j])@.address != other by {
            if j != at {
                assert(after[j] == before[j]);
            }
        }
    }
    assert forall|i: int| deployed_at(after, other, i) implies deployed_at(before, other, i) by {
        assert forall|j: int| 0 <= j < i implies (#[trigger] before[j])@.address != other by {
            if j != at {
                assert(after[j] == before[j]);
            }
        }
    }
    if table(before).dom().contains(other) {
        let i = choose|i: int| deployed_at(before, other, i);
        lemma_deployed(before, other, i);
        lemma_deployed(after, other, i);
    }
    if table(after).dom().contains(other) {
        let i = choose|i: int| deployed_at(after, other, i);
        assert(deployed_at(before, other, i));
    }
}

/// Writing a node puts its configuration under its address and leaves every
/// other address as it was.
proof fn lemma_stored(
    before: Seq<CascadingDonationContract>,
    after: Seq<CascadingDonationContract>,
    at: int,
)
    requires
        written_at(before, after, at),
    ensures
        table(after) == table(before).insert(after[at]@.address, after[at]@.configuration()),
{
    let address = after[at]@.address;
    assert(deployed_at(after, address, at)) by {
        assert forall|j: int| 0 <= j < at implies (#[trigger] after[j])@.address != address by {
            assert(after[j] == before[j]);
        }
    }
    lemma_deployed(after, address, at);
    let written = table(before).insert(address, after[at]@.configuration());
    assert forall|other: [u8; 32]| table(after).dom().contains(other) <==> written.dom().contains(
        other,
    ) by {
        if other != address {
            lemma_stored_elsewhere(before, after, at, other);
        }
    }
    assert forall|other: [u8; 32]| table(after).dom().contains(other) implies table(after)[other]
        == written[other] by {
        if other != address {
            lemma_stored_elsewhere(before, after, at, other);
        }
    }
    assert(table(after) =~= written);
}

/// Nodes that pass donations on to each other, and the ledger on which they
/// do so.
///
/// Every address has a node; one in which nothing was ever stored is not
/// initialized and refuses donations. A donation runs to its end inside the
/// call that starts it, and it counts as a whole or not at all.
#[derive(Debug)]
pub struct Network {
    nodes: Vec<CascadingDonationContract>,
    ledger: Ledger,
}

impl View for Network {
    type V = NetworkView;

    closed spec fn view(&self) -> NetworkView {
        NetworkView { nodes: table(self.nodes@), ledger: self.ledger@ }
    }
}

impl Network {
    /// A network without nodes, on a ledger on which nobody holds anything.
    pub fn new() -> (network: Network)
        ensures
            network@.nodes == Map::<[u8; 32], NodeConfiguration>::empty(),
            network@.ledger == LedgerView::empty(),
    {
        let network = Network { nodes: Vec::new(), ledger: Ledger::new() };
        assert(network@.nodes =~= Map::<[u8; 32], NodeConfiguration>::empty());
        network
    }

    /// Only so many nodes are deployed.
    pub proof fn lemma_finite(&self)
        ensures
            self@.nodes.dom().finite(),
    {
        lemma_table_finite(self.nodes@);
    }

    /// The node that stands at `address`.
    pub fn load(&self, address: &[u8; 32]) -> (node: CascadingDonationContract)
        ensures
            node@ == node_at(self@.nodes, *address),
    {
        match find(&self.nodes, address) {
            Some(place) => {
                proof {
                    lemma_deployed(self.nodes@, *address, place as int);
                }
                self.nodes[place].clone()
            },
            None => {
                proof {
                    lemma_not_deployed(self.nodes@, *address);
                }
                CascadingDonationContract::new(*address)
            },
        }
    }

    /// Puts `node` in the place of whatever stood at its address.
    fn store(&mut self, node: CascadingDonationContract)
        ensures
            final(self)@.nodes == old(self)@.nodes.insert(node@.address, node@.configuration()),
            final(self)@.ledger == old(self)@.ledger,
    {
        let ghost before = self.nodes@;
        let address = node.address();
        match find(&self.nodes, &address) {
            Some(place) => {
                self.nodes.set(place, node);
                proof {
                    lemma_stored(before, self.nodes@, place as int);
                }
            },
            None => {
                self.nodes.push(node);
                proof {
                    lemma_stored(before, self.nodes@, before.len() as int);
                }
            },
        }
    }

    /// Initializes the node at `node` with the reference to its ledger and
    /// its recipients. A node that is active already is configured anew.
    pub fn initialize(&mut self, node: &[u8; 32], tc_id: [u8; 32], children: Vec<Recipient>)
        ensures
            final(self)@.nodes == old(self)@.nodes.insert(
                *node,
                NodeConfiguration { token: Some(tc_id), children: children@ },
            ),
            final(self)@.ledger == old(self)@.ledger,
    {
        let mut contract = self.load(node);
        contract.initialize(tc_id, children);
        self.store(contract);
    }

    /// Replaces the recipients of the node at `node`.
    pub fn s_children(&mut self, node: &[u8; 32], new_children: Vec<Recipient>)
        ensures
            final(self)@.nodes == old(self)@.nodes.insert(
                *node,
                NodeConfiguration {
                    token: node_at(old(self)@.nodes, *node).token,
                    children: stored(node_at(old(self)@.nodes, *node).children, new_children@),
                },
            ),
            final(self)@.ledger == old(self)@.ledger,
    {
        let mut contract = self.load(node);
        contract.s_children(new_children);
        self.store(contract);
    }

    /// The recipients of the node at `node`, in registry order.
    pub fn g_children(&self, node: &[u8; 32]) -> (children: Vec<Recipient>)
        ensures
            children@ == listed(node_at(self@.nodes, *node).children),
    {
        self.load(node).g_children()
    }

    /// What `holder` holds of `currency`.
    pub fn balance(&self, currency: &[u8; 32], holder: &Address) -> (amount: u128)
        ensures
            amount == self@.ledger.balance(*currency, *holder),
    {
        self.ledger.balance(currency, holder)
    }

    /// Issues `amount` of `currency` to `to`.
    pub fn mint(&mut self, currency: &[u8; 32], to: &Address, amount: u128) -> (done: Result<
        (),
        LedgerError,
    >)
        ensures
            final(self)@.nodes == old(self)@.nodes,
            match old(self)@.ledger.mint(*currency, *to, amount as nat) {
                Ok(after) => done is Ok && final(self)@.ledger == after,
                Err(error) => done == Err::<(), LedgerError>(error) && final(self)@.ledger == old(
                    self,
                )@.ledger,
            },
    {
        self.ledger.mint(currency, to, amount)
    }

    /// Lets `spender` move up to `amount` of what `owner` holds of
    /// `currency`.
    pub fn approve(&mut self, currency: &[u8; 32], owner: &Address, spender: &Address, amount: u128)
        ensures
            final(self)@.nodes == old(self)@.nodes,
            final(self)@.ledger == old(self)@.ledger.with_allowance(
                *currency,
                *owner,
                *spender,
                amount as nat,
            ),
    {
        self.ledger.approve(currency, owner, spender, amount);
    }

    /// Gives `amount` from `donor` to the node at `node`, and lets the
    /// donation cascade through the network.
    ///
    /// The node pulls the amount in out of what `donor` has approved for it,
    /// then distributes what it holds. Where anything fails, at this node or
    /// at any node below it, the donation fails with that error and the
    /// ledger stays as it was before the call.
    pub fn donate(&mut self, node: &[u8; 32], amount: u128, donor: &Address) -> (done: Result<
        (),
        DonationError,
    >)
        ensures
            final(self)@.nodes == old(self)@.nodes,
            match donated(old(self)@.nodes, old(self)@.ledger, *node, amount, *donor) {
                Ok(ledger) => done is Ok && final(self)@.ledger == ledger,
                Err(error) => done == Err::<(), DonationError>(error) && final(self)@.ledger == old(
                    self,
                )@.ledger,
            },
    {
        let funds = self.ledger.clone();
        match apply_main_donation(&self.nodes, funds, node, donor, amount) {
            Ok(ledger) => {
                self.ledger = ledger;
                Ok(())
            },
            Err(error) => Err(error),
        }
    }

    /// Has the node at `node` continue a distribution under the chain
    /// `parents`, as a parent that has just paid it `share_amount` would.
    /// Nothing restricts this call to parents.
    ///
    /// The node distributes its whole balance. Where anything fails, the
    /// ledger stays as it was before the call.
    pub fn donate_ch(&mut self, node: &[u8; 32], share_amount: u128, parents: &AncestorChain) -> (done:
        Result<(), DonationError>)
        ensures
            final(self)@.nodes == old(self)@.nodes,
            match continued(old(self)@.nodes, old(self)@.ledger, *node, parents@) {
                Ok(ledger) => done is Ok && final(self)@.ledger == ledger,
                Err(error) => done == Err::<(), DonationError>(error) && final(self)@.ledger == old(
                    self,
                )@.ledger,
            },
    {
        let funds = self.ledger.clone();
        match continue_distribution(&self.nodes, funds, node, share_amount, parents) {
            Ok(ledger) => {
                self.ledger = ledger;
                Ok(())
            },
            Err(error) => Err(error),
        }
    }
}

} // verus!
