//! What a donation does to a network of nodes.
//!
//! A node knows its own recipients only. What a donation does as a whole
//! shows where the nodes stand together: [`settle`] says what becomes of the
//! ledger when a node pays its recipients and every child node does the same
//! in turn, depth first. The first failure, wherever it occurs, is the result
//! of the whole donation.

use vstd::prelude::*;
use vstd::set_lib::lemma_len_subset;
use crate::address::Address;
use crate::chain::{extended, lemma_extended};
use crate::engine::{decided, lemma_planned_steps, planned, Step};
use crate::error::DonationError;
use crate::ledger::{LedgerError, LedgerView};
use crate::node::{NodeConfiguration, NodeView};
use crate::recipient::{percentages, Recipient};
use crate::share::{
    lemma_share_at_most_pool, lemma_shares_within_pool, lemma_total_shares_grow, share_of,
    total_percentage, total_shares,
};

verus! {

/// The deployed nodes, each under its address, and the ledger they share.
pub struct NetworkView {
    pub nodes: Map<[u8; 32], NodeConfiguration>,
    pub ledger: LedgerView,
}

/// The node that stands at `address`. Where nothing was ever stored, that is
/// a node that is not initialized.
pub open spec fn node_at(nodes: Map<[u8; 32], NodeConfiguration>, address: [u8; 32]) -> NodeView {
    if nodes.dom().contains(address) {
        nodes[address].at(address)
    } else {
        NodeView::uninitialized(address)
    }
}

/// The deployed nodes that the chain `parents` does not hold.
pub open spec fn unvisited(nodes: Map<[u8; 32], NodeConfiguration>, parents: Seq<Address>) -> Set<
    [u8; 32],
> {
    nodes.dom().filter(|address: [u8; 32]| !parents.contains(Address::Node(address)))
}

/// Entering a deployed node that the chain does not hold leaves fewer nodes
/// unvisited, whatever else the chain takes in on the way. This is why a
/// cascade ends: it never enters a node twice on one path, and there are
/// only so many nodes.
pub proof fn lemma_unvisited_shrinks(
    nodes: Map<[u8; 32], NodeConfiguration>,
    parents: Seq<Address>,
    chain: Seq<Address>,
    entered: [u8; 32],
)
    requires
        nodes.dom().finite(),
        nodes.dom().contains(entered),
        !parents.contains(Address::Node(entered)),
        chain.contains(Address::Node(entered)),
        forall|address: Address| parents.contains(address) ==> chain.contains(address),
    ensures
        unvisited(nodes, parents).finite(),
        unvisited(nodes, chain).len() < unvisited(nodes, parents).len(),
{
    let before = unvisited(nodes, parents);
    let after = unvisited(nodes, chain);
    nodes.dom().lemma_len_filter(|address: [u8; 32]| !parents.contains(Address::Node(address)));
    assert forall|address: [u8; 32]| after.contains(address) implies before.remove(
        entered,
    ).contains(address) by {
        if parents.contains(Address::Node(address)) {
            assert(chain.contains(Address::Node(address)));
        }
    }
    assert(after.subset_of(before.remove(entered)));
    lemma_len_subset(after, before.remove(entered));
    assert(before.contains(entered));
}

/// The chain that a node hands down to a child: the chain under which it
/// pays, and behind it the node itself. A node that pays is in its chain
/// already, so what it hands down is the chain under which it pays.
pub open spec fn handed_down(this: NodeView, parents: Seq<Address>) -> Seq<Address> {
    extended(parents, this.destination())
}

/// A node that its chain holds hands the chain down as it is.
pub proof fn lemma_handed_down_unchanged(this: NodeView, parents: Seq<Address>)
    requires
        parents.contains(this.destination()),
    ensures
        handed_down(this, parents) == parents,
{
}

/// A child that is entered under the chain handed down to it pays under a
/// chain that holds the child and all that its parent paid under.
pub proof fn lemma_entered(this: NodeView, parents: Seq<Address>, child: NodeView)
    requires
        child.active(),
    ensures
        child.donate_ch(handed_down(this, parents)) matches Ok(chain) && chain.contains(
            child.destination(),
        ) && forall|address: Address| parents.contains(address) ==> chain.contains(address),
{
    lemma_extended(parents, this.destination());
    lemma_extended(handed_down(this, parents), child.destination());
}

/// What becomes of the ledger when `node` pays its recipients from place
/// `from` on, out of the pool `base_balance` and under the chain `parents`.
///
/// The recipients are taken in registry order. Each is decided as
/// [`decided`] says and paid by the ledger. A child node is then entered
/// under the chain that is handed down to it, with its whole balance as its
/// pool, and pays its own recipients to the end before the next sibling is
/// looked at. The first error ends everything and is the result.
pub open spec fn settle(
    nodes: Map<[u8; 32], NodeConfiguration>,
    ledger: LedgerView,
    node: [u8; 32],
    base_balance: nat,
    parents: Seq<Address>,
    from: nat,
) -> Result<LedgerView, DonationError>
    decreases unvisited(nodes, parents).len(), node_at(nodes, node).children.len() - from,
    when nodes.dom().finite()
{
    let this = node_at(nodes, node);
    if from >= this.children.len() {
        Ok(ledger)
    } else {
        match decided(this.children[from as int], base_balance, parents) {
            Err(error) => Err(error),
            Ok(step) => match ledger.transfer(
                this.currency(),
                this.destination(),
                step.destination(),
                step.amount() as nat,
            ) {
                Err(error) => Err(DonationError::Ledger(error)),
                Ok(paid) => match step {
                    Step::Pay { .. } => settle(nodes, paid, node, base_balance, parents, from + 1),
                    Step::Forward { to, .. } => {
                        let child = node_at(nodes, to);
                        match child.donate_ch(handed_down(this, parents)) {
                            Err(error) => Err(error),
                            Ok(chain) => {
                                proof {
                                    lemma_entered(this, parents, child);
                                    lemma_unvisited_shrinks(nodes, parents, chain, to);
                                }
                                match settle(
                                    nodes,
                                    paid,
                                    to,
                                    paid.balance(child.currency(), child.destination()),
                                    chain,
                                    0,
                                ) {
                                    Err(error) => Err(error),
                                    Ok(after) => settle(
                                        nodes,
                                        after,
                                        node,
                                        base_balance,
                                        parents,
                                        from + 1,
                                    ),
                                }
                            },
                        }
                    },
                },
            },
        }
    }
}

/// What becomes of the ledger when `node` is made to continue a distribution
/// under the chain `parents`: an active node pays its recipients out of its
/// whole balance, with itself behind `parents` as the chain.
pub open spec fn continued(
    nodes: Map<[u8; 32], NodeConfiguration>,
    ledger: LedgerView,
    node: [u8; 32],
    parents: Seq<Address>,
) -> Result<LedgerView, DonationError> {
    let this = node_at(nodes, node);
    match this.donate_ch(parents) {
        Err(error) => Err(error),
        Ok(chain) => settle(
            nodes,
            ledger,
            node,
            ledger.balance(this.currency(), this.destination()),
            chain,
            0,
        ),
    }
}

/// What becomes of the ledger when `donor` gives `amount` to `node`: the
/// node pulls the amount in, then pays its recipients out of what it holds,
/// with itself alone as the chain.
pub open spec fn donated(
    nodes: Map<[u8; 32], NodeConfiguration>,
    ledger: LedgerView,
    node: [u8; 32],
    amount: u128,
    donor: Address,
) -> Result<LedgerView, DonationError> {
    let this = node_at(nodes, node);
    match this.donate(amount, donor) {
        Err(error) => Err(error),
        Ok(pull) => match ledger.transfer_from(
            pull.currency,
            pull.spender,
            pull.from,
            pull.to,
            pull.amount as nat,
        ) {
            Err(error) => Err(DonationError::Ledger(error)),
            Ok(funded) => settle(
                nodes,
                funded,
                node,
                funded.balance(pull.currency, pull.to),
                seq![this.destination()],
                0,
            ),
        },
    }
}

/// A place in a cascade: the ledger as it stands, the node that is paying,
/// its pool and chain, and the recipient whose turn it is.
pub struct Frame {
    pub ledger: LedgerView,
    pub node: [u8; 32],
    pub base_balance: nat,
    pub parents: Seq<Address>,
    pub from: nat,
}

impl Frame {
    /// What becomes of the ledger when the cascade goes on from this place.
    pub open spec fn settled(self, nodes: Map<[u8; 32], NodeConfiguration>) -> Result<
        LedgerView,
        DonationError,
    > {
        settle(nodes, self.ledger, self.node, self.base_balance, self.parents, self.from)
    }

    /// The recipient whose turn it is.
    pub open spec fn recipient(self, nodes: Map<[u8; 32], NodeConfiguration>) -> Recipient
        recommends
            self.from < node_at(nodes, self.node).children.len(),
    {
        node_at(nodes, self.node).children[self.from as int]
    }

    /// The place at which a donation to `node` begins to pay, once `funded`
    /// is the ledger after the amount was pulled in.
    pub open spec fn first(nodes: Map<[u8; 32], NodeConfiguration>, funded: LedgerView, node: [u8; 32])
        -> Frame {
        let this = node_at(nodes, node);
        Frame {
            ledger: funded,
            node,
            base_balance: funded.balance(this.currency(), this.destination()),
            parents: seq![this.destination()],
            from: 0,
        }
    }
}

/// What a node does with a child that it pays is what the child does when
/// it is made to continue under the chain handed down to it: the node pays
/// the child, the child continues, and the node goes on to its next
/// recipient with the ledger as the child left it.
pub proof fn lemma_forward_continues(
    nodes: Map<[u8; 32], NodeConfiguration>,
    here: Frame,
    to: [u8; 32],
    amount: u128,
)
    requires
        nodes.dom().finite(),
        here.from < node_at(nodes, here.node).children.len(),
        decided(here.recipient(nodes), here.base_balance, here.parents) == Ok::<
            Step,
            DonationError,
        >(Step::Forward { to, amount }),
    ensures
        here.settled(nodes) == match here.ledger.transfer(
            node_at(nodes, here.node).currency(),
            Address::Node(here.node),
            Address::Node(to),
            amount as nat,
        ) {
            Err(error) => Err(DonationError::Ledger(error)),
            Ok(paid) => match continued(
                nodes,
                paid,
                to,
                handed_down(node_at(nodes, here.node), here.parents),
            ) {
                Err(error) => Err(error),
                Ok(after) => (Frame { ledger: after, from: here.from + 1, ..here }).settled(nodes),
            },
        },
{
}

/// What becomes of the ledger when `node` carries out `steps` from place
/// `from` on, under the chain `parents`: each step is paid by the ledger,
/// and a child that was paid continues under the chain handed down to it
/// before the next step is taken.
pub open spec fn carried_out(
    nodes: Map<[u8; 32], NodeConfiguration>,
    ledger: LedgerView,
    node: [u8; 32],
    parents: Seq<Address>,
    steps: Seq<Step>,
    from: nat,
) -> Result<LedgerView, DonationError>
    decreases steps.len() - from,
{
    let this = node_at(nodes, node);
    if from >= steps.len() {
        Ok(ledger)
    } else {
        match ledger.transfer(
            this.currency(),
            this.destination(),
            steps[from as int].destination(),
            steps[from as int].amount() as nat,
        ) {
            Err(error) => Err(DonationError::Ledger(error)),
            Ok(paid) => match steps[from as int] {
                Step::Pay { .. } => carried_out(nodes, paid, node, parents, steps, from + 1),
                Step::Forward { to, .. } => match continued(
                    nodes,
                    paid,
                    to,
                    handed_down(this, parents),
                ) {
                    Err(error) => Err(error),
                    Ok(after) => carried_out(nodes, after, node, parents, steps, from + 1),
                },
            },
        }
    }
}

/// What becomes of the ledger when `node` carries out the plan that it has
/// made for the pool `base_balance`: the steps of the plan first, and the
/// failure of the plan after them.
pub open spec fn plan_carried_out(
    nodes: Map<[u8; 32], NodeConfiguration>,
    ledger: LedgerView,
    node: [u8; 32],
    base_balance: nat,
    parents: Seq<Address>,
    from: nat,
) -> Result<LedgerView, DonationError> {
    let plan = planned(node_at(nodes, node).children, base_balance, parents);
    match carried_out(nodes, ledger, node, parents, plan.steps, from) {
        Err(error) => Err(error),
        Ok(after) => match plan.failure {
            Some(error) => Err(error),
            None => Ok(after),
        },
    }
}

/// A node that first plans and then carries the plan out, step by step,
/// does what a node does that decides and pays recipient by recipient.
pub proof fn lemma_plan_is_carried_out(
    nodes: Map<[u8; 32], NodeConfiguration>,
    ledger: LedgerView,
    node: [u8; 32],
    base_balance: nat,
    parents: Seq<Address>,
    from: nat,
)
    requires
        nodes.dom().finite(),
        from <= planned(node_at(nodes, node).children, base_balance, parents).steps.len(),
    ensures
        settle(nodes, ledger, node, base_balance, parents, from) == plan_carried_out(
            nodes,
            ledger,
            node,
            base_balance,
            parents,
            from,
        ),
    decreases planned(node_at(nodes, node).children, base_balance, parents).steps.len() - from,
{
    let this = node_at(nodes, node);
    let plan = planned(this.children, base_balance, parents);
    lemma_planned_steps(this.children, base_balance, parents);
    if from < plan.steps.len() {
        let step = plan.steps[from as int];
        assert(decided(this.children[from as int], base_balance, parents) == Ok::<
            Step,
            DonationError,
        >(step));
        match ledger.transfer(
            this.currency(),
            this.destination(),
            step.destination(),
            step.amount() as nat,
        ) {
            Err(_) => {},
            Ok(paid) => match step {
                Step::Pay { .. } => {
                    lemma_plan_is_carried_out(nodes, paid, node, base_balance, parents, from + 1);
                },
                Step::Forward { to, amount } => {
                    let here = Frame { ledger, node, base_balance, parents, from };
                    lemma_forward_continues(nodes, here, to, amount);
                    match continued(nodes, paid, to, handed_down(this, parents)) {
                        Err(_) => {},
                        Ok(after) => {
                            lemma_plan_is_carried_out(
                                nodes,
                                after,
                                node,
                                base_balance,
                                parents,
                                from + 1,
                            );
                        },
                    }
                },
            },
        }
    }
}

/// Whether the cascade, standing at `here`, comes to stand at `next`: at the
/// first recipient of the child node that it has just paid, or at the next
/// recipient of the same node once the present one is paid and, where it is
/// a node, has paid its own.
pub open spec fn leads_to(nodes: Map<[u8; 32], NodeConfiguration>, here: Frame, next: Frame) -> bool {
    let this = node_at(nodes, here.node);
    &&& here.from < this.children.len()
    &&& decided(here.recipient(nodes), here.base_balance, here.parents) matches Ok(step)
    &&& here.ledger.transfer(
        this.currency(),
        this.destination(),
        step.destination(),
        step.amount() as nat,
    ) matches Ok(paid)
    &&& match step {
        Step::Pay { .. } => next == Frame { ledger: paid, from: here.from + 1, ..here },
        Step::Forward { to, .. } => {
            let child = node_at(nodes, to);
            &&& child.donate_ch(handed_down(this, here.parents)) matches Ok(chain)
            &&& {
                let below = Frame {
                    ledger: paid,
                    node: to,
                    base_balance: paid.balance(child.currency(), child.destination()),
                    parents: chain,
                    from: 0,
                };
                ||| next == below
                ||| below.settled(nodes) matches Ok(after) && next == Frame {
                    ledger: after,
                    from: here.from + 1,
                    ..here
                }
            }
        },
    }
}

/// Whether `path` is a way that the cascade takes: each place leads to the
/// one behind it.
pub open spec fn cascade_path(nodes: Map<[u8; 32], NodeConfiguration>, path: Seq<Frame>) -> bool {
    &&& path.len() > 0
    &&& forall|i: int|
        #![trigger path[i]]
        0 <= i < path.len() - 1 ==> leads_to(nodes, path[i], path[i + 1])
}

/// A failure at the place that the cascade comes to next is the failure of
/// the cascade from the present place.
pub proof fn lemma_failure_rises(
    nodes: Map<[u8; 32], NodeConfiguration>,
    here: Frame,
    next: Frame,
    error: DonationError,
)
    requires
        nodes.dom().finite(),
        leads_to(nodes, here, next),
        next.settled(nodes) == Err::<LedgerView, DonationError>(error),
    ensures
        here.settled(nodes) == Err::<LedgerView, DonationError>(error),
{
}

/// Errors travel up through every frame: a failure at any place that the
/// cascade reaches is the failure of the cascade from where it set out.
pub proof fn lemma_failure_travels(
    nodes: Map<[u8; 32], NodeConfiguration>,
    path: Seq<Frame>,
    error: DonationError,
)
    requires
        nodes.dom().finite(),
        cascade_path(nodes, path),
        path.last().settled(nodes) == Err::<LedgerView, DonationError>(error),
    ensures
        path[0].settled(nodes) == Err::<LedgerView, DonationError>(error),
    decreases path.len(),
{
    if path.len() > 1 {
        let rest = path.drop_first();
        assert forall|i: int| #![trigger rest[i]] 0 <= i < rest.len() - 1 implies leads_to(
            nodes,
            rest[i],
            rest[i + 1],
        ) by {
            assert(rest[i] == path[i + 1]);
            assert(rest[i + 1] == path[i + 2]);
        }
        assert(rest.last() == path.last());
        lemma_failure_travels(nodes, rest, error);
        assert(rest[0] == path[1]);
        assert(leads_to(nodes, path[0], path[1]));
        lemma_failure_rises(nodes, path[0], path[1], error);
    }
}

/// Whether the recipient whose turn it is at `here` closes a circle: it is
/// well formed and names a node that the chain holds already.
pub open spec fn closes_circle(nodes: Map<[u8; 32], NodeConfiguration>, here: Frame) -> bool {
    &&& here.from < node_at(nodes, here.node).children.len()
    &&& here.recipient(nodes).well_formed()
    &&& here.recipient(nodes).dest is Node
    &&& here.parents.contains(here.recipient(nodes).dest)
}

/// Where the cascade stands at a recipient that closes a circle, it fails
/// there with the error that names that recipient.
pub proof fn lemma_circle_fails(nodes: Map<[u8; 32], NodeConfiguration>, here: Frame)
    requires
        nodes.dom().finite(),
        closes_circle(nodes, here),
    ensures
        here.settled(nodes) == Err::<LedgerView, DonationError>(
            DonationError::CircularCascade { name: here.recipient(nodes).name },
        ),
{
}

/// A donation whose cascade reaches a recipient that closes a circle fails
/// with the error that names that recipient, however deep the circle lies.
pub proof fn lemma_donation_into_circle(
    nodes: Map<[u8; 32], NodeConfiguration>,
    ledger: LedgerView,
    node: [u8; 32],
    amount: u128,
    donor: Address,
    path: Seq<Frame>,
)
    requires
        nodes.dom().finite(),
        node_at(nodes, node).donate(amount, donor) matches Ok(pull) && ledger.transfer_from(
            pull.currency,
            pull.spender,
            pull.from,
            pull.to,
            pull.amount as nat,
        ) matches Ok(funded) && path[0] == Frame::first(nodes, funded, node),
        cascade_path(nodes, path),
        closes_circle(nodes, path.last()),
    ensures
        donated(nodes, ledger, node, amount, donor) == Err::<LedgerView, DonationError>(
            DonationError::CircularCascade { name: path.last().recipient(nodes).name },
        ),
{
    lemma_circle_fails(nodes, path.last());
    lemma_failure_travels(
        nodes,
        path,
        DonationError::CircularCascade { name: path.last().recipient(nodes).name },
    );
}

/// A node without recipients keeps what it is given: the donation is the
/// pull alone, and nothing is moved after it.
pub proof fn lemma_donation_without_recipients(
    nodes: Map<[u8; 32], NodeConfiguration>,
    ledger: LedgerView,
    node: [u8; 32],
    amount: u128,
    donor: Address,
)
    requires
        nodes.dom().finite(),
        node_at(nodes, node).active(),
        node_at(nodes, node).children.len() == 0,
    ensures
        donated(nodes, ledger, node, amount, donor) == match ledger.transfer_from(
            node_at(nodes, node).currency(),
            Address::Node(node),
            donor,
            Address::Node(node),
            amount as nat,
        ) {
            Ok(funded) => Ok::<LedgerView, DonationError>(funded),
            Err(error) => Err(DonationError::Ledger(error)),
        },
{
}

/// A node that is not initialized refuses every donation.
pub proof fn lemma_donation_before_initialize(
    nodes: Map<[u8; 32], NodeConfiguration>,
    ledger: LedgerView,
    node: [u8; 32],
    amount: u128,
    donor: Address,
)
    requires
        !node_at(nodes, node).active(),
    ensures
        donated(nodes, ledger, node, amount, donor) == Err::<LedgerView, DonationError>(
            DonationError::Configuration(crate::node::DataKey::TkContract),
        ),
{
}

/// Whether every recipient in `children` is well formed and an account, and
/// the percentages add up to at most one hundred.
pub open spec fn pays_accounts_within_pool(children: Seq<Recipient>) -> bool {
    &&& forall|i: int|
        0 <= i < children.len() ==> (#[trigger] children[i]).well_formed() && children[i].dest
            is Account
    &&& total_percentage(percentages(children)) <= 100
}

/// A node that pays accounts only, and no more than one hundred percent,
/// never runs short: once it holds the pool less what the recipients before
/// `from` were paid, it pays the others too, and keeps what no recipient
/// takes. The one thing that can stop it is an account that cannot hold
/// what it is sent.
pub proof fn lemma_accounts_are_paid(
    nodes: Map<[u8; 32], NodeConfiguration>,
    ledger: LedgerView,
    node: [u8; 32],
    base_balance: nat,
    parents: Seq<Address>,
    from: nat,
)
    requires
        nodes.dom().finite(),
        node_at(nodes, node).active(),
        pays_accounts_within_pool(node_at(nodes, node).children),
        from <= node_at(nodes, node).children.len(),
        base_balance <= u128::MAX,
        ledger.balance(node_at(nodes, node).currency(), Address::Node(node)) + total_shares(
            base_balance,
            percentages(node_at(nodes, node).children.take(from as int)),
        ) == base_balance,
    ensures
        match settle(nodes, ledger, node, base_balance, parents, from) {
            Ok(after) => after.balance(node_at(nodes, node).currency(), Address::Node(node))
                + total_shares(base_balance, percentages(node_at(nodes, node).children))
                == base_balance,
            Err(error) => error == DonationError::Ledger(LedgerError::BalanceOverflow),
        },
    decreases node_at(nodes, node).children.len() - from,
{
    let this = node_at(nodes, node);
    let children = this.children;
    let rates = percentages(children);
    if from >= children.len() {
        assert(children.take(from as int) == children);
    } else {
        let child = children[from as int];
        let share = share_of(base_balance, child.percentage as nat);
        let sooner = percentages(children.take(from as int));
        let so_far = percentages(children.take(from as int + 1));
        assert(so_far.drop_last() == sooner);
        assert(so_far.last() == child.percentage);
        assert(so_far == rates.take(from as int + 1));
        lemma_total_shares_grow(base_balance, rates, from as int + 1);
        lemma_shares_within_pool(base_balance, rates);
        lemma_share_at_most_pool(base_balance, child.percentage as nat);
        let step = decided(child, base_balance, parents)->Ok_0;
        assert(step.amount() == share);
        assert(step.destination() != this.destination());
        match ledger.transfer(
            this.currency(),
            this.destination(),
            step.destination(),
            step.amount() as nat,
        ) {
            Err(_) => {},
            Ok(paid) => {
                lemma_accounts_are_paid(nodes, paid, node, base_balance, parents, from + 1);
            },
        }
    }
}

/// A donation to a node that pays accounts only, and no more than one
/// hundred percent, leaves with the node what it held once the donation was
/// pulled in, less the shares of its recipients.
pub proof fn lemma_donation_to_accounts(
    nodes: Map<[u8; 32], NodeConfiguration>,
    ledger: LedgerView,
    node: [u8; 32],
    amount: u128,
    donor: Address,
)
    requires
        nodes.dom().finite(),
        node_at(nodes, node).active(),
        pays_accounts_within_pool(node_at(nodes, node).children),
        ledger.balance(node_at(nodes, node).currency(), Address::Node(node)) <= u128::MAX,
    ensures
        match ledger.transfer_from(
            node_at(nodes, node).currency(),
            Address::Node(node),
            donor,
            Address::Node(node),
            amount as nat,
        ) {
            Err(error) => donated(nodes, ledger, node, amount, donor) == Err::<
                LedgerView,
                DonationError,
            >(DonationError::Ledger(error)),
            Ok(funded) => match donated(nodes, ledger, node, amount, donor) {
                Ok(after) => after.balance(node_at(nodes, node).currency(), Address::Node(node))
                    + total_shares(
                    funded.balance(node_at(nodes, node).currency(), Address::Node(node)),
                    percentages(node_at(nodes, node).children),
                ) == funded.balance(node_at(nodes, node).currency(), Address::Node(node)),
                Err(error) => error == DonationError::Ledger(LedgerError::BalanceOverflow),
            },
        },
{
    let this = node_at(nodes, node);
    match ledger.transfer_from(
        this.currency(),
        Address::Node(node),
        donor,
        Address::Node(node),
        amount as nat,
    ) {
        Err(_) => {},
        Ok(funded) => {
            let pool = funded.balance(this.currency(), Address::Node(node));
            assert(this.children.take(0) == Seq::<Recipient>::empty());
            assert(percentages(Seq::<Recipient>::empty()) == Seq::<nat>::empty());
            lemma_accounts_are_paid(nodes, funded, node, pool, seq![this.destination()], 0);
        },
    }
}

} // verus!
