//! The distribution engine: what a node does with a pool.
//!
//! The engine decides and moves nothing. For each recipient in turn it says
//! which transfer is due, or why the donation ends there; whoever runs the
//! node carries the steps out, one after the other, each to its end before
//! the next begins.

use vstd::prelude::*;
use crate::address::Address;
use crate::chain::AncestorChain;
use crate::error::DonationError;
use crate::recipient::{percentages, Recipient};
use crate::share::{lemma_shares_within_pool, share, share_of, total_shares, total_percentage};

verus! {

/// One step of a distribution, as the node that distributes sees it.
#[derive(Clone, Copy, Debug, PartialEq, Eq)]
pub enum Step {
    /// Move `amount` from the node to the account `to`.
    Pay { to: [u8; 32], amount: u128 },
    /// Move `amount` from the node to the node `to`, then have `to` continue
    /// the distribution under the chain that this step was decided under,
    /// with the paying node behind it.
    Forward { to: [u8; 32], amount: u128 },
}

impl Step {
    /// The address that the step pays.
    pub open spec fn destination(self) -> Address {
        match self {
            Step::Pay { to, .. } => Address::Account(to),
            Step::Forward { to, .. } => Address::Node(to),
        }
    }

    /// The amount that the step moves.
    pub open spec fn amount(self) -> u128 {
        match self {
            Step::Pay { amount, .. } => amount,
            Step::Forward { amount, .. } => amount,
        }
    }

    /// The address that the step pays.
    pub fn to(&self) -> (to: Address)
        ensures
            to == self.destination(),
    {
        match self {
            Step::Pay { to, .. } => Address::Account(*to),
            Step::Forward { to, .. } => Address::Node(*to),
        }
    }

    /// The amount that the step moves.
    pub fn value(&self) -> (amount: u128)
        ensures
            amount == self.amount(),
    {
        match self {
            Step::Pay { amount, .. } => *amount,
            Step::Forward { amount, .. } => *amount,
        }
    }
}

/// The share of `child` out of `base_balance`, as the amount of a step.
pub open spec fn due(child: Recipient, base_balance: nat) -> u128 {
    share_of(base_balance, child.percentage as nat) as u128
}

/// What is decided for one recipient, given the pool and the nodes that the
/// donation has gone through.
///
/// A malformed recipient ends the donation. So does a node that the chain
/// holds already. Any other recipient is paid its share, rounded down, be it
/// zero; a node is then made to continue.
pub open spec fn decided(child: Recipient, base_balance: nat, parents: Seq<Address>) -> Result<
    Step,
    DonationError,
> {
    if !child.well_formed() {
        Err(DonationError::RegistryRead { name: child.name })
    } else {
        match child.dest {
            Address::Account(account) => Ok(
                Step::Pay { to: account, amount: due(child, base_balance) },
            ),
            Address::Node(node) => if parents.contains(child.dest) {
                Err(DonationError::CircularCascade { name: child.name })
            } else {
                Ok(Step::Forward { to: node, amount: due(child, base_balance) })
            },
        }
    }
}

/// The step that pays an account its share of `base_balance`.
pub fn donate_to_child(child_address: [u8; 32], percentage: u32, base_balance: u128) -> (step: Step)
    requires
        percentage <= 100,
    ensures
        step == (Step::Pay {
            to: child_address,
            amount: share_of(base_balance as nat, percentage as nat) as u128,
        }),
        step.amount() == share_of(base_balance as nat, percentage as nat),
{
    Step::Pay { to: child_address, amount: share(base_balance, percentage) }
}

/// The step that pays a child node its share of `base_balance` and has it
/// continue the distribution.
pub fn donate_to_parent_child(
    recipient_contract_id: [u8; 32],
    percentage: u32,
    base_balance: u128,
) -> (step: Step)
    requires
        percentage <= 100,
    ensures
        step == (Step::Forward {
            to: recipient_contract_id,
            amount: share_of(base_balance as nat, percentage as nat) as u128,
        }),
        step.amount() == share_of(base_balance as nat, percentage as nat),
{
    Step::Forward { to: recipient_contract_id, amount: share(base_balance, percentage) }
}

/// Decides what is due to `child` out of `base_balance`, under the chain
/// `parents`.
pub fn apply_donation_type(child: &Recipient, base_balance: u128, parents: &AncestorChain) -> (step:
    Result<Step, DonationError>)
    ensures
        step == decided(*child, base_balance as nat, parents@),
{
    if !child.is_well_formed() {
        return Err(DonationError::RegistryRead { name: child.name.clone() });
    }
    match child.dest {
        Address::Account(account) => Ok(donate_to_child(account, child.percentage, base_balance)),
        Address::Node(node) => {
            if parents.contains(&child.dest) {
                Err(DonationError::CircularCascade { name: child.name.clone() })
            } else {
                Ok(donate_to_parent_child(node, child.percentage, base_balance))
            }
        },
    }
}

/// What a node does with a pool: the steps for its recipients in registry
/// order, up to the first recipient that ends the donation, and the error of
/// that recipient.
pub struct Planned {
    pub steps: Seq<Step>,
    pub failure: Option<DonationError>,
}

/// The plan of a node with the recipients `children` for the pool
/// `base_balance`, under the chain `parents`.
pub open spec fn planned(children: Seq<Recipient>, base_balance: nat, parents: Seq<Address>)
    -> Planned
    decreases children.len(),
{
    if children.len() == 0 {
        Planned { steps: Seq::empty(), failure: None }
    } else {
        let before = planned(children.drop_last(), base_balance, parents);
        if before.failure is Some {
            before
        } else {
            match decided(children.last(), base_balance, parents) {
                Ok(step) => Planned { steps: before.steps.push(step), failure: None },
                Err(error) => Planned { steps: before.steps, failure: Some(error) },
            }
        }
    }
}

/// The sum of the amounts that `steps` move.
pub open spec fn paid_out(steps: Seq<Step>) -> nat
    decreases steps.len(),
{
    if steps.len() == 0 {
        0
    } else {
        paid_out(steps.drop_last()) + steps.last().amount() as nat
    }
}

/// The plan of one node for one pool, ready to be carried out.
///
/// Step `i` is for recipient `i` of the list that the plan was made for.
/// Where `failure` holds an error, the steps end before the recipient that
/// raised it: they are carried out first, and the donation fails after them.
#[derive(Debug, PartialEq, Eq)]
pub struct Dispersal {
    pub steps: Vec<Step>,
    pub failure: Option<DonationError>,
}

impl View for Dispersal {
    type V = Planned;

    open spec fn view(&self) -> Planned {
        Planned { steps: self.steps@, failure: self.failure }
    }
}

/// A plan that has failed stays as it is, whatever recipients follow.
pub proof fn lemma_planned_stops(
    children: Seq<Recipient>,
    base_balance: nat,
    parents: Seq<Address>,
    reached: int,
)
    requires
        0 <= reached <= children.len(),
        planned(children.take(reached), base_balance, parents).failure is Some,
    ensures
        planned(children, base_balance, parents) == planned(
            children.take(reached),
            base_balance,
            parents,
        ),
    decreases children.len(),
{
    if reached == children.len() {
        assert(children.take(reached) == children);
    } else {
        assert(children.drop_last().take(reached) == children.take(reached));
        lemma_planned_stops(children.drop_last(), base_balance, parents, reached);
    }
}

/// Plans the distribution of `base_balance` among `children`, under the chain
/// `parents`.
pub fn disperse(children: &Vec<Recipient>, base_balance: u128, parents: &AncestorChain) -> (plan:
    Dispersal)
    ensures
        plan@ == planned(children@, base_balance as nat, parents@),
{
    let mut steps: Vec<Step> = Vec::new();
    let mut i: usize = 0;
    while i < children.len()
        invariant
            i <= children.len(),
            planned(children@.take(i as int), base_balance as nat, parents@) == (Planned {
                steps: steps@,
                failure: None,
            }),
        decreases children.len() - i,
    {
        proof {
            let next = children@.take(i + 1);
            assert(next.drop_last() == children@.take(i as int));
            assert(next.last() == children@[i as int]);
        }
        match apply_donation_type(&children[i], base_balance, parents) {
            Ok(step) => {
                steps.push(step);
            },
            Err(error) => {
                proof {
                    lemma_planned_stops(children@, base_balance as nat, parents@, i + 1);
                }
                return Dispersal { steps, failure: Some(error) };
            },
        }
        i += 1;
    }
    proof {
        assert(children@.take(i as int) == children@);
    }
    Dispersal { steps, failure: None }
}

/// A node without recipients plans nothing and fails on nothing: all of the
/// pool stays with it.
pub proof fn lemma_no_recipients(base_balance: nat, parents: Seq<Address>)
    ensures
        planned(Seq::<Recipient>::empty(), base_balance, parents) == (Planned {
            steps: Seq::empty(),
            failure: None,
        }),
{
}

/// A plan has at most one step for each recipient, the step for a recipient
/// is what was decided for it, and the plan has failed exactly where a
/// recipient is left without a step.
pub proof fn lemma_planned_steps(children: Seq<Recipient>, base_balance: nat, parents: Seq<Address>)
    ensures
        planned(children, base_balance, parents).steps.len() <= children.len(),
        forall|i: int|
            0 <= i < planned(children, base_balance, parents).steps.len() ==> decided(
                #[trigger] children[i],
                base_balance,
                parents,
            ) == Ok::<Step, DonationError>(planned(children, base_balance, parents).steps[i]),
        planned(children, base_balance, parents).failure is None <==> planned(
            children,
            base_balance,
            parents,
        ).steps.len() == children.len(),
        planned(children, base_balance, parents).failure matches Some(error) ==> decided(
            children[planned(children, base_balance, parents).steps.len() as int],
            base_balance,
            parents,
        ) == Err::<Step, DonationError>(error),
    decreases children.len(),
{
    if children.len() > 0 {
        let before = children.drop_last();
        lemma_planned_steps(before, base_balance, parents);
        let plan = planned(children, base_balance, parents);
        assert forall|i: int| 0 <= i < plan.steps.len() implies decided(
            #[trigger] children[i],
            base_balance,
            parents,
        ) == Ok::<Step, DonationError>(plan.steps[i]) by {
            if i < planned(before, base_balance, parents).steps.len() {
                assert(children[i] == before[i]);
            }
        }
    }
}

/// What a plan pays out is the shares of the recipients that it has steps
/// for, and so no more than the shares of them all.
pub proof fn lemma_paid_out(children: Seq<Recipient>, base_balance: nat, parents: Seq<Address>)
    requires
        base_balance <= u128::MAX,
    ensures
        paid_out(planned(children, base_balance, parents).steps) <= total_shares(
            base_balance,
            percentages(children),
        ),
        planned(children, base_balance, parents).failure is None ==> paid_out(
            planned(children, base_balance, parents).steps,
        ) == total_shares(base_balance, percentages(children)),
    decreases children.len(),
{
    if children.len() > 0 {
        let before = children.drop_last();
        lemma_paid_out(before, base_balance, parents);
        assert(percentages(children).drop_last() == percentages(before));
        assert(percentages(children).last() == children.last().percentage);
        let plan = planned(before, base_balance, parents);
        if plan.failure is None {
            match decided(children.last(), base_balance, parents) {
                Ok(step) => {
                    crate::share::lemma_share_at_most_pool(
                        base_balance,
                        children.last().percentage as nat,
                    );
                    assert(plan.steps.push(step).drop_last() == plan.steps);
                },
                Err(_) => {},
            }
        }
    }
}

/// Where the percentages of a node's recipients add up to at most one
/// hundred, the node pays out no more than the pool: the rest stays with it.
pub proof fn lemma_paid_out_within_pool(
    children: Seq<Recipient>,
    base_balance: nat,
    parents: Seq<Address>,
)
    requires
        base_balance <= u128::MAX,
        total_percentage(percentages(children)) <= 100,
    ensures
        paid_out(planned(children, base_balance, parents).steps) <= base_balance,
{
    lemma_paid_out(children, base_balance, parents);
    lemma_shares_within_pool(base_balance, percentages(children));
}

} // verus!
