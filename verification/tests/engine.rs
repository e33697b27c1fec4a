use cascading_donations::address::{same_key, Address};
use cascading_donations::chain::AncestorChain;
use cascading_donations::engine::{
    apply_donation_type, disperse, donate_to_child, donate_to_parent_child, Dispersal, Step,
};
use cascading_donations::error::DonationError;
use cascading_donations::node::{CascadingDonationContract, DataKey, Pull};
use cascading_donations::recipient::{Recipient, RecipientRegistry};
use cascading_donations::share::{share, FULL_SHARE};

fn key(n: u8) -> [u8; 32] {
    let mut k = [0u8; 32];
    k[0] = n;
    k
}

fn recipient(name: &str, dest: Address, percentage: u32) -> Recipient {
    Recipient { name: name.to_string(), dest, percentage }
}

#[test]
fn share_is_the_percentage_rounded_down() {
    assert_eq!(share(1000, 10), 100);
    assert_eq!(share(1000, 30), 300);
    assert_eq!(share(999, 33), 329);
    assert_eq!(share(1, 99), 0);
    assert_eq!(share(199, 50), 99);
    assert_eq!(share(7, 100), 7);
    assert_eq!(share(7, 0), 0);
    assert_eq!(share(0, 100), 0);
    assert_eq!(FULL_SHARE, 100);
}

#[test]
fn share_of_the_largest_pool_does_not_overflow() {
    assert_eq!(share(u128::MAX, 100), u128::MAX);
    assert_eq!(share(u128::MAX, 0), 0);
    // u128::MAX = 340282366920938463463374607431768211455
    assert_eq!(share(u128::MAX, 50), 170141183460469231731687303715884105727);
    assert_eq!(share(u128::MAX, 1), 3402823669209384634633746074317682114);
    assert_eq!(share(u128::MAX, 99), 336879543251729078828740861357450529340);
}

#[test]
fn shares_of_a_list_stay_within_the_pool() {
    let percentages = [33u32, 33, 34];
    for pool in [0u128, 1, 2, 3, 99, 100, 101, 999, 1000, u128::MAX] {
        let total: u128 = percentages.iter().map(|p| share(pool, *p)).sum();
        assert!(total <= pool);
    }
    // A list of more than one hundred percent overdraws a pool of 100.
    assert_eq!(share(100, 60) + share(100, 41), 101);
}

#[test]
fn keys_are_compared_byte_by_byte() {
    let mut other = key(1);
    assert!(same_key(&key(1), &other));
    other[31] = 1;
    assert!(!same_key(&key(1), &other));
}

#[test]
fn account_and_node_of_the_same_bytes_differ() {
    let account = Address::Account(key(1));
    let node = Address::Node(key(1));
    assert!(account.same(&Address::Account(key(1))));
    assert!(node.same(&Address::Node(key(1))));
    assert!(!account.same(&node));
    assert!(!node.same(&Address::Node(key(2))));
    assert!(node.is_node());
    assert!(!account.is_node());
}

#[test]
fn root_chain_holds_the_node_alone() {
    let chain = AncestorChain::root(key(1));
    assert_eq!(chain.to_vec(), vec![Address::Node(key(1))]);
    assert_eq!(chain.len(), 1);
    assert!(chain.contains(&Address::Node(key(1))));
    assert!(!chain.contains(&Address::Account(key(1))));
    assert!(!chain.contains(&Address::Node(key(2))));
    assert_eq!(AncestorChain::new().len(), 0);
}

#[test]
fn chain_is_an_ordered_set() {
    let chain = AncestorChain::root(key(1)).with(Address::Node(key(2)));
    assert_eq!(chain.to_vec(), vec![Address::Node(key(1)), Address::Node(key(2))]);

    let again = chain.with(Address::Node(key(1)));
    assert_eq!(again, chain);

    let longer = chain.with(Address::Node(key(3)));
    assert_eq!(
        longer.to_vec(),
        vec![Address::Node(key(1)), Address::Node(key(2)), Address::Node(key(3))]
    );
    // The chain that was extended is as it was.
    assert_eq!(chain.len(), 2);
}

#[test]
fn chain_from_a_list_keeps_first_occurrences() {
    let listed = vec![
        Address::Node(key(2)),
        Address::Node(key(1)),
        Address::Node(key(2)),
        Address::Account(key(2)),
        Address::Node(key(1)),
    ];
    let chain = AncestorChain::from_vec(&listed);
    assert_eq!(
        chain.to_vec(),
        vec![Address::Node(key(2)), Address::Node(key(1)), Address::Account(key(2))]
    );
    assert_eq!(AncestorChain::from_vec(&Vec::new()), AncestorChain::new());
}

#[test]
fn registry_returns_what_was_stored() {
    let list = vec![
        recipient("b", Address::Account(key(2)), 30),
        recipient("a", Address::Node(key(1)), 10),
        recipient("b", Address::Account(key(2)), 30),
    ];
    let mut registry = RecipientRegistry::new();
    assert!(registry.get_children().is_empty());
    assert_eq!(registry.len(), 0);

    registry.set_children(list.clone());
    assert_eq!(registry.get_children(), list);
    assert_eq!(registry.len(), 3);

    let shorter = vec![recipient("c", Address::Account(key(3)), 150)];
    registry.set_children(shorter.clone());
    assert_eq!(registry.get_children(), shorter);

    registry.set_children(Vec::new());
    assert!(registry.get_children().is_empty());
}

#[test]
fn recipient_is_well_formed_up_to_one_hundred_percent() {
    assert!(recipient("a", Address::Account(key(1)), 0).is_well_formed());
    assert!(recipient("a", Address::Account(key(1)), 100).is_well_formed());
    assert!(!recipient("a", Address::Account(key(1)), 101).is_well_formed());
}

#[test]
fn account_is_paid_its_share() {
    assert_eq!(donate_to_child(key(2), 10, 1000), Step::Pay { to: key(2), amount: 100 });
    assert_eq!(donate_to_child(key(2), 0, 1000), Step::Pay { to: key(2), amount: 0 });
    let step = donate_to_child(key(2), 25, 10);
    assert_eq!(step.to(), Address::Account(key(2)));
    assert_eq!(step.value(), 2);
}

#[test]
fn child_node_is_paid_its_share_and_continues() {
    assert_eq!(
        donate_to_parent_child(key(3), 20, 1000),
        Step::Forward { to: key(3), amount: 200 }
    );
    let step = donate_to_parent_child(key(3), 100, 7);
    assert_eq!(step.to(), Address::Node(key(3)));
    assert_eq!(step.value(), 7);
}

#[test]
fn each_recipient_is_decided_on_its_own() {
    let parents = AncestorChain::root(key(1));

    assert_eq!(
        apply_donation_type(&recipient("a", Address::Account(key(2)), 30), 1000, &parents),
        Ok(Step::Pay { to: key(2), amount: 300 })
    );
    assert_eq!(
        apply_donation_type(&recipient("n", Address::Node(key(3)), 20), 1000, &parents),
        Ok(Step::Forward { to: key(3), amount: 200 })
    );
    assert_eq!(
        apply_donation_type(&recipient("back", Address::Node(key(1)), 20), 1000, &parents),
        Err(DonationError::CircularCascade { name: "back".to_string() })
    );
    // An account is never a circle.
    assert_eq!(
        apply_donation_type(&recipient("twin", Address::Account(key(1)), 20), 1000, &parents),
        Ok(Step::Pay { to: key(1), amount: 200 })
    );
    assert_eq!(
        apply_donation_type(&recipient("bad", Address::Account(key(2)), 101), 1000, &parents),
        Err(DonationError::RegistryRead { name: "bad".to_string() })
    );
    // What is malformed is found before a circle is.
    assert_eq!(
        apply_donation_type(&recipient("both", Address::Node(key(1)), 200), 1000, &parents),
        Err(DonationError::RegistryRead { name: "both".to_string() })
    );
}

#[test]
fn plan_has_a_step_for_each_recipient() {
    let children = vec![
        recipient("dep_1", Address::Account(key(2)), 10),
        recipient("c_parent_1", Address::Node(key(3)), 20),
        recipient("none", Address::Account(key(4)), 0),
    ];
    let plan = disperse(&children, 1000, &AncestorChain::root(key(1)));

    assert_eq!(
        plan,
        Dispersal {
            steps: vec![
                Step::Pay { to: key(2), amount: 100 },
                Step::Forward { to: key(3), amount: 200 },
                Step::Pay { to: key(4), amount: 0 },
            ],
            failure: None,
        }
    );
}

#[test]
fn plan_ends_before_the_recipient_that_fails() {
    let children = vec![
        recipient("dep_1", Address::Account(key(2)), 10),
        recipient("back", Address::Node(key(1)), 20),
        recipient("late", Address::Account(key(4)), 200),
    ];
    let plan = disperse(&children, 1000, &AncestorChain::root(key(1)));

    assert_eq!(plan.steps, vec![Step::Pay { to: key(2), amount: 100 }]);
    assert_eq!(plan.failure, Some(DonationError::CircularCascade { name: "back".to_string() }));
}

#[test]
fn plan_for_no_recipients_is_empty() {
    let plan = disperse(&Vec::new(), 1000, &AncestorChain::root(key(1)));
    assert_eq!(plan, Dispersal { steps: Vec::new(), failure: None });
}

#[test]
fn plan_for_an_empty_pool_pays_zero_to_everyone() {
    let children = vec![
        recipient("a", Address::Account(key(2)), 100),
        recipient("b", Address::Node(key(3)), 50),
    ];
    let plan = disperse(&children, 0, &AncestorChain::root(key(1)));
    assert_eq!(
        plan.steps,
        vec![Step::Pay { to: key(2), amount: 0 }, Step::Forward { to: key(3), amount: 0 }]
    );
    assert_eq!(plan.failure, None);
}

#[test]
fn node_starts_uninitialized() {
    let node = CascadingDonationContract::new(key(1));
    assert_eq!(node.address(), key(1));
    assert!(!node.is_active());
    assert!(node.g_children().is_empty());
    assert_eq!(
        node.get_token_contract_id(),
        Err(DonationError::Configuration(DataKey::TkContract))
    );
    assert_eq!(
        node.donate(10, Address::Account(key(2))),
        Err(DonationError::Configuration(DataKey::TkContract))
    );
    assert_eq!(
        node.donate_ch(10, &AncestorChain::new()),
        Err(DonationError::Configuration(DataKey::TkContract))
    );
}

#[test]
fn initialized_node_pulls_the_donation_in() {
    let token = key(9);
    let mut node = CascadingDonationContract::new(key(1));
    let children = vec![recipient("a", Address::Account(key(2)), 10)];
    node.initialize(token, children.clone());

    assert!(node.is_active());
    assert_eq!(node.get_token_contract_id(), Ok(token));
    assert_eq!(node.g_children(), children);
    assert_eq!(
        node.donate(1000, Address::Account(key(5))),
        Ok(Pull {
            currency: token,
            spender: Address::Node(key(1)),
            from: Address::Account(key(5)),
            to: Address::Node(key(1)),
            amount: 1000,
        })
    );
}

#[test]
fn continuing_node_puts_itself_behind_its_parents() {
    let mut node = CascadingDonationContract::new(key(2));
    node.initialize(key(9), Vec::new());

    let chain = node.donate_ch(200, &AncestorChain::root(key(1))).unwrap();
    assert_eq!(chain.to_vec(), vec![Address::Node(key(1)), Address::Node(key(2))]);

    // A node that its parents hold already is not put in again.
    let held = node.donate_ch(200, &chain).unwrap();
    assert_eq!(held, chain);
}

#[test]
fn children_can_be_replaced_and_the_ledger_reference_stays() {
    let mut node = CascadingDonationContract::new(key(1));
    node.initialize(key(9), vec![recipient("a", Address::Account(key(2)), 10)]);
    let replaced = vec![recipient("b", Address::Account(key(3)), 20)];

    node.s_children(replaced.clone());

    assert_eq!(node.g_children(), replaced);
    assert_eq!(node.get_token_contract_id(), Ok(key(9)));

    node.initialize(key(8), Vec::new());
    assert_eq!(node.get_token_contract_id(), Ok(key(8)));
    assert!(node.g_children().is_empty());
}

#[test]
fn node_is_restored_from_what_was_stored() {
    let children = vec![recipient("a", Address::Account(key(2)), 10)];

    let active = CascadingDonationContract::restore(key(1), Some(key(9)), children.clone());
    assert_eq!(active.address(), key(1));
    assert!(active.is_active());
    assert_eq!(active.get_token_contract_id(), Ok(key(9)));
    assert_eq!(active.g_children(), children);

    let mut same = CascadingDonationContract::new(key(1));
    same.initialize(key(9), children.clone());
    assert_eq!(active, same);

    let waiting = CascadingDonationContract::restore(key(1), None, children.clone());
    assert!(!waiting.is_active());
    assert_eq!(waiting.g_children(), children);
    assert_eq!(CascadingDonationContract::restore(key(1), None, Vec::new()),
        CascadingDonationContract::new(key(1)));
}
