use cascading_donations::address::Address;
use cascading_donations::ledger::{Ledger, LedgerError};
use cascading_donations::organization::{
    add_member, get_account_identifier, get_contract_identifier, get_reward_by_type, is_member,
    is_reward_valid, remove_member, reward_member, DataKey, OrganizationContract,
    OrganizationError, Reward,
};

const TOKEN: [u8; 32] = [0xAA; 32];

fn key(n: u8) -> [u8; 32] {
    let mut k = [0u8; 32];
    k[31] = n;
    k
}

fn reward(kind: &str, value: u32) -> Reward {
    Reward { kind: kind.to_string(), value }
}

fn organization(contract_id: [u8; 32], admin: Address, thank: u32, allowed: u32)
    -> OrganizationContract {
    let mut contract = OrganizationContract::new(contract_id);
    let rewards = vec![reward("thank", thank), reward("congrat", 25)];
    contract.initialize(admin, "Kommit".to_string(), rewards, allowed, TOKEN);
    contract
}

#[test]
fn happy_path() {
    let admin_id = Address::Account(key(1));
    let member = key(2);
    let member_id = get_account_identifier(member);
    let doe_user = key(3);
    let contract_id = key(10);
    let mut ledger = Ledger::new();

    let reward_amount = 30;
    let allowed_funds_to_issue = 10000;
    let mut contract = organization(contract_id, admin_id, 30, allowed_funds_to_issue);

    assert_eq!(
        contract.org_name(),
        Ok("Kommit".to_string()),
        "Correct name set on contract"
    );
    assert_eq!(contract.get_bal(&ledger), Ok(0));

    contract.fund_c(&mut ledger).unwrap();

    assert_eq!(
        contract.get_bal(&ledger),
        Ok(allowed_funds_to_issue as u128),
        "Correct Funds found on contract"
    );

    contract.add_m(member);

    assert!(contract.get_m().contains(&member), "Member was successfully removed");

    contract.reward_m(&mut ledger, &member, &"thank".to_string()).unwrap();

    assert_eq!(
        ledger.balance(&TOKEN, &member_id),
        reward_amount,
        "Correct balance found on rewarded account"
    );

    contract.add_m(doe_user);
    println!("======= CONTRACT MEMBERS ========: {:?}", contract.get_m());

    let held = ledger.balance(&TOKEN, &member_id);
    ledger.approve(&TOKEN, &member_id, &get_contract_identifier(contract_id), held);

    contract.remove_m(&mut ledger, &member).unwrap();

    assert!(!contract.get_m().contains(&member), "Member was successfully removed");
    assert_eq!(
        ledger.balance(&TOKEN, &admin_id),
        allowed_funds_to_issue as u128,
        "Contract admin gets back member funds"
    );
    assert_eq!(
        ledger.balance(&TOKEN, &member_id),
        0,
        "Contract admin gets back member funds"
    );
    assert_eq!(contract.get_m(), vec![doe_user]);
}

#[test]
fn remove_no_member_account() {
    let admin_id = Address::Account(key(1));
    let doe_user = key(3);
    let mut ledger = Ledger::new();
    let contract = organization(key(10), admin_id, 35, 1000);
    contract.fund_c(&mut ledger).unwrap();

    let done = contract.reward_m(&mut ledger, &doe_user, &"congrat".to_string());

    assert_eq!(done, Err(OrganizationError::NotMember));
    assert_eq!(ledger.balance(&TOKEN, &admin_id), 1000);
}

#[test]
fn reward_no_member_account() {
    let admin_id = Address::Account(key(1));
    let doe_user = key(3);
    let contract_id = key(10);
    let mut ledger = Ledger::new();
    let mut contract = organization(contract_id, admin_id, 35, 1000);
    contract.fund_c(&mut ledger).unwrap();
    ledger.approve(
        &TOKEN,
        &get_account_identifier(doe_user),
        &get_contract_identifier(contract_id),
        0,
    );

    let done = contract.remove_m(&mut ledger, &doe_user);

    assert_eq!(done, Err(OrganizationError::NotMember));
}

#[test]
fn reward_with_invalid_type() {
    let admin_id = Address::Account(key(1));
    let doe_user = key(3);
    let mut ledger = Ledger::new();
    let mut contract = organization(key(10), admin_id, 35, 1000);
    contract.fund_c(&mut ledger).unwrap();
    contract.add_m(doe_user);

    let done = contract.reward_m(&mut ledger, &doe_user, &"contribut".to_string());

    assert_eq!(done, Err(OrganizationError::UnknownReward));
    assert_eq!(ledger.balance(&TOKEN, &admin_id), 1000);
    assert_eq!(ledger.balance(&TOKEN, &get_account_identifier(doe_user)), 0);
}

#[test]
fn identifiers_keep_the_kind() {
    assert_eq!(get_account_identifier(key(7)), Address::Account(key(7)));
    assert_eq!(get_contract_identifier(key(7)), Address::Node(key(7)));
    assert_ne!(get_account_identifier(key(7)), get_contract_identifier(key(7)));
}

#[test]
fn members_are_listed_in_order_and_may_repeat() {
    let mut members: Vec<[u8; 32]> = Vec::new();
    add_member(&mut members, key(1));
    add_member(&mut members, key(2));
    add_member(&mut members, key(1));

    assert_eq!(members, vec![key(1), key(2), key(1)]);
    assert!(is_member(&members, &key(2)));
    assert!(!is_member(&members, &key(3)));
}

#[test]
fn removing_strikes_the_first_occurrence_only() {
    let mut members = vec![key(1), key(2), key(1), key(3)];

    assert_eq!(remove_member(&mut members, &key(1)), Ok(()));
    assert_eq!(members, vec![key(2), key(1), key(3)]);

    assert_eq!(remove_member(&mut members, &key(9)), Err(OrganizationError::NotMember));
    assert_eq!(members, vec![key(2), key(1), key(3)]);
}

#[test]
fn first_reward_of_a_name_counts() {
    let rewards = vec![reward("thank", 30), reward("congrat", 25), reward("thank", 99)];

    assert_eq!(get_reward_by_type(&rewards, &"thank".to_string()), Some(30));
    assert_eq!(get_reward_by_type(&rewards, &"congrat".to_string()), Some(25));
    assert_eq!(get_reward_by_type(&rewards, &"other".to_string()), None);
    assert!(is_reward_valid(&rewards, &"congrat".to_string()));
    assert!(!is_reward_valid(&rewards, &"Congrat".to_string()));
}

#[test]
fn membership_is_looked_at_before_the_reward() {
    let members = vec![key(1)];
    let rewards = vec![reward("thank", 30)];

    assert_eq!(reward_member(&members, &rewards, &key(1), &"thank".to_string()), Ok(30));
    assert_eq!(
        reward_member(&members, &rewards, &key(2), &"nothing".to_string()),
        Err(OrganizationError::NotMember)
    );
    assert_eq!(
        reward_member(&members, &rewards, &key(1), &"nothing".to_string()),
        Err(OrganizationError::UnknownReward)
    );
}

#[test]
fn nothing_is_paid_before_initialize() {
    let mut ledger = Ledger::new();
    let mut contract = OrganizationContract::new(key(10));

    assert_eq!(contract.org_name(), Err(OrganizationError::NotInitialized(DataKey::OrgName)));
    assert_eq!(contract.get_tc_id(), Err(OrganizationError::NotInitialized(DataKey::TokenId)));
    assert_eq!(
        contract.get_bal(&ledger),
        Err(OrganizationError::NotInitialized(DataKey::TokenId))
    );
    assert_eq!(
        contract.fund_c(&mut ledger),
        Err(OrganizationError::NotInitialized(DataKey::TokenId))
    );
    assert_eq!(
        contract.reward_m(&mut ledger, &key(1), &"thank".to_string()),
        Err(OrganizationError::NotMember)
    );

    contract.add_m(key(1));

    assert_eq!(
        contract.reward_m(&mut ledger, &key(1), &"thank".to_string()),
        Err(OrganizationError::NotInitialized(DataKey::Rewards))
    );
    assert_eq!(
        contract.remove_m(&mut ledger, &key(1)),
        Err(OrganizationError::NotInitialized(DataKey::TokenId))
    );
    assert_eq!(contract.get_m(), vec![key(1)]);
}

#[test]
fn reward_beyond_the_funds_is_refused() {
    let admin_id = Address::Account(key(1));
    let mut ledger = Ledger::new();
    let mut contract = organization(key(10), admin_id, 35, 20);
    contract.fund_c(&mut ledger).unwrap();
    contract.add_m(key(2));

    let done = contract.reward_m(&mut ledger, &key(2), &"thank".to_string());

    assert_eq!(done, Err(OrganizationError::Ledger(LedgerError::InsufficientBalance)));
    assert_eq!(ledger.balance(&TOKEN, &admin_id), 20);
}

#[test]
fn member_who_approved_nothing_stays() {
    let admin_id = Address::Account(key(1));
    let member = key(2);
    let mut ledger = Ledger::new();
    let mut contract = organization(key(10), admin_id, 30, 1000);
    contract.fund_c(&mut ledger).unwrap();
    contract.add_m(member);
    contract.reward_m(&mut ledger, &member, &"thank".to_string()).unwrap();

    let done = contract.remove_m(&mut ledger, &member);

    assert_eq!(done, Err(OrganizationError::Ledger(LedgerError::InsufficientAllowance)));
    assert_eq!(contract.get_m(), vec![member]);
    assert_eq!(ledger.balance(&TOKEN, &get_account_identifier(member)), 30);
    assert_eq!(ledger.balance(&TOKEN, &admin_id), 970);
}

#[test]
fn member_without_funds_leaves_without_approval() {
    let admin_id = Address::Account(key(1));
    let member = key(2);
    let mut ledger = Ledger::new();
    let mut contract = organization(key(10), admin_id, 30, 1000);
    contract.add_m(member);

    assert_eq!(contract.remove_m(&mut ledger, &member), Ok(()));
    assert!(contract.get_m().is_empty());
}

#[test]
fn funds_are_issued_to_the_admin_each_time() {
    let admin_id = Address::Account(key(1));
    let mut ledger = Ledger::new();
    let contract = organization(key(10), admin_id, 30, 1000);

    contract.fund_c(&mut ledger).unwrap();
    contract.fund_c(&mut ledger).unwrap();

    assert_eq!(contract.get_bal(&ledger), Ok(2000));
    assert_eq!(contract.get_tc_id(), Ok(TOKEN));
}
