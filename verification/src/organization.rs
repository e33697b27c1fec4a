//! An organization that rewards its members out of its admin's funds.
//!
//! The organization keeps a list of member accounts and a table of rewards,
//! each a fixed amount under a name. Its admin holds the funds: rewards are
//! paid out of them, and what a member holds goes back to them when the
//! member leaves.

use vstd::prelude::*;
use crate::address::{same_key, Address};
use crate::ledger::{Ledger, LedgerError, LedgerView};

verus! {

/// The parts of an organization's stored state.
#[derive(Clone, Copy, Debug, PartialEq, Eq, Hash)]
pub enum DataKey {
    /// The organization's name.
    OrgName,
    /// The reference to the ledger on which rewards are paid.
    TokenId,
    /// The admin, who holds the organization's funds.
    AdminId,
    /// The rewards that the organization gives.
    Rewards,
    /// The member accounts.
    Members,
    /// How much the organization may issue to its admin.
    AllowedF,
}

/// Why the organization refuses.
#[derive(Clone, Copy, Debug, PartialEq, Eq)]
pub enum OrganizationError {
    /// A part of the state was read before the organization was initialized.
    /// The key names the part.
    NotInitialized(DataKey),
    /// The account does not belong to the organization.
    NotMember,
    /// The organization gives no reward under that name.
    UnknownReward,
    /// The ledger refused to move value.
    Ledger(LedgerError),
}

/// A reward: a fixed amount, paid under a name.
#[derive(Debug, PartialEq, Eq)]
pub struct Reward {
    pub kind: String,
    pub value: u32,
}

impl Clone for Reward {
    fn clone(&self) -> (copy: Self)
        ensures
            copy == *self,
    {
        Reward { kind: self.kind.clone(), value: self.value }
    }
}

/// An account, as the ledger addresses it.
pub fn get_account_identifier(account_id: [u8; 32]) -> (identifier: Address)
    ensures
        identifier == Address::Account(account_id),
{
    Address::Account(account_id)
}

/// A contract, as the ledger addresses it.
pub fn get_contract_identifier(contract_id: [u8; 32]) -> (identifier: Address)
    ensures
        identifier == Address::Node(contract_id),
{
    Address::Node(contract_id)
}

/// Whether `i` is the first place at which `members` holds `account`.
pub open spec fn first_member_at(members: Seq<[u8; 32]>, account: [u8; 32], i: int) -> bool {
    &&& 0 <= i < members.len()
    &&& members[i] == account
    &&& forall|j: int| 0 <= j < i ==> members[j] != account
}

/// `members` without the first occurrence of `account`.
pub open spec fn without(members: Seq<[u8; 32]>, account: [u8; 32]) -> Seq<[u8; 32]> {
    if exists|i: int| first_member_at(members, account, i) {
        members.remove(choose|i: int| first_member_at(members, account, i))
    } else {
        members
    }
}

fn first_index_of(members: &Vec<[u8; 32]>, account: &[u8; 32]) -> (place: Option<usize>)
    ensures
        match place {
            Some(i) => first_member_at(members@, *account, i as int),
            None => !members@.contains(*account),
        },
{
    let mut i: usize = 0;
    while i < members.len()
        invariant
            i <= members.len(),
            forall|j: int| 0 <= j < i ==> members@[j] != *account,
        decreases members.len() - i,
    {
        if same_key(&members[i], account) {
            return Some(i);
        }
        i += 1;
    }
    None
}

/// Whether `to` is a member.
pub fn is_member(members: &Vec<[u8; 32]>, to: &[u8; 32]) -> (member: bool)
    ensures
        member == members@.contains(*to),
{
    first_index_of(members, to).is_some()
}

/// Takes `account` in as a member, behind those that are members already.
/// An account that is a member already is listed once more.
pub fn add_member(members: &mut Vec<[u8; 32]>, account: [u8; 32])
    ensures
        final(members)@ == old(members)@.push(account),
{
    members.push(account);
}

/// Strikes the first occurrence of `from` off the list, or refuses where
/// `from` is no member.
pub fn remove_member(members: &mut Vec<[u8; 32]>, from: &[u8; 32]) -> (done: Result<
    (),
    OrganizationError,
>)
    ensures
        old(members)@.contains(*from) ==> done is Ok && final(members)@ == without(
            old(members)@,
            *from,
        ),
        !old(members)@.contains(*from) ==> done == Err::<(), OrganizationError>(
            OrganizationError::NotMember,
        ) && final(members)@ == old(members)@,
{
    match first_index_of(members, from) {
        None => Err(OrganizationError::NotMember),
        Some(index) => {
            proof {
                lemma_first_member(members@, *from, index as int);
            }
            members.remove(index);
            Ok(())
        },
    }
}

proof fn lemma_first_member(members: Seq<[u8; 32]>, account: [u8; 32], i: int)
    requires
        first_member_at(members, account, i),
    ensures
        members.contains(account),
        without(members, account) == members.remove(i),
{
    let chosen = choose|k: int| first_member_at(members, account, k);
    assert(first_member_at(members, account, chosen));
    if chosen < i {
        assert(members[chosen] != account);
    }
    if i < chosen {
        assert(members[i] != account);
    }
}

/// Whether `i` is the first place at which `rewards` holds a reward named
/// `kind`.
pub open spec fn first_reward_at(rewards: Seq<Reward>, kind: Seq<char>, i: int) -> bool {
    &&& 0 <= i < rewards.len()
    &&& rewards[i].kind@ == kind
    &&& forall|j: int| 0 <= j < i ==> (#[trigger] rewards[j]).kind@ != kind
}

/// The amount of the reward named `kind`: that of the first reward of that
/// name, and nothing where there is none.
pub open spec fn reward_of(rewards: Seq<Reward>, kind: Seq<char>) -> Option<u32> {
    if exists|i: int| first_reward_at(rewards, kind, i) {
        Some(rewards[choose|i: int| first_reward_at(rewards, kind, i)].value)
    } else {
        None
    }
}

proof fn lemma_first_reward(rewards: Seq<Reward>, kind: Seq<char>, i: int)
    requires
        first_reward_at(rewards, kind, i),
    ensures
        reward_of(rewards, kind) == Some(rewards[i].value),
{
    let chosen = choose|k: int| first_reward_at(rewards, kind, k);
    assert(first_reward_at(rewards, kind, chosen));
    if chosen < i {
        assert(rewards[chosen].kind@ != kind);
    }
    if i < chosen {
        assert(rewards[i].kind@ != kind);
    }
}

/// The amount of the reward named `r_type`, where there is one.
pub fn get_reward_by_type(rewards: &Vec<Reward>, r_type: &String) -> (value: Option<u32>)
    ensures
        value == reward_of(rewards@, r_type@),
{
    let mut i: usize = 0;
    while i < rewards.len()
        invariant
            i <= rewards.len(),
            forall|j: int| 0 <= j < i ==> (#[trigger] rewards@[j]).kind@ != r_type@,
        decreases rewards.len() - i,
    {
        if rewards[i].kind == *r_type {
            proof {
                lemma_first_reward(rewards@, r_type@, i as int);
            }
            return Some(rewards[i].value);
        }
        i += 1;
    }
    None
}

/// Whether the organization gives a reward named `key`.
pub fn is_reward_valid(rewards: &Vec<Reward>, key: &String) -> (valid: bool)
    ensures
        valid == (reward_of(rewards@, key@) is Some),
{
    get_reward_by_type(rewards, key).is_some()
}

/// What `to` is owed for a reward named `kind`: the amount of the reward, or
/// the refusal of an account that is no member, or of a name under which
/// nothing is given. Membership is looked at first.
pub open spec fn rewarded(
    members: Seq<[u8; 32]>,
    rewards: Seq<Reward>,
    to: [u8; 32],
    kind: Seq<char>,
) -> Result<u32, OrganizationError> {
    if !members.contains(to) {
        Err(OrganizationError::NotMember)
    } else {
        match reward_of(rewards, kind) {
            None => Err(OrganizationError::UnknownReward),
            Some(value) => Ok(value),
        }
    }
}

/// Decides what `to` is owed for a reward named `reward_type`.
pub fn reward_member(
    members: &Vec<[u8; 32]>,
    rewards: &Vec<Reward>,
    to: &[u8; 32],
    reward_type: &String,
) -> (amount: Result<u32, OrganizationError>)
    ensures
        amount == rewarded(members@, rewards@, *to, reward_type@),
{
    if !is_member(members, to) {
        return Err(OrganizationError::NotMember);
    }
    if !is_reward_valid(rewards, reward_type) {
        return Err(OrganizationError::UnknownReward);
    }
    match get_reward_by_type(rewards, reward_type) {
        Some(value) => Ok(value),
        None => Err(OrganizationError::UnknownReward),
    }
}

/// What `initialize` stores in an organization.
pub struct Settings {
    pub admin: Address,
    pub org_name: String,
    pub rewards: Seq<Reward>,
    pub allowed_funds: u128,
    pub token: [u8; 32],
}

/// What an organization is at a given moment.
pub struct OrganizationView {
    /// The address under which the organization acts on the ledger.
    pub address: [u8; 32],
    /// What `initialize` stored; `None` before.
    pub settings: Option<Settings>,
    /// The member accounts, in the order in which they came.
    pub members: Seq<[u8; 32]>,
}

impl OrganizationView {
    /// What becomes of the ledger when the organization issues its funds to
    /// its admin.
    pub open spec fn fund_c(self, ledger: LedgerView) -> Result<LedgerView, OrganizationError> {
        match self.settings {
            None => Err(OrganizationError::NotInitialized(DataKey::TokenId)),
            Some(settings) => match ledger.mint(
                settings.token,
                settings.admin,
                settings.allowed_funds as nat,
            ) {
                Err(error) => Err(OrganizationError::Ledger(error)),
                Ok(issued) => Ok(issued),
            },
        }
    }

    /// What becomes of the ledger when the member `to` is given the reward
    /// named `kind`: the admin pays the amount of the reward to the member.
    pub open spec fn reward_m(self, ledger: LedgerView, to: [u8; 32], kind: Seq<char>) -> Result<
        LedgerView,
        OrganizationError,
    > {
        if !self.members.contains(to) {
            Err(OrganizationError::NotMember)
        } else {
            match self.settings {
                None => Err(OrganizationError::NotInitialized(DataKey::Rewards)),
                Some(settings) => match rewarded(self.members, settings.rewards, to, kind) {
                    Err(error) => Err(error),
                    Ok(value) => match ledger.transfer(
                        settings.token,
                        settings.admin,
                        Address::Account(to),
                        value as nat,
                    ) {
                        Err(error) => Err(OrganizationError::Ledger(error)),
                        Ok(paid) => Ok(paid),
                    },
                },
            }
        }
    }

    /// What becomes of the ledger when the member `from` leaves: the
    /// organization moves all that the member holds to its admin, out of
    /// what the member has approved for it.
    pub open spec fn remove_m(self, ledger: LedgerView, from: [u8; 32]) -> Result<
        LedgerView,
        OrganizationError,
    > {
        if !self.members.contains(from) {
            Err(OrganizationError::NotMember)
        } else {
            match self.settings {
                None => Err(OrganizationError::NotInitialized(DataKey::TokenId)),
                Some(settings) => match ledger.transfer_from(
                    settings.token,
                    Address::Node(self.address),
                    Address::Account(from),
                    settings.admin,
                    ledger.balance(settings.token, Address::Account(from)),
                ) {
                    Err(error) => Err(OrganizationError::Ledger(error)),
                    Ok(recalled) => Ok(recalled),
                },
            }
        }
    }
}

#[derive(Debug, PartialEq, Eq)]
struct Stored {
    admin: Address,
    org_name: String,
    rewards: Vec<Reward>,
    allowed_funds: u128,
    token: [u8; 32],
}

impl Stored {
    spec fn settings(self) -> Settings {
        Settings {
            admin: self.admin,
            org_name: self.org_name,
            rewards: self.rewards@,
            allowed_funds: self.allowed_funds,
            token: self.token,
        }
    }
}

/// An organization, with what it has stored.
///
/// An organization can take members in before it is initialized; it can pay
/// and name itself only afterwards. Where an operation moves value and
/// fails, neither the ledger nor the organization is changed.
#[derive(Debug, PartialEq, Eq)]
pub struct OrganizationContract {
    address: [u8; 32],
    stored: Option<Stored>,
    members: Vec<[u8; 32]>,
}

impl View for OrganizationContract {
    type V = OrganizationView;

    closed spec fn view(&self) -> OrganizationView {
        OrganizationView {
            address: self.address,
            settings: match self.stored {
                None => None,
                Some(stored) => Some(stored.settings()),
            },
            members: self.members@,
        }
    }
}

impl OrganizationContract {
    /// An organization that acts under `address` and has stored nothing yet.
    pub fn new(address: [u8; 32]) -> (organization: OrganizationContract)
        ensures
            organization@ == (OrganizationView {
                address,
                settings: None,
                members: Seq::empty(),
            }),
    {
        OrganizationContract { address, stored: None, members: Vec::new() }
    }

    /// Stores the admin, the name, the rewards, the amount that may be
    /// issued and the reference to the ledger, over whatever was stored
    /// before. The members stay.
    pub fn initialize(
        &mut self,
        admin: Address,
        org_name: String,
        rewards: Vec<Reward>,
        fund_amount: u32,
        token_c_id: [u8; 32],
    )
        ensures
            final(self)@ == (OrganizationView {
                settings: Some(
                    Settings {
                        admin,
                        org_name,
                        rewards: rewards@,
                        allowed_funds: fund_amount as u128,
                        token: token_c_id,
                    },
                ),
                ..old(self)@
            }),
    {
        self.stored = Some(
            Stored { admin, org_name, rewards, allowed_funds: fund_amount as u128, token: token_c_id },
        );
    }

    /// Takes `account` in as a member.
    pub fn add_m(&mut self, account: [u8; 32])
        ensures
            final(self)@ == (OrganizationView {
                members: old(self)@.members.push(account),
                ..old(self)@
            }),
    {
        add_member(&mut self.members, account);
    }

    /// The member accounts, in the order in which they came.
    pub fn get_m(&self) -> (members: Vec<[u8; 32]>)
        ensures
            members@ == self@.members,
    {
        let mut members: Vec<[u8; 32]> = Vec::new();
        let mut i: usize = 0;
        while i < self.members.len()
            invariant
                i <= self.members.len(),
                members@ == self.members@.take(i as int),
            decreases self.members.len() - i,
        {
            members.push(self.members[i]);
            proof {
                assert(self.members@.take(i + 1) == self.members@.take(i as int).push(
                    self.members@[i as int],
                ));
            }
            i += 1;
        }
        proof {
            assert(self.members@.take(i as int) == self.members@);
        }
        members
    }

    /// The organization's name.
    pub fn org_name(&self) -> (name: Result<String, OrganizationError>)
        ensures
            name == match self@.settings {
                Some(settings) => Ok::<String, OrganizationError>(settings.org_name),
                None => Err(OrganizationError::NotInitialized(DataKey::OrgName)),
            },
    {
        match &self.stored {
            Some(stored) => Ok(stored.org_name.clone()),
            None => Err(OrganizationError::NotInitialized(DataKey::OrgName)),
        }
    }

    /// The reference to the ledger on which the organization pays.
    pub fn get_tc_id(&self) -> (token: Result<[u8; 32], OrganizationError>)
        ensures
            token == match self@.settings {
                Some(settings) => Ok::<[u8; 32], OrganizationError>(settings.token),
                None => Err(OrganizationError::NotInitialized(DataKey::TokenId)),
            },
    {
        match &self.stored {
            Some(stored) => Ok(stored.token),
            None => Err(OrganizationError::NotInitialized(DataKey::TokenId)),
        }
    }

    /// What the admin holds on `ledger`: the organization's funds.
    pub fn get_bal(&self, ledger: &Ledger) -> (balance: Result<u128, OrganizationError>)
        ensures
            match self@.settings {
                Some(settings) => balance is Ok && balance->Ok_0 == ledger@.balance(
                    settings.token,
                    settings.admin,
                ),
                None => balance == Err::<u128, OrganizationError>(
                    OrganizationError::NotInitialized(DataKey::TokenId),
                ),
            },
    {
        match &self.stored {
            Some(stored) => Ok(ledger.balance(&stored.token, &stored.admin)),
            None => Err(OrganizationError::NotInitialized(DataKey::TokenId)),
        }
    }

    /// Issues to the admin the amount that the organization may issue.
    pub fn fund_c(&self, ledger: &mut Ledger) -> (done: Result<(), OrganizationError>)
        ensures
            match self@.fund_c(old(ledger)@) {
                Ok(issued) => done is Ok && final(ledger)@ == issued,
                Err(error) => done == Err::<(), OrganizationError>(error) && final(ledger)@ == old(
                    ledger,
                )@,
            },
    {
        match &self.stored {
            None => Err(OrganizationError::NotInitialized(DataKey::TokenId)),
            Some(stored) => match ledger.mint(&stored.token, &stored.admin, stored.allowed_funds) {
                Ok(()) => Ok(()),
                Err(error) => Err(OrganizationError::Ledger(error)),
            },
        }
    }

    /// Gives the member `to` the reward named `r_type`, out of the admin's
    /// funds.
    pub fn reward_m(&self, ledger: &mut Ledger, to: &[u8; 32], r_type: &String) -> (done: Result<
        (),
        OrganizationError,
    >)
        ensures
            match self@.reward_m(old(ledger)@, *to, r_type@) {
                Ok(paid) => done is Ok && final(ledger)@ == paid,
                Err(error) => done == Err::<(), OrganizationError>(error) && final(ledger)@ == old(
                    ledger,
                )@,
            },
    {
        if !is_member(&self.members, to) {
            return Err(OrganizationError::NotMember);
        }
        let stored = match &self.stored {
            Some(stored) => stored,
            None => {
                return Err(OrganizationError::NotInitialized(DataKey::Rewards));
            },
        };
        let value = match reward_member(&self.members, &stored.rewards, to, r_type) {
            Ok(value) => value,
            Err(error) => {
                return Err(error);
            },
        };
        match ledger.transfer(
            &stored.token,
            &stored.admin,
            &get_account_identifier(*to),
            value as u128,
        ) {
            Ok(()) => Ok(()),
            Err(error) => Err(OrganizationError::Ledger(error)),
        }
    }

    /// Strikes the member `from` off the list and moves all that the member
    /// holds back to the admin.
    pub fn remove_m(&mut self, ledger: &mut Ledger, from: &[u8; 32]) -> (done: Result<
        (),
        OrganizationError,
    >)
        ensures
            match old(self)@.remove_m(old(ledger)@, *from) {
                Ok(recalled) => done is Ok && final(ledger)@ == recalled && final(self)@ == (
                OrganizationView {
                    members: without(old(self)@.members, *from),
                    ..old(self)@
                }),
                Err(error) => done == Err::<(), OrganizationError>(error) && final(ledger)@ == old(
                    ledger,
                )@ && final(self)@ == old(self)@,
            },
    {
        if !is_member(&self.members, from) {
            return Err(OrganizationError::NotMember);
        }
        let stored = match &self.stored {
            Some(stored) => stored,
            None => {
                return Err(OrganizationError::NotInitialized(DataKey::TokenId));
            },
        };
        let from_identifier = get_account_identifier(*from);
        let member_balance = ledger.balance(&stored.token, &from_identifier);
        match ledger.transfer_from(
            &stored.token,
            &get_contract_identifier(self.address),
            &from_identifier,
            &stored.admin,
            member_balance,
        ) {
            Ok(()) => {},
            Err(error) => {
                return Err(OrganizationError::Ledger(error));
            },
        }
        match remove_member(&mut self.members, from) {
            Ok(()) => Ok(()),
            Err(error) => Err(error),
        }
    }
}

} // verus!
