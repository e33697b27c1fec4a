//! Cascading donations.
//!
//! A node that receives a deposit fans it out at once, by fixed percentage
//! shares, to its recipients. A recipient that is itself a node does the same
//! with its share and its own recipients, and so a donation settles down a
//! tree of nodes that each know their own children only.
//!
//! - [`share`] computes a percentage of a pool, rounded down.
//! - [`recipient`] holds the recipients of a node, [`chain`] the nodes that a
//!   donation has gone through.
//! - [`engine`] decides what a node does with a pool; [`node`] is the node
//!   itself, with its ledger reference and its recipients.
//! - [`ledger`] is the ledger that nodes move value on.
//! - [`cascade`] says what a donation does to a whole network of nodes, and
//!   [`network`] carries it out in memory.
//! - [`organization`] rewards the members of an organization out of its
//!   admin's funds.

pub mod address;
pub mod cascade;
pub mod chain;
pub mod engine;
pub mod error;
pub mod ledger;
pub mod network;
pub mod node;
pub mod organization;
pub mod recipient;
pub mod share;

pub use crate::address::Address;
pub use crate::chain::AncestorChain;
pub use crate::error::DonationError;
pub use crate::ledger::{Ledger, LedgerError};
pub use crate::network::Network;
pub use crate::node::CascadingDonationContract;
pub use crate::organization::OrganizationContract;
pub use crate::recipient::{Recipient, RecipientRegistry};
