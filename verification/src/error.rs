//! Why a donation fails.

use vstd::prelude::*;
use crate::ledger::LedgerError;
use crate::node::DataKey;

verus! {

/// Why a donation was given up.
///
/// Every failure ends the whole donation: whichever node of the call tree
/// meets it, the error travels up through every frame, and nothing that the
/// donation moved is kept.
#[derive(Debug, PartialEq, Eq)]
pub enum DonationError {
    /// Part of a node's configuration was read before the node was
    /// initialized. The key names the part.
    Configuration(DataKey),
    /// A recipient names a node that the donation has already gone through.
    /// `name` is the label of that recipient.
    CircularCascade { name: String },
    /// A stored recipient is malformed. `name` is its label.
    RegistryRead { name: String },
    /// The ledger refused to move value.
    Ledger(LedgerError),
}

impl Clone for DonationError {
    fn clone(&self) -> (copy: Self)
        ensures
            copy == *self,
    {
        match self {
            DonationError::Configuration(key) => DonationError::Configuration(*key),
            DonationError::CircularCascade { name } => DonationError::CircularCascade {
                name: name.clone(),
            },
            DonationError::RegistryRead { name } => DonationError::RegistryRead {
                name: name.clone(),
            },
            DonationError::Ledger(error) => DonationError::Ledger(*error),
        }
    }
}

} // verus!
