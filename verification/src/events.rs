//! Events that the token emits.

use vstd::prelude::*;

use crate::account::{Account, AccountModel};

verus! {

/// Event emitted when tokens are transferred.
///
/// Mirrors the ERC20 `Transfer` event.
///
/// - minting: `from = ZERO_ADDRESS`
/// - burning: `to = ZERO_ADDRESS` (not implemented in this reference)
#[derive(Clone, Copy, Debug)]
pub struct Transfer {
    /// The account tokens are transferred from.
    pub from: Account,
    /// The account receiving the tokens.
    pub to: Account,
    /// The value transferred.
    pub value: u64,
}

impl View for Transfer {
    type V = (AccountModel, AccountModel, u64);

    open spec fn view(&self) -> (AccountModel, AccountModel, u64) {
        (self.from@, self.to@, self.value)
    }
}

impl Transfer {
    /// Event topic used when a transfer occurs.
    pub const TOPIC: &'static str = "transfer";
}

/// Event emitted when an allowance is set.
///
/// Mirrors the ERC20 `Approval` event.
#[derive(Clone, Copy, Debug)]
pub struct Approval {
    /// The account granting the allowance.
    pub owner: Account,
    /// The spender allowed to spend `owner`'s funds.
    pub spender: Account,
    /// The value `spender` is allowed to spend.
    pub value: u64,
}

impl View for Approval {
    type V = (AccountModel, AccountModel, u64);

    open spec fn view(&self) -> (AccountModel, AccountModel, u64) {
        (self.owner@, self.spender@, self.value)
    }
}

impl Approval {
    /// Event topic used when an approval occurs.
    pub const TOPIC: &'static str = "approval";
}

} // verus!
