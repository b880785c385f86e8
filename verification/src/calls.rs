//! Arguments of the token's calls.

use vstd::prelude::*;

use crate::account::{Account, AccountModel, PUBLIC_KEY_RAW_SIZE};

verus! {

/// Size of a compressed BLS signature.
pub const SIGNATURE_BYTES: usize = 48;

/// One entry in the initial distribution.
#[derive(Clone, Copy, Debug)]
pub struct InitBalance {
    /// Account receiving minted tokens.
    pub account: Account,
    /// Amount minted (smallest units).
    pub amount: u64,
}

impl View for InitBalance {
    type V = (AccountModel, u64);

    open spec fn view(&self) -> (AccountModel, u64) {
        (self.account@, self.amount)
    }
}

/// Input for `init(Init)`.
#[derive(Clone, Debug)]
pub struct Init {
    /// Initial distribution entries.
    pub initial_balances: Vec<InitBalance>,
}

impl Init {
    /// The distribution, entry by entry.
    pub open spec fn entries(&self) -> Seq<(AccountModel, u64)> {
        self.initial_balances@.map_values(|e: InitBalance| e@)
    }
}

/// Input for `balance_of(BalanceOf)`.
#[derive(Clone, Copy, Debug)]
pub struct BalanceOf {
    /// Account to query.
    pub account: Account,
}

/// Input for `allowance(Allowance)`.
#[derive(Clone, Copy, Debug)]
pub struct Allowance {
    /// Token owner.
    pub owner: Account,
    /// Spender.
    pub spender: Account,
}

/// Input for `transfer(TransferCall)`.
#[derive(Clone, Copy, Debug)]
pub struct TransferCall {
    /// Recipient.
    pub to: Account,
    /// Amount to transfer.
    pub value: u64,
}

/// Input for `approve(ApproveCall)`.
#[derive(Clone, Copy, Debug)]
pub struct ApproveCall {
    /// Spender.
    pub spender: Account,
    /// Allowance amount.
    pub value: u64,
}

/// Input for `transfer_from(TransferFromCall)`.
#[derive(Clone, Copy, Debug)]
pub struct TransferFromCall {
    /// Owner whose allowance is being used.
    pub owner: Account,
    /// Recipient.
    pub to: Account,
    /// Amount to transfer.
    pub value: u64,
}

/// Input for `permit(PermitCall)`.
#[derive(Clone, Copy, Debug)]
pub struct PermitCall {
    /// Token owner (signer): the raw bytes of its BLS public key.
    pub owner: [u8; PUBLIC_KEY_RAW_SIZE],
    /// Spender being approved.
    pub spender: Account,
    /// Allowance amount.
    pub value: u64,
    /// Block height after which the permit expires.
    pub deadline: u64,
    /// BLS signature over the permit digest, compressed.
    pub signature: [u8; SIGNATURE_BYTES],
}

} // verus!
