//! Why a call is refused, and the messages the contract reports.

use vstd::prelude::*;

verus! {

/// The token has already been initialized.
pub const ALREADY_INITIALIZED: &'static str = "DRC20: already initialized";

/// The account doesn't have enough tokens to perform the requested transfer.
pub const BALANCE_TOO_LOW: &'static str = "DRC20: balance too low";

/// The spender doesn't have enough allowance to perform the requested transfer.
pub const ALLOWANCE_TOO_LOW: &'static str = "DRC20: allowance too low";

/// Total supply overflow (only possible at initialization or an extreme transfer).
pub const SUPPLY_OVERFLOW: &'static str = "DRC20: total supply overflow";

/// Shielded transactions are not supported by this transparent token.
pub const SHIELDED_NOT_SUPPORTED: &'static str = "DRC20: shielded transactions are not supported";

/// The reserved `ZERO_ADDRESS` must not be used as a recipient/spender/holder.
pub const ZERO_ADDRESS_NOT_ALLOWED: &'static str = "DRC20: zero address not allowed";

/// A call made by a contract carries no caller.
pub const MISSING_CALLER: &'static str = "missing caller";

/// Why the token refuses a call.
#[derive(Clone, Copy, Debug, PartialEq, Eq, Structural)]
pub enum Drc20Error {
    /// `init` was called a second time.
    AlreadyInitialized,
    /// The sender holds fewer tokens than it tries to move.
    BalanceTooLow,
    /// The spender's allowance is smaller than the amount it tries to move.
    AllowanceTooLow,
    /// A balance or the total supply would exceed `u64::MAX`.
    SupplyOverflow,
    /// The call carries no public sender.
    ShieldedNotSupported,
    /// The reserved zero address was named as recipient, spender or holder.
    ZeroAddressNotAllowed,
    /// A call made by a contract carries no caller.
    MissingCaller,
}

impl Drc20Error {
    /// The message that the contract reports for this refusal.
    pub fn message(&self) -> (m: &'static str)
        ensures
            m == match self {
                Drc20Error::AlreadyInitialized => ALREADY_INITIALIZED,
                Drc20Error::BalanceTooLow => BALANCE_TOO_LOW,
                Drc20Error::AllowanceTooLow => ALLOWANCE_TOO_LOW,
                Drc20Error::SupplyOverflow => SUPPLY_OVERFLOW,
                Drc20Error::ShieldedNotSupported => SHIELDED_NOT_SUPPORTED,
                Drc20Error::ZeroAddressNotAllowed => ZERO_ADDRESS_NOT_ALLOWED,
                Drc20Error::MissingCaller => MISSING_CALLER,
            },
    {
        match self {
            Drc20Error::AlreadyInitialized => ALREADY_INITIALIZED,
            Drc20Error::BalanceTooLow => BALANCE_TOO_LOW,
            Drc20Error::AllowanceTooLow => ALLOWANCE_TOO_LOW,
            Drc20Error::SupplyOverflow => SUPPLY_OVERFLOW,
            Drc20Error::ShieldedNotSupported => SHIELDED_NOT_SUPPORTED,
            Drc20Error::ZeroAddressNotAllowed => ZERO_ADDRESS_NOT_ALLOWED,
            Drc20Error::MissingCaller => MISSING_CALLER,
        }
    }
}

} // verus!
