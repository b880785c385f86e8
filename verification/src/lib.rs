//! DRC20: a minimal ERC20-like fungible token for the Dusk network.
//!
//! - transfer / approve / transfer_from
//! - balance_of / allowance / total_supply
//! - metadata getters (name / symbol / decimals)
//!
//! The ledger logic is verified against a mathematical model of the token
//! state ([`state::TokenState`]); [`laws`] states what holds across calls.
//! A refused call reports a [`Drc20Error`] and leaves the state as it was.

pub mod account;
pub mod calls;
pub mod decimal;
pub mod driver;
pub mod error;
pub mod events;
pub mod hex;
pub mod laws;
pub mod ledger;
pub mod permit;
pub mod state;
pub mod token;

pub use account::{zero_address, Account};
pub use calls::{
    Allowance, ApproveCall, BalanceOf, Init, InitBalance, PermitCall, TransferCall, TransferFromCall,
};
pub use decimal::{parse_u64, u64_from_i64, u64_to_decimal, ParseU64Error};
pub use driver::{CallData, ContractDriver, EventData, ReturnData};
pub use error::Drc20Error;
pub use events::{Approval, Transfer};
pub use hex::to_hex;
pub use permit::{domain_separator_bytes, permit_digest_bytes};
pub use token::{sender_account, Drc20};
