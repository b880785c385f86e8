//! The data-driver's decisions: which argument, return value and event
//! layout belongs to each function name and event topic of the contract.

use vstd::prelude::*;

use crate::account::bytes_equal;
use crate::events::{Approval, Transfer};

verus! {

/// Whether two texts are equal.
pub fn text_eq(a: &str, b: &str) -> (r: bool)
    ensures
        r == (a@ == b@),
{
    let x = a.as_bytes();
    let y = b.as_bytes();
    proof {
        vstd::utf8::encode_utf8_decode_utf8(a@);
        vstd::utf8::encode_utf8_decode_utf8(b@);
    }
    if x.len() != y.len() {
        return false;
    }
    bytes_equal(x, y)
}

/// The argument that a function of the contract takes.
#[derive(Clone, Copy, Debug, PartialEq, Eq, Structural)]
pub enum CallData {
    /// No argument.
    Unit,
    /// `Init`.
    Init,
    /// `BalanceOf`.
    BalanceOf,
    /// `Allowance`.
    Allowance,
    /// `TransferCall`.
    TransferCall,
    /// `ApproveCall`.
    ApproveCall,
    /// `TransferFromCall`.
    TransferFromCall,
}

/// What a function of the contract returns.
#[derive(Clone, Copy, Debug, PartialEq, Eq, Structural)]
pub enum ReturnData {
    /// Nothing: the function changes state.
    Nothing,
    /// A `String`.
    Text,
    /// A `u8`.
    Byte,
    /// A `u64`, written in JSON as a decimal string.
    Amount,
}

/// The payload of an event of the contract.
#[derive(Clone, Copy, Debug, PartialEq, Eq, Structural)]
pub enum EventData {
    /// `Transfer`.
    Transfer,
    /// `Approval`.
    Approval,
}

/// The argument of the function called `name`, if the contract has one by
/// that name.
pub open spec fn call_data_of(name: Seq<char>) -> Option<CallData> {
    if name == "name"@ || name == "symbol"@ || name == "decimals"@ || name == "total_supply"@ {
        Some(CallData::Unit)
    } else if name == "init"@ {
        Some(CallData::Init)
    } else if name == "balance_of"@ {
        Some(CallData::BalanceOf)
    } else if name == "allowance"@ {
        Some(CallData::Allowance)
    } else if name == "transfer"@ {
        Some(CallData::TransferCall)
    } else if name == "approve"@ {
        Some(CallData::ApproveCall)
    } else if name == "transfer_from"@ {
        Some(CallData::TransferFromCall)
    } else {
        None
    }
}

/// What the function called `name` returns, if the contract has one by
/// that name.
pub open spec fn return_data_of(name: Seq<char>) -> Option<ReturnData> {
    if name == "init"@ || name == "transfer"@ || name == "approve"@ || name == "transfer_from"@ {
        Some(ReturnData::Nothing)
    } else if name == "name"@ || name == "symbol"@ {
        Some(ReturnData::Text)
    } else if name == "decimals"@ {
        Some(ReturnData::Byte)
    } else if name == "total_supply"@ || name == "balance_of"@ || name == "allowance"@ {
        Some(ReturnData::Amount)
    } else {
        None
    }
}

/// The payload of events under `topic`, if the contract emits any.
pub open spec fn event_data_of(topic: Seq<char>) -> Option<EventData> {
    if topic == Transfer::TOPIC@ {
        Some(EventData::Transfer)
    } else if topic == Approval::TOPIC@ {
        Some(EventData::Approval)
    } else {
        None
    }
}

/// Contract driver for encoding and decoding calls + events.
#[derive(Clone, Copy, Debug, Default)]
pub struct ContractDriver;

impl ContractDriver {
    /// The argument of the function `fn_name`: what its input is encoded
    /// from and decoded to.
    pub fn call_data(&self, fn_name: &str) -> (r: Option<CallData>)
        ensures
            r == call_data_of(fn_name@),
    {
        if text_eq(fn_name, "name") || text_eq(fn_name, "symbol") || text_eq(fn_name, "decimals")
            || text_eq(fn_name, "total_supply") {
            Some(CallData::Unit)
        } else if text_eq(fn_name, "init") {
            Some(CallData::Init)
        } else if text_eq(fn_name, "balance_of") {
            Some(CallData::BalanceOf)
        } else if text_eq(fn_name, "allowance") {
            Some(CallData::Allowance)
        } else if text_eq(fn_name, "transfer") {
            Some(CallData::TransferCall)
        } else if text_eq(fn_name, "approve") {
            Some(CallData::ApproveCall)
        } else if text_eq(fn_name, "transfer_from") {
            Some(CallData::TransferFromCall)
        } else {
            None
        }
    }

    /// What the function `fn_name` returns: what its output is decoded to.
    pub fn return_data(&self, fn_name: &str) -> (r: Option<ReturnData>)
        ensures
            r == return_data_of(fn_name@),
    {
        if text_eq(fn_name, "init") || text_eq(fn_name, "transfer") || text_eq(fn_name, "approve")
            || text_eq(fn_name, "transfer_from") {
            Some(ReturnData::Nothing)
        } else if text_eq(fn_name, "name") || text_eq(fn_name, "symbol") {
            Some(ReturnData::Text)
        } else if text_eq(fn_name, "decimals") {
            Some(ReturnData::Byte)
        } else if text_eq(fn_name, "total_supply") || text_eq(fn_name, "balance_of") || text_eq(
            fn_name,
            "allowance",
        ) {
            Some(ReturnData::Amount)
        } else {
            None
        }
    }

    /// The payload of events under `event_name`.
    pub fn event_data(&self, event_name: &str) -> (r: Option<EventData>)
        ensures
            r == event_data_of(event_name@),
    {
        if text_eq(event_name, Transfer::TOPIC) {
            Some(EventData::Transfer)
        } else if text_eq(event_name, Approval::TOPIC) {
            Some(EventData::Approval)
        } else {
            None
        }
    }

    /// Schema description for tooling: none.
    pub fn get_schema(&self) -> (s: String)
        ensures
            s@ == Seq::<char>::empty(),
    {
        String::new()
    }
}

} // verus!
