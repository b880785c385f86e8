//! Unit tests of the library: each call, each refusal, and the laws on
//! concrete values.

use std::cmp::Ordering;

use drc20::decimal::ParseU64Error;
use drc20::driver::{CallData, ContractDriver, EventData, ReturnData};
use drc20::error;
use drc20::{
    domain_separator_bytes, parse_u64, permit_digest_bytes, sender_account, to_hex, u64_from_i64,
    u64_to_decimal, zero_address, Account, Allowance, ApproveCall, BalanceOf, Drc20, Drc20Error, Init,
    InitBalance, TransferCall, TransferFromCall,
};

fn ext(b: u8) -> Account {
    Account::External([b; 193])
}

fn con(b: u8) -> Account {
    Account::Contract([b; 32])
}

fn funded(entries: Vec<(Account, u64)>) -> Drc20 {
    let mut t = Drc20::new();
    let initial_balances = entries
        .into_iter()
        .map(|(account, amount)| InitBalance { account, amount })
        .collect();
    t.init(Init { initial_balances }).expect("init should succeed");
    t
}

fn balance(t: &Drc20, a: Account) -> u64 {
    t.balance_of(BalanceOf { account: a })
}

fn allowance(t: &Drc20, owner: Account, spender: Account) -> u64 {
    t.allowance(Allowance { owner, spender })
}

#[test]
fn new_token_is_empty() {
    let t = Drc20::new();
    assert_eq!(t.total_supply(), 0);
    assert_eq!(balance(&t, ext(1)), 0);
    assert_eq!(allowance(&t, ext(1), ext(2)), 0);
}

#[test]
fn init_emits_one_mint_per_nonzero_entry_and_sums_duplicates() {
    let mut t = Drc20::new();
    let events = t
        .init(Init {
            initial_balances: vec![
                InitBalance { account: ext(1), amount: 5 },
                InitBalance { account: ext(2), amount: 0 },
                InitBalance { account: ext(1), amount: 7 },
                InitBalance { account: con(9), amount: 3 },
            ],
        })
        .expect("init should succeed");
    assert_eq!(events.len(), 3);
    assert_eq!(events[0].from, zero_address());
    assert_eq!(events[0].to, ext(1));
    assert_eq!(events[0].value, 5);
    assert_eq!(events[1].to, ext(1));
    assert_eq!(events[1].value, 7);
    assert_eq!(events[2].to, con(9));
    assert_eq!(events[2].value, 3);
    assert_eq!(balance(&t, ext(1)), 12);
    assert_eq!(balance(&t, ext(2)), 0);
    assert_eq!(balance(&t, con(9)), 3);
    assert_eq!(t.total_supply(), 15);
}

#[test]
fn init_with_empty_distribution_gives_zero_supply() {
    let mut t = Drc20::new();
    let events = t.init(Init { initial_balances: vec![] }).expect("init should succeed");
    assert!(events.is_empty());
    assert_eq!(t.total_supply(), 0);
}

#[test]
fn init_twice_is_refused_and_changes_nothing() {
    let mut t = funded(vec![(ext(1), 10)]);
    let r = t.init(Init { initial_balances: vec![InitBalance { account: ext(2), amount: 5 }] });
    assert_eq!(r.unwrap_err(), Drc20Error::AlreadyInitialized);
    assert_eq!(Drc20Error::AlreadyInitialized.message(), error::ALREADY_INITIALIZED);
    assert_eq!(balance(&t, ext(2)), 0);
    assert_eq!(t.total_supply(), 10);
}

#[test]
fn init_refuses_zero_address_with_nonzero_amount() {
    let mut t = Drc20::new();
    let r = t.init(Init {
        initial_balances: vec![
            InitBalance { account: ext(1), amount: 4 },
            InitBalance { account: zero_address(), amount: 1 },
        ],
    });
    assert_eq!(r.unwrap_err(), Drc20Error::ZeroAddressNotAllowed);
    // The refused distribution leaves no trace: the token can still be initialized.
    assert_eq!(balance(&t, ext(1)), 0);
    assert_eq!(t.total_supply(), 0);
    t.init(Init { initial_balances: vec![InitBalance { account: ext(1), amount: 4 }] })
        .expect("init should succeed");
    assert_eq!(t.total_supply(), 4);
}

#[test]
fn init_skips_zero_address_with_zero_amount() {
    let t = funded(vec![(zero_address(), 0), (ext(1), 2)]);
    assert_eq!(balance(&t, zero_address()), 0);
    assert_eq!(t.total_supply(), 2);
}

#[test]
fn init_refuses_supply_overflow() {
    let mut t = Drc20::new();
    let r = t.init(Init {
        initial_balances: vec![
            InitBalance { account: ext(1), amount: u64::MAX },
            InitBalance { account: ext(2), amount: 1 },
        ],
    });
    assert_eq!(r.unwrap_err(), Drc20Error::SupplyOverflow);
    assert_eq!(Drc20Error::SupplyOverflow.message(), error::SUPPLY_OVERFLOW);
    assert_eq!(t.total_supply(), 0);
    assert_eq!(balance(&t, ext(1)), 0);
}

#[test]
fn init_accepts_the_whole_u64_range() {
    let t = funded(vec![(ext(1), u64::MAX - 1), (ext(2), 1)]);
    assert_eq!(t.total_supply(), u64::MAX);
}

#[test]
fn transfer_conserves_supply() {
    let mut t = funded(vec![(ext(1), 100), (ext(2), 50)]);
    t.transfer(ext(1), TransferCall { to: ext(2), value: 30 }).expect("transfer should succeed");
    t.transfer(ext(2), TransferCall { to: con(3), value: 80 }).expect("transfer should succeed");
    assert_eq!(balance(&t, ext(1)), 70);
    assert_eq!(balance(&t, ext(2)), 0);
    assert_eq!(balance(&t, con(3)), 80);
    assert_eq!(t.total_supply(), 150);
    assert_eq!(balance(&t, ext(1)) + balance(&t, ext(2)) + balance(&t, con(3)), t.total_supply());
}

#[test]
fn transfer_to_self_changes_nothing() {
    let mut t = funded(vec![(ext(1), 100)]);
    let e = t.transfer(ext(1), TransferCall { to: ext(1), value: 100 }).expect("transfer should succeed");
    assert_eq!(e.value, 100);
    assert_eq!(balance(&t, ext(1)), 100);
    assert_eq!(t.total_supply(), 100);
}

#[test]
fn transfer_of_whole_balance_empties_sender() {
    let mut t = funded(vec![(ext(1), 100)]);
    t.transfer(ext(1), TransferCall { to: ext(2), value: 100 }).expect("transfer should succeed");
    assert_eq!(balance(&t, ext(1)), 0);
    assert_eq!(balance(&t, ext(2)), 100);
    // The emptied sender can receive again.
    t.transfer(ext(2), TransferCall { to: ext(1), value: 1 }).expect("transfer should succeed");
    assert_eq!(balance(&t, ext(1)), 1);
}

#[test]
fn refused_transfer_changes_nothing() {
    let mut t = funded(vec![(ext(1), 10)]);
    let r = t.transfer(ext(1), TransferCall { to: ext(2), value: 11 });
    assert_eq!(r.unwrap_err(), Drc20Error::BalanceTooLow);
    assert_eq!(balance(&t, ext(1)), 10);
    assert_eq!(balance(&t, ext(2)), 0);
    // The zero address is checked before the balance.
    let r = t.transfer(ext(1), TransferCall { to: zero_address(), value: 11 });
    assert_eq!(r.unwrap_err(), Drc20Error::ZeroAddressNotAllowed);
}

#[test]
fn approve_then_allowance_reads_back_and_leaves_others() {
    let mut t = funded(vec![(ext(1), 10)]);
    let e = t.approve(ext(1), ApproveCall { spender: ext(2), value: 7 }).expect("approve should succeed");
    assert_eq!(e.owner, ext(1));
    assert_eq!(e.spender, ext(2));
    assert_eq!(e.value, 7);
    t.approve(ext(1), ApproveCall { spender: ext(3), value: 9 }).expect("approve should succeed");
    assert_eq!(allowance(&t, ext(1), ext(2)), 7);
    assert_eq!(allowance(&t, ext(1), ext(3)), 9);
    assert_eq!(allowance(&t, ext(2), ext(1)), 0);
    assert_eq!(balance(&t, ext(1)), 10);
}

#[test]
fn approve_is_allowed_before_init_and_without_funds() {
    let mut t = Drc20::new();
    t.approve(ext(1), ApproveCall { spender: ext(2), value: 5 }).expect("approve should succeed");
    assert_eq!(allowance(&t, ext(1), ext(2)), 5);
    t.approve(ext(1), ApproveCall { spender: ext(2), value: 0 }).expect("approve should succeed");
    assert_eq!(allowance(&t, ext(1), ext(2)), 0);
}

#[test]
fn transfer_from_checks_in_order_and_changes_nothing_when_refused() {
    let mut t = funded(vec![(ext(1), 10)]);
    t.approve(ext(1), ApproveCall { spender: ext(2), value: 50 }).expect("approve should succeed");
    // Allowance covers it, the recipient is the zero address.
    let r = t.transfer_from(ext(2), TransferFromCall { owner: ext(1), to: zero_address(), value: 5 });
    assert_eq!(r.unwrap_err(), Drc20Error::ZeroAddressNotAllowed);
    // Allowance covers it, the balance does not.
    let r = t.transfer_from(ext(2), TransferFromCall { owner: ext(1), to: ext(3), value: 20 });
    assert_eq!(r.unwrap_err(), Drc20Error::BalanceTooLow);
    assert_eq!(allowance(&t, ext(1), ext(2)), 50);
    assert_eq!(balance(&t, ext(1)), 10);
    // Neither allowance nor balance: the allowance is reported.
    let r = t.transfer_from(ext(3), TransferFromCall { owner: ext(1), to: ext(3), value: 20 });
    assert_eq!(r.unwrap_err(), Drc20Error::AllowanceTooLow);
    assert_eq!(Drc20Error::AllowanceTooLow.message(), error::ALLOWANCE_TOO_LOW);
}

#[test]
fn transfer_from_can_spend_the_whole_allowance() {
    let mut t = funded(vec![(ext(1), 10)]);
    t.approve(ext(1), ApproveCall { spender: ext(2), value: 10 }).expect("approve should succeed");
    t.transfer_from(ext(2), TransferFromCall { owner: ext(1), to: ext(2), value: 10 })
        .expect("transfer_from should succeed");
    assert_eq!(allowance(&t, ext(1), ext(2)), 0);
    assert_eq!(balance(&t, ext(2)), 10);
    assert_eq!(t.total_supply(), 10);
}

#[test]
fn sender_account_resolves_each_case() {
    let pk = [7u8; 193];
    let id = [8u8; 32];
    assert_eq!(sender_account(1, Some(pk), Some(id)).unwrap(), Account::External(pk));
    assert_eq!(sender_account(1, None, Some(id)).unwrap_err(), Drc20Error::ShieldedNotSupported);
    assert_eq!(sender_account(3, Some(pk), Some(id)).unwrap(), Account::Contract(id));
    assert_eq!(sender_account(2, Some(pk), None).unwrap_err(), Drc20Error::MissingCaller);
    assert_eq!(Drc20Error::ShieldedNotSupported.message(), error::SHIELDED_NOT_SUPPORTED);
    assert_eq!(Drc20Error::MissingCaller.message(), "missing caller");
    assert_eq!(Drc20Error::ZeroAddressNotAllowed.message(), error::ZERO_ADDRESS_NOT_ALLOWED);
    assert_eq!(Drc20Error::BalanceTooLow.message(), error::BALANCE_TOO_LOW);
}

#[test]
fn account_bytes_have_a_discriminant() {
    let e = ext(5).to_bytes();
    assert_eq!(e.len(), 194);
    assert_eq!(e[0], 0x00);
    assert!(e[1..].iter().all(|&b| b == 5));
    let c = con(6).to_bytes();
    assert_eq!(c.len(), 33);
    assert_eq!(c[0], 0x01);
    assert!(c[1..].iter().all(|&b| b == 6));
    assert_ne!(ext(1).to_bytes(), con(1).to_bytes());
}

#[test]
fn account_order_is_total() {
    assert_eq!(ext(9).cmp(&con(0)), Ordering::Less);
    assert_eq!(con(0).cmp(&ext(9)), Ordering::Greater);
    assert_eq!(ext(1).cmp(&ext(2)), Ordering::Less);
    assert_eq!(con(3).cmp(&con(2)), Ordering::Greater);
    assert_eq!(ext(4).cmp(&ext(4)), Ordering::Equal);
    let mut a = [0u8; 32];
    a[31] = 1;
    let mut b = [0u8; 32];
    b[0] = 1;
    assert_eq!(Account::Contract(a).cmp(&Account::Contract(b)), Ordering::Less);
    assert!(ext(1) < ext(2) && ext(2) < con(0));
    assert_eq!(ext(1).partial_cmp(&ext(1)), Some(Ordering::Equal));
    assert!(ext(1) == ext(1) && ext(1) != con(1));
}

#[test]
fn zero_address_is_the_all_zero_contract() {
    assert_eq!(zero_address(), Account::Contract([0u8; 32]));
}

#[test]
fn domain_separator_bytes_layout() {
    let id = [3u8; 32];
    let b = domain_separator_bytes(&id, 0x1);
    let mut expected = id.to_vec();
    expected.push(0x1);
    expected.extend_from_slice(b"DRC20Permit");
    assert_eq!(b, expected);
}

#[test]
fn permit_digest_bytes_layout() {
    let sep = [4u8; 32];
    let owner = [5u8; 193];
    let b = permit_digest_bytes(&sep, &owner, &con(6), 0x0102, 7, u64::MAX);
    let mut expected = sep.to_vec();
    expected.extend_from_slice(&owner);
    expected.extend_from_slice(&con(6).to_bytes());
    expected.extend_from_slice(&0x0102u64.to_le_bytes());
    expected.extend_from_slice(&7u64.to_le_bytes());
    expected.extend_from_slice(&u64::MAX.to_le_bytes());
    assert_eq!(b, expected);
    assert_eq!(b.len(), 32 + 193 + 33 + 24);
}

#[test]
fn to_hex_writes_two_lower_case_digits_per_byte() {
    assert_eq!(to_hex(&[]), "");
    assert_eq!(to_hex(&[0x00, 0x0f, 0xab, 0xff, 0x10]), "000fabff10");
}

#[test]
fn decimal_writes_and_reads_u64() {
    assert_eq!(u64_to_decimal(0), "0");
    assert_eq!(u64_to_decimal(1000), "1000");
    assert_eq!(u64_to_decimal(u64::MAX), "18446744073709551615");
    for v in [0u64, 9, 10, 123, 1_000_000, u64::MAX - 1, u64::MAX] {
        assert_eq!(parse_u64(&u64_to_decimal(v)), Ok(v));
    }
}

#[test]
fn parse_u64_follows_the_standard_grammar() {
    for s in ["", "+", "-", "-0", "+12", "12", "007", "1a", " 1", "1 ", "18446744073709551615",
        "18446744073709551616", "99999999999999999999x", "12x99999999999999999999", "é", "+-1"] {
        let ours = parse_u64(s);
        let std = s.parse::<u64>();
        assert_eq!(ours.is_ok(), std.is_ok(), "{s}");
        if let (Ok(a), Ok(b)) = (&ours, &std) {
            assert_eq!(a, b);
        }
        if let (Err(a), Err(b)) = (&ours, &std) {
            assert_eq!(a.message(), b.to_string(), "{s}");
        }
    }
    assert_eq!(parse_u64(""), Err(ParseU64Error::Empty));
    assert_eq!(parse_u64("+"), Err(ParseU64Error::InvalidDigit));
    assert_eq!(parse_u64("18446744073709551616"), Err(ParseU64Error::PosOverflow));
}

#[test]
fn u64_from_i64_refuses_negative_numbers() {
    assert_eq!(u64_from_i64(-1), None);
    assert_eq!(u64_from_i64(0), Some(0));
    assert_eq!(u64_from_i64(i64::MAX), Some(i64::MAX as u64));
}

#[test]
fn driver_maps_names_to_layouts() {
    let d = ContractDriver;
    for n in ["name", "symbol", "decimals", "total_supply"] {
        assert_eq!(d.call_data(n), Some(CallData::Unit));
    }
    assert_eq!(d.call_data("init"), Some(CallData::Init));
    assert_eq!(d.call_data("balance_of"), Some(CallData::BalanceOf));
    assert_eq!(d.call_data("allowance"), Some(CallData::Allowance));
    assert_eq!(d.call_data("transfer"), Some(CallData::TransferCall));
    assert_eq!(d.call_data("approve"), Some(CallData::ApproveCall));
    assert_eq!(d.call_data("transfer_from"), Some(CallData::TransferFromCall));
    assert_eq!(d.call_data("permit"), None);
    assert_eq!(d.call_data("Transfer"), None);
    for n in ["init", "transfer", "approve", "transfer_from"] {
        assert_eq!(d.return_data(n), Some(ReturnData::Nothing));
    }
    assert_eq!(d.return_data("name"), Some(ReturnData::Text));
    assert_eq!(d.return_data("symbol"), Some(ReturnData::Text));
    assert_eq!(d.return_data("decimals"), Some(ReturnData::Byte));
    for n in ["total_supply", "balance_of", "allowance"] {
        assert_eq!(d.return_data(n), Some(ReturnData::Amount));
    }
    assert_eq!(d.return_data(""), None);
    assert_eq!(d.event_data("transfer"), Some(EventData::Transfer));
    assert_eq!(d.event_data("approval"), Some(EventData::Approval));
    assert_eq!(d.event_data("mint"), None);
    assert_eq!(d.get_schema(), "");
}
