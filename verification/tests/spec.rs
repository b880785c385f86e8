//! The token's specification scenarios, run on the library directly.

use dusk_core::signatures::bls::{PublicKey as AccountPublicKey, SecretKey as AccountSecretKey};
use rand::rngs::StdRng;
use rand::SeedableRng;

use drc20::error;
use drc20::{
    sender_account, zero_address, Account, Allowance, ApproveCall, BalanceOf, Drc20, Drc20Error, Init,
    InitBalance, Transfer, TransferCall, TransferFromCall,
};

const CALLER_ID: [u8; 32] = [2; 32];

const INITIAL_ALICE: u64 = 1_000;

fn raw_key(seed: u64) -> [u8; 193] {
    let mut rng = StdRng::seed_from_u64(seed);
    let sk = AccountSecretKey::random(&mut rng);
    AccountPublicKey::from(&sk).to_raw_bytes()
}

struct TestContext {
    token: Drc20,
    pk_alice: [u8; 193],
    pk_bob: [u8; 193],
    pk_carol: [u8; 193],
}

impl TestContext {
    fn new() -> Self {
        let pk_alice = raw_key(0xA11CE);
        let pk_bob = raw_key(0xB0B);
        let pk_carol = raw_key(0xCA901);
        let mut token = Drc20::new();
        token
            .init(Init {
                initial_balances: vec![InitBalance {
                    account: Account::External(pk_alice),
                    amount: INITIAL_ALICE,
                }],
            })
            .expect("Deploying DRC20 should succeed");
        Self { token, pk_alice, pk_bob, pk_carol }
    }

    fn alice(&self) -> Account {
        Account::External(self.pk_alice)
    }

    fn bob(&self) -> Account {
        Account::External(self.pk_bob)
    }

    fn carol(&self) -> Account {
        Account::External(self.pk_carol)
    }

    fn caller_contract(&self) -> Account {
        Account::Contract(CALLER_ID)
    }

    /// The sender of a transaction signed with `pk`.
    fn signer(pk: [u8; 193]) -> Account {
        sender_account(1, Some(pk), None).expect("a public transaction has a sender")
    }

    fn total_supply(&self) -> u64 {
        self.token.total_supply()
    }

    fn balance_of(&self, account: Account) -> u64 {
        self.token.balance_of(BalanceOf { account })
    }

    fn allowance(&self, owner: Account, spender: Account) -> u64 {
        self.token.allowance(Allowance { owner, spender })
    }

    fn transfer(&mut self, pk: [u8; 193], to: Account, value: u64) -> Result<Transfer, Drc20Error> {
        let sender = Self::signer(pk);
        self.token.transfer(sender, TransferCall { to, value })
    }

    fn approve(&mut self, pk: [u8; 193], spender: Account, value: u64) -> Result<drc20::Approval, Drc20Error> {
        let sender = Self::signer(pk);
        self.token.approve(sender, ApproveCall { spender, value })
    }

    fn transfer_from(
        &mut self,
        pk: [u8; 193],
        owner: Account,
        to: Account,
        value: u64,
    ) -> Result<Transfer, Drc20Error> {
        let sender = Self::signer(pk);
        self.token.transfer_from(sender, TransferFromCall { owner, to, value })
    }

    /// The helper contract calls `transfer` on behalf of a transaction
    /// signed with `pk`: the call stack holds two frames.
    fn call_caller_transfer(&mut self, pk: [u8; 193], to: Account, value: u64) -> Result<Transfer, Drc20Error> {
        let sender = sender_account(2, Some(pk), Some(CALLER_ID)).expect("a contract call has a caller");
        self.token.transfer(sender, TransferCall { to, value })
    }
}

#[test]
fn metadata_getters_work() {
    let _ctx = TestContext::new();
    assert_eq!(Drc20::name(), "DRC20 Reference Token");
    assert_eq!(Drc20::symbol(), "DRC20");
    assert_eq!(Drc20::decimals(), 18);
}

#[test]
fn init_distribution_sets_balances_and_total_supply() {
    let ctx = TestContext::new();

    assert_eq!(ctx.total_supply(), INITIAL_ALICE);
    assert_eq!(ctx.balance_of(ctx.alice()), INITIAL_ALICE);
    assert_eq!(ctx.balance_of(ctx.bob()), 0);
    assert_eq!(ctx.balance_of(ctx.caller_contract()), 0);

    // Unknown accounts should return 0
    let pk = raw_key(0xD00D);
    assert_eq!(ctx.balance_of(Account::External(pk)), 0);

    // Default allowance should be 0
    assert_eq!(ctx.allowance(ctx.alice(), ctx.bob()), 0);
}

#[test]
fn transfer_updates_balances_and_emits_transfer_event() {
    let mut ctx = TestContext::new();

    let amount = 250;
    let e = ctx.transfer(ctx.pk_alice, ctx.bob(), amount).expect("transfer() should succeed");

    assert_eq!(ctx.balance_of(ctx.alice()), INITIAL_ALICE - amount);
    assert_eq!(ctx.balance_of(ctx.bob()), amount);

    assert_eq!(e.from, ctx.alice());
    assert_eq!(e.to, ctx.bob());
    assert_eq!(e.value, amount);
    assert_eq!(Transfer::TOPIC, "transfer");
}

#[test]
fn zero_value_transfer_is_allowed_and_emits_event() {
    let mut ctx = TestContext::new();

    // Bob has 0 tokens but can still do a 0-value transfer.
    let e = ctx.transfer(ctx.pk_bob, ctx.alice(), 0).expect("0-value transfer should succeed");

    assert_eq!(ctx.balance_of(ctx.alice()), INITIAL_ALICE);
    assert_eq!(ctx.balance_of(ctx.bob()), 0);

    assert_eq!(e.from, ctx.bob());
    assert_eq!(e.to, ctx.alice());
    assert_eq!(e.value, 0);
}

#[test]
fn transfer_fails_if_balance_too_low() {
    let mut ctx = TestContext::new();

    let receipt = ctx.transfer(ctx.pk_bob, ctx.alice(), 1);

    assert_eq!(receipt.unwrap_err().message(), error::BALANCE_TOO_LOW);
}

#[test]
fn approve_sets_allowance_and_emits_approval_event() {
    let mut ctx = TestContext::new();

    let allowance = 123;
    let e = ctx.approve(ctx.pk_alice, ctx.bob(), allowance).expect("approve() should succeed");

    assert_eq!(ctx.allowance(ctx.alice(), ctx.bob()), allowance);

    assert_eq!(e.owner, ctx.alice());
    assert_eq!(e.spender, ctx.bob());
    assert_eq!(e.value, allowance);
    assert_eq!(drc20::Approval::TOPIC, "approval");
}

#[test]
fn approve_overwrites_existing_allowance() {
    let mut ctx = TestContext::new();

    ctx.approve(ctx.pk_alice, ctx.bob(), 10).expect("approve should succeed");
    assert_eq!(ctx.allowance(ctx.alice(), ctx.bob()), 10);

    ctx.approve(ctx.pk_alice, ctx.bob(), 999).expect("approve overwrite should succeed");
    assert_eq!(ctx.allowance(ctx.alice(), ctx.bob()), 999);
}

#[test]
fn transfer_from_spends_allowance_and_decreases_it() {
    let mut ctx = TestContext::new();

    // Alice approves Bob
    ctx.approve(ctx.pk_alice, ctx.bob(), 100).expect("approve should succeed");

    // Bob transfers 60 from Alice to Carol
    let e = ctx
        .transfer_from(ctx.pk_bob, ctx.alice(), ctx.carol(), 60)
        .expect("transfer_from should succeed");

    assert_eq!(ctx.balance_of(ctx.alice()), INITIAL_ALICE - 60);
    assert_eq!(ctx.balance_of(ctx.carol()), 60);
    assert_eq!(ctx.allowance(ctx.alice(), ctx.bob()), 40);

    // Ensure the Transfer event is (from=Alice, to=Carol)
    assert_eq!(e.from, ctx.alice());
    assert_eq!(e.to, ctx.carol());
    assert_eq!(e.value, 60);
}

#[test]
fn transfer_from_fails_if_allowance_too_low() {
    let mut ctx = TestContext::new();

    ctx.approve(ctx.pk_alice, ctx.bob(), 10).expect("approve should succeed");

    let receipt = ctx.transfer_from(ctx.pk_bob, ctx.alice(), ctx.carol(), 11);

    assert_eq!(receipt.unwrap_err().message(), error::ALLOWANCE_TOO_LOW);

    // Allowance should remain unchanged after failure
    assert_eq!(ctx.allowance(ctx.alice(), ctx.bob()), 10);
}

#[test]
fn zero_address_is_rejected_for_transfer_and_approve() {
    let mut ctx = TestContext::new();

    // transfer(to = ZERO_ADDRESS)
    let receipt = ctx.transfer(ctx.pk_alice, zero_address(), 1);
    assert_eq!(receipt.unwrap_err().message(), error::ZERO_ADDRESS_NOT_ALLOWED);

    // approve(spender = ZERO_ADDRESS)
    let receipt = ctx.approve(ctx.pk_alice, zero_address(), 1);
    assert_eq!(receipt.unwrap_err().message(), error::ZERO_ADDRESS_NOT_ALLOWED);
}

#[test]
fn contract_calls_are_accounted_as_contract_sender() {
    let mut ctx = TestContext::new();

    // Fund the caller contract with 100 tokens from Alice
    ctx.transfer(ctx.pk_alice, ctx.caller_contract(), 100)
        .expect("funding caller contract should succeed");

    assert_eq!(ctx.balance_of(ctx.caller_contract()), 100);

    // The caller contract calls DRC20.transfer(...) internally.
    let e = ctx
        .call_caller_transfer(ctx.pk_alice, ctx.bob(), 60)
        .expect("caller contract transfer should succeed");

    assert_eq!(ctx.balance_of(ctx.caller_contract()), 40);
    assert_eq!(ctx.balance_of(ctx.bob()), 60);

    // Ensure the DRC20 Transfer event has from = caller contract
    assert_eq!(e.from, ctx.caller_contract());
    assert_eq!(e.to, ctx.bob());
    assert_eq!(e.value, 60);
}
