//! The DRC20 token: balances, allowances, supply, and the calls that change
//! them.

use vstd::prelude::*;

use crate::account::{zero_address, zero_address_model, Account, CONTRACT_ID_BYTES, PUBLIC_KEY_RAW_SIZE};
use crate::calls::{Allowance, ApproveCall, BalanceOf, Init, TransferCall, TransferFromCall};
use crate::error::Drc20Error;
use crate::events::{Approval, Transfer};
use crate::ledger::AccountMap;
use crate::state::{
    amount_in, distribution_total, lemma_mint_all_refusal_extends, lemma_mint_all_step,
    lemma_mint_all_whole, lemma_mint_keeps_ledger, lemma_total_empty, lemma_transfer_keeps_ledger,
    mint_events, total_of, TokenState,
};

verus! {

/// DRC20 contract state.
pub struct Drc20 {
    initialized: bool,
    balances: AccountMap<u64>,
    allowances: AccountMap<AccountMap<u64>>,
    supply: u64,
}

impl View for Drc20 {
    type V = TokenState;

    closed spec fn view(&self) -> TokenState {
        TokenState {
            initialized: self.initialized,
            balances: self.balances.model(),
            allowances: self.allowances.model().map_values(|m: AccountMap<u64>| m.model()),
            supply: self.supply,
        }
    }
}

/// The amount that `m` holds for `a`; nothing held counts as zero.
fn amount_of(m: &AccountMap<u64>, a: &Account) -> (v: u64)
    requires
        m.wf(),
    ensures
        v == amount_in(m.model(), a@),
{
    match m.get(a) {
        Some(v) => *v,
        None => 0,
    }
}

impl Drc20 {
    /// The representation is sound and the token's invariant holds.
    pub closed spec fn wf(&self) -> bool {
        &&& self.balances.wf()
        &&& self.allowances.wf()
        &&& forall|o| #[trigger] self.allowances.model().contains_key(o) ==> self.allowances.model()[o].wf()
        &&& self@.wf()
    }

    /// The model of a sound token is sound: its supply is the sum of all
    /// balances, only positive balances are held, the zero address holds
    /// nothing, and no token exists before the initial distribution.
    pub proof fn model_is_sound(&self)
        requires
            self.wf(),
        ensures
            self@.wf(),
            self@.supply == total_of(self@.balances),
            self@.balance(zero_address_model()) == 0,
    {
    }

    /// Create a new (empty) token state.
    pub fn new() -> (t: Self)
        ensures
            t.wf(),
            t@.wf(),
            t@ == TokenState::initial(),
    {
        let t = Drc20 {
            initialized: false,
            balances: AccountMap::new(),
            allowances: AccountMap::new(),
            supply: 0,
        };
        proof {
            lemma_total_empty();
            assert(t@.allowances =~= Map::empty());
        }
        t
    }

    /// Initialize the token with an initial distribution.
    ///
    /// Intended to be called once at deployment. To deploy with an empty
    /// distribution, pass an `Init` value with an empty `initial_balances`.
    /// Returns the `Transfer` events of the mints, from the zero address.
    pub fn init(&mut self, args: Init) -> (r: Result<Vec<Transfer>, Drc20Error>)
        requires
            old(self).wf(),
        ensures
            final(self).wf(),
            final(self)@.wf(),
            match old(self)@.init_spec(args.entries()) {
                Ok(t) => final(self)@ == t && (r matches Ok(events) && events@.map_values(
                    |ev: Transfer| ev@,
                ) == mint_events(args.entries())),
                Err(e) => r == Err::<Vec<Transfer>, Drc20Error>(e) && *final(self) == *old(self),
            },
    {
        if self.initialized {
            return Err(Drc20Error::AlreadyInitialized);
        }
        let ghost start = self@;
        let ghost entries = args.entries();
        let n = args.initial_balances.len();
        let zero = zero_address();
        proof {
            lemma_mint_all_whole(entries);
        }
        // First pass: find the first entry that would be refused, if any.
        let mut running: u64 = self.supply;
        let ghost mut g = self@;
        let mut i: usize = 0;
        while i < n
            invariant
                n == args.initial_balances@.len(),
                entries == args.entries(),
                entries.len() == n,
                0 <= i <= n,
                start.mint_all(entries.take(i as int)) == Ok::<TokenState, Drc20Error>(g),
                g.ledger_ok(),
                running == g.supply,
                self.wf(),
                start == self@,
                !self.initialized,
                zero@ == zero_address_model(),
            decreases n - i,
        {
            let e = args.initial_balances[i];
            proof {
                assert(entries[i as int] == (e.account@, e.amount));
                lemma_mint_all_step(start, entries, i as int);
                lemma_mint_keeps_ledger(g, e.account@, e.amount);
            }
            if e.amount != 0 {
                if e.account.same_as(&zero) {
                    proof {
                        lemma_mint_all_refusal_extends(start, entries, i + 1);
                    }
                    return Err(Drc20Error::ZeroAddressNotAllowed);
                }
                match running.checked_add(e.amount) {
                    Some(next) => {
                        running = next;
                    },
                    None => {
                        proof {
                            lemma_mint_all_refusal_extends(start, entries, i + 1);
                        }
                        return Err(Drc20Error::SupplyOverflow);
                    },
                }
            }
            proof {
                g = g.mint_spec(e.account@, e.amount)->Ok_0;
            }
            i = i + 1;
        }
        let ghost minted = g;
        // Second pass: mint; no entry is refused any more.
        let mut events: Vec<Transfer> = Vec::new();
        let mut i: usize = 0;
        while i < n
            invariant
                n == args.initial_balances@.len(),
                entries == args.entries(),
                entries.len() == n,
                0 <= i <= n,
                start.mint_all(entries) == Ok::<TokenState, Drc20Error>(minted),
                start.mint_all(entries.take(i as int)) == Ok::<TokenState, Drc20Error>(self@),
                self@.ledger_ok(),
                !self.initialized,
                self.balances.wf(),
                self.allowances.wf(),
                forall|o| #[trigger] self.allowances.model().contains_key(o) ==> self.allowances.model()[o].wf(),
                events@.map_values(|ev: Transfer| ev@) == mint_events(entries.take(i as int)),
                zero@ == zero_address_model(),
            decreases n - i,
        {
            let e = args.initial_balances[i];
            proof {
                assert(entries[i as int] == (e.account@, e.amount));
                lemma_mint_all_step(start, entries, i as int);
                lemma_mint_keeps_ledger(self@, e.account@, e.amount);
                if start.mint_all(entries.take(i + 1)) is Err {
                    lemma_mint_all_refusal_extends(start, entries, i + 1);
                }
            }
            let ghost before = events@;
            if e.amount != 0 {
                let balance = amount_of(&self.balances, &e.account);
                self.balances.insert(e.account, balance + e.amount);
                self.supply = self.supply + e.amount;
                events.push(Transfer { from: zero, to: e.account, value: e.amount });
                proof {
                    assert(events@.map_values(|ev: Transfer| ev@) =~= before.map_values(|ev: Transfer| ev@).push((zero_address_model(), e.account@, e.amount)));
                }
            }
            i = i + 1;
        }
        self.initialized = true;
        Ok(events)
    }

    /// Token name.
    pub fn name() -> (s: String)
        ensures
            s@ == "DRC20 Reference Token"@,
    {
        String::from_str("DRC20 Reference Token")
    }

    /// Token symbol.
    pub fn symbol() -> (s: String)
        ensures
            s@ == "DRC20"@,
    {
        String::from_str("DRC20")
    }

    /// Token decimals.
    pub fn decimals() -> (d: u8)
        ensures
            d == 18,
    {
        18
    }

    /// Total supply.
    pub fn total_supply(&self) -> (s: u64)
        ensures
            s == self@.supply,
    {
        self.supply
    }

    /// Balance of an account.
    pub fn balance_of(&self, args: BalanceOf) -> (b: u64)
        requires
            self.wf(),
        ensures
            b == self@.balance(args.account@),
    {
        amount_of(&self.balances, &args.account)
    }

    /// Allowance from `owner` to `spender`.
    pub fn allowance(&self, args: Allowance) -> (a: u64)
        requires
            self.wf(),
        ensures
            a == self@.allowance(args.owner@, args.spender@),
    {
        match self.allowances.get(&args.owner) {
            Some(granted) => amount_of(granted, &args.spender),
            None => 0,
        }
    }

    /// Sets what `spender` may move on behalf of `owner`.
    fn set_allowance(&mut self, owner: Account, spender: Account, value: u64)
        requires
            old(self).wf(),
        ensures
            final(self).wf(),
            final(self)@ == old(self)@.with_allowance(owner@, spender@, value),
    {
        let ghost old_view = self@;
        let mut granted = match self.allowances.remove(&owner) {
            Some(m) => m,
            None => AccountMap::new(),
        };
        proof {
            assert(granted.model() == old_view.granted_by(owner@));
        }
        granted.insert(spender, value);
        let ghost new_granted = granted.model();
        self.allowances.insert(owner, granted);
        proof {
            assert(self@.allowances =~= old_view.allowances.insert(owner@, new_granted));
            assert(self@ == old_view.with_allowance(owner@, spender@, value));
        }
    }

    /// Moves `value` from `from` to `to`.
    fn transfer_internal(&mut self, from: Account, to: Account, value: u64) -> (r: Result<Transfer, Drc20Error>)
        requires
            old(self).wf(),
        ensures
            final(self).wf(),
            match old(self)@.transfer_spec(from@, to@, value) {
                Ok(t) => final(self)@ == t && (r matches Ok(ev) && ev@ == (from@, to@, value)),
                Err(e) => r == Err::<Transfer, Drc20Error>(e) && *final(self) == *old(self),
            },
    {
        proof {
            lemma_transfer_keeps_ledger(self@, from@, to@, value);
            self.balances.lemma_finite();
        }
        let zero = zero_address();
        if to.same_as(&zero) {
            return Err(Drc20Error::ZeroAddressNotAllowed);
        }
        let from_balance = amount_of(&self.balances, &from);
        if from_balance < value {
            return Err(Drc20Error::BalanceTooLow);
        }
        if value != 0 {
            let left = from_balance - value;
            if left == 0 {
                self.balances.remove(&from);
            } else {
                self.balances.insert(from, left);
            }
            let to_balance = amount_of(&self.balances, &to);
            self.balances.insert(to, to_balance + value);
        }
        Ok(Transfer { from, to, value })
    }

    /// Transfer from the sender of the call.
    pub fn transfer(&mut self, sender: Account, args: TransferCall) -> (r: Result<Transfer, Drc20Error>)
        requires
            old(self).wf(),
        ensures
            final(self).wf(),
            final(self)@.wf(),
            final(self)@.supply == old(self)@.supply,
            match old(self)@.transfer_spec(sender@, args.to@, args.value) {
                Ok(t) => final(self)@ == t && (r matches Ok(ev) && ev@ == (sender@, args.to@, args.value)),
                Err(e) => r == Err::<Transfer, Drc20Error>(e) && *final(self) == *old(self),
            },
    {
        self.transfer_internal(sender, args.to, args.value)
    }

    /// Approve allowance: the sender of the call allows `args.spender` to
    /// move up to `args.value` on its behalf.
    pub fn approve(&mut self, sender: Account, args: ApproveCall) -> (r: Result<Approval, Drc20Error>)
        requires
            old(self).wf(),
        ensures
            final(self).wf(),
            final(self)@.wf(),
            final(self)@.supply == old(self)@.supply,
            final(self)@.balances == old(self)@.balances,
            match old(self)@.approve_spec(sender@, args.spender@, args.value) {
                Ok(t) => final(self)@ == t && (r matches Ok(ev) && ev@ == (sender@, args.spender@, args.value)),
                Err(e) => r == Err::<Approval, Drc20Error>(e) && *final(self) == *old(self),
            },
    {
        let zero = zero_address();
        if args.spender.same_as(&zero) {
            return Err(Drc20Error::ZeroAddressNotAllowed);
        }
        self.set_allowance(sender, args.spender, args.value);
        Ok(Approval { owner: sender, spender: args.spender, value: args.value })
    }

    /// Transfer using allowance: the sender of the call moves `args.value`
    /// from `args.owner` to `args.to`, spending its allowance.
    pub fn transfer_from(&mut self, sender: Account, args: TransferFromCall) -> (r: Result<Transfer, Drc20Error>)
        requires
            old(self).wf(),
        ensures
            final(self).wf(),
            final(self)@.wf(),
            final(self)@.supply == old(self)@.supply,
            match old(self)@.transfer_from_spec(sender@, args.owner@, args.to@, args.value) {
                Ok(t) => final(self)@ == t && (r matches Ok(ev) && ev@ == (args.owner@, args.to@, args.value)),
                Err(e) => r == Err::<Transfer, Drc20Error>(e) && *final(self) == *old(self),
            },
    {
        let current = self.allowance(Allowance { owner: args.owner, spender: sender });
        if current < args.value {
            return Err(Drc20Error::AllowanceTooLow);
        }
        let zero = zero_address();
        if args.to.same_as(&zero) {
            return Err(Drc20Error::ZeroAddressNotAllowed);
        }
        if amount_of(&self.balances, &args.owner) < args.value {
            return Err(Drc20Error::BalanceTooLow);
        }
        self.set_allowance(args.owner, sender, current - args.value);
        proof {
            lemma_transfer_keeps_ledger(self@, args.owner@, args.to@, args.value);
        }
        self.transfer_internal(args.owner, args.to, args.value)
    }
}

/// Determines the "msg.sender" of the current call.
///
/// - If called directly by an external account (a call stack of one
///   frame): the external account of the public sender; without a public
///   sender (a shielded transaction) the call is refused.
/// - If called by another contract: the calling contract; without a caller
///   the call is refused.
pub fn sender_account(
    callstack_len: usize,
    public_sender: Option<[u8; PUBLIC_KEY_RAW_SIZE]>,
    caller: Option<[u8; CONTRACT_ID_BYTES]>,
) -> (r: Result<Account, Drc20Error>)
    ensures
        r == if callstack_len == 1 {
            match public_sender {
                Some(pk) => Ok(Account::External(pk)),
                None => Err(Drc20Error::ShieldedNotSupported),
            }
        } else {
            match caller {
                Some(id) => Ok(Account::Contract(id)),
                None => Err(Drc20Error::MissingCaller),
            }
        },
{
    if callstack_len == 1 {
        match public_sender {
            Some(pk) => Ok(Account::External(pk)),
            None => Err(Drc20Error::ShieldedNotSupported),
        }
    } else {
        match caller {
            Some(id) => Ok(Account::Contract(id)),
            None => Err(Drc20Error::MissingCaller),
        }
    }
}

} // verus!
