//! The mathematical model of the token: its state and what each call does
//! to it.

use vstd::prelude::*;

use crate::account::{zero_address_model, AccountModel};
use crate::error::Drc20Error;
use vstd::set::fold::{lemma_fold_empty, lemma_fold_insert};
use vstd::set::fold::is_fun_commutative;

verus! {

/// The amount that `m` holds for `a`; nothing held counts as zero.
pub open spec fn amount_in(m: Map<AccountModel, u64>, a: AccountModel) -> u64 {
    if m.contains_key(a) {
        m[a]
    } else {
        0
    }
}

/// One step of summing the amounts of `m`.
pub open spec fn add_amount(m: Map<AccountModel, u64>) -> spec_fn(int, AccountModel) -> int {
    |acc: int, a: AccountModel| acc + m[a]
}

/// The sum of all amounts that `m` holds.
pub open spec fn total_of(m: Map<AccountModel, u64>) -> int {
    m.dom().fold(0int, add_amount(m))
}

proof fn lemma_add_amount_commutes(m: Map<AccountModel, u64>)
    ensures
        is_fun_commutative(add_amount(m)),
{
    assert forall|a1: AccountModel, a2: AccountModel, b: int|
        #[trigger] add_amount(m)(add_amount(m)(b, a2), a1) == add_amount(m)(add_amount(m)(b, a1), a2) by {
    }
}

/// Summing over a set only looks at the amounts of its members.
proof fn lemma_fold_agrees(s: Set<AccountModel>, m1: Map<AccountModel, u64>, m2: Map<AccountModel, u64>)
    requires
        s.finite(),
        forall|a: AccountModel| s.contains(a) ==> m1[a] == m2[a],
    ensures
        s.fold(0int, add_amount(m1)) == s.fold(0int, add_amount(m2)),
    decreases s.len(),
{
    lemma_add_amount_commutes(m1);
    lemma_add_amount_commutes(m2);
    if s.len() == 0 {
        assert(s =~= Set::empty());
        lemma_fold_empty(0int, add_amount(m1));
        lemma_fold_empty(0int, add_amount(m2));
    } else {
        let a = s.choose();
        let r = s.remove(a);
        lemma_fold_agrees(r, m1, m2);
        lemma_fold_insert(r, 0int, add_amount(m1), a);
        lemma_fold_insert(r, 0int, add_amount(m2), a);
        assert(r.insert(a) =~= s);
    }
}

/// The sum of amounts is never negative.
pub proof fn lemma_total_nonnegative(m: Map<AccountModel, u64>)
    requires
        m.dom().finite(),
    ensures
        total_of(m) >= 0,
    decreases m.dom().len(),
{
    lemma_add_amount_commutes(m);
    if m.dom().len() == 0 {
        assert(m.dom() =~= Set::empty());
        lemma_fold_empty(0int, add_amount(m));
    } else {
        let a = m.dom().choose();
        lemma_total_remove(m, a);
        lemma_total_nonnegative(m.remove(a));
    }
}

/// Dropping an account takes its amount out of the sum.
pub proof fn lemma_total_remove(m: Map<AccountModel, u64>, a: AccountModel)
    requires
        m.dom().finite(),
    ensures
        total_of(m.remove(a)) == total_of(m) - amount_in(m, a),
{
    if m.contains_key(a) {
        let r = m.dom().remove(a);
        lemma_add_amount_commutes(m);
        lemma_fold_insert(r, 0int, add_amount(m), a);
        assert(r.insert(a) =~= m.dom());
        assert(m.remove(a).dom() =~= r);
        lemma_fold_agrees(r, m.remove(a), m);
    } else {
        assert(m.remove(a) =~= m);
    }
}

/// Setting the amount of an account replaces its share of the sum.
pub proof fn lemma_total_insert(m: Map<AccountModel, u64>, a: AccountModel, v: u64)
    requires
        m.dom().finite(),
    ensures
        total_of(m.insert(a, v)) == total_of(m) - amount_in(m, a) + v,
{
    lemma_total_remove(m.insert(a, v), a);
    lemma_total_remove(m, a);
    assert(m.insert(a, v).remove(a) =~= m.remove(a));
}

/// The amounts of two distinct accounts together never exceed the sum.
pub proof fn lemma_total_bounds(m: Map<AccountModel, u64>, a: AccountModel, b: AccountModel)
    requires
        m.dom().finite(),
    ensures
        amount_in(m, a) <= total_of(m),
        a != b ==> amount_in(m, a) + amount_in(m, b) <= total_of(m),
{
    lemma_total_remove(m, a);
    lemma_total_remove(m.remove(a), b);
    lemma_total_nonnegative(m.remove(a).remove(b));
    lemma_total_nonnegative(m.remove(a));
}

/// The empty map sums to zero.
pub proof fn lemma_total_empty()
    ensures
        total_of(Map::<AccountModel, u64>::empty()) == 0,
{
    assert(Map::<AccountModel, u64>::empty().dom() =~= Set::empty());
    lemma_fold_empty(0int, add_amount(Map::<AccountModel, u64>::empty()));
}

/// The state of the token.
pub ghost struct TokenState {
    /// Whether the initial distribution has been made.
    pub initialized: bool,
    /// The balance of every account that holds tokens.
    pub balances: Map<AccountModel, u64>,
    /// For each owner, what each spender may move on its behalf.
    pub allowances: Map<AccountModel, Map<AccountModel, u64>>,
    /// The total supply.
    pub supply: u64,
}

impl TokenState {
    /// A token that has not been initialized yet.
    pub open spec fn initial() -> TokenState {
        TokenState {
            initialized: false,
            balances: Map::empty(),
            allowances: Map::empty(),
            supply: 0,
        }
    }

    /// The balance of `a`.
    pub open spec fn balance(self, a: AccountModel) -> u64 {
        amount_in(self.balances, a)
    }

    /// The allowances that `owner` has granted.
    pub open spec fn granted_by(self, owner: AccountModel) -> Map<AccountModel, u64> {
        if self.allowances.contains_key(owner) {
            self.allowances[owner]
        } else {
            Map::empty()
        }
    }

    /// What `spender` may move on behalf of `owner`.
    pub open spec fn allowance(self, owner: AccountModel, spender: AccountModel) -> u64 {
        amount_in(self.granted_by(owner), spender)
    }

    /// The ledger is sound: the supply is the sum of all balances, only
    /// positive balances are held, and the zero address holds nothing.
    pub open spec fn ledger_ok(self) -> bool {
        &&& self.balances.dom().finite()
        &&& self.supply == total_of(self.balances)
        &&& forall|a: AccountModel| #[trigger] self.balances.contains_key(a) ==> self.balances[a] > 0
        &&& !self.balances.contains_key(zero_address_model())
    }

    /// The invariant of the token: a sound ledger, and no token before the
    /// initial distribution.
    pub open spec fn wf(self) -> bool {
        &&& self.ledger_ok()
        &&& !self.initialized ==> self.supply == 0
    }

    /// The state with `allowances` in place of this state's.
    pub open spec fn with_allowances(self, allowances: Map<AccountModel, Map<AccountModel, u64>>) -> TokenState {
        TokenState {
            initialized: self.initialized,
            balances: self.balances,
            allowances,
            supply: self.supply,
        }
    }

    /// The state with `balances` in place of this state's.
    pub open spec fn with_balances(self, balances: Map<AccountModel, u64>) -> TokenState {
        TokenState {
            initialized: self.initialized,
            balances,
            allowances: self.allowances,
            supply: self.supply,
        }
    }

    /// The state in which `owner` allows `spender` exactly `value`.
    pub open spec fn with_allowance(self, owner: AccountModel, spender: AccountModel, value: u64) -> TokenState {
        self.with_allowances(self.allowances.insert(owner, self.granted_by(owner).insert(spender, value)))
    }

    /// Moving `value` from `from` to `to`.
    ///
    /// The recipient must not be the zero address and the sender must hold
    /// `value`; a zero-value transfer changes nothing. The sender's entry is
    /// dropped when its balance reaches zero.
    pub open spec fn transfer_spec(self, from: AccountModel, to: AccountModel, value: u64) -> Result<TokenState, Drc20Error> {
        if to == zero_address_model() {
            Err(Drc20Error::ZeroAddressNotAllowed)
        } else if self.balance(from) < value {
            Err(Drc20Error::BalanceTooLow)
        } else if value == 0 {
            Ok(self)
        } else {
            let left = (self.balance(from) - value) as u64;
            let debited = if left == 0 {
                self.balances.remove(from)
            } else {
                self.balances.insert(from, left)
            };
            if amount_in(debited, to) + value > u64::MAX {
                Err(Drc20Error::SupplyOverflow)
            } else {
                Ok(self.with_balances(debited.insert(to, (amount_in(debited, to) + value) as u64)))
            }
        }
    }

    /// `owner` allows `spender` to move up to `value` on its behalf.
    pub open spec fn approve_spec(self, owner: AccountModel, spender: AccountModel, value: u64) -> Result<TokenState, Drc20Error> {
        if spender == zero_address_model() {
            Err(Drc20Error::ZeroAddressNotAllowed)
        } else {
            Ok(self.with_allowance(owner, spender, value))
        }
    }

    /// `spender` moves `value` from `owner` to `to`, spending its allowance.
    pub open spec fn transfer_from_spec(
        self,
        spender: AccountModel,
        owner: AccountModel,
        to: AccountModel,
        value: u64,
    ) -> Result<TokenState, Drc20Error> {
        let current = self.allowance(owner, spender);
        if current < value {
            Err(Drc20Error::AllowanceTooLow)
        } else {
            self.with_allowance(owner, spender, (current - value) as u64).transfer_spec(owner, to, value)
        }
    }

    /// Minting `amount` to `account` during the initial distribution; a zero
    /// amount is skipped.
    pub open spec fn mint_spec(self, account: AccountModel, amount: u64) -> Result<TokenState, Drc20Error> {
        if amount == 0 {
            Ok(self)
        } else if account == zero_address_model() {
            Err(Drc20Error::ZeroAddressNotAllowed)
        } else if self.balance(account) + amount > u64::MAX {
            Err(Drc20Error::SupplyOverflow)
        } else if self.supply + amount > u64::MAX {
            Err(Drc20Error::SupplyOverflow)
        } else {
            Ok(TokenState {
                initialized: self.initialized,
                balances: self.balances.insert(account, (self.balance(account) + amount) as u64),
                allowances: self.allowances,
                supply: (self.supply + amount) as u64,
            })
        }
    }

    /// Minting each entry of a distribution in turn; the first refusal wins.
    pub open spec fn mint_all(self, entries: Seq<(AccountModel, u64)>) -> Result<TokenState, Drc20Error>
        decreases entries.len(),
    {
        if entries.len() == 0 {
            Ok(self)
        } else {
            match self.mint_all(entries.drop_last()) {
                Ok(s) => s.mint_spec(entries.last().0, entries.last().1),
                Err(e) => Err(e),
            }
        }
    }

    /// The initial distribution: allowed once.
    pub open spec fn init_spec(self, entries: Seq<(AccountModel, u64)>) -> Result<TokenState, Drc20Error> {
        if self.initialized {
            Err(Drc20Error::AlreadyInitialized)
        } else {
            match self.mint_all(entries) {
                Ok(s) => Ok(TokenState {
                    initialized: true,
                    balances: s.balances,
                    allowances: s.allowances,
                    supply: s.supply,
                }),
                Err(e) => Err(e),
            }
        }
    }
}

/// The `Transfer` events of an initial distribution: one mint from the zero
/// address for each entry with a nonzero amount, in order.
pub open spec fn mint_events(entries: Seq<(AccountModel, u64)>) -> Seq<(AccountModel, AccountModel, u64)>
    decreases entries.len(),
{
    if entries.len() == 0 {
        Seq::empty()
    } else if entries.last().1 == 0 {
        mint_events(entries.drop_last())
    } else {
        mint_events(entries.drop_last()).push((zero_address_model(), entries.last().0, entries.last().1))
    }
}

/// The sum of the amounts of a distribution.
pub open spec fn distribution_total(entries: Seq<(AccountModel, u64)>) -> int
    decreases entries.len(),
{
    if entries.len() == 0 {
        0
    } else {
        distribution_total(entries.drop_last()) + entries.last().1
    }
}

/// Minting keeps the ledger sound and adds the amount to the supply.
pub proof fn lemma_mint_keeps_ledger(st: TokenState, account: AccountModel, amount: u64)
    requires
        st.ledger_ok(),
    ensures
        st.supply + amount <= u64::MAX ==> st.balance(account) + amount <= u64::MAX,
        st.mint_spec(account, amount) matches Ok(t) ==> {
            &&& t.ledger_ok()
            &&& t.supply == st.supply + amount
            &&& t.initialized == st.initialized
            &&& t.allowances == st.allowances
        },
{
    lemma_total_bounds(st.balances, account, account);
    if st.mint_spec(account, amount) is Ok && amount != 0 {
        lemma_total_insert(st.balances, account, (st.balance(account) + amount) as u64);
    }
}

/// Once a prefix of a distribution is refused, the whole distribution is
/// refused for the same reason.
pub proof fn lemma_mint_all_refusal_extends(st: TokenState, entries: Seq<(AccountModel, u64)>, k: int)
    requires
        0 <= k <= entries.len(),
        st.mint_all(entries.take(k)) is Err,
    ensures
        st.mint_all(entries) == st.mint_all(entries.take(k)),
    decreases entries.len(),
{
    if k == entries.len() {
        assert(entries.take(k) =~= entries);
    } else {
        let d = entries.drop_last();
        assert(d.take(k) =~= entries.take(k));
        lemma_mint_all_refusal_extends(st, d, k);
    }
}

/// Minting a distribution one more entry at a time.
pub proof fn lemma_mint_all_step(st: TokenState, entries: Seq<(AccountModel, u64)>, i: int)
    requires
        0 <= i < entries.len(),
    ensures
        st.mint_all(entries.take(i + 1)) == match st.mint_all(entries.take(i)) {
            Ok(s) => s.mint_spec(entries[i].0, entries[i].1),
            Err(e) => Err(e),
        },
        mint_events(entries.take(i + 1)) == if entries[i].1 == 0 {
            mint_events(entries.take(i))
        } else {
            mint_events(entries.take(i)).push((zero_address_model(), entries[i].0, entries[i].1))
        },
        distribution_total(entries.take(i + 1)) == distribution_total(entries.take(i)) + entries[i].1,
{
    assert(entries.take(i + 1).drop_last() =~= entries.take(i));
}

/// Minting a distribution is defined entry by entry over the whole of it.
pub proof fn lemma_mint_all_whole(entries: Seq<(AccountModel, u64)>)
    ensures
        entries.take(entries.len() as int) == entries,
        entries.take(0) == Seq::<(AccountModel, u64)>::empty(),
{
    assert(entries.take(entries.len() as int) =~= entries);
    assert(entries.take(0) =~= Seq::<(AccountModel, u64)>::empty());
}

/// A transfer under a sound ledger never overflows, keeps the ledger
/// sound, and leaves the supply, the allowances and the initialization as
/// they were.
pub proof fn lemma_transfer_keeps_ledger(st: TokenState, from: AccountModel, to: AccountModel, value: u64)
    requires
        st.ledger_ok(),
    ensures
        st.transfer_spec(from, to, value) != Err::<TokenState, Drc20Error>(Drc20Error::SupplyOverflow),
        st.transfer_spec(from, to, value) matches Ok(t) ==> {
            &&& t.ledger_ok()
            &&& t.supply == st.supply
            &&& t.initialized == st.initialized
            &&& t.allowances == st.allowances
        },
{
    if to != zero_address_model() && st.balance(from) >= value && value != 0 {
        let left = (st.balance(from) - value) as u64;
        let debited = if left == 0 {
            st.balances.remove(from)
        } else {
            st.balances.insert(from, left)
        };
        lemma_total_bounds(st.balances, from, to);
        if left == 0 {
            lemma_total_remove(st.balances, from);
        } else {
            lemma_total_insert(st.balances, from, left);
        }
        assert(st.balances.contains_key(from));
        assert(from != zero_address_model());
        if from == to {
            assert(amount_in(debited, to) == left);
        } else {
            assert(amount_in(debited, to) == st.balance(to));
        }
        assert(amount_in(debited, to) + value <= u64::MAX);
        let credited = debited.insert(to, (amount_in(debited, to) + value) as u64);
        lemma_total_insert(debited, to, (amount_in(debited, to) + value) as u64);
        assert forall|a: AccountModel| #[trigger] credited.contains_key(a) implies credited[a] > 0 by {
            if a != to && a != from {
                assert(st.balances.contains_key(a));
            }
        }
    }
}

} // verus!
