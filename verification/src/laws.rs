//! What holds of the token across calls and states.

use vstd::prelude::*;

use crate::account::{
    account_before, account_bytes, account_shaped, bytes_before, zero_address_model, AccountModel,
};
use crate::error::Drc20Error;
use crate::state::{
    distribution_total, lemma_mint_all_refusal_extends, lemma_mint_all_step, lemma_mint_all_whole,
    lemma_mint_keeps_ledger, lemma_total_bounds, lemma_transfer_keeps_ledger, mint_events, total_of,
    TokenState,
};

verus! {

/// The total supply is the sum of all balances, and no single balance
/// exceeds it.
pub proof fn supply_is_sum_of_balances(st: TokenState, a: AccountModel)
    requires
        st.wf(),
    ensures
        st.supply == total_of(st.balances),
        st.balance(a) <= st.supply,
{
    lemma_total_bounds(st.balances, a, a);
}

/// The reserved zero address never holds tokens.
pub proof fn zero_address_holds_nothing(st: TokenState)
    requires
        st.wf(),
    ensures
        st.balance(zero_address_model()) == 0,
{
}

/// A transfer never overflows; it moves exactly `value` from `from` to
/// `to`, leaves every other balance, the supply and the allowances as they
/// were, and keeps the invariant.
pub proof fn transfer_moves_value(st: TokenState, from: AccountModel, to: AccountModel, value: u64)
    requires
        st.wf(),
    ensures
        st.transfer_spec(from, to, value) != Err::<TokenState, Drc20Error>(Drc20Error::SupplyOverflow),
        st.transfer_spec(from, to, value) matches Ok(t) ==> {
            &&& t.wf()
            &&& t.supply == st.supply
            &&& t.allowances == st.allowances
            &&& t.initialized == st.initialized
            &&& from != to ==> t.balance(from) == st.balance(from) - value
            &&& from != to ==> t.balance(to) == st.balance(to) + value
            &&& from == to ==> t.balance(from) == st.balance(from)
            &&& forall|a: AccountModel| a != from && a != to ==> #[trigger] t.balance(a) == st.balance(a)
        },
{
    lemma_transfer_keeps_ledger(st, from, to, value);
}

/// A transfer succeeds exactly when the recipient is not the zero address
/// and the sender holds at least `value`; a zero-value transfer is allowed
/// whatever the sender holds and changes nothing.
pub proof fn transfer_succeeds_when_funded(st: TokenState, from: AccountModel, to: AccountModel, value: u64)
    requires
        st.wf(),
    ensures
        st.transfer_spec(from, to, value) is Ok <==> (to != zero_address_model() && st.balance(from) >= value),
        to == zero_address_model() ==> st.transfer_spec(from, to, value) == Err::<TokenState, Drc20Error>(
            Drc20Error::ZeroAddressNotAllowed,
        ),
        to != zero_address_model() && st.balance(from) < value ==> st.transfer_spec(from, to, value)
            == Err::<TokenState, Drc20Error>(Drc20Error::BalanceTooLow),
        to != zero_address_model() ==> st.transfer_spec(from, to, 0) == Ok::<TokenState, Drc20Error>(st),
{
    lemma_transfer_keeps_ledger(st, from, to, value);
}

/// After an approval, the allowance reads back the approved value; every
/// other allowance, the balances and the supply are unchanged, and the
/// invariant holds.
pub proof fn approve_then_allowance(st: TokenState, owner: AccountModel, spender: AccountModel, value: u64)
    requires
        st.wf(),
        spender != zero_address_model(),
    ensures
        st.approve_spec(owner, spender, value) matches Ok(t) && {
            &&& t.allowance(owner, spender) == value
            &&& forall|o: AccountModel, s: AccountModel|
                (o != owner || s != spender) ==> #[trigger] t.allowance(o, s) == st.allowance(o, s)
            &&& t.balances == st.balances
            &&& t.supply == st.supply
            &&& t.wf()
        },
{
}

/// Approving the zero address as spender is refused.
pub proof fn approve_zero_address_refused(st: TokenState, owner: AccountModel, value: u64)
    ensures
        st.approve_spec(owner, zero_address_model(), value) == Err::<TokenState, Drc20Error>(
            Drc20Error::ZeroAddressNotAllowed,
        ),
{
}

/// A transfer on behalf of an owner spends exactly `value` of the
/// spender's allowance and moves `value` from the owner to the recipient;
/// it succeeds exactly when the allowance and the owner's balance cover
/// `value` and the recipient is not the zero address.
pub proof fn transfer_from_spends_allowance(
    st: TokenState,
    spender: AccountModel,
    owner: AccountModel,
    to: AccountModel,
    value: u64,
)
    requires
        st.wf(),
    ensures
        st.transfer_from_spec(spender, owner, to, value) is Ok <==> (st.allowance(owner, spender) >= value
            && to != zero_address_model() && st.balance(owner) >= value),
        st.allowance(owner, spender) < value ==> st.transfer_from_spec(spender, owner, to, value) == Err::<
            TokenState,
            Drc20Error,
        >(Drc20Error::AllowanceTooLow),
        st.allowance(owner, spender) >= value && to == zero_address_model() ==> st.transfer_from_spec(
            spender,
            owner,
            to,
            value,
        ) == Err::<TokenState, Drc20Error>(Drc20Error::ZeroAddressNotAllowed),
        st.allowance(owner, spender) >= value && to != zero_address_model() && st.balance(owner) < value
            ==> st.transfer_from_spec(spender, owner, to, value) == Err::<TokenState, Drc20Error>(
            Drc20Error::BalanceTooLow,
        ),
        st.transfer_from_spec(spender, owner, to, value) matches Ok(t) ==> {
            &&& t.wf()
            &&& t.supply == st.supply
            &&& t.allowance(owner, spender) == st.allowance(owner, spender) - value
            &&& forall|o: AccountModel, s: AccountModel|
                (o != owner || s != spender) ==> #[trigger] t.allowance(o, s) == st.allowance(o, s)
            &&& owner != to ==> t.balance(owner) == st.balance(owner) - value
            &&& owner != to ==> t.balance(to) == st.balance(to) + value
            &&& owner == to ==> t.balance(owner) == st.balance(owner)
            &&& forall|a: AccountModel| a != owner && a != to ==> #[trigger] t.balance(a) == st.balance(a)
        },
{
    let current = st.allowance(owner, spender);
    if current >= value {
        let mid = st.with_allowance(owner, spender, (current - value) as u64);
        lemma_transfer_keeps_ledger(mid, owner, to, value);
    }
}

/// The initial distribution mints exactly the sum of its amounts, keeps
/// the invariant, and can be made only once.
pub proof fn init_mints_distribution(st: TokenState, entries: Seq<(AccountModel, u64)>, again: Seq<(AccountModel, u64)>)
    requires
        st.wf(),
    ensures
        st.init_spec(entries) matches Ok(t) ==> {
            &&& t.wf()
            &&& t.initialized
            &&& t.supply == distribution_total(entries)
            &&& t.allowances == st.allowances
            &&& t.init_spec(again) == Err::<TokenState, Drc20Error>(Drc20Error::AlreadyInitialized)
        },
{
    if !st.initialized {
        lemma_mint_all_supply(st, entries);
    }
}

/// What a distribution gives to `a`: its amounts for `a`, added up.
pub open spec fn amount_for(entries: Seq<(AccountModel, u64)>, a: AccountModel) -> int
    decreases entries.len(),
{
    if entries.len() == 0 {
        0
    } else {
        amount_for(entries.drop_last(), a) + if entries.last().0 == a {
            entries.last().1 as int
        } else {
            0
        }
    }
}

/// The initial distribution succeeds whenever it is refused for no stated
/// reason: on a token not yet initialized, when no entry with a nonzero
/// amount names the zero address and the amounts add up to at most
/// `u64::MAX`, it succeeds, every account holds the sum of its amounts, and
/// the supply is the sum of all amounts.
pub proof fn init_succeeds_unless_refused(st: TokenState, entries: Seq<(AccountModel, u64)>)
    requires
        st.wf(),
        !st.initialized,
        forall|i: int| 0 <= i < entries.len() && #[trigger] entries[i].1 != 0 ==> entries[i].0 != zero_address_model(),
        distribution_total(entries) <= u64::MAX,
    ensures
        st.init_spec(entries) matches Ok(t) && {
            &&& t.initialized
            &&& t.wf()
            &&& t.supply == distribution_total(entries)
            &&& t.allowances == st.allowances
            &&& forall|a: AccountModel| #[trigger] t.balance(a) == amount_for(entries, a)
        },
{
    lemma_mint_all_ok(st, entries);
    let s = st.mint_all(entries)->Ok_0;
    let t = st.init_spec(entries)->Ok_0;
    assert(t.balances == s.balances);
    assert forall|a: AccountModel| #[trigger] t.balance(a) == amount_for(entries, a) by {
        lemma_total_bounds(st.balances, a, a);
        assert(s.balance(a) == st.balance(a) + amount_for(entries, a));
    }
}

/// The events of an initial distribution are, in order, one mint from the
/// zero address for each entry with a nonzero amount, to that entry's
/// account and of that entry's amount; entries of amount zero give none.
pub proof fn mint_events_follow_entries(entries: Seq<(AccountModel, u64)>)
    ensures
        mint_events(entries) == entries.filter(|e: (AccountModel, u64)| e.1 != 0).map_values(
            |e: (AccountModel, u64)| (zero_address_model(), e.0, e.1),
        ),
    decreases entries.len(),
{
    let keep = |e: (AccountModel, u64)| e.1 != 0;
    let ev = |e: (AccountModel, u64)| (zero_address_model(), e.0, e.1);
    reveal(Seq::filter);
    if entries.len() == 0 {
        assert(entries.filter(keep).map_values(ev) =~= Seq::<(AccountModel, AccountModel, u64)>::empty());
    } else {
        let d = entries.drop_last();
        mint_events_follow_entries(d);
        if entries.last().1 != 0 {
            assert(entries.filter(keep) == d.filter(keep).push(entries.last()));
            assert(d.filter(keep).push(entries.last()).map_values(ev) =~= d.filter(keep).map_values(ev).push(
                ev(entries.last()),
            ));
        } else {
            assert(entries.filter(keep) == d.filter(keep));
        }
    }
}

/// The initial distribution is refused exactly for the stated reasons: a
/// second distribution as already made; an entry with a nonzero amount for
/// the zero address, when the entries before it are accepted, as naming
/// the zero address; amounts that add up to more than `u64::MAX`, with no
/// such entry, as a supply overflow.
pub proof fn init_refusals(st: TokenState, entries: Seq<(AccountModel, u64)>, k: int)
    requires
        st.wf(),
    ensures
        st.initialized ==> st.init_spec(entries) == Err::<TokenState, Drc20Error>(Drc20Error::AlreadyInitialized),
        !st.initialized && 0 <= k < entries.len() && entries[k].1 != 0 && entries[k].0 == zero_address_model()
            && (forall|j: int| 0 <= j < k && #[trigger] entries[j].1 != 0 ==> entries[j].0 != zero_address_model())
            && distribution_total(entries.take(k)) <= u64::MAX ==> st.init_spec(entries) == Err::<
            TokenState,
            Drc20Error,
        >(Drc20Error::ZeroAddressNotAllowed),
        !st.initialized && (forall|i: int|
            0 <= i < entries.len() && #[trigger] entries[i].1 != 0 ==> entries[i].0 != zero_address_model())
            && distribution_total(entries) > u64::MAX ==> st.init_spec(entries) == Err::<TokenState, Drc20Error>(
            Drc20Error::SupplyOverflow,
        ),
{
    if !st.initialized {
        if 0 <= k < entries.len() && entries[k].1 != 0 && entries[k].0 == zero_address_model() && (forall|j: int|
            0 <= j < k && #[trigger] entries[j].1 != 0 ==> entries[j].0 != zero_address_model())
            && distribution_total(entries.take(k)) <= u64::MAX {
            let p = entries.take(k);
            assert forall|j: int| 0 <= j < p.len() && #[trigger] p[j].1 != 0 implies p[j].0 != zero_address_model() by {
                assert(p[j] == entries[j]);
            }
            lemma_mint_all_ok(st, p);
            lemma_mint_all_step(st, entries, k);
            lemma_mint_all_refusal_extends(st, entries, k + 1);
        }
        if (forall|i: int| 0 <= i < entries.len() && #[trigger] entries[i].1 != 0 ==> entries[i].0 != zero_address_model())
            && distribution_total(entries) > u64::MAX {
            lemma_mint_all_overflow(st, entries);
        }
    }
}

/// Minting a distribution with no refused entry whose amounts overflow the
/// supply is refused as a supply overflow.
proof fn lemma_mint_all_overflow(st: TokenState, entries: Seq<(AccountModel, u64)>)
    requires
        st.ledger_ok(),
        forall|i: int| 0 <= i < entries.len() && #[trigger] entries[i].1 != 0 ==> entries[i].0 != zero_address_model(),
        st.supply + distribution_total(entries) > u64::MAX,
    ensures
        st.mint_all(entries) == Err::<TokenState, Drc20Error>(Drc20Error::SupplyOverflow),
    decreases entries.len(),
{
    let d = entries.drop_last();
    let last = entries.last();
    assert(entries[entries.len() - 1] == last);
    assert forall|i: int| 0 <= i < d.len() && #[trigger] d[i].1 != 0 implies d[i].0 != zero_address_model() by {
        assert(d[i] == entries[i]);
    }
    if st.supply + distribution_total(d) > u64::MAX {
        lemma_mint_all_overflow(st, d);
    } else {
        lemma_mint_all_ok(st, d);
        let s = st.mint_all(d)->Ok_0;
        lemma_mint_keeps_ledger(s, last.0, last.1);
    }
}

/// Minting a distribution with no refused entry adds each amount to its
/// account's balance and to the supply.
proof fn lemma_mint_all_ok(st: TokenState, entries: Seq<(AccountModel, u64)>)
    requires
        st.ledger_ok(),
        forall|i: int| 0 <= i < entries.len() && #[trigger] entries[i].1 != 0 ==> entries[i].0 != zero_address_model(),
        st.supply + distribution_total(entries) <= u64::MAX,
    ensures
        st.mint_all(entries) matches Ok(t) && {
            &&& t.ledger_ok()
            &&& t.supply == st.supply + distribution_total(entries)
            &&& t.allowances == st.allowances
            &&& t.initialized == st.initialized
            &&& forall|a: AccountModel| #[trigger] t.balance(a) == st.balance(a) + amount_for(entries, a)
        },
    decreases entries.len(),
{
    if entries.len() > 0 {
        let d = entries.drop_last();
        let last = entries.last();
        assert forall|i: int| 0 <= i < d.len() && #[trigger] d[i].1 != 0 implies d[i].0 != zero_address_model() by {
            assert(d[i] == entries[i]);
        }
        assert(entries[entries.len() - 1] == last);
        lemma_mint_all_ok(st, d);
        let s = st.mint_all(d)->Ok_0;
        lemma_mint_keeps_ledger(s, last.0, last.1);
        assert forall|a: AccountModel| #[trigger] st.mint_all(entries)->Ok_0.balance(a) == st.balance(a) + amount_for(entries, a) by {
            assert(s.balance(a) == st.balance(a) + amount_for(d, a));
        }
    } else {
        assert forall|a: AccountModel| #[trigger] st.mint_all(entries)->Ok_0.balance(a) == st.balance(a) + amount_for(entries, a) by {
        }
    }
}

/// Minting a distribution that is not refused adds the sum of its amounts
/// to the supply and keeps the ledger sound.
proof fn lemma_mint_all_supply(st: TokenState, entries: Seq<(AccountModel, u64)>)
    requires
        st.ledger_ok(),
    ensures
        st.mint_all(entries) matches Ok(t) ==> {
            &&& t.ledger_ok()
            &&& t.supply == st.supply + distribution_total(entries)
            &&& t.allowances == st.allowances
            &&& t.initialized == st.initialized
        },
    decreases entries.len(),
{
    if entries.len() > 0 {
        let d = entries.drop_last();
        lemma_mint_all_supply(st, d);
        lemma_mint_all_whole(entries);
        lemma_mint_all_step(st, entries, entries.len() - 1);
        assert(entries.take(entries.len() - 1) =~= d);
        if st.mint_all(d) is Ok {
            lemma_mint_keeps_ledger(st.mint_all(d)->Ok_0, entries.last().0, entries.last().1);
        }
    }
}

/// Two distinct byte sequences of equal length are ordered one way or the
/// other.
proof fn lemma_bytes_total(a: Seq<u8>, b: Seq<u8>)
    requires
        a.len() == b.len(),
        a != b,
    ensures
        bytes_before(a, b) || bytes_before(b, a),
    decreases a.len(),
{
    if a.len() == 0 {
        assert(a =~= b);
    } else if a[0] != b[0] {
        if a[0] < b[0] {
            assert(bytes_before(a, b));
        } else {
            assert(bytes_before(b, a));
        }
    } else {
        let (ta, tb) = (a.drop_first(), b.drop_first());
        if ta == tb {
            assert(a =~= b) by {
                assert forall|k: int| 0 <= k < a.len() implies a[k] == b[k] by {
                    if k > 0 {
                        assert(a[k] == ta[k - 1] && b[k] == tb[k - 1]);
                    }
                }
            }
        }
        lemma_bytes_total(ta, tb);
        if bytes_before(ta, tb) {
            let i = choose|i: int|
                0 <= i < ta.len() && i < tb.len() && #[trigger] ta[i] < #[trigger] tb[i] && forall|j: int|
                    0 <= j < i ==> ta[j] == tb[j];
            assert(a[i + 1] < b[i + 1]);
            assert forall|j: int| 0 <= j < i + 1 implies a[j] == b[j] by {
                if j > 0 {
                    assert(a[j] == ta[j - 1] && b[j] == tb[j - 1]);
                }
            }
        } else {
            let i = choose|i: int|
                0 <= i < tb.len() && i < ta.len() && #[trigger] tb[i] < #[trigger] ta[i] && forall|j: int|
                    0 <= j < i ==> tb[j] == ta[j];
            assert(b[i + 1] < a[i + 1]);
            assert forall|j: int| 0 <= j < i + 1 implies b[j] == a[j] by {
                if j > 0 {
                    assert(a[j] == ta[j - 1] && b[j] == tb[j - 1]);
                }
            }
        }
    }
}

/// Lexicographic byte order is irreflexive, asymmetric and transitive.
proof fn lemma_bytes_order(a: Seq<u8>, b: Seq<u8>, c: Seq<u8>)
    ensures
        !bytes_before(a, a),
        bytes_before(a, b) ==> !bytes_before(b, a),
        bytes_before(a, b) && bytes_before(b, c) ==> bytes_before(a, c),
{
    if bytes_before(a, b) {
        let i = choose|i: int|
            0 <= i < a.len() && i < b.len() && #[trigger] a[i] < #[trigger] b[i] && forall|j: int|
                0 <= j < i ==> a[j] == b[j];
        if bytes_before(b, a) {
            let k = choose|k: int|
                0 <= k < b.len() && k < a.len() && #[trigger] b[k] < #[trigger] a[k] && forall|j: int|
                    0 <= j < k ==> b[j] == a[j];
            if i < k {
                assert(b[i] == a[i]);
            } else if k < i {
                assert(a[k] == b[k]);
            }
        }
        if bytes_before(b, c) {
            let k = choose|k: int|
                0 <= k < b.len() && k < c.len() && #[trigger] b[k] < #[trigger] c[k] && forall|j: int|
                    0 <= j < k ==> b[j] == c[j];
            let m = if i < k { i } else { k };
            assert(a[m] < c[m]);
            assert forall|j: int| 0 <= j < m implies a[j] == c[j] by {
                assert(a[j] == b[j] && b[j] == c[j]);
            }
            assert(bytes_before(a, c));
        }
    }
}

/// The order of accounts is a strict total order: irreflexive, asymmetric,
/// transitive, and any two distinct accounts are ordered one way or the
/// other, so accounts can key an ordered map.
pub proof fn account_order_is_strict_total(a: AccountModel, b: AccountModel, c: AccountModel)
    requires
        account_shaped(a),
        account_shaped(b),
        account_shaped(c),
    ensures
        !account_before(a, a),
        account_before(a, b) ==> !account_before(b, a),
        account_before(a, b) && account_before(b, c) ==> account_before(a, c),
        a != b ==> account_before(a, b) || account_before(b, a),
{
    match (a, b, c) {
        (AccountModel::External(x), AccountModel::External(y), AccountModel::External(z)) => {
            lemma_bytes_order(x, y, z);
            if x != y {
                lemma_bytes_total(x, y);
            }
        },
        (AccountModel::Contract(x), AccountModel::Contract(y), AccountModel::Contract(z)) => {
            lemma_bytes_order(x, y, z);
            if x != y {
                lemma_bytes_total(x, y);
            }
        },
        (AccountModel::External(x), AccountModel::External(y), _) => {
            lemma_bytes_order(x, y, x);
            if x != y {
                lemma_bytes_total(x, y);
            }
        },
        (AccountModel::Contract(x), AccountModel::Contract(y), _) => {
            lemma_bytes_order(x, y, x);
            if x != y {
                lemma_bytes_total(x, y);
            }
        },
        (AccountModel::External(x), _, _) => {
            lemma_bytes_order(x, x, x);
        },
        (AccountModel::Contract(x), _, _) => {
            lemma_bytes_order(x, x, x);
        },
    }
}

/// The canonical bytes of an account are one discriminant byte, `0` for
/// an external account and `1` for a contract, followed by the account's
/// own bytes in their order.
pub proof fn account_bytes_layout(a: AccountModel)
    ensures
        match a {
            AccountModel::External(k) => {
                &&& account_bytes(a).len() == k.len() + 1
                &&& account_bytes(a)[0] == 0
                &&& forall|j: int| 0 <= j < k.len() ==> account_bytes(a)[j + 1] == #[trigger] k[j]
            },
            AccountModel::Contract(id) => {
                &&& account_bytes(a).len() == id.len() + 1
                &&& account_bytes(a)[0] == 1
                &&& forall|j: int| 0 <= j < id.len() ==> account_bytes(a)[j + 1] == #[trigger] id[j]
            },
        },
{
}

/// Accounts of one kind are ordered by the first byte in which they
/// differ; every external account comes before every contract.
pub proof fn account_order_by_first_difference(x: Seq<u8>, y: Seq<u8>, k: int)
    requires
        x.len() == y.len(),
        0 <= k < x.len(),
        forall|j: int| 0 <= j < k ==> x[j] == y[j],
        x[k] != y[k],
    ensures
        account_before(AccountModel::External(x), AccountModel::External(y)) == (x[k] < y[k]),
        account_before(AccountModel::Contract(x), AccountModel::Contract(y)) == (x[k] < y[k]),
        account_before(AccountModel::External(x), AccountModel::Contract(y)),
        !account_before(AccountModel::Contract(x), AccountModel::External(y)),
{
    if x[k] < y[k] {
        assert(bytes_before(x, y));
    } else {
        assert forall|m: int| 0 <= m < x.len() && #[trigger] x[m] < #[trigger] y[m] implies exists|j: int| 0 <= j < m && x[j] != y[j] by {
            if m > k {
                assert(x[k] != y[k]);
            }
        }
    }
}

/// Distinct accounts have distinct canonical bytes.
pub proof fn account_bytes_are_injective(a: AccountModel, b: AccountModel)
    ensures
        account_bytes(a) == account_bytes(b) ==> a == b,
{
    if account_bytes(a) == account_bytes(b) {
        let (x, y) = (account_bytes(a), account_bytes(b));
        assert(x[0] == y[0]);
        match (a, b) {
            (AccountModel::External(p), AccountModel::External(q)) => {
                assert(x.drop_first() =~= p);
                assert(y.drop_first() =~= q);
            },
            (AccountModel::Contract(p), AccountModel::Contract(q)) => {
                assert(x.drop_first() =~= p);
                assert(y.drop_first() =~= q);
            },
            _ => {},
        }
    }
}

} // verus!
