//! Accounts: externally owned (BLS public keys) and contracts.

use core::cmp::Ordering;

use vstd::prelude::*;

verus! {

/// Size of the raw byte representation of a BLS public key.
pub const PUBLIC_KEY_RAW_SIZE: usize = 193;

/// Size of a contract identifier.
pub const CONTRACT_ID_BYTES: usize = 32;

/// A DRC20 account.
///
/// Dusk contracts can be called both by externally owned accounts (BLS public
/// keys, held here by their raw bytes) and by other contracts (held by their
/// 32-byte identifier).
#[derive(Clone, Copy, Debug)]
pub enum Account {
    /// An externally owned account: the raw bytes of its BLS public key.
    External([u8; PUBLIC_KEY_RAW_SIZE]),
    /// A contract account: its contract identifier.
    Contract([u8; CONTRACT_ID_BYTES]),
}

/// The mathematical identity of an account.
pub ghost enum AccountModel {
    External(Seq<u8>),
    Contract(Seq<u8>),
}

impl View for Account {
    type V = AccountModel;

    open spec fn view(&self) -> AccountModel {
        match self {
            Account::External(k) => AccountModel::External(k@),
            Account::Contract(id) => AccountModel::Contract(id@),
        }
    }
}

/// Reserved zero address: the contract account whose identifier is all zero.
pub open spec fn zero_address_model() -> AccountModel {
    AccountModel::Contract(Seq::new(32, |i: int| 0u8))
}

/// Reserved zero address: the contract account whose identifier is all zero.
pub fn zero_address() -> (z: Account)
    ensures
        z@ == zero_address_model(),
{
    let id = [0u8; CONTRACT_ID_BYTES];
    assert(id@ =~= Seq::new(32, |i: int| 0u8));
    Account::Contract(id)
}

/// Whether two byte sequences of equal length agree everywhere.
pub fn bytes_equal(a: &[u8], b: &[u8]) -> (r: bool)
    requires
        a@.len() == b@.len(),
    ensures
        r == (a@ == b@),
{
    let n = a.len();
    let mut i: usize = 0;
    while i < n
        invariant
            n == a@.len(),
            n == b@.len(),
            0 <= i <= n,
            forall|j: int| 0 <= j < i ==> a@[j] == b@[j],
        decreases n - i,
    {
        if a[i] != b[i] {
            return false;
        }
        i = i + 1;
    }
    assert(a@ =~= b@);
    true
}

/// The canonical bytes of an account: a discriminant byte (`0x00` for an
/// external account, `0x01` for a contract) followed by the account's own
/// bytes.
pub open spec fn account_bytes(a: AccountModel) -> Seq<u8> {
    match a {
        AccountModel::External(k) => seq![0u8] + k,
        AccountModel::Contract(id) => seq![1u8] + id,
    }
}

/// `a` comes before `b` in lexicographic byte order.
pub open spec fn bytes_before(a: Seq<u8>, b: Seq<u8>) -> bool {
    exists|i: int|
        0 <= i < a.len() && i < b.len() && #[trigger] a[i] < #[trigger] b[i] && forall|j: int|
            0 <= j < i ==> a[j] == b[j]
}

/// The order of accounts: external accounts by the raw bytes of their keys,
/// contracts by their identifiers, and every external account before every
/// contract.
pub open spec fn account_before(a: AccountModel, b: AccountModel) -> bool {
    match (a, b) {
        (AccountModel::External(x), AccountModel::External(y)) => bytes_before(x, y),
        (AccountModel::Contract(x), AccountModel::Contract(y)) => bytes_before(x, y),
        (AccountModel::External(_), AccountModel::Contract(_)) => true,
        (AccountModel::Contract(_), AccountModel::External(_)) => false,
    }
}

/// The account has the byte length of its kind.
pub open spec fn account_shaped(a: AccountModel) -> bool {
    match a {
        AccountModel::External(k) => k.len() == PUBLIC_KEY_RAW_SIZE,
        AccountModel::Contract(id) => id.len() == CONTRACT_ID_BYTES,
    }
}

/// Appends `bytes` to `buf`.
pub fn push_bytes(buf: &mut Vec<u8>, bytes: &[u8])
    ensures
        final(buf)@ == old(buf)@ + bytes@,
{
    let n = bytes.len();
    let mut i: usize = 0;
    while i < n
        invariant
            n == bytes@.len(),
            0 <= i <= n,
            buf@ == old(buf)@ + bytes@.take(i as int),
        decreases n - i,
    {
        buf.push(bytes[i]);
        proof {
            assert(bytes@.take(i + 1) =~= bytes@.take(i as int).push(bytes@[i as int]));
        }
        i = i + 1;
    }
    proof {
        assert(bytes@.take(n as int) =~= bytes@);
    }
}

/// Where two byte sequences first differ decides their order.
proof fn lemma_first_difference(a: Seq<u8>, b: Seq<u8>, i: usize)
    requires
        a.len() == b.len(),
        i < a.len(),
        forall|j: int| 0 <= j < i ==> a[j] == b[j],
        a[i as int] != b[i as int],
    ensures
        a != b,
        bytes_before(a, b) == (a[i as int] < b[i as int]),
        bytes_before(b, a) == (b[i as int] < a[i as int]),
{
    let k = i as int;
    assert(a[k] != b[k]);
    if a[k] < b[k] {
        assert(bytes_before(a, b));
    } else {
        assert(bytes_before(b, a));
    }
    assert forall|m: int| 0 <= m < a.len() && #[trigger] b[m] < #[trigger] a[m] && m != k implies exists|j: int| 0 <= j < m && a[j] != b[j] by {
        if m > k {
            assert(a[k] != b[k]);
        }
    }
    assert forall|m: int| 0 <= m < a.len() && #[trigger] a[m] < #[trigger] b[m] && m != k implies exists|j: int| 0 <= j < m && a[j] != b[j] by {
        if m > k {
            assert(a[k] != b[k]);
        }
    }
}

/// Lexicographic comparison of byte sequences of equal length.
fn compare_bytes(a: &[u8], b: &[u8]) -> (o: Ordering)
    requires
        a@.len() == b@.len(),
    ensures
        (o == Ordering::Less) == bytes_before(a@, b@),
        (o == Ordering::Equal) == (a@ == b@),
        (o == Ordering::Greater) == bytes_before(b@, a@),
{
    let n = a.len();
    let mut i: usize = 0;
    while i < n
        invariant
            n == a@.len(),
            n == b@.len(),
            0 <= i <= n,
            forall|j: int| 0 <= j < i ==> a@[j] == b@[j],
        decreases n - i,
    {
        if a[i] != b[i] {
            proof {
                lemma_first_difference(a@, b@, i);
            }
            if a[i] < b[i] {
                return Ordering::Less;
            } else {
                return Ordering::Greater;
            }
        }
        i = i + 1;
    }
    proof {
        assert(a@ =~= b@);
    }
    Ordering::Equal
}

impl Account {
    /// Canonical byte serialization for digest construction.
    ///
    /// Format: `[discriminant: u8] ++ [inner_bytes]`
    /// - External: `0x00 ++ public_key_raw_bytes`
    /// - Contract: `0x01 ++ contract_id_bytes (32 bytes)`
    pub fn to_bytes(&self) -> (b: Vec<u8>)
        ensures
            b@ == account_bytes(self@),
    {
        match self {
            Account::External(pk) => {
                let mut buf = Vec::with_capacity(1 + PUBLIC_KEY_RAW_SIZE);
                buf.push(0x00);
                push_bytes(&mut buf, pk.as_slice());
                buf
            },
            Account::Contract(id) => {
                let mut buf = Vec::with_capacity(1 + CONTRACT_ID_BYTES);
                buf.push(0x01);
                push_bytes(&mut buf, id.as_slice());
                buf
            },
        }
    }

    /// The order of accounts: external accounts by the raw bytes of their
    /// keys, contracts by their identifiers, and every external account
    /// before every contract.
    pub fn cmp(&self, other: &Account) -> (o: Ordering)
        ensures
            (o == Ordering::Less) == account_before(self@, other@),
            (o == Ordering::Equal) == (self@ == other@),
            (o == Ordering::Greater) == account_before(other@, self@),
    {
        match (self, other) {
            (Account::External(lhs), Account::External(rhs)) => compare_bytes(lhs.as_slice(), rhs.as_slice()),
            (Account::Contract(lhs), Account::Contract(rhs)) => compare_bytes(lhs.as_slice(), rhs.as_slice()),
            (Account::External(_), Account::Contract(_)) => Ordering::Less,
            (Account::Contract(_), Account::External(_)) => Ordering::Greater,
        }
    }

    /// Whether `self` and `other` are the same account.
    pub fn same_as(&self, other: &Account) -> (r: bool)
        ensures
            r == (self@ == other@),
    {
        match (self, other) {
            (Account::External(a), Account::External(b)) => bytes_equal(a.as_slice(), b.as_slice()),
            (Account::Contract(a), Account::Contract(b)) => bytes_equal(a.as_slice(), b.as_slice()),
            _ => false,
        }
    }
}

impl PartialEq for Account {
    fn eq(&self, other: &Account) -> (r: bool) {
        self.same_as(other)
    }
}

impl vstd::std_specs::cmp::PartialEqSpecImpl for Account {
    open spec fn obeys_eq_spec() -> bool {
        true
    }

    open spec fn eq_spec(&self, other: &Account) -> bool {
        self@ == other@
    }
}

impl Eq for Account {
}

impl PartialOrd for Account {
    fn partial_cmp(&self, other: &Account) -> (r: Option<Ordering>) {
        Some(self.cmp(other))
    }
}

impl vstd::std_specs::cmp::PartialOrdSpecImpl for Account {
    open spec fn obeys_partial_cmp_spec() -> bool {
        true
    }

    open spec fn partial_cmp_spec(&self, other: &Account) -> Option<Ordering> {
        if account_before(self@, other@) {
            Some(Ordering::Less)
        } else if self@ == other@ {
            Some(Ordering::Equal)
        } else {
            Some(Ordering::Greater)
        }
    }
}

} // verus!
