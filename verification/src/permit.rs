//! Permit digest helpers.
//!
//! These functions produce the canonical byte sequences that must be hashed
//! to build a permit digest. Keeping the layout here guarantees that the
//! contract, data-driver, and any off-chain signer always agree on the same
//! encoding.

use vstd::prelude::*;

use crate::account::{
    account_bytes, push_bytes, Account, AccountModel, CONTRACT_ID_BYTES, PUBLIC_KEY_RAW_SIZE,
};

verus! {

/// The bytes of the ASCII text `DRC20Permit`.
pub open spec fn permit_tag() -> Seq<u8> {
    seq![0x44u8, 0x52u8, 0x43u8, 0x32u8, 0x30u8, 0x50u8, 0x65u8, 0x72u8, 0x6du8, 0x69u8, 0x74u8]
}

/// The little-endian bytes of `v`.
pub open spec fn le_bytes(v: u64) -> Seq<u8> {
    Seq::new(8, |i: int| ((v >> (8 * i) as u64) & 0xff) as u8)
}

/// The bytes whose hash is the domain separator: the contract identifier,
/// the chain identifier, then `DRC20Permit`.
pub open spec fn domain_separator(contract_id: Seq<u8>, chain_id: u8) -> Seq<u8> {
    contract_id + seq![chain_id] + permit_tag()
}

/// The bytes whose hash is the permit digest: the hashed domain separator,
/// the owner's raw public key, the spender's canonical bytes, then the
/// little-endian `value`, `nonce` and `deadline`.
pub open spec fn permit_digest(
    domain_sep: Seq<u8>,
    owner: Seq<u8>,
    spender: AccountModel,
    value: u64,
    nonce: u64,
    deadline: u64,
) -> Seq<u8> {
    domain_sep + owner + account_bytes(spender) + le_bytes(value) + le_bytes(nonce) + le_bytes(deadline)
}

/// Where each field of the domain separator's bytes stands: the 32 bytes
/// of the contract identifier, one byte of chain identifier, then the
/// ASCII text `DRC20Permit`.
pub proof fn domain_separator_layout(contract_id: Seq<u8>, chain_id: u8)
    requires
        contract_id.len() == 32,
    ensures
        domain_separator(contract_id, chain_id).len() == 44,
        forall|k: int| 0 <= k < 32 ==> domain_separator(contract_id, chain_id)[k] == #[trigger] contract_id[k],
        domain_separator(contract_id, chain_id)[32] == chain_id,
        forall|k: int|
            0 <= k < 11 ==> #[trigger] domain_separator(contract_id, chain_id)[33 + k] as int == "DRC20Permit"@[k] as int,
{
    reveal_strlit("DRC20Permit");
    let d = domain_separator(contract_id, chain_id);
    assert forall|k: int| 0 <= k < 11 implies #[trigger] d[33 + k] as int == "DRC20Permit"@[k] as int by {
        assert(d[33 + k] == permit_tag()[k]);
    }
}

/// Where each field of the permit digest's bytes stands: 32 bytes of
/// domain separator, the 193 bytes of the owner's key, the spender's
/// canonical bytes, then eight bytes each of `value`, `nonce` and
/// `deadline`, in that order.
pub proof fn permit_digest_layout(
    domain_sep: Seq<u8>,
    owner: Seq<u8>,
    spender: AccountModel,
    value: u64,
    nonce: u64,
    deadline: u64,
)
    requires
        domain_sep.len() == 32,
        owner.len() == PUBLIC_KEY_RAW_SIZE,
    ensures
        ({
            let d = permit_digest(domain_sep, owner, spender, value, nonce, deadline);
            let n = account_bytes(spender).len() as int;
            &&& d.len() == 32 + 193 + n + 24
            &&& d.subrange(0, 32) == domain_sep
            &&& d.subrange(32, 225) == owner
            &&& d.subrange(225, 225 + n) == account_bytes(spender)
            &&& d.subrange(225 + n, 233 + n) == le_bytes(value)
            &&& d.subrange(233 + n, 241 + n) == le_bytes(nonce)
            &&& d.subrange(241 + n, 249 + n) == le_bytes(deadline)
        }),
{
    let d = permit_digest(domain_sep, owner, spender, value, nonce, deadline);
    let n = account_bytes(spender).len() as int;
    assert(d.subrange(0, 32) =~= domain_sep);
    assert(d.subrange(32, 225) =~= owner);
    assert(d.subrange(225, 225 + n) =~= account_bytes(spender));
    assert(d.subrange(225 + n, 233 + n) =~= le_bytes(value));
    assert(d.subrange(233 + n, 241 + n) =~= le_bytes(nonce));
    assert(d.subrange(241 + n, 249 + n) =~= le_bytes(deadline));
}

/// The little-endian bytes of `v` are its base-256 digits, least
/// significant first: byte `i` is `v / 256^i % 256`, and the bytes weighted
/// by the powers of 256 add up to `v`.
pub proof fn le_bytes_are_base_256_digits(v: u64)
    ensures
        le_bytes(v).len() == 8,
        le_bytes(v)[0] == v % 0x100,
        le_bytes(v)[1] == v / 0x100 % 0x100,
        le_bytes(v)[2] == v / 0x1_0000 % 0x100,
        le_bytes(v)[3] == v / 0x100_0000 % 0x100,
        le_bytes(v)[4] == v / 0x1_0000_0000 % 0x100,
        le_bytes(v)[5] == v / 0x100_0000_0000 % 0x100,
        le_bytes(v)[6] == v / 0x1_0000_0000_0000 % 0x100,
        le_bytes(v)[7] == v / 0x100_0000_0000_0000 % 0x100,
        v == le_bytes(v)[0] + 0x100 * le_bytes(v)[1] + 0x1_0000 * le_bytes(v)[2] + 0x100_0000
            * le_bytes(v)[3] + 0x1_0000_0000 * le_bytes(v)[4] + 0x100_0000_0000 * le_bytes(v)[5]
            + 0x1_0000_0000_0000 * le_bytes(v)[6] + 0x100_0000_0000_0000 * le_bytes(v)[7],
{
    let b = le_bytes(v);
    assert(b[0] == ((v >> 0u64) & 0xff) as u8);
    assert(b[1] == ((v >> 8u64) & 0xff) as u8);
    assert(b[2] == ((v >> 16u64) & 0xff) as u8);
    assert(b[3] == ((v >> 24u64) & 0xff) as u8);
    assert(b[4] == ((v >> 32u64) & 0xff) as u8);
    assert(b[5] == ((v >> 40u64) & 0xff) as u8);
    assert(b[6] == ((v >> 48u64) & 0xff) as u8);
    assert(b[7] == ((v >> 56u64) & 0xff) as u8);
    assert(((v >> 0u64) & 0xff) as u8 == v % 0x100) by (bit_vector);
    assert(((v >> 8u64) & 0xff) as u8 == v / 0x100 % 0x100) by (bit_vector);
    assert(((v >> 16u64) & 0xff) as u8 == v / 0x1_0000 % 0x100) by (bit_vector);
    assert(((v >> 24u64) & 0xff) as u8 == v / 0x100_0000 % 0x100) by (bit_vector);
    assert(((v >> 32u64) & 0xff) as u8 == v / 0x1_0000_0000 % 0x100) by (bit_vector);
    assert(((v >> 40u64) & 0xff) as u8 == v / 0x100_0000_0000 % 0x100) by (bit_vector);
    assert(((v >> 48u64) & 0xff) as u8 == v / 0x1_0000_0000_0000 % 0x100) by (bit_vector);
    assert(((v >> 56u64) & 0xff) as u8 == v / 0x100_0000_0000_0000 % 0x100) by (bit_vector);
    assert(v == v % 0x100 + 0x100 * (v / 0x100 % 0x100) + 0x1_0000 * (v / 0x1_0000 % 0x100) + 0x100_0000
        * (v / 0x100_0000 % 0x100) + 0x1_0000_0000 * (v / 0x1_0000_0000 % 0x100) + 0x100_0000_0000 * (v
        / 0x100_0000_0000 % 0x100) + 0x1_0000_0000_0000 * (v / 0x1_0000_0000_0000 % 0x100)
        + 0x100_0000_0000_0000 * (v / 0x100_0000_0000_0000 % 0x100)) by (bit_vector);
}

/// Appends the little-endian bytes of `v` to `buf`.
fn push_le_u64(buf: &mut Vec<u8>, v: u64)
    ensures
        final(buf)@ == old(buf)@ + le_bytes(v),
{
    let mut i: u64 = 0;
    while i < 8
        invariant
            0 <= i <= 8,
            buf@ == old(buf)@ + le_bytes(v).take(i as int),
        decreases 8 - i,
    {
        buf.push(((v >> (8 * i)) & 0xff) as u8);
        proof {
            assert(le_bytes(v).take(i + 1) =~= le_bytes(v).take(i as int).push(((v >> (8 * i)) & 0xff) as u8));
        }
        i = i + 1;
    }
    proof {
        assert(le_bytes(v).take(8) =~= le_bytes(v));
    }
}

/// Raw bytes whose hash is the EIP-712-style domain separator for permits:
/// the contract identifier, the chain identifier, then `DRC20Permit`.
pub fn domain_separator_bytes(contract_id: &[u8; CONTRACT_ID_BYTES], chain_id: u8) -> (b: Vec<u8>)
    ensures
        b@ == contract_id@ + seq![chain_id] + permit_tag(),
        b@ == domain_separator(contract_id@, chain_id),
{
    let mut buf = Vec::new();
    push_bytes(&mut buf, contract_id.as_slice());
    buf.push(chain_id);
    let tag: [u8; 11] = [0x44, 0x52, 0x43, 0x32, 0x30, 0x50, 0x65, 0x72, 0x6d, 0x69, 0x74];
    push_bytes(&mut buf, tag.as_slice());
    proof {
        assert(tag@ =~= permit_tag());
        assert(buf@ =~= contract_id@ + seq![chain_id] + permit_tag());
    }
    buf
}

/// Raw bytes whose hash is the permit digest that the owner signs.
///
/// `domain_sep` must be the bytes of the **hashed** domain separator. The
/// layout is the domain separator, the owner's raw public key, the
/// spender's canonical bytes, then the little-endian `value`, `nonce` and
/// `deadline`.
pub fn permit_digest_bytes(
    domain_sep: &[u8; 32],
    owner: &[u8; PUBLIC_KEY_RAW_SIZE],
    spender: &Account,
    value: u64,
    nonce: u64,
    deadline: u64,
) -> (b: Vec<u8>)
    ensures
        b@ == domain_sep@ + owner@ + account_bytes(spender@) + le_bytes(value) + le_bytes(nonce)
            + le_bytes(deadline),
        b@ == permit_digest(domain_sep@, owner@, spender@, value, nonce, deadline),
{
    let mut buf = Vec::new();
    push_bytes(&mut buf, domain_sep.as_slice());
    push_bytes(&mut buf, owner.as_slice());
    let spender_bytes = spender.to_bytes();
    push_bytes(&mut buf, spender_bytes.as_slice());
    push_le_u64(&mut buf, value);
    push_le_u64(&mut buf, nonce);
    push_le_u64(&mut buf, deadline);
    proof {
        assert(buf@ =~= domain_sep@ + owner@ + account_bytes(spender@) + le_bytes(value) + le_bytes(nonce)
            + le_bytes(deadline));
    }
    buf
}

} // verus!
