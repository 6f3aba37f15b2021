//! Hashes, addresses and 256-bit numbers as plain values, with the operations
//! that `ethereum_types` gives them.
use vstd::prelude::*;
use crate::text::{decimal, hex};

verus! {

/// A 256-bit hash.
#[derive(Clone, Copy, Debug)]
pub struct H256(pub [u8; 32]);

/// An account address.
#[derive(Clone, Copy, Debug, PartialEq, Eq)]
pub struct H160(pub [u8; 20]);

/// The bloom filter of a receipt's logs.
#[derive(Clone, Copy, Debug, PartialEq, Eq)]
pub struct Bloom(pub [u8; 256]);

/// A 256-bit unsigned number: four 64-bit limbs, least significant first.
#[derive(Clone, Copy, Debug, PartialEq, Eq)]
pub struct U256(pub [u64; 4]);

/// The epochs are named by the hash of their pivot block.
pub type EpochId = H256;

pub type MerkleHash = H256;

impl PartialEq for H256 {
    fn eq(&self, other: &H256) -> (r: bool) {
        let mut i: usize = 0;
        while i < 32
            invariant
                i <= 32,
                forall|j: int| 0 <= j < i ==> self.0@[j] == other.0@[j],
            decreases 32 - i,
        {
            if self.0[i] != other.0[i] {
                return false;
            }
            i = i + 1;
        }
        assert(self.0 =~= other.0);
        true
    }
}

impl vstd::std_specs::cmp::PartialEqSpecImpl for H256 {
    open spec fn obeys_eq_spec() -> bool {
        true
    }

    open spec fn eq_spec(&self, other: &H256) -> bool {
        *self == *other
    }
}

impl Eq for H256 {
}

impl H256 {
    /// The hash of all zero bytes.
    pub fn zero() -> (r: H256)
        ensures
            r.0@ == zero_bytes(32),
    {
        let r = H256([0u8; 32]);
        assert(r.0@ =~= zero_bytes(32));
        r
    }
}

/// So many bytes zero.
pub open spec fn zero_bytes(n: nat) -> Seq<u8> {
    Seq::new(n, |i: int| 0u8)
}

impl H160 {
    /// The address of all zero bytes.
    pub fn zero() -> (r: H160)
        ensures
            r.0@ == zero_bytes(20),
    {
        let r = H160([0u8; 20]);
        assert(r.0@ =~= zero_bytes(20));
        r
    }
}

impl U256 {
    /// The number itself.
    pub open spec fn value(self) -> nat {
        (self.0@[0] + self.0@[1] * 0x1_0000_0000_0000_0000 + self.0@[2]
            * 0x1_0000_0000_0000_0000_0000_0000_0000_0000int + self.0@[3]
            * 0x1_0000_0000_0000_0000_0000_0000_0000_0000_0000_0000_0000_0000int) as nat
    }

    pub fn zero() -> (r: U256)
        ensures
            r.value() == 0,
    {
        U256([0, 0, 0, 0])
    }

    pub fn is_zero(&self) -> (r: bool)
        ensures
            r == (self.value() == 0),
    {
        self.0[0] == 0 && self.0[1] == 0 && self.0[2] == 0 && self.0[3] == 0
    }

    /// The number with the value of `n`.
    pub fn from_u64(n: u64) -> (r: U256)
        ensures
            r.value() == n,
    {
        U256([n, 0, 0, 0])
    }

    /// The number with the value of `n`.
    pub fn from_usize(n: usize) -> (r: U256)
        ensures
            r.value() == n,
    {
        U256([n as u64, 0, 0, 0])
    }
}

proof fn lemma_limb(x: int, y: int, p: int, q: int)
    requires
        0 <= x < 0x1_0000_0000_0000_0000,
        0 <= y < 0x1_0000_0000_0000_0000,
        x + p * 0x1_0000_0000_0000_0000 == y + q * 0x1_0000_0000_0000_0000,
    ensures
        x == y,
        p == q,
{
}

/// Two numbers with the same value are the same limb by limb.
pub proof fn law_u256_value_is_unique(a: U256, b: U256)
    requires
        a.value() == b.value(),
    ensures
        a == b,
{
    let a2 = a.0@[2] + a.0@[3] * 0x1_0000_0000_0000_0000;
    let b2 = b.0@[2] + b.0@[3] * 0x1_0000_0000_0000_0000;
    let a1 = a.0@[1] + a2 * 0x1_0000_0000_0000_0000;
    let b1 = b.0@[1] + b2 * 0x1_0000_0000_0000_0000;
    lemma_limb(a.0@[0] as int, b.0@[0] as int, a1, b1);
    lemma_limb(a.0@[1] as int, b.0@[1] as int, a2, b2);
    lemma_limb(a.0@[2] as int, b.0@[2] as int, a.0@[3] as int, b.0@[3] as int);
    assert(a.0 =~= b.0);
}

/// A byte string read as a number, most significant byte first.
pub open spec fn big_endian(bytes: Seq<u8>) -> nat {
    crate::keys::number(bytes)
}

/// `<` of `ethereum_types::U256`: compares the two numbers.
#[verifier::external_body]
pub(crate) fn u256_less(a: U256, b: U256) -> (r: bool)
    ensures
        r == (a.value() < b.value()),
{
    ethereum_types::U256(a.0) < ethereum_types::U256(b.0)
}

/// `-` of `ethereum_types::U256`: the difference. It panics where the second
/// number is the greater one, which is left out.
#[verifier::external_body]
pub(crate) fn u256_minus(a: U256, b: U256) -> (r: U256)
    requires
        b.value() <= a.value(),
    ensures
        r.value() == a.value() - b.value(),
{
    U256((ethereum_types::U256(a.0) - ethereum_types::U256(b.0)).0)
}

/// `Display` of `ethereum_types::U256`, which its `Debug` repeats: the number in
/// decimal.
#[verifier::external_body]
pub(crate) fn u256_text(a: U256) -> (r: String)
    ensures
        r@ == decimal(a.value()),
{
    format!("{}", ethereum_types::U256(a.0))
}

/// `Debug` of `ethereum_types::H160`: `0x` and two hexadecimal digits for each
/// byte.
#[verifier::external_body]
pub(crate) fn h160_text(a: H160) -> (r: String)
    ensures
        r@ == seq!['0', 'x'] + hex(a.0@),
{
    format!("{:?}", ethereum_types::H160(a.0))
}

/// The first two and the last two bytes of an address, as far as a short text
/// shows it.
pub open spec fn short_address(bytes: Seq<u8>) -> Seq<char> {
    seq!['0', 'x'] + hex(bytes.subrange(0, 2)) + seq!['\u{2026}'] + hex(bytes.subrange(18, 20))
}

/// `Display` of `ethereum_types::H160`: `0x`, the first two bytes in hexadecimal,
/// an ellipsis, and the last two bytes.
#[verifier::external_body]
pub(crate) fn h160_short_text(a: H160) -> (r: String)
    ensures
        r@ == short_address(a.0@),
{
    format!("{}", ethereum_types::H160(a.0))
}

/// `BigEndianHash::from_uint` of `ethereum_types::H256`: the 32 bytes of the
/// number, most significant first.
#[verifier::external_body]
pub(crate) fn h256_from_u256(a: U256) -> (r: H256)
    ensures
        big_endian(r.0@) == a.value(),
{
    H256(<ethereum_types::H256 as ethereum_types::BigEndianHash>::from_uint(&ethereum_types::U256(a.0)).0)
}

/// `ethereum_types::H160::random`: some address. Nothing is said of which.
#[verifier::external_body]
pub(crate) fn random_address() -> H160 {
    H160(ethereum_types::H160::random().0)
}

} // verus!
