//! Fixed-width chain primitives: addresses, hashes and 256-bit words.

use vstd::prelude::*;

verus! {

/// A 160-bit account address: its first 16 bytes and its last 4 bytes, both big-endian.
#[derive(Clone, Copy, PartialEq, Eq, Structural, Hash, Debug)]
pub struct Address {
    pub hi: u128,
    pub lo: u32,
}

/// A 256-bit hash: its first and its last 16 bytes, both big-endian.
#[derive(Clone, Copy, PartialEq, Eq, Structural, Hash, Debug)]
pub struct B256 {
    pub hi: u128,
    pub lo: u128,
}

/// A 256-bit unsigned integer, least significant limb first.
#[derive(Clone, Copy, PartialEq, Eq, Structural, Hash, Debug)]
pub struct U256 {
    pub l0: u64,
    pub l1: u64,
    pub l2: u64,
    pub l3: u64,
}

/// The target of a transaction.
#[derive(Clone, Copy, PartialEq, Eq, Structural, Debug)]
pub enum TxKind {
    Create,
    Call(Address),
}

/// A withdrawal from the beacon chain, its amount in gwei.
#[derive(Clone, Copy, PartialEq, Eq, Structural, Debug)]
pub struct Withdrawal {
    pub index: u64,
    pub validator_index: u64,
    pub address: Address,
    pub amount: u64,
}

impl TxKind {
    /// The called address, if the transaction is a call.
    pub fn to(&self) -> (r: Option<Address>)
        ensures
            r == self.target(),
    {
        match self {
            TxKind::Create => None,
            TxKind::Call(to) => Some(*to),
        }
    }

    pub open spec fn target(self) -> Option<Address> {
        match self {
            TxKind::Create => None,
            TxKind::Call(to) => Some(to),
        }
    }
}

impl Address {
    /// The address whose 20 bytes are all zero.
    pub fn zero() -> (r: Self)
        ensures
            r == (Address { hi: 0, lo: 0 }),
    {
        Address { hi: 0, lo: 0 }
    }
}

impl B256 {
    /// The hash whose 32 bytes are all zero.
    pub fn zero() -> (r: Self)
        ensures
            r == (B256 { hi: 0, lo: 0 }),
    {
        B256 { hi: 0, lo: 0 }
    }

    pub fn is_zero(&self) -> (r: bool)
        ensures
            r == (*self == B256 { hi: 0, lo: 0 }),
    {
        self.hi == 0 && self.lo == 0
    }
}

/// The lowest `n` bytes of a number, the highest first.
pub open spec fn be_bytes(x: nat, n: nat) -> Seq<u8>
    decreases n,
{
    if n == 0 {
        Seq::empty()
    } else {
        be_bytes(x / 256, (n - 1) as nat).push((x % 256) as u8)
    }
}

fn push_be_bytes(out: &mut Vec<u8>, x: u128, n: usize)
    ensures
        final(out)@ == old(out)@ + be_bytes(x as nat, n as nat),
    decreases n,
{
    let ghost before = out@;
    if n > 0 {
        push_be_bytes(out, x / 256, n - 1);
        out.push((x % 256) as u8);
    }
    assert(out@ =~= before + be_bytes(x as nat, n as nat));
}

impl B256 {
    /// The 32 bytes of the hash.
    pub open spec fn bytes(self) -> Seq<u8> {
        be_bytes(self.hi as nat, 16) + be_bytes(self.lo as nat, 16)
    }

    pub fn to_bytes(&self) -> (r: Vec<u8>)
        ensures
            r@ == self.bytes(),
    {
        let mut r: Vec<u8> = Vec::new();
        push_be_bytes(&mut r, self.hi, 16);
        push_be_bytes(&mut r, self.lo, 16);
        assert(r@ =~= self.bytes());
        r
    }
}

/// Keccak-256 of the empty byte string: the code hash of an account without code.
pub open spec fn keccak_empty_spec() -> B256 {
    B256 { hi: 0xc5d2460186f7233c927e7db2dcc703c0u128, lo: 0xe500b653ca82273b7bfad8045d85a470u128 }
}

pub fn keccak_empty() -> (r: B256)
    ensures
        r == keccak_empty_spec(),
{
    B256 { hi: 0xc5d2460186f7233c927e7db2dcc703c0u128, lo: 0xe500b653ca82273b7bfad8045d85a470u128 }
}

/// The number of values of a 64-bit limb.
pub open spec fn limb_base() -> int {
    0x1_0000_0000_0000_0000int
}

/// The largest value that a word holds.
pub open spec fn u256_max() -> int {
    0xffffffffffffffff_ffffffffffffffff_ffffffffffffffff_ffffffffffffffffint
}

/// The nearest integer to `x` that lies between `lo` and `hi`.
pub open spec fn clamp(x: int, lo: int, hi: int) -> int {
    if x < lo {
        lo
    } else if x > hi {
        hi
    } else {
        x
    }
}

impl View for U256 {
    type V = int;

    open spec fn view(&self) -> int {
        self.l0 + self.l1 * limb_base() + self.l2 * 0x1_0000000000000000_0000000000000000int
            + self.l3 * 0x1_0000000000000000_0000000000000000_0000000000000000int
    }
}

/// A word lies between zero and the largest word.
pub proof fn lemma_u256_bounds(a: U256)
    ensures
        0 <= a@ <= u256_max(),
{
}

proof fn lemma_leading_digit(x: int, r: int, y: int, s: int, base: int)
    requires
        x * base + r == y * base + s,
        0 <= r < base,
        0 <= s < base,
    ensures
        x == y,
        r == s,
{
    assert(x == y) by (nonlinear_arith)
        requires
            x * base + r == y * base + s,
            0 <= r < base,
            0 <= s < base,
    ;
}

/// Words with the same value are the same word.
pub proof fn lemma_u256_injective(a: U256, b: U256)
    ensures
        a@ == b@ <==> a == b,
{
    if a@ == b@ {
        let b1 = limb_base();
        let b2 = 0x1_0000000000000000_0000000000000000int;
        let b3 = 0x1_0000000000000000_0000000000000000_0000000000000000int;
        let (ra, rb) = (a.l0 + a.l1 * b1 + a.l2 * b2, b.l0 + b.l1 * b1 + b.l2 * b2);
        lemma_leading_digit(a.l3 as int, ra, b.l3 as int, rb, b3);
        let (sa, sb) = (a.l0 + a.l1 * b1, b.l0 + b.l1 * b1);
        lemma_leading_digit(a.l2 as int, sa, b.l2 as int, sb, b2);
        lemma_leading_digit(a.l1 as int, a.l0 as int, b.l1 as int, b.l0 as int, b1);
    }
}

/// The word with the given value.
pub closed spec fn word(x: int) -> U256 {
    U256 {
        l0: (x % limb_base()) as u64,
        l1: ((x / limb_base()) % limb_base()) as u64,
        l2: ((x / limb_base() / limb_base()) % limb_base()) as u64,
        l3: (x / limb_base() / limb_base() / limb_base()) as u64,
    }
}

/// Every value between zero and the largest word is that of a word.
pub proof fn lemma_word(x: int)
    requires
        0 <= x <= u256_max(),
    ensures
        word(x)@ == x,
{
    let b = limb_base();
    let (q1, q2, q3) = (x / b, x / b / b, x / b / b / b);
    assert(x == q1 * b + x % b && q1 == q2 * b + q1 % b && q2 == q3 * b + q2 % b);
    assert(0 <= q3 < b);
}

/// A word is the word of its value.
pub proof fn lemma_word_of_view(a: U256)
    ensures
        word(a@) == a,
{
    lemma_u256_bounds(a);
    lemma_word(a@);
    lemma_u256_injective(word(a@), a);
}

impl U256 {
    pub fn zero() -> (r: Self)
        ensures
            r@ == 0,
    {
        U256 { l0: 0, l1: 0, l2: 0, l3: 0 }
    }

    pub fn max_value() -> (r: Self)
        ensures
            r@ == u256_max(),
    {
        U256 { l0: u64::MAX, l1: u64::MAX, l2: u64::MAX, l3: u64::MAX }
    }

    pub fn from_u64(x: u64) -> (r: Self)
        ensures
            r@ == x,
    {
        U256 { l0: x, l1: 0, l2: 0, l3: 0 }
    }

    pub fn from_u128(x: u128) -> (r: Self)
        ensures
            r@ == x,
    {
        let low: u64 = (x % 0x1_0000_0000_0000_0000u128) as u64;
        let high: u64 = (x / 0x1_0000_0000_0000_0000u128) as u64;
        U256 { l0: low, l1: high, l2: 0, l3: 0 }
    }

    /// The value as a `u64`, or `u64::MAX` where it does not fit.
    pub fn saturating_to_u64(&self) -> (r: u64)
        ensures
            r == clamp(self@, 0, u64::MAX as int),
    {
        if self.l1 == 0 && self.l2 == 0 && self.l3 == 0 {
            self.l0
        } else {
            u64::MAX
        }
    }

    pub fn is_zero(&self) -> (r: bool)
        ensures
            r == (self@ == 0),
    {
        self.l0 == 0 && self.l1 == 0 && self.l2 == 0 && self.l3 == 0
    }

    /// Whether this word is smaller than `other`.
    pub fn less_than(&self, other: &U256) -> (r: bool)
        ensures
            r == (self@ < other@),
    {
        if self.l3 != other.l3 {
            self.l3 < other.l3
        } else if self.l2 != other.l2 {
            self.l2 < other.l2
        } else if self.l1 != other.l1 {
            self.l1 < other.l1
        } else {
            self.l0 < other.l0
        }
    }

    /// `alloy_primitives::U256::saturating_add`: the sum, or the largest word where the sum does
    /// not fit. The word is handed over and taken back limb by limb.
    #[verifier::external_body]
    pub(crate) fn saturating_add(self, other: U256) -> (r: U256)
        ensures
            r@ == clamp(self@ + other@, 0, u256_max()),
    {
        let a = alloy_primitives::U256::from_limbs([self.l0, self.l1, self.l2, self.l3]);
        let b = alloy_primitives::U256::from_limbs([other.l0, other.l1, other.l2, other.l3]);
        let [l0, l1, l2, l3] = a.saturating_add(b).into_limbs();
        U256 { l0, l1, l2, l3 }
    }

    /// The `+` of `alloy_primitives::U256`: the sum modulo the number of words.
    #[verifier::external_body]
    pub(crate) fn wrapping_add(self, other: U256) -> (r: U256)
        ensures
            r@ == (self@ + other@) % (u256_max() + 1),
    {
        let a = alloy_primitives::U256::from_limbs([self.l0, self.l1, self.l2, self.l3]);
        let b = alloy_primitives::U256::from_limbs([other.l0, other.l1, other.l2, other.l3]);
        let [l0, l1, l2, l3] = (a + b).into_limbs();
        U256 { l0, l1, l2, l3 }
    }

    /// `alloy_primitives::U256::saturating_sub`: the difference, or zero where it is negative.
    #[verifier::external_body]
    pub(crate) fn saturating_sub(self, other: U256) -> (r: U256)
        ensures
            r@ == clamp(self@ - other@, 0, u256_max()),
    {
        let a = alloy_primitives::U256::from_limbs([self.l0, self.l1, self.l2, self.l3]);
        let b = alloy_primitives::U256::from_limbs([other.l0, other.l1, other.l2, other.l3]);
        let [l0, l1, l2, l3] = a.saturating_sub(b).into_limbs();
        U256 { l0, l1, l2, l3 }
    }

    /// `alloy_primitives::U256::saturating_mul`: the product, or the largest word where the
    /// product does not fit.
    #[verifier::external_body]
    pub(crate) fn saturating_mul(self, other: U256) -> (r: U256)
        ensures
            r@ == clamp(self@ * other@, 0, u256_max()),
    {
        let a = alloy_primitives::U256::from_limbs([self.l0, self.l1, self.l2, self.l3]);
        let b = alloy_primitives::U256::from_limbs([other.l0, other.l1, other.l2, other.l3]);
        let [l0, l1, l2, l3] = a.saturating_mul(b).into_limbs();
        U256 { l0, l1, l2, l3 }
    }

    /// `alloy_primitives::U256::abs_diff`: the distance between the two words.
    #[verifier::external_body]
    pub(crate) fn abs_diff(self, other: U256) -> (r: U256)
        ensures
            r@ == (if self@ < other@ {
                other@ - self@
            } else {
                self@ - other@
            }),
    {
        let a = alloy_primitives::U256::from_limbs([self.l0, self.l1, self.l2, self.l3]);
        let b = alloy_primitives::U256::from_limbs([other.l0, other.l1, other.l2, other.l3]);
        let [l0, l1, l2, l3] = a.abs_diff(b).into_limbs();
        U256 { l0, l1, l2, l3 }
    }
}

} // verus!
