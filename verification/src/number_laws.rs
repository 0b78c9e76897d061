//! What holds of words, hashes and their bytes.

use crate::parallel::hashers::big_endian;
use crate::primitives::{
    be_bytes, clamp, lemma_u256_bounds, lemma_u256_injective, lemma_word, u256_max, word, Address,
    TxKind, B256, U256,
};
use vstd::arithmetic::power::{lemma_pow_adds, pow};
use vstd::prelude::*;

verus! {

/// A number that is clamped lies within the bounds, stays as it is where it lies there already, and else
/// becomes the bound that it has passed.
pub proof fn law_clamped_numbers_lie_within(x: int, lo: int, hi: int)
    requires
        lo <= hi,
    ensures
        lo <= clamp(x, lo, hi) <= hi,
        lo <= x <= hi ==> clamp(x, lo, hi) == x,
        x <= lo ==> clamp(x, lo, hi) == lo,
        x >= hi ==> clamp(x, lo, hi) == hi,
{
}

/// Every number of 256 bits is the value of one word, and no word has another value.
pub proof fn law_words_hold_numbers(x: int, a: U256, b: U256)
    ensures
        0 <= x < pow(2, 256) ==> word(x)@ == x,
        0 <= a@ < pow(2, 256),
        a@ == b@ ==> a == b,
        u256_max() + 1 == pow(2, 256),
{
    assert(pow(2, 256) == u256_max() + 1) by {
        reveal_with_fuel(pow, 33);
        let p = pow(2, 32);
        let q = pow(2, 64);
        let r = pow(2, 128);
        lemma_pow_adds(2, 32, 32);
        lemma_pow_adds(2, 64, 64);
        lemma_pow_adds(2, 128, 128);
        assert(p * p == 0x1_0000_0000_0000_0000) by (nonlinear_arith)
            requires
                p == 0x1_0000_0000,
        ;
        assert(q * q == 0x1_0000_0000_0000_0000_0000_0000_0000_0000) by (nonlinear_arith)
            requires
                q == 0x1_0000_0000_0000_0000,
        ;
        assert(r * r == u256_max() + 1) by (nonlinear_arith)
            requires
                r == 0x1_0000_0000_0000_0000_0000_0000_0000_0000,
        ;
    }
    lemma_u256_bounds(a);
    if 0 <= x <= u256_max() {
        lemma_word(x);
    }
    if a@ == b@ {
        lemma_u256_injective(a, b);
    }
}

/// The bytes of a number are as many as were asked for and spell the number, where they can hold it.
pub proof fn law_bytes_spell_their_number(x: nat, n: nat)
    ensures
        be_bytes(x, n).len() == n,
        x < pow(256, n) ==> big_endian(be_bytes(x, n)) == x,
    decreases n,
{
    reveal_with_fuel(pow, 2);
    if n > 0 {
        let m = (n - 1) as nat;
        law_bytes_spell_their_number(x / 256, m);
        assert(be_bytes(x, n).drop_last() =~= be_bytes(x / 256, m));
        if x < pow(256, n) {
            let p = pow(256, m);
            assert(pow(256, n) == 256 * p);
        }
    }
}

/// A hash has 32 bytes, the higher half first, and no other hash has the same.
pub proof fn law_hashes_have_their_bytes(a: B256, b: B256)
    ensures
        a.bytes().len() == 32,
        big_endian(a.bytes().take(16)) == a.hi,
        big_endian(a.bytes().skip(16)) == a.lo,
        a.bytes() == b.bytes() ==> a == b,
{
    lemma_halves(a);
    lemma_halves(b);
}

proof fn lemma_halves(a: B256)
    ensures
        a.bytes().len() == 32,
        big_endian(a.bytes().take(16)) == a.hi,
        big_endian(a.bytes().skip(16)) == a.lo,
{
    reveal_with_fuel(pow, 17);
    law_bytes_spell_their_number(a.hi as nat, 16);
    law_bytes_spell_their_number(a.lo as nat, 16);
    assert(a.bytes().take(16) =~= be_bytes(a.hi as nat, 16));
    assert(a.bytes().skip(16) =~= be_bytes(a.lo as nat, 16));
}

/// A call has the account that it calls for its target, and a creation has none.
pub proof fn law_calls_have_targets(to: Address)
    ensures
        TxKind::Call(to).target() == Some(to),
        TxKind::Create.target() is None,
{
}

/// Words are made and compared by their value: a word that does not fit in 64 bits counts as the most that
/// these hold.
pub proof fn law_words_are_read_by_their_value(
    x: u64,
    y: u128,
    a: U256,
    b: U256,
    from_x: U256,
    from_y: U256,
    short: u64,
    zero: bool,
    less: bool,
)
    requires
        call_ensures(U256::from_u64, (x,), from_x),
        call_ensures(U256::from_u128, (y,), from_y),
        call_ensures(U256::saturating_to_u64, (&a,), short),
        call_ensures(U256::is_zero, (&a,), zero),
        call_ensures(U256::less_than, (&a, &b), less),
    ensures
        from_x@ == x,
        from_y@ == y,
        a@ <= u64::MAX ==> short == a@,
        a@ > u64::MAX ==> short == u64::MAX,
        zero <==> a@ == 0,
        less <==> a@ < b@,
{
}

} // verus!
