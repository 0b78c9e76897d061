//! Hashers for keys that are hashes already.

use vstd::prelude::*;

verus! {

/// Uses the last 8 bytes of an existing hash instead of hashing again.
#[derive(Debug, Default)]
pub struct SuffixHasher(u64);

/// Hands integers that are hashes already through unchanged.
#[derive(Debug, Default)]
pub struct IdentityHasher(u64);

/// The number that 8 bytes spell in big-endian order.
pub open spec fn big_endian(bytes: Seq<u8>) -> nat
    decreases bytes.len(),
{
    if bytes.len() == 0 {
        0
    } else {
        big_endian(bytes.drop_last()) * 256 + bytes.last() as nat
    }
}

proof fn lemma_big_endian_bound(bytes: Seq<u8>)
    requires
        bytes.len() <= 8,
    ensures
        big_endian(bytes) < vstd::arithmetic::power::pow(256, bytes.len()),
        vstd::arithmetic::power::pow(256, bytes.len()) <= 0x1_0000_0000_0000_0000,
    decreases bytes.len(),
{
    reveal_with_fuel(vstd::arithmetic::power::pow, 9);
    if bytes.len() > 0 {
        lemma_big_endian_bound(bytes.drop_last());
    }
}

impl SuffixHasher {
    /// The state of the hasher.
    pub closed spec fn state(self) -> u64 {
        self.0
    }

    pub fn new() -> (r: Self)
        ensures
            r.state() == 0,
    {
        SuffixHasher(0)
    }

    /// Makes the last 8 bytes of a hash the state.
    pub fn take_suffix(&mut self, bytes: &[u8])
        requires
            bytes@.len() >= 8,
        ensures
            final(self).state() == big_endian(bytes@.skip(bytes@.len() - 8)),
    {
        let start: usize = bytes.len() - 8;
        let mut value: u64 = 0;
        let mut i: usize = 0;
        let ghost suffix = bytes@.skip(start as int);
        while i < 8
            invariant
                i <= 8,
                start + 8 == bytes@.len(),
                start + 8 <= usize::MAX,
                suffix == bytes@.skip(start as int),
                value == big_endian(suffix.take(i as int)),
            decreases 8 - i,
        {
            proof {
                lemma_big_endian_bound(suffix.take(i + 1));
                reveal_with_fuel(vstd::arithmetic::power::pow, 9);
                assert(suffix.take(i + 1).drop_last() =~= suffix.take(i as int));
            }
            value = value * 256 + bytes[start + i] as u64;
            i = i + 1;
        }
        proof {
            assert(suffix.take(8) =~= suffix);
        }
        self.0 = value;
    }
}

impl core::hash::Hasher for SuffixHasher {
    /// Takes the suffix of a key. A key shorter than a suffix leaves the state as it is.
    fn write(&mut self, bytes: &[u8])
        ensures
            bytes@.len() >= 8 ==> final(self).state() == big_endian(bytes@.skip(bytes@.len() - 8)),
            bytes@.len() < 8 ==> final(self).state() == old(self).state(),
    {
        if bytes.len() >= 8 {
            self.take_suffix(bytes);
        }
    }

    fn finish(&self) -> (r: u64)
        ensures
            r == self.state(),
    {
        self.0
    }
}

impl IdentityHasher {
    /// The state of the hasher.
    pub closed spec fn state(self) -> u64 {
        self.0
    }

    pub fn new() -> (r: Self)
        ensures
            r.state() == 0,
    {
        IdentityHasher(0)
    }
}

impl core::hash::Hasher for IdentityHasher {
    fn write_u64(&mut self, id: u64)
        ensures
            final(self).state() == id,
    {
        self.0 = id;
    }

    fn write_usize(&mut self, id: usize)
        ensures
            final(self).state() == id,
    {
        self.0 = id as u64;
    }

    fn finish(&self) -> (r: u64)
        ensures
            r == self.state(),
    {
        self.0
    }

    /// Keys are integers, so no bytes come in here: they leave the state as it is.
    fn write(&mut self, _bytes: &[u8])
        ensures
            final(self).state() == old(self).state(),
    {
    }
}

} // verus!
