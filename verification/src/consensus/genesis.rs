//! The validators and epochs that the genesis of the chain lays down.

use crate::consensus::keys::{is_key_text, parse_public_key, spells_key, PublicKey};
use vstd::prelude::*;

verus! {

/// Blocks per epoch where the genesis does not say.
pub const DEFAULT_EPOCH_LENGTH: u64 = 100;

/// What the genesis says about the private validator set.
#[derive(Clone, PartialEq, Eq, Debug)]
pub struct PrivateGenesisInfo {
    /// Number of blocks per epoch.
    pub epoch_length: Option<u64>,
    /// The validators, which do not change.
    pub validators: Option<Vec<ValidatorConfig>>,
    /// The public polynomial for threshold signing, in hexadecimal digits.
    pub public_polynomial: Option<String>,
}

/// A validator of the genesis.
#[derive(Clone, PartialEq, Eq, Debug)]
pub struct ValidatorConfig {
    /// The public key, in hexadecimal digits.
    pub pubkey: String,
    /// Where the validator listens: `ip:port`.
    pub address: String,
}

impl Default for PrivateGenesisInfo {
    fn default() -> (r: Self)
        ensures
            r.epoch_length is None,
            r.validators is None,
            r.public_polynomial is None,
    {
        PrivateGenesisInfo { epoch_length: None, validators: None, public_polynomial: None }
    }
}

impl PrivateGenesisInfo {
    /// What the extra fields of the genesis say, given what they were read as. Fields that are missing
    /// or cannot be read say nothing.
    pub fn from_chain_spec(parsed: Option<PrivateGenesisInfo>) -> (r: Self)
        ensures
            match parsed {
                Some(info) => r == info,
                None => r.epoch_length is None && r.validators is None && r.public_polynomial is None,
            },
    {
        match parsed {
            Some(info) => info,
            None => Self::default(),
        }
    }

    /// The number of blocks per epoch.
    pub fn epoch_length(&self) -> (r: u64)
        ensures
            r == match self.epoch_length {
                Some(n) => n,
                None => DEFAULT_EPOCH_LENGTH,
            },
    {
        match self.epoch_length {
            Some(n) => n,
            None => DEFAULT_EPOCH_LENGTH,
        }
    }

    /// The number of validators.
    pub fn num_validators(&self) -> (r: usize)
        ensures
            r == match self.validators {
                Some(v) => v@.len(),
                None => 0,
            },
    {
        match &self.validators {
            Some(v) => v.len(),
            None => 0,
        }
    }
}

/// Whether the keys are those that the validators spell, in their order; a validator that spells
/// none is passed over.
pub open spec fn keys_of(validators: Seq<ValidatorConfig>, keys: Seq<PublicKey>) -> bool
    decreases validators.len(),
{
    if validators.len() == 0 {
        keys.len() == 0
    } else if is_key_text(validators.last().pubkey@) {
        keys.len() > 0 && spells_key(validators.last().pubkey@, keys.last()) && keys_of(
            validators.drop_last(),
            keys.drop_last(),
        )
    } else {
        keys_of(validators.drop_last(), keys)
    }
}

/// The keys of the validators.
pub fn parse_validator_keys(validators: &Vec<ValidatorConfig>) -> (r: Vec<PublicKey>)
    ensures
        keys_of(validators@, r@),
{
    let mut keys: Vec<PublicKey> = Vec::new();
    let mut i: usize = 0;
    while i < validators.len()
        invariant
            i <= validators@.len(),
            keys_of(validators@.take(i as int), keys@),
        decreases validators@.len() - i,
    {
        let ghost before = keys@;
        assert(validators@.take(i + 1).drop_last() =~= validators@.take(i as int));
        if let Some(key) = parse_public_key(validators[i].pubkey.as_str()) {
            keys.push(key);
            assert(keys@.drop_last() =~= before);
        }
        i = i + 1;
    }
    assert(validators@.take(i as int) =~= validators@);
    keys
}

} // verus!
