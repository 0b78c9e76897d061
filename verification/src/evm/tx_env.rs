//! Transactions as the virtual machine takes them.

use crate::primitives::{Address, TxKind, B256, U256};
use vstd::prelude::*;

verus! {

/// An address and slots of it that a transaction announces to read.
#[derive(Clone, PartialEq, Eq, Debug)]
pub struct AccessListItem {
    pub address: Address,
    pub storage_keys: Vec<B256>,
}

/// A signed permission to run the code of an address for the signer.
#[derive(Clone, Copy, PartialEq, Eq, Structural, Debug)]
pub struct SignedAuthorization {
    pub chain_id: U256,
    pub address: Address,
    pub nonce: u64,
    pub y_parity: u8,
    pub r: U256,
    pub s: U256,
}

/// What the virtual machine needs of a transaction.
#[derive(Clone, PartialEq, Eq, Debug)]
pub struct TxEnv {
    pub caller: Address,
    pub gas_limit: u64,
    pub gas_price: u128,
    pub max_fee_per_gas: u128,
    pub gas_priority_fee: Option<u128>,
    pub kind: TxKind,
    pub value: U256,
    pub data: Vec<u8>,
    pub nonce: u64,
    pub chain_id: Option<u64>,
    pub access_list: Vec<AccessListItem>,
    pub blob_hashes: Option<Vec<B256>>,
    pub max_fee_per_blob_gas: Option<u128>,
    pub authorization_list: Option<Vec<SignedAuthorization>>,
}

/// The kinds of transactions, by what they say of their price.
#[derive(Clone, PartialEq, Eq, Debug)]
pub enum TxPricing {
    Legacy { gas_price: u128 },
    Eip2930 { gas_price: u128 },
    Eip1559 { max_fee_per_gas: u128, max_priority_fee_per_gas: u128 },
    Eip4844 {
        max_fee_per_gas: u128,
        max_priority_fee_per_gas: u128,
        blob_versioned_hashes: Vec<B256>,
        max_fee_per_blob_gas: u128,
    },
    Eip7702 { max_fee_per_gas: u128, authorization_list: Vec<SignedAuthorization> },
}

/// A signed transaction.
#[derive(Clone, PartialEq, Eq, Debug)]
pub struct TransactionSigned {
    pub gas_limit: u64,
    pub to: TxKind,
    pub value: U256,
    pub input: Vec<u8>,
    pub nonce: u64,
    pub chain_id: Option<u64>,
    pub access_list: Option<Vec<AccessListItem>>,
    pub pricing: TxPricing,
    /// How the transaction is encoded with its signature, behind its type.
    pub encoded: Vec<u8>,
}

/// The type of a transaction, which its receipt repeats.
#[derive(Clone, Copy, PartialEq, Eq, Structural, Debug)]
pub enum TxType {
    Legacy,
    Eip2930,
    Eip1559,
    Eip4844,
    Eip7702,
}

impl TransactionSigned {
    pub open spec fn tx_type(self) -> TxType {
        match self.pricing {
            TxPricing::Legacy { .. } => TxType::Legacy,
            TxPricing::Eip2930 { .. } => TxType::Eip2930,
            TxPricing::Eip1559 { .. } => TxType::Eip1559,
            TxPricing::Eip4844 { .. } => TxType::Eip4844,
            TxPricing::Eip7702 { .. } => TxType::Eip7702,
        }
    }

    pub fn ty(&self) -> (r: TxType)
        ensures
            r == self.tx_type(),
            r is Legacy <==> self.pricing is Legacy,
            r is Eip2930 <==> self.pricing is Eip2930,
            r is Eip1559 <==> self.pricing is Eip1559,
            r is Eip4844 <==> self.pricing is Eip4844,
            r is Eip7702 <==> self.pricing is Eip7702,
    {
        match &self.pricing {
            TxPricing::Legacy { .. } => TxType::Legacy,
            TxPricing::Eip2930 { .. } => TxType::Eip2930,
            TxPricing::Eip1559 { .. } => TxType::Eip1559,
            TxPricing::Eip4844 { .. } => TxType::Eip4844,
            TxPricing::Eip7702 { .. } => TxType::Eip7702,
        }
    }
}

/// A transaction and who signed it.
#[derive(Clone, PartialEq, Eq, Debug)]
pub struct Recovered<T> {
    pub tx: T,
    pub signer: Address,
}

/// What can be made of a transaction and its sender.
pub trait FromRecoveredTx<T>: Sized {
    /// Whether `r` is made of the transaction and the sender.
    spec fn is_from(tx: T, sender: Address, r: Self) -> bool;

    fn from_recovered_tx(tx: T, sender: Address) -> (r: Self)
        ensures
            Self::is_from(tx, sender, r),
    ;
}

impl TxEnv {
    /// Whether the price fields are those of the transaction. Where a transaction names one price
    /// it is the price and the most it pays; where it names a most and a tip, the most is the price.
    /// A transaction with authorizations gives its price alone.
    pub open spec fn priced(self, pricing: TxPricing) -> bool {
        match pricing {
            TxPricing::Legacy { gas_price } | TxPricing::Eip2930 { gas_price } => {
                &&& self.gas_price == gas_price
                &&& self.max_fee_per_gas == gas_price
                &&& self.gas_priority_fee is None
                &&& self.blob_hashes is None
                &&& self.max_fee_per_blob_gas is None
                &&& self.authorization_list is None
            },
            TxPricing::Eip1559 { max_fee_per_gas, max_priority_fee_per_gas } => {
                &&& self.gas_price == max_fee_per_gas
                &&& self.max_fee_per_gas == max_fee_per_gas
                &&& self.gas_priority_fee == Some(max_priority_fee_per_gas)
                &&& self.blob_hashes is None
                &&& self.max_fee_per_blob_gas is None
                &&& self.authorization_list is None
            },
            TxPricing::Eip4844 {
                max_fee_per_gas,
                max_priority_fee_per_gas,
                blob_versioned_hashes,
                max_fee_per_blob_gas,
            } => {
                &&& self.gas_price == max_fee_per_gas
                &&& self.max_fee_per_gas == max_fee_per_gas
                &&& self.gas_priority_fee == Some(max_priority_fee_per_gas)
                &&& self.blob_hashes == Some(blob_versioned_hashes)
                &&& self.max_fee_per_blob_gas == Some(max_fee_per_blob_gas)
                &&& self.authorization_list is None
            },
            TxPricing::Eip7702 { max_fee_per_gas, authorization_list } => {
                &&& self.gas_price == max_fee_per_gas
                &&& self.max_fee_per_gas == 0
                &&& self.gas_priority_fee is None
                &&& self.blob_hashes is None
                &&& self.max_fee_per_blob_gas is None
                &&& self.authorization_list == Some(authorization_list)
            },
        }
    }
}

impl FromRecoveredTx<TransactionSigned> for TxEnv {
    open spec fn is_from(tx: TransactionSigned, sender: Address, r: Self) -> bool {
        &&& r.caller == sender
        &&& r.gas_limit == tx.gas_limit
        &&& r.value == tx.value
        &&& r.data == tx.input
        &&& r.nonce == tx.nonce
        &&& r.chain_id == tx.chain_id
        &&& r.kind == tx.to
        &&& match tx.access_list {
            Some(list) => r.access_list == list,
            None => r.access_list@.len() == 0,
        }
        &&& r.priced(tx.pricing)
    }

    fn from_recovered_tx(tx: TransactionSigned, sender: Address) -> (r: Self) {
        let access_list = match tx.access_list {
            Some(list) => list,
            None => Vec::new(),
        };
        let mut env = TxEnv {
            caller: sender,
            gas_limit: tx.gas_limit,
            gas_price: 0,
            max_fee_per_gas: 0,
            gas_priority_fee: None,
            kind: tx.to,
            value: tx.value,
            data: tx.input,
            nonce: tx.nonce,
            chain_id: tx.chain_id,
            access_list,
            blob_hashes: None,
            max_fee_per_blob_gas: None,
            authorization_list: None,
        };
        match tx.pricing {
            TxPricing::Legacy { gas_price } | TxPricing::Eip2930 { gas_price } => {
                env.gas_price = gas_price;
                env.max_fee_per_gas = gas_price;
            },
            TxPricing::Eip1559 { max_fee_per_gas, max_priority_fee_per_gas } => {
                env.gas_price = max_fee_per_gas;
                env.max_fee_per_gas = max_fee_per_gas;
                env.gas_priority_fee = Some(max_priority_fee_per_gas);
            },
            TxPricing::Eip4844 {
                max_fee_per_gas,
                max_priority_fee_per_gas,
                blob_versioned_hashes,
                max_fee_per_blob_gas,
            } => {
                env.gas_price = max_fee_per_gas;
                env.max_fee_per_gas = max_fee_per_gas;
                env.gas_priority_fee = Some(max_priority_fee_per_gas);
                env.blob_hashes = Some(blob_versioned_hashes);
                env.max_fee_per_blob_gas = Some(max_fee_per_blob_gas);
            },
            TxPricing::Eip7702 { max_fee_per_gas, authorization_list } => {
                env.gas_price = max_fee_per_gas;
                env.authorization_list = Some(authorization_list);
            },
        }
        env
    }
}

} // verus!
