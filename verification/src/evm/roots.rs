//! The roots of the lists of a block.

use crate::evm::receipts::Receipt;
use crate::evm::tx_env::{TransactionSigned, TxType};
use crate::parallel::state::Log;
use crate::primitives::{Address, Withdrawal, B256};
use alloy_consensus::{EthereumReceipt, TxReceipt};
use alloy_eips::eip2718::Encodable2718;
use alloy_primitives::{Address as EthAddress, Log as EthLog, B256 as EthHash};
use alloy_rlp::Encodable;
use vstd::prelude::*;

verus! {

/// What `alloy_consensus::proofs::ordered_trie_root_encoded` makes of encoded items.
pub uninterp spec fn ordered_root(items: Seq<Seq<u8>>) -> B256;

/// `alloy_consensus::proofs::ordered_trie_root_encoded`: the root of the trie that holds the encoded
/// items under their positions.
#[verifier::external_body]
fn ordered_trie_root(items: &Vec<Vec<u8>>) -> (r: B256)
    ensures
        r == ordered_root(Seq::new(items@.len(), |i: int| items@[i]@)),
{
    let root = alloy_consensus::proofs::ordered_trie_root_encoded(items);
    let (hi, lo) = root.split_at(16);
    B256 {
        hi: u128::from_be_bytes(hi.try_into().unwrap()),
        lo: u128::from_be_bytes(lo.try_into().unwrap()),
    }
}

/// What an `alloy_consensus::EthereumReceipt` is encoded to with its bloom, given the type of the
/// transaction, whether it succeeded, the gas up to it, and its logs.
pub uninterp spec fn receipt_encoding(
    tx_type: u8,
    success: bool,
    cumulative_gas_used: u64,
    logs: Seq<(Address, Seq<B256>, Seq<u8>)>,
) -> Seq<u8>;

/// What a log holds.
pub open spec fn log_parts(log: Log) -> (Address, Seq<B256>, Seq<u8>) {
    (log.address, log.topics@, log.data@)
}

/// `alloy_eips::eip2718::Encodable2718::encoded_2718` of an `alloy_consensus::EthereumReceipt` with its
/// bloom. It panics on a type that there is not.
#[verifier::external_body]
fn encode_receipt(tx_type: u8, success: bool, cumulative_gas_used: u64, logs: &Vec<Log>) -> (r: Vec<
    u8,
>)
    requires
        tx_type <= 4,
    ensures
        r@ == receipt_encoding(
            tx_type,
            success,
            cumulative_gas_used,
            Seq::new(logs@.len(), |i: int| log_parts(logs@[i])),
        ),
{
    let word = |h: &B256| EthHash::from_slice(&[h.hi.to_be_bytes(), h.lo.to_be_bytes()].concat());
    let logs = logs.iter().map(|l| {
        let bytes = [&l.address.hi.to_be_bytes()[..], &l.address.lo.to_be_bytes()[..]].concat();
        let address = EthAddress::from_slice(&bytes);
        let topics = l.topics.iter().map(word).collect();
        EthLog::new_unchecked(address, topics, l.data.clone().into())
    });
    let (tx_type, logs) = (tx_type.try_into().unwrap(), logs.collect());
    let receipt: EthereumReceipt = EthereumReceipt { tx_type, success, cumulative_gas_used, logs };
    receipt.into_with_bloom().encoded_2718()
}

/// What an `alloy_eips::eip4895::Withdrawal` is encoded to.
pub uninterp spec fn withdrawal_encoding(withdrawal: Withdrawal) -> Seq<u8>;

/// `alloy_rlp::Encodable::encode` of an `alloy_eips::eip4895::Withdrawal`.
#[verifier::external_body]
fn encode_withdrawal(withdrawal: Withdrawal) -> (r: Vec<u8>)
    ensures
        r@ == withdrawal_encoding(withdrawal),
{
    let a = withdrawal.address;
    let bytes = [&a.hi.to_be_bytes()[..], &a.lo.to_be_bytes()[..]].concat();
    let mut encoded = Vec::new();
    alloy_eips::eip4895::Withdrawal {
        index: withdrawal.index,
        validator_index: withdrawal.validator_index,
        address: EthAddress::from_slice(&bytes),
        amount: withdrawal.amount,
    }.encode(&mut encoded);
    encoded
}

/// The number of a type of transactions.
pub open spec fn type_number(tx_type: TxType) -> u8 {
    match tx_type {
        TxType::Legacy => 0,
        TxType::Eip2930 => 1,
        TxType::Eip1559 => 2,
        TxType::Eip4844 => 3,
        TxType::Eip7702 => 4,
    }
}

/// How a receipt is encoded.
pub open spec fn encoding_of(receipt: Receipt) -> Seq<u8> {
    receipt_encoding(
        type_number(receipt.tx_type),
        receipt.success,
        receipt.cumulative_gas_used,
        Seq::new(receipt.logs@.len(), |i: int| log_parts(receipt.logs@[i])),
    )
}

/// The root of transactions, by their encodings.
pub open spec fn transactions_root_of(transactions: Seq<TransactionSigned>) -> B256 {
    ordered_root(Seq::new(transactions.len(), |i: int| transactions[i].encoded@))
}

/// The root of receipts, by their encodings.
pub open spec fn receipts_root_of(receipts: Seq<Receipt>) -> B256 {
    ordered_root(Seq::new(receipts.len(), |i: int| encoding_of(receipts[i])))
}

/// The root of withdrawals, by their encodings.
pub open spec fn withdrawals_root_of(withdrawals: Seq<Withdrawal>) -> B256 {
    ordered_root(Seq::new(withdrawals.len(), |i: int| withdrawal_encoding(withdrawals[i])))
}

pub fn calculate_transaction_root(transactions: &Vec<TransactionSigned>) -> (r: B256)
    ensures
        r == transactions_root_of(transactions@),
{
    let mut items: Vec<Vec<u8>> = Vec::new();
    let mut i: usize = 0;
    while i < transactions.len()
        invariant
            i <= transactions@.len(),
            items@.len() == i,
            forall|j: int| 0 <= j < i ==> (#[trigger] items@[j])@ == transactions@[j].encoded@,
        decreases transactions@.len() - i,
    {
        let encoded = &transactions[i].encoded;
        let mut item: Vec<u8> = Vec::new();
        let mut k: usize = 0;
        while k < encoded.len()
            invariant
                k <= encoded@.len(),
                item@ == encoded@.take(k as int),
            decreases encoded@.len() - k,
        {
            item.push(encoded[k]);
            assert(item@ =~= encoded@.take(k + 1));
            k = k + 1;
        }
        assert(item@ =~= encoded@);
        items.push(item);
        i = i + 1;
    }
    assert(Seq::new(items@.len(), |j: int| items@[j]@) =~= Seq::new(
        transactions@.len(),
        |j: int| transactions@[j].encoded@,
    ));
    ordered_trie_root(&items)
}

pub fn calculate_receipt_root(receipts: &Vec<Receipt>) -> (r: B256)
    ensures
        r == receipts_root_of(receipts@),
{
    let mut items: Vec<Vec<u8>> = Vec::new();
    let mut i: usize = 0;
    while i < receipts.len()
        invariant
            i <= receipts@.len(),
            items@.len() == i,
            forall|j: int| 0 <= j < i ==> (#[trigger] items@[j])@ == encoding_of(receipts@[j]),
        decreases receipts@.len() - i,
    {
        let receipt = &receipts[i];
        let number: u8 = match receipt.tx_type {
            TxType::Legacy => 0,
            TxType::Eip2930 => 1,
            TxType::Eip1559 => 2,
            TxType::Eip4844 => 3,
            TxType::Eip7702 => 4,
        };
        items.push(
            encode_receipt(number, receipt.success, receipt.cumulative_gas_used, &receipt.logs),
        );
        i = i + 1;
    }
    assert(Seq::new(items@.len(), |j: int| items@[j]@) =~= Seq::new(
        receipts@.len(),
        |j: int| encoding_of(receipts@[j]),
    ));
    ordered_trie_root(&items)
}

pub fn calculate_withdrawals_root(withdrawals: &Vec<Withdrawal>) -> (r: B256)
    ensures
        r == withdrawals_root_of(withdrawals@),
{
    let mut items: Vec<Vec<u8>> = Vec::new();
    let mut i: usize = 0;
    while i < withdrawals.len()
        invariant
            i <= withdrawals@.len(),
            items@.len() == i,
            forall|j: int|
                0 <= j < i ==> (#[trigger] items@[j])@ == withdrawal_encoding(withdrawals@[j]),
        decreases withdrawals@.len() - i,
    {
        items.push(encode_withdrawal(withdrawals[i]));
        i = i + 1;
    }
    assert(Seq::new(items@.len(), |j: int| items@[j]@) =~= Seq::new(
        withdrawals@.len(),
        |j: int| withdrawal_encoding(withdrawals@[j]),
    ));
    ordered_trie_root(&items)
}

} // verus!
