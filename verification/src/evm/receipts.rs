//! Receipts of executed transactions.

use crate::evm::tx_env::TxType;
use crate::parallel::state::{ExecutionResult, Log};
use vstd::prelude::*;

verus! {

/// What a block says of one of its transactions.
#[derive(Clone, PartialEq, Eq, Debug)]
pub struct Receipt {
    pub tx_type: TxType,
    pub success: bool,
    pub cumulative_gas_used: u64,
    pub logs: Vec<Log>,
}

/// What a receipt is made of.
pub struct ReceiptBuilderCtx {
    pub tx_type: TxType,
    pub result: ExecutionResult,
    /// The gas that the block has used up to and with the transaction.
    pub cumulative_gas_used: u64,
}

/// Makes receipts.
pub trait ReceiptBuilder {
    type Receipt;

    /// Whether `r` is the receipt of what it is made of.
    spec fn is_receipt_of(&self, ctx: ReceiptBuilderCtx, r: Self::Receipt) -> bool;

    fn build_receipt(&self, ctx: ReceiptBuilderCtx) -> (r: Self::Receipt)
        ensures
            self.is_receipt_of(ctx, r),
    ;
}

/// Makes the receipts of the chain.
#[derive(Clone, Copy, PartialEq, Eq, Structural, Debug)]
pub struct RethReceiptBuilder;

impl ReceiptBuilder for RethReceiptBuilder {
    type Receipt = Receipt;

    open spec fn is_receipt_of(&self, ctx: ReceiptBuilderCtx, r: Receipt) -> bool {
        r == Receipt {
            tx_type: ctx.tx_type,
            success: ctx.result.success,
            cumulative_gas_used: ctx.cumulative_gas_used,
            logs: ctx.result.logs,
        }
    }

    fn build_receipt(&self, ctx: ReceiptBuilderCtx) -> (r: Receipt) {
        Receipt {
            tx_type: ctx.tx_type,
            success: ctx.result.success,
            cumulative_gas_used: ctx.cumulative_gas_used,
            logs: ctx.result.logs,
        }
    }
}

} // verus!
