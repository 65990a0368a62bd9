//! Base-chain data as the coordinator reads it: blocks, transactions and
//! outputs, each with the mathematical model that the contracts speak of.

use vstd::prelude::*;

verus! {

/// One output of a base-chain transaction.
#[derive(Debug, PartialEq, Eq)]
pub struct TxOutput {
    /// Amount in minor units of the base chain.
    pub value: u64,
    /// Script bytes; carried along, never interpreted here.
    pub script: Vec<u8>,
}

/// A base-chain transaction: its raw payload and its outputs, in order.
#[derive(Debug, PartialEq, Eq)]
pub struct Transaction {
    pub payload: Vec<u8>,
    pub outputs: Vec<TxOutput>,
}

/// A base-chain block: identifier, height and transactions, in order.
#[derive(Debug, PartialEq, Eq)]
pub struct Block {
    pub hash: Vec<u8>,
    pub height: u64,
    pub transactions: Vec<Transaction>,
}

/// Model of a [`TxOutput`].
pub struct OutputModel {
    pub value: nat,
    pub script: Seq<u8>,
}

/// Model of a [`Transaction`].
pub struct TransactionModel {
    pub payload: Seq<u8>,
    pub outputs: Seq<OutputModel>,
}

/// Model of a [`Block`].
pub struct BlockModel {
    pub hash: Seq<u8>,
    pub height: nat,
    pub transactions: Seq<TransactionModel>,
}

impl View for TxOutput {
    type V = OutputModel;

    open spec fn view(&self) -> OutputModel {
        OutputModel { value: self.value as nat, script: self.script@ }
    }
}

impl View for Transaction {
    type V = TransactionModel;

    open spec fn view(&self) -> TransactionModel {
        TransactionModel {
            payload: self.payload@,
            outputs: self.outputs@.map_values(|o: TxOutput| o@),
        }
    }
}

impl View for Block {
    type V = BlockModel;

    open spec fn view(&self) -> BlockModel {
        BlockModel {
            hash: self.hash@,
            height: self.height as nat,
            transactions: self.transactions@.map_values(|t: Transaction| t@),
        }
    }
}

/// The sum of the values of `outputs`, as a mathematical integer.
pub open spec fn total_value(outputs: Seq<OutputModel>) -> nat
    decreases outputs.len(),
{
    if outputs.len() == 0 {
        0
    } else {
        total_value(outputs.drop_last()) + outputs.last().value
    }
}

/// The value a transaction commits: the sum of its outputs, held at
/// `u64::MAX` where the sum is larger than any amount the base chain can
/// express.
pub open spec fn committed_value(tx: TransactionModel) -> nat {
    if total_value(tx.outputs) <= u64::MAX {
        total_value(tx.outputs)
    } else {
        u64::MAX as nat
    }
}

impl Transaction {
    /// Adds up the outputs, saturating at `u64::MAX`.
    pub fn committed_value(&self) -> (value: u64)
        ensures
            value as nat == committed_value(self@),
    {
        let mut sum: u64 = 0;
        let mut i: usize = 0;
        while i < self.outputs.len()
            invariant
                i <= self.outputs.len(),
                sum as nat == committed_value(
                    TransactionModel { payload: self@.payload, outputs: self@.outputs.take(i as int) },
                ),
            decreases self.outputs.len() - i,
        {
            proof {
                let next = self@.outputs.take(i + 1);
                assert(next.drop_last() =~= self@.outputs.take(i as int));
                assert(next.last().value == self.outputs[i as int].value);
            }
            sum = sum.saturating_add(self.outputs[i].value);
            i += 1;
        }
        proof {
            assert(self@.outputs.take(i as int) =~= self@.outputs);
        }
        sum
    }
}

} // verus!
