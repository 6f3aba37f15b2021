//! Requests, blocks and answers of the Ethereum-style RPC as plain values.
use vstd::prelude::*;
use crate::primitive::{Bloom, H160, H256, U256};

verus! {

/// The two address spaces.
#[derive(Clone, Copy, Debug, PartialEq, Eq, Structural)]
pub enum Space {
    Native,
    Ethereum,
}

/// What a transaction does.
#[derive(Clone, Copy, Debug, PartialEq, Eq)]
pub enum Action {
    /// Creates a contract.
    Create,
    /// Calls an address.
    Call(H160),
}

/// How the execution of a transaction ended.
#[derive(Clone, Copy, Debug, PartialEq, Eq, Structural)]
pub enum TransactionOutcome {
    Success,
    Failure,
    Skipped,
}

/// The status of a successful transaction in the Ethereum space.
pub const EVM_SPACE_SUCCESS: u8 = 1;

/// A request to call a contract without a transaction.
#[derive(Debug, PartialEq, Eq)]
pub struct CallRequest {
    pub from: Option<H160>,
    pub to: Option<H160>,
    pub gas_price: Option<U256>,
    pub gas: Option<U256>,
    pub value: Option<U256>,
    pub data: Option<Vec<u8>>,
    pub nonce: Option<U256>,
}

/// An unsigned transaction of the Ethereum space.
#[derive(Debug, PartialEq, Eq)]
pub struct Eip155Transaction {
    pub nonce: U256,
    pub gas_price: U256,
    pub gas: U256,
    pub action: Action,
    pub value: U256,
    pub chain_id: Option<u32>,
    pub data: Vec<u8>,
}

/// A transaction that stands as signed by `from`, for a virtual call.
#[derive(Debug, PartialEq, Eq)]
pub struct SignedCall {
    pub transaction: Eip155Transaction,
    pub from: H160,
    pub space: Space,
}

/// A signed transaction, as far as answers speak of it.
#[derive(Debug, PartialEq, Eq)]
pub struct SignedTransaction {
    pub hash: H256,
    pub sender: H160,
    pub space: Space,
    pub action: Action,
    pub nonce: U256,
    pub gas_price: U256,
    pub gas: U256,
    pub value: U256,
    pub data: Vec<u8>,
    /// The contract that the transaction deploys where it succeeds.
    pub deployed_contract_address: Option<H160>,
}

/// A log entry of a receipt.
#[derive(Debug, PartialEq, Eq)]
pub struct LogEntry {
    pub address: H160,
    pub topics: Vec<H256>,
    pub data: Vec<u8>,
    pub space: Space,
}

/// The receipt of a transaction in a block.
#[derive(Debug, PartialEq, Eq)]
pub struct TransactionReceipt {
    /// The gas used in the block up to and including this transaction.
    pub accumulated_gas_used: U256,
    pub logs: Vec<LogEntry>,
    pub log_bloom: Bloom,
    pub outcome_status: TransactionOutcome,
    /// The outcome as a status code of the Ethereum space.
    pub evm_status: u8,
}

/// The transactions of one epoch as a block of the Ethereum space.
#[derive(Debug, PartialEq, Eq)]
pub struct PhantomBlock {
    pub pivot_hash: H256,
    pub pivot_height: u64,
    pub transactions: Vec<SignedTransaction>,
    pub receipts: Vec<TransactionReceipt>,
    pub errors: Vec<String>,
}

/// Names a block.
#[derive(Clone, Copy, Debug, PartialEq, Eq)]
pub enum BlockNumber {
    Hash { hash: H256, require_canonical: Option<bool> },
    Num(u64),
    Latest,
    Earliest,
    Pending,
}

/// A transaction in an answer. What is not known of its block and its execution is
/// left out.
#[derive(Debug, PartialEq, Eq)]
pub struct RpcTransaction {
    pub transaction: SignedTransaction,
    pub block_hash: Option<H256>,
    pub block_number: Option<U256>,
    pub transaction_index: Option<U256>,
    pub status: Option<u8>,
    pub contract_address: Option<H160>,
}

/// A log in an answer.
#[derive(Debug, PartialEq, Eq)]
pub struct RpcLog {
    pub address: H160,
    pub topics: Vec<H256>,
    pub data: Vec<u8>,
    pub block_hash: H256,
    pub block_number: U256,
    pub transaction_hash: H256,
    pub transaction_index: U256,
    pub log_index: Option<U256>,
    pub transaction_log_index: Option<U256>,
    pub removed: bool,
}

/// A receipt in an answer.
#[derive(Debug, PartialEq, Eq)]
pub struct RpcReceipt {
    pub transaction_hash: H256,
    pub transaction_index: U256,
    pub block_hash: H256,
    pub from: H160,
    pub to: Option<H160>,
    pub block_number: U256,
    pub cumulative_gas_used: U256,
    pub gas_used: U256,
    pub contract_address: Option<H160>,
    pub logs: Vec<RpcLog>,
    pub logs_bloom: Bloom,
    pub status_code: u8,
    pub effective_gas_price: U256,
    pub tx_exec_error_msg: Option<String>,
}

/// How far the node is with catching up.
#[derive(Clone, Copy, Debug, PartialEq, Eq)]
pub enum SyncStatus {
    Info { starting_block: U256, current_block: U256, highest_block: U256 },
    NotSyncing,
}

/// How a virtual call ended.
#[derive(Debug, PartialEq, Eq)]
pub enum ExecutionOutcome {
    /// Not executed: the nonce is too old.
    OldNonce { expected: U256, got: U256 },
    /// Not executed: there is no such kind of recipient.
    InvalidRecipientAddress(H160),
    /// Not executed for now; the text says why.
    NotExecutedToReconsiderPacking(String),
    /// Reverted: what came out, the reason decoded from it, and the errors of the
    /// sub-calls, innermost first, with the contracts where they happened.
    Reverted { output: Vec<u8>, revert_reason: String, errors: Vec<(H160, String)> },
    /// Failed otherwise; the text says why.
    ExecutionError(String),
    /// Finished.
    Finished { output: Vec<u8>, estimated_gas_limit: Option<U256> },
}

/// Where a transaction was looked for.
#[derive(Debug, PartialEq, Eq)]
pub enum TxLookup {
    /// No block is known to hold it.
    NoIndex,
    /// The block that holds it belongs to no epoch.
    NoEpoch,
    /// What came of the request for the block of its epoch.
    Block(Result<Option<PhantomBlock>, String>),
}

/// An error answer.
#[derive(Debug, PartialEq, Eq)]
pub enum RpcError {
    /// A parameter is wrong.
    InvalidParams { param: String, details: String },
    /// The parameters are wrong, in the words of the consensus.
    Refused(String),
    Internal(String),
    CallExecution { message: String, data: Vec<u8> },
    RequestRejectedInCatchUpMode,
    UnknownBlock,
    Unimplemented(String),
}

/// What an error answer says.
#[verifier::ext_equal]
pub enum RpcErrorModel {
    InvalidParams { param: Seq<char>, details: Seq<char> },
    Refused(Seq<char>),
    Internal(Seq<char>),
    CallExecution { message: Seq<char>, data: Seq<u8> },
    RequestRejectedInCatchUpMode,
    UnknownBlock,
    Unimplemented(Seq<char>),
}

impl View for RpcError {
    type V = RpcErrorModel;

    open spec fn view(&self) -> RpcErrorModel {
        match *self {
            RpcError::InvalidParams { param, details } => RpcErrorModel::InvalidParams {
                param: param@,
                details: details@,
            },
            RpcError::Refused(text) => RpcErrorModel::Refused(text@),
            RpcError::Internal(text) => RpcErrorModel::Internal(text@),
            RpcError::CallExecution { message, data } => RpcErrorModel::CallExecution {
                message: message@,
                data: data@,
            },
            RpcError::RequestRejectedInCatchUpMode => RpcErrorModel::RequestRejectedInCatchUpMode,
            RpcError::UnknownBlock => RpcErrorModel::UnknownBlock,
            RpcError::Unimplemented(text) => RpcErrorModel::Unimplemented(text@),
        }
    }
}

/// The answer is this error.
pub open spec fn fails_with<T>(r: Result<T, RpcError>, e: RpcErrorModel) -> bool {
    r is Err && r->Err_0@ == e
}

impl SignedTransaction {
    /// The same transaction.
    pub open spec fn same(self, other: SignedTransaction) -> bool {
        &&& self.hash == other.hash
        &&& self.sender == other.sender
        &&& self.space == other.space
        &&& self.action == other.action
        &&& self.nonce == other.nonce
        &&& self.gas_price == other.gas_price
        &&& self.gas == other.gas
        &&& self.value == other.value
        &&& self.data@ == other.data@
        &&& self.deployed_contract_address == other.deployed_contract_address
    }

    /// Transactions that are the same agree in every field, and so do all that are the
    /// same as a third.
    pub proof fn law_same_transactions_agree(self, other: SignedTransaction, third: SignedTransaction)
        requires
            self.same(other),
            third.same(other),
        ensures
            self.hash == third.hash,
            self.sender == third.sender,
            self.space == third.space,
            self.action == third.action,
            self.nonce == third.nonce,
            self.gas_price == third.gas_price,
            self.gas == third.gas,
            self.value == third.value,
            self.data@ == third.data@,
            self.deployed_contract_address == third.deployed_contract_address,
            self.same(third),
            other.same(self),
    {
    }

    /// A copy of the transaction.
    pub fn copy(&self) -> (r: SignedTransaction)
        ensures
            r.same(*self),
    {
        SignedTransaction {
            hash: self.hash,
            sender: self.sender,
            space: self.space,
            action: self.action,
            nonce: self.nonce,
            gas_price: self.gas_price,
            gas: self.gas,
            value: self.value,
            data: crate::change_map::copy_bytes(&self.data),
            deployed_contract_address: self.deployed_contract_address,
        }
    }
}

/// A copy of the hashes.
pub fn copy_hashes(hashes: &Vec<H256>) -> (r: Vec<H256>)
    ensures
        r@ == hashes@,
{
    let mut r: Vec<H256> = Vec::new();
    let mut i: usize = 0;
    while i < hashes.len()
        invariant
            i <= hashes@.len(),
            r@ == hashes@.take(i as int),
        decreases hashes@.len() - i,
    {
        r.push(hashes[i]);
        assert(r@ =~= hashes@.take(i + 1));
        i = i + 1;
    }
    assert(hashes@.take(i as int) =~= hashes@);
    r
}

} // verus!
