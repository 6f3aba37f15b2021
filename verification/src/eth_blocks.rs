//! What is answered of blocks, transactions and receipts.
use vstd::prelude::*;
use crate::change_map::copy_bytes;
use crate::eth::EthHandler;
use crate::eth_types::{copy_hashes, fails_with, Action, LogEntry, PhantomBlock, RpcError, RpcErrorModel, RpcLog, RpcReceipt};
use crate::eth_types::{RpcTransaction, SignedTransaction, Space, TransactionOutcome, TransactionReceipt, TxLookup};
use crate::eth_types::EVM_SPACE_SUCCESS;
use crate::primitive::{law_u256_value_is_unique, u256_minus, H256, U256};

verus! {

/// The log of a receipt, the `i`-th of its transaction and the `prior + i`-th of
/// its block.
pub open spec fn is_rpc_log(
    log: RpcLog,
    b: PhantomBlock,
    idx: int,
    prior: int,
    i: int,
) -> bool {
    let entry = b.receipts@[idx].logs@[i];
    &&& log.address == entry.address
    &&& log.topics@ == entry.topics@
    &&& log.data@ == entry.data@
    &&& log.block_hash == b.pivot_hash
    &&& log.block_number.value() == b.pivot_height
    &&& log.transaction_hash == b.transactions@[idx].hash
    &&& log.transaction_index.value() == idx
    &&& log.log_index is Some && log.log_index->0.value() == prior + i
    &&& log.transaction_log_index is Some && log.transaction_log_index->0.value() == i
    &&& !log.removed
}

/// The block has a receipt and an error text for each transaction, one of them for
/// `idx`, whose logs are all of the Ethereum space.
pub open spec fn consistent(b: PhantomBlock, idx: int) -> bool {
    &&& b.transactions@.len() == b.receipts@.len()
    &&& b.transactions@.len() == b.errors@.len()
    &&& idx < b.transactions@.len()
    &&& forall|i: int|
        0 <= i < b.receipts@[idx].logs@.len() ==> (#[trigger] b.receipts@[idx].logs@[i]).space == Space::Ethereum
}

/// The gas used before the transaction.
pub open spec fn gas_before(b: PhantomBlock, idx: int) -> nat {
    if idx == 0 {
        0
    } else {
        b.receipts@[idx - 1].accumulated_gas_used.value()
    }
}

/// How many logs the first `n` receipts hold.
pub open spec fn logs_before(receipts: Seq<TransactionReceipt>, n: int) -> int
    decreases n,
{
    if n <= 0 {
        0
    } else {
        logs_before(receipts, n - 1) + receipts[n - 1].logs@.len()
    }
}

/// The first transaction of the block with the hash, or the number of its
/// transactions where none has it.
pub open spec fn is_first_with_hash(b: PhantomBlock, hash: H256, idx: int) -> bool {
    &&& 0 <= idx <= b.transactions@.len()
    &&& forall|i: int| 0 <= i < idx ==> (#[trigger] b.transactions@[i]).hash != hash
    &&& idx < b.transactions@.len() ==> b.transactions@[idx].hash == hash
}

/// The receipt of the transaction, after `prior` logs in the block.
pub open spec fn is_rpc_receipt(r: RpcReceipt, b: PhantomBlock, idx: int, prior: int) -> bool {
    let tx = b.transactions@[idx];
    let receipt = b.receipts@[idx];
    &&& r.transaction_hash == tx.hash
    &&& r.transaction_index.value() == idx
    &&& r.block_hash == b.pivot_hash
    &&& r.from == tx.sender
    &&& r.to == (match tx.action {
        Action::Create => None,
        Action::Call(address) => Some(address),
    })
    &&& r.block_number.value() == b.pivot_height
    &&& r.cumulative_gas_used == receipt.accumulated_gas_used
    &&& r.gas_used.value() == receipt.accumulated_gas_used.value() - gas_before(b, idx)
    &&& r.contract_address == (if receipt.outcome_status == TransactionOutcome::Success {
        tx.deployed_contract_address
    } else {
        None
    })
    &&& r.logs@.len() == receipt.logs@.len()
    &&& forall|i: int| 0 <= i < r.logs@.len() ==> is_rpc_log(#[trigger] r.logs@[i], b, idx, prior, i)
    &&& r.logs_bloom == receipt.log_bloom
    &&& r.status_code == receipt.evm_status
    &&& r.effective_gas_price == tx.gas_price
    &&& match r.tx_exec_error_msg {
        Some(text) => text@ == b.errors@[idx]@ && text@.len() > 0,
        None => b.errors@[idx]@.len() == 0,
    }
}

/// The answer to a block that does not fit together.
pub open spec fn inconsistent() -> RpcErrorModel {
    RpcErrorModel::Internal("Inconsistent state"@)
}

/// The transaction of a block as an answer.
pub open spec fn is_block_tx(r: RpcTransaction, b: PhantomBlock, idx: int) -> bool {
    let tx = b.transactions@[idx];
    let status = b.receipts@[idx].evm_status;
    &&& r.transaction.same(tx)
    &&& r.block_hash == Some(b.pivot_hash)
    &&& r.block_number is Some && r.block_number->0.value() == b.pivot_height
    &&& r.transaction_index is Some && r.transaction_index->0.value() == idx
    &&& r.status == Some(status)
    &&& r.contract_address == (if status == EVM_SPACE_SUCCESS {
        tx.deployed_contract_address
    } else {
        None
    })
}

/// A transaction of the pool as an answer: nothing is known of a block yet.
pub open spec fn is_pool_tx(r: RpcTransaction, tx: SignedTransaction) -> bool {
    &&& r.transaction.same(tx)
    &&& r.block_hash is None
    &&& r.block_number is None
    &&& r.transaction_index is None
    &&& r.status is None
    &&& r.contract_address is None
}

/// The transaction of the block at the index, if there is a block and it has one.
pub fn block_tx_by_index(phantom_block: &Option<PhantomBlock>, idx: usize) -> (r: Option<RpcTransaction>)
    requires
        phantom_block matches Some(b) ==> (idx < b.transactions@.len() ==> idx < b.receipts@.len()),
    ensures
        r is Some <==> phantom_block is Some && idx < phantom_block->0.transactions@.len(),
        r matches Some(tx) ==> is_block_tx(tx, phantom_block->0, idx as int),
{
    match phantom_block {
        None => None,
        Some(b) => {
            if idx >= b.transactions.len() {
                return None;
            }
            let tx = &b.transactions[idx];
            let status: u8 = b.receipts[idx].evm_status;
            let contract_address = if status == EVM_SPACE_SUCCESS {
                tx.deployed_contract_address
            } else {
                None
            };
            Some(
                RpcTransaction {
                    transaction: tx.copy(),
                    block_hash: Some(b.pivot_hash),
                    block_number: Some(U256::from_u64(b.pivot_height)),
                    transaction_index: Some(U256::from_usize(idx)),
                    status: Some(status),
                    contract_address,
                },
            )
        },
    }
}

fn inconsistent_state() -> (r: RpcError)
    ensures
        r@ == inconsistent(),
{
    RpcError::Internal("Inconsistent state".to_owned())
}

fn all_in_ethereum_space(logs: &Vec<LogEntry>) -> (r: bool)
    ensures
        r == forall|i: int| 0 <= i < logs@.len() ==> (#[trigger] logs@[i]).space == Space::Ethereum,
{
    let mut i: usize = 0;
    while i < logs.len()
        invariant
            i <= logs@.len(),
            forall|j: int| 0 <= j < i ==> (#[trigger] logs@[j]).space == Space::Ethereum,
        decreases logs@.len() - i,
    {
        if logs[i].space != Space::Ethereum {
            return false;
        }
        i = i + 1;
    }
    true
}

/// Two receipts for the same transaction of the same block, after the same number
/// of logs, say the same; so the receipt found by the transaction's hash is the one
/// among the receipts of the block.
pub proof fn law_receipt_is_determined(r1: RpcReceipt, r2: RpcReceipt, b: PhantomBlock, idx: int, prior: int)
    requires
        is_rpc_receipt(r1, b, idx, prior),
        is_rpc_receipt(r2, b, idx, prior),
    ensures
        r1.transaction_hash == r2.transaction_hash,
        r1.transaction_index == r2.transaction_index,
        r1.block_hash == r2.block_hash,
        r1.from == r2.from,
        r1.to == r2.to,
        r1.block_number == r2.block_number,
        r1.cumulative_gas_used == r2.cumulative_gas_used,
        r1.gas_used == r2.gas_used,
        r1.contract_address == r2.contract_address,
        r1.logs_bloom == r2.logs_bloom,
        r1.status_code == r2.status_code,
        r1.effective_gas_price == r2.effective_gas_price,
        r1.tx_exec_error_msg is Some <==> r2.tx_exec_error_msg is Some,
        r1.tx_exec_error_msg is Some ==> r1.tx_exec_error_msg->0@ == r2.tx_exec_error_msg->0@,
        r1.logs@.len() == r2.logs@.len(),
        forall|i: int| 0 <= i < r1.logs@.len() ==> same_log(#[trigger] r1.logs@[i], r2.logs@[i]),
{
    law_u256_value_is_unique(r1.transaction_index, r2.transaction_index);
    law_u256_value_is_unique(r1.block_number, r2.block_number);
    law_u256_value_is_unique(r1.gas_used, r2.gas_used);
    assert forall|i: int| 0 <= i < r1.logs@.len() implies same_log(#[trigger] r1.logs@[i], r2.logs@[i]) by {
        let a = r1.logs@[i];
        let c = r2.logs@[i];
        assert(is_rpc_log(a, b, idx, prior, i));
        assert(is_rpc_log(c, b, idx, prior, i));
        law_u256_value_is_unique(a.block_number, c.block_number);
        law_u256_value_is_unique(a.transaction_index, c.transaction_index);
        law_u256_value_is_unique(a.log_index->0, c.log_index->0);
        law_u256_value_is_unique(a.transaction_log_index->0, c.transaction_log_index->0);
    }
}

/// Every log of a receipt belongs to the receipt: it names the same block and the
/// same transaction, by hash and by number. It counts as many logs of the transaction
/// before it as stand before it, and the number in the block runs with that one.
pub proof fn law_logs_belong_to_their_receipt(r: RpcReceipt, b: PhantomBlock, idx: int, prior: int, i: int)
    requires
        is_rpc_receipt(r, b, idx, prior),
        0 <= i < r.logs@.len(),
    ensures
        r.logs@[i].block_hash == r.block_hash,
        r.logs@[i].block_number == r.block_number,
        r.logs@[i].transaction_hash == r.transaction_hash,
        r.logs@[i].transaction_index == r.transaction_index,
        !r.logs@[i].removed,
        r.logs@[i].transaction_log_index is Some && r.logs@[i].transaction_log_index->0.value() == i,
        r.logs@[i].log_index is Some && r.logs@[i].log_index->0.value() == prior
            + r.logs@[i].transaction_log_index->0.value(),
{
    let log = r.logs@[i];
    assert(is_rpc_log(log, b, idx, prior, i));
    law_u256_value_is_unique(log.block_number, r.block_number);
    law_u256_value_is_unique(log.transaction_index, r.transaction_index);
}

/// A receipt tells of its own transaction and of the block it is asked from, and each
/// of its logs is the entry that the block holds there.
pub proof fn law_receipt_tells_of_its_transaction(r: RpcReceipt, b: PhantomBlock, idx: int, prior: int, i: int)
    requires
        is_rpc_receipt(r, b, idx, prior),
    ensures
        r.block_hash == b.pivot_hash,
        r.block_number.value() == b.pivot_height,
        r.transaction_hash == b.transactions@[idx].hash,
        r.transaction_index.value() == idx,
        r.from == b.transactions@[idx].sender,
        r.to is None <==> b.transactions@[idx].action == Action::Create,
        r.to matches Some(to) ==> b.transactions@[idx].action == Action::Call(to),
        r.effective_gas_price == b.transactions@[idx].gas_price,
        r.status_code == b.receipts@[idx].evm_status,
        r.logs_bloom == b.receipts@[idx].log_bloom,
        r.logs@.len() == b.receipts@[idx].logs@.len(),
        0 <= i < r.logs@.len() ==> {
            let entry = b.receipts@[idx].logs@[i];
            &&& r.logs@[i].address == entry.address
            &&& r.logs@[i].topics@ == entry.topics@
            &&& r.logs@[i].data@ == entry.data@
        },
        r.tx_exec_error_msg is Some <==> b.errors@[idx]@.len() > 0,
        r.tx_exec_error_msg matches Some(text) ==> text@ == b.errors@[idx]@,
        r.contract_address is Some ==> r.contract_address == b.transactions@[idx].deployed_contract_address,
        r.contract_address is Some ==> b.receipts@[idx].outcome_status == TransactionOutcome::Success,
        b.receipts@[idx].outcome_status == TransactionOutcome::Success ==> r.contract_address
            == b.transactions@[idx].deployed_contract_address,
{
    if 0 <= i < r.logs@.len() {
        assert(is_rpc_log(r.logs@[i], b, idx, prior, i));
    }
}

/// The receipt of a transaction and the transaction itself, asked from the same block,
/// agree in all that both tell.
pub proof fn law_receipt_agrees_with_transaction(r: RpcReceipt, t: RpcTransaction, b: PhantomBlock, idx: int, prior: int)
    requires
        is_rpc_receipt(r, b, idx, prior),
        is_block_tx(t, b, idx),
    ensures
        t.transaction.hash == r.transaction_hash,
        t.transaction.sender == r.from,
        t.transaction.gas_price == r.effective_gas_price,
        t.block_hash == Some(r.block_hash),
        t.block_number == Some(r.block_number),
        t.transaction_index == Some(r.transaction_index),
        t.status == Some(r.status_code),
        (b.receipts@[idx].outcome_status == TransactionOutcome::Success <==> r.status_code == EVM_SPACE_SUCCESS)
            ==> t.contract_address == r.contract_address,
{
    law_u256_value_is_unique(t.block_number->0, r.block_number);
    law_u256_value_is_unique(t.transaction_index->0, r.transaction_index);
}

/// A transaction of a block is answered as the block holds it; its contract is shown
/// exactly where it succeeded.
pub proof fn law_transaction_is_answered_as_it_is(t: RpcTransaction, b: PhantomBlock, idx: int)
    requires
        is_block_tx(t, b, idx),
    ensures
        t.transaction.same(b.transactions@[idx]),
        t.transaction.data@ == b.transactions@[idx].data@,
        t.transaction.value == b.transactions@[idx].value,
        t.transaction.nonce == b.transactions@[idx].nonce,
        t.transaction.gas == b.transactions@[idx].gas,
        t.block_hash == Some(b.pivot_hash),
        t.status == Some(b.receipts@[idx].evm_status),
        t.contract_address is Some ==> t.status == Some(EVM_SPACE_SUCCESS),
        t.status == Some(EVM_SPACE_SUCCESS) ==> t.contract_address == b.transactions@[idx].deployed_contract_address,
{
}

/// A search by hash answers with the transaction that has the hash, from the block
/// that was searched; it ends with nothing exactly where no transaction has it.
pub proof fn law_search_answers_the_hash(
    r: Result<Option<RpcReceipt>, RpcError>,
    t: RpcTransaction,
    b: PhantomBlock,
    hash: H256,
    idx: int,
    j: int,
)
    requires
        is_first_with_hash(b, hash, idx),
        is_receipt_answer(r, b, idx),
    ensures
        r matches Ok(Some(receipt)) ==> receipt.transaction_hash == hash && receipt.block_hash == b.pivot_hash,
        r matches Ok(None) ==> (0 <= j < b.transactions@.len() ==> b.transactions@[j].hash != hash),
        0 <= j < b.transactions@.len() && b.transactions@[j].hash == hash ==> !(r matches Ok(None)),
        idx < b.transactions@.len() && is_block_tx(t, b, idx) ==> t.transaction.hash == hash,
        0 <= j < b.transactions@.len() && b.transactions@[j].hash == hash ==> idx <= j,
{
}

/// No receipt with a log of another space is answered, and none of a block that lacks
/// receipts or errors; every other one is.
pub proof fn law_only_consistent_blocks_are_answered(b: PhantomBlock, idx: int)
    requires
        0 <= idx,
    ensures
        consistent(b, idx) <==> {
            &&& idx < b.transactions@.len()
            &&& b.receipts@.len() == b.transactions@.len()
            &&& b.errors@.len() == b.transactions@.len()
            &&& !(exists|i: int|
                0 <= i < b.receipts@[idx].logs@.len() && (#[trigger] b.receipts@[idx].logs@[i]).space == Space::Native)
        },
{
    assert forall|i: int| 0 <= i < b.receipts@[idx].logs@.len() implies (
    (#[trigger] b.receipts@[idx].logs@[i]).space == Space::Ethereum <==> b.receipts@[idx].logs@[i].space
        != Space::Native) by {
        match b.receipts@[idx].logs@[i].space {
            Space::Native => {},
            Space::Ethereum => {},
        }
    }
}

/// How many logs the first `n` receipts of an answer hold.
pub open spec fn total_logs(receipts: Seq<RpcReceipt>, n: int) -> int
    decreases n,
{
    if n <= 0 {
        0
    } else {
        total_logs(receipts, n - 1) + receipts[n - 1].logs@.len()
    }
}

proof fn lemma_total_logs(b: PhantomBlock, receipts: Seq<RpcReceipt>, n: int)
    requires
        are_block_receipts(receipts, b),
        0 <= n <= receipts.len(),
    ensures
        total_logs(receipts, n) == logs_before(b.receipts@, n),
    decreases n,
{
    if n > 0 {
        lemma_total_logs(b, receipts, n - 1);
        assert(is_rpc_receipt(receipts[n - 1], b, n - 1, logs_before(b.receipts@, n - 1)));
    }
}

/// Among the receipts of a block the number of a log is how many logs stand before it,
/// in its own receipt and in those of earlier transactions.
pub proof fn law_log_numbers_count_the_logs_before(b: PhantomBlock, receipts: Seq<RpcReceipt>, i: int, k: int)
    requires
        are_block_receipts(receipts, b),
        0 <= i < receipts.len(),
        0 <= k < receipts[i].logs@.len(),
    ensures
        receipts[i].logs@[k].log_index->0.value() == total_logs(receipts, i) + k,
{
    lemma_total_logs(b, receipts, i);
    assert(is_rpc_receipt(receipts[i], b, i, logs_before(b.receipts@, i)));
    assert(is_rpc_log(receipts[i].logs@[k], b, i, logs_before(b.receipts@, i), k));
}

/// The receipts of a block are one for each transaction, in order, all of that block.
pub proof fn law_block_receipts_are_one_for_each_transaction(b: PhantomBlock, receipts: Seq<RpcReceipt>, i: int)
    requires
        are_block_receipts(receipts, b),
        0 <= i < receipts.len(),
    ensures
        receipts.len() == b.receipts@.len(),
        receipts[i].transaction_hash == b.transactions@[i].hash,
        receipts[i].block_hash == b.pivot_hash,
        receipts[i].cumulative_gas_used == b.receipts@[i].accumulated_gas_used,
        i > 0 ==> receipts[i - 1].cumulative_gas_used.value() + receipts[i].gas_used.value()
            == receipts[i].cumulative_gas_used.value(),
        i == 0 ==> receipts[i].gas_used.value() == receipts[i].cumulative_gas_used.value(),
{
    assert(is_rpc_receipt(receipts[i], b, i, logs_before(b.receipts@, i)));
    if i > 0 {
        assert(is_rpc_receipt(receipts[i - 1], b, i - 1, logs_before(b.receipts@, i - 1)));
    }
}

/// The two logs say the same.
pub open spec fn same_log(a: RpcLog, b: RpcLog) -> bool {
    &&& a.address == b.address
    &&& a.topics@ == b.topics@
    &&& a.data@ == b.data@
    &&& a.block_hash == b.block_hash
    &&& a.block_number == b.block_number
    &&& a.transaction_hash == b.transaction_hash
    &&& a.transaction_index == b.transaction_index
    &&& a.log_index == b.log_index
    &&& a.transaction_log_index == b.transaction_log_index
    &&& a.removed == b.removed
}

/// The gas used by the first `n` receipts of an answer.
pub open spec fn total_gas(receipts: Seq<RpcReceipt>, n: int) -> int
    decreases n,
{
    if n <= 0 {
        0
    } else {
        total_gas(receipts, n - 1) + receipts[n - 1].gas_used.value()
    }
}

/// The gas used by the transactions of a block adds up to what the last of them
/// reports as used so far.
pub proof fn law_gas_used_adds_up(b: PhantomBlock, receipts: Seq<RpcReceipt>, n: int)
    requires
        are_block_receipts(receipts, b),
        0 < n <= receipts.len(),
    ensures
        total_gas(receipts, n) == receipts[n - 1].cumulative_gas_used.value(),
    decreases n,
{
    assert(is_rpc_receipt(receipts[n - 1], b, n - 1, logs_before(b.receipts@, n - 1)));
    if n > 1 {
        law_gas_used_adds_up(b, receipts, n - 1);
        assert(is_rpc_receipt(receipts[n - 2], b, n - 2, logs_before(b.receipts@, n - 2)));
    } else {
        assert(total_gas(receipts, 0) == 0);
    }
}

/// Among the receipts of a block the logs are numbered through: a log of a later
/// transaction has a greater number than any of an earlier one.
pub proof fn law_logs_are_numbered_through(b: PhantomBlock, receipts: Seq<RpcReceipt>, i: int, k: int, j: int, l: int)
    requires
        are_block_receipts(receipts, b),
        0 <= i < j < receipts.len(),
        0 <= k < receipts[i].logs@.len(),
        0 <= l < receipts[j].logs@.len(),
    ensures
        receipts[i].logs@[k].log_index->0.value() < receipts[j].logs@[l].log_index->0.value(),
{
    assert(is_rpc_receipt(receipts[i], b, i, logs_before(b.receipts@, i)));
    assert(is_rpc_receipt(receipts[j], b, j, logs_before(b.receipts@, j)));
    assert(is_rpc_log(receipts[i].logs@[k], b, i, logs_before(b.receipts@, i), k));
    assert(is_rpc_log(receipts[j].logs@[l], b, j, logs_before(b.receipts@, j), l));
    lemma_logs_before_grows(b.receipts@, i + 1, j);
}

proof fn lemma_logs_before_grows(receipts: Seq<TransactionReceipt>, i: int, j: int)
    requires
        0 <= i <= j,
    ensures
        0 <= logs_before(receipts, i) <= logs_before(receipts, j),
    decreases j,
{
    if i < j {
        lemma_logs_before_grows(receipts, i, j - 1);
    } else if i > 0 {
        lemma_logs_before_grows(receipts, i - 1, j - 1);
    }
}

/// The receipts of all transactions of the block.
pub open spec fn are_block_receipts(receipts: Seq<RpcReceipt>, b: PhantomBlock) -> bool {
    &&& receipts.len() == b.receipts@.len()
    &&& forall|i: int|
        0 <= i < receipts.len() ==> is_rpc_receipt(#[trigger] receipts[i], b, i, logs_before(b.receipts@, i))
}

/// The receipt at the index can be made: gas used so far does not fall there, and
/// the logs can be counted.
pub open spec fn countable_at(b: PhantomBlock, i: int) -> bool {
    &&& gas_before(b, i) <= b.receipts@[i].accumulated_gas_used.value()
    &&& logs_before(b.receipts@, i + 1) <= usize::MAX
}

/// The receipts of the block can be made, as far as the block fits together.
pub open spec fn countable(b: PhantomBlock) -> bool {
    forall|i: int|
        0 <= i < b.receipts@.len() && (forall|j: int| 0 <= j <= i ==> consistent(b, j)) ==> #[trigger] countable_at(b, i)
}

/// The receipt of the transaction with the hash can be looked for: there are
/// receipts before it, whose logs can be counted, and its own can be made.
pub open spec fn searchable(b: PhantomBlock, hash: H256) -> bool {
    forall|idx: int| #[trigger]
        is_first_with_hash(b, hash, idx) ==> {
            &&& idx <= b.receipts@.len()
            &&& logs_before(b.receipts@, idx) <= usize::MAX
            &&& idx < b.transactions@.len() && consistent(b, idx) ==> countable_at(b, idx)
        }
}

/// The transaction with the hash, if the block has it, has a receipt.
pub open spec fn has_receipt(b: PhantomBlock, hash: H256) -> bool {
    forall|idx: int| #[trigger]
        is_first_with_hash(b, hash, idx) && idx < b.transactions@.len() ==> idx < b.receipts@.len()
}

/// The error that a failed request for a block is answered with.
pub open spec fn refused(text: String) -> RpcErrorModel {
    RpcErrorModel::Refused(text@)
}

/// The search for a transaction reached a block.
pub open spec fn found_block(lookup: TxLookup) -> Option<PhantomBlock> {
    match lookup {
        TxLookup::Block(Ok(block)) => block,
        _ => None,
    }
}

/// The search for a transaction failed, with this text.
pub open spec fn search_failure(lookup: TxLookup) -> Option<Seq<char>> {
    match lookup {
        TxLookup::Block(Err(text)) => Some(text@),
        _ => None,
    }
}

/// How many logs the first `n` receipts hold.
fn count_logs(b: &PhantomBlock, n: usize) -> (r: usize)
    requires
        n <= b.receipts@.len(),
        logs_before(b.receipts@, n as int) <= usize::MAX,
    ensures
        r == logs_before(b.receipts@, n as int),
{
    let mut count: usize = 0;
    let mut i: usize = 0;
    while i < n
        invariant
            i <= n <= b.receipts@.len(),
            logs_before(b.receipts@, n as int) <= usize::MAX,
            count == logs_before(b.receipts@, i as int),
        decreases n - i,
    {
        proof {
            lemma_logs_before_grows(b.receipts@, i + 1, n as int);
        }
        count = count + b.receipts[i].logs.len();
        i = i + 1;
    }
    count
}

/// The first transaction of the block with the hash.
fn position_of(b: &PhantomBlock, hash: &H256) -> (r: usize)
    ensures
        is_first_with_hash(*b, *hash, r as int),
{
    let mut i: usize = 0;
    while i < b.transactions.len()
        invariant
            i <= b.transactions@.len(),
            forall|j: int| 0 <= j < i ==> (#[trigger] b.transactions@[j]).hash != *hash,
        decreases b.transactions@.len() - i,
    {
        if b.transactions[i].hash == *hash {
            return i;
        }
        i = i + 1;
    }
    i
}

impl EthHandler {
    /// The receipt of the transaction at the index. `prior_log_index` counts the logs
    /// of the block before it, and then also its own.
    pub fn construct_rpc_receipt(&self, b: &PhantomBlock, idx: usize, prior_log_index: &mut usize) -> (r: Result<
        RpcReceipt,
        RpcError,
    >)
        requires
            consistent(*b, idx as int) ==> {
                &&& gas_before(*b, idx as int) <= b.receipts@[idx as int].accumulated_gas_used.value()
                &&& *old(prior_log_index) + b.receipts@[idx as int].logs@.len() <= usize::MAX
            },
        ensures
            r is Ok <==> consistent(*b, idx as int),
            r matches Ok(receipt) ==> {
                &&& is_rpc_receipt(receipt, *b, idx as int, *old(prior_log_index) as int)
                &&& *final(prior_log_index) == *old(prior_log_index) + b.receipts@[idx as int].logs@.len()
            },
            r matches Err(e) ==> e@ == inconsistent() && *final(prior_log_index) == *old(prior_log_index),
    {
        if b.transactions.len() != b.receipts.len() {
            return Err(inconsistent_state());
        }
        if b.transactions.len() != b.errors.len() {
            return Err(inconsistent_state());
        }
        if idx >= b.transactions.len() {
            return Err(inconsistent_state());
        }
        let tx = &b.transactions[idx];
        let receipt = &b.receipts[idx];
        if !all_in_ethereum_space(&receipt.logs) {
            return Err(inconsistent_state());
        }
        let contract_address = if receipt.outcome_status == TransactionOutcome::Success {
            tx.deployed_contract_address
        } else {
            None
        };
        let transaction_index = U256::from_usize(idx);
        let block_number = U256::from_u64(b.pivot_height);
        let prior: usize = *prior_log_index;
        let mut logs: Vec<RpcLog> = Vec::new();
        let mut i: usize = 0;
        while i < receipt.logs.len()
            invariant
                idx < b.receipts@.len(),
                idx < b.transactions@.len(),
                *tx == b.transactions@[idx as int],
                *receipt == b.receipts@[idx as int],
                i <= receipt.logs@.len(),
                prior + receipt.logs@.len() <= usize::MAX,
                transaction_index.value() == idx,
                block_number.value() == b.pivot_height,
                logs@.len() == i,
                forall|j: int| 0 <= j < i ==> is_rpc_log(#[trigger] logs@[j], *b, idx as int, prior as int, j),
            decreases receipt.logs@.len() - i,
        {
            let log = &receipt.logs[i];
            logs.push(
                RpcLog {
                    address: log.address,
                    topics: copy_hashes(&log.topics),
                    data: copy_bytes(&log.data),
                    block_hash: b.pivot_hash,
                    block_number,
                    transaction_hash: tx.hash,
                    transaction_index,
                    log_index: Some(U256::from_usize(prior + i)),
                    transaction_log_index: Some(U256::from_usize(i)),
                    removed: false,
                },
            );
            i = i + 1;
        }
        *prior_log_index = prior + logs.len();
        let gas_used = if idx == 0 {
            receipt.accumulated_gas_used
        } else {
            u256_minus(receipt.accumulated_gas_used, b.receipts[idx - 1].accumulated_gas_used)
        };
        let tx_exec_error_msg = if b.errors[idx].as_str().is_empty() {
            None
        } else {
            Some(b.errors[idx].clone())
        };
        let to = match tx.action {
            Action::Create => None,
            Action::Call(address) => Some(address),
        };
        Ok(
            RpcReceipt {
                transaction_hash: tx.hash,
                transaction_index,
                block_hash: b.pivot_hash,
                from: tx.sender,
                to,
                block_number,
                cumulative_gas_used: receipt.accumulated_gas_used,
                gas_used,
                contract_address,
                logs,
                logs_bloom: receipt.log_bloom,
                status_code: receipt.evm_status,
                effective_gas_price: tx.gas_price,
                tx_exec_error_msg,
            },
        )
    }

    /// The receipt of the transaction with the hash; none where it is in no block
    /// that is executed. A failed request for the block is answered in its words.
    pub fn transaction_receipt(&self, lookup: &TxLookup, tx_hash: H256) -> (r: Result<Option<RpcReceipt>, RpcError>)
        requires
            found_block(*lookup) matches Some(b) ==> searchable(b, tx_hash),
        ensures
            is_found_receipt(r, *lookup, tx_hash),
    {
        let b = match lookup {
            TxLookup::Block(Ok(Some(b))) => b,
            TxLookup::Block(Err(text)) => {
                return Err(RpcError::Refused(text.clone()));
            },
            _ => {
                return Ok(None);
            },
        };
        let idx: usize = position_of(b, &tx_hash);
        assert(is_first_with_hash(*b, tx_hash, idx as int));
        let mut prior_log_index: usize = count_logs(b, idx);
        if idx == b.transactions.len() {
            return Ok(None);
        }
        match self.construct_rpc_receipt(b, idx, &mut prior_log_index) {
            Ok(receipt) => Ok(Some(receipt)),
            Err(e) => Err(e),
        }
    }

    /// The receipts of all transactions of a block.
    pub fn block_receipts(&self, block: &Result<Option<PhantomBlock>, String>) -> (r: Result<Vec<RpcReceipt>, RpcError>)
        requires
            block matches Ok(Some(b)) ==> countable(*b),
        ensures
            match *block {
                Err(text) => fails_with(r, refused(text)),
                Ok(None) => fails_with(r, RpcErrorModel::UnknownBlock),
                Ok(Some(b)) => {
                    &&& r is Ok <==> forall|i: int| 0 <= i < b.receipts@.len() ==> consistent(b, i)
                    &&& r matches Ok(receipts) ==> are_block_receipts(receipts@, b)
                    &&& r is Err ==> fails_with(r, inconsistent())
                },
            },
    {
        let b = match block {
            Ok(Some(b)) => b,
            Ok(None) => {
                return Err(RpcError::UnknownBlock);
            },
            Err(text) => {
                return Err(RpcError::Refused(text.clone()));
            },
        };
        self.all_receipts(b)
    }

    /// The receipts of all transactions of the block, numbered through.
    fn all_receipts(&self, b: &PhantomBlock) -> (r: Result<Vec<RpcReceipt>, RpcError>)
        requires
            countable(*b),
        ensures
            r is Ok <==> forall|i: int| 0 <= i < b.receipts@.len() ==> consistent(*b, i),
            r matches Ok(receipts) ==> are_block_receipts(receipts@, *b),
            r is Err ==> fails_with(r, inconsistent()),
    {
        let mut receipts: Vec<RpcReceipt> = Vec::new();
        let mut prior_log_index: usize = 0;
        let mut idx: usize = 0;
        while idx < b.receipts.len()
            invariant
                idx <= b.receipts@.len(),
                countable(*b),
                prior_log_index == logs_before(b.receipts@, idx as int),
                receipts@.len() == idx,
                forall|i: int| 0 <= i < idx ==> consistent(*b, i),
                forall|i: int|
                    0 <= i < idx ==> is_rpc_receipt(#[trigger] receipts@[i], *b, i, logs_before(b.receipts@, i)),
            decreases b.receipts@.len() - idx,
        {
            proof {
                if consistent(*b, idx as int) {
                    assert(countable_at(*b, idx as int));
                }
            }
            match self.construct_rpc_receipt(b, idx, &mut prior_log_index) {
                Ok(receipt) => {
                    receipts.push(receipt);
                },
                Err(e) => {
                    assert(!consistent(*b, idx as int));
                    return Err(e);
                },
            }
            idx = idx + 1;
        }
        Ok(receipts)
    }

    /// A transaction of the pool as an answer; none where the pool does not have it
    /// or it is not of the Ethereum space.
    pub fn get_tx_from_txpool(&self, tx: &Option<SignedTransaction>) -> (r: Option<RpcTransaction>)
        ensures
            r is Some <==> tx is Some && tx->0.space == Space::Ethereum,
            r matches Some(answer) ==> is_pool_tx(answer, tx->0),
    {
        match tx {
            Some(tx) => {
                if tx.space == Space::Ethereum {
                    Some(
                        RpcTransaction {
                            transaction: tx.copy(),
                            block_hash: None,
                            block_number: None,
                            transaction_index: None,
                            status: None,
                            contract_address: None,
                        },
                    )
                } else {
                    None
                }
            },
            None => None,
        }
    }

    /// The transaction with the hash in its block. Where no block shows it, the
    /// pool is to be asked (see `get_tx_from_txpool`): that is `None`. A failed
    /// request for the block is answered in its words.
    pub fn transaction_by_hash(&self, lookup: &TxLookup, hash: H256) -> (r: Result<Option<RpcTransaction>, RpcError>)
        requires
            found_block(*lookup) matches Some(b) ==> has_receipt(b, hash),
        ensures
            is_found_transaction(r, *lookup, hash),
    {
        match lookup {
            TxLookup::Block(Err(text)) => Err(RpcError::Refused(text.clone())),
            TxLookup::Block(Ok(block)) => match block {
                Some(b) => {
                    let idx: usize = position_of(b, &hash);
                    assert(is_first_with_hash(*b, hash, idx as int));
                    Ok(block_tx_by_index(block, idx))
                },
                None => Ok(None),
            },
            _ => Ok(None),
        }
    }

    /// The transaction of a block at an index; none where there is no such block or
    /// no such transaction. A failed request for the block is answered in its words.
    pub fn transaction_by_block_and_index(&self, block: &Result<Option<PhantomBlock>, String>, idx: usize) -> (r: Result<
        Option<RpcTransaction>,
        RpcError,
    >)
        requires
            block matches Ok(Some(b)) ==> (idx < b.transactions@.len() ==> idx < b.receipts@.len()),
        ensures
            match *block {
                Err(text) => fails_with(r, refused(text)),
                Ok(None) => r is Ok && r->Ok_0 is None,
                Ok(Some(b)) => {
                    &&& r is Ok
                    &&& r->Ok_0 is Some <==> idx < b.transactions@.len()
                    &&& r->Ok_0 is Some ==> is_block_tx(r->Ok_0->0, b, idx as int)
                },
            },
    {
        match block {
            Ok(block) => Ok(block_tx_by_index(block, idx)),
            Err(text) => Err(RpcError::Refused(text.clone())),
        }
    }

    /// How many transactions a block has; none where there is no such block. A
    /// failed request for the block is answered in its words.
    pub fn block_transaction_count(&self, block: &Result<Option<PhantomBlock>, String>) -> (r: Result<
        Option<U256>,
        RpcError,
    >)
        ensures
            match *block {
                Err(text) => fails_with(r, refused(text)),
                Ok(None) => r is Ok && r->Ok_0 is None,
                Ok(Some(b)) => r is Ok && r->Ok_0 is Some && r->Ok_0->0.value() == b.transactions@.len(),
            },
    {
        match block {
            Ok(Some(b)) => Ok(Some(U256::from_usize(b.transactions.len()))),
            Ok(None) => Ok(None),
            Err(text) => Err(RpcError::Refused(text.clone())),
        }
    }
}

/// The answer to a search that ended at the index: the receipt there, or none
/// behind the last transaction.
pub open spec fn is_receipt_answer(r: Result<Option<RpcReceipt>, RpcError>, b: PhantomBlock, idx: int) -> bool {
    if idx == b.transactions@.len() {
        r is Ok && r->Ok_0 is None
    } else if consistent(b, idx) {
        &&& r is Ok
        &&& r->Ok_0 is Some
        &&& is_rpc_receipt(r->Ok_0->0, b, idx, logs_before(b.receipts@, idx))
    } else {
        fails_with(r, inconsistent())
    }
}

/// What the search for a receipt is answered with.
pub open spec fn is_found_receipt(r: Result<Option<RpcReceipt>, RpcError>, lookup: TxLookup, hash: H256) -> bool {
    match search_failure(lookup) {
        Some(text) => fails_with(r, RpcErrorModel::Refused(text)),
        None => match found_block(lookup) {
            None => r is Ok && r->Ok_0 is None,
            Some(b) => exists|idx: int| #[trigger] is_first_with_hash(b, hash, idx) && is_receipt_answer(r, b, idx),
        },
    }
}

/// What the search for a transaction is answered with.
pub open spec fn is_found_transaction(r: Result<Option<RpcTransaction>, RpcError>, lookup: TxLookup, hash: H256) -> bool {
    match search_failure(lookup) {
        Some(text) => fails_with(r, RpcErrorModel::Refused(text)),
        None => match found_block(lookup) {
            None => r is Ok && r->Ok_0 is None,
            Some(b) => exists|idx: int| #[trigger]
                is_first_with_hash(b, hash, idx) && match r {
                    Ok(Some(tx)) => idx < b.transactions@.len() && is_block_tx(tx, b, idx),
                    Ok(None) => idx == b.transactions@.len(),
                    Err(_) => false,
                },
        },
    }
}

/// A receipt that is found has the hash and is of the block that the lookup reached.
/// None is found exactly where there is no such block or it has no such transaction,
/// and a failed lookup is answered in its words.
pub proof fn law_found_receipt_has_the_hash(
    r: Result<Option<RpcReceipt>, RpcError>,
    lookup: TxLookup,
    hash: H256,
    j: int,
)
    requires
        is_found_receipt(r, lookup, hash),
    ensures
        match lookup {
            TxLookup::NoIndex => r is Ok && r->Ok_0 is None,
            TxLookup::NoEpoch => r is Ok && r->Ok_0 is None,
            TxLookup::Block(Err(text)) => r is Err && r->Err_0@ == RpcErrorModel::Refused(text@),
            TxLookup::Block(Ok(None)) => r is Ok && r->Ok_0 is None,
            TxLookup::Block(Ok(Some(b))) => {
                &&& r matches Ok(Some(receipt)) ==> receipt.transaction_hash == hash && receipt.block_hash == b.pivot_hash
                    && receipt.block_number.value() == b.pivot_height
                &&& 0 <= j < b.transactions@.len() && b.transactions@[j].hash == hash ==> r is Err || r->Ok_0 is Some
                &&& (forall|i: int| 0 <= i < b.transactions@.len() ==> (#[trigger] b.transactions@[i]).hash != hash)
                    ==> r is Ok && r->Ok_0 is None
            },
        },
{
}

/// A transaction that is found has the hash and is of the block that the lookup
/// reached. None is found exactly where there is no such block or it has no such
/// transaction, and a failed lookup is answered in its words.
pub proof fn law_found_transaction_has_the_hash(
    r: Result<Option<RpcTransaction>, RpcError>,
    lookup: TxLookup,
    hash: H256,
    j: int,
)
    requires
        is_found_transaction(r, lookup, hash),
    ensures
        match lookup {
            TxLookup::NoIndex => r is Ok && r->Ok_0 is None,
            TxLookup::NoEpoch => r is Ok && r->Ok_0 is None,
            TxLookup::Block(Err(text)) => r is Err && r->Err_0@ == RpcErrorModel::Refused(text@),
            TxLookup::Block(Ok(None)) => r is Ok && r->Ok_0 is None,
            TxLookup::Block(Ok(Some(b))) => {
                &&& r is Ok
                &&& r matches Ok(Some(tx)) ==> tx.transaction.hash == hash && tx.block_hash == Some(b.pivot_hash)
                &&& 0 <= j < b.transactions@.len() && b.transactions@[j].hash == hash ==> r->Ok_0 is Some
                &&& (forall|i: int| 0 <= i < b.transactions@.len() ==> (#[trigger] b.transactions@[i]).hash != hash)
                    ==> r->Ok_0 is None
            },
        },
{
}

/// A receipt that is found by its hash says the same as the receipt of that transaction
/// among all receipts of the block, and its logs carry the same numbers.
pub proof fn law_found_receipt_is_the_blocks_receipt(
    r: Result<Option<RpcReceipt>, RpcError>,
    b: PhantomBlock,
    hash: H256,
    receipts: Seq<RpcReceipt>,
    i: int,
    k: int,
)
    requires
        is_found_receipt(r, TxLookup::Block(Ok(Some(b))), hash),
        are_block_receipts(receipts, b),
        is_first_with_hash(b, hash, i),
        r matches Ok(Some(_)),
    ensures
        0 <= i < receipts.len(),
        r->Ok_0->0.transaction_hash == receipts[i].transaction_hash,
        r->Ok_0->0.transaction_index == receipts[i].transaction_index,
        r->Ok_0->0.gas_used == receipts[i].gas_used,
        r->Ok_0->0.cumulative_gas_used == receipts[i].cumulative_gas_used,
        r->Ok_0->0.contract_address == receipts[i].contract_address,
        r->Ok_0->0.logs@.len() == receipts[i].logs@.len(),
        0 <= k < receipts[i].logs@.len() ==> same_log(r->Ok_0->0.logs@[k], receipts[i].logs@[k]),
{
    let idx = choose|idx: int| #[trigger] is_first_with_hash(b, hash, idx) && is_receipt_answer(r, b, idx);
    assert(idx == i);
    let prior = logs_before(b.receipts@, i);
    assert(is_rpc_receipt(receipts[i], b, i, prior));
    law_receipt_is_determined(r->Ok_0->0, receipts[i], b, i, prior);
}

/// A transaction of the pool is answered as it is, and names no block; once it is in a
/// block the answer holds the same transaction.
pub proof fn law_pool_transaction_is_answered_without_a_block(
    r: RpcTransaction,
    later: RpcTransaction,
    b: PhantomBlock,
    idx: int,
)
    requires
        is_pool_tx(r, b.transactions@[idx]),
        is_block_tx(later, b, idx),
    ensures
        r.transaction.same(later.transaction),
        r.transaction.hash == b.transactions@[idx].hash,
        r.block_hash is None && later.block_hash is Some,
        r.block_number is None && later.block_number is Some,
        r.transaction_index is None && later.transaction_index is Some,
        r.status is None && later.status is Some,
        r.contract_address is None,
{
    r.transaction.law_same_transactions_agree(b.transactions@[idx], later.transaction);
}

} // verus!
