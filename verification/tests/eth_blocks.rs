use lvmt_state::eth::{EthHandler, RpcImplConfiguration};
use lvmt_state::eth_blocks::block_tx_by_index;
use lvmt_state::eth_types::{Action, LogEntry, PhantomBlock, RpcError, SignedTransaction, Space};
use lvmt_state::eth_types::{TransactionOutcome, TransactionReceipt, TxLookup};
use lvmt_state::primitive::{Bloom, H160, H256, U256};

fn number(n: u64) -> U256 {
    U256([n, 0, 0, 0])
}

fn handler() -> EthHandler {
    EthHandler::new(RpcImplConfiguration {
        get_logs_filter_max_limit: None,
        max_gas_call_request: 100,
        too_much_gas_used: 80,
    })
}

fn tx(n: u8, action: Action) -> SignedTransaction {
    SignedTransaction {
        hash: H256([n; 32]),
        sender: H160([n; 20]),
        space: Space::Ethereum,
        action,
        nonce: number(n as u64),
        gas_price: number(7),
        gas: number(21),
        value: number(3),
        data: vec![n],
        deployed_contract_address: Some(H160([n + 100; 20])),
    }
}

fn log(n: u8, space: Space) -> LogEntry {
    LogEntry { address: H160([n; 20]), topics: vec![H256([n; 32])], data: vec![n, n], space }
}

fn receipt(gas: u64, logs: Vec<LogEntry>, success: bool) -> TransactionReceipt {
    TransactionReceipt {
        accumulated_gas_used: number(gas),
        logs,
        log_bloom: Bloom([gas as u8; 256]),
        outcome_status: if success { TransactionOutcome::Success } else { TransactionOutcome::Failure },
        evm_status: if success { 1 } else { 0 },
    }
}

fn block() -> PhantomBlock {
    PhantomBlock {
        pivot_hash: H256([200; 32]),
        pivot_height: 42,
        transactions: vec![tx(1, Action::Create), tx(2, Action::Call(H160([9; 20])))],
        receipts: vec![
            receipt(10, vec![log(1, Space::Ethereum), log(2, Space::Ethereum)], true),
            receipt(25, vec![log(3, Space::Ethereum)], false),
        ],
        errors: vec![String::new(), "out of gas".to_string()],
    }
}

fn inconsistent() -> RpcError {
    RpcError::Internal("Inconsistent state".to_string())
}

#[test]
fn a_receipt_holds_what_the_block_says() {
    let mut prior = 0;
    let r = handler().construct_rpc_receipt(&block(), 0, &mut prior).unwrap();
    assert_eq!(prior, 2);
    assert_eq!(r.transaction_hash, H256([1; 32]));
    assert_eq!(r.transaction_index, number(0));
    assert_eq!(r.block_hash, H256([200; 32]));
    assert_eq!(r.block_number, number(42));
    assert_eq!(r.from, H160([1; 20]));
    assert_eq!(r.to, None);
    assert_eq!(r.cumulative_gas_used, number(10));
    assert_eq!(r.gas_used, number(10));
    assert_eq!(r.contract_address, Some(H160([101; 20])));
    assert_eq!(r.logs_bloom, Bloom([10; 256]));
    assert_eq!(r.status_code, 1);
    assert_eq!(r.effective_gas_price, number(7));
    assert_eq!(r.tx_exec_error_msg, None);
    assert_eq!(r.logs[1].address, H160([2; 20]));
    assert_eq!(r.logs[1].topics, vec![H256([2; 32])]);
    assert_eq!(r.logs[1].data, vec![2, 2]);
    assert_eq!(r.logs[1].log_index, Some(number(1)));
    assert_eq!(r.logs[1].transaction_log_index, Some(number(1)));
    assert!(!r.logs[1].removed);
}

#[test]
fn a_failed_transaction_has_an_error_and_no_contract() {
    let mut prior = 2;
    let r = handler().construct_rpc_receipt(&block(), 1, &mut prior).unwrap();
    assert_eq!(prior, 3);
    assert_eq!(r.gas_used, number(15));
    assert_eq!(r.to, Some(H160([9; 20])));
    assert_eq!(r.contract_address, None);
    assert_eq!(r.status_code, 0);
    assert_eq!(r.tx_exec_error_msg, Some("out of gas".to_string()));
    assert_eq!(r.logs[0].log_index, Some(number(2)));
    assert_eq!(r.logs[0].transaction_log_index, Some(number(0)));
}

#[test]
fn a_block_that_does_not_fit_together_is_an_internal_error() {
    let mut prior = 5;
    let mut b = block();
    b.receipts.pop();
    assert_eq!(handler().construct_rpc_receipt(&b, 0, &mut prior), Err(inconsistent()));
    let mut b = block();
    b.errors.pop();
    assert_eq!(handler().construct_rpc_receipt(&b, 0, &mut prior), Err(inconsistent()));
    assert_eq!(handler().construct_rpc_receipt(&block(), 2, &mut prior), Err(inconsistent()));
    let mut b = block();
    b.receipts[1].logs[0].space = Space::Native;
    assert_eq!(handler().construct_rpc_receipt(&b, 1, &mut prior), Err(inconsistent()));
    assert_eq!(prior, 5);
}

#[test]
fn the_receipts_of_a_block_are_numbered_through() {
    let receipts = handler().block_receipts(&Ok(Some(block()))).unwrap();
    assert_eq!(receipts.len(), 2);
    let numbers: Vec<_> = receipts.iter().flat_map(|r| r.logs.iter().map(|l| l.log_index.unwrap())).collect();
    assert_eq!(numbers, vec![number(0), number(1), number(2)]);
}

#[test]
fn the_gas_used_adds_up() {
    let receipts = handler().block_receipts(&Ok(Some(block()))).unwrap();
    let total: u64 = receipts.iter().map(|r| r.gas_used.0[0]).sum();
    assert_eq!(number(total), receipts[1].cumulative_gas_used);
}

#[test]
fn block_receipts_fail_with_the_block() {
    assert_eq!(handler().block_receipts(&Ok(None)), Err(RpcError::UnknownBlock));
    assert_eq!(
        handler().block_receipts(&Err("too new".to_string())),
        Err(RpcError::Refused("too new".to_string()))
    );
    let mut b = block();
    b.receipts[1].logs[0].space = Space::Native;
    assert_eq!(handler().block_receipts(&Ok(Some(b))), Err(inconsistent()));
}

#[test]
fn the_receipt_by_hash_is_the_one_of_the_block() {
    let receipts = handler().block_receipts(&Ok(Some(block()))).unwrap();
    let lookup = TxLookup::Block(Ok(Some(block())));
    for (i, r) in receipts.into_iter().enumerate() {
        let found = handler().transaction_receipt(&lookup, H256([i as u8 + 1; 32])).unwrap();
        assert_eq!(found, Some(r));
    }
}

#[test]
fn a_receipt_that_is_nowhere() {
    let lookup = TxLookup::Block(Ok(Some(block())));
    assert_eq!(handler().transaction_receipt(&lookup, H256([8; 32])), Ok(None));
    assert_eq!(handler().transaction_receipt(&TxLookup::NoIndex, H256([1; 32])), Ok(None));
    assert_eq!(handler().transaction_receipt(&TxLookup::NoEpoch, H256([1; 32])), Ok(None));
    assert_eq!(handler().transaction_receipt(&TxLookup::Block(Ok(None)), H256([1; 32])), Ok(None));
    assert_eq!(
        handler().transaction_receipt(&TxLookup::Block(Err("no".to_string())), H256([1; 32])),
        Err(RpcError::Refused("no".to_string()))
    );
}

#[test]
fn a_receipt_of_a_block_with_missing_receipts() {
    let mut b = block();
    b.receipts.pop();
    let lookup = TxLookup::Block(Ok(Some(b)));
    assert_eq!(handler().transaction_receipt(&lookup, H256([1; 32])), Err(inconsistent()));
}

#[test]
fn a_transaction_is_found_in_its_block() {
    let lookup = TxLookup::Block(Ok(Some(block())));
    let found = handler().transaction_by_hash(&lookup, H256([2; 32])).unwrap().unwrap();
    assert_eq!(found.transaction, tx(2, Action::Call(H160([9; 20]))));
    assert_eq!(found.block_hash, Some(H256([200; 32])));
    assert_eq!(found.block_number, Some(number(42)));
    assert_eq!(found.transaction_index, Some(number(1)));
    assert_eq!(found.status, Some(0));
    assert_eq!(found.contract_address, None);
    assert_eq!(handler().transaction_by_hash(&lookup, H256([8; 32])), Ok(None));
    assert_eq!(handler().transaction_by_hash(&TxLookup::NoIndex, H256([2; 32])), Ok(None));
    assert!(handler().transaction_by_hash(&TxLookup::Block(Err("no".to_string())), H256([2; 32])).is_err());
}

#[test]
fn a_successful_creation_shows_its_contract() {
    let found = block_tx_by_index(&Some(block()), 0).unwrap();
    assert_eq!(found.status, Some(1));
    assert_eq!(found.contract_address, Some(H160([101; 20])));
    assert_eq!(block_tx_by_index(&Some(block()), 2), None);
    assert_eq!(block_tx_by_index(&None, 0), None);
}

#[test]
fn a_transaction_by_block_and_index() {
    let found = handler().transaction_by_block_and_index(&Ok(Some(block())), 1).unwrap().unwrap();
    assert_eq!(found.transaction.hash, H256([2; 32]));
    assert_eq!(handler().transaction_by_block_and_index(&Ok(None), 1), Ok(None));
    assert!(handler().transaction_by_block_and_index(&Err("no".to_string()), 1).is_err());
}

#[test]
fn the_pool_shows_transactions_of_the_ethereum_space() {
    let found = handler().get_tx_from_txpool(&Some(tx(5, Action::Create))).unwrap();
    assert_eq!(found.transaction, tx(5, Action::Create));
    assert_eq!(found.block_hash, None);
    assert_eq!(found.status, None);
    let mut native = tx(5, Action::Create);
    native.space = Space::Native;
    assert_eq!(handler().get_tx_from_txpool(&Some(native)), None);
    assert_eq!(handler().get_tx_from_txpool(&None), None);
}

#[test]
fn transactions_are_counted() {
    assert_eq!(handler().block_transaction_count(&Ok(Some(block()))), Ok(Some(number(2))));
    assert_eq!(handler().block_transaction_count(&Ok(None)), Ok(None));
    assert_eq!(
        handler().block_transaction_count(&Err("no".to_string())),
        Err(RpcError::Refused("no".to_string()))
    );
}
