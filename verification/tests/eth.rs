use lvmt_state::eth::{BlockQuery, EthHandler, NonceSource, RpcImplConfiguration};
use lvmt_state::eth_types::{BlockNumber, RpcError, SyncStatus};
use lvmt_state::primitive::{H160, H256, U256};

fn number(n: u64) -> U256 {
    U256([n, 0, 0, 0])
}

fn handler(limit: Option<usize>) -> EthHandler {
    EthHandler::new(RpcImplConfiguration {
        get_logs_filter_max_limit: limit,
        max_gas_call_request: 100,
        too_much_gas_used: 80,
    })
}

#[test]
fn fixed_answers() {
    let h = handler(None);
    assert_eq!(h.client_version(), "Conflux");
    assert_eq!(h.protocol_version(), "65");
    assert_eq!(h.net_version(1030), "1030");
    assert_eq!(h.chain_id(1030), Some(1030));
    assert_eq!(h.hashrate(), number(0));
    assert_eq!(h.author(), H160([0; 20]));
    assert!(!h.is_mining());
    assert_eq!(h.gas_price(), number(5_000_000_000));
    assert_eq!(h.max_priority_fee_per_gas(), number(20_000_000_000));
    assert!(h.accounts().is_empty());
    assert!(!h.submit_hashrate());
    assert_eq!(
        h.filter_request(),
        RpcError::Unimplemented("ETH Filter RPC not implemented!".to_string())
    );
}

#[test]
fn the_sync_status() {
    assert_eq!(handler(None).syncing(false, 5, 9), SyncStatus::NotSyncing);
    assert_eq!(
        handler(None).syncing(true, 5, 9),
        SyncStatus::Info { starting_block: number(5), current_block: number(5), highest_block: number(9) }
    );
}

#[test]
fn the_block_number() {
    assert_eq!(handler(None).block_number(Ok(17)), Ok(number(17)));
    assert_eq!(
        handler(None).block_number(Err("not ready".to_string())),
        Err(RpcError::Refused("not ready".to_string()))
    );
}

#[test]
fn accounts_that_are_not_there() {
    let h = handler(None);
    assert_eq!(h.balance(None), number(0));
    assert_eq!(h.balance(Some(number(8))), number(8));
    assert_eq!(h.code_at(None), Vec::<u8>::new());
    assert_eq!(h.code_at(Some(None)), Vec::<u8>::new());
    assert_eq!(h.code_at(Some(Some(vec![1]))), vec![1]);
}

#[test]
fn storage_entries_are_big_endian() {
    let h = handler(None);
    let mut bytes = [0u8; 32];
    bytes[30] = 1;
    bytes[31] = 2;
    assert_eq!(h.storage_position(number(258)), H256(bytes));
    assert_eq!(h.storage_at(Some(number(258))), H256(bytes));
    assert_eq!(h.storage_at(None), H256([0; 32]));
}

#[test]
fn pending_transactions_are_counted_by_the_pool() {
    let h = handler(None);
    assert_eq!(h.transaction_count_source(Some(BlockNumber::Pending)), NonceSource::Pool);
    assert_eq!(h.transaction_count_source(None), NonceSource::Consensus(None));
    assert_eq!(
        h.transaction_count_source(Some(BlockNumber::Num(4))),
        NonceSource::Consensus(Some(BlockNumber::Num(4)))
    );
}

#[test]
fn receipts_are_asked_for_by_hash_or_number() {
    let h = handler(None);
    let hash = H256([6; 32]);
    assert_eq!(
        h.receipts_block(BlockNumber::Hash { hash, require_canonical: None }),
        BlockQuery::ByHash(hash)
    );
    assert_eq!(h.receipts_block(BlockNumber::Latest), BlockQuery::ByNumber(BlockNumber::Latest));
}

#[test]
fn the_pivot_is_the_last_block_of_an_epoch() {
    let h = handler(None);
    let blocks = Ok(Some(vec![H256([1; 32]), H256([2; 32])]));
    assert_eq!(h.get_block_hash_by_number(&blocks), Some(H256([2; 32])));
    assert_eq!(h.get_block_hash_by_number(&Ok(Some(vec![]))), None);
    assert_eq!(h.get_block_hash_by_number(&Ok(None)), None);
    assert_eq!(h.get_block_hash_by_number(&Err(RpcError::UnknownBlock)), None);
}

#[test]
fn blocks_have_no_uncles() {
    assert_eq!(handler(None).block_uncles_count(true), Some(number(0)));
    assert_eq!(handler(None).block_uncles_count(false), None);
}

#[test]
fn filters_keep_to_the_limit() {
    assert_eq!(handler(None).check_log_filter(None), Ok(()));
    assert_eq!(handler(Some(5)).check_log_filter(Some(5)), Ok(()));
    let refused = Err(RpcError::InvalidParams {
        param: "filter".to_string(),
        details: "This node only allows filters with `limit` set to 5 or less".to_string(),
    });
    assert_eq!(handler(Some(5)).check_log_filter(Some(6)), refused);
    assert!(handler(Some(5)).check_log_filter(None).is_err());
}
