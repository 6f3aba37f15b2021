//! The handler of the Ethereum-style RPC.
use vstd::prelude::*;
use crate::eth_types::{fails_with, BlockNumber, RpcError, RpcErrorModel, SyncStatus};
use crate::primitive::{big_endian, h256_from_u256, zero_bytes, H160, H256, U256};
use crate::text::{concat, contains_text, decimal, lemma_contains_middle, usize_text};

verus! {

/// What the handler is configured with.
#[derive(Clone, Copy, Debug, PartialEq, Eq)]
pub struct RpcImplConfiguration {
    /// How many logs a filter may ask for, if there is a limit.
    pub get_logs_filter_max_limit: Option<usize>,
    /// The greatest amount of gas of a virtual call.
    pub max_gas_call_request: u64,
    /// The amount of gas from which on an estimation is too close to that.
    pub too_much_gas_used: u64,
}

/// Answers requests from what the node was asked for.
#[derive(Clone, Copy, Debug, PartialEq, Eq)]
pub struct EthHandler {
    pub config: RpcImplConfiguration,
}

impl EthHandler {
    pub fn new(config: RpcImplConfiguration) -> (r: EthHandler)
        ensures
            r.config == config,
    {
        EthHandler { config }
    }

    /// The name of the client.
    pub fn client_version(&self) -> (r: String)
        ensures
            r@ == "Conflux"@,
    {
        "Conflux".to_owned()
    }

    /// The chain id of the Ethereum space as text.
    pub fn net_version(&self, evm_chain_id: u32) -> (r: String)
        ensures
            r@ == decimal(evm_chain_id as nat),
    {
        usize_text(evm_chain_id as usize)
    }

    /// 65 is a common version now.
    pub fn protocol_version(&self) -> (r: String)
        ensures
            r@ == "65"@,
    {
        "65".to_owned()
    }

    /// How far the node is: some statistics while it catches up.
    pub fn syncing(&self, catch_up_mode: bool, block_count: u64, graph_block_count: u64) -> (r: SyncStatus)
        ensures
            match r {
                SyncStatus::Info { starting_block, current_block, highest_block } => {
                    &&& catch_up_mode
                    &&& starting_block.value() == block_count
                    &&& current_block.value() == block_count
                    &&& highest_block.value() == graph_block_count
                },
                SyncStatus::NotSyncing => !catch_up_mode,
            },
    {
        if catch_up_mode {
            SyncStatus::Info {
                starting_block: U256::from_u64(block_count),
                current_block: U256::from_u64(block_count),
                highest_block: U256::from_u64(graph_block_count),
            }
        } else {
            SyncStatus::NotSyncing
        }
    }

    /// The node does not mine from the point of view of the Ethereum space.
    pub fn hashrate(&self) -> (r: U256)
        ensures
            r.value() == 0,
    {
        U256::zero()
    }

    /// There is no author: the zero address.
    pub fn author(&self) -> (r: H160)
        ensures
            r.0@ == zero_bytes(20),
    {
        H160::zero()
    }

    pub fn is_mining(&self) -> (r: bool)
        ensures
            !r,
    {
        false
    }

    /// The chain id of the Ethereum space.
    pub fn chain_id(&self, evm_chain_id: u32) -> (r: Option<u64>)
        ensures
            r == Some(evm_chain_id as u64),
    {
        Some(evm_chain_id as u64)
    }

    pub fn gas_price(&self) -> (r: U256)
        ensures
            r.value() == 5000000000,
    {
        U256::from_u64(5000000000)
    }

    pub fn max_priority_fee_per_gas(&self) -> (r: U256)
        ensures
            r.value() == 20000000000,
    {
        U256::from_u64(20000000000)
    }

    /// The node manages no accounts.
    pub fn accounts(&self) -> (r: Vec<H160>)
        ensures
            r@.len() == 0,
    {
        Vec::new()
    }

    /// The height of the latest state, in the words of the consensus where there is
    /// none.
    pub fn block_number(&self, height: Result<u64, String>) -> (r: Result<U256, RpcError>)
        ensures
            match height {
                Ok(height) => r is Ok && r->Ok_0.value() == height,
                Err(text) => fails_with(r, RpcErrorModel::Refused(text@)),
            },
    {
        match height {
            Ok(height) => Ok(U256::from_u64(height)),
            Err(text) => Err(RpcError::Refused(text)),
        }
    }

    /// The balance of an account, zero where there is none.
    pub fn balance(&self, account_balance: Option<U256>) -> (r: U256)
        ensures
            r.value() == (match account_balance {
                Some(balance) => balance.value(),
                None => 0,
            }),
    {
        match account_balance {
            Some(balance) => balance,
            None => U256::zero(),
        }
    }

    /// The key of a storage position: its 32 bytes.
    pub fn storage_position(&self, position: U256) -> (r: H256)
        ensures
            big_endian(r.0@) == position.value(),
    {
        h256_from_u256(position)
    }

    /// The 32 bytes of a storage entry, zero where there is none.
    pub fn storage_at(&self, entry: Option<U256>) -> (r: H256)
        ensures
            match entry {
                Some(value) => big_endian(r.0@) == value.value(),
                None => r.0@ == zero_bytes(32),
            },
    {
        match entry {
            Some(value) => h256_from_u256(value),
            None => H256::zero(),
        }
    }

    /// The code of an account: empty where there is no account, or no code for its
    /// code hash.
    pub fn code_at(&self, account_code: Option<Option<Vec<u8>>>) -> (r: Vec<u8>)
        ensures
            r@ == (match account_code {
                Some(Some(code)) => code@,
                _ => Seq::empty(),
            }),
    {
        match account_code {
            Some(Some(code)) => code,
            _ => Vec::new(),
        }
    }

    /// Where the number of an account's transactions is to be asked for.
    pub fn transaction_count_source(&self, num: Option<BlockNumber>) -> (r: NonceSource)
        ensures
            r == (match num {
                Some(BlockNumber::Pending) => NonceSource::Pool,
                _ => NonceSource::Consensus(num),
            }),
    {
        match num {
            Some(BlockNumber::Pending) => NonceSource::Pool,
            _ => NonceSource::Consensus(num),
        }
    }

    /// How the block whose receipts are asked for is to be found.
    pub fn receipts_block(&self, block_num: BlockNumber) -> (r: BlockQuery)
        ensures
            r == (match block_num {
                BlockNumber::Hash { hash, require_canonical } => BlockQuery::ByHash(hash),
                _ => BlockQuery::ByNumber(block_num),
            }),
    {
        match block_num {
            BlockNumber::Hash { hash, require_canonical } => BlockQuery::ByHash(hash),
            _ => BlockQuery::ByNumber(block_num),
        }
    }

    /// The pivot block of an epoch: the last of its blocks.
    pub fn get_block_hash_by_number(&self, blocks: &Result<Option<Vec<H256>>, RpcError>) -> (r: Option<H256>)
        ensures
            match *blocks {
                Ok(Some(hashes)) => r == (if hashes@.len() > 0 {
                    Some(hashes@.last())
                } else {
                    None
                }),
                _ => r is None,
            },
    {
        match blocks {
            Ok(Some(hashes)) => {
                if hashes.len() > 0 {
                    Some(hashes[hashes.len() - 1])
                } else {
                    None
                }
            },
            _ => None,
        }
    }

    /// A block has no uncles: zero for every block there is.
    pub fn block_uncles_count(&self, block_exists: bool) -> (r: Option<U256>)
        ensures
            r is Some <==> block_exists,
            r matches Some(count) ==> count.value() == 0,
    {
        if block_exists {
            Some(U256::zero())
        } else {
            None
        }
    }

    /// Whether a filter may be asked for: where there is a limit, the filter has to
    /// set its own within it.
    pub fn check_log_filter(&self, filter_limit: Option<usize>) -> (r: Result<(), RpcError>)
        ensures
            r is Ok <==> match self.config.get_logs_filter_max_limit {
                Some(max) => filter_limit is Some && filter_limit->0 <= max,
                None => true,
            },
            r is Err ==> fails_with(
                r,
                (RpcErrorModel::InvalidParams {
                    param: "filter"@,
                    details: limit_text(self.config.get_logs_filter_max_limit->0),
                }),
            ),
    {
        if let Some(max_limit) = self.config.get_logs_filter_max_limit {
            let within = match filter_limit {
                Some(limit) => limit <= max_limit,
                None => false,
            };
            if !within {
                let details = concat(
                    "This node only allows filters with `limit` set to ",
                    concat(usize_text(max_limit).as_str(), " or less").as_str(),
                );
                return Err(RpcError::InvalidParams { param: "filter".to_owned(), details });
            }
        }
        Ok(())
    }

    /// The node does not care for mining.
    pub fn submit_hashrate(&self) -> (r: bool)
        ensures
            !r,
    {
        false
    }

    /// Filters are not supported: the answer to every request for one.
    pub fn filter_request(&self) -> (r: RpcError)
        ensures
            r@ == RpcErrorModel::Unimplemented("ETH Filter RPC not implemented!"@),
    {
        RpcError::Unimplemented("ETH Filter RPC not implemented!".to_owned())
    }
}

/// Where the number of an account's transactions comes from.
#[derive(Debug, PartialEq, Eq)]
pub enum NonceSource {
    /// The transaction pool, which knows of pending ones.
    Pool,
    /// The consensus, at a block (by default the latest).
    Consensus(Option<BlockNumber>),
}

/// How a block is to be found.
#[derive(Debug, PartialEq, Eq)]
pub enum BlockQuery {
    ByHash(H256),
    ByNumber(BlockNumber),
}

/// What a filter without a limit, or with too high a one, is answered.
pub open spec fn limit_text(max: usize) -> Seq<char> {
    "This node only allows filters with `limit` set to "@ + (decimal(max as nat) + " or less"@)
}

/// The refusal of a filter names the limit, between two texts that do not depend on
/// it.
pub proof fn law_refused_filter_names_the_limit(max: usize, other: usize)
    ensures
        contains_text(limit_text(max), decimal(max as nat)),
        limit_text(max).len() - decimal(max as nat).len() == limit_text(other).len() - decimal(other as nat).len(),
{
    let before = "This node only allows filters with `limit` set to "@;
    let behind = " or less"@;
    lemma_contains_middle(before, decimal(max as nat), behind);
    assert(before + decimal(max as nat) + behind =~= limit_text(max));
}

} // verus!
