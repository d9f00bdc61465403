use vstd::prelude::*;

use crate::block::Block;
use crate::codec::parse_block;
use crate::proofofwork::{block_is_mined, mined_on, no_nonce_found, pow_valid};
use crate::transaction::{coinbase_model, coinbase_sig, TxModel, is_coinbase_model, OutputModel, Transaction, SUBSIDY};

verus! {

/// The store key under which the hash of the newest block is kept.
pub const TIP_KEY: &'static str = "l";

/// The note carried by the input of the genesis coinbase transaction.
pub const GENESIS_COINBASE_DATA: &'static str =
    "The Times 03/Jan/2009 Chancellor on brink of second bailout for bank";

/// The coinbase transaction of the genesis block of a chain created for `to`.
pub open spec fn genesis_coinbase(to: Seq<char>) -> TxModel {
    coinbase_model(to, GENESIS_COINBASE_DATA@)
}

/// Why a ledger operation did not go through.
#[derive(Debug, Clone, Copy, PartialEq, Eq, Structural)]
pub enum LedgerError {
    /// A chain was created where one exists, or used where none exists.
    ConfigurationError,
    /// The sender's unspent outputs do not cover the amount.
    InsufficientFunds,
    /// No nonce in the non-negative `i64` range met the target.
    MiningExhaustion,
}

/// A handle on a chain: the hash of its newest block. Blocks themselves live in
/// the store, each under its own hash; the caller stores what this handle mines
/// and serialises all mining on one store.
pub struct Blockchain {
    pub tip: Vec<u8>,
}

/// A walk over the chain from a tip to the genesis block, one stored record at
/// a time.
pub struct BlockchainIterator {
    pub current_hash: Vec<u8>,
}

impl Blockchain {
    /// Opens the chain of a store, given whether the store is empty and the record
    /// under the tip key.
    pub fn new(store_is_empty: bool, tip: Option<Vec<u8>>) -> (r: Result<Blockchain, LedgerError>)
        ensures
            store_is_empty || tip is None ==> r == Err::<Blockchain, LedgerError>(
                LedgerError::ConfigurationError,
            ),
            !store_is_empty && tip is Some ==> (r matches Ok(bc) && bc.tip@ == tip->0@),
    {
        if store_is_empty {
            return Err(LedgerError::ConfigurationError);
        }
        match tip {
            Some(t) => Ok(Blockchain { tip: t }),
            None => Err(LedgerError::ConfigurationError),
        }
    }

    /// Starts a chain in an empty store: mines a genesis block whose coinbase
    /// transaction pays the subsidy to `address`. The caller stores the block
    /// under its hash and the hash under the tip key.
    pub fn create(store_is_empty: bool, address: &str, timestamp: u64) -> (r: Result<
        (Blockchain, Block),
        LedgerError,
    >)
        ensures
            !store_is_empty ==> r == Err::<(Blockchain, Block), LedgerError>(
                LedgerError::ConfigurationError,
            ),
            store_is_empty ==> (r is Ok || r == Err::<(Blockchain, Block), LedgerError>(
                LedgerError::MiningExhaustion,
            )),
            r == Err::<(Blockchain, Block), LedgerError>(LedgerError::MiningExhaustion)
                ==> no_nonce_found(Seq::empty(), seq![genesis_coinbase(address@)], timestamp),
            r matches Ok((bc, g)) ==> {
                &&& bc.tip@ == g.hash@
                &&& g.timestamp == timestamp
                &&& g.prev_block_hash@.len() == 0
                &&& g@.transactions == seq![genesis_coinbase(address@)]
                &&& g@.transactions.len() == 1
                &&& is_coinbase_model(g@.transactions[0])
                &&& g@.transactions[0].vin[0].owner == coinbase_sig(
                    address@,
                    GENESIS_COINBASE_DATA@,
                )
                &&& g@.transactions[0].vout == seq![OutputModel { value: SUBSIDY, owner: address@ }]
                &&& block_is_mined(g@)
                &&& pow_valid(g@)
            },
    {
        if !store_is_empty {
            return Err(LedgerError::ConfigurationError);
        }
        let coinbase = Transaction::new_coinbase_tx(address, GENESIS_COINBASE_DATA);
        let ghost cm = coinbase@;
        match Block::new_genesis_block(coinbase, timestamp) {
            Some(genesis) => {
                assert(genesis@.transactions[0] == cm);
                assert(genesis@.transactions[0].vout =~= seq![
                    OutputModel { value: SUBSIDY, owner: address@ },
                ]);
                assert(genesis@.transactions =~= seq![cm]);
                let tip = genesis.hash.clone();
                Ok((Blockchain { tip }, genesis))
            },
            None => Err(LedgerError::MiningExhaustion),
        }
    }

    /// Mines a block of `transactions` on the current tip and moves the tip to
    /// it. The caller stores the block under its hash, flushes, then writes the
    /// new tip under the tip key. On failure the tip does not move.
    pub fn mine_block(&mut self, transactions: Vec<Transaction>, timestamp: u64) -> (r: Result<
        Block,
        LedgerError,
    >)
        ensures
            r matches Ok(b) ==> {
                &&& mined_on(old(self).tip@, b@, final(self).tip@)
                &&& b.prev_block_hash@ == old(self).tip@
                &&& b.transactions == transactions
                &&& b.timestamp == timestamp
                &&& block_is_mined(b@)
                &&& pow_valid(b@)
                &&& final(self).tip@ == b.hash@
            },
            r is Err ==> r == Err::<Block, LedgerError>(LedgerError::MiningExhaustion),
            r is Err ==> final(self).tip@ == old(self).tip@,
            r is Err ==> no_nonce_found(
                old(self).tip@,
                transactions@.map_values(|t: Transaction| t@),
                timestamp,
            ),
    {
        match Block::new(transactions, self.tip.as_slice(), timestamp) {
            Some(block) => {
                proof {
                    crate::proofofwork::lemma_mined_block_validates(block@);
                }
                self.tip = block.hash.clone();
                Ok(block)
            },
            None => Err(LedgerError::MiningExhaustion),
        }
    }

    /// A walk that starts at the current tip.
    pub fn iter(&self) -> (r: BlockchainIterator)
        ensures
            r.current_hash@ == self.tip@,
    {
        BlockchainIterator { current_hash: self.tip.clone() }
    }
}

impl BlockchainIterator {
    /// The key of the next record to fetch; `None` once the walk is over.
    pub fn next_key(&self) -> (r: Option<Vec<u8>>)
        ensures
            self.current_hash@.len() == 0 ==> r is None,
            self.current_hash@.len() != 0 ==> (r matches Some(k) && k@ == self.current_hash@),
    {
        if self.current_hash.len() == 0 {
            None
        } else {
            Some(self.current_hash.clone())
        }
    }

    /// Takes the record fetched under `next_key` (`None` when the store holds
    /// none) and yields its block, moving on to the block's parent. An absent or
    /// malformed record ends the walk: the chain is truncated there.
    pub fn next(&mut self, record: Option<Vec<u8>>) -> (r: Option<Block>)
        ensures
            old(self).current_hash@.len() == 0 || record is None ==> r is None
                && final(self).current_hash@.len() == 0,
            old(self).current_hash@.len() != 0 && record is Some ==> match parse_block(
                record->0@,
            ) {
                Some(m) => r matches Some(b) && b@ == m && final(self).current_hash@
                    == m.prev_block_hash,
                None => r is None && final(self).current_hash@.len() == 0,
            },
    {
        if self.current_hash.len() == 0 {
            return None;
        }
        let decoded = match record {
            Some(bytes) => crate::codec::decode_block(&bytes),
            None => None,
        };
        match decoded {
            Some(block) => {
                self.current_hash = block.prev_block_hash.clone();
                Some(block)
            },
            None => {
                self.current_hash = Vec::new();
                None
            },
        }
    }
}

} // verus!
