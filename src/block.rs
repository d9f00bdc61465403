use vstd::prelude::*;

use crate::codec::append_bytes;
use crate::digest::{sha256, sha256_of};
use crate::proofofwork::{
    block_is_mined, hash_with_nonce, header_of, lemma_mined_block_validates, no_nonce_found,
    pow_valid, ProofOfWork};
use crate::transaction::{Transaction, TxModel};

verus! {

/// A mined block: its transactions, the hash of its parent and its own hash.
#[derive(Clone, Debug)]
pub struct Block {
    pub timestamp: u64,
    pub transactions: Vec<Transaction>,
    pub prev_block_hash: Vec<u8>,
    pub hash: Vec<u8>,
    pub nonce: i64,
}

pub ghost struct BlockModel {
    pub timestamp: u64,
    pub transactions: Seq<TxModel>,
    pub prev_block_hash: Seq<u8>,
    pub hash: Seq<u8>,
    pub nonce: i64,
}

impl View for Block {
    type V = BlockModel;

    open spec fn view(&self) -> BlockModel {
        BlockModel {
            timestamp: self.timestamp,
            transactions: self.transactions@.map_values(|t: Transaction| t@),
            prev_block_hash: self.prev_block_hash@,
            hash: self.hash@,
            nonce: self.nonce,
        }
    }
}

/// The ids of the transactions, concatenated in order.
pub open spec fn concat_ids(txs: Seq<TxModel>) -> Seq<u8>
    decreases txs.len(),
{
    if txs.len() == 0 {
        Seq::empty()
    } else {
        concat_ids(txs.drop_last()) + txs.last().id
    }
}

/// The transaction summary of a block: a flat digest of its transaction ids
/// (deliberately not a Merkle root).
pub open spec fn tx_summary(txs: Seq<TxModel>) -> Seq<u8> {
    sha256_of(concat_ids(txs))
}

impl Block {
    /// Builds a block on `prev_block_hash` with the given transactions and mines
    /// it. `None` when no nonce in the non-negative `i64` range meets the target.
    pub fn new(transactions: Vec<Transaction>, prev_block_hash: &[u8], timestamp: u64) -> (r:
        Option<Block>)
        ensures
            r matches Some(b) ==> {
                &&& b.timestamp == timestamp
                &&& b.transactions == transactions
                &&& b.prev_block_hash@ == prev_block_hash@
                &&& block_is_mined(b@)
            },
            r is None ==> no_nonce_found(
                prev_block_hash@,
                transactions@.map_values(|t: Transaction| t@),
                timestamp,
            ),
    {
        let mut parent: Vec<u8> = Vec::new();
        append_bytes(&mut parent, prev_block_hash);
        assert(parent@ =~= prev_block_hash@);
        let mut block = Block {
            timestamp,
            transactions,
            prev_block_hash: parent,
            hash: Vec::new(),
            nonce: 0,
        };
        let found = {
            let pow = block.new_proof_of_work();
            pow.run()
        };
        let ghost unmined = block@;
        match found {
            Some((nonce, hash)) => {
                block.hash = hash;
                block.nonce = nonce;
                proof {
                    assert forall|m: i64| #[trigger]
                        hash_with_nonce(block@, m) == hash_with_nonce(unmined, m) by {
                        assert(header_of(block@, m) == header_of(unmined, m));
                    }
                }
                Some(block)
            },
            None => None,
        }
    }

    /// The first block of a chain: it holds the coinbase transaction alone and
    /// has an empty parent hash.
    pub fn new_genesis_block(coinbase: Transaction, timestamp: u64) -> (r: Option<Block>)
        ensures
            r matches Some(b) ==> {
                &&& b.timestamp == timestamp
                &&& b.transactions@ == seq![coinbase]
                &&& b.prev_block_hash@.len() == 0
                &&& block_is_mined(b@)
                &&& pow_valid(b@)
            },
            r is None ==> no_nonce_found(
                Seq::empty(),
                seq![coinbase@],
                timestamp,
            ),
    {
        let ghost cm = coinbase@;
        let txs = vec![coinbase];
        assert(txs@.map_values(|t: Transaction| t@) =~= seq![cm]);
        let empty: Vec<u8> = Vec::new();
        let r = Self::new(txs, empty.as_slice(), timestamp);
        proof {
            if let Some(b) = &r {
                lemma_mined_block_validates(b@);
                assert(b@.transactions =~= seq![cm]);
            } else {
                assert(empty@ =~= Seq::<u8>::empty());
            }
        }
        r
    }

    pub fn new_proof_of_work(&self) -> (r: ProofOfWork<'_>)
        ensures
            r.block == self,
    {
        ProofOfWork::new(self)
    }

    /// The digest of the concatenated transaction ids.
    pub fn hash_transactions(&self) -> (r: Vec<u8>)
        ensures
            r@ == tx_summary(self@.transactions),
            r@.len() == 32,
    {
        let mut ids: Vec<u8> = Vec::new();
        let mut k: usize = 0;
        while k < self.transactions.len()
            invariant
                k <= self.transactions@.len(),
                ids@ == concat_ids(self@.transactions.subrange(0, k as int)),
            decreases self.transactions@.len() - k,
        {
            let id = &self.transactions[k].id;
            let mut i: usize = 0;
            let ghost before = ids@;
            while i < id.len()
                invariant
                    i <= id@.len(),
                    ids@ == before + id@.subrange(0, i as int),
                decreases id@.len() - i,
            {
                ids.push(id[i]);
                i = i + 1;
                assert(ids@ =~= before + id@.subrange(0, i as int));
            }
            proof {
                let t = self@.transactions.subrange(0, k as int + 1);
                assert(t.drop_last() =~= self@.transactions.subrange(0, k as int));
                assert(id@.subrange(0, i as int) =~= id@);
            }
            k = k + 1;
        }
        assert(self@.transactions.subrange(0, k as int) =~= self@.transactions);
        sha256(&ids)
    }
}

} // verus!
