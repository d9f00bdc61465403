use vstd::prelude::*;

use vstd::arithmetic::power2::{
    lemma2_to64, lemma_pow2_adds, lemma_pow2_strictly_increases, pow2,
};
use vstd::bytes::{spec_u64_to_le_bytes, u64_to_le_bytes};

use crate::block::{tx_summary, Block, BlockModel};
use crate::digest::{sha256, sha256_of};
use crate::transaction::TxModel;

verus! {

/// The number of leading zero bits that a block hash must have.
pub const TARGET_BITS: i32 = 8;

/// How many leading bytes of a 32-byte hash must be zero.
const ZERO_BYTES: usize = 1;

/// The mining target: a hash is accepted when, read as a big-endian unsigned
/// integer, it is below this value.
pub open spec fn target() -> nat {
    pow2((256 - TARGET_BITS) as nat)
}

/// A byte string read as a big-endian unsigned integer.
pub open spec fn be_value(s: Seq<u8>) -> nat
    decreases s.len(),
{
    if s.len() == 0 {
        0
    } else {
        s[0] as nat * pow2((8 * (s.len() - 1)) as nat) + be_value(s.drop_first())
    }
}

/// The eight bytes of `x`, most significant first.
pub open spec fn be64(x: u64) -> Seq<u8> {
    Seq::new(8, |i: int| spec_u64_to_le_bytes(x)[7 - i])
}

/// The bytes hashed to mine or check a block with the given parent hash,
/// transactions, timestamp and nonce.
pub open spec fn header_for(prev: Seq<u8>, txs: Seq<TxModel>, timestamp: u64, nonce: i64) -> Seq<
    u8,
> {
    prev + tx_summary(txs) + be64(timestamp) + be64(TARGET_BITS as i64 as u64) + be64(nonce as u64)
}

pub open spec fn header_of(b: BlockModel, nonce: i64) -> Seq<u8> {
    header_for(b.prev_block_hash, b.transactions, b.timestamp, nonce)
}

/// No nonce from zero up to, not including, `i64::MAX` gives a header hash that
/// meets the target.
pub open spec fn no_nonce_found(prev: Seq<u8>, txs: Seq<TxModel>, timestamp: u64) -> bool {
    forall|m: i64|
        0 <= m < i64::MAX ==> !meets_target(#[trigger] sha256_of(header_for(prev, txs, timestamp, m)))
}

/// Whether a hash meets the target.
pub open spec fn meets_target(h: Seq<u8>) -> bool {
    be_value(h) < target()
}

/// The hash of a block under a given nonce.
pub open spec fn hash_with_nonce(b: BlockModel, nonce: i64) -> Seq<u8> {
    sha256_of(header_of(b, nonce))
}

/// What the proof of work checks of a block: its header with its own nonce
/// hashes below the target.
pub open spec fn pow_valid(b: BlockModel) -> bool {
    meets_target(hash_with_nonce(b, b.nonce))
}

/// What mining establishes of a block: its hash is the hash of its header with
/// its nonce, that hash meets the target, and no smaller non-negative nonce did.
pub open spec fn block_is_mined(b: BlockModel) -> bool {
    &&& 0 <= b.nonce
    &&& b.hash == hash_with_nonce(b, b.nonce)
    &&& meets_target(b.hash)
    &&& forall|m: i64| 0 <= m < b.nonce ==> !meets_target(#[trigger] hash_with_nonce(b, m))
}

proof fn lemma_be_value_bound(s: Seq<u8>)
    ensures
        be_value(s) < pow2((8 * s.len()) as nat),
    decreases s.len(),
{
    if s.len() == 0 {
        lemma2_to64();
    } else {
        let p = pow2((8 * (s.len() - 1)) as nat);
        lemma_be_value_bound(s.drop_first());
        lemma2_to64();
        lemma_pow2_adds((8 * (s.len() - 1)) as nat, 8);
        assert(s[0] as nat * p <= 255 * p) by (nonlinear_arith)
            requires
                s[0] <= 255,
        ;
    }
}

proof fn lemma_be_value_leading_nonzero(s: Seq<u8>)
    requires
        s.len() > 0,
        s[0] != 0,
    ensures
        be_value(s) >= pow2((8 * (s.len() - 1)) as nat),
{
    let p = pow2((8 * (s.len() - 1)) as nat);
    assert(s[0] as nat * p >= p) by (nonlinear_arith)
        requires
            s[0] >= 1,
    ;
}

/// Decides whether a hash meets the target by its leading bytes.
pub fn hash_meets_target(h: &Vec<u8>) -> (r: bool)
    ensures
        r == meets_target(h@),
{
    let n = h.len();
    let keep: usize = 32 - ZERO_BYTES;
    let mut i: usize = 0;
    assert(h@.subrange(0, n as int) =~= h@);
    while i + keep < n
        invariant
            n == h@.len(),
            keep == 31,
            i + keep <= n || i == 0,
            be_value(h@) == be_value(h@.subrange(i as int, n as int)),
        decreases n - i,
    {
        let ghost rest = h@.subrange(i as int, n as int);
        if h[i] != 0 {
            proof {
                lemma_be_value_leading_nonzero(rest);
                if rest.len() - 1 > 31 {
                    lemma_pow2_strictly_increases(248, (8 * (rest.len() - 1)) as nat);
                }
            }
            return false;
        }
        proof {
            assert(rest.drop_first() =~= h@.subrange(i as int + 1, n as int));
        }
        i = i + 1;
    }
    proof {
        let rest = h@.subrange(i as int, n as int);
        assert(h@.subrange(0, n as int) =~= h@);
        lemma_be_value_bound(rest);
        if rest.len() < 31 {
            lemma_pow2_strictly_increases((8 * rest.len()) as nat, 248);
        }
    }
    true
}

fn push_be64(out: &mut Vec<u8>, x: u64)
    ensures
        final(out)@ == old(out)@ + be64(x),
{
    let le = u64_to_le_bytes(x);
    let mut i: usize = 0;
    while i < 8
        invariant
            le@ == spec_u64_to_le_bytes(x),
            le@.len() == 8,
            i <= 8,
            out@ == old(out)@ + be64(x).subrange(0, i as int),
        decreases 8 - i,
    {
        out.push(le[7 - i]);
        i = i + 1;
        assert(out@ =~= old(out)@ + be64(x).subrange(0, i as int));
    }
    assert(be64(x).subrange(0, 8) =~= be64(x));
}

/// The proof-of-work search and check for one block.
pub struct ProofOfWork<'a> {
    pub block: &'a Block,
}

impl<'a> ProofOfWork<'a> {
    pub fn new(block: &'a Block) -> (r: Self)
        ensures
            r.block == block,
    {
        ProofOfWork { block }
    }

    /// The header bytes for a candidate nonce.
    pub fn prepare_data(&self, nonce: i64) -> (r: Vec<u8>)
        ensures
            r@ == header_of(self.block@, nonce),
    {
        let mut data: Vec<u8> = self.block.prev_block_hash.clone();
        let summary = self.block.hash_transactions();
        let mut i: usize = 0;
        let ghost start = data@;
        while i < summary.len()
            invariant
                i <= summary@.len(),
                data@ == start + summary@.subrange(0, i as int),
            decreases summary@.len() - i,
        {
            data.push(summary[i]);
            i = i + 1;
            assert(data@ =~= start + summary@.subrange(0, i as int));
        }
        assert(summary@.subrange(0, i as int) =~= summary@);
        push_be64(&mut data, self.block.timestamp);
        push_be64(&mut data, TARGET_BITS as i64 as u64);
        push_be64(&mut data, nonce as u64);
        data
    }

    /// Searches the nonces from zero upward for the first whose header hash
    /// meets the target; `None` when the non-negative `i64` range runs out.
    pub fn run(&self) -> (r: Option<(i64, Vec<u8>)>)
        ensures
            r matches Some((nonce, hash)) ==> {
                &&& 0 <= nonce < i64::MAX
                &&& hash@ == hash_with_nonce(self.block@, nonce)
                &&& hash@.len() == 32
                &&& meets_target(hash@)
                &&& forall|m: i64|
                    0 <= m < nonce ==> !meets_target(#[trigger] hash_with_nonce(self.block@, m))
            },
            r is None ==> no_nonce_found(
                self.block@.prev_block_hash,
                self.block@.transactions,
                self.block@.timestamp,
            ),
    {
        let mut nonce: i64 = 0;
        while nonce < i64::MAX
            invariant
                0 <= nonce,
                forall|m: i64|
                    0 <= m < nonce ==> !meets_target(#[trigger] hash_with_nonce(self.block@, m)),
            decreases i64::MAX - nonce,
        {
            let data = self.prepare_data(nonce);
            let hash = sha256(&data);
            if hash_meets_target(&hash) {
                return Some((nonce, hash));
            }
            nonce = nonce + 1;
        }
        assert forall|m: i64| 0 <= m < i64::MAX implies !meets_target(
            #[trigger] sha256_of(
                header_for(
                    self.block@.prev_block_hash,
                    self.block@.transactions,
                    self.block@.timestamp,
                    m,
                ),
            ),
        ) by {
            assert(hash_with_nonce(self.block@, m) == sha256_of(
                header_for(
                    self.block@.prev_block_hash,
                    self.block@.transactions,
                    self.block@.timestamp,
                    m,
                ),
            ));
        }
        None
    }

    /// Recomputes the hash for the block's own nonce and checks it against the
    /// target, without searching.
    pub fn validate(&self) -> (r: bool)
        ensures
            r == pow_valid(self.block@),
    {
        let data = self.prepare_data(self.block.nonce);
        let hash = sha256(&data);
        hash_meets_target(&hash)
    }
}

/// Every block that mining produced passes validation.
pub proof fn lemma_mined_block_validates(b: BlockModel)
    requires
        block_is_mined(b),
    ensures
        pow_valid(b),
{
}

/// What mining one block on a tip does: the block's parent is the old tip, it
/// is mined, and the new tip is its hash.
pub open spec fn mined_on(old_tip: Seq<u8>, b: BlockModel, new_tip: Seq<u8>) -> bool {
    &&& b.prev_block_hash == old_tip
    &&& block_is_mined(b)
    &&& new_tip == b.hash
}

/// Two blocks mined one after the other are linked: the parent hash of the
/// second is the hash of the first.
pub proof fn lemma_consecutive_blocks_linked(
    tip0: Seq<u8>,
    b1: BlockModel,
    tip1: Seq<u8>,
    b2: BlockModel,
    tip2: Seq<u8>,
)
    requires
        mined_on(tip0, b1, tip1),
        mined_on(tip1, b2, tip2),
    ensures
        b2.prev_block_hash == b1.hash,
{
}

/// Every mined hash, read as a big-endian unsigned integer, is below
/// two to the power of the hash width less the difficulty bits.
pub proof fn lemma_mined_hash_below_target(b: BlockModel)
    requires
        block_is_mined(b),
    ensures
        be_value(b.hash) < pow2((256 - TARGET_BITS) as nat),
{
}

} // verus!
