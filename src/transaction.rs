use vstd::prelude::*;

use crate::codec::{enc_tx_body, write_tx_body};
use crate::block::Block;
use crate::blockchain::LedgerError;
use crate::digest::{sha256, sha256_of};
use crate::utxo::{
    chain_unspent, find_spendable_outputs, prefix_sum, selected_count, UnspentOutput, UtxoModel,
};

verus! {

/// Value minted to the miner by a coinbase transaction.
pub const SUBSIDY: i32 = 10;

/// An amount of value locked to an owner token.
#[derive(Clone, Debug)]
pub struct TXOutput {
    pub value: i32,
    pub script_pub_key: String,
}

/// A reference to an earlier output, with the token that unlocks it.
#[derive(Clone, Debug)]
pub struct TXInput {
    pub txid: Vec<u8>,
    pub vout: i32,
    pub script_sig: String,
}

/// A transfer of value: the outputs it consumes and the outputs it creates.
#[derive(Clone, Debug)]
pub struct Transaction {
    pub id: Vec<u8>,
    pub vin: Vec<TXInput>,
    pub vout: Vec<TXOutput>,
}

pub ghost struct OutputModel {
    pub value: i32,
    pub owner: Seq<char>,
}

pub ghost struct InputModel {
    pub txid: Seq<u8>,
    pub vout: i32,
    pub owner: Seq<char>,
}

pub ghost struct TxModel {
    pub id: Seq<u8>,
    pub vin: Seq<InputModel>,
    pub vout: Seq<OutputModel>,
}

impl View for TXOutput {
    type V = OutputModel;

    open spec fn view(&self) -> OutputModel {
        OutputModel { value: self.value, owner: self.script_pub_key@ }
    }
}

impl View for TXInput {
    type V = InputModel;

    open spec fn view(&self) -> InputModel {
        InputModel { txid: self.txid@, vout: self.vout, owner: self.script_sig@ }
    }
}

impl View for Transaction {
    type V = TxModel;

    open spec fn view(&self) -> TxModel {
        TxModel {
            id: self.id@,
            vin: self.vin@.map_values(|i: TXInput| i@),
            vout: self.vout@.map_values(|o: TXOutput| o@),
        }
    }
}

/// A coinbase transaction has a single input that references no earlier output.
pub open spec fn is_coinbase_model(t: TxModel) -> bool {
    t.vin.len() == 1 && t.vin[0].txid.len() == 0 && t.vin[0].vout == -1
}

/// The id of a transaction: the digest of its encoding with an empty id.
pub open spec fn tx_id_of(vin: Seq<InputModel>, vout: Seq<OutputModel>) -> Seq<u8> {
    sha256_of(enc_tx_body(Seq::empty(), vin, vout))
}

/// The unlocking token used by a coinbase input.
pub open spec fn coinbase_sig(to: Seq<char>, data: Seq<char>) -> Seq<char> {
    if data.len() == 0 {
        "Reward to '"@ + to + "'"@
    } else {
        data
    }
}

/// The inputs of a transfer: one per output taken, each authorised by `from`.
pub open spec fn transfer_inputs(taken: Seq<UtxoModel>, from: Seq<char>) -> Seq<InputModel> {
    taken.map_values(|u: UtxoModel| InputModel { txid: u.txid, vout: u.index, owner: from })
}

/// The outputs of a transfer: `amount` to `to`, and the change back to `from`
/// when the outputs taken exceed it.
pub open spec fn transfer_outputs(from: Seq<char>, to: Seq<char>, amount: i32, total: int) -> Seq<
    OutputModel,
> {
    if total > amount {
        seq![
            OutputModel { value: amount, owner: to },
            OutputModel { value: (total - amount) as i32, owner: from },
        ]
    } else {
        seq![OutputModel { value: amount, owner: to }]
    }
}

/// The coinbase transaction that pays the subsidy to `to`, its input carrying
/// `data` (or a reward note when `data` is empty).
pub open spec fn coinbase_model(to: Seq<char>, data: Seq<char>) -> TxModel {
    let vin = seq![InputModel { txid: Seq::empty(), vout: -1i32, owner: coinbase_sig(to, data) }];
    let vout = seq![OutputModel { value: SUBSIDY, owner: to }];
    TxModel { id: tx_id_of(vin, vout), vin, vout }
}

/// Compares two strings character by character.
pub fn str_eq(a: &str, b: &str) -> (r: bool)
    ensures
        r == (a@ == b@),
{
    let ab = a.as_bytes();
    let bb = b.as_bytes();
    proof {
        vstd::utf8::encode_utf8_decode_utf8(a@);
        vstd::utf8::encode_utf8_decode_utf8(b@);
    }
    if ab.len() != bb.len() {
        return false;
    }
    let mut i: usize = 0;
    while i < ab.len()
        invariant
            ab@.len() == bb@.len(),
            ab@ == vstd::utf8::encode_utf8(a@),
            bb@ == vstd::utf8::encode_utf8(b@),
            i <= ab@.len(),
            forall|k: int| 0 <= k < i ==> ab@[k] == bb@[k],
        decreases ab@.len() - i,
    {
        if ab[i] != bb[i] {
            return false;
        }
        i = i + 1;
    }
    assert(ab@ =~= bb@);
    true
}

impl TXInput {
    /// Whether this input was authorised with the given token.
    pub fn can_unlock_output_with(&self, unlocking_data: &str) -> (r: bool)
        ensures
            r == (self.script_sig@ == unlocking_data@),
    {
        str_eq(self.script_sig.as_str(), unlocking_data)
    }
}

impl TXOutput {
    /// Whether this output is locked to the given token.
    pub fn can_be_unlocked_with(&self, unlocking_data: &str) -> (r: bool)
        ensures
            r == (self.script_pub_key@ == unlocking_data@),
    {
        str_eq(self.script_pub_key.as_str(), unlocking_data)
    }
}

impl Transaction {
    /// Builds a transaction and sets its id to the digest of its encoding with an
    /// empty id.
    pub fn new(vin: Vec<TXInput>, vout: Vec<TXOutput>) -> (r: Transaction)
        ensures
            r.vin == vin,
            r.vout == vout,
            r@.vin == vin@.map_values(|i: TXInput| i@),
            r@.vout == vout@.map_values(|o: TXOutput| o@),
            r@.id == tx_id_of(r@.vin, r@.vout),
            r@.id.len() == 32,
    {
        let mut tx = Transaction { id: Vec::new(), vin, vout };
        let mut encoded: Vec<u8> = Vec::new();
        write_tx_body(&mut encoded, &tx);
        assert(encoded@ =~= enc_tx_body(Seq::empty(), tx@.vin, tx@.vout));
        tx.id = sha256(&encoded);
        tx
    }

    /// The transaction that mints the block subsidy to `to`. Its input carries
    /// `data`, or a reward note naming `to` when `data` is empty.
    pub fn new_coinbase_tx(to: &str, data: &str) -> (r: Transaction)
        ensures
            is_coinbase_model(r@),
            r@.vin.len() == 1,
            r@.vout.len() == 1,
            r@.vin[0].owner == coinbase_sig(to@, data@),
            r@.vout[0] == (OutputModel { value: SUBSIDY, owner: to@ }),
            r@.id == tx_id_of(r@.vin, r@.vout),
            r@ == coinbase_model(to@, data@),
            r@.id.len() == 32,
    {
        let script_sig: String = if data.is_empty() {
            let head: String = "Reward to '".to_owned();
            let with_to: String = head.concat(to);
            proof {
                reveal_strlit("Reward to '");
            }
            with_to.concat("'")
        } else {
            data.to_owned()
        };
        proof {
            reveal_strlit("'");
            vstd::utf8::encode_utf8_decode_utf8(data@);
        }
        let txin = TXInput { txid: Vec::new(), vout: -1, script_sig };
        let txout = TXOutput { value: SUBSIDY, script_pub_key: to.to_owned() };
        let ghost im = txin@;
        let ghost om = txout@;
        let tx = Transaction::new(vec![txin], vec![txout]);
        proof {
            assert(im.txid =~= Seq::<u8>::empty());
            assert(tx@.vin =~= seq![im]);
            assert(tx@.vout =~= seq![om]);
        }
        tx
    }

    /// Whether this transaction has the coinbase shape.
    pub fn is_coinbase(&self) -> (r: bool)
        ensures
            r == is_coinbase_model(self@),
    {
        self.vin.len() == 1 && self.vin[0].txid.len() == 0 && self.vin[0].vout == -1
    }

    /// A transfer of `amount` from `from` to `to`, spending the outputs that
    /// `find_spendable_outputs` takes on `chain` (newest block first). Fails with
    /// `InsufficientFunds`, and builds nothing, when they do not cover `amount`.
    pub fn new_otxo_tx(from: &str, to: &str, amount: i32, chain: &Vec<Block>) -> (r: Result<
        Transaction,
        LedgerError,
    >)
        ensures
            ({
                let us = chain_unspent(chain@, from@);
                let c = selected_count(us, amount as int);
                let total = prefix_sum(us, c);
                &&& total < amount ==> r == Err::<Transaction, LedgerError>(
                    LedgerError::InsufficientFunds,
                )
                &&& total >= amount ==> (r matches Ok(t) && t@.vin == transfer_inputs(
                    us.subrange(0, c),
                    from@,
                ) && t@.vout == transfer_outputs(from@, to@, amount, total) && t@.id == tx_id_of(
                    t@.vin,
                    t@.vout,
                ))
            }),
    {
        let (acc, taken) = find_spendable_outputs(chain, from, amount);
        if acc < amount as i128 {
            return Err(LedgerError::InsufficientFunds);
        }
        let ghost sel = taken@.map_values(|u: UnspentOutput| u@);
        let mut inputs: Vec<TXInput> = Vec::new();
        let mut k: usize = 0;
        while k < taken.len()
            invariant
                k <= taken@.len(),
                sel == taken@.map_values(|u: UnspentOutput| u@),
                inputs@.map_values(|i: TXInput| i@) == transfer_inputs(
                    sel.subrange(0, k as int),
                    from@,
                ),
            decreases taken@.len() - k,
        {
            let ghost prev = inputs@;
            let input = TXInput {
                txid: taken[k].txid.clone(),
                vout: taken[k].index,
                script_sig: from.to_owned(),
            };
            inputs.push(input);
            proof {
                let f = |i: TXInput| i@;
                assert(inputs@.map_values(f) =~= prev.map_values(f).push(input@));
            }
            k = k + 1;
            assert(inputs@.map_values(|i: TXInput| i@) =~= transfer_inputs(
                sel.subrange(0, k as int),
                from@,
            ));
        }
        assert(sel.subrange(0, k as int) =~= sel);
        let mut outputs: Vec<TXOutput> = Vec::new();
        outputs.push(TXOutput { value: amount, script_pub_key: to.to_owned() });
        if acc > amount as i128 {
            outputs.push(TXOutput { value: (acc - amount as i128) as i32, script_pub_key: from.to_owned() });
        }
        let ghost total = acc as int;
        assert(outputs@.map_values(|o: TXOutput| o@) =~= transfer_outputs(from@, to@, amount, total));
        Ok(Transaction::new(inputs, outputs))
    }
}

} // verus!
