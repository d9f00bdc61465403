use vstd::prelude::*;

use crate::block::{Block, BlockModel};
use crate::transaction::{
    is_coinbase_model, InputModel, OutputModel, TXInput, TXOutput, Transaction,
    TxModel,
};

verus! {

/// An output that its owner can still spend, with where it stands.
pub struct UnspentOutput {
    pub txid: Vec<u8>,
    pub index: i32,
    pub output: TXOutput,
}

pub ghost struct UtxoModel {
    pub txid: Seq<u8>,
    pub index: i32,
    pub output: OutputModel,
}

impl View for UnspentOutput {
    type V = UtxoModel;

    open spec fn view(&self) -> UtxoModel {
        UtxoModel { txid: self.txid@, index: self.index, output: self.output@ }
    }
}

/// The transactions of a chain in the order of a scan from the newest block
/// (first in `blocks`) to the oldest.
pub open spec fn chain_txs(blocks: Seq<BlockModel>) -> Seq<TxModel>
    decreases blocks.len(),
{
    if blocks.len() == 0 {
        Seq::empty()
    } else {
        chain_txs(blocks.drop_last()) + blocks.last().transactions
    }
}

/// The outputs that the owner's inputs in `vin` claim.
pub open spec fn claimed_by(vin: Seq<InputModel>, owner: Seq<char>) -> Set<(Seq<u8>, i32)>
    decreases vin.len(),
{
    if vin.len() == 0 {
        Set::empty()
    } else {
        let rest = claimed_by(vin.drop_last(), owner);
        if vin.last().owner == owner {
            rest.insert((vin.last().txid, vin.last().vout))
        } else {
            rest
        }
    }
}

/// The outputs spent by the owner's inputs in a transaction; a coinbase input
/// spends nothing.
pub open spec fn spent_in(t: TxModel, owner: Seq<char>) -> Set<(Seq<u8>, i32)> {
    if is_coinbase_model(t) {
        Set::empty()
    } else {
        claimed_by(t.vin, owner)
    }
}

/// The outputs spent by the owner in the transactions scanned so far.
pub open spec fn spent_before(txs: Seq<TxModel>, owner: Seq<char>) -> Set<(Seq<u8>, i32)>
    decreases txs.len(),
{
    if txs.len() == 0 {
        Set::empty()
    } else {
        spent_before(txs.drop_last(), owner).union(spent_in(txs.last(), owner))
    }
}

/// The owner's outputs among the first `m` outputs of `t` that are not in
/// `spent`. An output whose index does not fit an input's index field cannot be
/// referenced, so it does not count.
pub open spec fn fresh_outputs(t: TxModel, spent: Set<(Seq<u8>, i32)>, owner: Seq<char>, m: int) -> Seq<
    UtxoModel,
>
    decreases m,
{
    if m <= 0 {
        Seq::empty()
    } else {
        let rest = fresh_outputs(t, spent, owner, m - 1);
        let i = m - 1;
        if i <= i32::MAX && t.vout[i].owner == owner && !spent.contains((t.id, i as i32)) {
            rest.push(UtxoModel { txid: t.id, index: i as i32, output: t.vout[i] })
        } else {
            rest
        }
    }
}

/// The owner's unspent outputs in a scan over `txs`: each transaction's outputs
/// are checked against what the transactions before it in the scan spent.
pub open spec fn unspent_outputs(txs: Seq<TxModel>, owner: Seq<char>) -> Seq<UtxoModel>
    decreases txs.len(),
{
    if txs.len() == 0 {
        Seq::empty()
    } else {
        let prev = txs.drop_last();
        unspent_outputs(prev, owner) + fresh_outputs(
            txs.last(),
            spent_before(prev, owner),
            owner,
            txs.last().vout.len() as int,
        )
    }
}

/// The transactions of a scan over `txs` that hold at least one of the owner's
/// unspent outputs, each once, in scan order.
pub open spec fn txs_with_unspent(txs: Seq<TxModel>, owner: Seq<char>) -> Seq<TxModel>
    decreases txs.len(),
{
    if txs.len() == 0 {
        Seq::empty()
    } else {
        let prev = txs.drop_last();
        let rest = txs_with_unspent(prev, owner);
        if fresh_outputs(
            txs.last(),
            spent_before(prev, owner),
            owner,
            txs.last().vout.len() as int,
        ).len() > 0 {
            rest.push(txs.last())
        } else {
            rest
        }
    }
}

pub open spec fn blocks_view(chain: Seq<Block>) -> Seq<BlockModel> {
    chain.map_values(|b: Block| b@)
}

/// The owner's unspent outputs on a chain given newest block first.
pub open spec fn chain_unspent(chain: Seq<Block>, owner: Seq<char>) -> Seq<UtxoModel> {
    unspent_outputs(chain_txs(blocks_view(chain)), owner)
}

/// The sum of the values of the first `n` outputs.
pub open spec fn prefix_sum(us: Seq<UtxoModel>, n: int) -> int
    decreases n,
{
    if n <= 0 || n > us.len() {
        0
    } else {
        prefix_sum(us, n - 1) + us[n - 1].output.value
    }
}

/// How many outputs, taken in order from the `n`-th on, are needed before the
/// running total reaches `amount` (all of them when it never does).
pub open spec fn selected_from(us: Seq<UtxoModel>, amount: int, n: int) -> int
    decreases us.len() - n,
{
    if n >= us.len() || n < 0 {
        us.len() as int
    } else if prefix_sum(us, n) >= amount {
        n
    } else {
        selected_from(us, amount, n + 1)
    }
}

pub open spec fn selected_count(us: Seq<UtxoModel>, amount: int) -> int {
    selected_from(us, amount, 0)
}

pub open spec fn spent_view(spent: Seq<(Vec<u8>, i32)>) -> Set<(Seq<u8>, i32)> {
    Set::new(|p: (Seq<u8>, i32)| exists|k: int| 0 <= k < spent.len() && #[trigger] spent[k].0@ == p.0
        && spent[k].1 == p.1)
}

/// Compares two byte strings.
pub fn bytes_eq(a: &Vec<u8>, b: &Vec<u8>) -> (r: bool)
    ensures
        r == (a@ == b@),
{
    if a.len() != b.len() {
        return false;
    }
    let mut i: usize = 0;
    while i < a.len()
        invariant
            a@.len() == b@.len(),
            i <= a@.len(),
            forall|k: int| 0 <= k < i ==> a@[k] == b@[k],
        decreases a@.len() - i,
    {
        if a[i] != b[i] {
            return false;
        }
        i = i + 1;
    }
    assert(a@ =~= b@);
    true
}

fn is_spent(spent: &Vec<(Vec<u8>, i32)>, txid: &Vec<u8>, index: i32) -> (r: bool)
    ensures
        r == spent_view(spent@).contains((txid@, index)),
{
    let mut k: usize = 0;
    while k < spent.len()
        invariant
            k <= spent@.len(),
            forall|j: int| 0 <= j < k ==> !(spent@[j].0@ == txid@ && spent@[j].1 == index),
        decreases spent@.len() - k,
    {
        if spent[k].1 == index && bytes_eq(&spent[k].0, txid) {
            assert(spent@[k as int].0@ == (txid@, index).0);
            return true;
        }
        k = k + 1;
    }
    false
}

fn copy_output(o: &TXOutput) -> (r: TXOutput)
    ensures
        r@ == o@,
{
    TXOutput { value: o.value, script_pub_key: o.script_pub_key.clone() }
}

fn copy_input(i: &TXInput) -> (r: TXInput)
    ensures
        r@ == i@,
{
    TXInput { txid: i.txid.clone(), vout: i.vout, script_sig: i.script_sig.clone() }
}

fn copy_tx(t: &Transaction) -> (r: Transaction)
    ensures
        r@ == t@,
{
    let mut vin: Vec<TXInput> = Vec::new();
    let mut k: usize = 0;
    while k < t.vin.len()
        invariant
            k <= t@.vin.len(),
            vin@.map_values(|i: TXInput| i@) == t@.vin.subrange(0, k as int),
        decreases t@.vin.len() - k,
    {
        let ghost prev = vin@;
        let c = copy_input(&t.vin[k]);
        vin.push(c);
        proof {
            let f = |i: TXInput| i@;
            assert(vin@.map_values(f) =~= prev.map_values(f).push(c@));
            assert(t@.vin.subrange(0, k as int + 1) =~= t@.vin.subrange(0, k as int).push(
                t@.vin[k as int],
            ));
        }
        k = k + 1;
    }
    let mut vout: Vec<TXOutput> = Vec::new();
    let mut k: usize = 0;
    while k < t.vout.len()
        invariant
            k <= t@.vout.len(),
            vin@.map_values(|i: TXInput| i@) == t@.vin,
            vout@.map_values(|o: TXOutput| o@) == t@.vout.subrange(0, k as int),
        decreases t@.vout.len() - k,
    {
        let ghost prev = vout@;
        let c = copy_output(&t.vout[k]);
        vout.push(c);
        proof {
            let f = |o: TXOutput| o@;
            assert(vout@.map_values(f) =~= prev.map_values(f).push(c@));
            assert(t@.vout.subrange(0, k as int + 1) =~= t@.vout.subrange(0, k as int).push(
                t@.vout[k as int],
            ));
        }
        k = k + 1;
    }
    assert(t@.vin.subrange(0, t@.vin.len() as int) =~= t@.vin);
    assert(t@.vout.subrange(0, t@.vout.len() as int) =~= t@.vout);
    let r = Transaction { id: t.id.clone(), vin, vout };
    assert(r@.vin =~= t@.vin);
    assert(r@.vout =~= t@.vout);
    r
}

/// Scans one transaction: records the owner's outputs that are not yet spent,
/// then marks what its inputs spend.
fn scan_transaction(
    tx: &Transaction,
    address: &str,
    found: &mut Vec<UnspentOutput>,
    spent: &mut Vec<(Vec<u8>, i32)>,
)
    ensures
        final(found)@.map_values(|u: UnspentOutput| u@) == old(found)@.map_values(
            |u: UnspentOutput| u@,
        ) + fresh_outputs(tx@, spent_view(old(spent)@), address@, tx@.vout.len() as int),
        spent_view(final(spent)@) == spent_view(old(spent)@).union(spent_in(tx@, address@)),
{
    let ghost spent0 = spent_view(spent@);
    let ghost found0 = found@.map_values(|u: UnspentOutput| u@);
    let mut o: usize = 0;
    while o < tx.vout.len()
        invariant
            o <= tx@.vout.len(),
            spent_view(spent@) == spent0,
            found@.map_values(|u: UnspentOutput| u@) == found0 + fresh_outputs(
                tx@,
                spent0,
                address@,
                o as int,
            ),
        decreases tx@.vout.len() - o,
    {
        let out = &tx.vout[o];
        let ghost prev_found = found@;
        assert(tx@.vout[o as int] == out@);
        let take = o <= i32::MAX as usize && out.can_be_unlocked_with(address) && !is_spent(
            spent,
            &tx.id,
            o as i32,
        );
        proof {
            reveal_with_fuel(fresh_outputs, 2);
        }
        if take {
            let u = UnspentOutput { txid: tx.id.clone(), index: o as i32, output: copy_output(out) };
            assert(u@ == UtxoModel { txid: tx@.id, index: o as i32, output: tx@.vout[o as int] });
            found.push(u);
            assert(found@.map_values(|u: UnspentOutput| u@) =~= prev_found.map_values(
                |u: UnspentOutput| u@,
            ).push(u@));
        }
        o = o + 1;
        assert(found@.map_values(|u: UnspentOutput| u@) =~= found0 + fresh_outputs(
            tx@,
            spent0,
            address@,
            o as int,
        ));
    }
    if tx.is_coinbase() {
        assert(spent_view(spent@) =~= spent0.union(spent_in(tx@, address@)));
        return;
    }
    let mut k: usize = 0;
    while k < tx.vin.len()
        invariant
            !is_coinbase_model(tx@),
            k <= tx@.vin.len(),
            spent_view(spent@) == spent0.union(claimed_by(tx@.vin.subrange(0, k as int), address@)),
        decreases tx@.vin.len() - k,
    {
        let input = &tx.vin[k];
        let ghost before = spent@;
        proof {
            assert(tx@.vin.subrange(0, k as int + 1).drop_last() =~= tx@.vin.subrange(0, k as int));
        }
        if input.can_unlock_output_with(address) {
            spent.push((input.txid.clone(), input.vout));
            proof {
                let p = (input.txid@, input.vout);
                assert(spent_view(spent@) =~= spent_view(before).insert(p)) by {
                    assert(spent@[before.len() as int].0@ == p.0);
                    assert forall|q: (Seq<u8>, i32)| spent_view(before).contains(q) implies spent_view(
                        spent@,
                    ).contains(q) by {
                        let j = choose|j: int|
                            0 <= j < before.len() && #[trigger] before[j].0@ == q.0 && before[j].1
                                == q.1;
                        assert(spent@[j].0@ == q.0);
                    }
                }
            }
        }
        k = k + 1;
        assert(spent_view(spent@) =~= spent0.union(
            claimed_by(tx@.vin.subrange(0, k as int), address@),
        ));
    }
    assert(tx@.vin.subrange(0, k as int) =~= tx@.vin);
}

/// One backward pass over a chain given newest block first: the owner's unspent
/// outputs, and the transactions that hold them. A spending input is never
/// mined before the output it spends, so each input is seen no later than its
/// output.
fn scan_chain(chain: &Vec<Block>, address: &str) -> (r: (Vec<UnspentOutput>, Vec<Transaction>))
    ensures
        r.0@.map_values(|u: UnspentOutput| u@) == chain_unspent(chain@, address@),
        r.1@.map_values(|t: Transaction| t@) == txs_with_unspent(
            chain_txs(blocks_view(chain@)),
            address@,
        ),
{
    let mut found: Vec<UnspentOutput> = Vec::new();
    let mut holders: Vec<Transaction> = Vec::new();
    assert(holders@.map_values(|t: Transaction| t@) =~= Seq::<TxModel>::empty());
    let mut spent: Vec<(Vec<u8>, i32)> = Vec::new();
    let ghost blocks = blocks_view(chain@);
    let mut b: usize = 0;
    assert(found@.map_values(|u: UnspentOutput| u@) =~= Seq::<UtxoModel>::empty());
    assert(spent_view(spent@) =~= Set::<(Seq<u8>, i32)>::empty());
    while b < chain.len()
        invariant
            b <= chain@.len(),
            blocks == blocks_view(chain@),
            found@.map_values(|u: UnspentOutput| u@) == unspent_outputs(
                chain_txs(blocks.subrange(0, b as int)),
                address@,
            ),
            spent_view(spent@) == spent_before(chain_txs(blocks.subrange(0, b as int)), address@),
            holders@.map_values(|t: Transaction| t@) == txs_with_unspent(
                chain_txs(blocks.subrange(0, b as int)),
                address@,
            ),
        decreases chain@.len() - b,
    {
        let block = &chain[b];
        let ghost base = chain_txs(blocks.subrange(0, b as int));
        let ghost txs = block@.transactions;
        let mut j: usize = 0;
        assert(base + txs.subrange(0, 0) =~= base);
        while j < block.transactions.len()
            invariant
                j <= txs.len(),
                txs == block@.transactions,
                found@.map_values(|u: UnspentOutput| u@) == unspent_outputs(
                    base + txs.subrange(0, j as int),
                    address@,
                ),
                spent_view(spent@) == spent_before(base + txs.subrange(0, j as int), address@),
                holders@.map_values(|t: Transaction| t@) == txs_with_unspent(
                    base + txs.subrange(0, j as int),
                    address@,
                ),
            decreases txs.len() - j,
        {
            let tx = &block.transactions[j];
            proof {
                let done = base + txs.subrange(0, j as int + 1);
                assert(done.drop_last() =~= base + txs.subrange(0, j as int));
                assert(done.last() == tx@);
            }
            let before = found.len();
            let ghost found_before = found@;
            scan_transaction(tx, address, &mut found, &mut spent);
            proof {
                let f = |u: UnspentOutput| u@;
                assert(found@.map_values(f).len() == found@.len());
                assert(found_before.map_values(f).len() == found_before.len());
            }
            if found.len() > before {
                let ghost prev = holders@;
                let c = copy_tx(tx);
                holders.push(c);
                proof {
                    let f = |t: Transaction| t@;
                    assert(holders@.map_values(f) =~= prev.map_values(f).push(c@));
                }
            }
            j = j + 1;
        }
        proof {
            let next = blocks.subrange(0, b as int + 1);
            assert(next.drop_last() =~= blocks.subrange(0, b as int));
            assert(next.last() == block@);
            assert(base + txs.subrange(0, j as int) =~= chain_txs(next));
        }
        b = b + 1;
    }
    assert(blocks.subrange(0, b as int) =~= blocks);
    (found, holders)
}

/// The owner's unspent outputs on a chain given newest block first.
pub fn find_unspent_outputs(chain: &Vec<Block>, address: &str) -> (r: Vec<UnspentOutput>)
    ensures
        r@.map_values(|u: UnspentOutput| u@) == chain_unspent(chain@, address@),
{
    scan_chain(chain, address).0
}

/// The transactions on a chain (newest block first) that hold at least one of
/// the owner's unspent outputs, each once, in scan order.
pub fn find_unspent_transactions(chain: &Vec<Block>, address: &str) -> (r: Vec<Transaction>)
    ensures
        r@.map_values(|t: Transaction| t@) == txs_with_unspent(
            chain_txs(blocks_view(chain@)),
            address@,
        ),
{
    scan_chain(chain, address).1
}

/// The owner's unspent outputs themselves.
pub fn find_utxo(chain: &Vec<Block>, address: &str) -> (r: Vec<TXOutput>)
    ensures
        r@.map_values(|o: TXOutput| o@) == chain_unspent(chain@, address@).map_values(
            |u: UtxoModel| u.output,
        ),
{
    let unspent = find_unspent_outputs(chain, address);
    let mut r: Vec<TXOutput> = Vec::new();
    let mut i: usize = 0;
    while i < unspent.len()
        invariant
            i <= unspent@.len(),
            unspent@.map_values(|u: UnspentOutput| u@) == chain_unspent(chain@, address@),
            r@.map_values(|o: TXOutput| o@) == unspent@.subrange(0, i as int).map_values(
                |u: UnspentOutput| u@.output,
            ),
        decreases unspent@.len() - i,
    {
        let ghost prev = r@;
        let o = copy_output(&unspent[i].output);
        r.push(o);
        proof {
            let f = |o: TXOutput| o@;
            let g = |u: UnspentOutput| u@.output;
            assert(r@.map_values(f) =~= prev.map_values(f).push(o@));
            assert(unspent@.subrange(0, i as int + 1).map_values(g) =~= unspent@.subrange(
                0,
                i as int,
            ).map_values(g).push(unspent@[i as int]@.output));
        }
        i = i + 1;
        assert(r@.map_values(|o: TXOutput| o@) =~= unspent@.subrange(0, i as int).map_values(
            |u: UnspentOutput| u@.output,
        ));
    }
    assert(r@.map_values(|o: TXOutput| o@) =~= chain_unspent(chain@, address@).map_values(
        |u: UtxoModel| u.output,
    ));
    r
}

/// The sum of the values of the owner's unspent outputs.
pub fn get_balance(chain: &Vec<Block>, address: &str) -> (r: i128)
    ensures
        r == prefix_sum(chain_unspent(chain@, address@), chain_unspent(chain@, address@).len() as int),
{
    let unspent = find_unspent_outputs(chain, address);
    let ghost us = chain_unspent(chain@, address@);
    let mut total: i128 = 0;
    let mut i: usize = 0;
    while i < unspent.len()
        invariant
            i <= unspent@.len(),
            unspent@.map_values(|u: UnspentOutput| u@) == us,
            total == prefix_sum(us, i as int),
            -(i as int) * 2147483648 <= total <= (i as int) * 2147483647,
        decreases unspent@.len() - i,
    {
        assert(us[i as int] == unspent@[i as int]@);
        total = total + unspent[i].output.value as i128;
        i = i + 1;
    }
    total
}

/// Takes the owner's unspent outputs in scan order until their total reaches
/// `amount`, and returns that total with the outputs taken. Which outputs are
/// taken among several follows the scan and is not chosen to be optimal. A
/// total below `amount` means that the owner's funds do not suffice.
pub fn find_spendable_outputs(chain: &Vec<Block>, address: &str, amount: i32) -> (r: (
    i128,
    Vec<UnspentOutput>,
))
    ensures
        ({
            let us = chain_unspent(chain@, address@);
            let c = selected_count(us, amount as int);
            &&& r.1@.map_values(|u: UnspentOutput| u@) == us.subrange(0, c)
            &&& r.0 == prefix_sum(us, c)
            &&& c > 0 ==> prefix_sum(us, c - 1) < amount
        }),
{
    let unspent = find_unspent_outputs(chain, address);
    let ghost us = chain_unspent(chain@, address@);
    let mut taken: Vec<UnspentOutput> = Vec::new();
    let mut acc: i128 = 0;
    let mut i: usize = 0;
    while i < unspent.len() && acc < amount as i128
        invariant
            i <= unspent@.len(),
            unspent@.map_values(|u: UnspentOutput| u@) == us,
            acc == prefix_sum(us, i as int),
            selected_from(us, amount as int, 0) == selected_from(us, amount as int, i as int),
            i > 0 ==> prefix_sum(us, i - 1) < amount,
            -(i as int) * 2147483648 <= acc < 4294967296,
            taken@.map_values(|u: UnspentOutput| u@) == us.subrange(0, i as int),
        decreases unspent@.len() - i,
    {
        let u = &unspent[i];
        assert(us[i as int] == u@);
        acc = acc + u.output.value as i128;
        let ghost prev = taken@;
        let c = UnspentOutput { txid: u.txid.clone(), index: u.index, output: copy_output(&u.output) };
        taken.push(c);
        proof {
            let f = |u: UnspentOutput| u@;
            assert(taken@.map_values(f) =~= prev.map_values(f).push(c@));
            assert(us.subrange(0, i as int + 1) =~= us.subrange(0, i as int).push(us[i as int]));
        }
        i = i + 1;
        assert(taken@.map_values(|u: UnspentOutput| u@) =~= us.subrange(0, i as int));
    }
    (acc, taken)
}

} // verus!
