use vstd::prelude::*;

use vstd::bytes::{
    lemma_auto_spec_u32_to_from_le_bytes, lemma_auto_spec_u64_to_from_le_bytes,
    spec_u32_from_le_bytes, spec_u32_to_le_bytes, spec_u64_from_le_bytes, spec_u64_to_le_bytes,
    u32_from_le_bytes, u32_to_le_bytes, u64_from_le_bytes, u64_to_le_bytes,
};
use vstd::utf8::{decode_utf8, encode_utf8, encode_utf8_decode_utf8, encode_utf8_valid_utf8, valid_utf8};

use crate::block::{Block, BlockModel};

use crate::transaction::{InputModel, OutputModel, TXInput, TXOutput, Transaction, TxModel};

verus! {

// The storage layout: integers are little-endian, and every byte string,
// text and list is preceded by its length as eight bytes.

pub open spec fn enc_u64(x: u64) -> Seq<u8> {
    spec_u64_to_le_bytes(x)
}

pub open spec fn enc_i64(x: i64) -> Seq<u8> {
    spec_u64_to_le_bytes(x as u64)
}

pub open spec fn enc_i32(x: i32) -> Seq<u8> {
    spec_u32_to_le_bytes(x as u32)
}

pub open spec fn enc_blob(b: Seq<u8>) -> Seq<u8> {
    enc_u64(b.len() as u64) + b
}

pub open spec fn enc_str(s: Seq<char>) -> Seq<u8> {
    enc_blob(encode_utf8(s))
}

pub open spec fn enc_input(i: InputModel) -> Seq<u8> {
    enc_blob(i.txid) + enc_i32(i.vout) + enc_str(i.owner)
}

pub open spec fn enc_output(o: OutputModel) -> Seq<u8> {
    enc_i32(o.value) + enc_str(o.owner)
}

pub open spec fn enc_inputs(s: Seq<InputModel>) -> Seq<u8>
    decreases s.len(),
{
    if s.len() == 0 {
        Seq::empty()
    } else {
        enc_inputs(s.drop_last()) + enc_input(s.last())
    }
}

pub open spec fn enc_outputs(s: Seq<OutputModel>) -> Seq<u8>
    decreases s.len(),
{
    if s.len() == 0 {
        Seq::empty()
    } else {
        enc_outputs(s.drop_last()) + enc_output(s.last())
    }
}

/// The encoding of a transaction with the given id, inputs and outputs.
pub open spec fn enc_tx_body(id: Seq<u8>, vin: Seq<InputModel>, vout: Seq<OutputModel>) -> Seq<u8> {
    enc_blob(id) + enc_u64(vin.len() as u64) + enc_inputs(vin) + enc_u64(vout.len() as u64)
        + enc_outputs(vout)
}

pub open spec fn enc_tx(t: TxModel) -> Seq<u8> {
    enc_tx_body(t.id, t.vin, t.vout)
}

pub(crate) fn append_bytes(out: &mut Vec<u8>, b: &[u8])
    ensures
        final(out)@ == old(out)@ + b@,
{
    let mut i: usize = 0;
    while i < b.len()
        invariant
            i <= b@.len(),
            out@ == old(out)@ + b@.subrange(0, i as int),
        decreases b@.len() - i,
    {
        out.push(b[i]);
        i = i + 1;
        assert(out@ =~= old(out)@ + b@.subrange(0, i as int));
    }
    assert(b@.subrange(0, i as int) =~= b@);
}

pub fn write_u64(out: &mut Vec<u8>, x: u64)
    ensures
        final(out)@ == old(out)@ + enc_u64(x),
{
    let b = u64_to_le_bytes(x);
    append_bytes(out, b.as_slice());
}

pub fn write_i64(out: &mut Vec<u8>, x: i64)
    ensures
        final(out)@ == old(out)@ + enc_i64(x),
{
    write_u64(out, x as u64);
}

pub fn write_i32(out: &mut Vec<u8>, x: i32)
    ensures
        final(out)@ == old(out)@ + enc_i32(x),
{
    let b = u32_to_le_bytes(x as u32);
    append_bytes(out, b.as_slice());
}

pub fn write_blob(out: &mut Vec<u8>, b: &[u8])
    ensures
        final(out)@ == old(out)@ + enc_blob(b@),
{
    write_u64(out, b.len() as u64);
    append_bytes(out, b);
    assert(final(out)@ =~= old(out)@ + enc_blob(b@));
}

pub fn write_str(out: &mut Vec<u8>, s: &str)
    ensures
        final(out)@ == old(out)@ + enc_str(s@),
{
    write_blob(out, s.as_bytes());
}

pub fn write_input(out: &mut Vec<u8>, i: &TXInput)
    ensures
        final(out)@ == old(out)@ + enc_input(i@),
{
    write_blob(out, i.txid.as_slice());
    write_i32(out, i.vout);
    write_str(out, i.script_sig.as_str());
    assert(final(out)@ =~= old(out)@ + enc_input(i@));
}

pub fn write_output(out: &mut Vec<u8>, o: &TXOutput)
    ensures
        final(out)@ == old(out)@ + enc_output(o@),
{
    write_i32(out, o.value);
    write_str(out, o.script_pub_key.as_str());
    assert(final(out)@ =~= old(out)@ + enc_output(o@));
}

pub fn write_inputs(out: &mut Vec<u8>, s: &Vec<TXInput>)
    ensures
        final(out)@ == old(out)@ + enc_u64(s@.len() as u64) + enc_inputs(
            s@.map_values(|i: TXInput| i@),
        ),
{
    write_u64(out, s.len() as u64);
    let ghost start = out@;
    let mut k: usize = 0;
    while k < s.len()
        invariant
            k <= s@.len(),
            out@ == start + enc_inputs(s@.subrange(0, k as int).map_values(|i: TXInput| i@)),
        decreases s@.len() - k,
    {
        write_input(out, &s[k]);
        proof {
            let m = s@.subrange(0, k as int + 1).map_values(|i: TXInput| i@);
            assert(m.drop_last() =~= s@.subrange(0, k as int).map_values(|i: TXInput| i@));
        }
        k = k + 1;
        assert(out@ =~= start + enc_inputs(s@.subrange(0, k as int).map_values(|i: TXInput| i@)));
    }
    assert(s@.subrange(0, k as int) =~= s@);
    assert(final(out)@ =~= old(out)@ + enc_u64(s@.len() as u64) + enc_inputs(
        s@.map_values(|i: TXInput| i@),
    ));
}

pub fn write_outputs(out: &mut Vec<u8>, s: &Vec<TXOutput>)
    ensures
        final(out)@ == old(out)@ + enc_u64(s@.len() as u64) + enc_outputs(
            s@.map_values(|o: TXOutput| o@),
        ),
{
    write_u64(out, s.len() as u64);
    let ghost start = out@;
    let mut k: usize = 0;
    while k < s.len()
        invariant
            k <= s@.len(),
            out@ == start + enc_outputs(s@.subrange(0, k as int).map_values(|o: TXOutput| o@)),
        decreases s@.len() - k,
    {
        write_output(out, &s[k]);
        proof {
            let m = s@.subrange(0, k as int + 1).map_values(|o: TXOutput| o@);
            assert(m.drop_last() =~= s@.subrange(0, k as int).map_values(|o: TXOutput| o@));
        }
        k = k + 1;
        assert(out@ =~= start + enc_outputs(s@.subrange(0, k as int).map_values(|o: TXOutput| o@)));
    }
    assert(s@.subrange(0, k as int) =~= s@);
    assert(final(out)@ =~= old(out)@ + enc_u64(s@.len() as u64) + enc_outputs(
        s@.map_values(|o: TXOutput| o@),
    ));
}

/// Appends the encoding of a transaction.
pub fn write_tx_body(out: &mut Vec<u8>, t: &Transaction)
    ensures
        final(out)@ == old(out)@ + enc_tx(t@),
{
    write_blob(out, t.id.as_slice());
    write_inputs(out, &t.vin);
    write_outputs(out, &t.vout);
    assert(final(out)@ =~= old(out)@ + enc_tx(t@));
}


pub open spec fn enc_txs(s: Seq<TxModel>) -> Seq<u8>
    decreases s.len(),
{
    if s.len() == 0 {
        Seq::empty()
    } else {
        enc_txs(s.drop_last()) + enc_tx(s.last())
    }
}

/// The stored form of a block.
pub open spec fn enc_block(b: BlockModel) -> Seq<u8> {
    enc_u64(b.timestamp) + enc_u64(b.transactions.len() as u64) + enc_txs(b.transactions) + enc_blob(
        b.prev_block_hash,
    ) + enc_blob(b.hash) + enc_i64(b.nonce)
}

pub fn write_txs(out: &mut Vec<u8>, s: &Vec<Transaction>)
    ensures
        final(out)@ == old(out)@ + enc_u64(s@.len() as u64) + enc_txs(
            s@.map_values(|t: Transaction| t@),
        ),
{
    write_u64(out, s.len() as u64);
    let ghost start = out@;
    let mut k: usize = 0;
    while k < s.len()
        invariant
            k <= s@.len(),
            out@ == start + enc_txs(s@.subrange(0, k as int).map_values(|t: Transaction| t@)),
        decreases s@.len() - k,
    {
        write_tx_body(out, &s[k]);
        proof {
            let m = s@.subrange(0, k as int + 1).map_values(|t: Transaction| t@);
            assert(m.drop_last() =~= s@.subrange(0, k as int).map_values(|t: Transaction| t@));
        }
        k = k + 1;
        assert(out@ =~= start + enc_txs(s@.subrange(0, k as int).map_values(|t: Transaction| t@)));
    }
    assert(s@.subrange(0, k as int) =~= s@);
    assert(final(out)@ =~= old(out)@ + enc_u64(s@.len() as u64) + enc_txs(
        s@.map_values(|t: Transaction| t@),
    ));
}

/// The bytes under which a block is stored.
pub fn encode_block(b: &Block) -> (r: Vec<u8>)
    ensures
        r@ == enc_block(b@),
{
    let mut out: Vec<u8> = Vec::new();
    write_u64(&mut out, b.timestamp);
    write_txs(&mut out, &b.transactions);
    write_blob(&mut out, b.prev_block_hash.as_slice());
    write_blob(&mut out, b.hash.as_slice());
    write_i64(&mut out, b.nonce);
    assert(out@ =~= enc_block(b@));
    out
}

// Reading the stored form back. Each reader starts at a position and, when the
// bytes there are well formed, gives the value and the position after it.

pub open spec fn parse_u64(s: Seq<u8>, pos: int) -> Option<(u64, int)> {
    if 0 <= pos && pos + 8 <= s.len() {
        Some((spec_u64_from_le_bytes(s.subrange(pos, pos + 8)), pos + 8))
    } else {
        None
    }
}

pub open spec fn parse_i64(s: Seq<u8>, pos: int) -> Option<(i64, int)> {
    match parse_u64(s, pos) {
        Some((x, p)) => Some((x as i64, p)),
        None => None,
    }
}

pub open spec fn parse_i32(s: Seq<u8>, pos: int) -> Option<(i32, int)> {
    if 0 <= pos && pos + 4 <= s.len() {
        Some((spec_u32_from_le_bytes(s.subrange(pos, pos + 4)) as i32, pos + 4))
    } else {
        None
    }
}

pub open spec fn parse_blob(s: Seq<u8>, pos: int) -> Option<(Seq<u8>, int)> {
    match parse_u64(s, pos) {
        Some((n, p)) => if p + n <= s.len() {
            Some((s.subrange(p, p + n), p + n))
        } else {
            None
        },
        None => None,
    }
}

pub open spec fn parse_str(s: Seq<u8>, pos: int) -> Option<(Seq<char>, int)> {
    match parse_blob(s, pos) {
        Some((b, p)) => if valid_utf8(b) {
            Some((decode_utf8(b), p))
        } else {
            None
        },
        None => None,
    }
}

pub open spec fn parse_input(s: Seq<u8>, pos: int) -> Option<(InputModel, int)> {
    match parse_blob(s, pos) {
        Some((id, pos1)) => match parse_i32(s, pos1) {
            Some((v, pos2)) => match parse_str(s, pos2) {
                Some((o, pos3)) => Some((InputModel { txid: id, vout: v, owner: o }, pos3)),
                None => None,
            },
            None => None,
        },
        None => None,
    }
}

pub open spec fn parse_output(s: Seq<u8>, pos: int) -> Option<(OutputModel, int)> {
    match parse_i32(s, pos) {
        Some((v, pos1)) => match parse_str(s, pos1) {
            Some((o, pos2)) => Some((OutputModel { value: v, owner: o }, pos2)),
            None => None,
        },
        None => None,
    }
}

pub open spec fn parse_inputs(s: Seq<u8>, pos: int, n: nat) -> Option<(Seq<InputModel>, int)>
    decreases n,
{
    if n == 0 {
        Some((Seq::empty(), pos))
    } else {
        match parse_inputs(s, pos, (n - 1) as nat) {
            Some((xs, p)) => match parse_input(s, p) {
                Some((x, q)) => Some((xs.push(x), q)),
                None => None,
            },
            None => None,
        }
    }
}

pub open spec fn parse_outputs(s: Seq<u8>, pos: int, n: nat) -> Option<(Seq<OutputModel>, int)>
    decreases n,
{
    if n == 0 {
        Some((Seq::empty(), pos))
    } else {
        match parse_outputs(s, pos, (n - 1) as nat) {
            Some((xs, p)) => match parse_output(s, p) {
                Some((x, q)) => Some((xs.push(x), q)),
                None => None,
            },
            None => None,
        }
    }
}

pub open spec fn parse_tx(s: Seq<u8>, pos: int) -> Option<(TxModel, int)> {
    match parse_blob(s, pos) {
        Some((id, pos1)) => match parse_u64(s, pos1) {
            Some((n, pos2)) => match parse_inputs(s, pos2, n as nat) {
                Some((vin, pos3)) => match parse_u64(s, pos3) {
                    Some((m, pos4)) => match parse_outputs(s, pos4, m as nat) {
                        Some((vout, pos5)) => Some((TxModel { id, vin, vout }, pos5)),
                        None => None,
                    },
                    None => None,
                },
                None => None,
            },
            None => None,
        },
        None => None,
    }
}

pub open spec fn parse_txs(s: Seq<u8>, pos: int, n: nat) -> Option<(Seq<TxModel>, int)>
    decreases n,
{
    if n == 0 {
        Some((Seq::empty(), pos))
    } else {
        match parse_txs(s, pos, (n - 1) as nat) {
            Some((xs, p)) => match parse_tx(s, p) {
                Some((x, q)) => Some((xs.push(x), q)),
                None => None,
            },
            None => None,
        }
    }
}

/// The block stored in `s`, when `s` is exactly the stored form of one.
pub open spec fn parse_block(s: Seq<u8>) -> Option<BlockModel> {
    match parse_u64(s, 0) {
        Some((ts, pos1)) => match parse_u64(s, pos1) {
            Some((n, pos2)) => match parse_txs(s, pos2, n as nat) {
                Some((txs, pos3)) => match parse_blob(s, pos3) {
                    Some((prev, pos4)) => match parse_blob(s, pos4) {
                        Some((hash, pos5)) => match parse_i64(s, pos5) {
                            Some((nonce, pos6)) => if pos6 == s.len() {
                                Some(
                                    BlockModel {
                                        timestamp: ts,
                                        transactions: txs,
                                        prev_block_hash: prev,
                                        hash,
                                        nonce,
                                    },
                                )
                            } else {
                                None
                            },
                            None => None,
                        },
                        None => None,
                    },
                    None => None,
                },
                None => None,
            },
            None => None,
        },
        None => None,
    }
}


// Every length in a value must fit the eight-byte length field; this holds of
// every value held in memory.

pub open spec fn str_fits(c: Seq<char>) -> bool {
    encode_utf8(c).len() <= u64::MAX
}

pub open spec fn input_fits(i: InputModel) -> bool {
    i.txid.len() <= u64::MAX && str_fits(i.owner)
}

pub open spec fn output_fits(o: OutputModel) -> bool {
    str_fits(o.owner)
}

pub open spec fn tx_fits(t: TxModel) -> bool {
    &&& t.id.len() <= u64::MAX
    &&& t.vin.len() <= u64::MAX
    &&& t.vout.len() <= u64::MAX
    &&& forall|k: int| 0 <= k < t.vin.len() ==> input_fits(#[trigger] t.vin[k])
    &&& forall|k: int| 0 <= k < t.vout.len() ==> output_fits(#[trigger] t.vout[k])
}

pub open spec fn block_fits(b: BlockModel) -> bool {
    &&& b.transactions.len() <= u64::MAX
    &&& forall|k: int| 0 <= k < b.transactions.len() ==> tx_fits(#[trigger] b.transactions[k])
    &&& b.prev_block_hash.len() <= u64::MAX
    &&& b.hash.len() <= u64::MAX
}

/// `x` stands in `s` at `pos`.
pub open spec fn at(s: Seq<u8>, pos: int, x: Seq<u8>) -> bool {
    0 <= pos && pos + x.len() <= s.len() && s.subrange(pos, pos + x.len()) == x
}

proof fn lemma_at_split(s: Seq<u8>, pos: int, a: Seq<u8>, b: Seq<u8>)
    requires
        at(s, pos, a + b),
    ensures
        at(s, pos, a),
        at(s, pos + a.len(), b),
{
    assert forall|i: int| 0 <= i < a.len() + b.len() implies s[pos + i] == (a + b)[i] by {
        assert(s.subrange(pos, pos + a.len() + b.len())[i] == (a + b)[i]);
    }
    assert(s.subrange(pos, pos + a.len()) =~= a);
    assert forall|i: int| 0 <= i < b.len() implies s[pos + a.len() + i] == b[i] by {
        assert((a + b)[a.len() + i] == b[i]);
    }
    assert(s.subrange(pos + a.len(), pos + a.len() + b.len()) =~= b);
}

proof fn lemma_rt_u64(s: Seq<u8>, pos: int, x: u64)
    requires
        at(s, pos, enc_u64(x)),
    ensures
        parse_u64(s, pos) == Some((x, pos + 8)),
{
    lemma_auto_spec_u64_to_from_le_bytes();
}

proof fn lemma_rt_i64(s: Seq<u8>, pos: int, x: i64)
    requires
        at(s, pos, enc_i64(x)),
    ensures
        parse_i64(s, pos) == Some((x, pos + 8)),
{
    lemma_rt_u64(s, pos, x as u64);
    assert((x as u64) as i64 == x) by (bit_vector);
}

proof fn lemma_rt_i32(s: Seq<u8>, pos: int, x: i32)
    requires
        at(s, pos, enc_i32(x)),
    ensures
        parse_i32(s, pos) == Some((x, pos + 4)),
{
    lemma_auto_spec_u32_to_from_le_bytes();
    assert((x as u32) as i32 == x) by (bit_vector);
}

proof fn lemma_rt_blob(s: Seq<u8>, pos: int, b: Seq<u8>)
    requires
        b.len() <= u64::MAX,
        at(s, pos, enc_blob(b)),
    ensures
        parse_blob(s, pos) == Some((b, pos + enc_blob(b).len())),
{
    lemma_auto_spec_u64_to_from_le_bytes();
    lemma_at_split(s, pos, enc_u64(b.len() as u64), b);
    lemma_rt_u64(s, pos, b.len() as u64);
}

proof fn lemma_rt_str(s: Seq<u8>, pos: int, c: Seq<char>)
    requires
        str_fits(c),
        at(s, pos, enc_str(c)),
    ensures
        parse_str(s, pos) == Some((c, pos + enc_str(c).len())),
{
    lemma_rt_blob(s, pos, encode_utf8(c));
    encode_utf8_valid_utf8(c);
    encode_utf8_decode_utf8(c);
}

proof fn lemma_rt_input(s: Seq<u8>, pos: int, i: InputModel)
    requires
        input_fits(i),
        at(s, pos, enc_input(i)),
    ensures
        parse_input(s, pos) == Some((i, pos + enc_input(i).len())),
{
    let a = enc_blob(i.txid);
    let b = enc_i32(i.vout);
    let c = enc_str(i.owner);
    lemma_at_split(s, pos, a + b, c);
    lemma_at_split(s, pos, a, b);
    lemma_rt_blob(s, pos, i.txid);
    lemma_rt_i32(s, pos + a.len(), i.vout);
    lemma_auto_spec_u32_to_from_le_bytes();
    lemma_rt_str(s, pos + a.len() + b.len(), i.owner);
}

proof fn lemma_rt_output(s: Seq<u8>, pos: int, o: OutputModel)
    requires
        output_fits(o),
        at(s, pos, enc_output(o)),
    ensures
        parse_output(s, pos) == Some((o, pos + enc_output(o).len())),
{
    let a = enc_i32(o.value);
    lemma_at_split(s, pos, a, enc_str(o.owner));
    lemma_rt_i32(s, pos, o.value);
    lemma_auto_spec_u32_to_from_le_bytes();
    lemma_rt_str(s, pos + a.len(), o.owner);
}

proof fn lemma_rt_inputs(s: Seq<u8>, pos: int, v: Seq<InputModel>)
    requires
        forall|k: int| 0 <= k < v.len() ==> input_fits(#[trigger] v[k]),
        at(s, pos, enc_inputs(v)),
    ensures
        parse_inputs(s, pos, v.len()) == Some((v, pos + enc_inputs(v).len())),
    decreases v.len(),
{
    if v.len() > 0 {
        let init = v.drop_last();
        lemma_at_split(s, pos, enc_inputs(init), enc_input(v.last()));
        assert forall|k: int| 0 <= k < init.len() implies input_fits(#[trigger] init[k]) by {
            assert(init[k] == v[k]);
        }
        lemma_rt_inputs(s, pos, init);
        lemma_rt_input(s, pos + enc_inputs(init).len(), v.last());
        assert(init.push(v.last()) =~= v);
    } else {
        assert(v =~= Seq::<InputModel>::empty());
    }
}

proof fn lemma_rt_outputs(s: Seq<u8>, pos: int, v: Seq<OutputModel>)
    requires
        forall|k: int| 0 <= k < v.len() ==> output_fits(#[trigger] v[k]),
        at(s, pos, enc_outputs(v)),
    ensures
        parse_outputs(s, pos, v.len()) == Some((v, pos + enc_outputs(v).len())),
    decreases v.len(),
{
    if v.len() > 0 {
        let init = v.drop_last();
        lemma_at_split(s, pos, enc_outputs(init), enc_output(v.last()));
        assert forall|k: int| 0 <= k < init.len() implies output_fits(#[trigger] init[k]) by {
            assert(init[k] == v[k]);
        }
        lemma_rt_outputs(s, pos, init);
        lemma_rt_output(s, pos + enc_outputs(init).len(), v.last());
        assert(init.push(v.last()) =~= v);
    } else {
        assert(v =~= Seq::<OutputModel>::empty());
    }
}

proof fn lemma_rt_tx(s: Seq<u8>, pos: int, t: TxModel)
    requires
        tx_fits(t),
        at(s, pos, enc_tx(t)),
    ensures
        parse_tx(s, pos) == Some((t, pos + enc_tx(t).len())),
{
    lemma_auto_spec_u64_to_from_le_bytes();
    let a = enc_blob(t.id);
    let b = enc_u64(t.vin.len() as u64);
    let c = enc_inputs(t.vin);
    let d = enc_u64(t.vout.len() as u64);
    let e = enc_outputs(t.vout);
    lemma_at_split(s, pos, a + b + c + d, e);
    lemma_at_split(s, pos, a + b + c, d);
    lemma_at_split(s, pos, a + b, c);
    lemma_at_split(s, pos, a, b);
    lemma_rt_blob(s, pos, t.id);
    lemma_rt_u64(s, pos + a.len(), t.vin.len() as u64);
    lemma_rt_inputs(s, pos + a.len() + b.len(), t.vin);
    lemma_rt_u64(s, pos + a.len() + b.len() + c.len(), t.vout.len() as u64);
    lemma_rt_outputs(s, pos + a.len() + b.len() + c.len() + d.len(), t.vout);
}

proof fn lemma_rt_txs(s: Seq<u8>, pos: int, v: Seq<TxModel>)
    requires
        forall|k: int| 0 <= k < v.len() ==> tx_fits(#[trigger] v[k]),
        at(s, pos, enc_txs(v)),
    ensures
        parse_txs(s, pos, v.len()) == Some((v, pos + enc_txs(v).len())),
    decreases v.len(),
{
    if v.len() > 0 {
        let init = v.drop_last();
        lemma_at_split(s, pos, enc_txs(init), enc_tx(v.last()));
        assert forall|k: int| 0 <= k < init.len() implies tx_fits(#[trigger] init[k]) by {
            assert(init[k] == v[k]);
        }
        lemma_rt_txs(s, pos, init);
        lemma_rt_tx(s, pos + enc_txs(init).len(), v.last());
        assert(init.push(v.last()) =~= v);
    } else {
        assert(v =~= Seq::<TxModel>::empty());
    }
}

/// Decoding the stored form of a block gives back the same timestamp,
/// transactions, parent hash, hash and nonce.
pub proof fn lemma_block_round_trip(b: BlockModel)
    requires
        block_fits(b),
    ensures
        parse_block(enc_block(b)) == Some(b),
{
    lemma_auto_spec_u64_to_from_le_bytes();
    let s = enc_block(b);
    let a = enc_u64(b.timestamp);
    let c = enc_u64(b.transactions.len() as u64);
    let d = enc_txs(b.transactions);
    let e = enc_blob(b.prev_block_hash);
    let f = enc_blob(b.hash);
    let g = enc_i64(b.nonce);
    assert(at(s, 0, s)) by {
        assert(s.subrange(0, s.len() as int) =~= s);
    }
    lemma_at_split(s, 0, a + c + d + e + f, g);
    lemma_at_split(s, 0, a + c + d + e, f);
    lemma_at_split(s, 0, a + c + d, e);
    lemma_at_split(s, 0, a + c, d);
    lemma_at_split(s, 0, a, c);
    lemma_rt_u64(s, 0, b.timestamp);
    lemma_rt_u64(s, a.len() as int, b.transactions.len() as u64);
    lemma_rt_txs(s, (a.len() + c.len()) as int, b.transactions);
    lemma_rt_blob(s, (a.len() + c.len() + d.len()) as int, b.prev_block_hash);
    lemma_rt_blob(s, (a.len() + c.len() + d.len() + e.len()) as int, b.hash);
    lemma_rt_i64(s, (a.len() + c.len() + d.len() + e.len() + f.len()) as int, b.nonce);
}


/// Relies on `String::from_utf8`: it accepts exactly the valid UTF-8 byte
/// strings, and the string it returns holds the characters that they encode.
#[verifier::external_body]
fn string_from_utf8(b: Vec<u8>) -> (r: Option<String>)
    ensures
        r is Some <==> valid_utf8(b@),
        r matches Some(t) ==> t@ == decode_utf8(b@),
{
    String::from_utf8(b).ok()
}

fn copy_range(s: &Vec<u8>, from: usize, to: usize) -> (r: Vec<u8>)
    requires
        from <= to <= s@.len(),
    ensures
        r@ == s@.subrange(from as int, to as int),
{
    let mut r: Vec<u8> = Vec::new();
    let mut i: usize = from;
    while i < to
        invariant
            from <= i <= to <= s@.len(),
            r@ == s@.subrange(from as int, i as int),
        decreases to - i,
    {
        r.push(s[i]);
        i = i + 1;
        assert(r@ =~= s@.subrange(from as int, i as int));
    }
    r
}

fn read_u64(s: &Vec<u8>, pos: usize) -> (r: Option<(u64, usize)>)
    ensures
        match r {
            Some((x, p)) => parse_u64(s@, pos as int) == Some((x, p as int)),
            None => parse_u64(s@, pos as int) is None,
        },
{
    if pos > s.len() || s.len() - pos < 8 {
        return None;
    }
    let b = copy_range(s, pos, pos + 8);
    Some((u64_from_le_bytes(b.as_slice()), pos + 8))
}

fn read_i64(s: &Vec<u8>, pos: usize) -> (r: Option<(i64, usize)>)
    ensures
        match r {
            Some((x, p)) => parse_i64(s@, pos as int) == Some((x, p as int)),
            None => parse_i64(s@, pos as int) is None,
        },
{
    match read_u64(s, pos) {
        Some((x, p)) => Some((x as i64, p)),
        None => None,
    }
}

fn read_i32(s: &Vec<u8>, pos: usize) -> (r: Option<(i32, usize)>)
    ensures
        match r {
            Some((x, p)) => parse_i32(s@, pos as int) == Some((x, p as int)),
            None => parse_i32(s@, pos as int) is None,
        },
{
    if pos > s.len() || s.len() - pos < 4 {
        return None;
    }
    let b = copy_range(s, pos, pos + 4);
    Some((u32_from_le_bytes(b.as_slice()) as i32, pos + 4))
}

fn read_blob(s: &Vec<u8>, pos: usize) -> (r: Option<(Vec<u8>, usize)>)
    ensures
        match r {
            Some((x, p)) => parse_blob(s@, pos as int) == Some((x@, p as int)),
            None => parse_blob(s@, pos as int) is None,
        },
{
    match read_u64(s, pos) {
        Some((n, p)) => {
            if (s.len() - p) as u64 >= n {
                let q = p + n as usize;
                Some((copy_range(s, p, q), q))
            } else {
                None
            }
        },
        None => None,
    }
}

fn read_str(s: &Vec<u8>, pos: usize) -> (r: Option<(String, usize)>)
    ensures
        match r {
            Some((x, p)) => parse_str(s@, pos as int) == Some((x@, p as int)),
            None => parse_str(s@, pos as int) is None,
        },
{
    match read_blob(s, pos) {
        Some((b, p)) => match string_from_utf8(b) {
            Some(t) => Some((t, p)),
            None => None,
        },
        None => None,
    }
}

fn read_input(s: &Vec<u8>, pos: usize) -> (r: Option<(TXInput, usize)>)
    ensures
        match r {
            Some((x, p)) => parse_input(s@, pos as int) == Some((x@, p as int)),
            None => parse_input(s@, pos as int) is None,
        },
{
    let (txid, pos1) = match read_blob(s, pos) {
        Some(x) => x,
        None => return None,
    };
    let (vout, pos2) = match read_i32(s, pos1) {
        Some(x) => x,
        None => return None,
    };
    let (script_sig, pos3) = match read_str(s, pos2) {
        Some(x) => x,
        None => return None,
    };
    Some((TXInput { txid, vout, script_sig }, pos3))
}

fn read_output(s: &Vec<u8>, pos: usize) -> (r: Option<(TXOutput, usize)>)
    ensures
        match r {
            Some((x, p)) => parse_output(s@, pos as int) == Some((x@, p as int)),
            None => parse_output(s@, pos as int) is None,
        },
{
    let (value, pos1) = match read_i32(s, pos) {
        Some(x) => x,
        None => return None,
    };
    let (script_pub_key, pos2) = match read_str(s, pos1) {
        Some(x) => x,
        None => return None,
    };
    Some((TXOutput { value, script_pub_key }, pos2))
}

proof fn lemma_inputs_stops(s: Seq<u8>, pos: int, j: nat, n: nat)
    requires
        j <= n,
        parse_inputs(s, pos, j) is None,
    ensures
        parse_inputs(s, pos, n) is None,
    decreases n,
{
    if n > j {
        lemma_inputs_stops(s, pos, j, (n - 1) as nat);
    }
}

fn read_inputs(s: &Vec<u8>, pos: usize, n: u64) -> (r: Option<(Vec<TXInput>, usize)>)
    ensures
        match r {
            Some((v, p)) => parse_inputs(s@, pos as int, n as nat) == Some(
                (v@.map_values(|x: TXInput| x@), p as int),
            ),
            None => parse_inputs(s@, pos as int, n as nat) is None,
        },
{
    let mut v: Vec<TXInput> = Vec::new();
    let mut p: usize = pos;
    let mut k: u64 = 0;
    assert(v@.map_values(|x: TXInput| x@) =~= Seq::<InputModel>::empty());
    while k < n
        invariant
            k <= n,
            parse_inputs(s@, pos as int, k as nat) == Some((v@.map_values(|x: TXInput| x@), p as int)),
        decreases n - k,
    {
        match read_input(s, p) {
            Some((x, q)) => {
                let ghost prev = v@;
                v.push(x);
                proof {
                    let f = |x: TXInput| x@;
                    assert(v@.map_values(f) =~= prev.map_values(f).push(x@));
                }
                p = q;
                k = k + 1;
            },
            None => {
                proof {
                    lemma_inputs_stops(s@, pos as int, (k + 1) as nat, n as nat);
                }
                return None;
            },
        }
    }
    Some((v, p))
}

proof fn lemma_outputs_stops(s: Seq<u8>, pos: int, j: nat, n: nat)
    requires
        j <= n,
        parse_outputs(s, pos, j) is None,
    ensures
        parse_outputs(s, pos, n) is None,
    decreases n,
{
    if n > j {
        lemma_outputs_stops(s, pos, j, (n - 1) as nat);
    }
}

fn read_outputs(s: &Vec<u8>, pos: usize, n: u64) -> (r: Option<(Vec<TXOutput>, usize)>)
    ensures
        match r {
            Some((v, p)) => parse_outputs(s@, pos as int, n as nat) == Some(
                (v@.map_values(|x: TXOutput| x@), p as int),
            ),
            None => parse_outputs(s@, pos as int, n as nat) is None,
        },
{
    let mut v: Vec<TXOutput> = Vec::new();
    let mut p: usize = pos;
    let mut k: u64 = 0;
    assert(v@.map_values(|x: TXOutput| x@) =~= Seq::<OutputModel>::empty());
    while k < n
        invariant
            k <= n,
            parse_outputs(s@, pos as int, k as nat) == Some((v@.map_values(|x: TXOutput| x@), p as int)),
        decreases n - k,
    {
        match read_output(s, p) {
            Some((x, q)) => {
                let ghost prev = v@;
                v.push(x);
                proof {
                    let f = |x: TXOutput| x@;
                    assert(v@.map_values(f) =~= prev.map_values(f).push(x@));
                }
                p = q;
                k = k + 1;
            },
            None => {
                proof {
                    lemma_outputs_stops(s@, pos as int, (k + 1) as nat, n as nat);
                }
                return None;
            },
        }
    }
    Some((v, p))
}

fn read_tx(s: &Vec<u8>, pos: usize) -> (r: Option<(Transaction, usize)>)
    ensures
        match r {
            Some((x, p)) => parse_tx(s@, pos as int) == Some((x@, p as int)),
            None => parse_tx(s@, pos as int) is None,
        },
{
    let (id, pos1) = match read_blob(s, pos) {
        Some(x) => x,
        None => return None,
    };
    let (n, pos2) = match read_u64(s, pos1) {
        Some(x) => x,
        None => return None,
    };
    let (vin, pos3) = match read_inputs(s, pos2, n) {
        Some(x) => x,
        None => return None,
    };
    let (m, pos4) = match read_u64(s, pos3) {
        Some(x) => x,
        None => return None,
    };
    let (vout, pos5) = match read_outputs(s, pos4, m) {
        Some(x) => x,
        None => return None,
    };
    Some((Transaction { id, vin, vout }, pos5))
}

proof fn lemma_txs_stops(s: Seq<u8>, pos: int, j: nat, n: nat)
    requires
        j <= n,
        parse_txs(s, pos, j) is None,
    ensures
        parse_txs(s, pos, n) is None,
    decreases n,
{
    if n > j {
        lemma_txs_stops(s, pos, j, (n - 1) as nat);
    }
}

fn read_txs(s: &Vec<u8>, pos: usize, n: u64) -> (r: Option<(Vec<Transaction>, usize)>)
    ensures
        match r {
            Some((v, p)) => parse_txs(s@, pos as int, n as nat) == Some(
                (v@.map_values(|x: Transaction| x@), p as int),
            ),
            None => parse_txs(s@, pos as int, n as nat) is None,
        },
{
    let mut v: Vec<Transaction> = Vec::new();
    let mut p: usize = pos;
    let mut k: u64 = 0;
    assert(v@.map_values(|x: Transaction| x@) =~= Seq::<TxModel>::empty());
    while k < n
        invariant
            k <= n,
            parse_txs(s@, pos as int, k as nat) == Some((v@.map_values(|x: Transaction| x@), p as int)),
        decreases n - k,
    {
        match read_tx(s, p) {
            Some((x, q)) => {
                let ghost prev = v@;
                v.push(x);
                proof {
                    let f = |x: Transaction| x@;
                    assert(v@.map_values(f) =~= prev.map_values(f).push(x@));
                }
                p = q;
                k = k + 1;
            },
            None => {
                proof {
                    lemma_txs_stops(s@, pos as int, (k + 1) as nat, n as nat);
                }
                return None;
            },
        }
    }
    Some((v, p))
}

/// The block whose stored form is exactly `s`, or `None` when `s` is not the
/// stored form of any block.
pub fn decode_block(s: &Vec<u8>) -> (r: Option<Block>)
    ensures
        match r {
            Some(b) => parse_block(s@) == Some(b@),
            None => parse_block(s@) is None,
        },
{
    let (timestamp, pos1) = match read_u64(s, 0) {
        Some(x) => x,
        None => return None,
    };
    let (n, pos2) = match read_u64(s, pos1) {
        Some(x) => x,
        None => return None,
    };
    let (transactions, pos3) = match read_txs(s, pos2, n) {
        Some(x) => x,
        None => return None,
    };
    let (prev_block_hash, pos4) = match read_blob(s, pos3) {
        Some(x) => x,
        None => return None,
    };
    let (hash, pos5) = match read_blob(s, pos4) {
        Some(x) => x,
        None => return None,
    };
    let (nonce, pos6) = match read_i64(s, pos5) {
        Some(x) => x,
        None => return None,
    };
    if pos6 != s.len() {
        return None;
    }
    Some(Block { timestamp, transactions, prev_block_hash, hash, nonce })
}

} // verus!
