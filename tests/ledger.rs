use std::collections::HashMap;

use blockchain_rust::block::Block;
use blockchain_rust::blockchain::{Blockchain, LedgerError, GENESIS_COINBASE_DATA, TIP_KEY};
use blockchain_rust::codec::{decode_block, encode_block};
use blockchain_rust::proofofwork::{hash_meets_target, ProofOfWork, TARGET_BITS};
use blockchain_rust::transaction::{TXInput, TXOutput, Transaction, SUBSIDY};
use blockchain_rust::utxo::{
    find_spendable_outputs, find_unspent_outputs, find_unspent_transactions, find_utxo, get_balance,
};

const T0: u64 = 1_700_000_000;

/// A chain as a list of blocks, newest first, with its handle.
fn new_chain(owner: &str) -> (Blockchain, Vec<Block>) {
    let (bc, genesis) = Blockchain::create(true, owner, T0).unwrap();
    (bc, vec![genesis])
}

fn send(bc: &mut Blockchain, chain: &mut Vec<Block>, from: &str, to: &str, amount: i32) {
    let tx = Transaction::new_otxo_tx(from, to, amount, chain).unwrap();
    let block = bc.mine_block(vec![tx], T0 + chain.len() as u64).unwrap();
    chain.insert(0, block);
}

fn hex(b: &[u8]) -> String {
    b.iter().map(|x| format!("{:02x}", x)).collect()
}

#[test]
fn coinbase_has_one_input_and_one_output() {
    let tx = Transaction::new_coinbase_tx("Alice", "some data");
    assert!(tx.is_coinbase());
    assert_eq!(tx.vin.len(), 1);
    assert_eq!(tx.vout.len(), 1);
    assert_eq!(tx.vin[0].vout, -1);
    assert!(tx.vin[0].txid.is_empty());
    assert_eq!(tx.vin[0].script_sig, "some data");
    assert_eq!(tx.vout[0].value, SUBSIDY);
    assert_eq!(tx.vout[0].script_pub_key, "Alice");
    assert_eq!(tx.id.len(), 32);
}

#[test]
fn coinbase_with_empty_data_names_the_receiver() {
    let tx = Transaction::new_coinbase_tx("Bob", "");
    assert_eq!(tx.vin[0].script_sig, "Reward to 'Bob'");
    assert!(tx.is_coinbase());
}

#[test]
fn transfer_is_not_coinbase() {
    let (_, chain) = new_chain("Alice");
    let tx = Transaction::new_otxo_tx("Alice", "Bob", 3, &chain).unwrap();
    assert!(!tx.is_coinbase());
    let two_inputs = Transaction::new(
        vec![
            TXInput { txid: vec![], vout: -1, script_sig: "a".to_string() },
            TXInput { txid: vec![], vout: -1, script_sig: "b".to_string() },
        ],
        vec![],
    );
    assert!(!two_inputs.is_coinbase());
}

#[test]
fn transaction_id_ignores_the_old_id_and_follows_the_content() {
    let a = Transaction::new_coinbase_tx("Alice", "x");
    let b = Transaction::new_coinbase_tx("Alice", "x");
    let c = Transaction::new_coinbase_tx("Alice", "y");
    assert_eq!(a.id, b.id);
    assert_ne!(a.id, c.id);
}

#[test]
fn owner_tokens_compare_as_plain_strings() {
    let input = TXInput { txid: vec![1], vout: 0, script_sig: "Alice".to_string() };
    let output = TXOutput { value: 5, script_pub_key: "Bob".to_string() };
    assert!(input.can_unlock_output_with("Alice"));
    assert!(!input.can_unlock_output_with("alice"));
    assert!(!input.can_unlock_output_with("Alice "));
    assert!(output.can_be_unlocked_with("Bob"));
    assert!(!output.can_be_unlocked_with("Bo"));
    assert!(!output.can_be_unlocked_with(""));
}

#[test]
fn hash_of_no_transactions_is_the_digest_of_nothing() {
    let block = Block {
        timestamp: 0,
        transactions: vec![],
        prev_block_hash: vec![],
        hash: vec![],
        nonce: 0,
    };
    assert_eq!(
        hex(&block.hash_transactions()),
        "e3b0c44298fc1c149afbf4c8996fb92427ae41e4649b934ca495991b7852b855"
    );
}

#[test]
fn header_layout_is_parent_summary_timestamp_bits_nonce() {
    let block = Block {
        timestamp: 0x0102030405060708,
        transactions: vec![],
        prev_block_hash: vec![0xaa, 0xbb],
        hash: vec![],
        nonce: 0,
    };
    let pow = ProofOfWork::new(&block);
    let data = pow.prepare_data(258);
    assert_eq!(data.len(), 2 + 32 + 8 + 8 + 8);
    assert_eq!(&data[0..2], &[0xaa, 0xbb]);
    assert_eq!(&data[2..34], block.hash_transactions().as_slice());
    assert_eq!(&data[34..42], &[1, 2, 3, 4, 5, 6, 7, 8]);
    assert_eq!(&data[42..50], &(TARGET_BITS as i64).to_be_bytes());
    assert_eq!(&data[50..58], &[0, 0, 0, 0, 0, 0, 1, 2]);
}

#[test]
fn target_check_reads_the_hash_as_a_big_endian_number() {
    let mut h = vec![0u8; 32];
    assert!(hash_meets_target(&h));
    h[1] = 0xff;
    assert!(hash_meets_target(&h));
    h[0] = 1;
    assert!(!hash_meets_target(&h));
    assert!(hash_meets_target(&vec![0xff; 31]));
    assert!(!hash_meets_target(&vec![0xff; 32]));
}

#[test]
fn mined_block_passes_validation() {
    let coinbase = Transaction::new_coinbase_tx("Miner", "");
    let block = Block::new(vec![coinbase], &[7u8; 32], T0).unwrap();
    assert_eq!(block.prev_block_hash, vec![7u8; 32]);
    assert_eq!(block.timestamp, T0);
    assert!(ProofOfWork::new(&block).validate());
    let moved = Block { timestamp: T0 + 1, ..block.clone() };
    let moved_pow = ProofOfWork::new(&moved);
    assert_ne!(moved_pow.prepare_data(moved.nonce), ProofOfWork::new(&block).prepare_data(block.nonce));
}

#[test]
fn mined_hash_is_below_the_target() {
    for i in 0..4u64 {
        let coinbase = Transaction::new_coinbase_tx("Miner", "");
        let block = Block::new(vec![coinbase], &[], T0 + i).unwrap();
        assert_eq!(block.hash.len(), 32);
        assert!(block.nonce >= 0);
        let zero_bytes = (TARGET_BITS / 8) as usize;
        assert!(block.hash[..zero_bytes].iter().all(|b| *b == 0));
        assert!(hash_meets_target(&block.hash));
    }
}

#[test]
fn genesis_block_has_no_parent_and_validates() {
    let (bc, chain) = new_chain("Alice");
    let genesis = &chain[0];
    assert!(genesis.prev_block_hash.is_empty());
    assert!(ProofOfWork::new(genesis).validate());
    assert_eq!(bc.tip, genesis.hash);
    assert_eq!(genesis.transactions.len(), 1);
    assert!(genesis.transactions[0].is_coinbase());
    assert_eq!(genesis.transactions[0].vin[0].script_sig, GENESIS_COINBASE_DATA);
}

#[test]
fn create_refuses_a_store_that_holds_a_chain() {
    assert!(matches!(
        Blockchain::create(false, "Alice", T0),
        Err(LedgerError::ConfigurationError)
    ));
}

#[test]
fn open_refuses_an_empty_store() {
    assert!(matches!(
        Blockchain::new(true, None),
        Err(LedgerError::ConfigurationError)
    ));
    assert!(matches!(
        Blockchain::new(false, None),
        Err(LedgerError::ConfigurationError)
    ));
    let bc = Blockchain::new(false, Some(vec![1, 2, 3])).unwrap();
    assert_eq!(bc.tip, vec![1, 2, 3]);
}

#[test]
fn consecutive_blocks_are_linked_by_parent_hash() {
    let (mut bc, mut chain) = new_chain("Alice");
    send(&mut bc, &mut chain, "Alice", "Bob", 1);
    send(&mut bc, &mut chain, "Alice", "Carol", 2);
    assert_eq!(chain.len(), 3);
    for i in 0..chain.len() - 1 {
        assert_eq!(chain[i].prev_block_hash, chain[i + 1].hash);
        assert!(ProofOfWork::new(&chain[i]).validate());
    }
    assert_eq!(bc.tip, chain[0].hash);
}

#[test]
fn stored_form_round_trips() {
    let (mut bc, mut chain) = new_chain("Alice");
    send(&mut bc, &mut chain, "Alice", "Bob", 4);
    for b in &chain {
        let bytes = encode_block(b);
        let back = decode_block(&bytes).unwrap();
        assert_eq!(back.timestamp, b.timestamp);
        assert_eq!(back.prev_block_hash, b.prev_block_hash);
        assert_eq!(back.hash, b.hash);
        assert_eq!(back.nonce, b.nonce);
        assert_eq!(back.transactions.len(), b.transactions.len());
        for (x, y) in back.transactions.iter().zip(b.transactions.iter()) {
            assert_eq!(x.id, y.id);
            assert_eq!(x.vin.len(), y.vin.len());
            assert_eq!(x.vout.len(), y.vout.len());
            for (i, j) in x.vin.iter().zip(y.vin.iter()) {
                assert_eq!(i.txid, j.txid);
                assert_eq!(i.vout, j.vout);
                assert_eq!(i.script_sig, j.script_sig);
            }
            for (i, j) in x.vout.iter().zip(y.vout.iter()) {
                assert_eq!(i.value, j.value);
                assert_eq!(i.script_pub_key, j.script_pub_key);
            }
        }
    }
}

#[test]
fn malformed_records_do_not_decode() {
    let (_, chain) = new_chain("Zoë");
    let bytes = encode_block(&chain[0]);
    assert!(decode_block(&bytes[..bytes.len() - 1].to_vec()).is_none());
    let mut longer = bytes.clone();
    longer.push(0);
    assert!(decode_block(&longer).is_none());
    assert!(decode_block(&vec![]).is_none());
    let back = decode_block(&bytes).unwrap();
    assert_eq!(back.transactions[0].vout[0].script_pub_key, "Zoë");
    // Break the UTF-8 of the owner token: its last byte is the second byte of 'ë'.
    let mut bad = bytes.clone();
    let pos = bytes.len() - 8 - 8 - 32 - 8 - 1;
    assert_eq!(bad[pos], 0xab);
    bad[pos] = 0xff;
    assert!(decode_block(&bad).is_none());
}

#[test]
fn create_mints_the_subsidy_to_the_owner() {
    let (_, chain) = new_chain("Alice");
    assert_eq!(get_balance(&chain, "Alice"), SUBSIDY as i128);
    assert_eq!(get_balance(&chain, "Bob"), 0);
}

#[test]
fn transfer_moves_value_and_returns_change() {
    let (mut bc, mut chain) = new_chain("Alice");
    send(&mut bc, &mut chain, "Alice", "Bob", 4);
    assert_eq!(get_balance(&chain, "Bob"), 4);
    assert_eq!(get_balance(&chain, "Alice"), SUBSIDY as i128 - 4);
    let tx = &chain[0].transactions[0];
    assert_eq!(tx.vin.len(), 1);
    assert_eq!(tx.vin[0].txid, chain[1].transactions[0].id);
    assert_eq!(tx.vin[0].vout, 0);
    assert_eq!(tx.vin[0].script_sig, "Alice");
    assert_eq!(tx.vout.len(), 2);
    assert_eq!(tx.vout[0].value, 4);
    assert_eq!(tx.vout[0].script_pub_key, "Bob");
    assert_eq!(tx.vout[1].value, SUBSIDY - 4);
    assert_eq!(tx.vout[1].script_pub_key, "Alice");
}

#[test]
fn exact_transfer_has_no_change_output() {
    let (mut bc, mut chain) = new_chain("Alice");
    send(&mut bc, &mut chain, "Alice", "Bob", SUBSIDY);
    assert_eq!(chain[0].transactions[0].vout.len(), 1);
    assert_eq!(get_balance(&chain, "Alice"), 0);
    assert_eq!(get_balance(&chain, "Bob"), SUBSIDY as i128);
}

#[test]
fn overdraft_is_refused_and_changes_nothing() {
    let (bc, chain) = new_chain("Alice");
    let tip = bc.tip.clone();
    let r = Transaction::new_otxo_tx("Alice", "Bob", SUBSIDY + 1, &chain);
    assert!(matches!(r, Err(LedgerError::InsufficientFunds)));
    assert!(matches!(
        Transaction::new_otxo_tx("Nobody", "Bob", 1, &chain),
        Err(LedgerError::InsufficientFunds)
    ));
    assert_eq!(bc.tip, tip);
    assert_eq!(get_balance(&chain, "Alice"), SUBSIDY as i128);
    assert_eq!(get_balance(&chain, "Bob"), 0);
}

#[test]
fn second_transfer_spends_the_change_of_the_first() {
    let (mut bc, mut chain) = new_chain("Alice");
    send(&mut bc, &mut chain, "Alice", "Bob", 4);
    send(&mut bc, &mut chain, "Alice", "Carol", 5);
    let tx = &chain[0].transactions[0];
    assert_eq!(tx.vin.len(), 1);
    assert_eq!(tx.vin[0].txid, chain[1].transactions[0].id);
    assert_eq!(tx.vin[0].vout, 1);
    assert_eq!(get_balance(&chain, "Alice"), 1);
    assert_eq!(get_balance(&chain, "Bob"), 4);
    assert_eq!(get_balance(&chain, "Carol"), 5);
    send(&mut bc, &mut chain, "Bob", "Alice", 4);
    assert_eq!(get_balance(&chain, "Alice"), 5);
    assert_eq!(get_balance(&chain, "Bob"), 0);
}

#[test]
fn spendable_outputs_stop_once_the_amount_is_reached() {
    let (mut bc, mut chain) = new_chain("Alice");
    let extra = Transaction::new_coinbase_tx("Alice", "second reward");
    let block = bc.mine_block(vec![extra], T0 + 1).unwrap();
    chain.insert(0, block);
    assert_eq!(find_unspent_outputs(&chain, "Alice").len(), 2);
    assert_eq!(find_utxo(&chain, "Alice").len(), 2);
    let (acc, taken) = find_spendable_outputs(&chain, "Alice", 3);
    assert_eq!(acc, SUBSIDY as i128);
    assert_eq!(taken.len(), 1);
    assert_eq!(taken[0].txid, chain[0].transactions[0].id);
    let (acc, taken) = find_spendable_outputs(&chain, "Alice", 15);
    assert_eq!(acc, 2 * SUBSIDY as i128);
    assert_eq!(taken.len(), 2);
    let (acc, taken) = find_spendable_outputs(&chain, "Alice", 0);
    assert_eq!(acc, 0);
    assert!(taken.is_empty());
}

#[test]
fn iterator_walks_a_store_from_tip_to_genesis() {
    let (mut bc, mut chain) = new_chain("Alice");
    send(&mut bc, &mut chain, "Alice", "Bob", 2);
    send(&mut bc, &mut chain, "Bob", "Carol", 1);
    let mut store: HashMap<Vec<u8>, Vec<u8>> = HashMap::new();
    for b in &chain {
        store.insert(b.hash.clone(), encode_block(b));
    }
    store.insert(TIP_KEY.as_bytes().to_vec(), bc.tip.clone());
    let opened = Blockchain::new(false, store.get(TIP_KEY.as_bytes()).cloned()).unwrap();
    let mut it = opened.iter();
    let mut seen = vec![];
    while let Some(key) = it.next_key() {
        match it.next(store.get(&key).cloned()) {
            Some(b) => seen.push(b.hash),
            None => break,
        }
    }
    let expected: Vec<Vec<u8>> = chain.iter().map(|b| b.hash.clone()).collect();
    assert_eq!(seen, expected);
    assert!(it.next_key().is_none());
}

#[test]
fn iterator_ends_where_a_record_is_missing() {
    let (mut bc, mut chain) = new_chain("Alice");
    send(&mut bc, &mut chain, "Alice", "Bob", 2);
    let mut it = bc.iter();
    let key = it.next_key().unwrap();
    assert_eq!(key, chain[0].hash);
    let first = it.next(Some(encode_block(&chain[0]))).unwrap();
    assert_eq!(first.hash, chain[0].hash);
    assert_eq!(it.next_key().unwrap(), chain[1].hash);
    assert!(it.next(None).is_none());
    assert!(it.next_key().is_none());
    let mut it2 = bc.iter();
    assert!(it2.next(Some(vec![1, 2, 3])).is_none());
    assert!(it2.next_key().is_none());
}

#[test]
fn unspent_transactions_are_listed_once_each() {
    let (mut bc, mut chain) = new_chain("Alice");
    let split = Transaction::new(
        vec![TXInput {
            txid: chain[0].transactions[0].id.clone(),
            vout: 0,
            script_sig: "Alice".to_string(),
        }],
        vec![
            TXOutput { value: 3, script_pub_key: "Alice".to_string() },
            TXOutput { value: 7, script_pub_key: "Alice".to_string() },
        ],
    );
    let split_id = split.id.clone();
    let block = bc.mine_block(vec![split], T0 + 1).unwrap();
    chain.insert(0, block);
    let txs = find_unspent_transactions(&chain, "Alice");
    assert_eq!(txs.len(), 1);
    assert_eq!(txs[0].id, split_id);
    let outs = find_unspent_outputs(&chain, "Alice");
    assert_eq!(outs.len(), 2);
    assert_eq!(outs[0].index, 0);
    assert_eq!(outs[1].index, 1);
    assert_eq!(get_balance(&chain, "Alice"), 10);
    assert!(find_unspent_transactions(&chain, "Bob").is_empty());
}

#[test]
fn genesis_holds_the_coinbase_that_new_coinbase_tx_builds() {
    let (_, chain) = new_chain("Alice");
    let expected = Transaction::new_coinbase_tx("Alice", GENESIS_COINBASE_DATA);
    let got = &chain[0].transactions[0];
    assert_eq!(got.id, expected.id);
    assert_eq!(got.vin[0].script_sig, expected.vin[0].script_sig);
    assert_eq!(got.vout[0].value, expected.vout[0].value);
    assert_eq!(got.vout[0].script_pub_key, expected.vout[0].script_pub_key);
}
