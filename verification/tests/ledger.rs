use minichain::block::{Block, Transaction, TxIn, TxOut};
use minichain::chain::BlockChain;
use minichain::decimal::u64_to_dec;
use minichain::hashing::content_hash;

#[test]
fn test_txin() {
    let txin = TxIn::new(String::from("prev_output"), 0, String::from("signature"));
    assert_eq!(txin.prev_txid, "prev_output");
    assert_eq!(txin.out, 0);
    assert_eq!(txin.signature, "signature");
}

#[test]
fn test_txout() {
    let txout = TxOut::new(String::from("public_address"), 100);
    assert_eq!(txout.public_address, "public_address");
    assert_eq!(txout.satoshis, 100);
}

#[test]
fn test_transaction() {
    let txin = TxIn::new(String::from("prev_output"), 0, String::from("signature"));
    let txout = TxOut::new(String::from("public_address"), 100);
    let tx = Transaction::new(vec![txin], vec![txout]);
    assert!(!tx.txid.is_empty());
}

#[test]
fn test_block() {
    let block = Block::new(String::from("prev_hash"));
    assert_eq!(block.prev_hash, "prev_hash");
    assert!(block.hash.is_empty());
    assert_eq!(block.transactions.len(), 0);
}

#[test]
fn test_block_add_transaction() {
    let mut block = Block::new(String::from("prev_hash"));
    let txin = TxIn::new(String::from("prev_output"), 0, String::from("signature"));
    let txout = TxOut::new(String::from("public_address"), 100);
    let tx = Transaction::new(vec![txin], vec![txout]);
    block.add_transaction(tx);
    assert_eq!(block.transactions.len(), 1);
}

#[test]
fn test_blockchain() {
    let blockchain = BlockChain::new();
    assert_eq!(blockchain.get_block_count(), 0);
}

#[test]
fn test_blockchain_add_multiple_blocks() {
    let mut blockchain = BlockChain::new();
    let block1 = Block::new(String::from("prev_hash1"));
    let block2 = Block::new(String::from("prev_hash2"));
    blockchain.add_block(block1);
    blockchain.add_block(block2);
    assert_eq!(blockchain.get_block_count(), 2);
}

#[test]
fn content_hash_known_vectors() {
    assert_eq!(
        content_hash(""),
        "e3b0c44298fc1c149afbf4c8996fb92427ae41e4649b934ca495991b7852b855"
    );
    assert_eq!(
        content_hash("abc"),
        "ba7816bf8f01cfea414140de5dae2223b00361a396177a9cb410ff61f20015ad"
    );
}

#[test]
fn decimal_rendering_exact() {
    assert_eq!(u64_to_dec(0), "0");
    assert_eq!(u64_to_dec(7), "7");
    assert_eq!(u64_to_dec(12345), "12345");
    assert_eq!(u64_to_dec(u64::MAX), "18446744073709551615");
}

#[test]
fn txid_is_content_hash_of_serialization() {
    let txin = TxIn::new(String::from("prev_output"), 0, String::from("signature"));
    let txout = TxOut::new(String::from("public_address"), 100);
    let tx = Transaction::new(vec![txin], vec![txout]);
    assert_eq!(tx.txid, content_hash("prev_output0signaturepublic_address100"));
}

#[test]
fn txid_recompute_matches_stored_id() {
    let txin = TxIn::new(String::from("prev_output"), 3, String::from("signature"));
    let txout = TxOut::new(String::from("public_address"), 100);
    let tx = Transaction::new(vec![txin], vec![txout]);
    assert_eq!(tx.calculate_txid(), tx.txid);
}

#[test]
fn empty_transaction_id_is_hash_of_empty_string() {
    let tx = Transaction::new(vec![], vec![]);
    assert_eq!(tx.txid, content_hash(""));
}

#[test]
fn block_hash_covers_header_only() {
    let mut block = Block::new(String::from("prev"));
    block.add_transaction(Transaction::new(vec![], vec![]));
    let h1 = block.hash.clone();
    assert_eq!(h1, content_hash("0prev0"));
    assert_eq!(block.calculate_hash(), h1);
    block.add_transaction(Transaction::new(vec![], vec![TxOut::new(String::from("a"), 1)]));
    assert_eq!(block.hash, h1);
}

#[test]
fn genesis_always_accepted() {
    let mut chain = BlockChain::new();
    let b = Block::new(String::from("no_such_hash"));
    chain.add_block(b);
    assert_eq!(chain.get_block_count(), 1);
}

#[test]
fn linkage_rejection_leaves_chain_unchanged() {
    let mut chain = BlockChain::new();
    let mut b1 = Block::new(String::from("genesis_prev"));
    let tx = Transaction::new(vec![], vec![TxOut::new(String::from("addr"), 50)]);
    let txid = tx.txid.clone();
    b1.add_transaction(tx);
    chain.add_block(b1);
    assert_eq!(chain.get_block_count(), 1);
    assert!(chain.get_utxo(&txid, 0).is_some());

    let mut b2 = Block::new(String::from("wrong_hash"));
    b2.height = 1;
    b2.add_transaction(Transaction::new(
        vec![TxIn::new(txid.clone(), 0, String::from("sig"))],
        vec![],
    ));
    chain.add_block(b2);
    assert_eq!(chain.get_block_count(), 1);
    assert!(chain.get_utxo(&txid, 0).is_some());
}

#[test]
fn linkage_acceptance_extends_chain() {
    let mut chain = BlockChain::new();
    let mut b1 = Block::new(String::from("genesis_prev"));
    b1.add_transaction(Transaction::new(vec![], vec![]));
    let b1_hash = b1.hash.clone();
    chain.add_block(b1);

    let mut b2 = Block::new(b1_hash);
    b2.height = 1;
    b2.add_transaction(Transaction::new(vec![], vec![]));
    let b2_hash = b2.hash.clone();
    chain.add_block(b2);

    assert_eq!(chain.get_block_count(), 2);
    assert_eq!(chain.get_best_block_hash(), Some(b2_hash.as_str()));
}

#[test]
fn utxo_bookkeeping_spend_one_create_two() {
    let mut chain = BlockChain::new();
    let mut b1 = Block::new(String::from("p"));
    let t1 = Transaction::new(vec![], vec![TxOut::new(String::from("alice"), 75)]);
    let txid_a = t1.txid.clone();
    b1.add_transaction(t1);
    let b1_hash = b1.hash.clone();
    chain.add_block(b1);
    assert!(chain.get_utxo(&txid_a, 0).is_some());

    let t2 = Transaction::new(
        vec![TxIn::new(txid_a.clone(), 0, String::from("sig"))],
        vec![
            TxOut::new(String::from("bob"), 30),
            TxOut::new(String::from("carol"), 45),
        ],
    );
    let txid_b = t2.txid.clone();
    let mut b2 = Block::new(b1_hash);
    b2.height = 1;
    b2.add_transaction(t2);
    chain.add_block(b2);

    assert_eq!(chain.get_block_count(), 2);
    assert!(chain.get_utxo(&txid_a, 0).is_none());
    let o0 = chain.get_utxo(&txid_b, 0).expect("first created output");
    assert_eq!(o0.public_address, "bob");
    assert_eq!(o0.satoshis, 30);
    let o1 = chain.get_utxo(&txid_b, 1).expect("second created output");
    assert_eq!(o1.public_address, "carol");
    assert_eq!(o1.satoshis, 45);
}

#[test]
fn read_queries_idempotent() {
    let mut chain = BlockChain::new();
    let mut b1 = Block::new(String::from("p"));
    let t1 = Transaction::new(vec![], vec![TxOut::new(String::from("alice"), 5)]);
    let txid = t1.txid.clone();
    b1.add_transaction(t1);
    let b1_hash = b1.hash.clone();
    chain.add_block(b1);

    let r1 = chain.get_block_by_hash(&b1_hash).map(|b| b.hash.clone());
    let r2 = chain.get_block_by_hash(&b1_hash).map(|b| b.hash.clone());
    assert_eq!(r1, r2);

    let h1 = chain.get_block_by_height(0).map(|b| b.hash.clone());
    let h2 = chain.get_block_by_height(0).map(|b| b.hash.clone());
    assert_eq!(h1, h2);

    let t1 = chain.get_transaction(&txid).map(|t| t.txid.clone());
    let t2 = chain.get_transaction(&txid).map(|t| t.txid.clone());
    assert_eq!(t1, t2);
    assert_eq!(t1, Some(txid));
}

#[test]
fn empty_chain_queries() {
    let chain = BlockChain::new();
    assert_eq!(chain.get_block_count(), 0);
    assert!(chain.get_best_block_hash().is_none());
    assert!(chain.get_block_by_hash("deadbeef").is_none());
    assert!(chain.get_block_by_height(0).is_none());
    assert!(chain.get_transaction("absent").is_none());
    assert!(chain.get_utxo("absent", 0).is_none());
}

#[test]
fn block_get_transaction_finds_by_id() {
    let mut block = Block::new(String::from("p"));
    let t1 = Transaction::new(vec![], vec![TxOut::new(String::from("x"), 1)]);
    let id1 = t1.txid.clone();
    block.add_transaction(t1);
    let found = block.get_transaction(&id1).expect("transaction present");
    assert_eq!(found.txid, id1);
    assert!(block.get_transaction("missing").is_none());
}
