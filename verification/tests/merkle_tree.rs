use ledger_core::error::LedgerError;
use ledger_core::merkle_tree::MerkleTree;
use ledger_core::transaction::Transaction;
use ledger_core::wallet::Wallet;

fn signed(wallet: &Wallet, sender: &str, receiver: &str, amount: u64, timestamp: u128) -> Transaction {
    let mut tx = Transaction {
        sender: sender.to_string(),
        receiver: receiver.to_string(),
        amount,
        fee: 0,
        signature: None,
        public_key: None,
        timestamp,
    };
    wallet.sign_transaction(&mut tx);
    tx
}

fn stamped(sender: &str, signature: &str) -> Transaction {
    Transaction {
        sender: sender.to_string(),
        receiver: "B".to_string(),
        amount: 1000,
        fee: 0,
        signature: Some(signature.to_string()),
        public_key: Some(vec![4]),
        timestamp: 1_700_000_000_000,
    }
}

fn batch_of(count: usize) -> Vec<Transaction> {
    let wallet = Wallet::new();
    (0..count).map(|i| signed(&wallet, "A", "B", i as u64, 1000 + i as u128)).collect()
}

#[test]
fn merkle_tree_test_verify_transaction() {
    let wallet = Wallet::new();

    let mut tx1 = Transaction::new(String::from("A"), String::from("B"), 100, 0);
    let mut tx2 = Transaction::new(String::from("C"), String::from("D"), 10, 0);
    let mut tx3 = Transaction::new(String::from("E"), String::from("F"), 1, 0);
    wallet.sign_transaction(&mut tx1);
    wallet.sign_transaction(&mut tx2);
    wallet.sign_transaction(&mut tx3);

    let transactions = vec![tx1.clone(), tx2];

    let merkle_tree = MerkleTree::new(&transactions).unwrap();
    let merkle_path = merkle_tree.get_merkle_path(0).unwrap();

    assert!(merkle_tree.verify_transaction(&tx1, 0, merkle_path).unwrap());
}

#[test]
fn unsigned_transactions_cannot_be_committed() {
    let tx1 = Transaction::new(String::from("A"), String::from("B"), 100, 0);
    let tx2 = Transaction::new(String::from("C"), String::from("D"), 10, 0);
    let built = MerkleTree::new(&[tx1.clone(), tx2]);
    assert_eq!(built.err(), Some(LedgerError::UnsignedTransaction));

    let mut mixed = batch_of(2);
    mixed.push(tx1.clone());
    assert_eq!(MerkleTree::new(&mixed).err(), Some(LedgerError::UnsignedTransaction));

    let mut keyless = batch_of(1);
    keyless[0].public_key = None;
    assert_eq!(MerkleTree::new(&keyless).err(), Some(LedgerError::UnsignedTransaction));

    let tree = MerkleTree::new(&batch_of(2)).unwrap();
    assert_eq!(tree.verify_transaction(&tx1, 0, vec![]), Err(LedgerError::UnsignedTransaction));
    assert_eq!(
        tree.verify_transaction(&keyless[0], 0, vec![]),
        Err(LedgerError::UnsignedTransaction)
    );
}

#[test]
fn an_empty_batch_has_no_root() {
    assert_eq!(MerkleTree::new(&[]).err(), Some(LedgerError::ConfigurationError));
    assert_eq!(MerkleTree::calculate_root(&[]), Err(LedgerError::ConfigurationError));
}

#[test]
fn hash_is_sha256_in_lowercase_hex() {
    assert_eq!(
        MerkleTree::hash("hello"),
        "2cf24dba5fb0a30e26e83b2ac5b9e29e1b161e5c1fa7425e73043362938b9824"
    );
    assert_eq!(
        MerkleTree::hash(""),
        "e3b0c44298fc1c149afbf4c8996fb92427ae41e4649b934ca495991b7852b855"
    );
}

#[test]
fn a_leaf_is_the_hash_of_the_content_hash() {
    let tx = stamped("A", "00ff");
    let tree = MerkleTree::new(&[tx.clone()]).unwrap();
    assert_eq!(
        tree.leaf_nodes,
        vec!["e136f6a54c352c2750cca849c25d0c8f2b8fd37d5fc98243728957706fc62934".to_string()]
    );
    assert_eq!(tree.leaf_nodes[0], MerkleTree::hash(&tx.calculate_hash().unwrap()));
}

#[test]
fn a_single_transaction_is_its_own_root_with_an_empty_path() {
    let tx = stamped("A", "00ff");
    let tree = MerkleTree::new(&[tx.clone()]).unwrap();
    assert_eq!(tree.root, "e136f6a54c352c2750cca849c25d0c8f2b8fd37d5fc98243728957706fc62934");
    let path = tree.get_merkle_path(0).unwrap();
    assert!(path.is_empty());
    assert_eq!(tree.verify_transaction(&tx, 0, path), Ok(true));
}

#[test]
fn root_over_two_and_three_leaves() {
    let a = "a".repeat(64);
    let b = "b".repeat(64);
    let c = "c".repeat(64);
    let ab = MerkleTree::hash(&format!("{}{}", a, b));
    assert_eq!(MerkleTree::calculate_root(&[a.clone()]), Ok(a.clone()));
    assert_eq!(MerkleTree::calculate_root(&[a.clone(), b.clone()]), Ok(ab.clone()));
    let cc = MerkleTree::hash(&format!("{}{}", c, c));
    let root = MerkleTree::hash(&format!("{}{}", ab, cc));
    assert_eq!(MerkleTree::calculate_root(&[a.clone(), b.clone(), c.clone()]), Ok(root.clone()));
    // The padding rule: a repeated last leaf gives the same root.
    assert_eq!(MerkleTree::calculate_root(&[a, b, c.clone(), c]), Ok(root));
}

#[test]
fn path_lists_siblings_from_the_leaves_up() {
    let leaves: Vec<String> = ["a", "b", "c", "d", "e"].iter().map(|s| s.repeat(64)).collect();
    let root = MerkleTree::calculate_root(&leaves).unwrap();
    let tree = MerkleTree { root, leaf_nodes: leaves.clone() };
    let pair = |l: &str, r: &str| MerkleTree::hash(&format!("{}{}", l, r));
    let ab = pair(&leaves[0], &leaves[1]);
    let cd = pair(&leaves[2], &leaves[3]);
    let ee = pair(&leaves[4], &leaves[4]);
    let abcd = pair(&ab, &cd);
    let eeee = pair(&ee, &ee);
    assert_eq!(tree.root, pair(&abcd, &eeee));
    assert_eq!(tree.get_merkle_path(0), Ok(vec![leaves[1].clone(), cd.clone(), eeee.clone()]));
    assert_eq!(tree.get_merkle_path(3), Ok(vec![leaves[2].clone(), ab.clone(), eeee.clone()]));
    assert_eq!(tree.get_merkle_path(4), Ok(vec![leaves[4].clone(), ee.clone(), abcd.clone()]));
    assert_eq!(tree.get_merkle_path(5), Err(LedgerError::ConfigurationError));
}

#[test]
fn every_transaction_verifies_at_its_index_with_its_path() {
    for count in 1..=9 {
        let batch = batch_of(count);
        let tree = MerkleTree::new(&batch).unwrap();
        assert_eq!(tree.leaf_nodes.len(), count);
        for (index, tx) in batch.iter().enumerate() {
            let path = tree.get_merkle_path(index).unwrap();
            assert_eq!(tree.verify_transaction(tx, index, path), Ok(true));
        }
        assert_eq!(tree.get_merkle_path(count), Err(LedgerError::ConfigurationError));
    }
}

#[test]
fn a_changed_transaction_does_not_verify() {
    let batch = batch_of(5);
    let tree = MerkleTree::new(&batch).unwrap();
    let index = 2;
    let path = tree.get_merkle_path(index).unwrap();

    let mut sender = batch[index].clone();
    sender.sender = "Z".to_string();
    assert_eq!(tree.verify_transaction(&sender, index, path.clone()), Ok(false));

    let mut receiver = batch[index].clone();
    receiver.receiver = "Z".to_string();
    assert_eq!(tree.verify_transaction(&receiver, index, path.clone()), Ok(false));

    let mut amount = batch[index].clone();
    amount.amount += 1;
    assert_eq!(tree.verify_transaction(&amount, index, path.clone()), Ok(false));

    let mut timestamp = batch[index].clone();
    timestamp.timestamp += 1;
    assert_eq!(tree.verify_transaction(&timestamp, index, path.clone()), Ok(false));

    let mut signature = batch[index].clone();
    signature.signature = Some("00".repeat(64));
    assert_eq!(tree.verify_transaction(&signature, index, path.clone()), Ok(false));

    // The right transaction at the wrong index, or along another path.
    assert_eq!(tree.verify_transaction(&batch[index], index + 1, path.clone()), Ok(false));
    let other_path = tree.get_merkle_path(0).unwrap();
    assert_eq!(tree.verify_transaction(&batch[index], index, other_path), Ok(false));
    assert_eq!(tree.verify_transaction(&batch[index], index, path), Ok(true));
}

#[test]
fn fee_and_key_are_outside_the_commitment() {
    let batch = batch_of(3);
    let tree = MerkleTree::new(&batch).unwrap();
    let path = tree.get_merkle_path(1).unwrap();
    let mut fee = batch[1].clone();
    fee.fee = 12345;
    assert_eq!(tree.verify_transaction(&fee, 1, path.clone()), Ok(true));
    let mut key = batch[1].clone();
    key.public_key = Some(vec![1, 2, 3]);
    assert_eq!(tree.verify_transaction(&key, 1, path), Ok(true));
}

#[test]
fn clone_keeps_root_and_leaves() {
    let tree = MerkleTree::new(&batch_of(3)).unwrap();
    let copy = tree.clone();
    assert_eq!(copy.root, tree.root);
    assert_eq!(copy.leaf_nodes, tree.leaf_nodes);
}
