use ledger_core::blockchain::receive_transaction;
use ledger_core::error::LedgerError;
use ledger_core::transaction::Transaction;
use ledger_core::wallet::Wallet;

fn transfer(sender: &str, receiver: &str, amount: u64, fee: u64, timestamp: u128) -> Transaction {
    Transaction {
        sender: sender.to_string(),
        receiver: receiver.to_string(),
        amount,
        fee,
        signature: None,
        public_key: None,
        timestamp,
    }
}

#[test]
fn test_create_wallet() {
    let wallet = Wallet::new();
    let address = wallet.generate_address();

    println!("Your wallet address: {}", address);
}

#[test]
fn wallet_test_verify_transaction() {
    let wallet = Wallet::new();

    let mut transaction = Transaction::new(String::from("A"), String::from("B"), 1000, 1);
    wallet.sign_transaction(&mut transaction);

    let is_valid = wallet.verify_signature(&transaction);
    assert!(is_valid);
}

#[test]
fn address_is_the_hash_of_the_public_key() {
    let wallet = Wallet::new();
    let key = wallet.public_key().clone();
    assert_eq!(key.len(), 65);
    assert_eq!(key[0], 4);
    let digest = Wallet::hash_public_key(&key);
    assert_eq!(digest.len(), 32);
    let address = wallet.generate_address();
    assert_eq!(address.len(), 64);
    assert_eq!(address, hex::encode(&digest));
    assert!(address.chars().all(|c| c.is_ascii_digit() || ('a'..='f').contains(&c)));
    assert_eq!(address, wallet.generate_address());
}

#[test]
fn hash_public_key_is_sha256() {
    let digest = Wallet::hash_public_key(b"hello");
    assert_eq!(
        hex::encode(digest),
        "2cf24dba5fb0a30e26e83b2ac5b9e29e1b161e5c1fa7425e73043362938b9824"
    );
}

#[test]
fn wallets_draw_different_keys() {
    let first = Wallet::new();
    let second = Wallet::new();
    assert_ne!(first.public_key(), second.public_key());
    assert_ne!(first.generate_address(), second.generate_address());
}

#[test]
fn signing_sets_signature_and_key_and_nothing_else() {
    let wallet = Wallet::new();
    let mut transaction = transfer("A", "B", 1000, 1, 1_700_000_000_000);
    let digest_before = transaction.calculate_hash_sign();
    assert!(!transaction.is_signed());
    wallet.sign_transaction(&mut transaction);
    assert!(transaction.is_signed());
    assert_eq!(transaction.sender, "A");
    assert_eq!(transaction.receiver, "B");
    assert_eq!(transaction.amount, 1000);
    assert_eq!(transaction.fee, 1);
    assert_eq!(transaction.timestamp, 1_700_000_000_000);
    assert_eq!(transaction.public_key.as_ref(), Some(wallet.public_key()));
    let signature = transaction.signature.clone().unwrap();
    assert_eq!(signature.len(), 128);
    assert_eq!(hex::decode(&signature).unwrap().len(), 64);
    assert_eq!(transaction.calculate_hash_sign(), digest_before);
}

#[test]
fn signing_is_deterministic() {
    let wallet = Wallet::new();
    let mut first = transfer("A", "B", 1000, 1, 1_700_000_000_000);
    let mut second = transfer("A", "B", 1000, 1, 1_700_000_000_000);
    wallet.sign_transaction(&mut first);
    wallet.sign_transaction(&mut second);
    assert_eq!(first.signature, second.signature);
}

#[test]
fn verify_signature_fails_closed() {
    let wallet = Wallet::new();
    let other = Wallet::new();
    let unsigned = transfer("A", "B", 1000, 1, 7);
    assert!(!wallet.verify_signature(&unsigned));

    let mut signed = transfer("A", "B", 1000, 1, 7);
    wallet.sign_transaction(&mut signed);
    assert!(wallet.verify_signature(&signed));
    assert!(!other.verify_signature(&signed));

    let mut altered = signed.clone();
    altered.amount = 1001;
    assert!(!wallet.verify_signature(&altered));

    let mut not_hex = signed.clone();
    not_hex.signature = Some("zz".to_string());
    assert!(!wallet.verify_signature(&not_hex));

    let mut odd = signed.clone();
    odd.signature = Some("abc".to_string());
    assert!(!wallet.verify_signature(&odd));
}

#[test]
fn the_fee_is_not_signed() {
    let wallet = Wallet::new();
    let mut signed = transfer("A", "B", 1000, 1, 7);
    wallet.sign_transaction(&mut signed);
    signed.fee = 999;
    assert!(wallet.verify_signature(&signed));
    assert_eq!(receive_transaction(&signed), Ok(()));
}

#[test]
fn test_receive_transaction() {
    let wallet = Wallet::new();
    let mut transaction = Transaction::new(String::from("A"), String::from("B"), 1000, 1);
    wallet.sign_transaction(&mut transaction);

    assert!(receive_transaction(&transaction).is_ok());
}

#[test]
fn receive_transaction_names_each_failure() {
    let wallet = Wallet::new();
    let unsigned = transfer("A", "B", 1000, 1, 7);
    assert_eq!(receive_transaction(&unsigned), Err(LedgerError::UnsignedTransaction));

    let mut signed = transfer("A", "B", 1000, 1, 7);
    wallet.sign_transaction(&mut signed);
    assert_eq!(receive_transaction(&signed), Ok(()));

    let mut keyless = signed.clone();
    keyless.public_key = None;
    assert_eq!(receive_transaction(&keyless), Err(LedgerError::UnsignedTransaction));

    let mut not_hex = signed.clone();
    not_hex.signature = Some("not hexadecimal".to_string());
    assert_eq!(receive_transaction(&not_hex), Err(LedgerError::MalformedSignature));

    let mut odd = signed.clone();
    odd.signature = Some("abc".to_string());
    assert_eq!(receive_transaction(&odd), Err(LedgerError::MalformedSignature));

    let mut short = signed.clone();
    short.signature = Some("00ff".to_string());
    assert_eq!(receive_transaction(&short), Err(LedgerError::MalformedSignature));

    let mut zero = signed.clone();
    zero.signature = Some("00".repeat(64));
    assert_eq!(receive_transaction(&zero), Err(LedgerError::MalformedSignature));

    let mut upper = signed.clone();
    upper.signature = Some(signed.signature.clone().unwrap().to_uppercase());
    assert_eq!(receive_transaction(&upper), Ok(()));

    let mut altered = signed.clone();
    altered.receiver = "C".to_string();
    assert_eq!(receive_transaction(&altered), Err(LedgerError::InvalidSignature));

    let mut foreign = signed.clone();
    foreign.public_key = Some(Wallet::new().public_key().clone());
    assert_eq!(receive_transaction(&foreign), Err(LedgerError::InvalidSignature));

    let mut no_key = signed.clone();
    no_key.public_key = Some(vec![1, 2, 3]);
    assert_eq!(receive_transaction(&no_key), Err(LedgerError::InvalidSignature));
}
