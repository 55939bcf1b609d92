use ledger_core::blockchain::receive_transaction;
use ledger_core::transaction::Transaction;
use ledger_core::wallet::Wallet;
use p256::ecdsa::signature::{Signer, Verifier};
use p256::ecdsa::{Signature, SigningKey, VerifyingKey};
use sha2::{Digest, Sha256};

fn transfer(amount: u64, timestamp: u128) -> Transaction {
    Transaction {
        sender: "Alice".to_string(),
        receiver: "Bob".to_string(),
        amount,
        fee: 2,
        signature: None,
        public_key: None,
        timestamp,
    }
}

#[test]
fn the_public_key_is_an_uncompressed_p256_point() {
    let wallet = Wallet::new();
    let key = VerifyingKey::from_sec1_bytes(wallet.public_key()).unwrap();
    assert_eq!(key.to_encoded_point(false).as_bytes(), wallet.public_key().as_slice());
    let digest = Sha256::digest(key.to_encoded_point(false).as_bytes());
    assert_eq!(wallet.generate_address(), hex::encode(digest));
}

#[test]
fn a_wallet_signature_is_ecdsa_over_the_digest_text() {
    let wallet = Wallet::new();
    let mut tx = transfer(50, 1_700_000_000_000);
    wallet.sign_transaction(&mut tx);
    let key = VerifyingKey::from_sec1_bytes(tx.public_key.as_ref().unwrap()).unwrap();
    let bytes = hex::decode(tx.signature.as_ref().unwrap()).unwrap();
    let signature = Signature::from_slice(&bytes).unwrap();
    let digest = tx.calculate_hash_sign();
    assert_eq!(digest, hex::encode(Sha256::digest(b"AliceBob501700000000000")));
    assert!(key.verify(digest.as_bytes(), &signature).is_ok());
    assert!(key.verify(b"AliceBob501700000000000", &signature).is_err());
    assert_eq!(tx.signature.as_ref().unwrap(), &tx.signature.as_ref().unwrap().to_lowercase());
}

#[test]
fn a_signature_made_elsewhere_is_accepted() {
    let secret = [7u8; 32];
    let signing_key = SigningKey::from_slice(&secret).unwrap();
    let mut tx = transfer(50, 1_700_000_000_000);
    let signature: Signature = signing_key.sign(tx.calculate_hash_sign().as_bytes());
    tx.signature = Some(hex::encode(signature.to_bytes()));
    // Compressed or uncompressed, the stored key is read as a SEC1 point.
    let key = VerifyingKey::from(&signing_key);
    tx.public_key = Some(key.to_encoded_point(false).as_bytes().to_vec());
    assert_eq!(receive_transaction(&tx), Ok(()));
    tx.public_key = Some(key.to_encoded_point(true).as_bytes().to_vec());
    assert_eq!(receive_transaction(&tx), Ok(()));
    tx.signature = Some(hex::encode_upper(signature.to_bytes()));
    assert_eq!(receive_transaction(&tx), Ok(()));
}
