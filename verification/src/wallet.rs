use crate::digest::{hash_text, hex_encode, hex_string, sha256, sha256_digest};
use crate::signing::{
    check_signature, ecdsa_sign, p256_public_key, p256_signature, public_key_of, random_secret,
    signature_verdict,
};
use crate::transaction::{Transaction, TransactionView};
use vstd::prelude::*;
use vstd::utf8::encode_utf8;

verus! {

/// A P-256 key pair that signs transactions. The secret scalar never leaves
/// the wallet; the public key is held as an uncompressed SEC1 point.
pub struct Wallet {
    private_key: Vec<u8>,
    public_key: Vec<u8>,
}

impl Wallet {
    /// The public key is the one that belongs to the secret.
    #[verifier::type_invariant]
    spec fn keys_belong_together(self) -> bool {
        p256_public_key(self.private_key@) == Some(self.public_key@)
    }

    /// The bytes of the secret scalar.
    pub closed spec fn secret(&self) -> Seq<u8> {
        self.private_key@
    }

    /// The bytes of the public key.
    pub closed spec fn public(&self) -> Seq<u8> {
        self.public_key@
    }

    /// A wallet with a fresh random key pair.
    pub fn new() -> (wallet: Wallet)
        ensures
            p256_public_key(wallet.secret()) == Some(wallet.public()),
    {
        let private_key = random_secret();
        let public_key = public_key_of(private_key.as_slice()).unwrap();
        Wallet { private_key, public_key }
    }

    /// The public key as an uncompressed SEC1 point.
    pub fn public_key(&self) -> (key: &Vec<u8>)
        ensures
            key@ == self.public(),
            p256_public_key(self.secret()) == Some(self.public()),
    {
        proof {
            use_type_invariant(self);
        }
        &self.public_key
    }

    /// The address of the wallet: the hash of its public key, as text.
    pub fn generate_address(&self) -> (address: String)
        ensures
            address@ == hash_text(self.public()),
    {
        let hashed_public_key = Wallet::hash_public_key(self.public_key.as_slice());
        hex_encode(hashed_public_key.as_slice())
    }

    /// The SHA-256 digest of an encoded public key.
    pub fn hash_public_key(public_key: &[u8]) -> (digest: Vec<u8>)
        ensures
            digest@ == sha256(public_key@),
            digest@.len() == 32,
    {
        sha256_digest(public_key)
    }

    /// Signs the signing digest of `transaction` and stores the signature, in
    /// hexadecimal, and the wallet's public key on it. Everything else stays.
    /// Where the key gives no signature, the transaction stays as it was.
    pub fn sign_transaction(&self, transaction: &mut Transaction)
        ensures
            final(transaction)@ == signed_by(
                old(transaction)@,
                self.public(),
                p256_signature(self.secret(), encode_utf8(old(transaction)@.signing_digest())),
            ),
    {
        let transaction_hash = transaction.calculate_hash_sign();
        match ecdsa_sign(self.private_key.as_slice(), transaction_hash.as_str().as_bytes()) {
            Some(signature) => {
                transaction.signature = Some(hex_encode(signature.as_slice()));
                transaction.public_key = Some(self.public_key.clone());
            },
            None => {},
        }
    }

    /// Whether `transaction` carries a signature that this wallet's public key
    /// accepts for its signing digest. An absent or malformed signature is not
    /// accepted.
    pub fn verify_signature(&self, transaction: &Transaction) -> (accepted: bool)
        ensures
            accepted == (transaction@.signature matches Some(signature) && signature_verdict(
                transaction@.signing_digest(),
                signature,
                self.public(),
            ) is Ok),
    {
        match &transaction.signature {
            Some(signature) => {
                let transaction_hash = transaction.calculate_hash_sign();
                check_signature(
                    transaction_hash.as_str(),
                    signature.as_str(),
                    self.public_key.as_slice(),
                ).is_ok()
            },
            None => false,
        }
    }
}

/// A transaction after signing: with a signature, it carries the signature in
/// hexadecimal and the signer's public key; without one it is unchanged.
pub open spec fn signed_by(
    tx: TransactionView,
    public_key: Seq<u8>,
    signature: Option<Seq<u8>>,
) -> TransactionView {
    match signature {
        Some(bytes) => TransactionView {
            signature: Some(hex_string(bytes)),
            public_key: Some(public_key),
            ..tx
        },
        None => tx,
    }
}

/// Signing does not change what is signed: the signing digest covers neither
/// the signature nor the public key, so the signed transaction has the digest
/// that the signature was made over.
pub proof fn lemma_signing_keeps_the_digest(
    tx: TransactionView,
    public_key: Seq<u8>,
    signature: Option<Seq<u8>>,
)
    ensures
        signed_by(tx, public_key, signature).signing_digest() == tx.signing_digest(),
{
}

} // verus!
