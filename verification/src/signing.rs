use p256::ecdsa::signature::{Signer, Verifier};
use p256::ecdsa::{Signature, SigningKey, VerifyingKey};
use rand::rngs::OsRng;
use crate::digest::{hex_decode, hex_value, is_hex_text};
use crate::error::LedgerError;
use vstd::prelude::*;
use vstd::utf8::encode_utf8;

verus! {

/// The uncompressed SEC1 encoding of the P-256 public key that belongs to a
/// secret scalar given as bytes, where the bytes are a signing key at all.
pub uninterp spec fn p256_public_key(secret: Seq<u8>) -> Option<Seq<u8>>;

/// The fixed-size ECDSA/P-256 signature that a secret key gives a message, with
/// the nonce derived from key and message, where signing succeeds.
pub uninterp spec fn p256_signature(secret: Seq<u8>, message: Seq<u8>) -> Option<Seq<u8>>;

/// Whether bytes parse as a fixed-size ECDSA/P-256 signature.
pub uninterp spec fn p256_signature_parses(signature: Seq<u8>) -> bool;

/// Whether a SEC1-encoded P-256 public key accepts a signature for a message.
/// Bytes that are no key, or no signature, accept nothing.
pub uninterp spec fn p256_verifies(
    public_key: Seq<u8>,
    message: Seq<u8>,
    signature: Seq<u8>,
) -> bool;

/// Calls `SigningKey::random` with the operating system's generator and hands
/// the key out as its scalar's bytes. Which key comes out is left open; the
/// bytes are those of a signing key, so a public key belongs to them.
#[verifier::external_body]
pub(crate) fn random_secret() -> (secret: Vec<u8>)
    ensures
        p256_public_key(secret@) is Some,
{
    SigningKey::random(&mut OsRng).to_bytes().to_vec()
}

/// Converts a signing key to its `VerifyingKey` and hands it out as an
/// uncompressed SEC1 point. `None` where the bytes are no signing key.
#[verifier::external_body]
pub(crate) fn public_key_of(secret: &[u8]) -> (key: Option<Vec<u8>>)
    ensures
        key is Some <==> p256_public_key(secret@) is Some,
        key matches Some(bytes) ==> p256_public_key(secret@) == Some(bytes@),
{
    match SigningKey::from_slice(secret) {
        Ok(signing_key) => {
            let point = VerifyingKey::from(&signing_key).to_encoded_point(false);
            Some(point.as_bytes().to_vec())
        },
        Err(_) => None,
    }
}

/// Calls `Signer::try_sign` of a P-256 signing key. `None` where the bytes are
/// no signing key or signing fails.
#[verifier::external_body]
pub(crate) fn ecdsa_sign(secret: &[u8], message: &[u8]) -> (signature: Option<Vec<u8>>)
    ensures
        signature is Some <==> p256_signature(secret@, message@) is Some,
        signature matches Some(bytes) ==> p256_signature(secret@, message@) == Some(bytes@),
{
    match SigningKey::from_slice(secret) {
        Ok(signing_key) => {
            let signed: Result<Signature, p256::ecdsa::Error> = signing_key.try_sign(message);
            match signed {
                Ok(signature) => Some(signature.to_bytes().to_vec()),
                Err(_) => None,
            }
        },
        Err(_) => None,
    }
}

/// Calls `Signature::from_slice` for P-256 and reports whether it parsed.
#[verifier::external_body]
pub(crate) fn signature_parses(signature: &[u8]) -> (parses: bool)
    ensures
        parses == p256_signature_parses(signature@),
{
    Signature::from_slice(signature).is_ok()
}

/// Calls `Verifier::verify` of a P-256 verifying key, after parsing key and
/// signature from bytes. `false` where either does not parse.
#[verifier::external_body]
pub(crate) fn ecdsa_verify(public_key: &[u8], message: &[u8], signature: &[u8]) -> (accepted: bool)
    ensures
        accepted == p256_verifies(public_key@, message@, signature@),
{
    match (VerifyingKey::from_sec1_bytes(public_key), Signature::from_slice(signature)) {
        (Ok(key), Ok(parsed)) => key.verify(message, &parsed).is_ok(),
        _ => false,
    }
}

/// What checking a stored signature comes to. The signature text must be an
/// even number of hexadecimal digits and its bytes a P-256 signature, or it is
/// malformed; a well-formed signature that the key does not accept for the
/// digest text is invalid.
pub open spec fn signature_verdict(
    digest: Seq<char>,
    signature: Seq<char>,
    public_key: Seq<u8>,
) -> Result<(), LedgerError> {
    let text = encode_utf8(signature);
    if !is_hex_text(text) {
        Err(LedgerError::MalformedSignature)
    } else if !p256_signature_parses(hex_value(text)) {
        Err(LedgerError::MalformedSignature)
    } else if !p256_verifies(public_key, encode_utf8(digest), hex_value(text)) {
        Err(LedgerError::InvalidSignature)
    } else {
        Ok(())
    }
}

/// Checks the hexadecimal `signature` against `public_key` for the text of a
/// signing digest.
pub fn check_signature(digest: &str, signature: &str, public_key: &[u8]) -> (verdict: Result<
    (),
    LedgerError,
>)
    ensures
        verdict == signature_verdict(digest@, signature@, public_key@),
{
    let bytes = match hex_decode(signature.as_bytes()) {
        Ok(bytes) => bytes,
        Err(_) => {
            return Err(LedgerError::MalformedSignature);
        },
    };
    if !signature_parses(bytes.as_slice()) {
        return Err(LedgerError::MalformedSignature);
    }
    if !ecdsa_verify(public_key, digest.as_bytes(), bytes.as_slice()) {
        return Err(LedgerError::InvalidSignature);
    }
    Ok(())
}

} // verus!
