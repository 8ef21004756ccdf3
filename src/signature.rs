use vstd::prelude::*;

use crate::commitment::commitment_digest;
use crate::error::ChannelError;

verus! {

#[verifier::external_type_specification]
#[verifier::external_body]
pub struct ExPublicKey(secp256k1::PublicKey);

#[verifier::external_type_specification]
#[verifier::external_body]
pub struct ExSignature(secp256k1::Signature);

/// Whether 33 bytes are the compressed encoding of a point of secp256k1.
pub uninterp spec fn compressed_key_valid(key: Seq<u8>) -> bool;

/// Whether a 64-byte (r, s) signature is a valid ECDSA signature of a 32-byte
/// digest under the public key with the given compressed encoding.
pub uninterp spec fn ecdsa_verifies(digest: Seq<u8>, signature: Seq<u8>, key: Seq<u8>) -> bool;

/// A public key together with the compressed bytes it was parsed from.
pub struct ParsedKey {
    key: secp256k1::PublicKey,
    bytes: [u8; 33],
}

/// A signature together with the bytes it was parsed from.
pub struct ParsedSignature {
    sig: secp256k1::Signature,
    bytes: Vec<u8>,
}

impl ParsedKey {
    pub closed spec fn encoding(&self) -> Seq<u8> {
        self.bytes@
    }
}

impl ParsedSignature {
    pub closed spec fn encoding(&self) -> Seq<u8> {
        self.bytes@
    }
}

/// Relies on secp256k1::PublicKey::parse_compressed: it accepts exactly the
/// valid compressed points, whose first byte is 2 or 3.
#[verifier::external_body]
pub(crate) fn parse_compressed_key(key: &[u8]) -> (r: Option<ParsedKey>)
    requires
        key@.len() == 33,
    ensures
        r.is_some() == compressed_key_valid(key@),
        r.is_some() ==> key@[0] == 2u8 || key@[0] == 3u8,
        r matches Some(k) ==> k.encoding() == key@,
{
    let mut bytes = [0u8; 33];
    bytes.copy_from_slice(key);
    match secp256k1::PublicKey::parse_compressed(&bytes) {
        Ok(k) => Some(ParsedKey { key: k, bytes }),
        Err(_) => None,
    }
}

/// Relies on secp256k1::Signature::parse_slice: it accepts exactly the
/// slices of 64 bytes.
#[verifier::external_body]
pub(crate) fn parse_signature(sig: &[u8]) -> (r: Option<ParsedSignature>)
    ensures
        r.is_some() == (sig@.len() == 64),
        r matches Some(s) ==> s.encoding() == sig@,
{
    match secp256k1::Signature::parse_slice(sig) {
        Ok(s) => Some(ParsedSignature { sig: s, bytes: sig.to_vec() }),
        Err(_) => None,
    }
}

/// Relies on secp256k1::verify, with the digest carried by
/// secp256k1::Message::parse: the outcome depends on the digest, the
/// signature's bytes and the key's bytes alone.
#[verifier::external_body]
pub(crate) fn ecdsa_verify(digest: &[u8; 32], sig: &ParsedSignature, key: &ParsedKey) -> (r: bool)
    ensures
        r == ecdsa_verifies(digest@, sig.encoding(), key.encoding()),
{
    secp256k1::verify(&secp256k1::Message::parse(digest), &sig.sig, &key.key)
}

/// The outcome of checking a claim's signature: the payer's identifier must
/// be a compressed public key, the signature 64 bytes, and the signature must
/// verify over the commitment digest of (payee, nonce, amount).
pub open spec fn signature_check(
    payer: Seq<u8>,
    payee: Seq<u8>,
    nonce: u32,
    amount: u128,
    signature: Seq<u8>,
) -> Result<(), ChannelError> {
    if payer.len() != 33 || !compressed_key_valid(payer) {
        Err(ChannelError::InvalidAccountKeyEncoding)
    } else if signature.len() != 64 {
        Err(ChannelError::InvalidSignatureEncoding)
    } else if !ecdsa_verifies(commitment_digest(payee, nonce, amount), signature, payer) {
        Err(ChannelError::SignatureVerificationFailed)
    } else {
        Ok(())
    }
}

} // verus!
