//! Who may mint a course certificate: the bearer of the admin's signature over the course
//! and the bearer's own account.

use vstd::prelude::*;
use vstd::string::{StringExecFns, StringSliceAdditionalSpecFns};
use vstd::utf8::encode_utf8;
use ed25519_dalek::Verifier;

verus! {

/// Why a signature does not entitle its bearer to mint.
#[derive(Clone, Copy, Debug, PartialEq, Eq, Structural)]
pub enum MintError {
    /// The signature is not Base64.
    SignatureEncoding,
    /// The admin's public key is not Base64, or what it encodes is no Ed25519 public key.
    PublicKey,
    /// What the signature encodes is no Ed25519 signature.
    SignatureFormat,
    /// The signature is not the admin's signature of the message.
    Mismatch,
}

/// The bytes that a text encodes in Base64 with the standard alphabet, or `None` where the
/// text is no such encoding.
pub uninterp spec fn base64_decoded(text: Seq<char>) -> Option<Seq<u8>>;

/// Whether the bytes are the compressed form of a point of the Ed25519 curve.
pub uninterp spec fn is_public_key(bytes: Seq<u8>) -> bool;

/// Whether `signature` is a valid Ed25519 signature of `message` under the public key
/// `public_key`.
pub uninterp spec fn is_signed_by(public_key: Seq<u8>, message: Seq<u8>, signature: Seq<u8>)
    -> bool;

/// Whether the bytes have the form of an Ed25519 signature: 64 bytes, the highest three bits
/// of the last one unset.
pub open spec fn is_signature_form(bytes: Seq<u8>) -> bool {
    bytes.len() == 64 && bytes[63] & 0xe0 == 0
}

/// The message that the admin signs to let `user` mint for `course_id`: the course, a colon,
/// the user.
pub open spec fn mint_message(course_id: Seq<char>, user: Seq<char>) -> Seq<u8> {
    encode_utf8(course_id + ":"@ + user)
}

/// The bytes that a text encodes in Base64, where the decoder takes the text: it takes none
/// within seven bytes of the longest there can be.
pub open spec fn decoded(text: Seq<char>) -> Option<Seq<u8>> {
    if encode_utf8(text).len() + 7 <= usize::MAX {
        base64_decoded(text)
    } else {
        None
    }
}

/// The verdict on a decoded signature and a decoded public key.
pub open spec fn verdict(
    signature: Option<Seq<u8>>,
    public_key: Option<Seq<u8>>,
    message: Seq<u8>,
) -> Result<(), MintError> {
    if signature is None {
        Err(MintError::SignatureEncoding)
    } else if public_key is None {
        Err(MintError::PublicKey)
    } else if !is_signature_form(signature->0) {
        Err(MintError::SignatureFormat)
    } else if !is_public_key(public_key->0) {
        Err(MintError::PublicKey)
    } else if !is_signed_by(public_key->0, message, signature->0) {
        Err(MintError::Mismatch)
    } else {
        Ok(())
    }
}

/// `base64::decode`, as `near_sdk` hands it on: the bytes that the text encodes in standard
/// Base64, or nothing where it encodes none. The decoder gives up on a text within seven
/// bytes of the longest there can be, so such a text is kept from it.
#[verifier::external_body]
fn decode_base64(text: &str) -> (r: Option<Vec<u8>>)
    requires
        text.spec_bytes().len() + 7 <= usize::MAX,
    ensures
        match r {
            Some(bytes) => base64_decoded(text@) == Some(bytes@),
            None => base64_decoded(text@) is None,
        },
{
    near_sdk::base64::decode(text).ok()
}

/// `ed25519_dalek::Signature::from_bytes`: it takes exactly 64 bytes of which the last has
/// its highest three bits unset.
#[verifier::external_body]
fn has_signature_form(bytes: &[u8]) -> (r: bool)
    ensures
        r == is_signature_form(bytes@),
{
    ed25519_dalek::Signature::from_bytes(bytes).is_ok()
}

/// `ed25519_dalek::PublicKey::from_bytes`: it takes exactly 32 bytes that decompress to a
/// point of the curve.
#[verifier::external_body]
fn decodes_to_public_key(bytes: &[u8]) -> (r: bool)
    ensures
        r == is_public_key(bytes@),
{
    ed25519_dalek::PublicKey::from_bytes(bytes).is_ok()
}

/// `ed25519_dalek::PublicKey::verify`, on a key and a signature that both parse: whether the
/// signature is valid for the message under the key.
#[verifier::external_body]
fn verifies(public_key: &[u8], message: &[u8], signature: &[u8]) -> (r: bool)
    requires
        is_public_key(public_key@),
        is_signature_form(signature@),
    ensures
        r == is_signed_by(public_key@, message@, signature@),
{
    let key = ed25519_dalek::PublicKey::from_bytes(public_key).unwrap();
    let signature = ed25519_dalek::Signature::from_bytes(signature).unwrap();
    key.verify(message, &signature).is_ok()
}

/// Judges a signature and a public key that have been decoded, or could not be: the
/// signature must have the form of one, the key must be a point of the curve, and the
/// signature must be valid for the message under the key.
pub fn check_signature(signature: &Option<Vec<u8>>, public_key: &Option<Vec<u8>>, message: &[u8])
    -> (r: Result<(), MintError>)
    ensures
        r == verdict(
            match *signature {
                Some(bytes) => Some(bytes@),
                None => None,
            },
            match *public_key {
                Some(bytes) => Some(bytes@),
                None => None,
            },
            message@,
        ),
{
    let signature_bytes: &Vec<u8> = match signature {
        Some(bytes) => bytes,
        None => {
            return Err(MintError::SignatureEncoding);
        },
    };
    let key_bytes: &Vec<u8> = match public_key {
        Some(bytes) => bytes,
        None => {
            return Err(MintError::PublicKey);
        },
    };
    if !has_signature_form(signature_bytes.as_slice()) {
        return Err(MintError::SignatureFormat);
    }
    if !decodes_to_public_key(key_bytes.as_slice()) {
        return Err(MintError::PublicKey);
    }
    if !verifies(key_bytes.as_slice(), message, signature_bytes.as_slice()) {
        return Err(MintError::Mismatch);
    }
    Ok(())
}

/// Base64-decodes a text, if it is one the decoder takes.
pub fn decode(text: &str) -> (r: Option<Vec<u8>>)
    ensures
        match r {
            Some(bytes) => decoded(text@) == Some(bytes@),
            None => decoded(text@) is None,
        },
{
    if text.as_bytes().len() > usize::MAX - 7 {
        None
    } else {
        decode_base64(text)
    }
}

/// Whether `signature_base64` entitles `user` to mint for `course_id`: it must be the Base64
/// form of the signature, under the key whose Base64 form is `admin_pub_key`, of the course
/// id, a colon and the user.
pub fn check_mint_signature(
    admin_pub_key: &str,
    signature_base64: &str,
    course_id: &str,
    user: &str,
) -> (r: Result<(), MintError>)
    ensures
        r == verdict(
            decoded(signature_base64@),
            decoded(admin_pub_key@),
            mint_message(course_id@, user@),
        ),
{
    let signature = decode(signature_base64);
    let public_key = decode(admin_pub_key);
    let mut message = String::from_str(course_id);
    message.append(":");
    message.append(user);
    check_signature(&signature, &public_key, message.as_str().as_bytes())
}

} // verus!
