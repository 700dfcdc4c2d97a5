//! The asymmetric keys, the text of names, and the outside code they rest on.
//!
//! A public key enters the library as the bincode encoding of an
//! `rsa::RsaPublicKey`. The library keeps the encoding that bincode writes
//! for the key it has read back, so that two keys are the same key exactly
//! when their kept encodings are the same bytes.

use vstd::prelude::*;
use vstd::utf8::{decode_utf8, valid_utf8};

use rand::rngs::OsRng;
use rsa::{PaddingScheme, PublicKey, PublicKeyParts, RsaPrivateKey, RsaPublicKey};

verus! {

/// Size of the keys that agents generate, in bits.
pub const KEY_BITS: usize = 2048;

/// Length of the modulus of a usable key, in bytes; a ciphertext has this length.
pub const KEY_BYTES: usize = 256;

#[verifier::external_type_specification]
#[verifier::external_body]
pub struct ExRsaPrivateKey(RsaPrivateKey);

/// The encoding of the public key that bincode reads from the front of
/// `bytes`, as bincode writes that key again; `None` where no key can be read.
pub uninterp spec fn public_key_of(bytes: Seq<u8>) -> Option<Seq<u8>>;

/// The length in bytes of the modulus of the key that `key` encodes.
pub uninterp spec fn modulus_len_of(key: Seq<u8>) -> nat;

/// The bincode encoding of the public part of `secret`.
pub uninterp spec fn public_part_of(secret: RsaPrivateKey) -> Seq<u8>;

/// What PKCS#1 v1.5 decryption with `secret` makes of `ciphertext`; `None`
/// where it fails.
pub uninterp spec fn decryption_of(secret: RsaPrivateKey, ciphertext: Seq<u8>) -> Option<Seq<u8>>;

/// `ciphertext` is a PKCS#1 v1.5 encryption of `message` under the key that
/// `key` encodes, for some choice of the random padding.
pub uninterp spec fn is_pkcs1_encryption(key: Seq<u8>, message: Seq<u8>, ciphertext: Seq<u8>) -> bool;

/// rsa's check of public keys accepts the exponent of the key that `key`
/// encodes: it lies between 2 and 2^30.
pub uninterp spec fn exponent_accepted(key: Seq<u8>) -> bool;

/// `key` is the encoding of a key as bincode writes it: reading a key from
/// `key` followed by any bytes gives `key` back.
pub open spec fn is_key_encoding(key: Seq<u8>) -> bool {
    forall|rest: Seq<u8>| #[trigger] public_key_of(key + rest) == Some(key)
}

/// Relies on `bincode::deserialize::<rsa::RsaPublicKey>`, which reads the key
/// from the front of `bytes` and ignores what follows it, then on
/// `bincode::serialize` of that key, which writes it back, and on
/// `PublicKeyParts::size`, the length of its modulus in bytes. Reading the
/// written encoding gives the same key, so that encoding reads back as itself.
#[verifier::external_body]
pub(crate) fn read_public_key(bytes: &[u8]) -> (r: Option<(Vec<u8>, usize)>)
    ensures
        match r {
            Some((key, size)) => {
                &&& public_key_of(bytes@) == Some(key@)
                &&& is_key_encoding(key@)
                &&& size == modulus_len_of(key@)
            },
            None => public_key_of(bytes@) is None,
        },
{
    let key: RsaPublicKey = match bincode::deserialize(bytes) {
        Ok(k) => k,
        Err(_) => return None,
    };
    match bincode::serialize(&key) {
        Ok(encoded) => Some((encoded, key.size())),
        Err(_) => None,
    }
}

/// Relies on `bincode::deserialize` to read the key back from its encoding
/// and on `PublicKey::encrypt` with PKCS#1 v1.5 padding, drawing its padding
/// from `rand::rngs::OsRng`. It fails exactly where rsa's check of the key
/// refuses the exponent or the message is longer than the modulus less 11
/// bytes; the ciphertext is padded to the length of the modulus. The
/// modulus must be at least 11 bytes long, or the length check underflows.
#[verifier::external_body]
pub(crate) fn encrypt_for(key: &[u8], message: &[u8]) -> (r: Option<Vec<u8>>)
    requires
        is_key_encoding(key@),
        modulus_len_of(key@) >= 11,
    ensures
        match r {
            Some(c) => {
                &&& c@.len() == modulus_len_of(key@)
                &&& is_pkcs1_encryption(key@, message@, c@)
                &&& exponent_accepted(key@)
                &&& message@.len() + 11 <= modulus_len_of(key@)
            },
            None => !exponent_accepted(key@) || message@.len() + 11 > modulus_len_of(key@),
        },
{
    let key: RsaPublicKey = match bincode::deserialize(key) {
        Ok(k) => k,
        Err(_) => return None,
    };
    key.encrypt(&mut OsRng, PaddingScheme::new_pkcs1v15_encrypt(), message).ok()
}

/// Relies on `RsaPrivateKey::decrypt` with PKCS#1 v1.5 padding, which draws
/// no random input: its result depends on the key and the ciphertext alone.
#[verifier::external_body]
pub(crate) fn decrypt_with(secret: &RsaPrivateKey, ciphertext: &[u8]) -> (r: Option<Vec<u8>>)
    ensures
        match r {
            Some(m) => decryption_of(*secret, ciphertext@) == Some(m@),
            None => decryption_of(*secret, ciphertext@) is None,
        },
{
    secret.decrypt(PaddingScheme::new_pkcs1v15_encrypt(), ciphertext).ok()
}

/// Relies on `RsaPrivateKey::new` with `rand::rngs::OsRng`: a fresh key, or
/// `None` where generation fails. Generation retries until the modulus has
/// exactly `KEY_BITS` bits, and the public exponent is 65537; bincode then
/// writes the public part as the modulus in 64 digits of 32 bits after a
/// `u64` count, and the exponent in one digit after its count: 276 bytes.
/// The modulus is the product of two distinct primes (tested with
/// `num-bigint-dig`'s probable-prime test) and the private exponent inverts
/// the public one modulo the totient, so decryption undoes every PKCS#1
/// v1.5 encryption under the public part.
#[verifier::external_body]
pub(crate) fn generate_private_key() -> (r: Option<RsaPrivateKey>)
    ensures
        match r {
            Some(k) => {
                &&& modulus_len_of(public_part_of(k)) == KEY_BYTES
                &&& public_part_of(k).len() == 276
                &&& exponent_accepted(public_part_of(k))
                &&& forall|m: Seq<u8>, c: Seq<u8>|
                    #[trigger] is_pkcs1_encryption(public_part_of(k), m, c) ==> decryption_of(k, c)
                        == Some(m)
            },
            None => true,
        },
{
    RsaPrivateKey::new(&mut OsRng, KEY_BITS).ok()
}

/// Relies on `RsaPublicKey::from(&RsaPrivateKey)` and `bincode::serialize`:
/// the bincode encoding of the public part of `secret`. Writing a key into
/// a vector with bincode's default options does not fail, and the digits of
/// the key are normalized, so the encoding reads back as itself.
#[verifier::external_body]
pub(crate) fn public_key_bytes(secret: &RsaPrivateKey) -> (r: Vec<u8>)
    ensures
        r@ == public_part_of(*secret),
        is_key_encoding(r@),
{
    match bincode::serialize(&RsaPublicKey::from(secret)) {
        Ok(bytes) => bytes,
        Err(_) => Vec::new(),
    }
}

/// Relies on `String::from_utf8`: the text that `bytes` encode, or `None`
/// where they are not valid UTF-8.
#[verifier::external_body]
pub(crate) fn utf8_text(bytes: &[u8]) -> (r: Option<String>)
    ensures
        r is Some <==> valid_utf8(bytes@),
        r matches Some(s) ==> s@ == decode_utf8(bytes@),
{
    String::from_utf8(bytes.to_vec()).ok()
}

} // verus!
