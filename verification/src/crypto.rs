//! Symmetric obfuscation for the offline cache: a rotating XOR against a
//! key held in the OS keychain, with the ciphertext armored as base64.

use base64::Engine as _;
use vstd::prelude::*;
use vstd::utf8::decode_utf8;
use vstd::utf8::encode_utf8;
use vstd::utf8::valid_utf8;

verus! {

/// The canonical padded base64 text of a byte sequence, as
/// `base64::engine::general_purpose::STANDARD` produces it.
pub uninterp spec fn b64_of(bytes: Seq<u8>) -> Seq<char>;

/// What `base64::engine::general_purpose::STANDARD` decodes a text to:
/// the encoded bytes for canonical padded base64, nothing otherwise.
pub uninterp spec fn b64_decoded(text: Seq<char>) -> Option<Seq<u8>>;

/// Relies on base64's `STANDARD.encode`: it returns the canonical padded
/// base64 text of the input, which `STANDARD.decode` inverts.  Its only
/// panic, an overflow computing the output length, needs an input longer
/// than a slice can be (a slice holds at most `isize::MAX` bytes).
#[verifier::external_body]
fn b64_encode(b: &[u8]) -> (r: String)
    ensures
        r@ == b64_of(b@),
        b64_decoded(r@) == Some(b@),
{
    base64::engine::general_purpose::STANDARD.encode(b)
}

/// Relies on base64's `STANDARD.decode`: it succeeds exactly on canonical
/// padded base64 text (the engine requires canonical padding and rejects
/// nonzero trailing bits) and returns the bytes that text encodes.
#[verifier::external_body]
fn b64_decode(s: &str) -> (r: Result<Vec<u8>, String>)
    ensures
        match r {
            Ok(v) => b64_decoded(s@) == Some(v@),
            Err(_) => b64_decoded(s@) is None,
        },
{
    base64::engine::general_purpose::STANDARD.decode(s).map_err(
        |e| format!("Base64 decode error: {}", e),
    )
}

/// Relies on uuid's `Uuid::new_v4` and `Uuid::as_bytes`: a fresh random
/// UUID is 16 bytes.  Nothing is assumed of their values.
#[verifier::external_body]
fn fresh_uuid_bytes() -> (r: Vec<u8>)
    ensures
        r@.len() == 16,
{
    uuid::Uuid::new_v4().as_bytes().to_vec()
}

/// Relies on `String::from_utf8`: it succeeds exactly on valid UTF-8 and
/// returns the string those bytes encode.
#[verifier::external_body]
fn string_from_utf8(b: Vec<u8>) -> (r: Result<String, String>)
    ensures
        match r {
            Ok(s) => valid_utf8(b@) && s@ == decode_utf8(b@),
            Err(_) => !valid_utf8(b@),
        },
{
    String::from_utf8(b).map_err(|e| format!("UTF-8 decode error: {}", e))
}

/// Request payload for an encryption call.
#[derive(Debug)]
pub struct EncryptRequest {
    pub data: String,
}

/// Request payload for a decryption call.
#[derive(Debug)]
pub struct DecryptRequest {
    pub data: String,
}

/// Byte-wise XOR of `data` against `key`, repeating the key.
pub open spec fn xor_bytes(data: Seq<u8>, key: Seq<u8>) -> Seq<u8> {
    Seq::new(data.len(), |i: int| data[i] ^ key[i % (key.len() as int)])
}

/// Simple XOR obfuscation with a rotating key; applying it twice with the
/// same key restores the input (see `lemma_xor_bytes_involutive`).
pub fn xor_encrypt(data: &[u8], key: &[u8]) -> (r: Vec<u8>)
    requires
        key@.len() > 0,
    ensures
        r@ == xor_bytes(data@, key@),
{
    let mut out: Vec<u8> = Vec::new();
    let mut i: usize = 0;
    while i < data.len()
        invariant
            key@.len() > 0,
            i <= data@.len(),
            out@ =~= xor_bytes(data@, key@).take(i as int),
        decreases data@.len() - i,
    {
        assert((i as int) % (key@.len() as int) < key@.len() as int);
        out.push(data[i] ^ key[i % key.len()]);
        i = i + 1;
    }
    assert(out@ =~= xor_bytes(data@, key@));
    out
}

/// Fresh random key material of exactly `length` bytes, drawn from random
/// UUIDs.
pub fn generate_random_key(length: usize) -> (r: Vec<u8>)
    ensures
        r@.len() == length,
{
    let mut key: Vec<u8> = Vec::new();
    while key.len() < length
        invariant
            key@.len() <= length + 16,
        decreases length + 16 - key@.len(),
    {
        let mut block = fresh_uuid_bytes();
        key.append(&mut block);
    }
    key.truncate(length);
    key
}

/// The ciphertext `encrypt_data` produces for `data` and `key`: the
/// rotating XOR of the data, armored as base64.
pub open spec fn encrypted_text(data: Seq<u8>, key: Seq<u8>) -> Seq<char> {
    b64_of(xor_bytes(data, key))
}

/// Obfuscate the request's payload with `key`: rotating XOR, then base64
/// armor.
pub fn encrypt_data(data: &EncryptRequest, key: &[u8]) -> (r: String)
    requires
        key@.len() > 0,
    ensures
        r@ == encrypted_text(encode_utf8(data.data@), key@),
        b64_decoded(r@) == Some(xor_bytes(encode_utf8(data.data@), key@)),
{
    let bytes = data.data.as_str().as_bytes();
    let cipher = xor_encrypt(bytes, key);
    b64_encode(cipher.as_slice())
}

/// Undo `encrypt_data`: strip the base64 armor, XOR with the same key, and
/// read the result as UTF-8.  Fails exactly when the payload is not
/// canonical base64 or the unmasked bytes are not valid UTF-8.
pub fn decrypt_data(data: &DecryptRequest, key: &[u8]) -> (r: Result<String, String>)
    requires
        key@.len() > 0,
    ensures
        ({
            match b64_decoded(data.data@) {
                Some(cipher) => {
                    let plain = xor_bytes(cipher, key@);
                    match r {
                        Ok(s) => valid_utf8(plain) && s@ == decode_utf8(plain),
                        Err(_) => !valid_utf8(plain),
                    }
                },
                None => r is Err,
            }
        }),
{
    let cipher = match b64_decode(data.data.as_str()) {
        Ok(c) => c,
        Err(e) => {
            return Err(e);
        },
    };
    let plain = xor_encrypt(cipher.as_slice(), key);
    string_from_utf8(plain)
}

/// XOR with the same key twice gives back the original bytes.
pub proof fn lemma_xor_bytes_involutive(data: Seq<u8>, key: Seq<u8>)
    requires
        key.len() > 0,
    ensures
        xor_bytes(xor_bytes(data, key), key) == data,
{
    assert forall|i: int| 0 <= i < data.len() implies xor_bytes(
        xor_bytes(data, key),
        key,
    )[i] == data[i] by {
        let b = data[i];
        let k = key[i % (key.len() as int)];
        assert((b ^ k) ^ k == b) by (bit_vector);
    }
    assert(xor_bytes(xor_bytes(data, key), key) =~= data);
}

} // verus!
