use staff_admin::crypto::{decrypt_data, encrypt_data, generate_random_key, xor_encrypt,
    DecryptRequest, EncryptRequest};

#[test]
fn xor_twice_restores_the_input() {
    let data = b"some cached payload";
    let key = b"k3y";
    let once = xor_encrypt(data, key);
    let twice = xor_encrypt(once.as_slice(), key);
    assert_eq!(twice.as_slice(), data);
}

#[test]
fn xor_known_value() {
    let out = xor_encrypt(&[0x01, 0x02, 0x03], &[0xff]);
    assert_eq!(out, vec![0xfe, 0xfd, 0xfc]);
}

#[test]
fn xor_rotates_the_key() {
    let out = xor_encrypt(&[0x10, 0x20, 0x30], &[0x01, 0x02]);
    assert_eq!(out, vec![0x11, 0x22, 0x31]);
}

#[test]
fn encrypt_then_decrypt_roundtrip() {
    let key = b"a fixed test key";
    let cipher = encrypt_data(&EncryptRequest { data: "hello world".to_string() }, key);
    let plain = decrypt_data(&DecryptRequest { data: cipher }, key);
    assert_eq!(plain, Ok("hello world".to_string()));
}

#[test]
fn encrypt_known_value() {
    // A zero key leaves the bytes unchanged, so this is base64 of "abc".
    let cipher = encrypt_data(&EncryptRequest { data: "abc".to_string() }, &[0x00]);
    assert_eq!(cipher, "YWJj");
}

#[test]
fn decrypt_rejects_bad_base64() {
    let r = decrypt_data(&DecryptRequest { data: "!!!not base64!!!".to_string() }, b"k");
    assert!(r.is_err());
}

#[test]
fn decrypt_rejects_bytes_that_are_not_utf8() {
    // base64 of [0xff, 0xfe], which no UTF-8 string encodes.
    let r = decrypt_data(&DecryptRequest { data: "//4=".to_string() }, &[0x00]);
    assert!(r.is_err());
}

#[test]
fn generated_keys_have_the_requested_length() {
    assert_eq!(generate_random_key(0).len(), 0);
    assert_eq!(generate_random_key(5).len(), 5);
    assert_eq!(generate_random_key(32).len(), 32);
    assert_eq!(generate_random_key(100).len(), 100);
}
