use client_core::EncryptedData;
use client_core::crypto::decrypt;
use client_core::crypto::decrypt_from_base64;
use client_core::crypto::encrypt;
use client_core::crypto::encrypt_to_base64;
use client_core::crypto::generate_key;
use client_core::crypto::hash_with_salt;
use client_core::crypto::verify_salted_hash;

#[test]
fn test_encrypt_decrypt_roundtrip() {
    let plaintext = "Hello, Rajeev! This is a secret \u{1F510}";
    let key = "my-super-secret-master-key-2024";

    let encrypted = encrypt(plaintext, key).unwrap();
    let decrypted = decrypt(&encrypted, key).unwrap();

    assert_eq!(plaintext, decrypted);
}

#[test]
fn test_encrypt_decrypt_base64_roundtrip() {
    let plaintext = "UPI PIN: 1234";
    let key = "vault-master-key";

    let encoded = encrypt_to_base64(plaintext, key).unwrap();
    let decoded = decrypt_from_base64(&encoded, key).unwrap();

    assert_eq!(plaintext, decoded);
}

#[test]
fn test_wrong_key_fails() {
    let plaintext = "secret data";
    let key = "correct-key";
    let wrong_key = "wrong-key";

    let encrypted = encrypt(plaintext, key).unwrap();
    let result = decrypt(&encrypted, wrong_key);

    assert!(result.is_err());
}

#[test]
fn test_wrong_key_reveals_nothing() {
    let plaintext = "attack at dawn, gate seven";
    let key = "correct-key";

    let blob = encrypt_to_base64(plaintext, key).unwrap();
    for wrong in ["wrong-key", "correct-key ", "c", ""] {
        match decrypt_from_base64(&blob, wrong) {
            Err(_) => {}
            Ok(out) => {
                assert!(!plaintext.contains(&out) || out.is_empty());
                panic!("wrong key decrypted");
            }
        }
    }
}

#[test]
fn test_different_encryptions_produce_different_output() {
    let plaintext = "same input";
    let key = "same key";

    let enc1 = encrypt_to_base64(plaintext, key).unwrap();
    let enc2 = encrypt_to_base64(plaintext, key).unwrap();

    assert_ne!(enc1, enc2);

    assert_eq!(decrypt_from_base64(&enc1, key).unwrap(), plaintext);
    assert_eq!(decrypt_from_base64(&enc2, key).unwrap(), plaintext);
}

#[test]
fn test_generate_key() {
    let key1 = generate_key();
    let key2 = generate_key();
    assert_ne!(key1, key2);
    assert!(!key1.is_empty());
}

#[test]
fn test_hash_and_verify() {
    let input = "password123";
    let hash = hash_with_salt(input);

    assert!(verify_salted_hash(input, &hash));
    assert!(!verify_salted_hash("wrong-password", &hash));
}

#[test]
fn test_empty_string_encrypt_decrypt() {
    let plaintext = "";
    let key = "key";

    let encrypted = encrypt_to_base64(plaintext, key).unwrap();
    let decrypted = decrypt_from_base64(&encrypted, key).unwrap();

    assert_eq!(plaintext, decrypted);
}

#[test]
fn test_unicode_encrypt_decrypt() {
    let plaintext = "\u{939}\u{93F}\u{902}\u{926}\u{940} \u{92E}\u{947}\u{902} \u{917}\u{941}\u{92A}\u{94D}\u{924} \u{921}\u{947}\u{91F}\u{93E} \u{1F1EE}\u{1F1F3}";
    let key = "unicode-key-\u{1F511}";

    let encrypted = encrypt_to_base64(plaintext, key).unwrap();
    let decrypted = decrypt_from_base64(&encrypted, key).unwrap();

    assert_eq!(plaintext, decrypted);
}

#[test]
fn test_blob_framing_rejected_when_short() {
    let err = EncryptedData::from_base64("AAAA");
    assert!(err.is_err());
    let err2 = EncryptedData::from_base64("not base64 at all!!!");
    assert!(err2.is_err());
}
