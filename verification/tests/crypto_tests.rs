use aes_gcm::aead::Aead;
use aes_gcm::{Aes256Gcm, KeyInit, Nonce};
use base64::Engine;

use vault_search::crypto::{
    contains_marker, decrypt, derive_key, params_ok, verify_passphrase, KdfParams, VaultMaterial,
};

fn small_params() -> KdfParams {
    KdfParams { time_cost: 1, mem_kib: 16, parallelism: 1, hash_len: 32 }
}

fn salt16() -> Vec<u8> {
    (0u8..16).collect()
}

#[test]
fn params_ok_accepts_the_vault_build() {
    let p = KdfParams { time_cost: 3, mem_kib: 16384, parallelism: 1, hash_len: 32 };
    assert!(params_ok(&p));
}

#[test]
fn params_ok_rejects_out_of_range_costs() {
    assert!(!params_ok(&KdfParams { time_cost: 0, mem_kib: 16, parallelism: 1, hash_len: 32 }));
    assert!(!params_ok(&KdfParams { time_cost: 1, mem_kib: 0, parallelism: 1, hash_len: 32 }));
    assert!(!params_ok(&KdfParams { time_cost: 1, mem_kib: 16, parallelism: 0, hash_len: 32 }));
    assert!(!params_ok(&KdfParams { time_cost: 1, mem_kib: 16, parallelism: 3, hash_len: 32 }));
    assert!(!params_ok(&KdfParams { time_cost: 1, mem_kib: 16, parallelism: 1, hash_len: 16 }));
}

#[test]
fn vault_material_requires_a_12_byte_nonce() {
    assert!(VaultMaterial::new(salt16(), vec![0u8; 12], vec![1, 2, 3]).is_some());
    assert!(VaultMaterial::new(salt16(), vec![0u8; 11], vec![1, 2, 3]).is_none());
    assert!(VaultMaterial::new(salt16(), vec![0u8; 16], vec![1, 2, 3]).is_none());
}

#[test]
fn derive_key_matches_argon2id_over_base64_salt() {
    // The derived key must be Argon2id over the *base64 re-encoding* of the
    // raw salt, not the raw salt itself.
    let p = small_params();
    let salt = salt16();
    let key = derive_key(b"passphrase", &salt, &p).expect("derivation succeeds");
    let salt_b64 = base64::engine::general_purpose::STANDARD_NO_PAD.encode(&salt);
    let params = argon2::Params::new(p.mem_kib, p.time_cost, p.parallelism, Some(32)).unwrap();
    let ctx = argon2::Argon2::new(argon2::Algorithm::Argon2id, argon2::Version::V0x13, params);
    let mut expected = vec![0u8; 32];
    ctx.hash_password_into(b"passphrase", salt_b64.as_bytes(), &mut expected).unwrap();
    assert_eq!(key, expected);

    let mut raw = vec![0u8; 32];
    ctx.hash_password_into(b"passphrase", &salt, &mut raw).unwrap();
    assert_ne!(key, raw);
}

#[test]
fn derive_key_is_deterministic() {
    let p = small_params();
    let k1 = derive_key(b"same input", &salt16(), &p).unwrap();
    let k2 = derive_key(b"same input", &salt16(), &p).unwrap();
    assert_eq!(k1, k2);
    assert_eq!(k1.len(), 32);
}

#[test]
fn derive_key_rejects_a_salt_below_the_kdf_minimum() {
    // A 4-byte raw salt re-encodes to 6 base64 digits, under the KDF's
    // 8-byte salt minimum.
    let p = small_params();
    assert!(derive_key(b"x", &vec![1u8, 2, 3, 4], &p).is_none());
}

#[test]
fn decrypt_round_trips_what_was_encrypted() {
    let key = [9u8; 32];
    let nonce = [7u8; 12];
    let plaintext = b"fixture payload, marker-free".to_vec();
    let cipher = Aes256Gcm::new_from_slice(&key).unwrap();
    let ct = cipher.encrypt(Nonce::from_slice(&nonce), plaintext.as_slice()).unwrap();
    let got = decrypt(&key.to_vec(), &nonce.to_vec(), &ct).expect("tag verifies");
    assert_eq!(got, plaintext);
}

#[test]
fn decrypt_rejects_a_wrong_key_outright() {
    let key = [9u8; 32];
    let nonce = [7u8; 12];
    let cipher = Aes256Gcm::new_from_slice(&key).unwrap();
    let ct = cipher.encrypt(Nonce::from_slice(&nonce), &b"secret payload"[..]).unwrap();
    let mut wrong = key;
    wrong[0] ^= 1;
    assert!(decrypt(&wrong.to_vec(), &nonce.to_vec(), &ct).is_none());
}

#[test]
fn decrypt_rejects_tampered_ciphertext() {
    let key = [9u8; 32];
    let nonce = [7u8; 12];
    let cipher = Aes256Gcm::new_from_slice(&key).unwrap();
    let mut ct = cipher.encrypt(Nonce::from_slice(&nonce), &b"secret payload"[..]).unwrap();
    ct[0] ^= 1;
    assert!(decrypt(&key.to_vec(), &nonce.to_vec(), &ct).is_none());
}

#[test]
fn contains_marker_finds_the_quoted_files_key() {
    assert!(contains_marker(&b"{\"files\": []}".to_vec()));
    assert!(contains_marker(&b"\"files\"".to_vec()));
    assert!(!contains_marker(&b"{\"file\": []}".to_vec()));
    assert!(!contains_marker(&b"files".to_vec()));
    assert!(!contains_marker(&b"".to_vec()));
    assert!(!contains_marker(&b"\"files".to_vec()));
}

#[test]
fn verify_passphrase_round_trips_a_synthetic_vault() {
    let p = small_params();
    let salt = salt16();
    let nonce = [3u8; 12];
    let plaintext = b"{\"files\": [\"a.txt\"]}".to_vec();
    let key = derive_key(b"open sesame", &salt, &p).unwrap();
    let cipher = Aes256Gcm::new_from_slice(&key).unwrap();
    let ct = cipher.encrypt(Nonce::from_slice(&nonce), plaintext.as_slice()).unwrap();
    let vault = VaultMaterial::new(salt, nonce.to_vec(), ct).unwrap();

    let got = verify_passphrase("open sesame", &vault, &p).expect("correct passphrase opens");
    assert_eq!(got, plaintext);
    assert!(verify_passphrase("open sesame!", &vault, &p).is_none());
    assert!(verify_passphrase("", &vault, &p).is_none());
}

#[test]
fn verify_passphrase_requires_the_marker() {
    let p = small_params();
    let salt = salt16();
    let nonce = [3u8; 12];
    let plaintext = b"no marker here".to_vec();
    let key = derive_key(b"pass", &salt, &p).unwrap();
    let cipher = Aes256Gcm::new_from_slice(&key).unwrap();
    let ct = cipher.encrypt(Nonce::from_slice(&nonce), plaintext.as_slice()).unwrap();
    let vault = VaultMaterial::new(salt, nonce.to_vec(), ct).unwrap();
    // The tag verifies, but the payload lacks the marker: still a rejection.
    assert!(verify_passphrase("pass", &vault, &p).is_none());
}

#[test]
fn verify_passphrase_rejects_invalid_params() {
    let salt = salt16();
    let vault = VaultMaterial::new(salt, vec![0u8; 12], vec![0u8; 32]).unwrap();
    let bad = KdfParams { time_cost: 0, mem_kib: 16, parallelism: 1, hash_len: 32 };
    assert!(verify_passphrase("x", &vault, &bad).is_none());
}
