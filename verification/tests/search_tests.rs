use aes_gcm::aead::Aead;
use aes_gcm::{Aes256Gcm, KeyInit, Nonce};

use vault_search::crypto::{derive_key, KdfParams, VaultMaterial};
use vault_search::generator::{generate_pool, Attack};
use vault_search::orderer::{passphrase, SlotOrder};
use vault_search::search::{run_search, search_pool, Outcome};

fn vault_order() -> SlotOrder {
    let v = vec![
        22, 23, 21, 0, 19, 3, 24, 4, 16, 9, 13, 7, 20, 12, 11, 15, 14, 10, 2, 6, 1, 17, 5,
        18, 8,
    ];
    SlotOrder::new(v).unwrap()
}

fn base25() -> Vec<String> {
    (0..25).map(|i| format!("Answer {}", i)).collect()
}

fn small_params() -> KdfParams {
    KdfParams { time_cost: 1, mem_kib: 16, parallelism: 1, hash_len: 32 }
}

/// A vault that only the candidate with `word` at `slot` opens.
fn craft_vault(base: &[String], slot: usize, word: &str, payload: &[u8]) -> VaultMaterial {
    let order = vault_order();
    let mut winner: Vec<String> = base.to_vec();
    winner[slot] = word.to_string();
    let pass = passphrase(&winner, &order);
    let salt: Vec<u8> = (0u8..16).collect();
    let key = derive_key(pass.as_bytes(), &salt, &small_params()).unwrap();
    let cipher = Aes256Gcm::new_from_slice(&key).unwrap();
    let nonce = [5u8; 12];
    let ct = cipher.encrypt(Nonce::from_slice(&nonce), payload).unwrap();
    VaultMaterial::new(salt, nonce.to_vec(), ct).unwrap()
}

#[test]
fn empty_attack_list_reports_not_found_without_attempts() {
    let base = base25();
    let attacks: Vec<Attack> = Vec::new();
    let pool = generate_pool(&base, &attacks);
    assert!(pool.is_empty());
    let vault = craft_vault(&base, 5, "bb", b"{\"files\": []}");
    let report = run_search(&base, &attacks, &vault_order(), &vault, &small_params());
    assert!(matches!(report.outcome, Outcome::Exhausted));
    assert_eq!(report.state.attempts, 0);
    assert!(!report.state.found);
}

#[test]
fn unreadable_dictionary_contributes_nothing_and_is_not_fatal() {
    let base = base25();
    let attacks = vec![Attack { index: 5, words: None }];
    let pool = generate_pool(&base, &attacks);
    assert!(pool.is_empty());
    let vault = craft_vault(&base, 5, "bb", b"{\"files\": []}");
    let report = run_search(&base, &attacks, &vault_order(), &vault, &small_params());
    assert!(matches!(report.outcome, Outcome::Exhausted));
    assert_eq!(report.state.attempts, 0);
}

#[test]
fn pool_is_attacks_in_order_then_words_in_order() {
    let base = base25();
    let attacks = vec![
        Attack { index: 2, words: Some(vec!["x".to_string(), "y".to_string()]) },
        Attack { index: 9, words: None },
        Attack { index: 7, words: Some(vec!["z".to_string()]) },
    ];
    let pool = generate_pool(&base, &attacks);
    assert_eq!(pool.len(), 3);
    assert_eq!(pool[0][2], "x");
    assert_eq!(pool[1][2], "y");
    assert_eq!(pool[2][7], "z");
    for cand in &pool {
        assert_eq!(cand.len(), 25);
    }
    // every other slot keeps the base profile value
    assert_eq!(pool[0][3], base[3]);
    assert_eq!(pool[2][2], base[2]);
}

#[test]
fn success_scenario_finds_the_planted_word() {
    let base = base25();
    let payload = b"{\"files\": [\"flag.txt\"]}".to_vec();
    let vault = craft_vault(&base, 5, "bb", &payload);
    let attacks = vec![Attack {
        index: 5,
        words: Some(vec!["aa".to_string(), "bb".to_string(), "cc".to_string()]),
    }];
    let pool = generate_pool(&base, &attacks);
    assert_eq!(pool.len(), 3);

    let order = vault_order();
    let mut winner = base.clone();
    winner[5] = "bb".to_string();
    let expected_pass = passphrase(&winner, &order);

    let report = search_pool(&pool, &order, &vault, &small_params());
    match report.outcome {
        Outcome::Found { passphrase: p, plaintext } => {
            assert_eq!(p, expected_pass);
            assert_eq!(plaintext, payload);
        },
        _ => panic!("expected a find"),
    }
    // "aa" was attempted and rejected first, then "bb" succeeded
    assert_eq!(report.state.attempts, 2);
    assert!(report.state.found);
}

#[test]
fn exhaustion_attempts_the_whole_pool() {
    let base = base25();
    let vault = craft_vault(&base, 5, "bb", b"{\"files\": []}");
    let attacks = vec![Attack {
        index: 5,
        words: Some(vec!["aa".to_string(), "cc".to_string(), "dd".to_string()]),
    }];
    let report = run_search(&base, &attacks, &vault_order(), &vault, &small_params());
    assert!(matches!(report.outcome, Outcome::Exhausted));
    assert_eq!(report.state.attempts, 3);
    assert!(!report.state.found);
}

#[test]
fn invalid_kdf_params_abort_before_any_attempt() {
    let base = base25();
    let vault = craft_vault(&base, 5, "bb", b"{\"files\": []}");
    let attacks = vec![Attack { index: 5, words: Some(vec!["bb".to_string()]) }];
    let pool = generate_pool(&base, &attacks);
    let bad = KdfParams { time_cost: 0, mem_kib: 16, parallelism: 1, hash_len: 32 };
    let report = search_pool(&pool, &vault_order(), &vault, &bad);
    assert!(matches!(report.outcome, Outcome::InvalidConfig));
    assert_eq!(report.state.attempts, 0);
}

#[test]
fn too_short_salt_aborts_before_any_attempt() {
    let base = base25();
    let vault = VaultMaterial::new(vec![1u8, 2, 3, 4], vec![0u8; 12], vec![0u8; 32]).unwrap();
    let attacks = vec![Attack { index: 5, words: Some(vec!["bb".to_string()]) }];
    let pool = generate_pool(&base, &attacks);
    let report = search_pool(&pool, &vault_order(), &vault, &small_params());
    assert!(matches!(report.outcome, Outcome::InvalidConfig));
    assert_eq!(report.state.attempts, 0);
}

#[test]
fn search_does_not_stop_on_a_marker_free_decryption() {
    // A candidate whose key verifies the tag but whose payload lacks the
    // marker is rejected like any other.
    let base = base25();
    let vault = craft_vault(&base, 5, "bb", b"tag verifies, no marker");
    let attacks = vec![Attack {
        index: 5,
        words: Some(vec!["aa".to_string(), "bb".to_string()]),
    }];
    let report = run_search(&base, &attacks, &vault_order(), &vault, &small_params());
    assert!(matches!(report.outcome, Outcome::Exhausted));
    assert_eq!(report.state.attempts, 2);
}
