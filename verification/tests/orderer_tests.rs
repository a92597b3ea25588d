use vault_search::orderer::{normalize_slot, passphrase, SlotOrder};

fn identity_order() -> SlotOrder {
    let v: Vec<usize> = (0..25).collect();
    SlotOrder::new(v).expect("identity order is a permutation")
}

fn vault_order() -> Vec<usize> {
    vec![
        22, 23, 21, 0, 19, 3, 24, 4, 16, 9, 13, 7, 20, 12, 11, 15, 14, 10, 2, 6, 1, 17, 5,
        18, 8,
    ]
}

fn base25() -> Vec<String> {
    (0..25).map(|i| format!("Answer {}", i)).collect()
}

#[test]
fn normalize_trims_and_lowercases() {
    assert_eq!(normalize_slot("  My DOG  "), "my dog");
    assert_eq!(normalize_slot("already"), "already");
    assert_eq!(normalize_slot("   "), "");
    assert_eq!(normalize_slot("\tTabbed\n"), "tabbed");
}

#[test]
fn slot_order_accepts_the_vault_permutation() {
    let so = SlotOrder::new(vault_order());
    assert!(so.is_some());
}

#[test]
fn slot_order_rejects_duplicates() {
    let mut v = vault_order();
    v[3] = v[4];
    assert!(SlotOrder::new(v).is_none());
}

#[test]
fn slot_order_rejects_out_of_range() {
    let mut v = vault_order();
    v[0] = 25;
    assert!(SlotOrder::new(v).is_none());
}

#[test]
fn slot_order_rejects_wrong_length() {
    let v: Vec<usize> = (0..24).collect();
    assert!(SlotOrder::new(v).is_none());
    let v: Vec<usize> = (0..26).collect();
    assert!(SlotOrder::new(v).is_none());
}

#[test]
fn passphrase_identity_order_concatenates_normalized_slots() {
    let mut cand = base25();
    cand[0] = "  First ".to_string();
    cand[24] = "LAST".to_string();
    let expected: String = cand
        .iter()
        .map(|s| s.trim().to_lowercase())
        .collect::<Vec<_>>()
        .join("");
    assert_eq!(passphrase(&cand, &identity_order()), expected);
}

#[test]
fn passphrase_follows_the_slot_order() {
    let order = SlotOrder::new(vault_order()).unwrap();
    let cand = base25();
    let expected: String = vault_order()
        .iter()
        .map(|&i| cand[i].trim().to_lowercase())
        .collect::<Vec<_>>()
        .join("");
    assert_eq!(passphrase(&cand, &order), expected);
}

#[test]
fn passphrase_is_deterministic() {
    let order = SlotOrder::new(vault_order()).unwrap();
    let cand = base25();
    assert_eq!(passphrase(&cand, &order), passphrase(&cand, &order));
}

#[test]
fn changing_one_slot_changes_only_its_segment() {
    // With the identity order, slot k occupies one segment; all other
    // segments keep their text when only slot k changes.
    let order = identity_order();
    let c1 = base25();
    let mut c2 = base25();
    c2[7] = "Different".to_string();
    let p1 = passphrase(&c1, &order);
    let p2 = passphrase(&c2, &order);
    let seg = |cand: &Vec<String>, j: usize| cand[j].trim().to_lowercase();
    let prefix_len =
        |cand: &Vec<String>, j: usize| (0..j).map(|t| seg(cand, t).len()).sum::<usize>();
    for j in 0..25 {
        let (a, b) = (prefix_len(&c1, j), prefix_len(&c1, j) + seg(&c1, j).len());
        let (c, d) = (prefix_len(&c2, j), prefix_len(&c2, j) + seg(&c2, j).len());
        if j != 7 {
            assert_eq!(p1[a..b], p2[c..d]);
        } else {
            assert_ne!(p1[a..b], p2[c..d]);
        }
    }
}
