use passcrypto::cipher::get_hash_from_pass;
use passcrypto::vault::{check_pass, header_matches, open_vault, seal_vault, unlock, Unlock};

#[test]
fn sealed_vault_opens_with_its_password() {
    let key = get_hash_from_pass(b"pw");
    let body = br#"{"items":[],"position":""}"#;
    let file = seal_vault(body, &key);
    assert_eq!(file.len() % 16, 0);
    assert_eq!(check_pass(&key, &file), Some(true));
    assert_eq!(open_vault(&key, &file), Some(body.to_vec()));
}

#[test]
fn sealed_empty_body_opens() {
    let key = get_hash_from_pass(b"");
    let file = seal_vault(b"", &key);
    assert_eq!(file.len(), 16);
    assert_eq!(check_pass(&key, &file), Some(true));
    assert_eq!(open_vault(&key, &file), Some(Vec::new()));
}

#[test]
fn wrong_password_is_refused() {
    let file = seal_vault(b"some database", &get_hash_from_pass(b"right"));
    let other = get_hash_from_pass(b"wrong");
    assert_ne!(check_pass(&other, &file), Some(true));
    assert!(!matches!(unlock(&other, Some(file)), Unlock::Opened(_)));
}

#[test]
fn file_of_odd_length_is_unreadable() {
    let key = get_hash_from_pass(b"pw");
    assert_eq!(check_pass(&key, &[1, 2, 3]), None);
    assert_eq!(open_vault(&key, &[1, 2, 3]), None);
    assert!(matches!(unlock(&key, Some(vec![1, 2, 3])), Unlock::Unreadable));
}

#[test]
fn empty_file_is_unreadable() {
    let key = get_hash_from_pass(b"pw");
    assert_eq!(check_pass(&key, &[]), None);
    assert!(matches!(unlock(&key, Some(Vec::new())), Unlock::Unreadable));
}

#[test]
fn missing_file_creates_a_vault() {
    let key = get_hash_from_pass(b"pw");
    assert!(matches!(unlock(&key, None), Unlock::Created));
}

#[test]
fn unlock_opens_a_sealed_vault() {
    let key = get_hash_from_pass(b"pw");
    let file = seal_vault(b"db text", &key);
    match unlock(&key, Some(file)) {
        Unlock::Opened(body) => assert_eq!(body, b"db text".to_vec()),
        _ => panic!("the vault did not open"),
    }
}

#[test]
fn header_is_the_true_marker() {
    assert!(header_matches(b"TRUE{}"));
    assert!(header_matches(b"TRUE"));
    assert!(!header_matches(b"FALSE"));
    assert!(!header_matches(b"true"));
}
