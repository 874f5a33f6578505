use krill_file_drop::key::{key_to_use, load_or_create_secret_key, stored_secret_key};

#[test]
fn a_stored_key_is_loaded() {
    let stored: Vec<u8> = (0..32).collect();
    let loaded = load_or_create_secret_key(Some(stored.clone()));
    assert!(!loaded.fresh);
    assert_eq!(loaded.bytes.to_vec(), stored);
}

#[test]
fn anything_but_32_bytes_is_no_key() {
    for n in [0usize, 1, 31, 33, 64] {
        assert_eq!(stored_secret_key(&vec![1u8; n]), None);
        assert!(load_or_create_secret_key(Some(vec![1u8; n])).fresh);
    }
    assert_eq!(stored_secret_key(&[1u8; 32]), Some([1u8; 32]));
}

#[test]
fn a_drawn_key_is_used_where_none_is_stored() {
    for stored in [None, Some(vec![1u8; 31]), Some(vec![])] {
        let used = key_to_use(stored, [5; 32]);
        assert!(used.fresh);
        assert_eq!(used.bytes, [5; 32]);
    }
    let used = key_to_use(Some(vec![7; 32]), [5; 32]);
    assert!(!used.fresh);
    assert_eq!(used.bytes, [7; 32]);
}

#[test]
fn a_new_key_is_random_and_stays_once_stored() {
    let first = load_or_create_secret_key(None);
    let second = load_or_create_secret_key(None);
    assert!(first.fresh && second.fresh);
    assert_ne!(first.bytes, second.bytes);
    assert_ne!(first.bytes, [0u8; 32]);
    let again = load_or_create_secret_key(Some(first.bytes.to_vec()));
    assert!(!again.fresh);
    assert_eq!(again.bytes, first.bytes);
}
