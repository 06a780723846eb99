use q3x_backend::identity::Identity;
use q3x_backend::idset::IdentitySet;
use q3x_backend::store::{Key, KeyedStore};

#[test]
fn store_keeps_one_value_per_key() {
    let mut store: KeyedStore<String, u8> = KeyedStore::new();
    assert_eq!(store.len(), 0);
    store.insert("a".to_string(), 1);
    store.insert("b".to_string(), 2);
    store.insert("a".to_string(), 3);
    assert_eq!(store.len(), 2);
    assert_eq!(store.get(&"a".to_string()), Some(&3));
    assert_eq!(store.get(&"b".to_string()), Some(&2));
    assert_eq!(store.get(&"c".to_string()), None);
    assert!(store.contains_key(&"b".to_string()));
    assert!(!store.contains_key(&"".to_string()));
}

#[test]
fn store_remove_takes_the_value_out() {
    let mut store: KeyedStore<Vec<u8>, u8> = KeyedStore::new();
    store.insert(vec![1], 10);
    store.insert(vec![2], 20);
    store.insert(vec![3], 30);
    assert_eq!(store.remove(&vec![2]), Some(20));
    assert_eq!(store.remove(&vec![2]), None);
    assert_eq!(store.len(), 2);
    assert_eq!(store.key_at(0), &vec![1]);
    assert_eq!(store.value_at(0), &10);
    assert_eq!(store.key_at(1), &vec![3]);
    assert_eq!(store.value_at(1), &30);
}

#[test]
fn keys_are_compared_by_content() {
    assert!(vec![1u8, 2].same_key(&vec![1, 2]));
    assert!(!vec![1u8, 2].same_key(&vec![1, 2, 3]));
    assert!(!vec![1u8, 2].same_key(&vec![1, 3]));
    assert!(Vec::<u8>::new().same_key(&vec![]));
    assert!("w1".to_string().same_key(&"w1".to_string()));
    assert!(!"w1".to_string().same_key(&"W1".to_string()));
    let a = Identity::from_bytes(vec![5]).unwrap();
    assert!(a.same_key(&Identity::from_bytes(vec![5]).unwrap()));
    assert!(!a.same_key(&Identity::from_bytes(vec![6]).unwrap()));
}

#[test]
fn identity_set_holds_each_member_once() {
    let a = Identity::from_bytes(vec![1]).unwrap();
    let b = Identity::from_bytes(vec![2]).unwrap();
    let mut set = IdentitySet::new();
    assert_eq!(set.len(), 0);
    set.insert(a.clone());
    set.insert(b.clone());
    set.insert(a.clone());
    assert_eq!(set.len(), 2);
    assert!(set.contains(&a));
    assert_eq!(set.to_vec(), vec![a.clone(), b.clone()]);
    assert_eq!(set.member_at(1), &b);
    set.remove(&a);
    set.remove(&a);
    assert_eq!(set.len(), 1);
    assert!(!set.contains(&a));
    assert!(set.contains(&b));
}
