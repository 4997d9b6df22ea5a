use zeon::check::{SimpleName, StdCheck};

#[test]
fn check_test() {
    assert!(SimpleName::check(&"inner".to_owned()).is_ok());
    assert!(SimpleName::check(&"inNer".to_owned()).is_err());
    assert!(SimpleName::check(&"inN_er".to_owned()).is_err());
    assert!(SimpleName::check(&"inn-er".to_owned()).is_ok());
}

#[test]
fn simple_name_rejects_non_ascii() {
    assert!(SimpleName::check(&"né".to_owned()).is_err());
    assert!(SimpleName::new("a-1".to_owned()).is_ok());
    assert!(SimpleName::new("A".to_owned()).is_err());
}

#[test]
fn insert_all_into_map() {
    let mut m = std::collections::BTreeMap::new();
    m.insert(1u64, "a");
    zeon::util::btreemap_insert_all(vec![(3, "c"), (2, "b")], &mut m);
    assert_eq!(m.len(), 3);
    assert_eq!(m.get(&2), Some(&"b"));
}
