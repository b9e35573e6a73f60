use py2o2::add;
use py2o2::schema::{str_eq, str_lt, NamedMap};

#[test]
fn it_works() {
    let result = add(2, 2);
    assert_eq!(result, 4);
}

#[test]
fn string_order() {
    assert!(str_lt("abc", "abd"));
    assert!(str_lt("ab", "abc"));
    assert!(!str_lt("abc", "abc"));
    assert!(!str_lt("b", "abc"));
    assert!(str_eq("same", "same"));
    assert!(!str_eq("same", "sane"));
}

#[test]
fn named_map_sorted_unique() {
    let mut m: NamedMap<u64> = NamedMap::new();
    assert!(m.insert("beta".to_string(), 2).is_ok());
    assert!(m.insert("alpha".to_string(), 1).is_ok());
    assert!(m.insert("gamma".to_string(), 3).is_ok());
    assert!(m.insert("beta".to_string(), 9).is_err());
    assert_eq!(m.len(), 3);
    assert_eq!(m.entries[0].0, "alpha");
    assert_eq!(m.entries[1].0, "beta");
    assert_eq!(m.entries[2].0, "gamma");
    assert_eq!(m.get("beta"), Some(&2));
    assert_eq!(m.get("delta"), None);
}
