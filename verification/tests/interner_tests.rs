use sylphie::interner::StringInterner;

#[test]
fn ids_are_given_in_order_of_first_appearance() {
    let mut interner = StringInterner::new();
    assert_eq!(interner.len(), 0);
    assert_eq!(interner.lookup_name("uid"), Some(0));
    assert_eq!(interner.lookup_name("profile"), Some(1));
    assert_eq!(interner.lookup_name("uid"), Some(0));
    assert_eq!(interner.len(), 2);
    assert_eq!(interner.lookup_id(0), "uid");
    assert_eq!(interner.lookup_id(1), "profile");
}

#[test]
fn same_name_same_id_whatever_comes_between() {
    let mut interner = StringInterner::new();
    let first = interner.lookup_name("settings");
    for name in ["a", "b", "c", "d"] {
        interner.lookup_name(name);
    }
    assert_eq!(interner.lookup_name("settings"), first);
    assert_eq!(interner.find("settings"), first);
}

#[test]
fn find_does_not_intern() {
    let mut interner = StringInterner::new();
    interner.lookup_name("known");
    assert_eq!(interner.find("unknown"), None);
    assert_eq!(interner.len(), 1);
    assert!(interner.contains_id(0));
    assert!(!interner.contains_id(1));
}

#[test]
fn kept_names_come_back_with_their_ids() {
    let names = vec!["uid".to_string(), "profile".to_string(), "guild".to_string()];
    let mut interner = StringInterner::from_names(names).unwrap();
    assert_eq!(interner.find("profile"), Some(1));
    assert_eq!(interner.lookup_id(2), "guild");
    assert_eq!(interner.lookup_name("new"), Some(3));
}

#[test]
fn kept_names_with_a_repeat_are_refused() {
    let names = vec!["uid".to_string(), "profile".to_string(), "uid".to_string()];
    assert!(StringInterner::from_names(names).is_none());
}

#[test]
fn a_snapshot_keeps_what_was_interned() {
    let mut interner = StringInterner::new();
    interner.lookup_name("uid");
    interner.lookup_name("profile");
    let snapshot = interner.snapshot();
    interner.lookup_name("later");
    assert_eq!(snapshot.len(), 2);
    assert_eq!(snapshot.find("profile"), Some(1));
    assert_eq!(snapshot.find("later"), None);
}
