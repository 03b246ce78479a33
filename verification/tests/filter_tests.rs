use env_secrets::filter::KeyFilter;

#[test]
fn no_keys_ask_for_every_key() {
    let filter = KeyFilter::from_keys(vec![]);
    assert_eq!(filter, KeyFilter::All);
    assert!(filter.accepts("ANY"));
    assert!(filter.accepts(""));
}

#[test]
fn listed_keys_ask_for_themselves_only() {
    let filter = KeyFilter::from_keys(vec!["A".to_string(), "B".to_string()]);
    assert_eq!(filter, KeyFilter::Only(vec!["A".to_string(), "B".to_string()]));
    assert!(filter.accepts("A"));
    assert!(filter.accepts("B"));
    assert!(!filter.accepts("C"));
    assert!(!filter.accepts("a"));
    assert!(!filter.accepts("AB"));
}
