use env_secrets::blob::NamespaceBlob;
use env_secrets::filter::KeyFilter;
use env_secrets::record::SecretRecord;

fn pair(key: &str, value: &str) -> (String, String) {
    (key.to_string(), value.to_string())
}

fn plain(key: &str, value: &str) -> SecretRecord {
    SecretRecord { key: key.to_string(), value: value.to_string(), lock: None }
}

#[test]
fn a_new_blob_is_empty() {
    let blob = NamespaceBlob::new();
    assert_eq!(blob.len(), 0);
    assert_eq!(blob.get("A"), None);
    assert!(blob.entries().is_empty());
}

#[test]
fn insert_adds_and_overwrites() {
    let blob = NamespaceBlob::new();
    let blob = blob.insert("A".to_string(), "1".to_string());
    let blob = blob.insert("B".to_string(), "2".to_string());
    assert_eq!(blob.entries(), &vec![pair("A", "1"), pair("B", "2")]);
    let blob = blob.insert("A".to_string(), "3".to_string());
    assert_eq!(blob.entries(), &vec![pair("A", "3"), pair("B", "2")]);
    assert_eq!(blob.len(), 2);
    assert_eq!(blob.get("A"), Some(&"3".to_string()));
    assert_eq!(blob.get("B"), Some(&"2".to_string()));
    assert_eq!(blob.get("C"), None);
}

#[test]
fn from_entries_lets_the_last_value_of_a_key_stand() {
    let blob = NamespaceBlob::from_entries(&vec![pair("A", "1"), pair("B", "2"), pair("A", "3")]);
    assert_eq!(blob.entries(), &vec![pair("A", "3"), pair("B", "2")]);
}

#[test]
fn an_absent_blob_decodes_to_the_empty_mapping() {
    let blob = NamespaceBlob::decode(&None).expect("an absent blob is a mapping");
    assert_eq!(blob.len(), 0);
}

#[test]
fn decodes_a_json_object_of_strings() {
    let bytes = br#" { "B": "two", "A": "it's \"one\"" } "#.to_vec();
    let blob = NamespaceBlob::decode(&Some(bytes)).expect("a JSON object of strings");
    assert_eq!(blob.get("A"), Some(&"it's \"one\"".to_string()));
    assert_eq!(blob.get("B"), Some(&"two".to_string()));
    assert_eq!(blob.len(), 2);
}

#[test]
fn decode_refuses_what_is_no_mapping_of_strings() {
    assert!(NamespaceBlob::decode(&Some(b"not json".to_vec())).is_none());
    assert!(NamespaceBlob::decode(&Some(b"".to_vec())).is_none());
    assert!(NamespaceBlob::decode(&Some(b"[\"A\"]".to_vec())).is_none());
    assert!(NamespaceBlob::decode(&Some(b"{\"A\": 1}".to_vec())).is_none());
    assert!(NamespaceBlob::decode(&Some(b"{\"A\": \"1\"".to_vec())).is_none());
    assert!(NamespaceBlob::decode(&Some(vec![b'{', b'"', 0xff, b'"', b':', b'"', b'"', b'}'])).is_none());
}

#[test]
fn encodes_as_a_json_object() {
    let blob = NamespaceBlob::new();
    assert_eq!(blob.encode(), Some(b"{}".to_vec()));
    let blob = blob.insert("B".to_string(), "two".to_string());
    let blob = blob.insert("A".to_string(), "say \"hi\"\n".to_string());
    assert_eq!(blob.encode(), Some(br#"{"A":"say \"hi\"\n","B":"two"}"#.to_vec()));
}

#[test]
fn what_is_encoded_decodes_to_the_same_mapping() {
    let blob = NamespaceBlob::new()
        .insert("TOKEN".to_string(), "s3cr3t'\"\\ \u{1f511}".to_string())
        .insert("EMPTY".to_string(), String::new())
        .insert("LINES".to_string(), "a\nb\r\n\tc\u{0}".to_string());
    let bytes = blob.encode().expect("the mapping can be stored");
    let back = NamespaceBlob::decode(&Some(bytes)).expect("the bytes are a mapping");
    assert!(back.same_mapping(&blob));
    assert!(blob.same_mapping(&back));
    assert_eq!(back.get("TOKEN"), Some(&"s3cr3t'\"\\ \u{1f511}".to_string()));
    assert_eq!(back.get("EMPTY"), Some(&String::new()));
    assert_eq!(back.get("LINES"), Some(&"a\nb\r\n\tc\u{0}".to_string()));
}

#[test]
fn same_mapping_ignores_order_and_sees_differences() {
    let a = NamespaceBlob::from_entries(&vec![pair("A", "1"), pair("B", "2")]);
    let b = NamespaceBlob::from_entries(&vec![pair("B", "2"), pair("A", "1")]);
    let c = NamespaceBlob::from_entries(&vec![pair("A", "1")]);
    let d = NamespaceBlob::from_entries(&vec![pair("A", "1"), pair("B", "3")]);
    assert!(a.same_mapping(&b));
    assert!(!a.same_mapping(&c));
    assert!(!c.same_mapping(&a));
    assert!(!a.same_mapping(&d));
}

#[test]
fn records_follow_the_filter() {
    let blob = NamespaceBlob::from_entries(&vec![pair("A", "1"), pair("B", "2"), pair("C", "3")]);
    assert_eq!(
        blob.records(&KeyFilter::All),
        vec![plain("A", "1"), plain("B", "2"), plain("C", "3")]
    );
    let some = KeyFilter::Only(vec!["C".to_string(), "A".to_string(), "X".to_string()]);
    assert_eq!(blob.records(&some), vec![plain("A", "1"), plain("C", "3")]);
    assert_eq!(blob.records(&KeyFilter::Only(vec![])), vec![]);
}
