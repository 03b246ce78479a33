use env_secrets::filter::KeyFilter;
use env_secrets::indexed::{collect_items, locked_entries, Candidate, FoundEntry};

fn text(s: &str) -> String {
    s.to_string()
}

fn entry(attributes: &[(&str, &str)]) -> FoundEntry {
    FoundEntry { attributes: attributes.iter().map(|a| (text(a.0), text(a.1))).collect() }
}

fn candidate(locked: bool, key: &str, index: usize) -> Candidate {
    Candidate { locked, key: text(key), index }
}

#[test]
fn an_entry_names_its_attributes() {
    let e = entry(&[("app", "env-secrets"), ("namespace", "ns"), ("env", "KEY"), ("env", "LATER")]);
    assert_eq!(e.attribute("namespace"), Some(&text("ns")));
    assert_eq!(e.attribute("env"), Some(&text("KEY")));
    assert_eq!(e.attribute("missing"), None);
    assert_eq!(e.key(), Some(&text("KEY")));
    assert_eq!(entry(&[("app", "env-secrets")]).key(), None);
    assert_eq!(entry(&[]).key(), None);
}

#[test]
fn collect_items_keeps_wanted_entries_with_their_place() {
    let items = vec![
        entry(&[("env", "A")]),
        entry(&[("other", "x")]),
        entry(&[("env", "B")]),
        entry(&[("env", "C")]),
    ];
    let mut acc = vec![candidate(true, "EARLIER", 7)];
    collect_items(&mut acc, &items, &KeyFilter::Only(vec![text("C"), text("A")]), false);
    assert_eq!(
        acc,
        vec![candidate(true, "EARLIER", 7), candidate(false, "A", 0), candidate(false, "C", 3)]
    );
    let mut all = vec![];
    collect_items(&mut all, &items, &KeyFilter::All, true);
    assert_eq!(all, vec![candidate(true, "A", 0), candidate(true, "B", 2), candidate(true, "C", 3)]);
    let mut none = vec![];
    collect_items(&mut none, &vec![], &KeyFilter::All, true);
    assert_eq!(none, vec![]);
}

#[test]
fn locked_entries_are_those_of_the_locked_candidates() {
    let candidates = vec![
        candidate(true, "A", 4),
        candidate(false, "B", 0),
        candidate(true, "C", 1),
        candidate(false, "D", 2),
    ];
    assert_eq!(locked_entries(&candidates), vec![4, 1]);
    assert_eq!(locked_entries(&vec![candidate(false, "B", 0)]), Vec::<usize>::new());
    assert_eq!(locked_entries(&vec![]), Vec::<usize>::new());
}
