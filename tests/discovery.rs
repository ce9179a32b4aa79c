use ffremote::discovery::{bus_destination, bus_name_id, instances_from_names, strip_prefix};

#[test]
fn enumerator_keeps_only_prefixed_names_in_order() {
    let names: Vec<String> = vec![
        "org.freedesktop.DBus".to_string(),
        "org.mozilla.firefox.dGVzdA__".to_string(),
        ":1.42".to_string(),
        "org.mozilla.firefoxdGVzdA__".to_string(),
        "org.mozilla.thunderbird.abc".to_string(),
        "org.mozilla.firefox.abc-def".to_string(),
    ];
    let found = instances_from_names(&names);
    assert_eq!(found.len(), 2);
    assert_eq!(found[0].id, "dGVzdA__");
    assert_eq!(found[0].profile, "test");
    assert_eq!(found[1].id, "abc-def");
    assert_eq!(found[1].profile, "abc-def");
}

#[test]
fn enumerator_on_empty_listing() {
    assert!(instances_from_names(&Vec::new()).is_empty());
}

#[test]
fn enumerator_keeps_duplicates() {
    let names = vec![
        "org.mozilla.firefox.x".to_string(),
        "org.mozilla.firefox.x".to_string(),
    ];
    assert_eq!(instances_from_names(&names).len(), 2);
}

#[test]
fn bus_name_prefix_is_exact() {
    assert_eq!(bus_name_id("org.mozilla.firefox.abc"), Some("abc"));
    assert_eq!(bus_name_id("org.mozilla.firefox"), None);
    assert_eq!(bus_name_id("Org.mozilla.firefox.abc"), None);
    assert_eq!(strip_prefix("préfixe", "pré"), Some("fixe"));
    assert_eq!(strip_prefix("ab", "abc"), None);
}

#[test]
fn destination_joins_prefix_and_id() {
    assert_eq!(bus_destination("dGVzdA__"), "org.mozilla.firefox.dGVzdA__");
}

#[test]
fn enumerator_falls_back_for_slash_ids() {
    let names = vec!["org.mozilla.firefox.Pz8/".to_string()];
    let found = instances_from_names(&names);
    assert_eq!(found.len(), 1);
    assert_eq!(found[0].id, "Pz8/");
    assert_eq!(found[0].profile, "Pz8/");
}

#[test]
fn enumerator_skips_empty_and_reprefixed_ids() {
    let names = vec![
        "org.mozilla.firefox.".to_string(),
        "org.mozilla.firefox.org.mozilla.firefox.x".to_string(),
        "org.mozilla.firefox.y".to_string(),
    ];
    let found = instances_from_names(&names);
    assert_eq!(found.len(), 1);
    assert_eq!(found[0].id, "y");
    assert_eq!(bus_name_id("org.mozilla.firefox."), None);
}
