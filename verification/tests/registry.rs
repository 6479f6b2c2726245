use indexmap::IndexMap;
use keysnip::registry;

fn pairs(map: &IndexMap<String, String>) -> Vec<(String, String)> {
    map.iter().map(|(k, v)| (k.clone(), v.clone())).collect()
}

fn pair(k: &str, v: &str) -> (String, String) {
    (k.to_string(), v.to_string())
}

#[test]
fn set_keeps_first_position_and_last_value() {
    let mut defaults = registry::new();
    assert_eq!(registry::set(&mut defaults, "b".to_string(), "1".to_string()), None);
    assert_eq!(registry::set(&mut defaults, "a".to_string(), "2".to_string()), None);
    assert_eq!(
        registry::set(&mut defaults, "b".to_string(), "3".to_string()),
        Some("1".to_string())
    );
    assert_eq!(pairs(&defaults), vec![pair("b", "3"), pair("a", "2")]);
}

#[test]
fn get_reads_what_set_wrote() {
    let mut defaults = registry::new();
    assert_eq!(registry::get(&defaults, "x"), None);
    assert!(!registry::contains(&defaults, "x"));
    registry::set(&mut defaults, "x".to_string(), "5".to_string());
    assert_eq!(registry::get(&defaults, "x"), Some(&"5".to_string()));
    assert!(registry::contains(&defaults, "x"));
    assert_eq!(registry::get(&defaults, "y"), None);
    registry::set(&mut defaults, "y".to_string(), "6".to_string());
    assert_eq!(registry::get(&defaults, "x"), Some(&"5".to_string()));
}

#[test]
fn new_registry_is_empty() {
    assert!(registry::new().is_empty());
}
