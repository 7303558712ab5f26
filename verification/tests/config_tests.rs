use openbar_notifier::config::{parse_targets, switch_on, GlobalConfig, GlobalConfigLoadError};

fn vars(pairs: &[(&str, &str)]) -> Vec<(String, String)> {
    pairs.iter().map(|(k, v)| (k.to_string(), v.to_string())).collect()
}

fn required() -> Vec<(&'static str, &'static str)> {
    vec![
        ("OPENBAR_INSTANCE_URL", "https://bar.example"),
        ("OPENBAR_CARD_ID", "card-1"),
        ("OPENBAR_PIN", "1234"),
    ]
}

#[test]
fn defaults_apply_when_only_required_variables_are_set() {
    let config = GlobalConfig::load_vars(&vars(&required())).unwrap();
    assert_eq!(config.store_file, "./item_store.json");
    assert_eq!(config.openbar.instance_url, "https://bar.example");
    assert_eq!(config.openbar.card_id, "card-1");
    assert_eq!(config.openbar.pin, "1234");
    assert!(!config.notify.item_added);
    assert!(!config.notify.become_buyable);
    assert!(!config.notify.become_unbuyable);
    assert!(!config.notify.on_out_of_stock);
    assert!(config.targets.is_empty());
}

#[test]
fn missing_variables_are_reported_in_order() {
    assert_eq!(
        GlobalConfig::load_vars(&vars(&[])).unwrap_err(),
        GlobalConfigLoadError::MissingOpenBarInstanceUrl
    );
    assert_eq!(
        GlobalConfig::load_vars(&vars(&[("OPENBAR_PIN", "1")])).unwrap_err(),
        GlobalConfigLoadError::MissingOpenBarInstanceUrl
    );
    assert_eq!(
        GlobalConfig::load_vars(&vars(&[("OPENBAR_INSTANCE_URL", "u"), ("OPENBAR_PIN", "1")])).unwrap_err(),
        GlobalConfigLoadError::MissingCardId
    );
    assert_eq!(
        GlobalConfig::load_vars(&vars(&[("OPENBAR_INSTANCE_URL", "u"), ("OPENBAR_CARD_ID", "c")])).unwrap_err(),
        GlobalConfigLoadError::MissingPin
    );
}

#[test]
fn switches_are_on_only_for_true_in_any_case() {
    let mut v = required();
    v.push(("NOTIFY_ITEM_ADDED", "TRUE"));
    v.push(("NOTIFY_BECOME_BUYABLE", "True"));
    v.push(("NOTIFY_BECOME_UNBUYABLE", "yes"));
    v.push(("NOTIFY_ON_OUT_OF_STOCK", " true"));
    let config = GlobalConfig::load_vars(&vars(&v)).unwrap();
    assert!(config.notify.item_added);
    assert!(config.notify.become_buyable);
    assert!(!config.notify.become_unbuyable);
    assert!(!config.notify.on_out_of_stock);
}

#[test]
fn store_path_and_targets_are_read() {
    let mut v = required();
    v.push(("STORE_PATH", "/var/lib/store.json"));
    v.push(("NOTIFICATION_TARGETS", " https://a.example/hook , ,https://b.example,,"));
    let config = GlobalConfig::load_vars(&vars(&v)).unwrap();
    assert_eq!(config.store_file, "/var/lib/store.json");
    assert_eq!(config.targets, vec!["https://a.example/hook".to_string(), "https://b.example".to_string()]);
}

#[test]
fn the_first_of_two_variables_of_one_name_counts() {
    let mut v = vec![("OPENBAR_PIN", "first")];
    v.extend(required());
    let config = GlobalConfig::load_vars(&vars(&v)).unwrap();
    assert_eq!(config.openbar.pin, "first");
}

#[test]
fn targets_are_trimmed_and_empty_ones_dropped() {
    assert!(parse_targets("").is_empty());
    assert!(parse_targets(" , \t,\n").is_empty());
    assert_eq!(parse_targets("a"), vec!["a".to_string()]);
    assert_eq!(parse_targets("\ta b \u{3000},c"), vec!["a b".to_string(), "c".to_string()]);
    assert_eq!(parse_targets(",x,"), vec!["x".to_string()]);
}

#[test]
fn only_the_exact_lowercase_true_turns_a_switch_on() {
    assert!(switch_on("true"));
    assert!(!switch_on("TRUE"));
    assert!(!switch_on("true "));
    assert!(!switch_on(""));
    assert!(!switch_on("1"));
}
