use openbar_notifier::openbar::{webconfig_url, BarConfiguration, OpenBarClient};

#[test]
fn webconfig_is_served_under_the_instance() {
    assert_eq!(webconfig_url("https://bar.example"), "https://bar.example/config.json");
    assert_eq!(webconfig_url(""), "/config.json");
}

#[test]
fn local_token_becomes_the_api_key() {
    let mut client = OpenBarClient::with_client("https://bar.example/api/", reqwest::Client::new());
    assert!(client.configuration().api_key.is_none());
    client.set_local_token("tok-1");
    client.set_local_token("tok-2");
    let config = client.configuration();
    assert_eq!(config.base_path, "https://bar.example/api/");
    let key = config.api_key.as_ref().unwrap();
    assert_eq!(key.key, "tok-2");
    assert!(key.prefix.is_none());
}

#[test]
fn a_given_configuration_is_kept() {
    let configuration = BarConfiguration {
        base_path: "http://localhost:8080".to_string(),
        client: reqwest::Client::new(),
        api_key: None,
    };
    let client = OpenBarClient::with_configuration(configuration);
    assert_eq!(client.configuration().base_path, "http://localhost:8080");
    assert!(client.configuration().api_key.is_none());
}

#[test]
fn new_client_starts_without_api_key() {
    let mut client = OpenBarClient::new("https://bar.example/api/");
    assert_eq!(client.configuration().base_path, "https://bar.example/api/");
    assert!(client.configuration().api_key.is_none());
    client.set_local_token("t");
    assert_eq!(client.configuration().api_key.as_ref().unwrap().key, "t");
}
