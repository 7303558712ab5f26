//! The OpenBar client's configuration, and the address of an instance's web
//! configuration.

use vstd::prelude::*;
use crate::text::push_text;

verus! {

/// `reqwest::Client`, declared so that the configuration can carry it; nothing
/// about its contents is known to the proofs.
#[verifier::external_type_specification]
#[verifier::external_body]
pub struct ExHttpClient(reqwest::Client);

/// A new HTTP client with reqwest's default settings, by `reqwest::Client::new`.
/// Trusted, with nothing stated of the client it returns. The call panics when no
/// TLS backend can be initialized or the resolver cannot load the system
/// configuration: a matter of the machine, not of any argument.
#[verifier::external_body]
fn default_http_client() -> (client: reqwest::Client) {
    reqwest::Client::new()
}

/// An API key sent with the requests that need one.
#[derive(Debug, Clone)]
pub struct ApiKey {
    pub prefix: Option<String>,
    pub key: String,
}

/// What the OpenBar API clients are configured with: the API's base address,
/// the HTTP client that carries the requests, and the API key.
pub struct BarConfiguration {
    pub base_path: String,
    pub client: reqwest::Client,
    pub api_key: Option<ApiKey>,
}

/// `OpenBarClient` holds the configuration of the OpenBar API clients, with the
/// local token that authenticates a "local" order terminal.
pub struct OpenBarClient {
    bar_config: BarConfiguration,
}

impl OpenBarClient {
    /// The configuration that the client hands to the API clients.
    pub closed spec fn config(&self) -> BarConfiguration {
        self.bar_config
    }

    /// Create a new OpenBarClient with the specified API base URL.
    /// This uses a default reqwest client.
    pub fn new(api_base: &str) -> (r: Self)
        ensures
            r.config().base_path@ == api_base@,
            r.config().api_key is None,
    {
        OpenBarClient::with_client(api_base, default_http_client())
    }

    /// Create a new OpenBarClient with the specified API base URL and a custom reqwest client.
    /// This can be useful if you need to customize the HTTP client (e.g., for proxies or TLS settings).
    pub fn with_client(api_base: &str, client: reqwest::Client) -> (r: Self)
        ensures
            r.config().base_path@ == api_base@,
            r.config().client == client,
            r.config().api_key is None,
    {
        let bar_config = BarConfiguration { base_path: api_base.to_owned(), client, api_key: None };
        OpenBarClient { bar_config }
    }

    /// Creates a new OpenBarClient with a custom BarConfiguration.
    ///
    /// This method is mostly useful for testing or advanced use cases where you need to
    /// customize the entire configuration.
    pub fn with_configuration(configuration: BarConfiguration) -> (r: Self)
        ensures
            r.config() == configuration,
    {
        OpenBarClient { bar_config: configuration }
    }

    /// Set the local bearer access token for authentication.
    /// This token will be included in the `X-Local-Token` header for some API requests.
    pub fn set_local_token(&mut self, token: &str)
        ensures
            final(self).config().base_path == old(self).config().base_path,
            final(self).config().client == old(self).config().client,
            final(self).config().api_key matches Some(k) && k.prefix is None && k.key@ == token@,
    {
        let api_key = ApiKey { prefix: None, key: token.to_owned() };
        self.bar_config.api_key = Some(api_key);
    }

    /// The configuration that the client hands to the API clients.
    pub fn configuration(&self) -> (r: &BarConfiguration)
        ensures
            *r == self.config(),
    {
        &self.bar_config
    }
}

/// The configuration as served by the OpenBar WebUI
///
/// Actually only the interesting fields are specified here.
#[derive(Debug, Clone)]
pub struct WebConfig {
    /// The API endpoint, usually something like `https://openbar.com/api/`
    pub api: String,
    /// The local token, used to authentificate a "local" order terminal.
    ///
    /// It is then specified for some API operations using the `X-Local-Token` header.
    pub local_token: String,
}

/// Where an instance at `base_url` serves its configuration: `base_url/config.json`.
pub fn webconfig_url(base_url: &str) -> (r: String)
    ensures
        r@ == base_url@ + "/config.json"@,
{
    let mut url = base_url.to_owned();
    push_text(&mut url, "/config.json");
    url
}

} // verus!
