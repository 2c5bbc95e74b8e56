//! The crawler's settings file (`config/crawler.yaml`) and the resolution of
//! the `${NAME}` placeholders in its credentials.

use vstd::prelude::*;
use crate::placeholders::{expand_from, replace_env_vars, EnvVar};

verus! {

/// What to crawl and how.
#[derive(Clone, Debug)]
pub struct CrawlConfig {
    pub target_url: String,
    pub depth: usize,
    pub concurrency: usize,
    pub use_chrome: Option<bool>,
    pub download_dir: Option<String>,
}

/// Where the session cookies are kept.
#[derive(Clone, Debug)]
pub struct RedisConfig {
    pub url: String,
    pub cookie_ttl: u64,
}

/// The login page and the account.
#[derive(Clone, Debug)]
pub struct LoginConfig {
    pub url: String,
    pub username: String,
    pub password: String,
    pub username_selector: String,
    pub password_selector: String,
    pub login_btn_selector: String,
}

/// The browser used for rendering.
#[derive(Clone, Debug)]
pub struct ChromeConfig {
    pub headless: bool,
    pub executable_path: String,
}

/// The object store account.
#[derive(Clone, Debug)]
pub struct MinioConfig {
    pub endpoint: String,
    pub access_key: String,
    pub secret_key: String,
    pub bucket: String,
}

/// Where crawled pages may be stored.
#[derive(Clone, Debug)]
pub struct StorageConfig {
    pub minio: MinioConfig,
}

/// Metrics and logging.
#[derive(Clone, Debug)]
pub struct MonitorConfig {
    pub metrics_port: u16,
    pub log_level: String,
}

/// The whole settings file.
#[derive(Clone, Debug)]
pub struct Config {
    pub redis: RedisConfig,
    pub login: LoginConfig,
    pub cookie: String,
    pub cookie_key: String,
    pub chrome_headless: Option<bool>,
    pub cookie_ttl_seconds: Option<u64>,
    pub chrome: ChromeConfig,
    pub crawl: CrawlConfig,
    pub request_delay: u64,
    pub proxy: String,
    pub user_agent: Option<String>,
    pub storage: Option<StorageConfig>,
    pub monitor: Option<MonitorConfig>,
}

/// `after` is `before` with the placeholders of its credentials (login
/// username and password, object store keys) expanded from `env`, and every
/// other setting unchanged.
pub open spec fn credentials_expanded(before: Config, after: Config, env: Seq<EnvVar>) -> bool {
    &&& after.redis == before.redis
    &&& after.cookie == before.cookie
    &&& after.cookie_key == before.cookie_key
    &&& after.chrome_headless == before.chrome_headless
    &&& after.cookie_ttl_seconds == before.cookie_ttl_seconds
    &&& after.chrome == before.chrome
    &&& after.crawl == before.crawl
    &&& after.request_delay == before.request_delay
    &&& after.proxy == before.proxy
    &&& after.user_agent == before.user_agent
    &&& after.monitor == before.monitor
    &&& after.login.url == before.login.url
    &&& after.login.username_selector == before.login.username_selector
    &&& after.login.password_selector == before.login.password_selector
    &&& after.login.login_btn_selector == before.login.login_btn_selector
    &&& after.login.username@ == expand_from(before.login.username@, env, 0)
    &&& after.login.password@ == expand_from(before.login.password@, env, 0)
    &&& match (after.storage, before.storage) {
        (Some(a), Some(b)) => {
            &&& a.minio.endpoint == b.minio.endpoint
            &&& a.minio.bucket == b.minio.bucket
            &&& a.minio.access_key@ == expand_from(b.minio.access_key@, env, 0)
            &&& a.minio.secret_key@ == expand_from(b.minio.secret_key@, env, 0)
        },
        (None, None) => true,
        _ => false,
    }
}

/// The second expansion pass over loaded settings: the login username and
/// password and, when storage is configured, the object store keys have
/// their `${NAME}` placeholders expanded from `env` (unset variables stay
/// as written); nothing else changes.
pub fn resolve_config_placeholders(config: Config, env: &Vec<EnvVar>) -> (out: Config)
    ensures
        credentials_expanded(config, out, env@),
{
    let mut out = config;
    out.login.username = replace_env_vars(out.login.username.as_str(), env);
    out.login.password = replace_env_vars(out.login.password.as_str(), env);
    out.storage = match out.storage {
        Some(s) => {
            let mut s = s;
            s.minio.access_key = replace_env_vars(s.minio.access_key.as_str(), env);
            s.minio.secret_key = replace_env_vars(s.minio.secret_key.as_str(), env);
            Some(s)
        },
        None => None,
    };
    out
}

/// After the second expansion pass, each credential is its placeholder
/// expansion: the login username and password, and, exactly when storage
/// is configured, the object store's access and secret keys; the login URL,
/// the crawl and the proxy are as they were.
pub proof fn lemma_every_credential_expanded(before: Config, after: Config, env: Seq<EnvVar>)
    requires
        credentials_expanded(before, after, env),
    ensures
        after.login.username@ == expand_from(before.login.username@, env, 0),
        after.login.password@ == expand_from(before.login.password@, env, 0),
        after.storage is Some <==> before.storage is Some,
        after.storage matches Some(a) ==> {
            &&& a.minio.access_key@ == expand_from(before.storage->0.minio.access_key@, env, 0)
            &&& a.minio.secret_key@ == expand_from(before.storage->0.minio.secret_key@, env, 0)
            &&& a.minio.endpoint == before.storage->0.minio.endpoint
            &&& a.minio.bucket == before.storage->0.minio.bucket
        },
        after.login.url == before.login.url,
        after.crawl == before.crawl,
        after.proxy == before.proxy,
{
}

} // verus!
