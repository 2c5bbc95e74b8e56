//! The crawler configuration with its credentials taken from the
//! environment: every `${NAME}` in the login username and password and in
//! the object store keys must name a set variable.

use vstd::prelude::*;
use crate::placeholders::{names_from, replace_env_var, substitute_each, EnvVar, MissingEnvVar};

verus! {

/// Where the session cookies are kept.
#[derive(Clone, Debug)]
pub struct RedisConfig {
    pub url: String,
}

/// The login page and the account.
#[derive(Clone, Debug)]
pub struct LoginConfig {
    pub url: String,
    pub username: String,
    pub password: String,
    pub username_selector: String,
    pub password_selector: String,
    pub login_btn_selector: String,
}

/// The key and lifetime of the stored cookies.
#[derive(Clone, Debug)]
pub struct CookieConfig {
    pub key: String,
    pub ttl: u64,
}

/// What to crawl and how.
#[derive(Clone, Debug)]
pub struct CrawlConfig {
    pub target_url: String,
    pub depth: u32,
    pub concurrency: usize,
    pub use_chrome: bool,
}

/// The browser used for rendering.
#[derive(Clone, Debug)]
pub struct ChromeConfig {
    pub headless: bool,
}

/// The object store account.
#[derive(Clone, Debug)]
pub struct MinioConfig {
    pub endpoint: String,
    pub access_key: String,
    pub secret_key: String,
    pub bucket: String,
}

/// Where crawled pages are stored.
#[derive(Clone, Debug)]
pub struct StorageConfig {
    pub minio: MinioConfig,
}

/// Metrics and logging.
#[derive(Clone, Debug)]
pub struct MonitorConfig {
    pub metrics_port: u16,
    pub log_level: String,
}

/// The whole configuration.
#[derive(Clone, Debug)]
pub struct CrawlerConfig {
    pub redis: RedisConfig,
    pub login: LoginConfig,
    pub cookie: CookieConfig,
    pub crawl: CrawlConfig,
    pub request_delay: u64,
    pub proxy: String,
    pub user_agent: String,
    pub chrome: ChromeConfig,
    pub storage: StorageConfig,
    pub monitor: MonitorConfig,
}

/// A setting with its placeholders resolved strictly (see
/// [`crate::placeholders::replace_env_var`]).
pub open spec fn resolved(s: Seq<char>, env: Seq<EnvVar>) -> Result<Seq<char>, Seq<char>> {
    substitute_each(s, names_from(s, 0), env)
}

/// The outcome of resolving the credentials of `c`, taken in the order
/// username, password, access key, secret key: the first failure, or the
/// four resolved values.
pub open spec fn secrets_resolved(c: CrawlerConfig, env: Seq<EnvVar>) -> Result<
    (Seq<char>, Seq<char>, Seq<char>, Seq<char>),
    Seq<char>,
> {
    match resolved(c.login.username@, env) {
        Err(n) => Err(n),
        Ok(u) => match resolved(c.login.password@, env) {
            Err(n) => Err(n),
            Ok(p) => match resolved(c.storage.minio.access_key@, env) {
                Err(n) => Err(n),
                Ok(a) => match resolved(c.storage.minio.secret_key@, env) {
                    Err(n) => Err(n),
                    Ok(s) => Ok((u, p, a, s)),
                },
            },
        },
    }
}

/// `after` is `before` with the four credentials replaced by `v` and every
/// other setting unchanged.
pub open spec fn with_secrets(
    before: CrawlerConfig,
    after: CrawlerConfig,
    v: (Seq<char>, Seq<char>, Seq<char>, Seq<char>),
) -> bool {
    &&& after.redis == before.redis
    &&& after.cookie == before.cookie
    &&& after.crawl == before.crawl
    &&& after.request_delay == before.request_delay
    &&& after.proxy == before.proxy
    &&& after.user_agent == before.user_agent
    &&& after.chrome == before.chrome
    &&& after.monitor == before.monitor
    &&& after.login.url == before.login.url
    &&& after.login.username_selector == before.login.username_selector
    &&& after.login.password_selector == before.login.password_selector
    &&& after.login.login_btn_selector == before.login.login_btn_selector
    &&& after.storage.minio.endpoint == before.storage.minio.endpoint
    &&& after.storage.minio.bucket == before.storage.minio.bucket
    &&& after.login.username@ == v.0
    &&& after.login.password@ == v.1
    &&& after.storage.minio.access_key@ == v.2
    &&& after.storage.minio.secret_key@ == v.3
}

/// The credentials of a loaded configuration with their placeholders
/// resolved from `env`; fails with the first variable that is not set.
pub fn resolve_crawler_secrets(config: CrawlerConfig, env: &Vec<EnvVar>) -> (r: Result<
    CrawlerConfig,
    MissingEnvVar,
>)
    ensures
        match (r, secrets_resolved(config, env@)) {
            (Ok(out), Ok(v)) => with_secrets(config, out, v),
            (Err(e), Err(n)) => e.name@ == n,
            _ => false,
        },
{
    let mut out = config;
    out.login.username = match replace_env_var(out.login.username.as_str(), env) {
        Ok(v) => v,
        Err(e) => return Err(e),
    };
    out.login.password = match replace_env_var(out.login.password.as_str(), env) {
        Ok(v) => v,
        Err(e) => return Err(e),
    };
    out.storage.minio.access_key = match replace_env_var(
        out.storage.minio.access_key.as_str(),
        env,
    ) {
        Ok(v) => v,
        Err(e) => return Err(e),
    };
    out.storage.minio.secret_key = match replace_env_var(
        out.storage.minio.secret_key.as_str(),
        env,
    ) {
        Ok(v) => v,
        Err(e) => return Err(e),
    };
    Ok(out)
}

/// Each of the four credentials (username, password, access key, secret
/// key) is resolved by strict substitution of the placeholders it names:
/// resolution succeeds exactly when all four do, each resolved value is
/// that credential's substitution, and a failure names the unset variable
/// of the first credential, in that order, that fails.
pub proof fn lemma_every_credential_resolved(c: CrawlerConfig, env: Seq<EnvVar>)
    ensures
        ({
            let u = substitute_each(c.login.username@, names_from(c.login.username@, 0), env);
            let p = substitute_each(c.login.password@, names_from(c.login.password@, 0), env);
            let a = substitute_each(
                c.storage.minio.access_key@,
                names_from(c.storage.minio.access_key@, 0),
                env,
            );
            let s = substitute_each(
                c.storage.minio.secret_key@,
                names_from(c.storage.minio.secret_key@, 0),
                env,
            );
            &&& (secrets_resolved(c, env) is Ok <==> (u is Ok && p is Ok && a is Ok && s is Ok))
            &&& (secrets_resolved(c, env) matches Ok(v) ==> u == Ok::<Seq<char>, Seq<char>>(v.0)
                && p == Ok::<Seq<char>, Seq<char>>(v.1) && a == Ok::<Seq<char>, Seq<char>>(v.2)
                && s == Ok::<Seq<char>, Seq<char>>(v.3))
            &&& (secrets_resolved(c, env) matches Err(n) ==> {
                ||| u == Err::<Seq<char>, Seq<char>>(n)
                ||| u is Ok && p == Err::<Seq<char>, Seq<char>>(n)
                ||| u is Ok && p is Ok && a == Err::<Seq<char>, Seq<char>>(n)
                ||| u is Ok && p is Ok && a is Ok && s == Err::<Seq<char>, Seq<char>>(n)
            })
        }),
{
}

/// A configuration whose secrets were replaced by `v` holds exactly `v` as
/// its username, password, access key and secret key, and every other
/// setting of the original.
pub proof fn lemma_secrets_replaced(
    before: CrawlerConfig,
    after: CrawlerConfig,
    v: (Seq<char>, Seq<char>, Seq<char>, Seq<char>),
)
    requires
        with_secrets(before, after, v),
    ensures
        after.login.username@ == v.0,
        after.login.password@ == v.1,
        after.storage.minio.access_key@ == v.2,
        after.storage.minio.secret_key@ == v.3,
        after.login.url == before.login.url,
        after.storage.minio.endpoint == before.storage.minio.endpoint,
        after.storage.minio.bucket == before.storage.minio.bucket,
        after.redis == before.redis,
        after.crawl == before.crawl,
        after.proxy == before.proxy,
        after.user_agent == before.user_agent,
        after.chrome == before.chrome,
        after.cookie == before.cookie,
        after.request_delay == before.request_delay,
        after.monitor == before.monitor,
{
}

} // verus!
