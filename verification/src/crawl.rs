//! What a crawl is set up with, decided from the settings: the crawl of the
//! target with the session cookie, and the crawl of an authenticated site.

use vstd::prelude::*;
use crate::config::CrawlerConfig;
use crate::cookies::SessionCookie;
use crate::settings::CrawlConfig;

verus! {

/// The user agent a crawl announces when the settings name none.
pub open spec fn default_user_agent() -> Seq<char> {
    "Mozilla/5.0 (Macintosh; Intel Mac OS X 10_15_7) AppleWebKit/537.36 (KHTML, like Gecko) Chrome/120.0.0.0 Safari/537.36"@
}

/// How a crawl of the target runs.
#[derive(Clone, Debug)]
pub struct CrawlPlan {
    pub target_url: String,
    pub depth: usize,
    pub concurrency: usize,
    pub delay: u64,
    pub user_agent: String,
    /// Where fetched pages are written.
    pub download_dir: String,
    /// The `Cookie` header sent with every request.
    pub cookie: String,
}

/// The crawl of the target: depth and concurrency from the crawl settings,
/// the request delay and user agent given (the default user agent when
/// none), pages saved under the configured download directory or
/// `downloads`, and the session cookie sent with each request.
pub fn plan_crawl(
    crawl: &CrawlConfig,
    cookie: &str,
    request_delay: u64,
    user_agent: Option<&str>,
) -> (plan: CrawlPlan)
    ensures
        plan.target_url == crawl.target_url,
        plan.depth == crawl.depth,
        plan.concurrency == crawl.concurrency,
        plan.delay == request_delay,
        plan.cookie@ == cookie@,
        plan.user_agent@ == match user_agent {
            Some(ua) => ua@,
            None => default_user_agent(),
        },
        plan.download_dir@ == match crawl.download_dir {
            Some(d) => d@,
            None => "downloads"@,
        },
{
    let user_agent = match user_agent {
        Some(ua) => ua.to_owned(),
        None => "Mozilla/5.0 (Macintosh; Intel Mac OS X 10_15_7) AppleWebKit/537.36 (KHTML, like Gecko) Chrome/120.0.0.0 Safari/537.36".to_owned(),
    };
    let download_dir = match &crawl.download_dir {
        Some(d) => d.clone(),
        None => "downloads".to_owned(),
    };
    CrawlPlan {
        target_url: crawl.target_url.clone(),
        depth: crawl.depth,
        concurrency: crawl.concurrency,
        delay: request_delay,
        user_agent,
        download_dir,
        cookie: cookie.to_owned(),
    }
}

/// Where the session cookie of a run comes from.
#[derive(Clone, Copy, Debug, PartialEq, Eq, Structural)]
pub enum CookieSource {
    /// The cookie store holds valid cookies: use them.
    Stored,
    /// Log in and store the new cookies.
    Login,
}

/// The stored cookies are used only when the store says for certain that
/// they are still valid; when it says they are not, or the check fails,
/// the crawler logs in.
pub fn cookie_source(stored_valid: Option<bool>) -> (s: CookieSource)
    ensures
        s == (if stored_valid == Some(true) {
            CookieSource::Stored
        } else {
            CookieSource::Login
        }),
{
    match stored_valid {
        Some(true) => CookieSource::Stored,
        _ => CookieSource::Login,
    }
}

/// Whether cookies loaded from the store cannot be used and the crawler
/// must log in again: when loading failed or gave no cookie.
pub fn must_relogin(loaded: &Option<Vec<SessionCookie>>) -> (r: bool)
    ensures
        r == match loaded {
            Some(cs) => cs@.len() == 0,
            None => true,
        },
{
    match loaded {
        Some(cs) => cs.len() == 0,
        None => true,
    }
}

/// How the browser of an authenticated crawl is set up.
#[derive(Clone, Debug)]
pub struct BrowserPlan {
    pub headless: bool,
    /// Whether the new headless mode is used.
    pub headless_new: bool,
    pub timeout_secs: u64,
    /// The proxy, when one is configured.
    pub proxy: Option<String>,
}

/// How an authenticated crawl runs.
#[derive(Clone, Debug)]
pub struct AuthedCrawlPlan {
    pub target_url: String,
    pub depth: u32,
    pub delay: u64,
    pub concurrency: usize,
    pub user_agent: String,
    pub stealth: bool,
    /// Whether each crawl presents a random browser fingerprint.
    pub random_fingerprint: bool,
    /// How long to wait for the network to go idle on a page.
    pub idle_network_secs: u64,
    /// The element waited for on each page, and for how long.
    pub wait_selector: String,
    pub wait_selector_secs: u64,
    /// The browser, when pages are rendered by Chrome.
    pub browser: Option<BrowserPlan>,
}

/// The authenticated crawl: the crawl settings, request delay and user
/// agent of the configuration, stealth mode with a random fingerprint, ten seconds for the network to
/// go idle and five for `body` to appear, and, when Chrome is used, a
/// browser (headless as configured, in the new headless mode, 30 second
/// timeout) behind the proxy
/// when one is configured (a non-empty proxy setting).
pub fn plan_authed_crawl(config: &CrawlerConfig) -> (plan: AuthedCrawlPlan)
    ensures
        plan.target_url == config.crawl.target_url,
        plan.depth == config.crawl.depth,
        plan.delay == config.request_delay,
        plan.concurrency == config.crawl.concurrency,
        plan.user_agent == config.user_agent,
        plan.stealth,
        plan.random_fingerprint,
        plan.idle_network_secs == 10,
        plan.wait_selector@ == "body"@,
        plan.wait_selector_secs == 5,
        config.crawl.use_chrome == plan.browser is Some,
        plan.browser matches Some(b) ==> {
            &&& b.headless == config.chrome.headless
            &&& b.headless_new
            &&& b.timeout_secs == 30
            &&& b.proxy == if config.proxy@.len() == 0 {
                None
            } else {
                Some(config.proxy)
            }
        },
{
    let browser = if config.crawl.use_chrome {
        let proxy = if config.proxy.as_str().is_empty() {
            None
        } else {
            Some(config.proxy.clone())
        };
        Some(
            BrowserPlan {
                headless: config.chrome.headless,
                headless_new: true,
                timeout_secs: 30,
                proxy,
            },
        )
    } else {
        None
    };
    AuthedCrawlPlan {
        target_url: config.crawl.target_url.clone(),
        depth: config.crawl.depth,
        delay: config.request_delay,
        concurrency: config.crawl.concurrency,
        user_agent: config.user_agent.clone(),
        stealth: true,
        random_fingerprint: true,
        idle_network_secs: 10,
        wait_selector: "body".to_owned(),
        wait_selector_secs: 5,
        browser,
    }
}

} // verus!
