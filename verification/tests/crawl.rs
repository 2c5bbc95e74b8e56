use spider_enterprise_crawler::config::{
    ChromeConfig, CookieConfig, CrawlConfig, CrawlerConfig, LoginConfig, MinioConfig,
    MonitorConfig, RedisConfig, StorageConfig,
};
use spider_enterprise_crawler::cookies::SessionCookie;
use spider_enterprise_crawler::crawl::{
    cookie_source, must_relogin, plan_authed_crawl, plan_crawl, CookieSource,
};
use spider_enterprise_crawler::settings;

fn crawler_config(use_chrome: bool, proxy: &str) -> CrawlerConfig {
    CrawlerConfig {
        redis: RedisConfig { url: "redis://localhost".to_string() },
        login: LoginConfig {
            url: "https://example.com/login".to_string(),
            username: "${USER}".to_string(),
            password: "${PASS}".to_string(),
            username_selector: "#u".to_string(),
            password_selector: "#p".to_string(),
            login_btn_selector: "#go".to_string(),
        },
        cookie: CookieConfig { key: "k".to_string(), ttl: 60 },
        crawl: CrawlConfig {
            target_url: "https://example.com/".to_string(),
            depth: 3,
            concurrency: 4,
            use_chrome,
        },
        request_delay: 250,
        proxy: proxy.to_string(),
        user_agent: "agent/1".to_string(),
        chrome: ChromeConfig { headless: false },
        storage: StorageConfig {
            minio: MinioConfig {
                endpoint: "http://minio".to_string(),
                access_key: "${AK}".to_string(),
                secret_key: "fixed".to_string(),
                bucket: "pages".to_string(),
            },
        },
        monitor: MonitorConfig { metrics_port: 9090, log_level: "info".to_string() },
    }
}

#[test]
fn crawl_plan_defaults() {
    let crawl = settings::CrawlConfig {
        target_url: "https://t/".to_string(),
        depth: 2,
        concurrency: 5,
        use_chrome: None,
        download_dir: None,
    };
    let plan = plan_crawl(&crawl, "a=1", 100, None);
    assert_eq!(plan.download_dir, "downloads");
    assert!(plan.user_agent.starts_with("Mozilla/5.0 (Macintosh"));
    assert_eq!(plan.cookie, "a=1");
    assert_eq!((plan.depth, plan.concurrency, plan.delay), (2, 5, 100));
}

#[test]
fn crawl_plan_uses_settings() {
    let crawl = settings::CrawlConfig {
        target_url: "https://t/".to_string(),
        depth: 1,
        concurrency: 1,
        use_chrome: Some(true),
        download_dir: Some("out/163".to_string()),
    };
    let plan = plan_crawl(&crawl, "", 0, Some("bot/2"));
    assert_eq!(plan.download_dir, "out/163");
    assert_eq!(plan.user_agent, "bot/2");
    assert_eq!(plan.target_url, "https://t/");
}

#[test]
fn cookie_source_decision() {
    assert_eq!(cookie_source(Some(true)), CookieSource::Stored);
    assert_eq!(cookie_source(Some(false)), CookieSource::Login);
    assert_eq!(cookie_source(None), CookieSource::Login);
}

#[test]
fn relogin_decision() {
    assert!(must_relogin(&None));
    assert!(must_relogin(&Some(Vec::new())));
    let c = SessionCookie {
        name: "a".to_string(),
        value: "b".to_string(),
        domain: "example.com".to_string(),
        path: "/".to_string(),
        valid_for_secs: 3600,
    };
    assert!(!must_relogin(&Some(vec![c])));
}

#[test]
fn authed_plan_with_browser_and_proxy() {
    let plan = plan_authed_crawl(&crawler_config(true, "http://proxy:8080"));
    let b = plan.browser.unwrap();
    assert!(!b.headless);
    assert_eq!(b.timeout_secs, 30);
    assert_eq!(b.proxy.as_deref(), Some("http://proxy:8080"));
    assert!(plan.stealth);
    assert!(plan.random_fingerprint);
    assert!(b.headless_new);
    assert_eq!(plan.wait_selector, "body");
    assert_eq!((plan.idle_network_secs, plan.wait_selector_secs), (10, 5));
    assert_eq!((plan.depth, plan.delay, plan.concurrency), (3, 250, 4));
    assert_eq!(plan.user_agent, "agent/1");
}

#[test]
fn authed_plan_empty_proxy_and_no_browser() {
    let plan = plan_authed_crawl(&crawler_config(true, ""));
    assert!(plan.browser.unwrap().proxy.is_none());
    assert!(plan_authed_crawl(&crawler_config(false, "x")).browser.is_none());
}
