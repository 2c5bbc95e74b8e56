use spider_enterprise_crawler::config::{
    resolve_crawler_secrets, ChromeConfig as CChrome, CookieConfig, CrawlConfig as CCrawl,
    CrawlerConfig, LoginConfig as CLogin, MinioConfig as CMinio, MonitorConfig as CMonitor,
    RedisConfig as CRedis, StorageConfig as CStorage,
};
use spider_enterprise_crawler::placeholders::EnvVar;
use spider_enterprise_crawler::settings::{
    resolve_config_placeholders, ChromeConfig, Config, CrawlConfig, LoginConfig, MinioConfig,
    RedisConfig, StorageConfig,
};

fn env(pairs: &[(&str, &str)]) -> Vec<EnvVar> {
    pairs
        .iter()
        .map(|(n, v)| EnvVar { name: n.to_string(), value: v.to_string() })
        .collect()
}

fn crawler_config() -> CrawlerConfig {
    CrawlerConfig {
        redis: CRedis { url: "redis://localhost".to_string() },
        login: CLogin {
            url: "https://example.com/login".to_string(),
            username: "${USER}".to_string(),
            password: "${PASS}".to_string(),
            username_selector: "#u".to_string(),
            password_selector: "#p".to_string(),
            login_btn_selector: "#go".to_string(),
        },
        cookie: CookieConfig { key: "k".to_string(), ttl: 60 },
        crawl: CCrawl { target_url: "https://example.com/".to_string(), depth: 3, concurrency: 4, use_chrome: true },
        request_delay: 250,
        proxy: String::new(),
        user_agent: "agent/1".to_string(),
        chrome: CChrome { headless: true },
        storage: CStorage {
            minio: CMinio {
                endpoint: "http://minio".to_string(),
                access_key: "${AK}".to_string(),
                secret_key: "plain".to_string(),
                bucket: "pages".to_string(),
            },
        },
        monitor: CMonitor { metrics_port: 9090, log_level: "info".to_string() },
    }
}

fn settings(storage: bool) -> Config {
    Config {
        redis: RedisConfig { url: "redis://127.0.0.1/".to_string(), cookie_ttl: 3600 },
        login: LoginConfig {
            url: "${LOGIN_URL}".to_string(),
            username: "${LOGIN_USERNAME}".to_string(),
            password: "pw-${LOGIN_PASSWORD}".to_string(),
            username_selector: "#u".to_string(),
            password_selector: "#p".to_string(),
            login_btn_selector: "#b".to_string(),
        },
        cookie: String::new(),
        cookie_key: "cookies".to_string(),
        chrome_headless: Some(true),
        cookie_ttl_seconds: Some(60),
        chrome: ChromeConfig { headless: true, executable_path: "/usr/bin/chrome".to_string() },
        crawl: CrawlConfig {
            target_url: "https://mail.163.com/".to_string(),
            depth: 1,
            concurrency: 1,
            use_chrome: None,
            download_dir: None,
        },
        request_delay: 0,
        proxy: String::new(),
        user_agent: None,
        storage: if storage {
            Some(StorageConfig {
                minio: MinioConfig {
                    endpoint: "e".to_string(),
                    access_key: "${AK}".to_string(),
                    secret_key: "${SK}".to_string(),
                    bucket: "b".to_string(),
                },
            })
        } else {
            None
        },
        monitor: None,
    }
}

#[test]
fn crawler_secrets_resolve() {
    let e = env(&[("USER", "u"), ("PASS", "p"), ("AK", "ak")]);
    let c = resolve_crawler_secrets(crawler_config(), &e).unwrap();
    assert_eq!(c.login.username, "u");
    assert_eq!(c.login.password, "p");
    assert_eq!(c.storage.minio.access_key, "ak");
    assert_eq!(c.storage.minio.secret_key, "plain");
    assert_eq!(c.login.url, "https://example.com/login");
}

#[test]
fn crawler_secrets_report_missing_in_order() {
    let e = env(&[("USER", "u")]);
    let err = resolve_crawler_secrets(crawler_config(), &e).unwrap_err();
    assert_eq!(err.name, "PASS");
    let err = resolve_crawler_secrets(crawler_config(), &env(&[("USER", "u"), ("PASS", "p")])).unwrap_err();
    assert_eq!(err.name, "AK");
}

#[test]
fn settings_placeholders_expand_credentials_only() {
    let e = env(&[("LOGIN_USERNAME", "me"), ("LOGIN_PASSWORD", "x"), ("AK", "a"), ("LOGIN_URL", "u")]);
    let c = resolve_config_placeholders(settings(true), &e);
    assert_eq!(c.login.username, "me");
    assert_eq!(c.login.password, "pw-x");
    assert_eq!(c.login.url, "${LOGIN_URL}");
    let s = c.storage.unwrap();
    assert_eq!(s.minio.access_key, "a");
    assert_eq!(s.minio.secret_key, "${SK}");
    let c = resolve_config_placeholders(settings(false), &e);
    assert!(c.storage.is_none());
}
