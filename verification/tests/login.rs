use spider_enterprise_crawler::login::{
    client_profile, start_login, HeaderText, HttpOutcome, HttpReply, HttpRequest, LoginError,
    LoginFlow, LoginSite, LoginStage, LoginStep,
};
use spider_enterprise_crawler::settings::{
    ChromeConfig, Config, CrawlConfig, LoginConfig, RedisConfig,
};

fn config(url: &str, user: &str, pass: &str) -> Config {
    Config {
        redis: RedisConfig { url: "redis://127.0.0.1/".to_string(), cookie_ttl: 3600 },
        login: LoginConfig {
            url: url.to_string(),
            username: user.to_string(),
            password: pass.to_string(),
            username_selector: "#u".to_string(),
            password_selector: "#p".to_string(),
            login_btn_selector: "#b".to_string(),
        },
        cookie: String::new(),
        cookie_key: "cookies".to_string(),
        chrome_headless: None,
        cookie_ttl_seconds: None,
        chrome: ChromeConfig { headless: true, executable_path: String::new() },
        crawl: CrawlConfig {
            target_url: "https://mail.163.com/inbox".to_string(),
            depth: 1,
            concurrency: 1,
            use_chrome: None,
            download_dir: None,
        },
        request_delay: 0,
        proxy: String::new(),
        user_agent: None,
        storage: None,
        monitor: None,
    }
}

fn reply(status: u16, location: HeaderText, url: &str, body: &str, cookies: &[&str]) -> HttpOutcome {
    HttpOutcome::Reply(HttpReply {
        status,
        location,
        final_url: url.to_string(),
        body: body.to_string(),
        set_cookies: cookies.iter().map(|c| c.to_string()).collect(),
    })
}

fn sent(step: LoginStep) -> (LoginFlow, HttpRequest) {
    match step {
        LoginStep::Send(f, r) => (f, r),
        LoginStep::Finished(_) => panic!("login finished early"),
    }
}

fn finished(step: LoginStep) -> Result<Vec<spider_enterprise_crawler::cookies::SessionCookie>, LoginError> {
    match step {
        LoginStep::Finished(r) => r,
        LoginStep::Send(..) => panic!("login still running"),
    }
}

#[test]
fn empty_login_url_is_refused() {
    let r = finished(start_login(&config("", "u", "p")));
    assert!(matches!(r, Err(LoginError::EmptyLoginUrl)));
}

#[test]
fn empty_credentials_are_refused() {
    assert!(matches!(finished(start_login(&config("https://a", "", "p"))), Err(LoginError::EmptyCredentials)));
    assert!(matches!(finished(start_login(&config("https://a", "u", ""))), Err(LoginError::EmptyCredentials)));
}

#[test]
fn netease_login_full_run() {
    let (flow, req) = sent(start_login(&config("https://mail.163.com/login", "me", "pw")));
    assert_eq!(flow.site(), LoginSite::Netease);
    match &req {
        HttpRequest::Get { url, referer, read_body } => {
            assert_eq!(url, "https://mail.163.com/login");
            assert_eq!(referer.as_deref(), Some("https://mail.163.com/"));
            assert!(!read_body);
        }
        _ => panic!("expected GET"),
    }
    let (flow, req) = sent(flow.advance(reply(302, HeaderText::Text("https://dl.reg.163.com/x".into()), "", "", &[])));
    assert_eq!(flow.stage, LoginStage::AwaitRealPage);
    match &req {
        HttpRequest::Get { url, read_body, .. } => {
            assert_eq!(url, "https://dl.reg.163.com/x");
            assert!(*read_body);
        }
        _ => panic!("expected GET"),
    }
    let page = r#"var c = {appkey:"K1", csrfToken:"T1", action:"https://dl.reg.163.com/submit"};"#;
    let (flow, req) = sent(flow.advance(reply(200, HeaderText::Absent, "", page, &[])));
    match &req {
        HttpRequest::PostForm { url, fields } => {
            assert_eq!(url, "https://dl.reg.163.com/submit");
            let kv: Vec<(&str, &str)> = fields.iter().map(|f| (f.key.as_str(), f.value.as_str())).collect();
            assert_eq!(
                kv,
                vec![
                    ("username", "me"),
                    ("password", "pw"),
                    ("appkey", "K1"),
                    ("csrfToken", "T1"),
                    ("type", "1"),
                    ("product", "mail163"),
                    ("url", "https://mail.163.com/inbox"),
                ]
            );
        }
        _ => panic!("expected POST"),
    }
    let (flow, req) = sent(flow.advance(reply(500, HeaderText::Absent, "", "", &[])));
    match &req {
        HttpRequest::Get { url, .. } => assert_eq!(url, "https://mail.163.com/inbox"),
        _ => panic!("expected GET"),
    }
    let cookies = finished(flow.advance(reply(
        200,
        HeaderText::Absent,
        "https://mail.163.com/inbox",
        "",
        &["NTES_SESS=abc; Path=/"],
    )))
    .unwrap();
    assert_eq!(cookies.len(), 1);
    assert_eq!(cookies[0].name, "NTES_SESS");
    assert_eq!(cookies[0].value, "abc");
    assert_eq!(cookies[0].domain, "163.com");
    assert_eq!(cookies[0].path, "/");
    assert_eq!(cookies[0].valid_for_secs, 86400);
}

#[test]
fn netease_defaults_when_page_has_no_fields() {
    let (flow, _) = sent(start_login(&config("https://mail.163.com/", "me", "pw")));
    let (flow, req) = sent(flow.advance(reply(200, HeaderText::Absent, "", "", &[])));
    match &req {
        HttpRequest::Get { url, .. } => assert_eq!(url, "https://mail.163.com/"),
        _ => panic!("expected GET"),
    }
    let (_, req) = sent(flow.advance(reply(200, HeaderText::Absent, "", "<html></html>", &[])));
    match &req {
        HttpRequest::PostForm { url, fields } => {
            assert_eq!(url, "https://mail.163.com/");
            assert_eq!(fields[2].value, "mail163");
            assert_eq!(fields[3].value, "default");
        }
        _ => panic!("expected POST"),
    }
}

#[test]
fn netease_redirect_errors() {
    let (flow, _) = sent(start_login(&config("https://mail.163.com/", "me", "pw")));
    let r = finished(flow.clone().advance(reply(301, HeaderText::Absent, "", "", &[])));
    assert!(matches!(r, Err(LoginError::MissingRedirect)));
    let r = finished(flow.clone().advance(reply(302, HeaderText::Unreadable, "", "", &[])));
    assert!(matches!(r, Err(LoginError::UnreadableRedirect)));
    let r = finished(flow.advance(HttpOutcome::SendFailed));
    assert!(matches!(r, Err(LoginError::LoginPageUnreachable)));
}

#[test]
fn netease_transport_errors_per_stage() {
    let (flow, _) = sent(start_login(&config("https://mail.163.com/", "me", "pw")));
    let (real, _) = sent(flow.advance(reply(200, HeaderText::Absent, "", "", &[])));
    assert!(matches!(finished(real.clone().advance(HttpOutcome::SendFailed)), Err(LoginError::RealPageUnreachable)));
    assert!(matches!(finished(real.clone().advance(HttpOutcome::BodyFailed)), Err(LoginError::RealPageUnreadable)));
    let (submit, _) = sent(real.advance(reply(200, HeaderText::Absent, "", "", &[])));
    assert!(matches!(finished(submit.clone().advance(HttpOutcome::SendFailed)), Err(LoginError::SubmitFailed)));
    let (verify, _) = sent(submit.advance(reply(200, HeaderText::Absent, "", "", &[])));
    assert!(matches!(finished(verify.advance(HttpOutcome::SendFailed)), Err(LoginError::VerifyUnreachable)));
}

#[test]
fn netease_rejected_login() {
    let (flow, _) = sent(start_login(&config("https://mail.163.com/", "me", "pw")));
    let (flow, _) = sent(flow.advance(reply(200, HeaderText::Absent, "", "", &[])));
    let (flow, _) = sent(flow.advance(reply(200, HeaderText::Absent, "", "", &[])));
    let (flow, _) = sent(flow.advance(reply(200, HeaderText::Absent, "", "", &[])));
    match finished(flow.clone().advance(reply(200, HeaderText::Absent, "https://mail.163.com/login?x", "", &[]))) {
        Err(LoginError::Rejected { status, url }) => {
            assert_eq!(status, 200);
            assert_eq!(url, "https://mail.163.com/login?x");
        }
        _ => panic!("expected rejection"),
    }
    match finished(flow.advance(reply(403, HeaderText::Absent, "https://mail.163.com/", "", &[]))) {
        Err(LoginError::Rejected { status, .. }) => assert_eq!(status, 403),
        _ => panic!("expected rejection"),
    }
}

#[test]
fn netease_placeholder_cookie() {
    let (flow, _) = sent(start_login(&config("https://mail.163.com/", "me", "pw")));
    let (flow, _) = sent(flow.advance(reply(200, HeaderText::Absent, "", "", &[])));
    let (flow, _) = sent(flow.advance(reply(200, HeaderText::Absent, "", "", &[])));
    let (flow, _) = sent(flow.advance(reply(200, HeaderText::Absent, "", "", &[])));
    let cs = finished(flow.advance(reply(200, HeaderText::Absent, "https://mail.163.com/", "", &[]))).unwrap();
    assert_eq!(cs.len(), 1);
    assert_eq!(cs[0].name, "JSESSIONID");
    assert_eq!(cs[0].value, "163_valid");
}

#[test]
fn generic_login() {
    let (flow, req) = sent(start_login(&config("https://example.org/login", "me", "pw")));
    assert_eq!(flow.site(), LoginSite::Generic);
    match &req {
        HttpRequest::PostForm { url, fields } => {
            assert_eq!(url, "https://example.org/login");
            assert_eq!(fields.len(), 2);
            assert_eq!((fields[0].key.as_str(), fields[0].value.as_str()), ("username", "me"));
            assert_eq!((fields[1].key.as_str(), fields[1].value.as_str()), ("password", "pw"));
        }
        _ => panic!("expected POST"),
    }
    let cs = finished(flow.clone().advance(reply(200, HeaderText::Absent, "", "", &["a=b", "c=d; Secure"]))).unwrap();
    assert_eq!(cs.iter().map(|c| c.name.as_str()).collect::<Vec<_>>(), vec!["a", "c"]);
    assert!(cs.iter().all(|c| c.domain == "example.com"));
    let cs = finished(flow.clone().advance(reply(204, HeaderText::Absent, "", "", &[]))).unwrap();
    assert_eq!((cs[0].name.as_str(), cs[0].value.as_str()), ("session", "valid"));
    match finished(flow.clone().advance(reply(401, HeaderText::Absent, "https://example.org/login", "", &[]))) {
        Err(LoginError::Rejected { status, url }) => {
            assert_eq!(status, 401);
            assert_eq!(url, "https://example.org/login");
        }
        _ => panic!("a refused login must fail"),
    }
    assert!(matches!(
        finished(flow.clone().advance(reply(302, HeaderText::Absent, "", "", &["a=b"]))),
        Err(LoginError::Rejected { status: 302, .. })
    ));
    // Answered by the login URL itself, or after a redirect to a page that
    // is no login page: accepted.
    assert!(finished(flow.clone().advance(reply(200, HeaderText::Absent, "https://example.org/login", "", &[]))).is_ok());
    assert!(finished(flow.clone().advance(reply(200, HeaderText::Absent, "https://example.org/home", "", &[]))).is_ok());
    // Redirected back to a login page: refused.
    match finished(flow.clone().advance(reply(200, HeaderText::Absent, "https://example.org/login?error=1", "", &["a=b"]))) {
        Err(LoginError::Rejected { status, url }) => {
            assert_eq!(status, 200);
            assert_eq!(url, "https://example.org/login?error=1");
        }
        _ => panic!("a login sent back to the login page must fail"),
    }
    assert!(matches!(finished(flow.advance(HttpOutcome::SendFailed)), Err(LoginError::GenericSubmitFailed)));
}

#[test]
fn client_profiles() {
    let n = client_profile(LoginSite::Netease);
    assert!(!n.follow_redirects);
    assert_eq!(n.timeout_secs, 30);
    assert!(n.user_agent.unwrap().contains("Chrome/123.0.0.0"));
    let g = client_profile(LoginSite::Generic);
    assert!(g.follow_redirects);
    assert!(g.user_agent.is_none());
}
