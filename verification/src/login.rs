//! Logging in to obtain session cookies, as a state machine: each step takes
//! the outcome of the previous HTTP request and gives the next request to
//! make, or the final result.  Sites whose login URL names `163.com` go
//! through the NetEase mail login (login page, possible redirect, parameter
//! extraction, form submission, check of the target page); any other site
//! gets a single form submission, which must be answered with a 2xx status
//! and not be redirected back to a login page.

use vstd::prelude::*;
use crate::cookies::{
    cookies_are, cookies_from_set_cookie_headers, login_pairs, set_cookie_pairs, texts, CookieView,
    SessionCookie, LOGIN_COOKIE_SECS,
};
use crate::html::{field_from, quoted_field};
use crate::settings::Config;
use crate::text::{
    chars_of, contains_chars, contains_seq, first_occurrence, lemma_first_exists, lemma_first_some, occurs_at,
    same_chars, string_of,
};

verus! {

/// Which login procedure a site gets.
#[derive(Clone, Copy, Debug, PartialEq, Eq, Structural)]
pub enum LoginSite {
    Netease,
    Generic,
}

/// Why a login failed.
#[derive(Clone, Debug)]
pub enum LoginError {
    /// `login.url` is empty.
    EmptyLoginUrl,
    /// The username or the password is empty.
    EmptyCredentials,
    /// The login page could not be fetched.
    LoginPageUnreachable,
    /// The login page redirected without a `Location` header.
    MissingRedirect,
    /// The `Location` header of the redirect is not readable text.
    UnreadableRedirect,
    /// The page the login page leads to could not be fetched.
    RealPageUnreachable,
    /// The body of that page could not be read.
    RealPageUnreadable,
    /// The login form could not be sent.
    SubmitFailed,
    /// The target page could not be fetched to check the login.
    VerifyUnreachable,
    /// The site refused the account: for NetEase, the target page did not
    /// answer 200 or answered from a login URL; for other sites, the login
    /// form was answered with a status outside 2xx or redirected to another
    /// URL that contains `login`.
    Rejected { status: u16, url: String },
    /// The login form of a generic site could not be sent.
    GenericSubmitFailed,
}

/// One field of a submitted form.
#[derive(Clone, Debug)]
pub struct FormField {
    pub key: String,
    pub value: String,
}

/// A request the login needs made.
#[derive(Clone, Debug)]
pub enum HttpRequest {
    /// `GET url`, with a `Referer` header when given; `read_body` tells
    /// whether the body of the reply is needed.
    Get { url: String, referer: Option<String>, read_body: bool },
    /// `POST url` with the fields form-encoded, in order.
    PostForm { url: String, fields: Vec<FormField> },
}

/// A response header as the login sees it.
#[derive(Clone, Debug)]
pub enum HeaderText {
    Absent,
    Unreadable,
    Text(String),
}

/// What came back for a request.
#[derive(Clone, Debug)]
pub struct HttpReply {
    pub status: u16,
    pub location: HeaderText,
    /// The URL of the response.
    pub final_url: String,
    /// The body, when the request asked for it (empty otherwise).
    pub body: String,
    /// The `Set-Cookie` header values that are readable text, in order.
    pub set_cookies: Vec<String>,
}

/// The outcome of a request.
#[derive(Clone, Debug)]
pub enum HttpOutcome {
    Reply(HttpReply),
    /// The request could not be sent or got no response.
    SendFailed,
    /// The response came but its body could not be read.
    BodyFailed,
}

/// Where a login stands: which reply it waits for.
#[derive(Clone, Copy, Debug, PartialEq, Eq, Structural)]
pub enum LoginStage {
    AwaitLoginPage,
    AwaitRealPage,
    AwaitSubmit,
    AwaitVerify,
    AwaitGenericSubmit,
}

/// A login in progress.
#[derive(Clone, Debug)]
pub struct LoginFlow {
    pub stage: LoginStage,
    pub login_url: String,
    pub username: String,
    pub password: String,
    pub target_url: String,
}

/// What a login does next.
#[derive(Debug)]
pub enum LoginStep {
    /// Make the request and hand its outcome to the flow.
    Send(LoginFlow, HttpRequest),
    /// The login is over.
    Finished(Result<Vec<SessionCookie>, LoginError>),
}

/// How the HTTP client of a login is set up.
#[derive(Clone, Debug)]
pub struct ClientProfile {
    pub user_agent: Option<String>,
    pub follow_redirects: bool,
    pub timeout_secs: u64,
}

// ------------------------------------------------------------------------
// Views
// ------------------------------------------------------------------------

pub enum ErrorView {
    EmptyLoginUrl,
    EmptyCredentials,
    LoginPageUnreachable,
    MissingRedirect,
    UnreadableRedirect,
    RealPageUnreachable,
    RealPageUnreadable,
    SubmitFailed,
    VerifyUnreachable,
    Rejected { status: u16, url: Seq<char> },
    GenericSubmitFailed,
}

impl View for LoginError {
    type V = ErrorView;

    open spec fn view(&self) -> ErrorView {
        match self {
            LoginError::EmptyLoginUrl => ErrorView::EmptyLoginUrl,
            LoginError::EmptyCredentials => ErrorView::EmptyCredentials,
            LoginError::LoginPageUnreachable => ErrorView::LoginPageUnreachable,
            LoginError::MissingRedirect => ErrorView::MissingRedirect,
            LoginError::UnreadableRedirect => ErrorView::UnreadableRedirect,
            LoginError::RealPageUnreachable => ErrorView::RealPageUnreachable,
            LoginError::RealPageUnreadable => ErrorView::RealPageUnreadable,
            LoginError::SubmitFailed => ErrorView::SubmitFailed,
            LoginError::VerifyUnreachable => ErrorView::VerifyUnreachable,
            LoginError::Rejected { status, url } => ErrorView::Rejected {
                status: *status,
                url: url@,
            },
            LoginError::GenericSubmitFailed => ErrorView::GenericSubmitFailed,
        }
    }
}

pub enum RequestView {
    Get { url: Seq<char>, referer: Option<Seq<char>>, read_body: bool },
    PostForm { url: Seq<char>, fields: Seq<(Seq<char>, Seq<char>)> },
}

impl View for HttpRequest {
    type V = RequestView;

    open spec fn view(&self) -> RequestView {
        match self {
            HttpRequest::Get { url, referer, read_body } => RequestView::Get {
                url: url@,
                referer: match referer {
                    Some(r) => Some(r@),
                    None => None,
                },
                read_body: *read_body,
            },
            HttpRequest::PostForm { url, fields } => RequestView::PostForm {
                url: url@,
                fields: fields@.map_values(|f: FormField| (f.key@, f.value@)),
            },
        }
    }
}

pub enum HeaderView {
    Absent,
    Unreadable,
    Text(Seq<char>),
}

pub struct ReplyView {
    pub status: u16,
    pub location: HeaderView,
    pub final_url: Seq<char>,
    pub body: Seq<char>,
    pub set_cookies: Seq<Seq<char>>,
}

pub enum OutcomeView {
    Reply(ReplyView),
    SendFailed,
    BodyFailed,
}

impl View for HttpOutcome {
    type V = OutcomeView;

    open spec fn view(&self) -> OutcomeView {
        match self {
            HttpOutcome::Reply(r) => OutcomeView::Reply(
                ReplyView {
                    status: r.status,
                    location: match &r.location {
                        HeaderText::Absent => HeaderView::Absent,
                        HeaderText::Unreadable => HeaderView::Unreadable,
                        HeaderText::Text(t) => HeaderView::Text(t@),
                    },
                    final_url: r.final_url@,
                    body: r.body@,
                    set_cookies: texts(r.set_cookies@),
                },
            ),
            HttpOutcome::SendFailed => OutcomeView::SendFailed,
            HttpOutcome::BodyFailed => OutcomeView::BodyFailed,
        }
    }
}

pub struct FlowView {
    pub stage: LoginStage,
    pub login_url: Seq<char>,
    pub username: Seq<char>,
    pub password: Seq<char>,
    pub target_url: Seq<char>,
}

impl View for LoginFlow {
    type V = FlowView;

    open spec fn view(&self) -> FlowView {
        FlowView {
            stage: self.stage,
            login_url: self.login_url@,
            username: self.username@,
            password: self.password@,
            target_url: self.target_url@,
        }
    }
}

pub enum StepView {
    Send(FlowView, RequestView),
    Finished(Result<Seq<CookieView>, ErrorView>),
}

impl View for LoginStep {
    type V = StepView;

    open spec fn view(&self) -> StepView {
        match self {
            LoginStep::Send(f, r) => StepView::Send(f@, r@),
            LoginStep::Finished(Ok(cs)) => StepView::Finished(
                Ok(cs@.map_values(|c: SessionCookie| c@)),
            ),
            LoginStep::Finished(Err(e)) => StepView::Finished(Err(e@)),
        }
    }
}

// ------------------------------------------------------------------------
// The procedure
// ------------------------------------------------------------------------

/// The NetEase mail login page that the first request names as referrer.
pub open spec fn netease_referer() -> Seq<char> {
    "https://mail.163.com/"@
}

/// The cookies a finished login keeps, for `domain`.
pub open spec fn login_cookie_views(
    set_cookies: Seq<Seq<char>>,
    fallback: (Seq<char>, Seq<char>),
    domain: Seq<char>,
) -> Seq<CookieView> {
    login_pairs(set_cookies, fallback).map_values(
        |p: (Seq<char>, Seq<char>)|
            CookieView {
                name: p.0,
                value: p.1,
                domain: domain,
                path: seq!['/'],
                valid_for_secs: LOGIN_COOKIE_SECS,
            },
    )
}

/// The value of a `key:"value"` field of the page, or `default`.
pub open spec fn field_or(html: Seq<char>, prefix: Seq<char>, default: Seq<char>) -> Seq<char> {
    match field_from(html, prefix, 0) {
        Some(v) => v,
        None => default,
    }
}

/// The NetEase login form, built from the login page's `appkey`,
/// `csrfToken` and `action` fields (defaults `mail163`, `default` and the
/// configured login URL).
pub open spec fn netease_form(f: FlowView, html: Seq<char>) -> RequestView {
    RequestView::PostForm {
        url: field_or(html, "action:\""@, f.login_url),
        fields: seq![
            ("username"@, f.username),
            ("password"@, f.password),
            ("appkey"@, field_or(html, "appkey:\""@, "mail163"@)),
            ("csrfToken"@, field_or(html, "csrfToken:\""@, "default"@)),
            ("type"@, "1"@),
            ("product"@, "mail163"@),
            ("url"@, f.target_url),
        ],
    }
}

/// `f` moved to `stage`.
pub open spec fn at_stage(f: FlowView, stage: LoginStage) -> FlowView {
    FlowView { stage, ..f }
}

/// A status of the 2xx class: the site accepted the request.
pub open spec fn is_success_status(status: u16) -> bool {
    200 <= status && status <= 299
}

/// Whether a generic site refused the login form: it answered with a status
/// outside 2xx, or it redirected the form to another URL that contains
/// `login` (back to a login page).
pub open spec fn generic_refused(login_url: Seq<char>, status: u16, final_url: Seq<char>) -> bool {
    !is_success_status(status) || (final_url != login_url && contains_seq(final_url, "login"@))
}

/// The first step of a login for the settings' login URL, account and
/// crawl target.
pub open spec fn start_step(url: Seq<char>, username: Seq<char>, password: Seq<char>, target: Seq<
    char,
>) -> StepView {
    let f = FlowView {
        stage: LoginStage::AwaitLoginPage,
        login_url: url,
        username,
        password,
        target_url: target,
    };
    if url.len() == 0 {
        StepView::Finished(Err(ErrorView::EmptyLoginUrl))
    } else if username.len() == 0 || password.len() == 0 {
        StepView::Finished(Err(ErrorView::EmptyCredentials))
    } else if contains_seq(url, "163.com"@) {
        StepView::Send(
            f,
            RequestView::Get { url, referer: Some(netease_referer()), read_body: false },
        )
    } else {
        StepView::Send(
            at_stage(f, LoginStage::AwaitGenericSubmit),
            RequestView::PostForm {
                url,
                fields: seq![("username"@, username), ("password"@, password)],
            },
        )
    }
}

/// The step a login takes from `f` on outcome `o`.
pub open spec fn next_step(f: FlowView, o: OutcomeView) -> StepView {
    match f.stage {
        LoginStage::AwaitLoginPage => match o {
            OutcomeView::Reply(r) => {
                let real_url = if r.status == 301 || r.status == 302 {
                    match r.location {
                        HeaderView::Text(u) => Some(u),
                        _ => None,
                    }
                } else {
                    Some(f.login_url)
                };
                match real_url {
                    Some(u) => StepView::Send(
                        at_stage(f, LoginStage::AwaitRealPage),
                        RequestView::Get { url: u, referer: None, read_body: true },
                    ),
                    None => match r.location {
                        HeaderView::Unreadable => StepView::Finished(
                            Err(ErrorView::UnreadableRedirect),
                        ),
                        _ => StepView::Finished(Err(ErrorView::MissingRedirect)),
                    },
                }
            },
            _ => StepView::Finished(Err(ErrorView::LoginPageUnreachable)),
        },
        LoginStage::AwaitRealPage => match o {
            OutcomeView::Reply(r) => StepView::Send(
                at_stage(f, LoginStage::AwaitSubmit),
                netease_form(f, r.body),
            ),
            OutcomeView::SendFailed => StepView::Finished(Err(ErrorView::RealPageUnreachable)),
            OutcomeView::BodyFailed => StepView::Finished(Err(ErrorView::RealPageUnreadable)),
        },
        LoginStage::AwaitSubmit => match o {
            OutcomeView::Reply(_) => StepView::Send(
                at_stage(f, LoginStage::AwaitVerify),
                RequestView::Get { url: f.target_url, referer: None, read_body: false },
            ),
            _ => StepView::Finished(Err(ErrorView::SubmitFailed)),
        },
        LoginStage::AwaitVerify => match o {
            OutcomeView::Reply(r) => if r.status != 200 || contains_seq(r.final_url, "login"@) {
                StepView::Finished(Err(ErrorView::Rejected { status: r.status, url: r.final_url }))
            } else {
                StepView::Finished(
                    Ok(
                        login_cookie_views(
                            r.set_cookies,
                            ("JSESSIONID"@, "163_valid"@),
                            "163.com"@,
                        ),
                    ),
                )
            },
            _ => StepView::Finished(Err(ErrorView::VerifyUnreachable)),
        },
        LoginStage::AwaitGenericSubmit => match o {
            OutcomeView::Reply(r) => if generic_refused(f.login_url, r.status, r.final_url) {
                StepView::Finished(Err(ErrorView::Rejected { status: r.status, url: r.final_url }))
            } else {
                StepView::Finished(
                    Ok(login_cookie_views(r.set_cookies, ("session"@, "valid"@), "example.com"@)),
                )
            },
            _ => StepView::Finished(Err(ErrorView::GenericSubmitFailed)),
        },
    }
}

proof fn lemma_cookie_views(
    cookies: Seq<SessionCookie>,
    pairs: Seq<(Seq<char>, Seq<char>)>,
    domain: Seq<char>,
)
    requires
        cookies_are(cookies, pairs, domain, LOGIN_COOKIE_SECS),
    ensures
        cookies.map_values(|c: SessionCookie| c@) == pairs.map_values(
            |p: (Seq<char>, Seq<char>)|
                CookieView {
                    name: p.0,
                    value: p.1,
                    domain: domain,
                    path: seq!['/'],
                    valid_for_secs: LOGIN_COOKIE_SECS,
                },
        ),
{
    let a = cookies.map_values(|c: SessionCookie| c@);
    let b = pairs.map_values(
        |p: (Seq<char>, Seq<char>)|
            CookieView {
                name: p.0,
                value: p.1,
                domain: domain,
                path: seq!['/'],
                valid_for_secs: LOGIN_COOKIE_SECS,
            },
    );
    assert forall|k: int| 0 <= k < a.len() implies a[k] == b[k] by {
        assert(cookies[k].name@ == pairs[k].0);
    }
    assert(a =~= b);
}

fn form_field(key: &str, value: String) -> (f: FormField)
    ensures
        f.key@ == key@,
        f.value@ == value@,
{
    FormField { key: key.to_owned(), value }
}

/// The value of the leftmost `prefix[^"]+"` field of the page, or `default`.
fn field_or_exec(html: &Vec<char>, prefix: &str, default: String) -> (v: String)
    ensures
        v@ == field_or(html@, prefix@, default@),
{
    let p = chars_of(prefix);
    match quoted_field(html, &p) {
        Some(v) => string_of(&v),
        None => default,
    }
}

/// The first step of logging in with the settings' account: a check of the
/// settings, then the first request of the procedure the login URL calls
/// for.
pub fn start_login(config: &Config) -> (step: LoginStep)
    ensures
        step@ == start_step(
            config.login.url@,
            config.login.username@,
            config.login.password@,
            config.crawl.target_url@,
        ),
{
    let login = &config.login;
    if login.url.as_str().is_empty() {
        return LoginStep::Finished(Err(LoginError::EmptyLoginUrl));
    }
    if login.username.as_str().is_empty() || login.password.as_str().is_empty() {
        return LoginStep::Finished(Err(LoginError::EmptyCredentials));
    }
    let url = chars_of(login.url.as_str());
    let marker = chars_of("163.com");
    let netease = contains_chars(&url, &marker);
    if netease {
        let flow = LoginFlow {
            stage: LoginStage::AwaitLoginPage,
            login_url: login.url.clone(),
            username: login.username.clone(),
            password: login.password.clone(),
            target_url: config.crawl.target_url.clone(),
        };
        let req = HttpRequest::Get {
            url: login.url.clone(),
            referer: Some("https://mail.163.com/".to_owned()),
            read_body: false,
        };
        LoginStep::Send(flow, req)
    } else {
        let flow = LoginFlow {
            stage: LoginStage::AwaitGenericSubmit,
            login_url: login.url.clone(),
            username: login.username.clone(),
            password: login.password.clone(),
            target_url: config.crawl.target_url.clone(),
        };
        let mut fields: Vec<FormField> = Vec::new();
        fields.push(form_field("username", login.username.clone()));
        fields.push(form_field("password", login.password.clone()));
        let req = HttpRequest::PostForm { url: login.url.clone(), fields };
        proof {
            assert(req@ matches RequestView::PostForm { fields: fv, .. } && fv =~= seq![
                ("username"@, login.username@),
                ("password"@, login.password@),
            ]);
        }
        LoginStep::Send(flow, req)
    }
}

/// How the client of a login to `site` is set up: for NetEase a desktop
/// browser user agent and no automatic redirects, for other sites the
/// client defaults; a 30 second timeout for both.
pub fn client_profile(site: LoginSite) -> (p: ClientProfile)
    ensures
        p.timeout_secs == 30,
        p.follow_redirects == (site == LoginSite::Generic),
        site == LoginSite::Generic ==> p.user_agent is None,
        site == LoginSite::Netease ==> (p.user_agent matches Some(ua) && ua@
            == "Mozilla/5.0 (Windows NT 10.0; Win64; x64) AppleWebKit/537.36 Chrome/123.0.0.0 Safari/537.36"@),
{
    match site {
        LoginSite::Netease => ClientProfile {
            user_agent: Some(
                "Mozilla/5.0 (Windows NT 10.0; Win64; x64) AppleWebKit/537.36 Chrome/123.0.0.0 Safari/537.36".to_owned(),
            ),
            follow_redirects: false,
            timeout_secs: 30,
        },
        LoginSite::Generic => ClientProfile {
            user_agent: None,
            follow_redirects: true,
            timeout_secs: 30,
        },
    }
}

impl LoginFlow {
    /// The procedure this login follows.
    pub fn site(&self) -> (s: LoginSite)
        ensures
            s == (if self.stage == LoginStage::AwaitGenericSubmit {
                LoginSite::Generic
            } else {
                LoginSite::Netease
            }),
    {
        match self.stage {
            LoginStage::AwaitGenericSubmit => LoginSite::Generic,
            _ => LoginSite::Netease,
        }
    }

    fn moved_to(self, stage: LoginStage) -> (f: LoginFlow)
        ensures
            f@ == at_stage(self@, stage),
    {
        LoginFlow { stage, ..self }
    }

    /// The next step of the login, given the outcome of the request of the
    /// previous step.
    pub fn advance(self, outcome: HttpOutcome) -> (step: LoginStep)
        ensures
            step@ == next_step(self@, outcome@),
    {
        match self.stage {
            LoginStage::AwaitLoginPage => match outcome {
                HttpOutcome::Reply(r) => {
                    let real_url = if r.status == 301 || r.status == 302 {
                        match r.location {
                            HeaderText::Text(u) => u,
                            HeaderText::Absent => {
                                return LoginStep::Finished(Err(LoginError::MissingRedirect));
                            },
                            HeaderText::Unreadable => {
                                return LoginStep::Finished(Err(LoginError::UnreadableRedirect));
                            },
                        }
                    } else {
                        self.login_url.clone()
                    };
                    let req = HttpRequest::Get { url: real_url, referer: None, read_body: true };
                    LoginStep::Send(self.moved_to(LoginStage::AwaitRealPage), req)
                },
                _ => LoginStep::Finished(Err(LoginError::LoginPageUnreachable)),
            },
            LoginStage::AwaitRealPage => match outcome {
                HttpOutcome::Reply(r) => {
                    let html = chars_of(r.body.as_str());
                    let action = field_or_exec(&html, "action:\"", self.login_url.clone());
                    let appkey = field_or_exec(&html, "appkey:\"", "mail163".to_owned());
                    let csrf = field_or_exec(&html, "csrfToken:\"", "default".to_owned());
                    let mut fields: Vec<FormField> = Vec::new();
                    fields.push(form_field("username", self.username.clone()));
                    fields.push(form_field("password", self.password.clone()));
                    fields.push(form_field("appkey", appkey));
                    fields.push(form_field("csrfToken", csrf));
                    fields.push(form_field("type", "1".to_owned()));
                    fields.push(form_field("product", "mail163".to_owned()));
                    fields.push(form_field("url", self.target_url.clone()));
                    let req = HttpRequest::PostForm { url: action, fields };
                    proof {
                        assert(req@ matches RequestView::PostForm { fields: fv, .. } && fv
                            =~= netease_form(self@, r.body@)->PostForm_fields);
                    }
                    LoginStep::Send(self.moved_to(LoginStage::AwaitSubmit), req)
                },
                HttpOutcome::SendFailed => LoginStep::Finished(
                    Err(LoginError::RealPageUnreachable),
                ),
                HttpOutcome::BodyFailed => LoginStep::Finished(Err(LoginError::RealPageUnreadable)),
            },
            LoginStage::AwaitSubmit => match outcome {
                HttpOutcome::Reply(_) => {
                    let req = HttpRequest::Get {
                        url: self.target_url.clone(),
                        referer: None,
                        read_body: false,
                    };
                    LoginStep::Send(self.moved_to(LoginStage::AwaitVerify), req)
                },
                _ => LoginStep::Finished(Err(LoginError::SubmitFailed)),
            },
            LoginStage::AwaitVerify => match outcome {
                HttpOutcome::Reply(r) => {
                    let final_url = chars_of(r.final_url.as_str());
                    let marker = chars_of("login");
                    if r.status != 200 || contains_chars(&final_url, &marker) {
                        LoginStep::Finished(
                            Err(LoginError::Rejected { status: r.status, url: r.final_url }),
                        )
                    } else {
                        let cookies = cookies_from_set_cookie_headers(
                            &r.set_cookies,
                            "163.com",
                            "JSESSIONID",
                            "163_valid",
                        );
                        proof {
                            lemma_cookie_views(
                                cookies@,
                                login_pairs(texts(r.set_cookies@), ("JSESSIONID"@, "163_valid"@)),
                                "163.com"@,
                            );
                        }
                        LoginStep::Finished(Ok(cookies))
                    }
                },
                _ => LoginStep::Finished(Err(LoginError::VerifyUnreachable)),
            },
            LoginStage::AwaitGenericSubmit => match outcome {
                HttpOutcome::Reply(r) => {
                    let final_url = chars_of(r.final_url.as_str());
                    let login_url = chars_of(self.login_url.as_str());
                    let marker = chars_of("login");
                    if r.status < 200 || r.status > 299 || (!same_chars(&final_url, &login_url)
                        && contains_chars(&final_url, &marker)) {
                        return LoginStep::Finished(
                            Err(LoginError::Rejected { status: r.status, url: r.final_url }),
                        );
                    }
                    let cookies = cookies_from_set_cookie_headers(
                        &r.set_cookies,
                        "example.com",
                        "session",
                        "valid",
                    );
                    proof {
                        lemma_cookie_views(
                            cookies@,
                            login_pairs(texts(r.set_cookies@), ("session"@, "valid"@)),
                            "example.com"@,
                        );
                    }
                    LoginStep::Finished(Ok(cookies))
                },
                _ => LoginStep::Finished(Err(LoginError::GenericSubmitFailed)),
            },
        }
    }
}

// ------------------------------------------------------------------------
// Laws
// ------------------------------------------------------------------------

/// How many more replies a login at `stage` can wait for.
pub open spec fn replies_left(stage: LoginStage) -> nat {
    match stage {
        LoginStage::AwaitLoginPage => 4,
        LoginStage::AwaitRealPage => 3,
        LoginStage::AwaitSubmit => 2,
        LoginStage::AwaitVerify => 1,
        LoginStage::AwaitGenericSubmit => 1,
    }
}

/// The domain the cookies of a login at `stage` are given.
pub open spec fn stage_domain(stage: LoginStage) -> Seq<char> {
    if stage == LoginStage::AwaitGenericSubmit {
        "example.com"@
    } else {
        "163.com"@
    }
}

/// Every login ends: each step that asks for another request leaves fewer
/// replies to wait for, a login starts with at most four, and the account,
/// login URL and target carry over unchanged.
pub proof fn lemma_login_terminates(f: FlowView, o: OutcomeView)
    ensures
        next_step(f, o) matches StepView::Send(g, _) ==> {
            &&& replies_left(g.stage) < replies_left(f.stage)
            &&& g.username == f.username
            &&& g.password == f.password
            &&& g.login_url == f.login_url
            &&& g.target_url == f.target_url
        },
        replies_left(f.stage) <= 4,
{
}

/// A finished login that succeeds gives at least one cookie, and every
/// cookie it gives is for the site's domain, under path `/`, valid for one
/// day.
pub proof fn lemma_login_cookies(f: FlowView, o: OutcomeView)
    ensures
        next_step(f, o) matches StepView::Finished(Ok(cs)) ==> {
            &&& cs.len() >= 1
            &&& forall|k: int|
                0 <= k < cs.len() ==> {
                    &&& (#[trigger] cs[k]).domain == stage_domain(f.stage)
                    &&& cs[k].path == seq!['/']
                    &&& cs[k].valid_for_secs == LOGIN_COOKIE_SECS
                }
        },
{
}

/// The NetEase login succeeds only on a reply of status 200 for the target
/// page whose URL does not contain `login`.
pub proof fn lemma_netease_success_needs_target(f: FlowView, o: OutcomeView)
    requires
        f.stage != LoginStage::AwaitGenericSubmit,
        next_step(f, o) matches StepView::Finished(Ok(_)),
    ensures
        f.stage == LoginStage::AwaitVerify,
        o matches OutcomeView::Reply(r) && r.status == 200 && !contains_seq(r.final_url, "login"@),
{
}

/// A login to any other site succeeds only when its form is answered with
/// a 2xx status from the login URL itself or from a URL without `login`; a
/// form answered with any other status, or redirected to another URL that
/// contains `login` (back to a login page: wrong account or password),
/// fails with that status and the URL that answered.
pub proof fn lemma_generic_login_needs_acceptance(f: FlowView, o: OutcomeView)
    requires
        f.stage == LoginStage::AwaitGenericSubmit,
    ensures
        next_step(f, o) matches StepView::Finished(Ok(_)) ==> (o matches OutcomeView::Reply(r)
            && 200 <= r.status <= 299 && (r.final_url == f.login_url || forall|k: int|
            0 <= k && k + 5 <= r.final_url.len() ==> #[trigger] r.final_url.subrange(k, k + 5)
                != "login"@)),
        match o {
            OutcomeView::Reply(r) => r.status < 200 || r.status > 299 || (r.final_url
                != f.login_url && exists|k: int|
                0 <= k && k + 5 <= r.final_url.len() && #[trigger] r.final_url.subrange(k, k + 5)
                    == "login"@) ==> next_step(f, o) == StepView::Finished(
                Err::<Seq<CookieView>, ErrorView>(
                    ErrorView::Rejected { status: r.status, url: r.final_url },
                ),
            ),
            _ => true,
        },
{
    reveal_strlit("login");
    let pat = "login"@;
    if let OutcomeView::Reply(r) = o {
        if exists|k: int|
            0 <= k && k + 5 <= r.final_url.len() && #[trigger] r.final_url.subrange(k, k + 5)
                == "login"@ {
            let k = choose|k: int|
                0 <= k && k + 5 <= r.final_url.len() && #[trigger] r.final_url.subrange(k, k + 5)
                    == "login"@;
            assert(occurs_at(r.final_url, k, pat, false)) by {
                assert forall|m: int| 0 <= m < pat.len() implies #[trigger] r.final_url[k + m]
                    == pat[m] by {
                    assert(r.final_url.subrange(k, k + 5)[m] == r.final_url[k + m]);
                }
            }
            lemma_first_exists(r.final_url, pat, 0, false, k);
        }
        if contains_seq(r.final_url, pat) {
            lemma_first_some(r.final_url, pat, 0, false);
            let k = first_occurrence(r.final_url, pat, 0, false)->0;
            assert(r.final_url.subrange(k, k + 5) =~= pat) by {
                assert forall|m: int| 0 <= m < 5 implies #[trigger] r.final_url.subrange(k, k + 5)[m]
                    == pat[m] by {
                    assert(r.final_url.subrange(k, k + 5)[m] == r.final_url[k + m]);
                }
            }
        }
    }
}

/// The account is only ever sent in a login form, as its first two fields,
/// username then password; in the NetEase form they go with the crawl
/// target as the `url` field.
pub proof fn lemma_credentials_in_form(f: FlowView, o: OutcomeView)
    ensures
        next_step(f, o) matches StepView::Send(_, RequestView::PostForm { fields, .. }) ==> {
            &&& fields.len() == 7
            &&& fields[0] == ("username"@, f.username)
            &&& fields[1] == ("password"@, f.password)
            &&& fields[6] == ("url"@, f.target_url)
        },
        forall|url: Seq<char>, u: Seq<char>, p: Seq<char>, t: Seq<char>|
            #[trigger] start_step(url, u, p, t) matches StepView::Send(
                _,
                RequestView::PostForm { fields, .. },
            ) ==> fields == seq![("username"@, u), ("password"@, p)],
{
}

/// A login URL that holds `163.com` anywhere (here at `k`) starts the
/// NetEase procedure: a GET of the login URL itself, with the NetEase mail
/// page as referrer and without reading the body, waiting for the login
/// page, with the account and target carried along.
pub proof fn lemma_netease_url_starts_netease(
    url: Seq<char>,
    username: Seq<char>,
    password: Seq<char>,
    target: Seq<char>,
    k: int,
)
    requires
        url.len() > 0,
        username.len() > 0,
        password.len() > 0,
        0 <= k,
        k + 7 <= url.len(),
        url.subrange(k, k + 7) == "163.com"@,
    ensures
        start_step(url, username, password, target) == StepView::Send(
            FlowView {
                stage: LoginStage::AwaitLoginPage,
                login_url: url,
                username,
                password,
                target_url: target,
            },
            RequestView::Get { url, referer: Some("https://mail.163.com/"@), read_body: false },
        ),
{
    reveal_strlit("163.com");
    let pat = "163.com"@;
    assert(occurs_at(url, k, pat, false)) by {
        assert forall|m: int| 0 <= m < pat.len() implies #[trigger] url[k + m] == pat[m] by {
            assert(url.subrange(k, k + 7)[m] == url[k + m]);
        }
    }
    lemma_first_exists(url, pat, 0, false, k);
}

/// A login URL in which `163.com` occurs nowhere gets the generic
/// procedure: one POST of the account, as `username` and `password`, to
/// the login URL.
pub proof fn lemma_other_url_posts_form(
    url: Seq<char>,
    username: Seq<char>,
    password: Seq<char>,
    target: Seq<char>,
)
    requires
        url.len() > 0,
        username.len() > 0,
        password.len() > 0,
        forall|k: int| 0 <= k && k + 7 <= url.len() ==> #[trigger] url.subrange(k, k + 7) != "163.com"@,
    ensures
        start_step(url, username, password, target) == StepView::Send(
            FlowView {
                stage: LoginStage::AwaitGenericSubmit,
                login_url: url,
                username,
                password,
                target_url: target,
            },
            RequestView::PostForm {
                url,
                fields: seq![("username"@, username), ("password"@, password)],
            },
        ),
{
    reveal_strlit("163.com");
    let pat = "163.com"@;
    if contains_seq(url, pat) {
        lemma_first_some(url, pat, 0, false);
        let k = first_occurrence(url, pat, 0, false)->0;
        assert(url.subrange(k, k + 7) =~= pat) by {
            assert forall|m: int| 0 <= m < 7 implies #[trigger] url.subrange(k, k + 7)[m] == pat[m] by {
                assert(url.subrange(k, k + 7)[m] == url[k + m]);
            }
        }
    }
}

/// A NetEase login whose target page answers 200 from a URL without
/// `login` succeeds with one cookie for every `Set-Cookie` value of that
/// reply that parses as a cookie, in order, each for `163.com`, path `/`,
/// one day; only when none parses does it keep the `JSESSIONID=163_valid`
/// cookie alone.
pub proof fn lemma_netease_keeps_every_cookie(f: FlowView, r: ReplyView)
    requires
        f.stage == LoginStage::AwaitVerify,
        r.status == 200,
        forall|k: int|
            0 <= k && k + 5 <= r.final_url.len() ==> #[trigger] r.final_url.subrange(k, k + 5)
                != "login"@,
    ensures
        next_step(f, OutcomeView::Reply(r)) matches StepView::Finished(Ok(cs)) && {
            let ps = set_cookie_pairs(r.set_cookies);
            &&& ps.len() > 0 ==> cs.len() == ps.len()
            &&& ps.len() == 0 ==> cs.len() == 1 && cs[0].name == "JSESSIONID"@ && cs[0].value
                == "163_valid"@
            &&& forall|k: int|
                0 <= k < cs.len() ==> {
                    &&& ps.len() > 0 ==> (#[trigger] cs[k]).name == ps[k].0 && cs[k].value
                        == ps[k].1
                    &&& cs[k].domain == "163.com"@
                    &&& cs[k].path == seq!['/']
                    &&& cs[k].valid_for_secs == 86400
                }
        },
{
    reveal_strlit("login");
    let pat = "login"@;
    if contains_seq(r.final_url, pat) {
        lemma_first_some(r.final_url, pat, 0, false);
        let k = first_occurrence(r.final_url, pat, 0, false)->0;
        assert(r.final_url.subrange(k, k + 5) =~= pat) by {
            assert forall|m: int| 0 <= m < 5 implies #[trigger] r.final_url.subrange(k, k + 5)[m]
                == pat[m] by {
                assert(r.final_url.subrange(k, k + 5)[m] == r.final_url[k + m]);
            }
        }
    }
}

/// A generic login whose form is accepted succeeds with one cookie for
/// every `Set-Cookie` value of the reply that parses as a cookie, in order,
/// each for `example.com`, path `/`, one day; only when none parses does it
/// keep the `session=valid` cookie alone.
pub proof fn lemma_generic_keeps_every_cookie(f: FlowView, r: ReplyView)
    requires
        f.stage == LoginStage::AwaitGenericSubmit,
        200 <= r.status <= 299,
        r.final_url == f.login_url || forall|k: int|
            0 <= k && k + 5 <= r.final_url.len() ==> #[trigger] r.final_url.subrange(k, k + 5)
                != "login"@,
    ensures
        next_step(f, OutcomeView::Reply(r)) matches StepView::Finished(Ok(cs)) && {
            let ps = set_cookie_pairs(r.set_cookies);
            &&& ps.len() > 0 ==> cs.len() == ps.len()
            &&& ps.len() == 0 ==> cs.len() == 1 && cs[0].name == "session"@ && cs[0].value
                == "valid"@
            &&& forall|k: int|
                0 <= k < cs.len() ==> {
                    &&& ps.len() > 0 ==> (#[trigger] cs[k]).name == ps[k].0 && cs[k].value
                        == ps[k].1
                    &&& cs[k].domain == "example.com"@
                    &&& cs[k].path == seq!['/']
                    &&& cs[k].valid_for_secs == 86400
                }
        },
{
    reveal_strlit("login");
    let pat = "login"@;
    if r.final_url != f.login_url && contains_seq(r.final_url, pat) {
        lemma_first_some(r.final_url, pat, 0, false);
        let k = first_occurrence(r.final_url, pat, 0, false)->0;
        assert(r.final_url.subrange(k, k + 5) =~= pat) by {
            assert forall|m: int| 0 <= m < 5 implies #[trigger] r.final_url.subrange(k, k + 5)[m]
                == pat[m] by {
                assert(r.final_url.subrange(k, k + 5)[m] == r.final_url[k + m]);
            }
        }
    }
}

/// The NetEase login page: a 301 or 302 reply leads to the page its
/// `Location` names (an error when that header is missing or unreadable),
/// any other reply to the login URL itself; that page is then fetched,
/// body read, without referrer.  A login page that cannot be fetched ends
/// the login.
pub proof fn lemma_netease_login_page(f: FlowView, o: OutcomeView)
    requires
        f.stage == LoginStage::AwaitLoginPage,
    ensures
        ({
            let g = FlowView { stage: LoginStage::AwaitRealPage, ..f };
            match o {
                OutcomeView::Reply(r) => if r.status == 301 || r.status == 302 {
                    match r.location {
                        HeaderView::Text(u) => next_step(f, o) == StepView::Send(
                            g,
                            RequestView::Get { url: u, referer: None, read_body: true },
                        ),
                        HeaderView::Absent => next_step(f, o) == StepView::Finished(
                            Err::<Seq<CookieView>, ErrorView>(ErrorView::MissingRedirect),
                        ),
                        HeaderView::Unreadable => next_step(f, o) == StepView::Finished(
                            Err::<Seq<CookieView>, ErrorView>(ErrorView::UnreadableRedirect),
                        ),
                    }
                } else {
                    next_step(f, o) == StepView::Send(
                        g,
                        RequestView::Get { url: f.login_url, referer: None, read_body: true },
                    )
                },
                _ => next_step(f, o) == StepView::Finished(
                    Err::<Seq<CookieView>, ErrorView>(ErrorView::LoginPageUnreachable),
                ),
            }
        }),
{
}

/// The NetEase login form is posted to the page's `action:"…"` value (the
/// login URL when the page has none) with, in this order, the username,
/// the password, the page's `appkey:"…"` value (else `mail163`), its
/// `csrfToken:"…"` value (else `default`), `type` `1`, `product` `mail163`
/// and the crawl target as `url`.  A page that cannot be fetched or read
/// ends the login.
pub proof fn lemma_netease_form_sent(f: FlowView, o: OutcomeView)
    requires
        f.stage == LoginStage::AwaitRealPage,
    ensures
        match o {
            OutcomeView::Reply(r) => {
                let value = (|prefix: Seq<char>, default: Seq<char>|
                    match field_from(r.body, prefix, 0) {
                        Some(v) => v,
                        None => default,
                    });
                next_step(f, o) == StepView::Send(
                    FlowView { stage: LoginStage::AwaitSubmit, ..f },
                    RequestView::PostForm {
                        url: value("action:\""@, f.login_url),
                        fields: seq![
                            ("username"@, f.username),
                            ("password"@, f.password),
                            ("appkey"@, value("appkey:\""@, "mail163"@)),
                            ("csrfToken"@, value("csrfToken:\""@, "default"@)),
                            ("type"@, "1"@),
                            ("product"@, "mail163"@),
                            ("url"@, f.target_url),
                        ],
                    },
                )
            },
            OutcomeView::SendFailed => next_step(f, o) == StepView::Finished(
                Err::<Seq<CookieView>, ErrorView>(ErrorView::RealPageUnreachable),
            ),
            OutcomeView::BodyFailed => next_step(f, o) == StepView::Finished(
                Err::<Seq<CookieView>, ErrorView>(ErrorView::RealPageUnreadable),
            ),
        },
{
}

/// Once the NetEase form is answered, whatever the answer, the crawl target
/// is fetched (no referrer, body not read) to check the login; a form that
/// cannot be sent ends the login.
pub proof fn lemma_netease_checks_target(f: FlowView, o: OutcomeView)
    requires
        f.stage == LoginStage::AwaitSubmit,
    ensures
        match o {
            OutcomeView::Reply(_) => next_step(f, o) == StepView::Send(
                FlowView { stage: LoginStage::AwaitVerify, ..f },
                RequestView::Get { url: f.target_url, referer: None, read_body: false },
            ),
            _ => next_step(f, o) == StepView::Finished(
                Err::<Seq<CookieView>, ErrorView>(ErrorView::SubmitFailed),
            ),
        },
{
}

/// The NetEase login is refused when the target page answers with a status
/// other than 200 or from a URL that contains `login` (wrong account or
/// password), with that status and URL; a target page that cannot be
/// fetched ends the login too.
pub proof fn lemma_netease_refused(f: FlowView, o: OutcomeView)
    requires
        f.stage == LoginStage::AwaitVerify,
    ensures
        match o {
            OutcomeView::Reply(r) => r.status != 200 || (exists|k: int|
                0 <= k && k + 5 <= r.final_url.len() && #[trigger] r.final_url.subrange(k, k + 5)
                    == "login"@) ==> next_step(f, o) == StepView::Finished(
                Err::<Seq<CookieView>, ErrorView>(
                    ErrorView::Rejected { status: r.status, url: r.final_url },
                ),
            ),
            _ => next_step(f, o) == StepView::Finished(
                Err::<Seq<CookieView>, ErrorView>(ErrorView::VerifyUnreachable),
            ),
        },
{
    reveal_strlit("login");
    if let OutcomeView::Reply(r) = o {
        if r.status == 200 && exists|k: int|
            0 <= k && k + 5 <= r.final_url.len() && #[trigger] r.final_url.subrange(k, k + 5)
                == "login"@ {
            let k = choose|k: int|
                0 <= k && k + 5 <= r.final_url.len() && #[trigger] r.final_url.subrange(k, k + 5)
                    == "login"@;
            let pat = "login"@;
            assert(occurs_at(r.final_url, k, pat, false)) by {
                assert forall|m: int| 0 <= m < pat.len() implies #[trigger] r.final_url[k + m]
                    == pat[m] by {
                    assert(r.final_url.subrange(k, k + 5)[m] == r.final_url[k + m]);
                }
            }
            lemma_first_exists(r.final_url, pat, 0, false, k);
        }
    }
}

/// A generic login whose form cannot be sent ends with that error.
pub proof fn lemma_generic_unsent(f: FlowView, o: OutcomeView)
    requires
        f.stage == LoginStage::AwaitGenericSubmit,
        !(o is Reply),
    ensures
        next_step(f, o) == StepView::Finished(
            Err::<Seq<CookieView>, ErrorView>(ErrorView::GenericSubmitFailed),
        ),
{
}

/// A login without a login URL, or without a username or password, ends
/// at once: the missing URL is reported first.
pub proof fn lemma_login_needs_settings(
    url: Seq<char>,
    username: Seq<char>,
    password: Seq<char>,
    target: Seq<char>,
)
    ensures
        url.len() == 0 ==> start_step(url, username, password, target) == StepView::Finished(
            Err::<Seq<CookieView>, ErrorView>(ErrorView::EmptyLoginUrl),
        ),
        url.len() > 0 && (username.len() == 0 || password.len() == 0) ==> start_step(
            url,
            username,
            password,
            target,
        ) == StepView::Finished(Err::<Seq<CookieView>, ErrorView>(ErrorView::EmptyCredentials)),
{
}

} // verus!
