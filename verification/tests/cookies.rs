use spider_enterprise_crawler::cookies::{
    cookie_header, cookies_from_set_cookie_headers, cookies_from_stored, is_live_ttl, is_pong,
    SessionCookie, LOGIN_COOKIE_SECS, STORED_COOKIE_SECS,
};

fn cookie(name: &str, value: &str) -> SessionCookie {
    SessionCookie {
        name: name.to_string(),
        value: value.to_string(),
        domain: "example.com".to_string(),
        path: "/".to_string(),
        valid_for_secs: STORED_COOKIE_SECS,
    }
}

#[test]
fn header_joins_name_value_pairs() {
    let cs = vec![cookie("a", "1"), cookie("b", "x=y")];
    assert_eq!(cookie_header(&cs), "a=1; b=x=y");
    assert_eq!(cookie_header(&Vec::new()), "");
}

#[test]
fn stored_text_reads_back_as_stored() {
    let cs = vec![cookie("sid", "abc"), cookie("t", "v=w;x"), cookie("", "")];
    let text = cookie_header(&cs);
    let back = cookies_from_stored(&text);
    assert_eq!(back.len(), 3);
    for (a, b) in cs.iter().zip(back.iter()) {
        assert_eq!(a.name, b.name);
        assert_eq!(a.value, b.value);
        assert_eq!(b.domain, "example.com");
        assert_eq!(b.path, "/");
        assert_eq!(b.valid_for_secs, 3600);
    }
}

#[test]
fn stored_pieces_without_equals_are_skipped() {
    let back = cookies_from_stored("a=1; junk; b=2");
    let names: Vec<&str> = back.iter().map(|c| c.name.as_str()).collect();
    assert_eq!(names, vec!["a", "b"]);
    assert!(cookies_from_stored("").is_empty());
}

#[test]
fn set_cookie_headers_give_cookies() {
    let headers = vec![
        " SID = abc ; Path=/x; HttpOnly".to_string(),
        "no pair here".to_string(),
        "=novalue".to_string(),
        "k=v=w".to_string(),
    ];
    let cs = cookies_from_set_cookie_headers(&headers, "163.com", "JSESSIONID", "163_valid");
    let pairs: Vec<(&str, &str)> = cs.iter().map(|c| (c.name.as_str(), c.value.as_str())).collect();
    assert_eq!(pairs, vec![("SID", "abc"), ("k", "v=w")]);
    for c in &cs {
        assert_eq!(c.domain, "163.com");
        assert_eq!(c.path, "/");
        assert_eq!(c.valid_for_secs, LOGIN_COOKIE_SECS);
    }
}

#[test]
fn no_usable_set_cookie_gives_fallback() {
    let headers = vec!["garbage".to_string()];
    let cs = cookies_from_set_cookie_headers(&headers, "example.com", "session", "valid");
    assert_eq!(cs.len(), 1);
    assert_eq!(cs[0].name, "session");
    assert_eq!(cs[0].value, "valid");
    assert_eq!(cs[0].valid_for_secs, 86400);
}

#[test]
fn ttl_and_ping_answers() {
    assert!(is_live_ttl(10));
    assert!(!is_live_ttl(0));
    assert!(!is_live_ttl(-1));
    assert!(!is_live_ttl(-2));
    assert!(is_pong("PONG"));
    assert!(!is_pong("pong"));
    assert!(!is_pong("PONG "));
}
