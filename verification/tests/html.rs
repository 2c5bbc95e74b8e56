use spider_enterprise_crawler::html::{get_title_from_html, quoted_field, structured_title};

#[test]
fn title_is_trimmed() {
    assert_eq!(get_title_from_html("<html><title>  Hello World \n</title></html>"), "Hello World");
}

#[test]
fn title_ignores_ascii_case() {
    assert_eq!(get_title_from_html("<TITLE>Mail</TiTlE>"), "Mail");
}

#[test]
fn title_spans_lines_and_stops_at_first_close() {
    assert_eq!(get_title_from_html("<title>a\nb</title>c</title>"), "a\nb");
}

#[test]
fn missing_title_gives_default() {
    assert_eq!(get_title_from_html("<html><body>no title</body></html>"), "无标题");
    assert_eq!(get_title_from_html("<title>never closed"), "无标题");
}

#[test]
fn empty_title_is_empty() {
    assert_eq!(get_title_from_html("<title> \t </title>"), "");
}

#[test]
fn title_uses_first_open_tag() {
    assert_eq!(get_title_from_html("<title>one<title>two</title>"), "one<title>two");
}

#[test]
fn structured_title_reads_between_tags() {
    assert_eq!(structured_title("<head><title> Page </title></head>"), "Page");
}

#[test]
fn structured_title_is_case_sensitive_and_defaults() {
    assert_eq!(structured_title("<TITLE>X</TITLE>"), "unknown");
}

#[test]
fn structured_title_stops_at_next_open_tag() {
    assert_eq!(structured_title("<title>one<title>two</title>"), "one");
}

#[test]
fn structured_title_without_close_takes_rest() {
    assert_eq!(structured_title("<title> rest of page "), "rest of page");
}

#[test]
fn quoted_field_takes_leftmost_nonempty_match() {
    let html: Vec<char> = r#"x appkey:"" y appkey:"abc" appkey:"zzz""#.chars().collect();
    let prefix: Vec<char> = "appkey:\"".chars().collect();
    let v: String = quoted_field(&html, &prefix).unwrap().into_iter().collect();
    assert_eq!(v, "abc");
}

#[test]
fn quoted_field_needs_closing_quote() {
    let html: Vec<char> = r#"csrfToken:"open"#.chars().collect();
    let prefix: Vec<char> = "csrfToken:\"".chars().collect();
    assert!(quoted_field(&html, &prefix).is_none());
}
