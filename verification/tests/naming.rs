use spider_enterprise_crawler::naming::{object_name, page_file_name};

#[test]
fn page_file_name_percent_encodes() {
    assert_eq!(page_file_name("https://a.b/c?d=e"), "https%3A%2F%2Fa.b%2Fc%3Fd%3De.html");
}

#[test]
fn page_file_name_encodes_utf8_bytes() {
    assert_eq!(page_file_name("é ~"), "%C3%A9%20~.html");
}

#[test]
fn page_file_name_is_cut_at_fifty() {
    let url = "https://example.com/".to_string() + &"x".repeat(100);
    let name = page_file_name(&url);
    assert_eq!(name.len(), 55);
    assert!(name.ends_with(".html"));
    assert!(!name.contains('/'));
    assert_eq!(&name[..50], &"https%3A%2F%2Fexample.com%2Fxxxxxxxxxxxxxxxxxxxxxxx"[..50]);
}

#[test]
fn object_name_replaces_separators() {
    assert_eq!(object_name("https://a.b/c?d"), "https___a.b_c_d.html");
    assert_eq!(object_name(""), ".html");
}
