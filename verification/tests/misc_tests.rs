use webx::config::Config;
use webx::domain::{generate, generate_api_key, validate_registration, RegistrationError};
use webx::history::History;
use webx::page_source::PageSource;
use webx::resource::{base64_decode, classify_resource, join_url, rewrite_repo_url, Route};
use webx::text::{format_usize, parse_i32, parse_int, split_char, str_eq, trim};

#[test]
fn history_walks_back_and_forward() {
    let mut h = History::new();
    assert!(h.is_empty());
    assert!(h.current().is_none());
    h.add_to_history("a.web".to_string());
    h.add_to_history("b.web".to_string());
    h.add_to_history("c.web".to_string());
    assert!(h.on_history_end());
    assert_eq!(h.current().unwrap().url, "c.web");
    assert_eq!(h.go_back().unwrap().url, "b.web");
    assert_eq!(h.go_back().unwrap().url, "a.web");
    assert!(h.on_history_start());
    assert!(h.go_back().is_none());
    assert_eq!(h.go_forward().unwrap().url, "b.web");
}

#[test]
fn navigating_from_the_middle_drops_the_branch() {
    let mut h = History::new();
    h.add_to_history("a.web".to_string());
    h.add_to_history("b.web".to_string());
    h.add_to_history("c.web".to_string());
    h.go_back();
    h.go_back();
    h.add_to_history("d.web".to_string());
    assert!(h.on_history_end());
    assert_eq!(h.current().unwrap().url, "d.web");
    assert_eq!(h.current().unwrap().position, 1);
    assert_eq!(h.go_back().unwrap().url, "a.web");
    assert_eq!(h.go_forward().unwrap().url, "d.web");
    assert!(h.go_forward().is_none());
}

#[test]
fn page_source_records_files_in_order() {
    let mut ps = PageSource::new();
    ps.add_file("index.html".to_string(), "<body></body>".to_string());
    ps.add_file("styles.css".to_string(), "p {\n}\n".to_string());
    let files = ps.get_files();
    assert_eq!(files.len(), 2);
    assert_eq!(files[0], vec!["index.html".to_string(), "<body></body>".to_string()]);
    assert_eq!(files[1][0], "styles.css");
    ps.clear();
    assert!(ps.get_files().is_empty());
}

#[test]
fn config_defaults_and_address() {
    let c = Config::new();
    assert_eq!(c.config_path, "config.toml");
    assert_eq!(c.get_address(), "127.0.0.1:8080");
    assert_eq!(c.tld_list().len(), 19);
    assert!(c.tld_list().contains(&"dev"));
    assert_eq!(c.offen_words().len(), 4);
    let mut c = c;
    c.set_path(&"elsewhere.toml".to_string());
    assert_eq!(c.config_path, "elsewhere.toml");
    assert_eq!(c.server.port, 8080);
}

#[test]
fn registration_rules_accept_and_refuse() {
    let c = Config::new();
    let tlds: Vec<String> = c.tld_list().iter().map(|s| s.to_string()).collect();
    let words: Vec<String> = c.offen_words().iter().map(|s| s.to_string()).collect();
    assert!(validate_registration("my-site", "dev", &tlds, &words).is_ok());
    assert_eq!(
        validate_registration("my_site", "dev", &tlds, &words),
        Err(RegistrationError::BadFormat),
    );
    assert_eq!(
        validate_registration("site", "com", &tlds, &words),
        Err(RegistrationError::BadFormat),
    );
    assert_eq!(
        validate_registration("averyveryverylongnamehere", "dev", &tlds, &words),
        Err(RegistrationError::BadFormat),
    );
    assert_eq!(
        validate_registration("SeXton", "dev", &tlds, &words),
        Err(RegistrationError::Offensive),
    );
}

#[test]
fn secret_keys_have_the_promised_shape() {
    let key = generate(31);
    assert_eq!(key.len(), 31);
    assert!(key.chars().all(|c| c.is_ascii_alphanumeric()));
    let api = generate_api_key(24);
    assert_eq!(api.len(), 24);
    assert!(api.chars().all(|c| c.is_ascii_alphabetic()));
}

#[test]
fn addresses_route_to_files_rewrites_or_the_network() {
    assert_eq!(
        classify_resource("file:///tmp/index.html"),
        Route::LocalFile("/tmp/index.html".to_string()),
    );
    assert_eq!(
        classify_resource("https://site.example/index.html"),
        Route::Remote("https://site.example/index.html".to_string()),
    );
    assert_eq!(
        classify_resource("https://github.com/user/repo/blob/index.html"),
        Route::Remote("https://raw.githubusercontent.com/user/repo/main/index.html".to_string()),
    );
}

#[test]
fn repo_rewrite_keeps_user_repo_and_file() {
    assert_eq!(
        rewrite_repo_url("https://github.com/face/site/blob/main/styles.css"),
        "https://raw.githubusercontent.com/face/site/main/styles.css",
    );
    assert_eq!(join_url("https://h.example", "styles.css"), "https://h.example/styles.css");
}

#[test]
fn base64_decodes_exactly_the_well_formed_payloads() {
    assert_eq!(base64_decode("aGVsbG8="), Some(b"hello".to_vec()));
    assert_eq!(base64_decode("aGk="), Some(b"hi".to_vec()));
    assert_eq!(base64_decode("aGV5"), Some(b"hey".to_vec()));
    assert_eq!(base64_decode("aA=="), Some(b"h".to_vec()));
    assert_eq!(base64_decode(""), Some(Vec::new()));
    assert_eq!(base64_decode("aGk"), None);
    assert_eq!(base64_decode("!!!!"), None);
    assert_eq!(base64_decode("aG=k"), None);
}

#[test]
fn text_helpers_behave() {
    assert_eq!(trim("  hi \t"), "hi");
    let parts = split_char("a,,b", ',');
    assert_eq!(parts, vec!["a".to_string(), String::new(), "b".to_string()]);
    assert!(str_eq("same", "same"));
    assert!(!str_eq("same", "sane"));
    assert_eq!(parse_i32("-42"), Some(-42));
    assert_eq!(parse_i32("2147483647"), Some(2147483647));
    assert_eq!(parse_i32("2147483648"), None);
    assert_eq!(parse_i32("-2147483648"), Some(-2147483648));
    assert_eq!(parse_i32("4x2"), None);
    assert_eq!(parse_int("a1b2c3"), Some(123));
    assert_eq!(parse_int("page 12"), Some(12));
    assert_eq!(parse_int("none"), None);
    assert_eq!(format_usize(0), "0");
    assert_eq!(format_usize(120), "120");
}
