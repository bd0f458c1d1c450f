use titanium_session::log::load_urls;
use titanium_session::log::save_urls;

#[test]
fn save_writes_one_url_per_line_with_trailing_newline() {
    let urls = vec!["http://a".to_string(), "http://b".to_string()];
    assert_eq!(save_urls(&urls), "http://a\nhttp://b\n");
}

#[test]
fn save_of_empty_set_is_empty_content() {
    let urls: Vec<String> = Vec::new();
    assert_eq!(save_urls(&urls), "");
}

#[test]
fn load_reads_back_what_save_wrote() {
    let urls = vec!["http://a".to_string(), "http://b".to_string()];
    let content = save_urls(&urls);
    assert_eq!(load_urls(&content), urls);
}

#[test]
fn round_trip_reproduces_well_formed_content() {
    let content = "http://a\nhttp://b\nhttp://c\n";
    assert_eq!(save_urls(&load_urls(content)), content);
}

#[test]
fn load_skips_empty_lines() {
    assert_eq!(
        load_urls("http://a\n\nhttp://b\n"),
        vec!["http://a".to_string(), "http://b".to_string()]
    );
}

#[test]
fn load_keeps_first_of_repeated_lines() {
    assert_eq!(
        load_urls("http://a\nhttp://b\nhttp://a\n"),
        vec!["http://a".to_string(), "http://b".to_string()]
    );
}

#[test]
fn load_accepts_missing_final_newline() {
    assert_eq!(
        load_urls("http://a\nhttp://b"),
        vec!["http://a".to_string(), "http://b".to_string()]
    );
}

#[test]
fn load_of_empty_content_is_empty() {
    assert_eq!(load_urls(""), Vec::<String>::new());
}
