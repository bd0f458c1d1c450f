use titanium_session::strutil::u64_to_string;
use titanium_session::urls::get_base_url;
use titanium_session::urls::url_to_load;
use titanium_session::window::App;
use titanium_session::window::RendererCommand;
use titanium_session::window::Settings;
use titanium_session::privacy::Privacy;

#[test]
fn base_url_strips_all_subdomains() {
    assert_eq!(get_base_url("http://www.sub.example.com/page?q=1"), "example.com");
}

#[test]
fn base_url_keeps_a_plain_domain() {
    assert_eq!(get_base_url("http://example.com/index.html"), "example.com");
}

#[test]
fn base_url_of_single_label_host_is_that_label() {
    assert_eq!(get_base_url("http://localhost:8080/x"), "localhost");
}

#[test]
fn base_url_is_empty_without_a_host() {
    assert_eq!(get_base_url("data:text/plain,hello"), "");
}

#[test]
fn base_url_is_empty_for_unparseable_input() {
    assert_eq!(get_base_url("not a url at all"), "");
}

#[test]
fn well_formed_url_loads_unchanged() {
    assert_eq!(url_to_load("https://example.com/a"), "https://example.com/a");
}

#[test]
fn bare_words_get_an_http_scheme() {
    assert_eq!(url_to_load("example.com"), "http://example.com");
}

#[test]
fn counters_render_in_decimal() {
    assert_eq!(u64_to_string(0), "0");
    assert_eq!(u64_to_string(7), "7");
    assert_eq!(u64_to_string(12345), "12345");
    assert_eq!(u64_to_string(1000), "1000");
}

fn window() -> App {
    App::new(
        Some("http://example.com".to_string()),
        Privacy::Normal,
        Settings { hint_chars: "hjkl".to_string() },
    )
}

#[test]
fn download_link_asks_the_renderer_to_download() {
    match window().download_link("http://example.com/file.bin") {
        RendererCommand::DownloadUri(url) => assert_eq!(url, "http://example.com/file.bin"),
        _ => panic!("expected a download command"),
    }
}

#[test]
fn hide_hints_hides_then_returns_to_normal_mode() {
    let commands = window().hide_hints();
    assert_eq!(commands.len(), 2);
    assert!(matches!(commands[0], RendererCommand::HideHints));
    match &commands[1] {
        RendererCommand::SetMode(mode) => assert_eq!(mode, "normal"),
        _ => panic!("expected a mode switch"),
    }
}

#[test]
fn hint_chars_come_from_the_settings() {
    assert_eq!(window().hint_chars(), "hjkl");
}
