use titanium_session::privacy::ContextManager;
use titanium_session::privacy::Privacy;
use titanium_session::session::fatal_message;
use titanium_session::session::startup_messages;
use titanium_session::session::Effect;
use titanium_session::session::MessageServer;
use titanium_session::session::Msg;

fn contexts() -> ContextManager {
    ContextManager::new(1, 2)
}

fn persisted(effects: &[Effect]) -> Vec<String> {
    let mut contents = Vec::new();
    for effect in effects {
        if let Effect::Persist(content) = effect {
            contents.push(content.clone());
        }
    }
    contents
}

#[test]
fn context_manager_hands_out_matching_context() {
    let manager = contexts();
    assert_eq!(manager.select(Privacy::Normal), 1);
    assert_eq!(manager.select(Privacy::Private), 2);
}

#[test]
fn window_count_tracks_requests_minus_closes() {
    let mut server = MessageServer::new("", contexts());
    assert_eq!(server.open_window_count(), 0);
    server.update(Msg::NewApp(Some("http://a".to_string()), Privacy::Normal));
    assert_eq!(server.open_window_count(), 1);
    server.update(Msg::NewApp(Some("http://b".to_string()), Privacy::Normal));
    assert_eq!(server.open_window_count(), 2);
    server.update(Msg::RemoveApp("http://a".to_string()));
    assert_eq!(server.open_window_count(), 1);
    server.update(Msg::RemoveApp("http://b".to_string()));
    assert_eq!(server.open_window_count(), 0);
}

#[test]
fn closing_last_window_persists_empty_log() {
    let mut server = MessageServer::new("", contexts());
    server.update(Msg::NewApp(Some("http://a".to_string()), Privacy::Normal));
    server.update(Msg::NewApp(Some("http://b".to_string()), Privacy::Normal));
    server.update(Msg::RemoveApp("http://a".to_string()));
    let effects = server.update(Msg::RemoveApp("http://b".to_string()));
    let contents = persisted(&effects);
    assert_eq!(contents.last().unwrap(), "");
    assert_eq!(server.opened_urls(), Vec::<String>::new());
}

#[test]
fn private_window_never_reaches_the_log() {
    let mut server = MessageServer::new("", contexts());
    let normal = server.update(Msg::NewApp(Some("http://a".to_string()), Privacy::Normal));
    assert_eq!(persisted(&normal), vec!["http://a\n".to_string()]);
    let private = server.update(Msg::NewApp(Some("http://b".to_string()), Privacy::Private));
    assert_eq!(persisted(&private), Vec::<String>::new());
    assert_eq!(server.opened_urls(), vec!["http://a".to_string()]);
    match &private[0] {
        Effect::CreateWindow { url, privacy, context, seed } => {
            assert_eq!(url.as_deref(), Some("http://b"));
            assert!(matches!(privacy, Privacy::Private));
            assert_eq!(*context, 2);
            assert_eq!(seed, &Vec::<String>::new());
        }
        _ => panic!("expected a window"),
    }
}

#[test]
fn startup_with_urls_requests_windows_in_order_then_releases() {
    let launch = vec!["http://a".to_string(), "http://b".to_string()];
    let msgs = startup_messages(&launch);
    assert_eq!(msgs.len(), 3);
    let mut server = MessageServer::new("", contexts());
    let mut windows = Vec::new();
    let mut releases = 0;
    let mut last_log = String::new();
    for msg in msgs {
        for effect in server.update(msg) {
            match effect {
                Effect::CreateWindow { url, privacy, .. } => {
                    assert!(matches!(privacy, Privacy::Normal));
                    windows.push(url.unwrap());
                }
                Effect::Persist(content) => last_log = content,
                Effect::Release => releases += 1,
            }
        }
    }
    assert_eq!(windows, launch);
    assert_eq!(last_log, "http://a\nhttp://b\n");
    assert_eq!(releases, 1);
    assert_eq!(server.open_window_count(), 2);
    assert!(!server.is_holding());
    assert_eq!(server.opened_urls(), launch);
}

#[test]
fn startup_without_urls_requests_one_blank_window() {
    let msgs = startup_messages(&Vec::new());
    assert_eq!(msgs.len(), 2);
    assert!(matches!(&msgs[0], Msg::NewApp(None, Privacy::Normal)));
    assert!(matches!(&msgs[1], Msg::ReleaseApp));
}

#[test]
fn navigation_replaces_the_old_url() {
    let mut server = MessageServer::new("", contexts());
    server.update(Msg::NewApp(Some("http://a".to_string()), Privacy::Normal));
    let effects = server.update(Msg::ChangeOpenedPage(
        "http://a".to_string(),
        "http://c".to_string(),
    ));
    assert_eq!(persisted(&effects), vec!["http://c\n".to_string()]);
    assert_eq!(server.opened_urls(), vec!["http://c".to_string()]);
    assert_eq!(server.save_urls(), "http://c\n");
}

#[test]
fn repeating_a_navigation_is_a_no_op_beyond_the_persist() {
    let mut server = MessageServer::new("", contexts());
    server.update(Msg::NewApp(Some("http://a".to_string()), Privacy::Normal));
    server.update(Msg::ChangeOpenedPage("http://a".to_string(), "http://c".to_string()));
    let again = server.update(Msg::ChangeOpenedPage(
        "http://a".to_string(),
        "http://c".to_string(),
    ));
    assert_eq!(persisted(&again), vec!["http://c\n".to_string()]);
    assert_eq!(server.opened_urls(), vec!["http://c".to_string()]);
}

#[test]
fn previous_session_urls_seed_normal_windows_only() {
    let mut server = MessageServer::new("http://x\nhttp://y\n", contexts());
    let seed_urls = vec!["http://x".to_string(), "http://y".to_string()];
    assert_eq!(server.previous_opened_urls(), seed_urls);
    assert_eq!(server.opened_urls(), Vec::<String>::new());
    let normal = server.update(Msg::NewApp(None, Privacy::Normal));
    match &normal[0] {
        Effect::CreateWindow { seed, .. } => assert_eq!(seed, &seed_urls),
        _ => panic!("expected a window"),
    }
    let private = server.update(Msg::NewApp(None, Privacy::Private));
    match &private[0] {
        Effect::CreateWindow { seed, .. } => assert_eq!(seed, &Vec::<String>::new()),
        _ => panic!("expected a window"),
    }
}

#[test]
fn opening_the_same_url_twice_keeps_one_entry() {
    let mut server = MessageServer::new("", contexts());
    server.update(Msg::NewApp(Some("http://a".to_string()), Privacy::Normal));
    server.update(Msg::NewApp(Some("http://a".to_string()), Privacy::Normal));
    assert_eq!(server.opened_urls(), vec!["http://a".to_string()]);
    assert_eq!(server.open_window_count(), 2);
}

#[test]
fn fatal_message_carries_the_fixed_prefix() {
    assert_eq!(
        fatal_message("cannot create the configuration directory"),
        "Fatal error: cannot create the configuration directory"
    );
}
