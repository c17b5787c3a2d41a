//! Windows of the compositor and their tags.
use workspaced::hypr::{parse_app_tag, parse_ws_tag, ws_tag, Client, WsRef};

fn test_client(addr: &str, class: &str, title: &str, desktop: &str, tags: &[&str]) -> Client {
    Client {
        address: addr.to_string(),
        class: class.to_string(),
        title: title.to_string(),
        workspace: WsRef { id: 1, name: desktop.to_string() },
        pid: 0,
        tags: tags.iter().map(|t| t.to_string()).collect(),
        at: (0, 0),
        size: (10, 10),
        floating: true,
        mapped: true,
        fullscreen: 0,
        stable_id: String::new(),
    }
}

#[test]
fn app_tag_forms() {
    assert_eq!(parse_app_tag("app:chromium#2"), Some(("chromium".to_string(), Some(2))));
    assert_eq!(parse_app_tag("app:neovide"), Some(("neovide".to_string(), None)));
    assert_eq!(parse_app_tag("app:neovide#1*"), Some(("neovide".to_string(), Some(1))));
    assert_eq!(parse_app_tag("pin:1"), None);
    assert_eq!(parse_app_tag("app:"), None);
    assert_eq!(parse_app_tag("app:x#y"), Some(("x#y".to_string(), None)));

    let c = test_client("0x1", "chromium", "Новости", "1", &["app:chromium#3"]);
    assert_eq!(c.app_instance(), Some(("chromium".to_string(), 3)));
    assert_eq!(c.app().as_deref(), Some("chromium"));
    assert_eq!(c.app_tags(), vec!["app:chromium#3"]);
    let old = test_client("0x2", "neovide", "[Scratch]", "1", &["app:neovide"]);
    assert_eq!(old.app_instance(), Some(("neovide".to_string(), 1)));
}

#[test]
fn ws_tag_forms() {
    assert_eq!(parse_ws_tag("ws:work"), Some("work".to_string()));
    assert_eq!(parse_ws_tag("ws:surf*"), Some("surf".to_string()));
    assert_eq!(parse_ws_tag("ws:"), None);
    assert_eq!(parse_ws_tag("app:chromium#1"), None);
    assert_eq!(ws_tag("work"), "ws:work");

    let c = test_client("0x1", "google-chrome-ai", "ИИ", "2", &["app:chrome-ai#1", "ws:work*", "ws:surf"]);
    assert_eq!(c.workspaces(), vec!["surf".to_string(), "work".to_string()]);
    assert!(c.in_ws("work") && c.in_ws("surf") && !c.in_ws("chat"));
    assert!(c.has_ws());
    assert_eq!(c.app_instance(), Some(("chrome-ai".to_string(), 1)));
    let free = test_client("0x2", "chromium", "Новости", "4", &["app:chromium#2"]);
    assert!(free.workspaces().is_empty() && !free.has_ws());
}
