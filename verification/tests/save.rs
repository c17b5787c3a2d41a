//! Saving the session and the active workspace.
use workspaced::config::{
    new_apps, put_app, Action, App, Bind, Config, Desk, Dispatch, HalfAction, Keys, MoveAction, PlaceAction, Placement, Startup,
    StickyKey, StickyState, TargetAction, Template, Workspace, WsApp,
};
use workspaced::hypr::{Client, WsRef};
use workspaced::rect::PxRect;
use workspaced::rect::{Coord, Rect};
use workspaced::save::{app_item, app_table, extra_rect, live_rect, session_plan, Adopted, AppItem};
use workspaced::state::{Foreign, Place};
use workspaced::table::Table;
use workspaced::windows::{app_windows, next_instance};

/// The monitor that shares of the screen are taken of.
const MON: (i32, i32) = (3840, 2160);

fn opt_text(t: &toml::Table, k: &str) -> Option<String> {
    t.get(k).map(|v| v.as_str().unwrap_or_else(|| panic!("{k}: not a text")).to_string())
}

fn text_list(t: &toml::Table, k: &str) -> Vec<String> {
    t.get(k).map(|v| v.as_array().unwrap().iter().map(|x| x.as_str().unwrap().to_string()).collect()).unwrap_or_default()
}

fn flag(t: &toml::Table, k: &str) -> bool {
    t.get(k).is_some_and(|v| v.as_bool().unwrap())
}

fn part(t: &toml::Table, k: &str) -> toml::Table {
    t.get(k).map(|v| v.as_table().unwrap().clone()).unwrap_or_default()
}

fn texts(t: &toml::Table, k: &str) -> Table<String> {
    let mut out = Table::new();
    for (name, v) in part(t, k) {
        out.insert(name, v.as_str().unwrap().to_string());
    }
    out
}

fn coord(v: &toml::Value, axis: i32) -> Coord {
    match v {
        toml::Value::Integer(n) => Coord::Px(*n as i32),
        toml::Value::Float(f) => Coord::Px(f.round() as i32),
        toml::Value::String(s) => {
            let p: f64 = s.trim().strip_suffix('%').unwrap().trim().parse().unwrap();
            Coord::Percent { bits: p.to_bits(), px: (axis as f64 * p / 100.0).round() as i32 }
        }
        other => panic!("not a coordinate: {other}"),
    }
}

fn rect(v: &toml::Value) -> Rect {
    let t = v.as_table().unwrap();
    Rect { x: coord(&t["x"], MON.0), y: coord(&t["y"], MON.1), w: coord(&t["w"], MON.0), h: coord(&t["h"], MON.1) }
}

fn placement(v: &toml::Value) -> WsApp {
    match v {
        toml::Value::String(s) => WsApp { place: Placement::Cell(s.clone()), chain: None, mode: None },
        toml::Value::Table(t) => {
            let place = match t.get("rect") {
                Some(r) => Placement::Rect { rect: rect(r) },
                None => Placement::Cell(opt_text(t, "cell").unwrap()),
            };
            WsApp { place, chain: opt_text(t, "chain"), mode: opt_text(t, "mode") }
        }
        other => panic!("not a place: {other}"),
    }
}

fn action(v: &toml::Value) -> Action {
    let t = match v {
        toml::Value::String(s) => return Action::Named(s.clone()),
        toml::Value::Table(t) => t,
        other => panic!("not an action: {other}"),
    };
    if let Some(half) = opt_text(t, "half") {
        return Action::Half(HalfAction { half });
    }
    if let Some(place) = opt_text(t, "place") {
        return Action::Place(PlaceAction { place });
    }
    match t.get("move") {
        Some(toml::Value::Integer(n)) => Action::Move(MoveAction { desktop: Desk::Num(*n) }),
        Some(v) => Action::Move(MoveAction { desktop: Desk::Str(v.as_str().unwrap().to_string()) }),
        None => Action::Target(TargetAction {
            desktop: t.get("desktop").map(|v| v.as_integer().unwrap() as u8),
            workspace: opt_text(t, "workspace"),
            app: opt_text(t, "app"),
            pull: t.get("pull").map(|v| v.as_bool().unwrap()),
            new: t.get("new").map(|v| v.as_bool().unwrap()),
        }),
    }
}

fn dispatchers(t: &toml::Table) -> Option<Dispatch> {
    t.get("dispatch").map(|v| match v {
        toml::Value::String(s) => Dispatch::One(s.clone()),
        _ => Dispatch::Many(text_list(t, "dispatch")),
    })
}

fn bind(v: &toml::Value) -> Bind {
    let t = v.as_table().unwrap();
    Bind {
        chain: opt_text(t, "chain").unwrap(),
        action: t.get("action").map(action),
        run: opt_text(t, "exec"),
        dispatch: dispatchers(t),
        lua: opt_text(t, "lua"),
        range: t.get("range").map(|v| (v[0].as_integer().unwrap(), v[1].as_integer().unwrap())),
        locked: flag(t, "locked"),
        repeating: flag(t, "repeating"),
        mouse: flag(t, "mouse"),
        release: flag(t, "release"),
        desc: opt_text(t, "desc"),
        group: opt_text(t, "group"),
    }
}

fn sticky_key(v: &toml::Value) -> StickyKey {
    let t = v.as_table().unwrap();
    StickyKey {
        action: t.get("action").map(action),
        run: opt_text(t, "exec"),
        dispatch: dispatchers(t),
        lua: opt_text(t, "lua"),
        state: opt_text(t, "state"),
        exit: flag(t, "exit"),
        desc: opt_text(t, "desc"),
    }
}

fn sticky(v: &toml::Value) -> StickyState {
    let t = v.as_table().unwrap();
    StickyState {
        enter: opt_text(t, "enter"),
        title: opt_text(t, "title"),
        apps: opt_text(t, "apps"),
        keys: part(t, "keys").iter().map(|(k, v)| (k.clone(), sticky_key(v))).collect(),
        states: part(t, "states").iter().map(|(k, v)| (k.clone(), sticky(v))).collect(),
    }
}

/// The configuration that a text describes, unchecked.
fn read(text: &str) -> Config {
    let root: toml::Table = text.parse().unwrap_or_else(|e| panic!("{e}\n{text}"));
    let keys = part(&root, "keys");
    let mut templates = Table::new();
    for (name, v) in part(&root, "templates") {
        let t = v.as_table().unwrap();
        let mut cells = Table::new();
        for (cell, r) in part(t, "cells") {
            cells.insert(cell, rect(&r));
        }
        templates.insert(name, Template { main: opt_text(t, "main").unwrap(), cells });
    }
    let mut apps = Table::new();
    for (name, v) in part(&root, "apps") {
        let t = v.as_table().unwrap();
        apps.insert(
            name,
            App {
                cmd: opt_text(t, "cmd"),
                args: text_list(t, "args"),
                cwd: opt_text(t, "cwd"),
                env: texts(t, "env"),
                chain: opt_text(t, "chain"),
                class: opt_text(t, "class"),
                title: opt_text(t, "title"),
                family: opt_text(t, "family"),
                rect: t.get("rect").map(rect),
                dialog_title: opt_text(t, "dialog_title"),
            },
        );
    }
    let mut workspaces = Table::new();
    for (name, v) in part(&root, "workspaces") {
        let t = v.as_table().unwrap();
        let mut list = new_apps();
        for (app, place) in part(t, "apps") {
            put_app(&mut list, app, placement(&place));
        }
        workspaces.insert(
            name,
            Workspace {
                template: opt_text(t, "template").unwrap(),
                main: opt_text(t, "main"),
                icon: opt_text(t, "icon"),
                chain: opt_text(t, "chain"),
                env: texts(t, "env"),
                mode: opt_text(t, "mode").unwrap_or("swap".to_string()),
                apps: list,
            },
        );
    }
    Config {
        env: texts(&root, "env"),
        keys: Keys {
            save_session: opt_text(&keys, "save_session"),
            save_workspace: opt_text(&keys, "save_workspace"),
            sessions: opt_text(&keys, "sessions"),
            next_workspace: opt_text(&keys, "next_workspace"),
            reserved: text_list(&keys, "reserved"),
            reserved_desc: texts(&keys, "reserved_desc"),
        },
        gap: root.get("gap").map(|v| v.as_integer().unwrap() as i32).unwrap_or(0),
        templates,
        apps,
        ignore_classes: text_list(&root, "ignore_classes"),
        workspaces,
        binds: root.get("binds").map(|v| v.as_array().unwrap().iter().map(bind).collect()).unwrap_or_default(),
        startup: root.get("startup").map(|v| {
            let t = v.as_table().unwrap();
            Startup { workspace: opt_text(t, "workspace").unwrap(), desktop: t.get("desktop").map(|d| d.as_integer().unwrap() as u8).unwrap_or(1) }
        }),
        sticky: part(&root, "sticky").iter().map(|(k, v)| (k.clone(), sticky(v))).collect(),
    }
}

/// The configuration that a text describes, or its fault.
fn parse(text: &str) -> Result<Config, String> {
    let cfg = read(text);
    cfg.validate()?;
    Ok(cfg)
}

fn test_client(addr: &str, class: &str, title: &str, desktop: &str, tags: &[&str]) -> Client {
    Client {
        address: addr.to_string(),
        class: class.to_string(),
        title: title.to_string(),
        workspace: WsRef { id: 1, name: desktop.to_string() },
        pid: 0,
        tags: tags.iter().map(|t| t.to_string()).collect(),
        at: (0, 0),
        size: (10, 10),
        floating: true,
        mapped: true,
        fullscreen: 0,
        stable_id: String::new(),
    }
}

fn placed(mut c: Client, r: PxRect) -> Client {
    c.at = (r.x, r.y);
    c.size = (r.w, r.h);
    c
}

#[test]
fn save_workspace_writes_shared_window() {
    let cfg = parse(&format!("{CFG}\n[apps.chrome-ai]\ncmd = \"google-chrome\"\nclass = \"^google-chrome-ai$\"\n")).unwrap();
    let moved = PxRect { x: 800, y: 300, w: 1920, h: 1080 };
    let left = PxRect { x: -805, y: 10, w: 1920, h: 2140 };
    let clients = vec![
        placed(test_client("0x1", "google-chrome-ai", "ИИ", "1", &["app:chrome-ai#1", "ws:surf", "ws:work"]), moved),
        placed(test_client("0x2", "chromium", "Новости", "3", &["app:chromium#1", "ws:dev-front"]), PxRect { x: 5, y: 5, w: 100, h: 100 }),
        placed(test_client("0x3", "chromium", "Почта", "1", &["app:chromium#2", "ws:work"]), left),
    ];
    let r = live_rect(&cfg, &clients, "work", "chrome-ai");
    assert_eq!(r, Some(moved));
    let item = app_item(&Place::Rect { rect: PxRect::default() }, r, None);
    assert_eq!(item, AppItem::Rect(moved));
    let r = live_rect(&cfg, &clients, "work", "chromium");
    assert_eq!(r, Some(left));
    assert_eq!(app_item(&Place::Cell("left".into()), r, Some(left)), AppItem::Cell("left".into()));
}

#[test]
fn extra_rect_of_shared_window_elsewhere() {
    let cfg = parse(&format!("{CFG}\n[apps.chrome-ai]\ncmd = \"google-chrome\"\nclass = \"^google-chrome-ai$\"\n")).unwrap();
    let on_two = PxRect { x: 1910, y: 10, w: 1920, h: 2140 };
    let kept = PxRect { x: 700, y: 200, w: 1920, h: 1080 };
    let clients = vec![placed(test_client("0x1", "google-chrome-ai", "ИИ", "2", &["app:chrome-ai#1", "ws:surf", "ws:work"]), on_two)];
    assert_eq!(extra_rect(&cfg, &clients, "work", Some(1), None, "chrome-ai"), None);
    let mut remembered = Table::new();
    remembered.insert("0x1".to_string(), kept);
    assert_eq!(extra_rect(&cfg, &clients, "work", Some(1), Some(&remembered), "chrome-ai"), Some(kept));
    assert_eq!(extra_rect(&cfg, &clients, "surf", Some(2), Some(&remembered), "chrome-ai"), Some(on_two));
    assert_eq!(extra_rect(&cfg, &clients, "dev-front", Some(3), None, "chrome-ai"), None);
}

const CFG: &str = r#"
[templates.thirds]
main = "center"
[templates.thirds.cells]
left   = { x = -805, y = 10, w = 1920, h = 2140 }
center = { x = 1125, y = 10, w = 1920, h = 2140 }

[apps.chromium]
cmd = "chromium"
class = "(?i)^chromium(-browser)?$"

[apps.herdr]
cmd = "wezterm-gui"
class = "^wezterm-herdr$"

[apps.chromium-mail]
family = "chromium"
cmd = "chromium"
class = "(?i)^chromium(-browser)?$"
title = "^Gmail"

[workspaces.work]
template = "thirds"
main = "herdr"
apps = { herdr = "center", chromium = "left" }

[workspaces.solo]
template = "thirds"
main = "chromium"
apps = { chromium = "left" }
"#;

fn at(addr: &str, tag: &str, r: PxRect) -> Client {
    let mut c = test_client(addr, "chromium", "Новости", "1", &[tag]);
    c.at = (r.x, r.y);
    c.size = (r.w, r.h);
    c
}

fn foreign(cmd: &[&str]) -> Foreign {
    Foreign { rect: PxRect { x: 0, y: 0, w: 10, h: 10 }, cmd: cmd.iter().map(|s| s.to_string()).collect(), cwd: Some("/home/mne".into()) }
}

#[test]
fn session_plan_names_windows() {
    let cfg = parse(CFG).unwrap();
    let ws = "solo";
    let mut alien = test_client("0x1", "Galculator", "Калькулятор", "1", &[]);
    alien.at = (100, 200);
    alien.size = (800, 600);
    let known = test_client("0x2", "chromium", "Новости", "1", &[]);
    let outside = test_client("0x3", "wezterm-herdr", "herdr · dev-lab", "1", &[]);
    let mute = test_client("0x4", "Keepassxc", "Пароли", "1", &[]);

    let f_alien = foreign(&["galculator"]);
    let f_known = foreign(&["chromium"]);
    let f_outside = foreign(&["wezterm-gui"]);
    let f_mute = foreign(&[]);
    let windows: Vec<(&Client, Option<&Foreign>)> =
        vec![(&alien, Some(&f_alien)), (&known, Some(&f_known)), (&outside, Some(&f_outside)), (&mute, Some(&f_mute))];
    let mut taken: Vec<String> = cfg.apps.keys();
    let plan = session_plan(&cfg, &cfg, ws, &mut taken, &windows);

    assert_eq!(plan[0].app, "galculator");
    let e = plan[0].extra.clone().unwrap();
    assert_eq!(e.class.as_deref(), Some("Galculator"));
    assert_eq!(e.cmd, vec!["galculator".to_string()]);
    assert_eq!(e.rect, PxRect { x: 100, y: 200, w: 800, h: 600 });
    assert_eq!(plan[1], Adopted { addr: "0x2".into(), app: "chromium".into(), extra: None });
    assert_eq!(plan[2].app, "herdr");
    assert_eq!(plan[2].extra.clone().unwrap().cmd, Vec::<String>::new());
    assert_eq!(plan.len(), 3);
}

#[test]
fn session_plan_uniquifies_names() {
    let cfg = parse(CFG).unwrap();
    let a = test_client("0x1", "Galculator", "Первый", "1", &[]);
    let b = test_client("0x2", "Galculator", "Второй", "1", &[]);
    let f = foreign(&["galculator"]);
    let windows: Vec<(&Client, Option<&Foreign>)> = vec![(&a, Some(&f)), (&b, Some(&f))];
    let mut taken: Vec<String> = cfg.apps.keys();
    let plan = session_plan(&cfg, &cfg, "solo", &mut taken, &windows);
    assert_eq!(plan.iter().map(|a| a.app.as_str()).collect::<Vec<_>>(), vec!["galculator", "galculator-2"]);
}

#[test]
fn session_plan_leaves_classless_windows_free() {
    let cfg = parse(CFG).unwrap();
    let tm = test_client("0x1", "", "Диспетчер задач – Chromium", "1", &[]);
    let f = foreign(&["/usr/lib/chromium/chromium", "--ozone-platform=wayland"]);
    let windows: Vec<(&Client, Option<&Foreign>)> = vec![(&tm, Some(&f))];
    let mut taken: Vec<String> = cfg.apps.keys();
    assert!(session_plan(&cfg, &cfg, "solo", &mut taken, &windows).is_empty());
}

#[test]
fn instance_numbers_do_not_repeat_in_one_call() {
    let mut used = vec![("galculator".to_string(), 1)];
    assert_eq!(next_instance(&mut used, "galculator"), 2);
    assert_eq!(next_instance(&mut used, "galculator"), 3);
    assert_eq!(next_instance(&mut used, "chromium"), 1);
}

#[test]
fn app_table_writes_command_and_class() {
    let t = app_table(&["galculator".to_string(), "--mode=paper".to_string()], Some("/home/mne"), Some("Galculator"));
    assert_eq!(t.cmd, "galculator");
    assert_eq!(t.args[0], "--mode=paper");
    assert_eq!(t.cwd.as_deref(), Some("/home/mne"));
    assert_eq!(t.class.as_deref(), Some("^Galculator$"));
}

#[test]
fn rect_of_first_instance_only() {
    let cfg = parse(CFG).unwrap();
    let cell = PxRect { x: -805, y: 10, w: 1920, h: 2140 };
    let moved = PxRect { x: 100, y: 200, w: 800, h: 600 };
    let clients = vec![at("0x2", "app:chromium#2", cell), at("0x1", "app:chromium#1", moved)];
    let wins = app_windows(&cfg, &clients, "chromium");
    assert_eq!(wins.len(), 2);
    let live = wins.first().map(|c| c.rect());
    assert_eq!(live, Some(moved));
    assert_eq!(app_item(&Place::Cell("left".into()), live, Some(cell)), AppItem::Rect(moved));

    let clients = vec![at("0x1", "app:chromium#1", cell), at("0x2", "app:chromium#2", moved)];
    let live = app_windows(&cfg, &clients, "chromium").first().map(|c| c.rect());
    assert_eq!(app_item(&Place::Cell("left".into()), live, Some(cell)), AppItem::Cell("left".into()));
}
