//! Windows and workspaces: membership, places, desktops, keys of applications and restored windows.
use notify::event::{AccessKind, AccessMode, CreateKind, DataChange, EventKind, ModifyKind, RenameMode};
use std::collections::BTreeMap;
use workspaced::area::{grid_cell, maximize_rect, place_rect};
use workspaced::config::Mode;
use workspaced::config::{
    new_apps, put_app, Action, App, Bind, Config, Desk, Dispatch, HalfAction, Keys, MoveAction, PlaceAction, Placement, Startup,
    StickyKey, StickyState, TargetAction, Template, Workspace, WsApp,
};
use workspaced::desktop::{assign_desktop, move_step, next_ws, successor, MoveStep};
use workspaced::extra::{
    app_name, detach_step, drop_extra_app, join_window, merge_extra, share_record, taken_names, DetachStep, Free, Join,
};
use workspaced::home::{
    absorb_into, absorb_plan, arrive_rect, arrives, depth_plan, follow_plan, raise_target, window_home, Absorb, Follow, Home, Spot,
};
use workspaced::hypr::{d_tag, Client, WsRef};
use workspaced::layout::{arrange_layout, arrange_plan, claim_owner, drop_moved, keep_layout, open_rect, swap_places};
use workspaced::member::{
    adopt_plan, derive_membership, share_plan, stale_pending, stale_tagged, stale_ws_tags, Capture,
};
use workspaced::names::Names;
use workspaced::pattern::Pattern;
use workspaced::pending::{pending_step, PendingStep};
use workspaced::procs::{flatpak_app_id, launch_dir, launchable, program_place, Seen};
use workspaced::rect::PxRect;
use workspaced::rect::{Coord, Rect};
use workspaced::report::{write_finished, FileEvent};
use workspaced::restore::{end_wait, entry_members, match_restore, raise_restore_step, restore_place, RaiseStep};
use workspaced::route::{
    anchor_window, app_route, cycle_mode, cycle_step, key_route, next_app_window, swap_start, AppRoute, CycleStep,
};
use workspaced::state::{Desktop, ExtraApp, Moved, Place, RestoreEntry, RestoreState, State};
use workspaced::table::Table;
use workspaced::windows::{
    app_for_window, app_windows, entry_tags, first_window, free_instance, free_number, matcher_fits, placed_windows, restored_number,
    ws_app_of, ws_windows,
};

/// The monitor that shares of the screen are taken of.
const MON: (i32, i32) = (3840, 2160);

fn opt_text(t: &toml::Table, k: &str) -> Option<String> {
    t.get(k).map(|v| v.as_str().unwrap_or_else(|| panic!("{k}: not a text")).to_string())
}

fn text_list(t: &toml::Table, k: &str) -> Vec<String> {
    t.get(k).map(|v| v.as_array().unwrap().iter().map(|x| x.as_str().unwrap().to_string()).collect()).unwrap_or_default()
}

fn flag(t: &toml::Table, k: &str) -> bool {
    t.get(k).is_some_and(|v| v.as_bool().unwrap())
}

fn part(t: &toml::Table, k: &str) -> toml::Table {
    t.get(k).map(|v| v.as_table().unwrap().clone()).unwrap_or_default()
}

fn texts(t: &toml::Table, k: &str) -> Table<String> {
    let mut out = Table::new();
    for (name, v) in part(t, k) {
        out.insert(name, v.as_str().unwrap().to_string());
    }
    out
}

fn coord(v: &toml::Value, axis: i32) -> Coord {
    match v {
        toml::Value::Integer(n) => Coord::Px(*n as i32),
        toml::Value::Float(f) => Coord::Px(f.round() as i32),
        toml::Value::String(s) => {
            let p: f64 = s.trim().strip_suffix('%').unwrap().trim().parse().unwrap();
            Coord::Percent { bits: p.to_bits(), px: (axis as f64 * p / 100.0).round() as i32 }
        }
        other => panic!("not a coordinate: {other}"),
    }
}

fn rect(v: &toml::Value) -> Rect {
    let t = v.as_table().unwrap();
    Rect { x: coord(&t["x"], MON.0), y: coord(&t["y"], MON.1), w: coord(&t["w"], MON.0), h: coord(&t["h"], MON.1) }
}

fn placement(v: &toml::Value) -> WsApp {
    match v {
        toml::Value::String(s) => WsApp { place: Placement::Cell(s.clone()), chain: None, mode: None },
        toml::Value::Table(t) => {
            let place = match t.get("rect") {
                Some(r) => Placement::Rect { rect: rect(r) },
                None => Placement::Cell(opt_text(t, "cell").unwrap()),
            };
            WsApp { place, chain: opt_text(t, "chain"), mode: opt_text(t, "mode") }
        }
        other => panic!("not a place: {other}"),
    }
}

fn action(v: &toml::Value) -> Action {
    let t = match v {
        toml::Value::String(s) => return Action::Named(s.clone()),
        toml::Value::Table(t) => t,
        other => panic!("not an action: {other}"),
    };
    if let Some(half) = opt_text(t, "half") {
        return Action::Half(HalfAction { half });
    }
    if let Some(place) = opt_text(t, "place") {
        return Action::Place(PlaceAction { place });
    }
    match t.get("move") {
        Some(toml::Value::Integer(n)) => Action::Move(MoveAction { desktop: Desk::Num(*n) }),
        Some(v) => Action::Move(MoveAction { desktop: Desk::Str(v.as_str().unwrap().to_string()) }),
        None => Action::Target(TargetAction {
            desktop: t.get("desktop").map(|v| v.as_integer().unwrap() as u8),
            workspace: opt_text(t, "workspace"),
            app: opt_text(t, "app"),
            pull: t.get("pull").map(|v| v.as_bool().unwrap()),
            new: t.get("new").map(|v| v.as_bool().unwrap()),
        }),
    }
}

fn dispatchers(t: &toml::Table) -> Option<Dispatch> {
    t.get("dispatch").map(|v| match v {
        toml::Value::String(s) => Dispatch::One(s.clone()),
        _ => Dispatch::Many(text_list(t, "dispatch")),
    })
}

fn bind(v: &toml::Value) -> Bind {
    let t = v.as_table().unwrap();
    Bind {
        chain: opt_text(t, "chain").unwrap(),
        action: t.get("action").map(action),
        run: opt_text(t, "exec"),
        dispatch: dispatchers(t),
        lua: opt_text(t, "lua"),
        range: t.get("range").map(|v| (v[0].as_integer().unwrap(), v[1].as_integer().unwrap())),
        locked: flag(t, "locked"),
        repeating: flag(t, "repeating"),
        mouse: flag(t, "mouse"),
        release: flag(t, "release"),
        desc: opt_text(t, "desc"),
        group: opt_text(t, "group"),
    }
}

fn sticky_key(v: &toml::Value) -> StickyKey {
    let t = v.as_table().unwrap();
    StickyKey {
        action: t.get("action").map(action),
        run: opt_text(t, "exec"),
        dispatch: dispatchers(t),
        lua: opt_text(t, "lua"),
        state: opt_text(t, "state"),
        exit: flag(t, "exit"),
        desc: opt_text(t, "desc"),
    }
}

fn sticky(v: &toml::Value) -> StickyState {
    let t = v.as_table().unwrap();
    StickyState {
        enter: opt_text(t, "enter"),
        title: opt_text(t, "title"),
        apps: opt_text(t, "apps"),
        keys: part(t, "keys").iter().map(|(k, v)| (k.clone(), sticky_key(v))).collect(),
        states: part(t, "states").iter().map(|(k, v)| (k.clone(), sticky(v))).collect(),
    }
}

/// The configuration that a text describes, unchecked.
fn read(text: &str) -> Config {
    let root: toml::Table = text.parse().unwrap_or_else(|e| panic!("{e}\n{text}"));
    let keys = part(&root, "keys");
    let mut templates = Table::new();
    for (name, v) in part(&root, "templates") {
        let t = v.as_table().unwrap();
        let mut cells = Table::new();
        for (cell, r) in part(t, "cells") {
            cells.insert(cell, rect(&r));
        }
        templates.insert(name, Template { main: opt_text(t, "main").unwrap(), cells });
    }
    let mut apps = Table::new();
    for (name, v) in part(&root, "apps") {
        let t = v.as_table().unwrap();
        apps.insert(
            name,
            App {
                cmd: opt_text(t, "cmd"),
                args: text_list(t, "args"),
                cwd: opt_text(t, "cwd"),
                env: texts(t, "env"),
                chain: opt_text(t, "chain"),
                class: opt_text(t, "class"),
                title: opt_text(t, "title"),
                family: opt_text(t, "family"),
                rect: t.get("rect").map(rect),
                dialog_title: opt_text(t, "dialog_title"),
            },
        );
    }
    let mut workspaces = Table::new();
    for (name, v) in part(&root, "workspaces") {
        let t = v.as_table().unwrap();
        let mut list = new_apps();
        for (app, place) in part(t, "apps") {
            put_app(&mut list, app, placement(&place));
        }
        workspaces.insert(
            name,
            Workspace {
                template: opt_text(t, "template").unwrap(),
                main: opt_text(t, "main"),
                icon: opt_text(t, "icon"),
                chain: opt_text(t, "chain"),
                env: texts(t, "env"),
                mode: opt_text(t, "mode").unwrap_or("swap".to_string()),
                apps: list,
            },
        );
    }
    Config {
        env: texts(&root, "env"),
        keys: Keys {
            save_session: opt_text(&keys, "save_session"),
            save_workspace: opt_text(&keys, "save_workspace"),
            sessions: opt_text(&keys, "sessions"),
            next_workspace: opt_text(&keys, "next_workspace"),
            reserved: text_list(&keys, "reserved"),
            reserved_desc: texts(&keys, "reserved_desc"),
        },
        gap: root.get("gap").map(|v| v.as_integer().unwrap() as i32).unwrap_or(0),
        templates,
        apps,
        ignore_classes: text_list(&root, "ignore_classes"),
        workspaces,
        binds: root.get("binds").map(|v| v.as_array().unwrap().iter().map(bind).collect()).unwrap_or_default(),
        startup: root.get("startup").map(|v| {
            let t = v.as_table().unwrap();
            Startup { workspace: opt_text(t, "workspace").unwrap(), desktop: t.get("desktop").map(|d| d.as_integer().unwrap() as u8).unwrap_or(1) }
        }),
        sticky: part(&root, "sticky").iter().map(|(k, v)| (k.clone(), sticky(v))).collect(),
    }
}

/// The configuration that a text describes, or its fault.
fn parse(text: &str) -> Result<Config, String> {
    let cfg = read(text);
    cfg.validate()?;
    Ok(cfg)
}

fn client(addr: &str, class: &str, title: &str, desktop: &str, tags: &[&str]) -> Client {
    Client {
        address: addr.to_string(),
        class: class.to_string(),
        title: title.to_string(),
        workspace: WsRef { id: 1, name: desktop.to_string() },
        pid: 0,
        tags: tags.iter().map(|t| t.to_string()).collect(),
        at: (0, 0),
        size: (10, 10),
        floating: true,
        mapped: true,
        fullscreen: 0,
        stable_id: String::new(),
    }
}

#[test]
fn maximize_rect_with_panel_on_the_left() {
    let area = PxRect { x: 330, y: 0, w: 3510, h: 2160 };
    assert_eq!(maximize_rect(area, 5), PxRect { x: 340, y: 10, w: 3490, h: 2140 });
}

#[test]
fn maximize_rect_without_reserved() {
    let area = PxRect { x: 0, y: 0, w: 3840, h: 2160 };
    assert_eq!(maximize_rect(area, 5), PxRect { x: 10, y: 10, w: 3820, h: 2140 });
}

#[test]
fn grid_halves_keep_previous_numbers() {
    let panel = PxRect { x: 330, y: 0, w: 3510, h: 2160 };
    assert_eq!(grid_cell(panel, 5, 2, 1, 0, 0), PxRect { x: 340, y: 10, w: 1740, h: 2140 });
    assert_eq!(grid_cell(panel, 5, 2, 1, 1, 0), PxRect { x: 2090, y: 10, w: 1740, h: 2140 });
    let full = PxRect { x: 0, y: 0, w: 3840, h: 2160 };
    assert_eq!(grid_cell(full, 5, 2, 1, 0, 0), PxRect { x: 10, y: 10, w: 1905, h: 2140 });
    assert_eq!(grid_cell(full, 5, 1, 2, 0, 1), PxRect { x: 10, y: 1085, w: 3820, h: 1065 });
}

#[test]
fn place_positions_with_panel() {
    let panel = PxRect { x: 330, y: 0, w: 3510, h: 2160 };
    let r = |p| place_rect(panel, 5, p).unwrap();
    assert_eq!(r("top-left"), PxRect { x: 340, y: 10, w: 1740, h: 1065 });
    assert_eq!(r("top-center"), PxRect { x: 1215, y: 10, w: 1740, h: 1065 });
    assert_eq!(r("top-right"), PxRect { x: 2090, y: 10, w: 1740, h: 1065 });
    assert_eq!(r("bottom-left"), PxRect { x: 340, y: 1085, w: 1740, h: 1065 });
    assert_eq!(r("bottom-center"), PxRect { x: 1215, y: 1085, w: 1740, h: 1065 });
    assert_eq!(r("bottom-right"), PxRect { x: 2090, y: 1085, w: 1740, h: 1065 });
    assert_eq!(r("center"), PxRect { x: 1215, y: 10, w: 1740, h: 2140 });
    assert_eq!(r("full"), maximize_rect(panel, 5));
    assert!(place_rect(panel, 5, "left").is_err());
}

fn triples(plan: Vec<Capture>) -> Vec<(usize, String, u32)> {
    plan.into_iter().map(|c| (c.idx, c.app, c.num)).collect()
}

const CFG: &str = r#"
[templates.thirds]
main = "center"
[templates.thirds.cells]
left   = { x = -805, y = 10, w = 1920, h = 2140 }
center = { x = 1125, y = 10, w = 1920, h = 2140 }
right  = { x = 3055, y = 10, w = 1920, h = 2140 }

[apps.wezterm]
class = "^org\\.wezfurlong\\.wezterm$"

[apps.herdr]
family = "wezterm"
cmd = "wezterm-gui"
class = "^wezterm-herdr$"

[apps.chromium]
cmd = "chromium"
class = "(?i)^chromium(-browser)?$"

[apps.chromium-mail]
family = "chromium"
cmd = "chromium"
class = "(?i)^chromium(-browser)?$"
title = "^Gmail"

[apps.neovide]
cmd = "neovide"
class = "^neovide$"

[apps.calc]
cmd = "qalculate-gtk"
class = "^qalculate-gtk$"
rect = { x = 2600, y = 1500, w = 600, h = 400 }

[workspaces.work]
template = "thirds"
main = "herdr"
apps = { herdr = "center", chromium = "left", neovide = "right" }
"#;

fn cfg_with_dialogs() -> Config {
    let text = format!("ignore_classes = [\"zenity\", \"pinentry.*\"]\n{CFG}").replace(
        "[apps.chromium]\ncmd = \"chromium\"\n",
        "[apps.chromium]\ncmd = \"chromium\"\ndialog_title = \"^(Диспетчер задач|Task Manager)$\"\n",
    );
    parse(&text).unwrap()
}

#[test]
fn join_takes_new_window_into_the_active_workspace() {
    let cfg = parse(CFG).unwrap();
    let taken: Vec<String> = cfg.apps.keys();
    let join = |ws, c: &Client, has_cmd: bool| {
        let cmd: Vec<String> = if has_cmd { vec!["/usr/bin/prog".into()] } else { Vec::new() };
        join_window(&cfg, &cfg, ws, c, &cmd, &taken)
    };

    let chromium = client("0x1", "chromium", "Новости", "1", &[]);
    assert_eq!(join(Some("work"), &chromium, true), Join::App("chromium".into()));

    let calc = client("0x2", "qalculate-gtk", "Калькулятор", "1", &[]);
    assert_eq!(join(Some("work"), &calc, true), Join::AppPlace("calc".into()));

    let term = client("0x3", "Alacritty", "mne@dev-lab", "1", &[]);
    assert_eq!(join(Some("work"), &term, true), Join::Extra("alacritty".into()));

    assert_eq!(join(None, &term, true), Join::Free(Free::NoWorkspace));
    assert_eq!(join(None, &chromium, true), Join::App("chromium".into()));

    assert_eq!(join(Some("work"), &term, false), Join::Free(Free::NoCommand));
}

#[test]
fn dialogs_and_ignored_classes_stay_free() {
    let cfg = cfg_with_dialogs();
    let taken: Vec<String> = cfg.apps.keys();
    let join = |c: &Client| join_window(&cfg, &cfg, Some("work"), c, &["/usr/bin/prog".to_string()], &taken);

    let dialog = client("0x1", "chromium", "Диспетчер задач", "1", &[]);
    assert_eq!(join(&dialog), Join::Free(Free::Dialog("chromium".into())));
    let page = client("0x2", "chromium", "Новости", "1", &[]);
    assert_eq!(join(&page), Join::App("chromium".into()));

    let ask = client("0x3", "zenity", "Пароль", "1", &[]);
    assert_eq!(join(&ask), Join::Free(Free::Ignored));
    let pin = client("0x4", "pinentry-gtk", "Пароль", "1", &[]);
    assert_eq!(join(&pin), Join::Free(Free::Ignored));
}

#[test]
fn classless_windows_stay_free() {
    let cfg = cfg_with_dialogs();
    let taken: Vec<String> = cfg.apps.keys();
    let cmd = vec!["/usr/lib/chromium/chromium".to_string()];
    let tm = client("0x1", "", "Диспетчер задач – Chromium", "1", &[]);
    assert_eq!(join_window(&cfg, &cfg, Some("work"), &tm, &cmd, &taken), Join::Free(Free::NoClass));
    assert_eq!(join_window(&cfg, &cfg, None, &tm, &cmd, &taken), Join::Free(Free::NoClass));
    let blank = client("0x2", "  ", "", "1", &[]);
    assert_eq!(join_window(&cfg, &cfg, Some("work"), &blank, &cmd, &taken), Join::Free(Free::NoClass));

    let any = Pattern::new("^(?:.*)$").unwrap();
    assert!(!matcher_fits(Some(&any), None, &tm));
    let mut extra: Table<Table<ExtraApp>> = Table::new();
    extra.put_nested("work", "app".into(), ExtraApp { class: Some(String::new()), cmd: cmd.clone(), cwd: None, rect: PxRect::default() });
    let (merged, _) = merge_extra(&cfg, &extra);
    assert_eq!(app_for_window(&merged, &tm), None);
    let plan = triples(adopt_plan(&merged, std::slice::from_ref(&tm), &["app".to_string()], true).unwrap());
    assert!(plan.is_empty());
}

#[test]
fn same_class_of_another_program_gets_its_own_name() {
    let text = format!("{CFG}\n[workspaces.surf]\ntemplate = \"thirds\"\napps = {{ chromium = \"center\" }}\n");
    let file = parse(&text).unwrap();
    let mut extra: Table<Table<ExtraApp>> = Table::new();
    extra.put_nested("work", "alacritty".into(), ExtraApp { class: Some("Alacritty".into()), cmd: vec!["/usr/bin/alacritty".into()], cwd: None, rect: PxRect::default() });
    let (cfg, _) = merge_extra(&file, &extra);
    let taken = taken_names(&cfg, &extra);
    let term = client("0x1", "Alacritty", "mne@dev-lab", "2", &[]);
    assert_eq!(join_window(&cfg, &file, Some("surf"), &term, &["/usr/bin/alacritty".to_string()], &taken), Join::Extra("alacritty".into()));
    assert_eq!(join_window(&cfg, &file, Some("surf"), &term, &["/opt/other/alacritty".to_string()], &taken), Join::Extra("alacritty-2".into()));
}

#[test]
fn detach_drops_session_app_in_every_workspace() {
    let mut st = State::default();
    let full = ExtraApp { class: Some("wev".into()), cmd: vec!["/usr/bin/wev".into()], cwd: None, rect: PxRect::default() };
    for w in ["work", "surf"] {
        st.extra.put_nested(w, "wev".into(), full.clone());
        st.cells.put_nested(w, "wev".into(), Place::Rect { rect: PxRect::default() });
    }
    st.extra.put_nested("surf", "calc".into(), ExtraApp::default());
    st.extra.put_nested("work", "calc".into(), ExtraApp::default());
    assert_eq!(drop_extra_app(&mut st, "surf", "wev", true), vec!["surf".to_string(), "work".to_string()]);
    for w in ["work", "surf"] {
        assert!(st.extra.nested(w, "wev").is_none() && st.cells.nested(w, "wev").is_none());
    }
    assert_eq!(drop_extra_app(&mut st, "surf", "calc", true), vec!["surf".to_string()]);
    assert!(st.extra.nested("work", "calc").is_some());
    assert!(!st.extra.contains_key("surf"));
}

#[test]
fn launchable_command_from_proc() {
    let s = |v: &[&str]| v.iter().map(|x| x.to_string()).collect::<Vec<String>>();
    let none = Seen { exists: false, is_file: false, named: false, exe_is_file: false };
    let file = Seen { is_file: true, ..none };
    // One word with spaces is a command line that the program rewrote.
    assert_eq!(launchable(&s(&["/bin/sh -c true"]), None, None, file), Some(s(&["/bin/sh", "-c", "true"])));
    assert_eq!(launchable(&s(&["/opt/a b/prog"]), None, None, Seen { exists: true, ..file }), Some(s(&["/opt/a b/prog"])));
    // A name among the directories of programs stays as it is.
    assert_eq!(launchable(&s(&["sh", "-c", "true"]), None, None, Seen { named: true, ..none }), Some(s(&["sh", "-c", "true"])));
    // A path that is not absolute goes from the directory of the process on.
    let d = "/tmp/workspaced-test-1";
    let abs = "/tmp/workspaced-test-1/helper";
    assert_eq!(program_place("./helper", Some(d)), Some("/tmp/workspaced-test-1/./helper".to_string()));
    assert_eq!(launchable(&s(&["./helper", "-x"]), Some(d), None, file), Some(s(&[abs, "-x"])));
    // The file is gone: the running file of the process stands for it; without one there is no command.
    let exe = Seen { exe_is_file: true, ..none };
    assert_eq!(launchable(&s(&["./gone", "-x"]), Some(d), Some("/bin/sh"), exe), Some(s(&["/bin/sh", "-x"])));
    assert_eq!(launchable(&s(&["./gone"]), Some(d), None, none), None);
    assert_eq!(launchable(&s(&["no-such-program-xyz"]), None, None, none), None);
    assert_eq!(launchable(&s(&["/no/such/file"]), None, Some("/no/such/exe"), none), None);
}

#[test]
fn launch_failure_names_command_and_directory() {
    assert_eq!(launch_dir(Some("/"), true, "/tmp"), ("/".to_string(), None));
    let (dir, warn) = launch_dir(Some("/no/such/dir"), false, "/tmp");
    assert_eq!(dir, "/tmp");
    assert!(warn.unwrap().contains("/no/such/dir"));
    assert_eq!(launch_dir(None, false, "/tmp"), ("/tmp".to_string(), None));
}

#[test]
fn extra_app_names_do_not_repeat() {
    let cfg = parse(CFG).unwrap();
    let mut extra: Table<Table<ExtraApp>> = Table::new();
    extra.put_nested("work", "alacritty".into(), ExtraApp::default());
    let taken = taken_names(&cfg, &extra);
    assert!(taken.contains(&"chromium".to_string()) && taken.contains(&"alacritty".to_string()));
    assert_eq!(app_name("Alacritty", &taken), "alacritty-2");
    assert_eq!(app_name("org.telegram.desktop", &taken), "org-telegram-desktop");
    assert_eq!(app_name("!!!", &taken), "app");
}

fn desks(pairs: &[(u8, &str)]) -> BTreeMap<u8, String> {
    pairs.iter().map(|(n, w)| (*n, w.to_string())).collect()
}

#[test]
fn detach_closes_last_membership() {
    let cfg = parse(CFG).unwrap();
    let clients = vec![
        client("0x1", "wezterm-herdr", "herdr · dev-lab", "1", &["app:herdr#1", "ws:work"]),
        client("0x2", "chromium", "Новости", "1", &["app:chromium#1", "ws:work"]),
        client("0x3", "Alacritty", "mne@dev-lab", "1", &["app:alacritty#1"]),
        client("0x4", "firefox", "Видео", "1", &[]),
    ];
    let extra: Table<ExtraApp> = Table::new();
    let d = desks(&[(1, "work")]);
    let step = |active: Option<&Client>, extra: &Table<ExtraApp>| detach_step(&cfg, &clients, Some("work"), extra, active, &d, 1);

    assert_eq!(step(Some(&clients[1]), &extra), DetachStep::Close { app: "chromium".into(), drop_extra: false, last: true });
    assert!(matches!(step(Some(&clients[3]), &extra), DetachStep::Skip(_)));
    assert!(matches!(step(Some(&clients[2]), &extra), DetachStep::Skip(_)));
    assert!(matches!(step(None, &extra), DetachStep::Skip(_)));
    assert!(matches!(detach_step(&cfg, &clients, None, &extra, Some(&clients[1]), &d, 1), DetachStep::Skip(_)));

    let alien = client("0x5", "neovide", "[Scratch]", "1", &["app:neovide#1", "ws:dev-front"]);
    let others = vec![alien.clone()];
    assert!(matches!(detach_step(&cfg, &others, Some("work"), &extra, Some(&alien), &d, 1), DetachStep::Skip(_)));

    let two = vec![clients[1].clone(), client("0x6", "chromium", "Документы", "3", &["app:chromium#2", "ws:dev-front"])];
    assert_eq!(detach_step(&cfg, &two, Some("work"), &extra, Some(&two[0]), &d, 1), DetachStep::Close { app: "chromium".into(), drop_extra: false, last: false });
}

#[test]
fn detach_leaves_shared_window() {
    let cfg = parse(CFG).unwrap();
    let mut extra: Table<ExtraApp> = Table::new();
    extra.insert("chromium".to_string(), ExtraApp::default());
    let shared = client("0x1", "chromium", "Новости", "1", &["app:chromium#1", "ws:work", "ws:surf"]);
    let clients = vec![shared.clone()];
    let d = desks(&[(1, "work"), (2, "surf")]);
    assert_eq!(detach_step(&cfg, &clients, Some("work"), &extra, Some(&shared), &d, 1), DetachStep::Leave { app: "chromium".into(), home: Home::Desktop(2), drop_extra: true });
    let d = desks(&[(1, "work")]);
    assert_eq!(detach_step(&cfg, &clients, Some("work"), &extra, Some(&shared), &d, 1), DetachStep::Leave { app: "chromium".into(), home: Home::Pool, drop_extra: true });
    let two = vec![shared.clone(), client("0x2", "chromium", "Почта", "1", &["app:chromium#2", "ws:work"])];
    assert!(matches!(detach_step(&cfg, &two, Some("work"), &extra, Some(&shared), &d, 1), DetachStep::Leave { drop_extra: false, .. }));
}

#[test]
fn drop_extra_keeps_records_of_other_members() {
    let full = ExtraApp { class: Some("Alacritty".into()), cmd: vec!["/usr/bin/alacritty".into()], cwd: None, rect: PxRect::default() };
    let fresh = || {
        let mut st = State::default();
        for w in ["work", "dev-front"] {
            st.extra.put_nested(w, "alacritty".into(), full.clone());
            st.cells.put_nested(w, "alacritty".into(), Place::Rect { rect: PxRect::default() });
        }
        st
    };
    let mut st = fresh();
    assert_eq!(drop_extra_app(&mut st, "work", "alacritty", false), vec!["work".to_string()]);
    assert!(st.extra.nested("dev-front", "alacritty").is_some());
    assert!(st.cells.nested("dev-front", "alacritty").is_some() && st.cells.nested("work", "alacritty").is_none());
    let mut st = fresh();
    assert_eq!(drop_extra_app(&mut st, "work", "alacritty", true), vec!["dev-front".to_string(), "work".to_string()]);
    assert!(st.extra.is_empty());
}

fn shared_cfg() -> Config {
    let text = format!(
        "{CFG}\n[apps.chrome-ai]\ncmd = \"google-chrome\"\nclass = \"^google-chrome-ai$\"\n\n[workspaces.surf]\ntemplate = \"thirds\"\nmode = \"stack\"\napps = {{ chrome-ai = \"right\" }}\n\n[workspaces.dev-back]\ntemplate = \"thirds\"\napps = {{ chrome-ai = \"center\", neovide = \"right\" }}\n\n[workspaces.chat]\ntemplate = \"thirds\"\napps = {{ calc = \"center\" }}\n"
    );
    parse(&text).unwrap()
}

#[test]
fn ws_windows_by_tags() {
    let cfg = shared_cfg();
    let clients = vec![
        client("0x1", "chromium", "Новости", "1", &["app:chromium#1", "ws:work"]),
        client("0x2", "chromium", "Почта", "3", &["app:chromium#2"]),
        client("0x3", "google-chrome-ai", "ИИ", "2", &["app:chrome-ai#1", "ws:surf", "ws:work"]),
    ];
    let addrs = |ws: &str| ws_windows(&clients, ws).iter().map(|c| c.address.clone()).collect::<Vec<_>>();
    assert_eq!(addrs("work"), vec!["0x1", "0x3"]);
    assert_eq!(addrs("surf"), vec!["0x3"]);
    assert!(addrs("dev-back").is_empty());
    let apps: Vec<String> = vec!["herdr".into(), "chromium".into(), "neovide".into()];
    assert_eq!(placed_windows(&cfg, &clients, "work", &apps, "chromium").len(), 1);
    assert_eq!(ws_app_of(&cfg, "work", &apps, &clients[0]).as_deref(), Some("chromium"));
    assert_eq!(ws_app_of(&cfg, "work", &apps, &clients[1]), None);
    assert_eq!(next_app_window(&cfg, &clients, "work", "herdr").as_deref(), Some("0x1"));
}

#[test]
fn joined_window_gets_ws_tag() {
    let ex = entry_tags("0x1", "chromium", 2, Some("work"));
    assert_eq!(ex, vec![d_tag("0x1", "app:chromium#2"), d_tag("0x1", "ws:work")]);
    assert_eq!(entry_tags("0x1", "calc", 1, None), vec![d_tag("0x1", "app:calc#1")]);
    let cfg = shared_cfg();
    let apps: Vec<String> = vec!["herdr".into(), "chromium".into(), "neovide".into()];
    let clients = vec![
        client("0x1", "chromium", "Новости", "1", &["app:chromium#1", "ws:work"]),
        client("0x2", "chromium", "Почта", "4", &["app:chromium#2"]),
        client("0x3", "chromium", "Документы", "4", &[]),
        client("0x4", "google-chrome-ai", "ИИ", "4", &["app:chrome-ai#1"]),
    ];
    let plan = adopt_plan(&cfg, &clients, &apps, true).unwrap();
    assert_eq!(plan, vec![Capture { idx: 1, app: "chromium".into(), num: 2, retag: false }, Capture { idx: 2, app: "chromium".into(), num: 3, retag: true }]);
    assert_eq!(triples(adopt_plan(&cfg, &clients, &apps, false).unwrap()), vec![(2, "chromium".to_string(), 3)]);
}

#[test]
fn stale_ws_tags_follow_effective_config() {
    let cfg = shared_cfg();
    let clients = vec![
        client("0x1", "google-chrome-ai", "ИИ", "2", &["app:chrome-ai#1", "ws:surf", "ws:work"]),
        client("0x2", "chromium", "Новости", "1", &["app:chromium#1", "ws:work", "ws:gone"]),
        client("0x3", "wezterm-herdr", "herdr · dev-lab", "1", &["app:herdr#1", "ws:work"]),
        client("0x4", "firefox", "Видео", "4", &["ws:work"]),
    ];
    let stale = stale_ws_tags(&cfg, &clients);
    assert_eq!(stale, vec![("0x1".to_string(), "work".to_string()), ("0x2".to_string(), "gone".to_string()), ("0x4".to_string(), "work".to_string())]);
    let mut extra: Table<Table<ExtraApp>> = Table::new();
    extra.put_nested("work", "chrome-ai".into(), ExtraApp::default());
    let (merged, _) = merge_extra(&cfg, &extra);
    assert!(!stale_ws_tags(&merged, &clients).iter().any(|(a, _)| a == "0x1"));
}

#[test]
fn membership_is_derived_for_old_windows() {
    let cfg = shared_cfg();
    let mut st = State::default();
    st.desktops.insert(1, Desktop { workspaces: vec!["surf".into(), "work".into()], active: Some("work".into()) });
    st.desktops.insert(3, Desktop { workspaces: vec!["dev-back".into()], active: None });
    let clients = vec![
        client("0x1", "chromium", "Новости", "1", &["app:chromium#1"]),
        client("0x2", "google-chrome-ai", "ИИ", "special:pool", &["app:chrome-ai#1"]),
        client("0x3", "neovide", "[Scratch]", "4", &["app:neovide#1"]),
        client("0x4", "neovide", "[Scratch]", "1", &["app:neovide#2", "ws:work"]),
        client("0x5", "neovide", "[Scratch]", "special:hidden", &["app:neovide#3"]),
        client("0x6", "firefox", "Видео", "1", &[]),
        client("0x7", "google-chrome-ai", "ИИ", "1", &["app:chrome-ai#2"]),
    ];
    let got = derive_membership(&cfg, &st, &clients);
    let p = |a: &str, w: &str| (a.to_string(), w.to_string());
    assert_eq!(got, vec![p("0x1", "work"), p("0x2", "dev-back"), p("0x2", "surf")]);
}

#[test]
fn window_home_rules() {
    let m = |v: &[&str]| v.iter().map(|x| x.to_string()).collect::<Vec<String>>();
    let d = desks(&[(1, "work"), (2, "surf"), (4, "chat")]);
    assert_eq!(window_home(&m(&["surf", "work"]), &d, 1, Spot::Desktop(2)), Home::Desktop(1));
    assert_eq!(window_home(&m(&["surf", "work"]), &d, 2, Spot::Desktop(1)), Home::Desktop(2));
    assert_eq!(window_home(&m(&["surf", "work"]), &d, 4, Spot::Desktop(2)), Home::Desktop(2));
    assert_eq!(window_home(&m(&["surf", "work"]), &d, 4, Spot::Pool), Home::Desktop(1));
    assert_eq!(window_home(&m(&["surf"]), &d, 5, Spot::Desktop(1)), Home::Desktop(2));
    assert_eq!(window_home(&m(&["dev-back"]), &d, 1, Spot::Desktop(1)), Home::Pool);
    assert_eq!(window_home(&m(&["work"]), &d, 1, Spot::Hidden), Home::Keep);
}

#[test]
fn raise_shares_windows_only_when_missing() {
    let cfg = shared_cfg();
    let apps: Vec<String> = vec!["chrome-ai".into(), "neovide".into()];
    let clients = vec![
        client("0x1", "google-chrome-ai", "ИИ", "2", &["app:chrome-ai#1", "ws:surf"]),
        client("0x2", "neovide", "[Scratch]", "1", &["app:neovide#1", "ws:work"]),
        client("0x3", "neovide", "[Scratch]", "5", &["app:neovide#2", "ws:dev-back"]),
        client("0x4", "google-chrome-ai", "ИИ", "special:hidden", &["app:chrome-ai#2", "ws:surf"]),
    ];
    assert_eq!(share_plan(&cfg, &clients, "dev-back", &apps), vec![(0, "chrome-ai".to_string())]);
    let hidden = vec![client("0x4", "google-chrome-ai", "ИИ", "special:hidden", &["app:chrome-ai#2", "ws:dev-back"]), clients[0].clone()];
    assert!(share_plan(&cfg, &hidden, "dev-back", &["chrome-ai".to_string()]).is_empty());
    let free = vec![client("0x5", "google-chrome-ai", "ИИ", "4", &["app:chrome-ai#1"])];
    assert!(share_plan(&cfg, &free, "dev-back", &["chrome-ai".to_string()]).is_empty());
}

#[test]
fn displaced_shared_window_goes_to_its_other_desktop() {
    let after = desks(&[(1, "chat"), (3, "dev-back")]);
    let shared = client("0x1", "google-chrome-ai", "ИИ", "1", &["app:chrome-ai#1", "ws:work", "ws:dev-back"]);
    assert_eq!(window_home(&shared.workspaces(), &after, 1, Spot::of(&shared)), Home::Desktop(3));
    let own = client("0x2", "chromium", "Новости", "1", &["app:chromium#1", "ws:work"]);
    assert_eq!(window_home(&own.workspaces(), &after, 1, Spot::of(&own)), Home::Pool);
    let cfg = shared_cfg();
    let mut st = State::default();
    assert_eq!(arrive_rect(&mut st, &cfg, "dev-back", &shared), Some(PxRect { x: 1125, y: 10, w: 1920, h: 2140 }));
    assert_eq!(arrive_rect(&mut st, &cfg, "dev-back", &own), None);
}

#[test]
fn shared_window_arrives_into_raised_workspace() {
    let shared = client("0x1", "google-chrome-ai", "ИИ", "1", &["app:chrome-ai#1", "ws:surf", "ws:work"]);
    assert!(arrives(&shared, 1, &desks(&[(1, "work")]), "surf"));
    assert!(!arrives(&shared, 1, &desks(&[(1, "surf")]), "surf"));
    assert!(arrives(&shared, 2, &desks(&[(2, "surf")]), "surf"));
    let own = client("0x2", "google-chrome", "Новости", "1", &["app:chrome#1", "ws:surf"]);
    assert!(!arrives(&own, 1, &desks(&[(1, "work")]), "surf"));
    let kept = PxRect { x: 1700, y: 60, w: 1920, h: 2140 };
    let cell = PxRect { x: 1910, y: 10, w: 1920, h: 2140 };
    assert_eq!(raise_target(false, true, Some(kept), Some(cell), shared.rect()), Some(kept));
    assert_eq!(raise_target(false, false, Some(kept), Some(cell), shared.rect()), None);
}

#[test]
fn follow_plan_moves_shared_windows() {
    let cfg = shared_cfg();
    let mut st = State::default();
    st.desktops.insert(1, Desktop { workspaces: vec!["work".into()], active: Some("work".into()) });
    st.desktops.insert(2, Desktop { workspaces: vec!["surf".into()], active: Some("surf".into()) });
    st.extra.put_nested("work", "chrome-ai".into(), ExtraApp { rect: PxRect { x: 1000, y: 500, w: 1920, h: 1080 }, ..ExtraApp::default() });
    let (cfg, _) = merge_extra(&cfg, &st.extra);
    let moved = PxRect { x: 1900, y: 100, w: 1920, h: 2000 };
    let mut ai = client("0x1", "google-chrome-ai", "ИИ", "2", &["app:chrome-ai#1", "ws:surf", "ws:work"]);
    ai.at = (moved.x, moved.y);
    ai.size = (moved.w, moved.h);
    let clients = vec![
        ai.clone(),
        client("0x2", "chromium", "Новости", "1", &["app:chromium#1", "ws:work"]),
        client("0x3", "neovide", "[Scratch]", "special:hidden", &["app:neovide#1", "ws:work"]),
    ];
    let plan = follow_plan(&mut st, &cfg, &clients, 1);
    assert_eq!(plan, vec![Follow { addr: "0x1".into(), rect: Some(PxRect { x: 1000, y: 500, w: 1920, h: 1080 }), now: moved }]);
    assert_eq!(*st.geom.nested("surf", "0x1").unwrap(), moved);
    let kept = PxRect { x: 300, y: 200, w: 1500, h: 1200 };
    let mut st2 = State { desktops: st.desktops.clone(), ..State::default() };
    st2.geom.put_nested("work", "0x1".into(), kept);
    assert_eq!(follow_plan(&mut st2, &cfg, &clients, 1)[0].rect, Some(kept));
    let mut back = ai.clone();
    back.workspace.name = "1".into();
    let plan = follow_plan(&mut st, &cfg, std::slice::from_ref(&back), 2);
    assert_eq!(plan.len(), 1);
    assert_eq!(plan[0].rect, Some(moved));
    assert!(follow_plan(&mut st, &cfg, &clients, 5).is_empty());
    st.desktops.insert(4, Desktop { workspaces: vec!["chat".into()], active: Some("chat".into()) });
    assert!(follow_plan(&mut st, &cfg, &clients, 4).is_empty());
}

#[test]
fn follow_plan_absorbs_leaving_workspace() {
    let cfg = shared_cfg();
    let mut st = State::default();
    st.desktops.insert(1, Desktop { workspaces: vec!["work".into()], active: Some("work".into()) });
    st.desktops.insert(2, Desktop { workspaces: vec!["surf".into()], active: Some("surf".into()) });
    let record = PxRect { x: 960, y: 540, w: 1920, h: 1080 };
    st.extra.put_nested("work", "chrome-ai".into(), ExtraApp { rect: record, ..ExtraApp::default() });
    let (cfg, _) = merge_extra(&cfg, &st.extra);
    let r = PxRect { x: 400, y: 300, w: 1400, h: 1000 };
    let mut ai = client("0x1", "google-chrome-ai", "ИИ", "1", &["app:chrome-ai#1", "ws:surf", "ws:work"]);
    ai.at = (r.x, r.y);
    ai.size = (r.w, r.h);
    let plan = follow_plan(&mut st, &cfg, std::slice::from_ref(&ai), 2);
    assert_eq!(plan.len(), 1);
    assert_eq!(*st.moved.nested("work", "chrome-ai").unwrap(), Moved { rect: r, owner: Some("0x1".into()) });
    assert_eq!(*st.geom.nested("work", "0x1").unwrap(), r);
    let mut on_two = ai.clone();
    on_two.workspace.name = "2".into();
    on_two.at = (1910, 10);
    let plan = follow_plan(&mut st, &cfg, std::slice::from_ref(&on_two), 1);
    assert_eq!(plan[0].rect, Some(r));
    assert_eq!(st.moved.nested("work", "chrome-ai").unwrap().rect, r);
}

#[test]
fn absorb_takes_first_instance_on_its_desktop() {
    let cfg = parse(CFG).unwrap();
    let mut st = State::default();
    let at = |mut c: Client, r: PxRect| {
        c.at = (r.x, r.y);
        c.size = (r.w, r.h);
        c
    };
    let center = PxRect { x: 1125, y: 10, w: 1920, h: 2140 };
    let moved = PxRect { x: 100, y: 200, w: 800, h: 600 };
    let other = PxRect { x: 500, y: 500, w: 700, h: 700 };
    let mut full = at(client("0x5", "neovide", "[Scratch]", "1", &["app:neovide#1", "ws:work"]), PxRect { x: 0, y: 0, w: 3840, h: 2160 });
    full.fullscreen = 2;
    let clients = vec![
        at(client("0x2", "chromium", "Почта", "1", &["app:chromium#2", "ws:work"]), other),
        at(client("0x1", "chromium", "Новости", "1", &["app:chromium#1", "ws:work"]), moved),
        at(client("0x3", "wezterm-herdr", "herdr · dev-lab", "1", &["app:herdr#1", "ws:work"]), center),
        full,
    ];
    let a = absorb_plan(&cfg, &mut st, "work", 1, &clients);
    let moved_of = |app: &str| a.moved.iter().find(|(x, _)| x == app).map(|(_, m)| m.clone());
    assert_eq!(moved_of("chromium"), Some(Some(Moved { rect: moved, owner: Some("0x1".into()) })));
    assert_eq!(moved_of("herdr"), Some(None));
    assert_eq!(moved_of("neovide"), None);
    assert_eq!(a.geom.len(), 3);
    assert!(!a.geom.iter().any(|(x, _)| x == "0x5"));
    let away = vec![at(client("0x1", "chromium", "Новости", "2", &["app:chromium#1", "ws:work"]), moved), at(client("0x2", "chromium", "Почта", "special:pool", &["app:chromium#2", "ws:work"]), other)];
    assert_eq!(absorb_plan(&cfg, &mut st, "work", 1, &away), Absorb::default());
    let split = vec![at(client("0x1", "chromium", "Новости", "2", &["app:chromium#1", "ws:work"]), moved), at(client("0x2", "chromium", "Почта", "1", &["app:chromium#2", "ws:work"]), other)];
    let a = absorb_plan(&cfg, &mut st, "work", 1, &split);
    assert_eq!(a.moved, vec![("chromium".to_string(), Some(Moved { rect: other, owner: Some("0x2".into()) }))]);
    let fam = parse(&CFG.replace("main = \"herdr\"\napps = { herdr = \"center\", chromium = \"left\", neovide = \"right\" }", "main = \"wezterm\"\napps = { wezterm = \"center\", chromium = \"left\", neovide = \"right\" }")).unwrap();
    let mut st = State::default();
    let wins = vec![at(client("0x3", "wezterm-herdr", "herdr · dev-lab", "1", &["app:herdr#1", "ws:work"]), moved)];
    let a = absorb_plan(&fam, &mut st, "work", 1, &wins);
    assert_eq!(a.moved, vec![("wezterm".to_string(), Some(Moved { rect: moved, owner: Some("0x3".into()) }))]);
    st.desktops.insert(1, Desktop { workspaces: vec!["work".into()], active: Some("work".into()) });
    absorb_into(&fam, &mut st, "work", 2, &wins);
    assert!(st.moved.is_empty());
    absorb_into(&fam, &mut st, "work", 1, &wins);
    assert_eq!(st.moved.nested("work", "wezterm").unwrap().rect, moved);
    assert_eq!(st.rect_for(&fam, "work", "herdr"), Some(moved));
    let back = vec![at(client("0x3", "wezterm-herdr", "herdr · dev-lab", "1", &["app:herdr#1", "ws:work"]), center)];
    absorb_into(&fam, &mut st, "work", 1, &back);
    assert!(st.moved.is_empty());
}

#[test]
fn app_route_cases() {
    let cfg = shared_cfg();
    let mut d: BTreeMap<u8, Desktop> = BTreeMap::new();
    d.insert(1, Desktop { workspaces: vec!["chat".into(), "work".into()], active: Some("work".into()) });
    d.insert(2, Desktop { workspaces: vec!["surf".into()], active: Some("surf".into()) });
    let a = |v: &str| vec![v.to_string()];
    let s = |v: &str| v.to_string();
    assert_eq!(app_route(&cfg, &d, 1, &a("chromium"), false, &[]), AppRoute::Cycle { ws: s("work"), app: s("chromium") });
    assert_eq!(app_route(&cfg, &d, 1, &a("chromium"), true, &[]), AppRoute::Cycle { ws: s("work"), app: s("chromium") });
    assert_eq!(app_route(&cfg, &d, 1, &a("chrome-ai"), true, &[]), AppRoute::Pull { ws: s("work"), app: s("chrome-ai") });
    assert_eq!(app_route(&cfg, &d, 1, &a("calc"), false, &[]), AppRoute::Raise { ws: s("chat"), app: s("calc"), desktop: None });
    assert_eq!(app_route(&cfg, &d, 1, &a("chrome-ai"), false, &[]), AppRoute::Raise { ws: s("surf"), app: s("chrome-ai"), desktop: Some(2) });
    d.remove(&2);
    assert_eq!(app_route(&cfg, &d, 1, &a("chrome-ai"), false, &[]), AppRoute::Open { ws: s("work"), app: s("chrome-ai") });
    d.insert(4, Desktop::default());
    assert_eq!(app_route(&cfg, &d, 4, &a("chrome-ai"), false, &[]), AppRoute::Free { app: s("chrome-ai") });
    assert_eq!(app_route(&cfg, &d, 4, &a("chrome-ai"), true, &[]), AppRoute::Free { app: s("chrome-ai") });
}

fn overrides_cfg() -> Config {
    parse(&overrides_text()).unwrap()
}

fn overrides_text() -> String {
    CFG.replace("[apps.calc]", "[apps.chrome]\ncmd = \"chrome\"\nchain = \"SUPER+SHIFT+B\"\n\n[apps.chrome-ai]\ncmd = \"chrome\"\nchain = \"SUPER+SHIFT+V\"\n\n[apps.yandex]\ncmd = \"yandex\"\nchain = \"SUPER+SHIFT+Y\"\n\n[apps.calc]")
        .replace("[apps.herdr]\n", "[apps.herdr]\nchain = \"SUPER+T\"\n")
        + "\n[workspaces.surf]\ntemplate = \"thirds\"\nmode = \"stack\"\n[workspaces.surf.apps]\nchrome = { cell = \"left\", chain = \"SUPER+B\" }\nyandex = { cell = \"center\", chain = \"SUPER+Y\" }\nchrome-ai = { cell = \"right\", chain = \"SUPER+V\" }\n\n[workspaces.ai]\ntemplate = \"thirds\"\napps = { chrome-ai = \"center\" }\n"
}

fn family_cfg() -> Config {
    let text = CFG.replace("[apps.calc]", "[apps.chrome]\ncmd = \"chrome\"\nclass = \"^google-chrome$\"\nchain = \"SUPER+B\"\n\n[apps.chrome-ai]\nfamily = \"chrome\"\ncmd = \"chrome\"\nclass = \"^google-chrome-ai$\"\nchain = \"SUPER+V\"\n\n[apps.calc]")
        + "\n[workspaces.mix]\ntemplate = \"thirds\"\napps = { chrome = \"center\" }\n\n[workspaces.pair]\ntemplate = \"thirds\"\napps = { chrome = \"left\", chrome-ai = { cell = \"right\", mode = \"stack\" } }\n";
    parse(&text).unwrap()
}

fn desk(ws: &[&str], active: Option<&str>) -> Desktop {
    Desktop { workspaces: ws.iter().map(|w| w.to_string()).collect(), active: active.map(String::from) }
}

#[test]
fn key_route_cases() {
    let cfg = overrides_cfg();
    let s = |v: &str| v.to_string();
    let mut d: BTreeMap<u8, Desktop> = BTreeMap::new();
    d.insert(1, desk(&["work"], Some("work")));
    d.insert(2, desk(&["surf"], Some("surf")));
    assert_eq!(key_route(&cfg, &d, 2, "SUPER+V", &[]), Some(AppRoute::Cycle { ws: s("surf"), app: s("chrome-ai") }));
    assert_eq!(key_route(&cfg, &d, 2, "super+shift+v", &[]), Some(AppRoute::Cycle { ws: s("surf"), app: s("chrome-ai") }));
    assert_eq!(key_route(&cfg, &d, 1, "SUPER+T", &[s("chrome-ai")]), Some(AppRoute::Cycle { ws: s("work"), app: s("herdr") }));
    assert_eq!(key_route(&cfg, &d, 1, "SUPER+T", &[]), Some(AppRoute::Cycle { ws: s("work"), app: s("herdr") }));
    assert_eq!(key_route(&cfg, &d, 1, "SUPER+V", &[]), Some(AppRoute::Raise { ws: s("surf"), app: s("chrome-ai"), desktop: Some(2) }));
    assert_eq!(key_route(&cfg, &d, 1, "SUPER+SHIFT+V", &[]), Some(AppRoute::Pull { ws: s("work"), app: s("chrome-ai") }));
    assert_eq!(key_route(&cfg, &d, 1, "SUPER+SHIFT+Y", &[]), Some(AppRoute::Pull { ws: s("work"), app: s("yandex") }));
    d.insert(3, desk(&["ai"], Some("ai")));
    assert_eq!(key_route(&cfg, &d, 1, "SUPER+SHIFT+V", &[]), Some(AppRoute::Raise { ws: s("ai"), app: s("chrome-ai"), desktop: Some(3) }));
    d.remove(&3);
    d.insert(4, Desktop::default());
    assert_eq!(key_route(&cfg, &d, 4, "SUPER+V", &[]), Some(AppRoute::Raise { ws: s("surf"), app: s("chrome-ai"), desktop: Some(2) }));
    assert_eq!(key_route(&cfg, &d, 4, "SUPER+SHIFT+V", &[]), Some(AppRoute::Raise { ws: s("surf"), app: s("chrome-ai"), desktop: Some(2) }));
    d.remove(&2);
    assert_eq!(key_route(&cfg, &d, 1, "SUPER+V", &[]), Some(AppRoute::Open { ws: s("work"), app: s("chrome-ai") }));
    assert_eq!(key_route(&cfg, &d, 1, "SUPER+SHIFT+V", &[]), Some(AppRoute::Open { ws: s("work"), app: s("chrome-ai") }));
    assert_eq!(key_route(&cfg, &d, 4, "SUPER+V", &[]), Some(AppRoute::Free { app: s("chrome-ai") }));
    assert_eq!(key_route(&cfg, &d, 1, "SUPER+F12", &[]), None);

    let cfg = family_cfg();
    let mut d: BTreeMap<u8, Desktop> = BTreeMap::new();
    d.insert(1, desk(&["mix"], Some("mix")));
    d.insert(2, desk(&["pair"], Some("pair")));
    assert_eq!(key_route(&cfg, &d, 1, "SUPER+B", &[]), Some(AppRoute::Cycle { ws: s("mix"), app: s("chrome") }));
    assert_eq!(key_route(&cfg, &d, 1, "SUPER+V", &[]), Some(AppRoute::Cycle { ws: s("mix"), app: s("chrome-ai") }));
    assert_eq!(key_route(&cfg, &d, 2, "SUPER+B", &[]), Some(AppRoute::Cycle { ws: s("pair"), app: s("chrome") }));
    assert_eq!(key_route(&cfg, &d, 2, "SUPER+V", &[]), Some(AppRoute::Cycle { ws: s("pair"), app: s("chrome-ai") }));
    d.insert(3, desk(&["work"], Some("work")));
    d.remove(&2);
    assert_eq!(key_route(&cfg, &d, 3, "SUPER+V", &[]), Some(AppRoute::Raise { ws: s("mix"), app: s("chrome-ai"), desktop: Some(1) }));
}

#[test]
fn key_route_follows_window_in_active_ws() {
    let cfg = overrides_cfg();
    let s = |v: &str| v.to_string();
    let mut d: BTreeMap<u8, Desktop> = BTreeMap::new();
    d.insert(1, desk(&["work"], Some("work")));
    d.insert(2, desk(&["surf"], Some("surf")));
    let ai = [s("chrome-ai")];
    assert_eq!(key_route(&cfg, &d, 1, "SUPER+V", &ai), Some(AppRoute::Cycle { ws: s("work"), app: s("chrome-ai") }));
    assert_eq!(key_route(&cfg, &d, 1, "SUPER+SHIFT+V", &ai), Some(AppRoute::Cycle { ws: s("work"), app: s("chrome-ai") }));
    assert_eq!(key_route(&cfg, &d, 1, "SUPER+V", &[s("herdr")]), Some(AppRoute::Raise { ws: s("surf"), app: s("chrome-ai"), desktop: Some(2) }));
    assert_eq!(key_route(&cfg, &d, 1, "SUPER+SHIFT+V", &[]), Some(AppRoute::Pull { ws: s("work"), app: s("chrome-ai") }));
    assert_eq!(key_route(&cfg, &d, 1, "SUPER+B", &ai), Some(AppRoute::Raise { ws: s("surf"), app: s("chrome"), desktop: Some(2) }));

    let text = format!(
        "{}\n[workspaces.web]\ntemplate = \"thirds\"\napps = {{ chrome = {{ cell = \"left\", chain = \"SUPER+V\" }} }}\n\n[workspaces.both]\ntemplate = \"thirds\"\n[workspaces.both.apps]\nyandex = \"left\"\nchrome-ai = \"center\"\nchrome = \"right\"\n",
        overrides_text()
    );
    let cfg = parse(&text).unwrap();
    assert_eq!(cfg.key_candidates("SUPER+V"), vec![s("chrome"), s("chrome-ai")]);
    d.insert(3, desk(&["both"], Some("both")));
    assert_eq!(key_route(&cfg, &d, 3, "SUPER+V", &[]), Some(AppRoute::Cycle { ws: s("both"), app: s("chrome-ai") }));
    assert_eq!(key_route(&cfg, &d, 1, "SUPER+V", &[s("chrome-ai"), s("chrome")]), Some(AppRoute::Cycle { ws: s("work"), app: s("chrome") }));
    assert_eq!(key_route(&cfg, &d, 1, "SUPER+V", &ai), Some(AppRoute::Cycle { ws: s("work"), app: s("chrome-ai") }));
    assert_eq!(key_route(&cfg, &d, 1, "SUPER+V", &[]), Some(AppRoute::Raise { ws: s("surf"), app: s("chrome-ai"), desktop: Some(2) }));
}

#[test]
fn family_key_cycles_variant_windows() {
    let cfg = family_cfg();
    let clients = vec![
        client("0x1", "google-chrome", "A", "1", &["app:chrome#1", "ws:mix"]),
        client("0x2", "google-chrome-ai", "B", "1", &["app:chrome-ai#1", "ws:mix"]),
        client("0x3", "google-chrome", "C", "1", &["app:chrome#2", "ws:mix"]),
    ];
    let addrs = |v: Vec<&Client>| v.into_iter().map(|c| c.address.clone()).collect::<Vec<_>>();
    let mix: Vec<String> = cfg.workspaces.get("mix").unwrap().apps.keys().cloned().collect();
    assert_eq!(addrs(placed_windows(&cfg, &clients, "mix", &mix, "chrome")), vec!["0x1", "0x2", "0x3"]);
    assert_eq!(addrs(placed_windows(&cfg, &clients, "mix", &mix, "chrome-ai")), vec!["0x2"]);
    let pair_clients: Vec<Client> = clients
        .iter()
        .map(|c| {
            let mut c = c.clone();
            c.tags = c.tags.iter().map(|t| t.replace("ws:mix", "ws:pair")).collect();
            c
        })
        .collect();
    let pair: Vec<String> = cfg.workspaces.get("pair").unwrap().apps.keys().cloned().collect();
    assert_eq!(addrs(placed_windows(&cfg, &pair_clients, "pair", &pair, "chrome")), vec!["0x1", "0x3"]);
    assert_eq!(addrs(placed_windows(&cfg, &pair_clients, "pair", &pair, "chrome-ai")), vec!["0x2"]);
    assert_eq!(cycle_mode(&cfg, "mix", "chrome-ai"), (Mode::Swap, "chrome".to_string()));
    assert_eq!(cycle_mode(&cfg, "pair", "chrome-ai"), (Mode::Stack, "chrome-ai".to_string()));
    assert_eq!(cycle_mode(&cfg, "pair", "chrome"), (Mode::Swap, "chrome".to_string()));
}

#[test]
fn app_route_follows_own_key() {
    let cfg = overrides_cfg();
    let s = |v: &str| v.to_string();
    let a = |v: &str| vec![v.to_string()];
    let mut d: BTreeMap<u8, Desktop> = BTreeMap::new();
    d.insert(1, desk(&["work"], Some("work")));
    d.insert(2, desk(&["surf"], Some("surf")));
    assert_eq!(app_route(&cfg, &d, 1, &a("chrome-ai"), false, &[]), AppRoute::Pull { ws: s("work"), app: s("chrome-ai") });
    assert_eq!(app_route(&cfg, &d, 2, &a("chrome-ai"), false, &[]), AppRoute::Cycle { ws: s("surf"), app: s("chrome-ai") });
    assert_eq!(app_route(&cfg, &d, 1, &a("chrome-ai"), false, &a("chrome-ai")), AppRoute::Cycle { ws: s("work"), app: s("chrome-ai") });
    assert_eq!(app_route(&cfg, &d, 1, &a("chrome-ai"), true, &a("chrome-ai")), AppRoute::Pull { ws: s("work"), app: s("chrome-ai") });
    d.insert(3, desk(&["ai"], Some("ai")));
    assert_eq!(app_route(&cfg, &d, 1, &a("chrome-ai"), false, &[]), AppRoute::Raise { ws: s("ai"), app: s("chrome-ai"), desktop: Some(3) });
    assert_eq!(app_route(&cfg, &d, 1, &[s("yandex"), s("herdr")], false, &[]), AppRoute::Cycle { ws: s("work"), app: s("herdr") });
    assert_eq!(app_route(&cfg, &d, 1, &[s("yandex"), s("chrome-ai")], false, &[]), AppRoute::Raise { ws: s("ai"), app: s("chrome-ai"), desktop: Some(3) });
}

#[test]
fn cycle_mode_of_app() {
    let text = format!("{CFG}\n[workspaces.dev]\ntemplate = \"thirds\"\nmain = \"herdr\"\n[workspaces.dev.apps]\nherdr = \"center\"\nchromium = {{ cell = \"left\", mode = \"stack\" }}\nneovide = \"right\"\ncalc = {{ rect = {{ x = 2600, y = 1500, w = 600, h = 400 }} }}\n");
    let cfg = parse(&text).unwrap();
    assert_eq!(cycle_mode(&cfg, "dev", "calc"), (Mode::Swap, "calc".to_string()));
    let stack = parse(&text.replace("calc = { rect = { x = 2600, y = 1500, w = 600, h = 400 } }", "calc = { rect = { x = 2600, y = 1500, w = 600, h = 400 }, mode = \"stack\" }")).unwrap();
    assert_eq!(cycle_mode(&stack, "dev", "calc"), (Mode::Stack, "calc".to_string()));
    assert_eq!(cycle_mode(&cfg, "dev", "chromium"), (Mode::Stack, "chromium".to_string()));
    assert_eq!(cycle_mode(&cfg, "dev", "neovide"), (Mode::Swap, "neovide".to_string()));
    assert_eq!(cycle_mode(&cfg, "dev", "chromium-mail"), (Mode::Stack, "chromium".to_string()));
    assert_eq!(cycle_mode(&cfg, "work", "herdr"), (Mode::Swap, "herdr".to_string()));
    let swap = text.replace("calc = { rect = { x = 2600, y = 1500, w = 600, h = 400 } }", "calc = { rect = { x = 2600, y = 1500, w = 600, h = 400 }, mode = \"swap\" }");
    let cfg = parse(&swap).unwrap();
    assert_eq!(cycle_mode(&cfg, "dev", "calc"), (Mode::Swap, "calc".to_string()));
    let mut st = State::default();
    let main = st.main_app(&cfg, "dev");
    assert_eq!(main.as_deref(), Some("herdr"));
    swap_places(&mut st, "dev", main.as_deref(), "calc", "center", true, true);
    assert_eq!(st.main_app(&cfg, "dev").as_deref(), Some("calc"));
    assert_eq!(st.rect_for(&cfg, "dev", "herdr"), Some(PxRect { x: 2600, y: 1500, w: 600, h: 400 }));
    assert_eq!(st.rect_for(&cfg, "dev", "calc"), Some(PxRect { x: 1125, y: 10, w: 1920, h: 2140 }));
}

#[test]
fn pull_record_kind() {
    let cfg = shared_cfg();
    let r = PxRect { x: 960, y: 540, w: 1920, h: 1080 };
    let mut extra: Table<Table<ExtraApp>> = Table::new();
    assert_eq!(share_record(&cfg, &extra, "chrome-ai", r), Some(ExtraApp { rect: r, ..ExtraApp::default() }));
    let full = ExtraApp { class: Some("Alacritty".into()), cmd: vec!["/usr/bin/alacritty".into()], cwd: Some("/home/mne".into()), rect: PxRect::default() };
    extra.put_nested("work", "alacritty".into(), full.clone());
    assert_eq!(share_record(&cfg, &extra, "alacritty", r), Some(ExtraApp { rect: r, ..full }));
    assert_eq!(share_record(&cfg, &extra, "nothing", r), None);
}

#[test]
fn successor_keeps_shared_window_with_user() {
    let after = desks(&[(1, "surf"), (5, "work")]);
    let shared = client("0x1", "google-chrome-ai", "ИИ", "5", &["app:chrome-ai#1", "ws:surf", "ws:work"]);
    assert_eq!(window_home(&shared.workspaces(), &after, 5, Spot::of(&shared)), Home::Desktop(5));
    let own = client("0x2", "google-chrome", "Новости", "special:pool", &["app:chrome#1", "ws:surf"]);
    assert_eq!(window_home(&own.workspaces(), &after, 5, Spot::of(&own)), Home::Desktop(1));
    assert_eq!(window_home(&shared.workspaces(), &after, 1, Spot::of(&shared)), Home::Desktop(1));
}

#[test]
fn matcher_fits_by_class_and_title() {
    let class_re = Pattern::new("^(?:(?i)^google-chrome$)$").unwrap();
    let title_re = Pattern::new("^herdr · ").unwrap();
    let chrome = client("0x1", "google-chrome", "Новая вкладка", "2", &[]);
    let term = client("0x2", "org.wezfurlong.wezterm", "herdr · dev-lab", "1", &[]);
    let other = client("0x3", "org.wezfurlong.wezterm", "bash · mne", "1", &[]);
    assert!(matcher_fits(Some(&class_re), None, &chrome));
    assert!(!matcher_fits(Some(&class_re), None, &term));
    let wez = Pattern::new("^org\\.wezfurlong\\.wezterm$").unwrap();
    assert!(matcher_fits(Some(&wez), Some(&title_re), &term));
    assert!(!matcher_fits(Some(&wez), Some(&title_re), &other));
    assert!(!matcher_fits(None, Some(&title_re), &term));
}

#[test]
fn instance_numbers_fill_gaps() {
    assert_eq!(free_number(&[]), 1);
    assert_eq!(free_number(&[1, 2]), 3);
    assert_eq!(free_number(&[2, 3]), 1);
    assert_eq!(free_number(&[1, 3]), 2);
    let clients = vec![
        client("0x1", "chromium", "Новости", "1", &["app:chromium#2"]),
        client("0x2", "neovide", "[Scratch]", "1", &["app:neovide"]),
    ];
    assert_eq!(free_instance(&clients, "chromium"), 1);
    assert_eq!(free_instance(&clients, "neovide"), 2);
    assert_eq!(free_instance(&clients, "herdr"), 1);
}

#[test]
fn app_windows_by_instance_and_family() {
    let cfg = parse(CFG).unwrap();
    let clients = vec![
        client("0x1", "chromium", "Новости", "1", &["app:chromium#2"]),
        client("0x2", "chromium", "Gmail — Входящие", "1", &["app:chromium-mail#1"]),
        client("0x3", "chromium", "Документы", "1", &["app:chromium#1"]),
        client("0x4", "org.wezfurlong.wezterm", "bash · mne", "1", &["app:wezterm#1"]),
        client("0x5", "wezterm-herdr", "herdr · dev-lab", "1", &["app:herdr#1"]),
    ];
    let addrs = |app: &str| app_windows(&cfg, &clients, app).iter().map(|c| c.address.clone()).collect::<Vec<_>>();
    assert_eq!(addrs("chromium"), vec!["0x3", "0x2", "0x1"]);
    assert_eq!(addrs("chromium-mail"), vec!["0x2"]);
    assert_eq!(addrs("wezterm"), vec!["0x5", "0x4"]);
    assert_eq!(addrs("neovide"), Vec::<String>::new());
    assert_eq!(first_window(&cfg, &clients, "chromium").map(|c| c.address.clone()), Some("0x3".to_string()));
}

#[test]
fn variant_window_is_placed_by_its_own_entry() {
    let cfg = parse(CFG).unwrap();
    let clients = vec![
        client("0x1", "chromium", "Новости", "1", &["app:chromium#1", "ws:work"]),
        client("0x2", "chromium", "Gmail — Входящие", "1", &["app:chromium-mail#1", "ws:work"]),
        client("0x3", "chromium", "Документы", "1", &["app:chromium#2", "ws:dev-front"]),
    ];
    let addrs = |apps: &[String], app: &str| placed_windows(&cfg, &clients, "work", apps, app).iter().map(|c| c.address.clone()).collect::<Vec<_>>();
    let both = ["chromium".to_string(), "chromium-mail".to_string()];
    assert_eq!(addrs(&both, "chromium"), vec!["0x1"]);
    assert_eq!(addrs(&both, "chromium-mail"), vec!["0x2"]);
    let only_family = ["chromium".to_string()];
    assert_eq!(addrs(&only_family, "chromium"), vec!["0x1", "0x2"]);
}

#[test]
fn adopt_plan_takes_all_fitting_windows() {
    let cfg = parse(CFG).unwrap();
    let apps: Vec<String> = ["herdr".to_string(), "chromium".to_string(), "neovide".to_string()].into();
    let clients = vec![
        client("0x1", "chromium", "Новости", "1", &[]),
        client("0x2", "Chromium-browser", "Документы", "special:pool", &[]),
        client("0x3", "chromium", "Почта", "3", &[]),
        client("0x4", "chromium", "Скрытое", "special:hidden", &[]),
        client("0x5", "neovide", "[Scratch]", "1", &["app:neovide#1"]),
    ];
    let plan = triples(adopt_plan(&cfg, &clients, &apps, false).unwrap());
    assert_eq!(plan, vec![(0, "chromium".to_string(), 1), (2, "chromium".to_string(), 2), (1, "chromium".to_string(), 3)]);

    let with_window = vec![client("0x1", "chromium", "Новости", "1", &["app:chromium#1"]), client("0x2", "chromium", "Документы", "1", &[])];
    let plan = triples(adopt_plan(&cfg, &with_window, &apps, false).unwrap());
    assert_eq!(plan, vec![(1, "chromium".to_string(), 2)]);

    let stale = vec![client("0x1", "neovide", "[Scratch]", "1", &["app:editor-dots#1"])];
    assert_eq!(triples(adopt_plan(&cfg, &stale, &apps, false).unwrap()), vec![(0, "neovide".to_string(), 1)]);
}

#[test]
fn adopt_plan_prefers_variant_over_family() {
    let cfg = parse(CFG).unwrap();
    let clients = vec![client("0x1", "chromium", "Gmail — Входящие", "1", &[]), client("0x2", "chromium", "Новости", "1", &[])];
    let apps: Vec<String> = ["chromium".to_string(), "chromium-mail".to_string()].into();
    let plan = triples(adopt_plan(&cfg, &clients, &apps, false).unwrap());
    assert_eq!(plan, vec![(0, "chromium-mail".to_string(), 1), (1, "chromium".to_string(), 1)]);
    let plan = triples(adopt_plan(&cfg, &clients, &["chromium".to_string()], false).unwrap());
    assert_eq!(plan, vec![(0, "chromium-mail".to_string(), 1), (1, "chromium".to_string(), 1)]);
    let two = format!("{CFG}\n[apps.chromium-docs]\nfamily = \"chromium\"\ncmd = \"chromium\"\nclass = \"(?i)^chromium(-browser)?$\"\ntitle = \"Gmail\"\n");
    let cfg = parse(&two).unwrap();
    let plan = triples(adopt_plan(&cfg, &clients[..1], &["chromium".to_string()], false).unwrap());
    assert_eq!(plan, vec![(0, "chromium-docs".to_string(), 1)]);
}

#[test]
fn app_for_window_prefers_variant() {
    let cfg = parse(CFG).unwrap();
    let gmail = client("0x1", "chromium", "Gmail — Входящие", "1", &[]);
    let news = client("0x2", "chromium", "Новости", "1", &[]);
    let alien = client("0x3", "galculator", "Калькулятор", "1", &[]);
    assert_eq!(app_for_window(&cfg, &gmail).as_deref(), Some("chromium-mail"));
    assert_eq!(app_for_window(&cfg, &news).as_deref(), Some("chromium"));
    assert_eq!(app_for_window(&cfg, &alien), None);
}

#[test]
fn new_window_takes_the_place_of_its_app() {
    let cfg = parse(CFG).unwrap();
    let mut st = State::default();
    let left = Some(PxRect { x: -805, y: 10, w: 1920, h: 2140 });
    let own = Some(PxRect { x: 2600, y: 1500, w: 600, h: 400 });
    assert_eq!(open_rect(&mut st, &cfg, Some("work"), "chromium"), left);
    assert_eq!(open_rect(&mut st, &cfg, Some("work"), "chromium-mail"), left);
    assert_eq!(open_rect(&mut st, &cfg, Some("work"), "calc"), own);
    assert_eq!(open_rect(&mut st, &cfg, None, "calc"), own);
    assert_eq!(open_rect(&mut st, &cfg, Some("work"), "wezterm"), None);
    assert_eq!(open_rect(&mut st, &cfg, None, "chromium"), None);
    assert_eq!(open_rect(&mut st, &cfg, Some("нет-такого"), "chromium"), None);
    swap_places(&mut st, "work", Some("herdr"), "chromium", "center", true, true);
    assert_eq!(open_rect(&mut st, &cfg, Some("work"), "chromium"), Some(PxRect { x: 1125, y: 10, w: 1920, h: 2140 }));
    let moved = PxRect { x: 100, y: 200, w: 800, h: 600 };
    st.moved.put_nested("work", "chromium".into(), Moved { rect: moved, owner: None });
    assert_eq!(open_rect(&mut st, &cfg, Some("work"), "chromium"), Some(moved));
}

#[test]
fn stale_tags_are_freed_only_for_unknown_apps() {
    let cfg = parse(CFG).unwrap();
    let live = client("0x1", "chromium", "Новости", "1", &["app:chromium#1"]);
    let variant = client("0x2", "wezterm-herdr", "herdr · dev-lab", "1", &["app:herdr#1"]);
    let gone = client("0x3", "Alacritty", "bash", "1", &["app:alacritty#1"]);
    let gone_old = client("0x4", "Galculator", "Калькулятор", "1", &["app:galculator"]);
    let free = client("0x5", "Galculator", "Калькулятор", "1", &["pin:1"]);
    let clients = vec![live, variant, gone, gone_old, free];

    let addrs = |cfg: &Config| stale_tagged(cfg, &clients).iter().map(|c| c.address.clone()).collect::<Vec<_>>();
    assert_eq!(addrs(&cfg), vec!["0x3".to_string(), "0x4".to_string()]);

    let rect = PxRect { x: 100, y: 200, w: 800, h: 600 };
    let mut extra: Table<Table<ExtraApp>> = Table::new();
    extra.put_nested("work", "galculator".into(), ExtraApp { class: Some("Galculator".into()), cmd: vec!["galculator".into()], cwd: None, rect });
    let (eff, dropped) = merge_extra(&cfg, &extra);
    assert!(dropped.is_empty());
    assert_eq!(addrs(&eff), vec!["0x3".to_string()]);
}

#[test]
fn flatpak_app_id_from_cgroup() {
    let postman = "0::/user.slice/user-1000.slice/user@1000.service/app.slice/app-flatpak-com.getpostman.Postman-1890165170.scope\n";
    assert_eq!(flatpak_app_id(postman).as_deref(), Some("com.getpostman.Postman"));
    let plain = "0::/user.slice/user-1000.slice/user@1000.service/app.slice/workspaced.service\n";
    assert_eq!(flatpak_app_id(plain), None);
    assert_eq!(flatpak_app_id(""), None);
    let escaped = r"0::/user.slice/app-flatpak-com\x2egetpostman\x2ePostman-17.scope";
    assert_eq!(flatpak_app_id(escaped).as_deref(), Some("com.getpostman.Postman"));
    let dashed = "0::/app.slice/app-flatpak-org.gnome.gedit-tools-42.scope";
    assert_eq!(flatpak_app_id(dashed).as_deref(), Some("org.gnome.gedit-tools"));
}

#[test]
fn stale_pending_is_dropped_only_for_unknown_apps() {
    let cfg = parse(CFG).unwrap();
    let apps = ["chromium".to_string(), "herdr".to_string(), "failtest".to_string()];
    assert_eq!(stale_pending(&cfg, &apps), vec!["failtest".to_string()]);

    let rect = PxRect { x: 100, y: 200, w: 800, h: 600 };
    let mut extra: Table<Table<ExtraApp>> = Table::new();
    extra.put_nested("work", "galculator".into(), ExtraApp { class: Some("Galculator".into()), cmd: vec!["galculator".into()], cwd: None, rect });
    let (eff, dropped) = merge_extra(&cfg, &extra);
    assert!(dropped.is_empty());
    let apps = ["galculator".to_string(), "failtest".to_string()];
    assert_eq!(stale_pending(&eff, &apps), vec!["failtest".to_string()]);
    assert!(stale_pending(&cfg, &["neovide".to_string()]).is_empty());
}

#[test]
fn merge_extra_adds_apps_and_drops_shadowed() {
    let cfg = parse(CFG).unwrap();
    let rect = PxRect { x: 100, y: 200, w: 800, h: 600 };
    let full = ExtraApp { class: Some("Galculator".into()), cmd: vec!["galculator".into()], cwd: None, rect };
    let place_only = ExtraApp { rect, ..ExtraApp::default() };
    let mut extra: Table<Table<ExtraApp>> = Table::new();
    extra.put_nested("work", "galculator".into(), full.clone());
    extra.put_nested("work", "chromium-mail".into(), place_only.clone());
    let (eff, dropped) = merge_extra(&cfg, &extra);
    assert!(dropped.is_empty());
    assert_eq!(eff.apps.get("galculator").unwrap().cmd.as_deref(), Some("galculator"));
    assert_eq!(eff.workspaces.get("work").unwrap().apps["galculator"].place, Placement::Rect { rect: rect.to_rect() });
    assert_eq!(eff.apps.get("chromium-mail").unwrap().title.as_deref(), Some("^Gmail"));
    assert_eq!(eff.workspaces.get("work").unwrap().apps["chromium-mail"].place, Placement::Rect { rect: rect.to_rect() });
    assert!(!cfg.apps.contains_key("galculator"));
    assert!(!cfg.workspaces.get("work").unwrap().apps.contains_key("galculator"));

    let mut extra: Table<Table<ExtraApp>> = Table::new();
    extra.put_nested("work", "chromium".into(), full);
    extra.put_nested("work", "keepassxc".into(), place_only.clone());
    extra.put_nested("notes", "galculator".into(), place_only.clone());
    let (eff, dropped) = merge_extra(&cfg, &extra);
    let mut names: Vec<&str> = dropped.iter().map(|(_, n, _)| n.as_str()).collect();
    names.sort_unstable();
    assert_eq!(names, vec!["chromium", "galculator", "keepassxc"]);
    assert_eq!(eff.apps.get("chromium").unwrap().cmd.as_deref(), Some("chromium"));
    assert!(!eff.workspaces.get("work").unwrap().apps.contains_key("keepassxc"));

    let mut extra: Table<Table<ExtraApp>> = Table::new();
    extra.put_nested("work", "herdr".into(), place_only);
    let (eff, dropped) = merge_extra(&cfg, &extra);
    assert_eq!(dropped.len(), 1);
    assert_eq!(eff.workspaces.get("work").unwrap().apps["herdr"].place, Placement::Cell("center".into()));
}

#[test]
fn keep_layout_resets_changed_workspace() {
    let cfg = parse(CFG).unwrap();
    let changed = parse(&CFG.replace("neovide = \"right\"", "neovide = { rect = { x = 0, y = 0, w = 10, h = 10 } }")).unwrap();
    let added = parse(&format!("{CFG}\n[workspaces.surf]\ntemplate = \"thirds\"\napps = {{ neovide = \"right\" }}\n")).unwrap();
    let r = PxRect { x: 1, y: 2, w: 3, h: 4 };
    let state = || {
        let mut st = State::default();
        st.cells.put_nested("work", "chromium".into(), Place::Cell("center".into()));
        st.moved.put_nested("work", "neovide".into(), Moved { rect: r, owner: None });
        st.main.insert("work".into(), "chromium".into());
        st.geom.put_nested("work", "0x1".into(), r);
        st
    };
    let mut st = state();
    assert_eq!(keep_layout(&cfg, &changed, &mut st), vec!["work".to_string()]);
    assert!(st.cells.is_empty() && st.moved.is_empty() && st.main.is_empty() && st.geom.is_empty());
    let mut st = state();
    assert_eq!(keep_layout(&cfg, &added, &mut st), vec!["surf".to_string()]);
    assert_eq!(*st.cells.nested("work", "chromium").unwrap(), Place::Cell("center".into()));
    assert_eq!(st.moved.nested("work", "neovide").unwrap().rect, r);
    assert_eq!(st.main.get("work").unwrap(), "chromium");
    let mut st = state();
    assert!(keep_layout(&cfg, &read(""), &mut st).is_empty());
    assert!(st.cells.is_empty() && st.moved.is_empty());
}

#[test]
fn pending_waits_for_the_window_without_deadlines() {
    assert_eq!(pending_step(false, true, false), PendingStep::Adopt);
    assert_eq!(pending_step(false, false, false), PendingStep::MarkExited);
    assert_eq!(pending_step(false, false, true), PendingStep::Wait);
    assert_eq!(pending_step(false, true, true), PendingStep::Wait);
    assert_eq!(pending_step(true, true, true), PendingStep::Adopt);
    assert_eq!(pending_step(true, false, true), PendingStep::Restart);
}

/// What an event of the watcher tells.
fn told(kind: &EventKind) -> FileEvent {
    match kind {
        EventKind::Create(_) => FileEvent::Created,
        EventKind::Access(AccessKind::Close(mode)) => FileEvent::Closed { written: *mode == AccessMode::Write },
        EventKind::Modify(ModifyKind::Data(_)) => FileEvent::Data,
        EventKind::Modify(ModifyKind::Name(RenameMode::To)) => FileEvent::RenamedTo,
        EventKind::Modify(ModifyKind::Name(RenameMode::From)) => FileEvent::RenamedFrom,
        EventKind::Modify(ModifyKind::Name(RenameMode::Both)) => FileEvent::RenamedBoth,
        _ => FileEvent::Other,
    }
}

#[test]
fn config_reload_only_on_finished_writes() {
    let finished = |kind: EventKind| write_finished(told(&kind));
    assert!(finished(EventKind::Access(AccessKind::Close(AccessMode::Write))));
    assert!(finished(EventKind::Modify(ModifyKind::Name(RenameMode::To))));
    assert!(!finished(EventKind::Modify(ModifyKind::Name(RenameMode::Both))));
    assert!(!finished(EventKind::Modify(ModifyKind::Name(RenameMode::From))));
    assert!(!finished(EventKind::Modify(ModifyKind::Data(DataChange::Any))));
    assert!(!finished(EventKind::Create(CreateKind::File)));
    assert!(!finished(EventKind::Access(AccessKind::Close(AccessMode::Read))));
}

fn work_clients() -> Vec<Client> {
    vec![
        client("0x1", "wezterm-herdr", "herdr · dev-lab", "1", &["app:herdr#1", "ws:work"]),
        client("0x2", "chromium", "Новости", "1", &["app:chromium#1", "ws:work"]),
        client("0x3", "neovide", "[Scratch]", "1", &["app:neovide#1", "ws:work"]),
        client("0x9", "Galculator", "Калькулятор", "1", &[]),
    ]
}

#[test]
fn cycle_walks_instances_and_returns_to_prev() {
    let a = |s: &str| s.to_string();
    let order = vec![a("0x1"), a("0x2"), a("0x3")];
    assert_eq!(cycle_step(&order, Some("0xf"), false, Some("0xf"), None), CycleStep::Select(a("0x1")));
    assert_eq!(cycle_step(&order, Some("0x1"), false, Some("0xf"), None), CycleStep::Select(a("0x2")));
    assert_eq!(cycle_step(&order, Some("0x2"), false, Some("0xf"), None), CycleStep::Select(a("0x3")));
    assert_eq!(cycle_step(&order, Some("0x3"), false, Some("0xf"), None), CycleStep::Back(a("0xf")));
    assert_eq!(cycle_step(&order, Some("0x3"), false, None, Some("0x7")), CycleStep::NextApp(a("0x7")));
    assert_eq!(cycle_step(&order, Some("0x3"), false, None, None), CycleStep::Select(a("0x1")));
    assert_eq!(cycle_step(&order, Some("0x2"), false, None, None), CycleStep::Select(a("0x3")));
    let one = vec![a("0x1")];
    assert_eq!(cycle_step(&one, Some("0xf"), false, Some("0xf"), None), CycleStep::Select(a("0x1")));
    assert_eq!(cycle_step(&one, Some("0x1"), false, Some("0xf"), None), CycleStep::Back(a("0xf")));
    assert_eq!(cycle_step(&order, Some("0x3"), true, Some("0xf"), None), CycleStep::Select(a("0x1")));
    assert_eq!(cycle_step(&[], Some("0xf"), false, None, None), CycleStep::Launch);
    assert_eq!(cycle_step(&order, None, false, None, None), CycleStep::Select(a("0x1")));
}

#[test]
fn anchor_is_main_window_in_swap_and_previous_in_stack() {
    let cfg = parse(CFG).unwrap();
    let clients = work_clients();
    let order = vec!["0x2".to_string()];
    let anchor = |main: Option<&str>, active: Option<&str>, focus: Option<&str>| anchor_window(&cfg, &clients, "work", main, &order, active, focus).unwrap_or_default();
    assert_eq!(anchor(Some("0x1"), Some("0x3"), None), "0x1");
    assert_eq!(anchor(None, Some("0x3"), None), "0x3");
    assert_eq!(anchor(None, Some("0x9"), Some("0x1")), "0x1");
    assert_eq!(anchor(None, Some("0x2"), Some("0x2")), "");
    assert_eq!(anchor(None, Some("0xdead"), None), "");
}

#[test]
fn next_app_follows_config_order() {
    let cfg = parse(CFG).unwrap();
    let clients = work_clients();
    let next = |app: &str, cs: &[Client]| next_app_window(&cfg, cs, "work", app).unwrap_or_default();
    assert_eq!(next("herdr", &clients), "0x2");
    assert_eq!(next("chromium", &clients), "0x3");
    assert_eq!(next("neovide", &clients), "0x1");
    let without: Vec<Client> = clients.iter().filter(|c| c.address != "0x2").cloned().collect();
    assert_eq!(next("herdr", &without), "0x3");
    assert_eq!(next("herdr", &clients[..1]), "");
    assert_eq!(next("wezterm", &clients), "");
}

#[test]
fn swap_places_exchanges_stacks() {
    let cfg = parse(CFG).unwrap();
    let mut st = State::default();
    let main = st.main_app(&cfg, "work");
    swap_places(&mut st, "work", main.as_deref(), "chromium", "center", true, true);
    assert_eq!(st.rect_for(&cfg, "work", "chromium"), Some(PxRect { x: 1125, y: 10, w: 1920, h: 2140 }));
    assert_eq!(st.rect_for(&cfg, "work", "herdr"), Some(PxRect { x: -805, y: 10, w: 1920, h: 2140 }));
    assert_eq!(st.rect_for(&cfg, "work", "neovide"), Some(PxRect { x: 3055, y: 10, w: 1920, h: 2140 }));
    assert_eq!(st.main_app(&cfg, "work").as_deref(), Some("chromium"));
    let mut st = State::default();
    st.cells_of(&cfg, "work");
    swap_places(&mut st, "work", Some("herdr"), "wezterm", "center", true, true);
    assert_eq!(st.cells_of(&cfg, "work").get("herdr"), None);
    assert_eq!(st.cells_of(&cfg, "work").get("wezterm"), Some(&Place::Cell("center".into())));
    let mut st = State::default();
    st.cells_of(&cfg, "work");
    st.cells.remove_nested("work", "herdr");
    swap_places(&mut st, "work", None, "neovide", "center", true, true);
    assert_eq!(st.rect_for(&cfg, "work", "neovide"), Some(PxRect { x: 1125, y: 10, w: 1920, h: 2140 }));
    assert!(cfg.app_command(None, cfg.apps.get("wezterm").unwrap(), &Table::new()).is_none());
}

fn user_example() -> (Config, State) {
    let mut st = State::default();
    let record = PxRect { x: 960, y: 540, w: 1920, h: 1080 };
    st.extra.put_nested("work", "chrome-ai".into(), ExtraApp { rect: record, ..ExtraApp::default() });
    let (cfg, _) = merge_extra(&shared_cfg(), &st.extra);
    (cfg, st)
}

#[test]
fn swap_places_exchanges_moved_rects() {
    let (cfg, mut st) = user_example();
    let center = PxRect { x: 1125, y: 10, w: 1920, h: 2140 };
    let r = PxRect { x: 400, y: 300, w: 1400, h: 1000 };
    st.cells_of(&cfg, "work");
    st.moved.put_nested("work", "chrome-ai".into(), Moved { rect: r, owner: Some("0xai".into()) });
    assert_eq!(st.rect_for(&cfg, "work", "chrome-ai"), Some(r));
    let main = st.main_app(&cfg, "work");
    assert_eq!(main.as_deref(), Some("herdr"));
    swap_places(&mut st, "work", main.as_deref(), "chrome-ai", "center", true, true);
    assert_eq!(st.main_app(&cfg, "work").as_deref(), Some("chrome-ai"));
    assert_eq!(st.rect_for(&cfg, "work", "chrome-ai"), Some(center));
    assert_eq!(st.rect_for(&cfg, "work", "herdr"), Some(r));
    assert_eq!(*st.cells.nested("work", "chrome-ai").unwrap(), Place::Cell("center".into()));
    assert_eq!(*st.cells.nested("work", "herdr").unwrap(), Place::Rect { rect: PxRect { x: 960, y: 540, w: 1920, h: 1080 } });
    swap_places(&mut st, "work", Some("chrome-ai"), "herdr", "center", true, true);
    assert_eq!(st.main_app(&cfg, "work").as_deref(), Some("herdr"));
    assert_eq!(st.rect_for(&cfg, "work", "herdr"), Some(center));
    assert_eq!(st.rect_for(&cfg, "work", "chrome-ai"), Some(r));
    let wide = PxRect { x: 1125, y: 10, w: 2400, h: 2140 };
    st.moved.put_nested("work", "herdr".into(), Moved { rect: wide, owner: Some("0xh".into()) });
    swap_places(&mut st, "work", Some("herdr"), "chrome-ai", "center", true, true);
    assert_eq!(st.rect_for(&cfg, "work", "chrome-ai"), Some(wide));
    assert_eq!(st.rect_for(&cfg, "work", "herdr"), Some(r));
}

#[test]
fn swap_places_drops_moved_of_app_without_windows() {
    let cfg = parse(CFG).unwrap();
    let mut st = State::default();
    st.cells_of(&cfg, "work");
    let wide = PxRect { x: 1125, y: 10, w: 2400, h: 2140 };
    st.moved.put_nested("work", "herdr".into(), Moved { rect: wide, owner: Some("0xh".into()) });
    swap_places(&mut st, "work", Some("herdr"), "neovide", "center", true, false);
    assert_eq!(st.rect_for(&cfg, "work", "neovide"), Some(PxRect { x: 1125, y: 10, w: 1920, h: 2140 }));
    assert_eq!(st.rect_for(&cfg, "work", "herdr"), Some(PxRect { x: 3055, y: 10, w: 1920, h: 2140 }));
    assert!(st.moved.is_empty());
}

#[test]
fn swap_press_on_non_main_app_selects_active() {
    let a = |s: &str| s.to_string();
    let one = vec![a("0xai")];
    assert_eq!(swap_start(&one, Some("0xai"), false), Some(a("0xai")));
    assert_eq!(swap_start(&one, Some("0xh"), false), Some(a("0xai")));
    let three = vec![a("0x1"), a("0x2"), a("0x3")];
    assert_eq!(swap_start(&three, Some("0x2"), false), Some(a("0x2")));
    assert_eq!(swap_start(&one, Some("0xai"), true), None);
    assert_eq!(cycle_step(&one, Some("0xai"), false, Some("0xh"), None), CycleStep::Back(a("0xh")));
    assert_eq!(swap_start(&three, Some("0x2"), true), None);
    assert_eq!(cycle_step(&three, Some("0x2"), false, Some("0xh"), None), CycleStep::Select(a("0x3")));
    assert_eq!(swap_start(&[], Some("0xh"), false), None);
}

#[test]
fn closing_last_window_drops_moved_place() {
    let cfg = parse(CFG).unwrap();
    let r = PxRect { x: 2600, y: 300, w: 1800, h: 1500 };
    let mut st = State::default();
    st.moved.put_nested("work", "neovide".into(), Moved { rect: r, owner: Some("0x3".into()) });
    assert_eq!(drop_moved(&mut st, &cfg, "0x3", &[]), vec![("work".to_string(), "neovide".to_string())]);
    assert_eq!(st.rect_for(&cfg, "work", "neovide"), Some(PxRect { x: 3055, y: 10, w: 1920, h: 2140 }));
    let moved = PxRect { x: 100, y: 200, w: 800, h: 600 };
    st.moved.put_nested("work", "chromium".into(), Moved { rect: moved, owner: Some("0x1".into()) });
    let rest = vec![client("0x2", "chromium", "Почта", "1", &["app:chromium#2", "ws:work"])];
    assert!(drop_moved(&mut st, &cfg, "0x1", &rest).is_empty());
    assert_eq!(*st.moved.nested("work", "chromium").unwrap(), Moved { rect: moved, owner: Some("0x2".into()) });
    st.moved.put_nested("work", "herdr".into(), Moved { rect: r, owner: None });
    assert!(drop_moved(&mut st, &cfg, "0x9", &rest).is_empty());
    assert_eq!(st.moved.nested("work", "herdr").unwrap().rect, r);
    let left = vec![client("0x2", "chromium", "Почта", "1", &["app:chromium#2", "ws:surf"])];
    assert_eq!(drop_moved(&mut st, &cfg, "0x2", &left), vec![("work".to_string(), "chromium".to_string())]);
    claim_owner(&mut st, &cfg, "work", "herdr", "0x7");
    assert_eq!(st.moved.nested("work", "herdr").unwrap().owner.as_deref(), Some("0x7"));
}

#[test]
fn arrange_resets_moved_keeps_swap() {
    let (cfg, mut st) = user_example();
    let record = PxRect { x: 960, y: 540, w: 1920, h: 1080 };
    let center = PxRect { x: 1125, y: 10, w: 1920, h: 2140 };
    let r = PxRect { x: 400, y: 300, w: 1400, h: 1000 };
    st.cells_of(&cfg, "work");
    st.moved.put_nested("work", "chrome-ai".into(), Moved { rect: r, owner: Some("0xai".into()) });
    swap_places(&mut st, "work", Some("herdr"), "chrome-ai", "center", true, true);
    st.moved.put_nested("work", "neovide".into(), Moved { rect: PxRect { x: 2000, y: 10, w: 3000, h: 2140 }, owner: Some("0x3".into()) });
    st.geom.put_nested("work", "0x2".into(), r);
    let clients = [
        client("0x1", "wezterm-herdr", "herdr · dev-lab", "1", &["app:herdr#1", "ws:work"]),
        client("0xai", "google-chrome-ai", "ИИ", "1", &["app:chrome-ai#1", "ws:work"]),
        client("0x3", "neovide", "[Scratch]", "1", &["app:neovide#1", "ws:work"]),
    ];
    let windows: Vec<&Client> = clients.iter().collect();
    let plan = arrange_layout(&mut st, &cfg, Some("work"), &windows, MON);
    let place = |addr: &str| plan.iter().find(|(a, _)| a == addr).map(|(_, r)| *r).unwrap();
    assert_eq!(place("0xai"), center);
    assert_eq!(place("0x1"), record);
    assert_eq!(place("0x3"), PxRect { x: 3055, y: 10, w: 1920, h: 2140 });
    assert_eq!(st.main_app(&cfg, "work").as_deref(), Some("chrome-ai"));
    assert!(st.moved.is_empty());
    assert_eq!(*st.geom.nested("work", "0x1").unwrap(), record);
    assert!(st.geom.nested("work", "0x2").is_none());
}

#[test]
fn depth_plan_keeps_order_and_lifts_main() {
    let order: Vec<String> = ["0x1", "0x2", "0x3"].iter().map(|s| s.to_string()).collect();
    assert_eq!(depth_plan(&order, Some("0x2"), true), vec!["0x1", "0x3", "0x2"]);
    assert_eq!(depth_plan(&order, Some("0x3"), true), vec!["0x1", "0x2", "0x3"]);
    assert_eq!(depth_plan(&order, Some("0x2"), false), vec!["0x1", "0x2", "0x3"]);
    assert_eq!(depth_plan(&order, None, true), vec!["0x1", "0x2", "0x3"]);
    assert_eq!(depth_plan(&order, Some("0x9"), true), vec!["0x1", "0x2", "0x3"]);
    assert!(depth_plan(&[], Some("0x1"), true).is_empty());
}

#[test]
fn raise_target_keeps_rect_on_move_in_both_modes() {
    let r = |x, y, w, h| PxRect { x, y, w, h };
    let place = Some(r(340, 10, 1200, 1400));
    let kept = Some(r(500, 50, 1000, 900));
    let cur = r(420, 120, 1500, 1100);
    assert_eq!(raise_target(true, true, None, place, cur), Some(cur));
    assert_eq!(raise_target(true, true, kept, place, cur), Some(cur));
    assert_eq!(raise_target(false, false, kept, place, cur), None);
    assert_eq!(raise_target(false, false, None, place, cur), None);
    assert_eq!(raise_target(false, true, kept, place, cur), kept);
    assert_eq!(raise_target(false, true, None, place, cur), place);
    assert_eq!(raise_target(false, true, None, None, cur), None);
}

#[test]
fn move_step_by_current_and_target_desktop() {
    assert_eq!(move_step(2, 3, Some("surf")), MoveStep::Move("surf".to_string()));
    assert_eq!(move_step(1, 8, Some("work")), MoveStep::Move("work".to_string()));
    assert_eq!(move_step(3, 3, Some("surf")), MoveStep::Here("surf".to_string()));
    assert_eq!(move_step(4, 5, None), MoveStep::Nothing);
    assert_eq!(move_step(3, 3, None), MoveStep::Nothing);
}

#[test]
fn assign_desktop_keeps_workspace_on_one_desktop() {
    let mut st = State::default();
    st.desktops.insert(1, Desktop { workspaces: vec!["work".into(), "surf".into()], active: Some("surf".into()) });
    st.desktops.insert(2, Desktop { workspaces: vec!["chat".into()], active: Some("chat".into()) });
    st.lazy.insert(3, "surf".into());
    assign_desktop(&mut st, "surf", 2);
    assert_eq!(st.desktops[&1].workspaces, vec!["work".to_string()]);
    assert_eq!(st.desktops[&1].active, None);
    assert_eq!(st.desktops[&2].workspaces, vec!["chat".to_string(), "surf".to_string()]);
    assert_eq!(st.desktops[&2].active.as_deref(), Some("surf"));
    assert!(st.lazy.is_empty());

    assign_desktop(&mut st, "chat", 2);
    assert_eq!(st.desktops[&2].workspaces, vec!["chat".to_string(), "surf".to_string()]);
    assert_eq!(st.desktops[&2].active.as_deref(), Some("chat"));
}

#[test]
fn assign_desktop_records_previous_active() {
    let mut st = State::default();
    assign_desktop(&mut st, "surf", 1);
    assert!(!st.prev_active.contains_key(&1));
    assign_desktop(&mut st, "work", 1);
    assert_eq!(st.prev_active.get(&1).map(String::as_str), Some("surf"));
    assign_desktop(&mut st, "work", 1);
    assert_eq!(st.prev_active.get(&1).map(String::as_str), Some("surf"));
    assign_desktop(&mut st, "work", 5);
    assert_eq!(st.prev_active.get(&1).map(String::as_str), Some("surf"));
    assert!(!st.prev_active.contains_key(&5));
}

fn names(v: &[&str]) -> Vec<String> {
    v.iter().map(|s| s.to_string()).collect()
}

#[test]
fn successor_prefers_previous_active() {
    let list = names(&["a", "b", "c", "d"]);
    assert_eq!(successor(&list, "c", Some("a")).as_deref(), Some("a"));
    assert_eq!(successor(&list, "a", Some("d")).as_deref(), Some("d"));
}

#[test]
fn successor_without_history_takes_previous_in_list() {
    let list = names(&["a", "b", "c"]);
    assert_eq!(successor(&list, "b", None).as_deref(), Some("a"));
    assert_eq!(successor(&list, "c", None).as_deref(), Some("b"));
    assert_eq!(successor(&list, "a", None).as_deref(), Some("c"));
    assert_eq!(successor(&names(&["a", "b"]), "a", None).as_deref(), Some("b"));
    assert_eq!(successor(&names(&["a", "b"]), "b", None).as_deref(), Some("a"));
}

#[test]
fn successor_ignores_stale_history() {
    let list = names(&["a", "b", "c"]);
    assert_eq!(successor(&list, "b", Some("x")).as_deref(), Some("a"));
    assert_eq!(successor(&list, "a", Some("a")).as_deref(), Some("c"));
}

#[test]
fn successor_none_for_single_workspace() {
    assert_eq!(successor(&names(&["a"]), "a", None), None);
    assert_eq!(successor(&names(&["a"]), "a", Some("b")), None);
    assert_eq!(successor(&[], "a", None), None);
}

#[test]
fn next_workspace_does_not_show_the_one_moved_away() {
    let mut st = State::default();
    st.desktops.insert(1, Desktop { workspaces: vec!["work".into(), "surf".into()], active: Some("work".into()) });
    assert_eq!(next_ws(&st.desktops[&1]), Some("surf".to_string()));
    assign_desktop(&mut st, "surf", 2);
    assert_eq!(next_ws(&st.desktops[&1]), Some("work".to_string()));
    assert_eq!(next_ws(&st.desktops[&2]), Some("surf".to_string()));
    assert_eq!(next_ws(&Desktop::default()), None);
}

#[test]
fn arrange_plan_places_apps_and_stacks_free_windows() {
    let cfg = parse(CFG).unwrap();
    let mut st = State::default();
    let sized = |addr: &str, class: &str, tags: &[&str], w: i32, h: i32| {
        let mut c = client(addr, class, "", "1", tags);
        c.size = (w, h);
        c
    };
    let clients = [
        sized("0x1", "wezterm-herdr", &["app:herdr#1"], 100, 100),
        sized("0x2", "chromium", &["app:chromium#1"], 100, 100),
        sized("0x3", "chromium", &["app:chromium#2"], 100, 100),
        sized("0x4", "qalculate-gtk", &["app:calc#1"], 600, 400),
        sized("0x5", "Galculator", &[], 800, 600),
        sized("0x6", "Galculator", &[], 400, 300),
        sized("0x7", "org.telegram.desktop", &[], 1000, 900),
        sized("0x8", "neovide", &["app:editor-dots#1"], 500, 500),
    ];
    let windows: Vec<&Client> = clients.iter().collect();
    let plan = arrange_plan(&mut st, &cfg, Some("work"), &windows, MON);
    let place = |addr: &str| plan.iter().find(|(a, _)| a == addr).map(|(_, r)| *r).unwrap();
    assert_eq!(place("0x1"), PxRect { x: 1125, y: 10, w: 1920, h: 2140 });
    assert_eq!(place("0x2"), PxRect { x: -805, y: 10, w: 1920, h: 2140 });
    assert_eq!(place("0x3"), place("0x2"));
    assert_eq!(place("0x4"), PxRect { x: 2600, y: 1500, w: 600, h: 400 });
    assert_eq!(place("0x5"), PxRect { x: 1520, y: 780, w: 800, h: 600 });
    assert_eq!(place("0x6"), place("0x5"));
    assert_eq!(place("0x7"), PxRect { x: 1420, y: 630, w: 1000, h: 900 });
    assert_eq!(place("0x8"), PxRect { x: 1670, y: 830, w: 500, h: 500 });

    let mut st = State::default();
    let plan = arrange_plan(&mut st, &cfg, None, &windows, MON);
    let place = |addr: &str| plan.iter().find(|(a, _)| a == addr).map(|(_, r)| *r).unwrap();
    assert_eq!(place("0x4"), PxRect { x: 2600, y: 1500, w: 600, h: 400 });
    assert_eq!(place("0x1"), PxRect { x: 1870, y: 1030, w: 100, h: 100 });
    assert_eq!(place("0x3"), place("0x2"));
    assert!(st.cells.is_empty());
}

#[test]
fn place_positions_without_reserved() {
    let full = PxRect { x: 0, y: 0, w: 3840, h: 2160 };
    assert_eq!(place_rect(full, 5, "bottom-left").unwrap(), PxRect { x: 10, y: 1085, w: 1905, h: 1065 });
    assert_eq!(place_rect(full, 5, "top-center").unwrap(), PxRect { x: 967, y: 10, w: 1905, h: 1065 });
}

fn restore_cfg() -> Config {
    let text = format!("{CFG}\n[apps.chrome-ai]\ncmd = \"google-chrome\"\nclass = \"^google-chrome-ai$\"\n\n[workspaces.surf]\ntemplate = \"thirds\"\nmode = \"stack\"\napps = {{ chrome-ai = \"right\", chromium = \"left\" }}\n");
    parse(&text).unwrap()
}

fn entry(app: &str, num: u32, ws: &[&str], cmd: &[&str]) -> RestoreEntry {
    RestoreEntry {
        app: app.into(),
        instance: num,
        workspaces: ws.iter().map(|w| w.to_string()).collect(),
        desktop: "1".into(),
        rect: PxRect { x: 100, y: 100, w: 800, h: 600 },
        rects: Table::new(),
        cmd: cmd.iter().map(|c| c.to_string()).collect(),
        cwd: None,
        state: RestoreState::Waiting,
    }
}

#[test]
fn raise_waits_for_restored_instance() {
    let cfg = restore_cfg();
    let mut e = vec![entry("neovide", 1, &["work"], &[]), entry("neovide", 2, &["surf"], &["neovide", "notes.md"]), entry("chromium", 1, &["work"], &[]), entry("chromium", 2, &["surf", "work"], &[])];
    assert_eq!(raise_restore_step(&cfg, &e, "neovide", "work", false), RaiseStep::LaunchFirst);
    assert_eq!(raise_restore_step(&cfg, &e, "neovide", "work", true), RaiseStep::Normal);
    assert_eq!(raise_restore_step(&cfg, &e, "neovide", "surf", false), RaiseStep::Normal);
    e[1].state = RestoreState::Launched(4242);
    assert_eq!(raise_restore_step(&cfg, &e, "neovide", "surf", false), RaiseStep::Wait);
    e[2].state = RestoreState::Done;
    assert_eq!(raise_restore_step(&cfg, &e, "chromium", "surf", false), RaiseStep::Normal);
    e[2].state = RestoreState::Waiting;
    assert_eq!(raise_restore_step(&cfg, &e, "chromium", "surf", false), RaiseStep::Normal);
    assert_eq!(raise_restore_step(&cfg, &e, "chromium", "work", false), RaiseStep::LaunchFirst);
}

#[test]
fn restore_match_prefers_pid() {
    let mut e = vec![entry("neovide", 1, &["work"], &[]), entry("neovide", 2, &["work"], &["neovide", "notes.md"])];
    e[1].state = RestoreState::Launched(500);
    assert_eq!(match_restore(&e, Some("neovide"), &[501, 500, 1], Some("work")), Some(1));
    assert_eq!(match_restore(&e, Some("neovide"), &[777], Some("work")), Some(0));
    assert_eq!(match_restore(&e, None, &[777], None), None);
    assert_eq!(match_restore(&e, None, &[500], None), Some(1));
}

#[test]
fn restore_match_by_number_and_workspace() {
    let mut e = vec![entry("chromium", 1, &["work"], &[]), entry("chromium", 2, &["surf", "work"], &[]), entry("chromium", 3, &["surf"], &[])];
    assert_eq!(match_restore(&e, Some("chromium"), &[], Some("work")), Some(0));
    assert_eq!(match_restore(&e, Some("chromium"), &[], Some("surf")), Some(1));
    assert_eq!(match_restore(&e, Some("chromium"), &[], None), Some(0));
    assert_eq!(match_restore(&e, Some("chromium"), &[], Some("chat")), Some(0));
    e[0].state = RestoreState::Done;
    assert_eq!(match_restore(&e, Some("chromium"), &[], Some("work")), Some(1));
    assert_eq!(match_restore(&e, Some("neovide"), &[], Some("work")), None);
}

#[test]
fn restored_window_keeps_number_and_membership() {
    let cfg = restore_cfg();
    let clients = vec![client("0xa", "neovide", "", "1", &[])];
    assert_eq!(restored_number(&clients, "neovide", 2), 2);
    let clients = vec![client("0xb", "neovide", "", "1", &["app:neovide#2"]), client("0xa", "neovide", "", "1", &[])];
    assert_eq!(restored_number(&clients, "neovide", 2), 1);
    let e = entry("chromium", 2, &["chat", "surf", "work"], &[]);
    assert_eq!(entry_members(&cfg, &e), vec!["surf".to_string(), "work".to_string()]);
    let e = entry("chrome-ai", 1, &["work"], &[]);
    assert!(entry_members(&cfg, &e).is_empty());
}

#[test]
fn restored_window_goes_home() {
    let cfg = restore_cfg();
    let mut st = State::default();
    let act = desks(&[(1, "work"), (2, "surf")]);
    let mut e = entry("chrome-ai", 1, &["surf"], &[]);
    let r = PxRect { x: 1700, y: 60, w: 1920, h: 2140 };
    e.rects.insert("surf".into(), r);
    assert_eq!(restore_place(&mut st, &cfg, &e, &act, 1), (Home::Desktop(2), Some(r)));
    e.rects = Table::new();
    assert_eq!(restore_place(&mut st, &cfg, &e, &act, 1), (Home::Desktop(2), Some(PxRect { x: 3055, y: 10, w: 1920, h: 2140 })));
    let mut e = entry("chromium", 2, &["surf", "work"], &[]);
    e.rects.insert("surf".into(), r);
    assert_eq!(restore_place(&mut st, &cfg, &e, &act, 1), (Home::Desktop(1), Some(PxRect { x: -805, y: 10, w: 1920, h: 2140 })));
    let moved = PxRect { x: 2600, y: 300, w: 1800, h: 1500 };
    e.rects.insert("work".into(), moved);
    assert_eq!(restore_place(&mut st, &cfg, &e, &act, 1), (Home::Desktop(1), Some(moved)));
    let mut n = entry("neovide", 1, &["work"], &[]);
    st.moved.put_nested("work", "neovide".into(), Moved { rect: moved, owner: None });
    assert_eq!(restore_place(&mut st, &cfg, &n, &act, 1), (Home::Desktop(1), Some(moved)));
    st.moved = Table::new();
    n.rects = Table::new();
    let mut h = entry("neovide", 2, &["work"], &[]);
    h.desktop = "hidden".into();
    assert_eq!(restore_place(&mut st, &cfg, &h, &act, 2), (Home::Desktop(1), Some(PxRect { x: 3055, y: 10, w: 1920, h: 2140 })));
    let only = desks(&[(1, "work")]);
    assert_eq!(restore_place(&mut st, &cfg, &entry("chrome-ai", 1, &["surf"], &[]), &only, 1), (Home::Pool, None));
    let mut f = entry("calc", 1, &[], &[]);
    f.desktop = "3".into();
    assert_eq!(restore_place(&mut st, &cfg, &f, &act, 1), (Home::Desktop(3), Some(f.rect)));
    f.desktop = "pool".into();
    assert_eq!(restore_place(&mut st, &cfg, &f, &act, 1), (Home::Pool, None));
}

#[test]
fn restore_wait_ends_on_key_and_save() {
    let mut e = vec![entry("chromium", 1, &["work"], &[]), entry("chromium", 2, &["work"], &[]), entry("neovide", 2, &["work"], &["neovide", "x"]), entry("chrome-ai", 1, &["surf"], &[])];
    e[0].state = RestoreState::Done;
    e[2].state = RestoreState::Launched(10);
    let mut apps = Names::new();
    apps.insert("chromium".to_string());
    let mut k = e.clone();
    assert_eq!(end_wait(&mut k, &apps, Some("chromium"), false), vec!["chromium#2".to_string()]);
    assert_eq!(k[2].state, RestoreState::Launched(10));
    let mut sv = e.clone();
    assert_eq!(end_wait(&mut sv, &apps, None, false), vec!["chromium#2".to_string(), "neovide#2".to_string()]);
    assert_eq!(sv[3].state, RestoreState::Waiting);
    let mut ld = e.clone();
    assert_eq!(end_wait(&mut ld, &apps, None, true).len(), 3);
    assert!(ld.iter().all(|x| !x.open()));
}
