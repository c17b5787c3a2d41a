//! The help on keys: labels, descriptions and groups.
use workspaced::chain::parse_chain;
use workspaced::config::{
    new_apps, put_app, Action, App, Bind, Config, Desk, Dispatch, HalfAction, Keys, MoveAction, PlaceAction, Placement, Startup,
    StickyKey, StickyState, TargetAction, Template, Workspace, WsApp,
};
use workspaced::help::{entries, grouped, Entry};
use workspaced::labels::chain_label;
use workspaced::rect::{Coord, Rect};
use workspaced::table::Table;

/// The monitor that shares of the screen are taken of.
const MON: (i32, i32) = (3840, 2160);

fn opt_text(t: &toml::Table, k: &str) -> Option<String> {
    t.get(k).map(|v| v.as_str().unwrap_or_else(|| panic!("{k}: not a text")).to_string())
}

fn text_list(t: &toml::Table, k: &str) -> Vec<String> {
    t.get(k).map(|v| v.as_array().unwrap().iter().map(|x| x.as_str().unwrap().to_string()).collect()).unwrap_or_default()
}

fn flag(t: &toml::Table, k: &str) -> bool {
    t.get(k).is_some_and(|v| v.as_bool().unwrap())
}

fn part(t: &toml::Table, k: &str) -> toml::Table {
    t.get(k).map(|v| v.as_table().unwrap().clone()).unwrap_or_default()
}

fn texts(t: &toml::Table, k: &str) -> Table<String> {
    let mut out = Table::new();
    for (name, v) in part(t, k) {
        out.insert(name, v.as_str().unwrap().to_string());
    }
    out
}

fn coord(v: &toml::Value, axis: i32) -> Coord {
    match v {
        toml::Value::Integer(n) => Coord::Px(*n as i32),
        toml::Value::Float(f) => Coord::Px(f.round() as i32),
        toml::Value::String(s) => {
            let p: f64 = s.trim().strip_suffix('%').unwrap().trim().parse().unwrap();
            Coord::Percent { bits: p.to_bits(), px: (axis as f64 * p / 100.0).round() as i32 }
        }
        other => panic!("not a coordinate: {other}"),
    }
}

fn rect(v: &toml::Value) -> Rect {
    let t = v.as_table().unwrap();
    Rect { x: coord(&t["x"], MON.0), y: coord(&t["y"], MON.1), w: coord(&t["w"], MON.0), h: coord(&t["h"], MON.1) }
}

fn placement(v: &toml::Value) -> WsApp {
    match v {
        toml::Value::String(s) => WsApp { place: Placement::Cell(s.clone()), chain: None, mode: None },
        toml::Value::Table(t) => {
            let place = match t.get("rect") {
                Some(r) => Placement::Rect { rect: rect(r) },
                None => Placement::Cell(opt_text(t, "cell").unwrap()),
            };
            WsApp { place, chain: opt_text(t, "chain"), mode: opt_text(t, "mode") }
        }
        other => panic!("not a place: {other}"),
    }
}

fn action(v: &toml::Value) -> Action {
    let t = match v {
        toml::Value::String(s) => return Action::Named(s.clone()),
        toml::Value::Table(t) => t,
        other => panic!("not an action: {other}"),
    };
    if let Some(half) = opt_text(t, "half") {
        return Action::Half(HalfAction { half });
    }
    if let Some(place) = opt_text(t, "place") {
        return Action::Place(PlaceAction { place });
    }
    match t.get("move") {
        Some(toml::Value::Integer(n)) => Action::Move(MoveAction { desktop: Desk::Num(*n) }),
        Some(v) => Action::Move(MoveAction { desktop: Desk::Str(v.as_str().unwrap().to_string()) }),
        None => Action::Target(TargetAction {
            desktop: t.get("desktop").map(|v| v.as_integer().unwrap() as u8),
            workspace: opt_text(t, "workspace"),
            app: opt_text(t, "app"),
            pull: t.get("pull").map(|v| v.as_bool().unwrap()),
            new: t.get("new").map(|v| v.as_bool().unwrap()),
        }),
    }
}

fn dispatchers(t: &toml::Table) -> Option<Dispatch> {
    t.get("dispatch").map(|v| match v {
        toml::Value::String(s) => Dispatch::One(s.clone()),
        _ => Dispatch::Many(text_list(t, "dispatch")),
    })
}

fn bind(v: &toml::Value) -> Bind {
    let t = v.as_table().unwrap();
    Bind {
        chain: opt_text(t, "chain").unwrap(),
        action: t.get("action").map(action),
        run: opt_text(t, "exec"),
        dispatch: dispatchers(t),
        lua: opt_text(t, "lua"),
        range: t.get("range").map(|v| (v[0].as_integer().unwrap(), v[1].as_integer().unwrap())),
        locked: flag(t, "locked"),
        repeating: flag(t, "repeating"),
        mouse: flag(t, "mouse"),
        release: flag(t, "release"),
        desc: opt_text(t, "desc"),
        group: opt_text(t, "group"),
    }
}

fn sticky_key(v: &toml::Value) -> StickyKey {
    let t = v.as_table().unwrap();
    StickyKey {
        action: t.get("action").map(action),
        run: opt_text(t, "exec"),
        dispatch: dispatchers(t),
        lua: opt_text(t, "lua"),
        state: opt_text(t, "state"),
        exit: flag(t, "exit"),
        desc: opt_text(t, "desc"),
    }
}

fn sticky(v: &toml::Value) -> StickyState {
    let t = v.as_table().unwrap();
    StickyState {
        enter: opt_text(t, "enter"),
        title: opt_text(t, "title"),
        apps: opt_text(t, "apps"),
        keys: part(t, "keys").iter().map(|(k, v)| (k.clone(), sticky_key(v))).collect(),
        states: part(t, "states").iter().map(|(k, v)| (k.clone(), sticky(v))).collect(),
    }
}

/// The configuration that a text describes, unchecked.
fn read(text: &str) -> Config {
    let root: toml::Table = text.parse().unwrap_or_else(|e| panic!("{e}\n{text}"));
    let keys = part(&root, "keys");
    let mut templates = Table::new();
    for (name, v) in part(&root, "templates") {
        let t = v.as_table().unwrap();
        let mut cells = Table::new();
        for (cell, r) in part(t, "cells") {
            cells.insert(cell, rect(&r));
        }
        templates.insert(name, Template { main: opt_text(t, "main").unwrap(), cells });
    }
    let mut apps = Table::new();
    for (name, v) in part(&root, "apps") {
        let t = v.as_table().unwrap();
        apps.insert(
            name,
            App {
                cmd: opt_text(t, "cmd"),
                args: text_list(t, "args"),
                cwd: opt_text(t, "cwd"),
                env: texts(t, "env"),
                chain: opt_text(t, "chain"),
                class: opt_text(t, "class"),
                title: opt_text(t, "title"),
                family: opt_text(t, "family"),
                rect: t.get("rect").map(rect),
                dialog_title: opt_text(t, "dialog_title"),
            },
        );
    }
    let mut workspaces = Table::new();
    for (name, v) in part(&root, "workspaces") {
        let t = v.as_table().unwrap();
        let mut list = new_apps();
        for (app, place) in part(t, "apps") {
            put_app(&mut list, app, placement(&place));
        }
        workspaces.insert(
            name,
            Workspace {
                template: opt_text(t, "template").unwrap(),
                main: opt_text(t, "main"),
                icon: opt_text(t, "icon"),
                chain: opt_text(t, "chain"),
                env: texts(t, "env"),
                mode: opt_text(t, "mode").unwrap_or("swap".to_string()),
                apps: list,
            },
        );
    }
    Config {
        env: texts(&root, "env"),
        keys: Keys {
            save_session: opt_text(&keys, "save_session"),
            save_workspace: opt_text(&keys, "save_workspace"),
            sessions: opt_text(&keys, "sessions"),
            next_workspace: opt_text(&keys, "next_workspace"),
            reserved: text_list(&keys, "reserved"),
            reserved_desc: texts(&keys, "reserved_desc"),
        },
        gap: root.get("gap").map(|v| v.as_integer().unwrap() as i32).unwrap_or(0),
        templates,
        apps,
        ignore_classes: text_list(&root, "ignore_classes"),
        workspaces,
        binds: root.get("binds").map(|v| v.as_array().unwrap().iter().map(bind).collect()).unwrap_or_default(),
        startup: root.get("startup").map(|v| {
            let t = v.as_table().unwrap();
            Startup { workspace: opt_text(t, "workspace").unwrap(), desktop: t.get("desktop").map(|d| d.as_integer().unwrap() as u8).unwrap_or(1) }
        }),
        sticky: part(&root, "sticky").iter().map(|(k, v)| (k.clone(), sticky(v))).collect(),
    }
}

/// The configuration that a text describes, or its fault.
fn parse(text: &str) -> Result<Config, String> {
    let cfg = read(text);
    cfg.validate()?;
    Ok(cfg)
}

fn cfg() -> Config {
    parse(
        r#"
[keys]
save_session = "CTRL+SUPER+s CTRL+SUPER+s"
next_workspace = "SUPER+TAB Tab"
reserved = ["SUPER+space", "ALT+SUPER+space"]
reserved_desc = { "SUPER+space" = "Следующая раскладка" }
[templates.t]
main = "c"
cells = { c = { x = 0, y = 0, w = 10, h = 10 }, l = { x = 0, y = 0, w = 5, h = 10 } }
[apps.chrome]
cmd = "chrome"
chain = "SUPER+SHIFT+B"
[apps.herdr]
cmd = "wezterm"
chain = "SUPER+T"
[workspaces.surf]
template = "t"
chain = "SUPER+TAB s"
[workspaces.surf.apps]
chrome = { cell = "l", chain = "SUPER+B" }
herdr = "c"
[[binds]]
chain = "SUPER+SHIFT+slash"
exec = "qs -c panel ipc call keys toggle"
desc = "Подсказка клавиш"
[[binds]]
chain = "ALT+SUPER+left"
action = { half = "left" }
[[binds]]
chain = "CTRL+SUPER+$n"
range = [1, 8]
action = { move = "$n" }
[[binds]]
chain = "SUPER+$n"
range = [1, 8]
dispatch = "focus({ workspace = $n })"
[[binds]]
chain = "CTRL+Escape"
exec = "qs -c panel ipc call notifications history"
[[binds]]
chain = "XF86AudioMute"
exec = "~/bin/change-volume.sh 0"
[[binds]]
chain = "SHIFT+Print"
exec = "~/bin/screenshot-selection"
[[binds]]
chain = "ALT+Tab"
lua = "return"
group = "Окна"
desc = "Следующее окно"
[[binds]]
chain = "SUPER+Z"
dispatch = "window.move({ workspace = \"special:hidden\", follow = false })"
[[binds]]
chain = "SUPER+R"
exec = "rofi -show drun"
group = "Мои программы"
"#,
    )
    .unwrap()
}

fn find<'a>(list: &'a [Entry], chain: &str) -> &'a Entry {
    list.iter().find(|e| e.chain == chain).unwrap_or_else(|| panic!("no row {chain}: {list:#?}"))
}

#[test]
fn labels_are_human() {
    let l = |s: &str| chain_label(&parse_chain(s).unwrap());
    assert_eq!(l("SUPER+SHIFT+slash"), "Shift+Super+/");
    assert_eq!(l("CTRL+SUPER+s CTRL+SUPER+w"), "Ctrl+Super+S Ctrl+Super+W");
    assert_eq!(l("SUPER+TAB w"), "Super+Tab w");
    assert_eq!(l("ALT+SUPER+Page_Up"), "Alt+Super+PageUp");
    assert_eq!(l("SUPER+CTRL+ALT+Return"), "Ctrl+Alt+Super+Enter");
    assert_eq!(l("XF86AudioMute"), "AudioMute");
    assert_eq!(l("SUPER+mouse:272"), "Super+ЛКМ");
}

#[test]
fn groups_and_descriptions() {
    let list = entries(&cfg()).unwrap();
    let e = find(&list, "SUPER+SHIFT+slash");
    assert_eq!((e.label.as_str(), e.desc.as_str(), e.group.as_str()), ("Shift+Super+/", "Подсказка клавиш", "Сессия и прочее"));
    assert_eq!(find(&list, "SUPER+CTRL+s SUPER+CTRL+s").group, "Workspace");
    assert_eq!(find(&list, "SUPER+TAB s").desc, "Поднять workspace surf");
    let b = find(&list, "SUPER+B");
    assert_eq!((b.desc.as_str(), b.group.as_str()), ("chrome в workspace surf", "Приложения"));
    assert_eq!(find(&list, "SUPER+T").desc, "Приложение herdr");
    let h = find(&list, "SUPER+ALT+left");
    assert_eq!((h.desc.as_str(), h.group.as_str()), ("Окно в левую половину", "Окна"));
    let m = find(&list, "SUPER+CTRL+1…8");
    assert_eq!((m.label.as_str(), m.desc.as_str(), m.group.as_str()), ("Ctrl+Super+1…8", "Перенести workspace на стол 1…8 и перейти туда", "Столы"));
    assert_eq!(find(&list, "SUPER+1…8").group, "Столы");
    assert_eq!(list.iter().filter(|e| e.source == "binds[3]").count(), 1);
    assert_eq!(find(&list, "CTRL+Escape").group, "Уведомления");
    assert_eq!(find(&list, "XF86AudioMute").group, "Звук и яркость");
    assert_eq!(find(&list, "SHIFT+Print").group, "Снимки экрана");
    assert_eq!(find(&list, "ALT+Tab").group, "Окна");
    assert_eq!(find(&list, "SUPER+Z").group, "Окна");
    assert_eq!(find(&list, "SUPER+R").desc, "exec rofi -show drun");
    let r = find(&list, "SUPER+space");
    assert_eq!((r.desc.as_str(), r.group.as_str(), r.label.as_str()), ("Следующая раскладка", "Раскладка", "Super+Пробел"));
    assert_eq!(find(&list, "SUPER+ALT+space").desc, "Зарезервировано");
}

#[test]
fn group_order() {
    let names: Vec<String> = grouped(&cfg()).unwrap().into_iter().map(|(n, _)| n).collect();
    assert_eq!(
        names,
        ["Workspace", "Столы", "Приложения", "Окна", "Уведомления", "Звук и яркость", "Снимки экрана", "Раскладка", "Сессия и прочее", "Мои программы"]
    );
    let groups = grouped(&cfg()).unwrap();
    assert_eq!(groups[0].0, "Workspace");
    assert!(!groups[0].1[0].label.is_empty());
}

#[test]
fn invalid_config_is_error() {
    let mut c = cfg();
    c.keys.reserved.push("SUPER+R".into());
    assert!(entries(&c).is_err());
}
