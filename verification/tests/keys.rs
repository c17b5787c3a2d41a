//! Keys: chains, bindings, modes and the code for the compositor.
use workspaced::chain::{chain_compact, chain_key, parse_chain, Combo};
use workspaced::collect::collect;
use workspaced::config::{
    new_apps, put_app, Action, App, Bind, Config, Desk, Dispatch, HalfAction, Keys, MoveAction, PlaceAction, Placement, Startup,
    StickyKey, StickyState, TargetAction, Template, Workspace, WsApp,
};
use workspaced::keys::{Act, Binding};
use workspaced::list::to_list;
use workspaced::lua::to_lua;
use workspaced::modes::sticky_nodes;
use workspaced::rect::{Coord, Rect};
use workspaced::sticky::StickyGo;
use workspaced::table::Table;

/// The monitor that shares of the screen are taken of.
const MON: (i32, i32) = (3840, 2160);

fn opt_text(t: &toml::Table, k: &str) -> Option<String> {
    t.get(k).map(|v| v.as_str().unwrap_or_else(|| panic!("{k}: not a text")).to_string())
}

fn text_list(t: &toml::Table, k: &str) -> Vec<String> {
    t.get(k).map(|v| v.as_array().unwrap().iter().map(|x| x.as_str().unwrap().to_string()).collect()).unwrap_or_default()
}

fn flag(t: &toml::Table, k: &str) -> bool {
    t.get(k).is_some_and(|v| v.as_bool().unwrap())
}

fn part(t: &toml::Table, k: &str) -> toml::Table {
    t.get(k).map(|v| v.as_table().unwrap().clone()).unwrap_or_default()
}

fn texts(t: &toml::Table, k: &str) -> Table<String> {
    let mut out = Table::new();
    for (name, v) in part(t, k) {
        out.insert(name, v.as_str().unwrap().to_string());
    }
    out
}

fn coord(v: &toml::Value, axis: i32) -> Coord {
    match v {
        toml::Value::Integer(n) => Coord::Px(*n as i32),
        toml::Value::Float(f) => Coord::Px(f.round() as i32),
        toml::Value::String(s) => {
            let p: f64 = s.trim().strip_suffix('%').unwrap().trim().parse().unwrap();
            Coord::Percent { bits: p.to_bits(), px: (axis as f64 * p / 100.0).round() as i32 }
        }
        other => panic!("not a coordinate: {other}"),
    }
}

fn rect(v: &toml::Value) -> Rect {
    let t = v.as_table().unwrap();
    Rect { x: coord(&t["x"], MON.0), y: coord(&t["y"], MON.1), w: coord(&t["w"], MON.0), h: coord(&t["h"], MON.1) }
}

fn placement(v: &toml::Value) -> WsApp {
    match v {
        toml::Value::String(s) => WsApp { place: Placement::Cell(s.clone()), chain: None, mode: None },
        toml::Value::Table(t) => {
            let place = match t.get("rect") {
                Some(r) => Placement::Rect { rect: rect(r) },
                None => Placement::Cell(opt_text(t, "cell").unwrap()),
            };
            WsApp { place, chain: opt_text(t, "chain"), mode: opt_text(t, "mode") }
        }
        other => panic!("not a place: {other}"),
    }
}

fn action(v: &toml::Value) -> Action {
    let t = match v {
        toml::Value::String(s) => return Action::Named(s.clone()),
        toml::Value::Table(t) => t,
        other => panic!("not an action: {other}"),
    };
    if let Some(half) = opt_text(t, "half") {
        return Action::Half(HalfAction { half });
    }
    if let Some(place) = opt_text(t, "place") {
        return Action::Place(PlaceAction { place });
    }
    match t.get("move") {
        Some(toml::Value::Integer(n)) => Action::Move(MoveAction { desktop: Desk::Num(*n) }),
        Some(v) => Action::Move(MoveAction { desktop: Desk::Str(v.as_str().unwrap().to_string()) }),
        None => Action::Target(TargetAction {
            desktop: t.get("desktop").map(|v| v.as_integer().unwrap() as u8),
            workspace: opt_text(t, "workspace"),
            app: opt_text(t, "app"),
            pull: t.get("pull").map(|v| v.as_bool().unwrap()),
            new: t.get("new").map(|v| v.as_bool().unwrap()),
        }),
    }
}

fn dispatchers(t: &toml::Table) -> Option<Dispatch> {
    t.get("dispatch").map(|v| match v {
        toml::Value::String(s) => Dispatch::One(s.clone()),
        _ => Dispatch::Many(text_list(t, "dispatch")),
    })
}

fn bind(v: &toml::Value) -> Bind {
    let t = v.as_table().unwrap();
    Bind {
        chain: opt_text(t, "chain").unwrap(),
        action: t.get("action").map(action),
        run: opt_text(t, "exec"),
        dispatch: dispatchers(t),
        lua: opt_text(t, "lua"),
        range: t.get("range").map(|v| (v[0].as_integer().unwrap(), v[1].as_integer().unwrap())),
        locked: flag(t, "locked"),
        repeating: flag(t, "repeating"),
        mouse: flag(t, "mouse"),
        release: flag(t, "release"),
        desc: opt_text(t, "desc"),
        group: opt_text(t, "group"),
    }
}

fn sticky_key(v: &toml::Value) -> StickyKey {
    let t = v.as_table().unwrap();
    StickyKey {
        action: t.get("action").map(action),
        run: opt_text(t, "exec"),
        dispatch: dispatchers(t),
        lua: opt_text(t, "lua"),
        state: opt_text(t, "state"),
        exit: flag(t, "exit"),
        desc: opt_text(t, "desc"),
    }
}

fn sticky(v: &toml::Value) -> StickyState {
    let t = v.as_table().unwrap();
    StickyState {
        enter: opt_text(t, "enter"),
        title: opt_text(t, "title"),
        apps: opt_text(t, "apps"),
        keys: part(t, "keys").iter().map(|(k, v)| (k.clone(), sticky_key(v))).collect(),
        states: part(t, "states").iter().map(|(k, v)| (k.clone(), sticky(v))).collect(),
    }
}

/// The configuration that a text describes, unchecked.
fn read(text: &str) -> Config {
    let root: toml::Table = text.parse().unwrap_or_else(|e| panic!("{e}\n{text}"));
    let keys = part(&root, "keys");
    let mut templates = Table::new();
    for (name, v) in part(&root, "templates") {
        let t = v.as_table().unwrap();
        let mut cells = Table::new();
        for (cell, r) in part(t, "cells") {
            cells.insert(cell, rect(&r));
        }
        templates.insert(name, Template { main: opt_text(t, "main").unwrap(), cells });
    }
    let mut apps = Table::new();
    for (name, v) in part(&root, "apps") {
        let t = v.as_table().unwrap();
        apps.insert(
            name,
            App {
                cmd: opt_text(t, "cmd"),
                args: text_list(t, "args"),
                cwd: opt_text(t, "cwd"),
                env: texts(t, "env"),
                chain: opt_text(t, "chain"),
                class: opt_text(t, "class"),
                title: opt_text(t, "title"),
                family: opt_text(t, "family"),
                rect: t.get("rect").map(rect),
                dialog_title: opt_text(t, "dialog_title"),
            },
        );
    }
    let mut workspaces = Table::new();
    for (name, v) in part(&root, "workspaces") {
        let t = v.as_table().unwrap();
        let mut list = new_apps();
        for (app, place) in part(t, "apps") {
            put_app(&mut list, app, placement(&place));
        }
        workspaces.insert(
            name,
            Workspace {
                template: opt_text(t, "template").unwrap(),
                main: opt_text(t, "main"),
                icon: opt_text(t, "icon"),
                chain: opt_text(t, "chain"),
                env: texts(t, "env"),
                mode: opt_text(t, "mode").unwrap_or("swap".to_string()),
                apps: list,
            },
        );
    }
    Config {
        env: texts(&root, "env"),
        keys: Keys {
            save_session: opt_text(&keys, "save_session"),
            save_workspace: opt_text(&keys, "save_workspace"),
            sessions: opt_text(&keys, "sessions"),
            next_workspace: opt_text(&keys, "next_workspace"),
            reserved: text_list(&keys, "reserved"),
            reserved_desc: texts(&keys, "reserved_desc"),
        },
        gap: root.get("gap").map(|v| v.as_integer().unwrap() as i32).unwrap_or(0),
        templates,
        apps,
        ignore_classes: text_list(&root, "ignore_classes"),
        workspaces,
        binds: root.get("binds").map(|v| v.as_array().unwrap().iter().map(bind).collect()).unwrap_or_default(),
        startup: root.get("startup").map(|v| {
            let t = v.as_table().unwrap();
            Startup { workspace: opt_text(t, "workspace").unwrap(), desktop: t.get("desktop").map(|d| d.as_integer().unwrap() as u8).unwrap_or(1) }
        }),
        sticky: part(&root, "sticky").iter().map(|(k, v)| (k.clone(), sticky(v))).collect(),
    }
}

/// The configuration that a text describes, or its fault.
fn parse(text: &str) -> Result<Config, String> {
    let cfg = read(text);
    cfg.validate()?;
    Ok(cfg)
}

fn base() -> String {
    r#"
[templates.t]
main = "c"
cells = { c = { x = 0, y = 0, w = 10, h = 10 }, l = { x = 0, y = 0, w = 5, h = 10 } }
[apps.firefox-front]
cmd = "firefox"
chain = "SUPER+A b"
[apps.firefox-chat]
cmd = "firefox"
chain = "SUPER+A b"
[apps.firefox-back]
cmd = "firefox"
[workspaces.dev-front]
template = "t"
chain = "SUPER+W f"
apps = { firefox-front = "c" }
[workspaces.chat]
template = "t"
apps = { firefox-chat = "c" }
"#
    .to_string()
}

fn sticky_block(lua: &str, name: &str) -> String {
    let head = format!("hl.define_submap(\"{name}\", function()\n");
    let start = lua.find(&head).unwrap_or_else(|| panic!("no submap {name}:\n{lua}"));
    let end = lua[start..].find("end)\n").unwrap() + start;
    lua[start..end].to_string()
}

#[test]
fn parse_chain_normalizes() {
    let c = parse_chain("shift+SUPER+W  3 f").unwrap();
    assert_eq!(c.iter().map(Combo::lua).collect::<Vec<_>>(), vec!["SUPER + SHIFT + W", "3", "f"]);
    assert_eq!(chain_compact(&c), "SUPER+SHIFT+W 3 f");
}

#[test]
fn same_chain_in_different_workspaces_ok() {
    parse(&base()).unwrap();
}

#[test]
fn same_chain_in_one_workspace_is_error() {
    let text = base()
        .replace("[apps.firefox-back]\ncmd = \"firefox\"", "[apps.firefox-back]\ncmd = \"firefox\"\nchain = \"SUPER+A b\"")
        .replace("apps = { firefox-front = \"c\" }", "apps = { firefox-front = \"c\", firefox-back = \"l\" }");
    let err = parse(&text).unwrap_err().to_string();
    assert!(err.contains("dev-front") && err.contains("firefox-front") && err.contains("firefox-back"), "{err}");
}

fn overrides() -> String {
    r#"
[templates.t]
main = "c"
cells = { c = { x = 0, y = 0, w = 10, h = 10 }, l = { x = 0, y = 0, w = 5, h = 10 }, r = { x = 5, y = 0, w = 5, h = 10 } }
[apps.chrome]
cmd = "chrome"
chain = "SUPER+B"
[apps.chrome-ai]
cmd = "chrome"
chain = "SUPER+SHIFT+V"
[workspaces.surf]
template = "t"
chain = "SUPER+TAB s"
[workspaces.surf.apps]
chrome = "l"
chrome-ai = { cell = "r", chain = "SUPER+V" }
"#
    .to_string()
}

#[test]
fn override_keys_collected() {
    let cfg = parse(&overrides()).unwrap();
    let binds = collect(&cfg).unwrap();
    let by = |c: &str| binds.iter().find(|b| chain_compact(&b.chain) == c).unwrap_or_else(|| panic!("no binding {c}: {binds:?}"));
    assert_eq!(by("SUPER+V").act, Act::Daemon("workspaced key 'SUPER+V'".into()));
    assert_eq!(by("SUPER+V").source, "workspaces.surf.apps.chrome-ai");
    assert_eq!(by("SUPER+SHIFT+V").act, Act::Daemon("workspaced key 'SUPER+SHIFT+V'".into()));
    assert_eq!(by("SUPER+SHIFT+V").source, "apps.chrome-ai");
    let list = to_list(&cfg).unwrap();
    assert!(list.lines().any(|l| l.starts_with("SUPER+V ") && l.contains("key SUPER+V") && l.ends_with("workspaces.surf.apps.chrome-ai")), "{list}");
    assert!(list.lines().any(|l| l.starts_with("SUPER+SHIFT+V ") && l.contains("key SUPER+SHIFT+V") && l.ends_with("apps.chrome-ai")), "{list}");
    let lua = to_lua(&cfg).unwrap();
    assert!(lua.contains("hl.bind(\"SUPER + V\", hl.dsp.exec_cmd(\"workspaced key 'SUPER+V'\"))"), "{lua}");
    let text = overrides().replace("chain = \"SUPER+V\"", "chain = \"SUPER+TAB v\"");
    let lua = to_lua(&parse(&text).unwrap()).unwrap();
    assert!(lua.contains("ws_run(\"workspaced key 'SUPER+TAB v'\")"), "{lua}");
    let text = overrides() + "[apps.mail]\ncmd = \"mail\"\nchain = \"super+v\"\n";
    let cfg = parse(&text).unwrap();
    let binds = collect(&cfg).unwrap();
    let v: Vec<&Binding> = binds.iter().filter(|b| chain_key(&b.chain) == chain_key(&parse_chain("SUPER+V").unwrap())).collect();
    assert_eq!(v.len(), 1, "{binds:?}");
    assert_eq!(v[0].source, "apps.mail,workspaces.surf.apps.chrome-ai");
}

#[test]
fn override_frees_own_key() {
    let text = overrides()
        .replace("chain = \"SUPER+SHIFT+V\"", "chain = \"SUPER+V\"")
        .replace("chrome = \"l\"", "chrome = { cell = \"l\", chain = \"SUPER+V\" }")
        .replace("chrome-ai = { cell = \"r\", chain = \"SUPER+V\" }", "chrome-ai = { cell = \"r\", chain = \"SUPER+B\" }");
    let cfg = parse(&text).unwrap();
    assert_eq!(cfg.responds("surf", "SUPER+V"), Some("chrome".into()));
    assert_eq!(cfg.responds("surf", "SUPER+B"), Some("chrome-ai".into()));
}

#[test]
fn override_conflicts_in_workspace() {
    let text = overrides().replace("chain = \"SUPER+V\"", "chain = \"SUPER+B\"");
    let err = parse(&text).unwrap_err().to_string();
    assert!(err.contains("surf") && err.contains("chrome") && err.contains("chrome-ai") && err.contains("SUPER+B"), "{err}");
}

#[test]
fn override_conflicts_with_workspace_chain() {
    let text = overrides().replace("chain = \"SUPER+V\"", "chain = \"SUPER+TAB s\"");
    let err = parse(&text).unwrap_err().to_string();
    assert!(err.contains("workspaces.surf.apps.chrome-ai") && err.contains("workspaces.surf") && err.contains("SUPER+TAB s"), "{err}");
    let text = overrides() + "[keys]\nreserved = [\"SUPER+V\"]\n";
    let err = parse(&text).unwrap_err().to_string();
    assert!(err.contains("workspaces.surf.apps.chrome-ai") && err.contains("зарезервированное"), "{err}");
}

#[test]
fn two_save_chains_share_a_prefix() {
    let text = base() + "\n[keys]\nsave_session = \"CTRL+SUPER+s CTRL+SUPER+s\"\nsave_workspace = \"CTRL+SUPER+s CTRL+SUPER+w\"\n";
    let cfg = parse(&text).unwrap();
    let lua = to_lua(&cfg).unwrap();
    assert!(lua.contains("hl.bind(\"SUPER + CTRL + s\", hl.dsp.submap(\"ws-sticky:SUPER+CTRL+s\"))"), "{lua}");
    let block = sticky_block(&lua, "ws-sticky:SUPER+CTRL+s");
    assert!(block.contains("  hl.bind(\"SUPER + CTRL + s\", ws_run(\"workspaced save-session\"))\n"), "{block}");
    assert!(block.contains("  hl.bind(\"SUPER + CTRL + w\", ws_run(\"workspaced save-workspace\"))\n"), "{block}");
    assert!(block.trim_end().ends_with("hl.bind(\"catchall\", hl.dsp.no_op(), { ignore_mods = true })"), "{block}");
    assert!(!lua.contains("\"ws:S"), "{lua}");
    let list = to_list(&cfg).unwrap();
    let words = |c: &str| list.lines().find(|l| l.starts_with(&format!("{c} "))).map(|l| l.split_whitespace().collect::<Vec<_>>().join(" ")).unwrap_or_default();
    assert_eq!(words("SUPER+CTRL+s SUPER+CTRL+s"), "SUPER+CTRL+s SUPER+CTRL+s save-session exit keys.save_session", "{list}");
    assert_eq!(words("SUPER+CTRL+s SUPER+CTRL+w"), "SUPER+CTRL+s SUPER+CTRL+w save-workspace exit keys.save_workspace", "{list}");
    assert!(!list.contains("SUPER+TAB"), "{list}");

    let text = base() + "\n[[binds]]\nchain = \"SUPER+K\"\naction = \"save-session\"\n";
    assert!(to_list(&parse(&text).unwrap()).unwrap().contains("save-session"));
    let bad = base() + "\n[[binds]]\nchain = \"SUPER+K\"\naction = \"save-sesion\"\n";
    assert!(parse(&bad).unwrap_err().to_string().contains("save-sesion"));
}

#[test]
fn prefix_chain_is_error() {
    let text = base() + "\n[[binds]]\nchain = \"SUPER+W f 3\"\naction = { desktop = 3, workspace = \"dev-front\" }\n";
    let err = parse(&text).unwrap_err().to_string();
    assert!(err.contains("SUPER+W f") && err.contains("SUPER+W f 3"), "{err}");
}

#[test]
fn single_combo_conflicts_with_chain_start() {
    let text = base() + "\n[[binds]]\nchain = \"super+w\"\nexec = \"wezterm-gui\"\n";
    let err = parse(&text).unwrap_err().to_string();
    assert!(err.contains("SUPER+w") && err.contains("SUPER+W f") && err.contains("binds[0]"), "{err}");
}

#[test]
fn two_actions_is_error() {
    let text = base() + "\n[[binds]]\nchain = \"SUPER+Return\"\nexec = \"wezterm-gui\"\ndispatch = \"window.close()\"\n";
    let err = parse(&text).unwrap_err().to_string();
    assert!(err.contains("SUPER+Return") && err.contains("exec") && err.contains("dispatch"), "{err}");
    let text = base() + "\n[[binds]]\nchain = \"SUPER+Return\"\n";
    let err = parse(&text).unwrap_err().to_string();
    assert!(err.contains("нужно одно из полей"), "{err}");
}

#[test]
fn reserved_is_error() {
    let text = base() + "\n[keys]\nreserved = [\"SUPER+space\", \"ALT+E\"]\n[[binds]]\nchain = \"alt+e\"\nexec = \"true\"\n";
    let err = parse(&text).unwrap_err().to_string();
    assert!(err.contains("ALT+e") && err.contains("\"ALT+E\"") && err.contains("зарезервированное"), "{err}");
    let text = base() + "\n[keys]\nreserved = [\"SUPER+T\"]\n[[binds]]\nchain = \"SUPER+W SUPER+T\"\nexec = \"true\"\n";
    assert!(parse(&text).is_err());
}

#[test]
fn mouse_only_single_dispatch() {
    let text = base() + "\n[[binds]]\nchain = \"SUPER+W mouse:272\"\nmouse = true\ndispatch = \"window.drag()\"\n";
    let err = parse(&text).unwrap_err().to_string();
    assert!(err.contains("mouse") && err.contains("одиночного"), "{err}");
    let text = base() + "\n[[binds]]\nchain = \"SUPER+mouse:272\"\nmouse = true\nexec = \"true\"\n";
    let err = parse(&text).unwrap_err().to_string();
    assert!(err.contains("одного выражения dispatch"), "{err}");
    let text = base() + "\n[[binds]]\nchain = \"SUPER+mouse:272\"\nmouse = true\ndispatch = \"window.drag()\"\n";
    let lua = to_lua(&parse(&text).unwrap()).unwrap();
    assert!(lua.contains("hl.bind(\"SUPER + mouse:272\", hl.dsp.window.drag(), { mouse = true })"), "{lua}");
}

#[test]
fn move_desktop_and_arrange_actions() {
    let text = base() + "\n[[binds]]\nchain = \"CTRL+SUPER+$n\"\nrange = [1, 8]\naction = { move = \"$n\" }\n";
    let cfg = parse(&text).unwrap();
    let binds = collect(&cfg).unwrap();
    let series: Vec<&Binding> = binds.iter().filter(|b| b.source.starts_with("binds[0]")).collect();
    assert_eq!(series.len(), 8);
    assert_eq!(chain_compact(&series[2].chain), "SUPER+CTRL+3");
    assert_eq!(series[2].act, Act::Daemon("workspaced move-desktop 3".to_string()));
    let one = base() + "\n[[binds]]\nchain = \"CTRL+SUPER+F1\"\naction = { move = 2 }\n";
    assert!(to_list(&parse(&one).unwrap()).unwrap().contains("move-desktop 2"));
    let bad = base() + "\n[[binds]]\nchain = \"CTRL+SUPER+F1\"\naction = { move = 9 }\n";
    let err = parse(&bad).unwrap_err().to_string();
    assert!(err.contains("CTRL+SUPER+F1") && err.contains("9") && err.contains("от 1 до 8"), "{err}");

    let text = base() + "\n[[binds]]\nchain = \"CTRL+SUPER+space\"\naction = \"arrange\"\n";
    let cfg = parse(&text).unwrap();
    let lua = to_lua(&cfg).unwrap();
    assert!(lua.contains("hl.bind(\"SUPER + CTRL + space\", hl.dsp.exec_cmd(\"workspaced arrange\"))"), "{lua}");
    let bad = base() + "\n[[binds]]\nchain = \"CTRL+SUPER+space\"\naction = \"arange\"\n";
    assert!(parse(&bad).unwrap_err().to_string().contains("arange"));
}

#[test]
fn range_expands() {
    let text = base() + "\n[[binds]]\nchain = \"SUPER+$n\"\nrange = [1, 8]\ndispatch = \"focus({ workspace = $n })\"\n";
    let cfg = parse(&text).unwrap();
    let binds = collect(&cfg).unwrap();
    let series: Vec<&Binding> = binds.iter().filter(|b| b.source.starts_with("binds[0]")).collect();
    assert_eq!(series.len(), 8);
    assert_eq!(chain_compact(&series[2].chain), "SUPER+3");
    assert_eq!(series[2].act, Act::Dispatch(vec!["focus({ workspace = 3 })".to_string()]));
    let text = base() + "\n[[binds]]\nchain = \"SUPER+X\"\nrange = [1, 2]\nexec = \"true\"\n";
    assert!(parse(&text).unwrap_err().to_string().contains("$n"));
}

#[test]
fn lua_for_each_action_kind() {
    let text = base()
        + r#"
[keys]
sessions = "SUPER+S"
[[binds]]
chain = "SUPER+Return"
exec = "wezterm-gui"
[[binds]]
chain = "SUPER+C"
dispatch = "window.close()"
[[binds]]
chain = "ALT+Tab"
dispatch = ["window.cycle_next({ next = true })", "window.bring_to_top()"]
[[binds]]
chain = "XF86AudioRaiseVolume"
exec = "~/.scripts/change-volume.sh +"
locked = true
repeating = true
[[binds]]
chain = "SUPER+SHIFT+left"
action = { half = "left" }
[[binds]]
chain = "SUPER+X"
action = "maximize"
[[binds]]
chain = "ALT+SUPER+Home"
action = { place = "top-left" }
[[binds]]
chain = "SUPER+SHIFT+C"
lua = """
local soft = hl.get_config("cursor.no_hardware_cursors")
hl.config({ ["cursor.no_hardware_cursors"] = not soft })
"""
[[binds]]
chain = "SUPER+W 3 f"
action = { desktop = 3, workspace = "dev-front" }
[[binds]]
chain = "SUPER+W x"
dispatch = "exit()"
"#;
    let cfg = parse(&text).unwrap();
    let a = to_lua(&cfg).unwrap();
    let b = to_lua(&cfg).unwrap();
    assert_eq!(a, b);
    assert!(a.contains("hl.bind(\"SUPER + S\", hl.dsp.exec_cmd(\"workspaced sessions\"))"), "{a}");
    assert!(a.contains("hl.bind(\"SUPER + Return\", hl.dsp.exec_cmd(\"wezterm-gui\"))"), "{a}");
    assert!(a.contains("hl.bind(\"SUPER + C\", hl.dsp.window.close())"), "{a}");
    assert!(a.contains("hl.bind(\"ALT + Tab\", function() hl.dispatch(hl.dsp.window.cycle_next({ next = true })); hl.dispatch(hl.dsp.window.bring_to_top()) end)"), "{a}");
    assert!(a.contains("hl.bind(\"XF86AudioRaiseVolume\", hl.dsp.exec_cmd(\"~/.scripts/change-volume.sh +\"), { locked = true, repeating = true })"), "{a}");
    assert!(a.contains("hl.bind(\"SUPER + SHIFT + left\", hl.dsp.exec_cmd(\"workspaced half left\"))"), "{a}");
    assert!(a.contains("hl.bind(\"SUPER + X\", hl.dsp.exec_cmd(\"workspaced maximize\"))"), "{a}");
    assert!(a.contains("Home\", hl.dsp.exec_cmd(\"workspaced place top-left\"))"), "{a}");
    assert!(a.contains("hl.bind(\"SUPER + SHIFT + C\", function()\n  local ok, err = pcall(function()\n    local soft"), "{a}");
    let w = sticky_block(&a, "ws-sticky:SUPER+W");
    assert!(w.contains("hl.bind(\"3\", hl.dsp.submap(\"ws-sticky:SUPER+W/3\"), { ignore_mods = true })"), "{w}");
    assert!(w.contains("hl.bind(\"f\", ws_run(\"workspaced raise dev-front\"), { ignore_mods = true })"), "{w}");
    let w3 = sticky_block(&a, "ws-sticky:SUPER+W/3");
    assert!(w3.contains("hl.bind(\"f\", ws_run(\"workspaced raise dev-front --desktop 3\"), { ignore_mods = true })"), "{w3}");
    assert!(w3.contains("hl.bind(\"BackSpace\", hl.dsp.submap(\"ws-sticky:SUPER+W\"), { ignore_mods = true })"), "{w3}");
    assert!(a.contains("ws_run(\"workspaced key 'SUPER+A b'\")"), "{a}");
    assert!(a.contains("hl.bind(\"SUPER + A\", hl.dsp.submap(\"ws-sticky:SUPER+A\"))"), "{a}");
    assert_eq!(a.matches("hl.bind(\"SUPER + W\", ").count(), 1, "{a}");
    assert!(a.contains("hl.bind(\"x\", function() hl.dispatch(hl.dsp.exit()); hl.dispatch(hl.dsp.submap(\"reset\")) end, { ignore_mods = true })"), "{a}");
    assert!(!a.contains("\"ws:S"), "{a}");
    let list = to_list(&cfg).unwrap();
    assert!(list.contains("SUPER+Return") && list.contains("exec wezterm-gui") && list.contains("binds[1]"), "{list}");
    assert!(list.contains("SUPER+W f") && list.contains("raise dev-front") && list.contains("workspaces.dev-front"), "{list}");
    assert!(list.contains("locked,repeating"), "{list}");
    assert!(list.contains("SUPER+X") && list.contains("maximize"), "{list}");
    assert!(list.contains("Home") && list.contains("place top-left"), "{list}");
}

fn sticky_base() -> String {
    r#"
[keys]
sessions = "SHIFT+SUPER+S"
reserved = ["SUPER+space"]
[templates.t]
main = "c"
cells = { c = { x = 0, y = 0, w = 10, h = 10 }, l = { x = 0, y = 0, w = 5, h = 10 }, r = { x = 5, y = 0, w = 5, h = 10 } }
[apps.herdr]
cmd = "wezterm"
chain = "SUPER+T"
[apps.chromium]
cmd = "chromium"
chain = "SUPER+C"
[apps.neovide]
cmd = "neovide"
chain = "SUPER+E"
[apps.chrome]
cmd = "chrome"
chain = "SUPER+SHIFT+B"
[apps.chrome-ai]
cmd = "chrome"
chain = "SUPER+SHIFT+V"
[apps.yandex]
cmd = "yandex"
chain = "SUPER+SHIFT+Y"
[workspaces.surf]
template = "t"
chain = "SUPER+TAB s"
[workspaces.surf.apps]
chrome = { cell = "l", chain = "SUPER+B" }
chrome-ai = { cell = "r", chain = "SUPER+V" }
yandex = { cell = "c", chain = "SUPER+Y" }
"#
    .to_string()
}

fn sticky_apps() -> String {
    r#"
[sticky.apps]
enter = "SUPER+S"
title = "Приложения"
[sticky.apps.keys]
r = { state = "raise" }
s = { state = "spawn" }
[sticky.apps.states.raise]
title = "Поднять"
apps = "raise"
[sticky.apps.states.raise.keys]
e = { exit = true }
[sticky.apps.states.spawn]
title = "Новое окно"
apps = "spawn"
[sticky.apps.states.spawn.keys]
e = { exit = true }
"#
    .to_string()
}

fn sticky_cfg() -> Config {
    parse(&(sticky_base() + &sticky_apps())).unwrap()
}

fn sticky_err(extra: &str) -> String {
    parse(&(sticky_base() + extra)).unwrap_err().to_string()
}

#[test]
fn sticky_nodes_inherit_app_keys() {
    let cfg = sticky_cfg();
    let nodes = sticky_nodes(&cfg).unwrap();
    let subs: Vec<&str> = nodes.iter().map(|n| n.submap.as_str()).collect();
    assert_eq!(subs, ["ws-sticky:apps", "ws-sticky:apps/raise", "ws-sticky:apps/spawn", "ws-sticky:SUPER+TAB"]);
    assert!(nodes[3].auto && !nodes[0].auto);
    assert_eq!(nodes[1].titles, ["Приложения", "Поднять"]);
    assert_eq!(nodes[1].parent.as_deref(), Some("ws-sticky:apps"));
    assert_eq!(nodes[1].source, "sticky.apps.raise");
    let keys: Vec<&str> = nodes[1].keys.iter().map(|k| k.key.as_str()).collect();
    assert_eq!(keys, ["e", "b", "c", "t", "v", "y"]);
    let e = &nodes[1].keys[0];
    assert!(e.exit);
    assert_eq!(e.go, StickyGo::Act(Act::Daemon("workspaced key 'SUPER+E'".into())));
    assert_eq!(e.inherited.as_deref(), Some("apps.neovide"));
    let v = nodes[2].keys.iter().find(|k| k.key == "v").unwrap();
    assert_eq!(v.go, StickyGo::Act(Act::Daemon("workspaced key --new 'SUPER+V'".into())));
    assert!(!v.exit);
}

#[test]
fn sticky_list_rows() {
    let list = to_list(&sticky_cfg()).unwrap();
    let row = |chain: &str| list.lines().find(|l| l.split("  ").next().map(str::trim) == Some(chain)).unwrap_or_else(|| panic!("no row {chain}:\n{list}")).to_string();
    let words = |l: String| l.split_whitespace().map(String::from).collect::<Vec<_>>().join(" ");
    assert_eq!(words(row("SUPER+S")), "SUPER+S sticky apps sticky.apps");
    assert_eq!(words(row("SUPER+S r")), "SUPER+S r state raise sticky.apps");
    assert_eq!(words(row("SUPER+S r v")), "SUPER+S r v key SUPER+V sticky.apps.raise");
    assert_eq!(words(row("SUPER+S s v")), "SUPER+S s v key --new SUPER+V sticky.apps.spawn");
    assert_eq!(words(row("SUPER+S s e")), "SUPER+S s e key --new SUPER+E exit sticky.apps.spawn");
    assert_eq!(words(row("SUPER+S r e")), "SUPER+S r e key SUPER+E exit sticky.apps.raise");
    assert!(!list.contains("SUPER+SHIFT+V exit"), "{list}");
}

#[test]
fn sticky_lua() {
    let cfg = sticky_cfg();
    let lua = to_lua(&cfg).unwrap();
    assert_eq!(lua, to_lua(&cfg).unwrap());
    assert!(lua.contains("hl.bind(\"SUPER + S\", hl.dsp.submap(\"ws-sticky:apps\"))"), "{lua}");
    let block = |name: &str| sticky_block(&lua, name);
    let root = block("ws-sticky:apps");
    assert!(root.contains("hl.bind(\"r\", hl.dsp.submap(\"ws-sticky:apps/raise\"), { ignore_mods = true })"), "{root}");
    assert!(root.contains("hl.bind(\"BackSpace\", hl.dsp.submap(\"reset\"), { ignore_mods = true })"), "{root}");
    let raise = block("ws-sticky:apps/raise");
    assert!(raise.contains("hl.bind(\"v\", hl.dsp.exec_cmd(\"workspaced key 'SUPER+V'\"), { ignore_mods = true })"), "{raise}");
    assert!(raise.contains("hl.bind(\"e\", ws_run(\"workspaced key 'SUPER+E'\"), { ignore_mods = true })"), "{raise}");
    assert!(raise.contains("hl.bind(\"BackSpace\", hl.dsp.submap(\"ws-sticky:apps\"), { ignore_mods = true })"), "{raise}");
    assert!(raise.contains("hl.bind(\"Escape\", hl.dsp.submap(\"reset\"), { ignore_mods = true })"), "{raise}");
    assert!(raise.trim_end().ends_with("hl.bind(\"catchall\", hl.dsp.no_op(), { ignore_mods = true })"), "{raise}");
    assert_eq!(lua.matches("\"catchall\"").count(), 4, "{lua}");
    let spawn = block("ws-sticky:apps/spawn");
    assert!(spawn.contains("hl.bind(\"v\", hl.dsp.exec_cmd(\"workspaced key --new 'SUPER+V'\"), { ignore_mods = true })"), "{spawn}");
    let tab = block("ws-sticky:SUPER+TAB");
    assert!(tab.contains("hl.bind(\"s\", ws_run(\"workspaced raise surf\"), { ignore_mods = true })"), "{tab}");
    assert!(tab.contains("catchall") && tab.contains("\"BackSpace\"") && tab.contains("\"Escape\""), "{tab}");
    let tail = &lua[lua.rfind("local known").unwrap()..];
    for name in ["ws-sticky:SUPER+TAB", "ws-sticky:apps", "ws-sticky:apps/raise", "ws-sticky:apps/spawn"] {
        assert!(tail.contains(&format!("[\"{name}\"] = true")), "{tail}");
    }
    assert!(tail.contains("hl.get_current_submap()") && tail.contains("hl.dispatch(hl.dsp.submap(\"reset\"))"), "{tail}");
}

#[test]
fn sticky_nested_and_explicit_keys() {
    let extra = r#"
[sticky.win]
enter = "SUPER+W"
[sticky.win.keys]
m = { state = "move" }
[sticky.win.states.move]
[sticky.win.states.move.keys]
h = { action = { half = "left" } }
q = { dispatch = "window.close()", exit = true, desc = "Закрыть окно" }
d = { state = "deep" }
[sticky.win.states.move.states.deep]
[sticky.win.states.move.states.deep.keys]
x = { lua = "return" }
"#;
    let cfg = parse(&(sticky_base() + extra)).unwrap();
    let lua = to_lua(&cfg).unwrap();
    assert!(lua.contains("hl.define_submap(\"ws-sticky:win/move/deep\", function()"), "{lua}");
    assert!(lua.contains("hl.bind(\"BackSpace\", hl.dsp.submap(\"ws-sticky:win/move\"), { ignore_mods = true })"), "{lua}");
    assert!(lua.contains("hl.bind(\"h\", hl.dsp.exec_cmd(\"workspaced half left\"), { ignore_mods = true })"), "{lua}");
    assert!(lua.contains("hl.bind(\"q\", function() hl.dispatch(hl.dsp.window.close()); hl.dispatch(hl.dsp.submap(\"reset\")) end, { ignore_mods = true })"), "{lua}");
    let list = to_list(&cfg).unwrap();
    assert!(list.lines().any(|l| l.starts_with("SUPER+W m d x ") && l.ends_with("sticky.win.move.deep")), "{list}");
    assert!(list.lines().any(|l| l.starts_with("SUPER+W m q ") && l.contains("exit")), "{list}");
}

#[test]
fn sticky_augment_and_replace() {
    let text = sticky_base() + &sticky_apps().replace("[sticky.apps.states.raise.keys]\ne = { exit = true }", "[sticky.apps.states.raise.keys]\ne = { exit = true }\nc = { exec = \"chromium --incognito\" }");
    let cfg = parse(&text).unwrap();
    let list = to_list(&cfg).unwrap();
    assert!(list.lines().any(|l| l.starts_with("SUPER+S r e ") && l.contains("key SUPER+E") && l.contains("exit")), "{list}");
    assert!(list.lines().any(|l| l.starts_with("SUPER+S r c ") && l.contains("exec chromium --incognito")), "{list}");
    assert_eq!(list.lines().filter(|l| l.starts_with("SUPER+S r c ")).count(), 1, "{list}");
    let bad = sticky_base() + &sticky_apps().replace("[sticky.apps.states.raise.keys]\ne = { exit = true }", "[sticky.apps.states.raise.keys]\ne = { exit = true }\nq = { exit = true }");
    let err = parse(&bad).unwrap_err().to_string();
    assert!(err.contains("sticky.apps") && err.contains("raise") && err.contains("\"q\"") && err.contains("без действия"), "{err}");
}

#[test]
fn sticky_errors() {
    let err = sticky_err(&sticky_apps().replace("SUPER+S\"\ntitle", "SHIFT+SUPER+S\"\ntitle"));
    assert!(err.contains("sticky.apps") && err.contains("keys.sessions"), "{err}");
    let err = sticky_err(&sticky_apps().replace("enter = \"SUPER+S\"", "enter = \"SUPER+space\""));
    assert!(err.contains("sticky.apps") && err.contains("\"SUPER+space\"") && err.contains("зарезервированное"), "{err}");
    let err = sticky_err(&sticky_apps().replace("enter = \"SUPER+S\"", "enter = \"SUPER+TAB\""));
    assert!(err.contains("sticky.apps") && err.contains("workspaces.surf"), "{err}");
    let err = sticky_err(&sticky_apps().replace("enter = \"SUPER+S\"", "enter = \"SUPER+A b\""));
    assert!(err.contains("sticky.apps") && err.contains("одним сочетанием"), "{err}");
    for key in ["Escape", "\"SHIFT+v\"", "BackSpace", "\"mouse:272\""] {
        let err = sticky_err(&sticky_apps().replace("s = { state = \"spawn\" }", &format!("s = {{ state = \"spawn\" }}\n{key} = {{ exec = \"true\" }}")));
        assert!(err.contains("sticky.apps") && err.contains("корневое состояние") && err.contains(key.trim_matches('"')), "{key}: {err}");
    }
    let err = sticky_err(&sticky_apps().replace("[sticky.apps.states.raise.keys]\ne = { exit = true }", "[sticky.apps.states.raise.keys]\ne = { exit = true }\ns = { state = \"spawn\" }"));
    assert!(err.contains("sticky.apps") && err.contains("состояние raise") && err.contains("spawn"), "{err}");
    let err = sticky_err(&(sticky_apps() + "[sticky.apps.states.move]\napps = \"raise\"\n"));
    assert!(err.contains("sticky.apps") && err.contains("move") && err.contains("не ведёт"), "{err}");
    let err = sticky_err(&(sticky_apps().replace("s = { state = \"spawn\" }", "s = { state = \"spawn\" }\nm = { state = \"move\" }") + "[sticky.apps.states.move]\ntitle = \"Пусто\"\n"));
    assert!(err.contains("состояние move") && err.contains("нет ни одной клавиши"), "{err}");
    let err = sticky_err(&sticky_apps().replace("apps = \"raise\"", "apps = \"lift\""));
    assert!(err.contains("raise, spawn") && err.contains("lift"), "{err}");
    let err = sticky_err(&sticky_apps().replace("r = { state = \"raise\" }", "r = { state = \"raise\", exit = true }"));
    assert!(err.contains("exit") && err.contains("\"r\""), "{err}");
    let err = sticky_err(&sticky_apps().replace("r = { state = \"raise\" }", "r = { state = \"raise\", exec = \"true\" }"));
    assert!(err.contains("несколько действий"), "{err}");
    let err = sticky_err("[sticky.Apps]\nenter = \"SUPER+S\"\nkeys = { x = { exec = \"true\" } }\n");
    assert!(err.contains("sticky.Apps") && err.contains("строчных"), "{err}");
    let err = sticky_err("[sticky.apps]\nkeys = { x = { exec = \"true\" } }\n");
    assert!(err.contains("sticky.apps") && err.contains("enter"), "{err}");
    let err = sticky_err("[sticky.apps]\nenter = \"SUPER+S\"\nkeys = { x = { action = { app = \"nope\" } } }\n");
    assert!(err.contains("nope"), "{err}");
}

#[test]
fn chains_become_modes() {
    let text = base()
        + r#"
[keys]
next_workspace = "SUPER+Tab Tab"
[[binds]]
chain = "SUPER+TAB v"
exec = "true"
locked = true
[[binds]]
chain = "SUPER+W 3 f"
action = { desktop = 3, workspace = "dev-front" }
"#;
    let cfg = parse(&text).unwrap();
    let nodes = sticky_nodes(&cfg).unwrap();
    let subs: Vec<&str> = nodes.iter().map(|n| n.submap.as_str()).collect();
    assert_eq!(subs, ["ws-sticky:SUPER+Tab", "ws-sticky:SUPER+A", "ws-sticky:SUPER+W", "ws-sticky:SUPER+W/3"]);
    let tab = &nodes[0];
    assert_eq!(tab.titles, ["Super+Tab"]);
    let keys: Vec<(&str, bool)> = tab.keys.iter().map(|k| (k.key.as_str(), k.exit)).collect();
    assert_eq!(keys, [("Tab", true), ("v", true)]);
    assert_eq!(tab.source, "keys.next_workspace,binds[0]");
    let w = &nodes[2];
    assert_eq!(w.keys[1].go, StickyGo::State("3".into()));
    assert!(!w.keys[1].exit && w.keys[0].exit);
    assert_eq!(nodes[3].titles, ["Super+W", "3"]);
    assert_eq!(nodes[3].parent.as_deref(), Some("ws-sticky:SUPER+W"));
    let lua = to_lua(&cfg).unwrap();
    assert_eq!(lua.matches("hl.bind(\"SUPER + TAB\", ").count() + lua.matches("hl.bind(\"SUPER + Tab\", ").count(), 1, "{lua}");
    let block = sticky_block(&lua, "ws-sticky:SUPER+Tab");
    assert!(block.contains("hl.bind(\"v\", ws_run(\"true\"), { locked = true, ignore_mods = true })"), "{block}");
    let list = to_list(&cfg).unwrap();
    assert!(list.lines().any(|l| l.starts_with("SUPER+TAB v ") && l.contains("locked,exit")), "{list}");
    assert!(list.lines().any(|l| l.starts_with("SUPER+W 3 f ") && l.contains(" exit ")), "{list}");
}

#[test]
fn chain_mode_errors() {
    for key in ["Escape", "BackSpace", "SUPER+Escape"] {
        let text = base() + &format!("\n[[binds]]\nchain = \"SUPER+X {key}\"\nexec = \"true\"\n");
        let err = parse(&text).unwrap_err().to_string();
        assert!(err.contains(&format!("SUPER+X {key}")) && err.contains("binds[0]") && err.contains("Escape и BackSpace"), "{key}: {err}");
    }
    let text = base() + "\n[[binds]]\nchain = \"SUPER+X w\"\nexec = \"true\"\n[[binds]]\nchain = \"SUPER+X SUPER+w\"\nexec = \"false\"\n";
    let err = parse(&text).unwrap_err().to_string();
    assert!(err.contains("SUPER+X w") && err.contains("SUPER+X SUPER+w") && err.contains("неразличимы"), "{err}");
    let text = base() + "\n[[binds]]\nchain = \"SUPER+X SUPER+w\"\nexec = \"true\"\n[[binds]]\nchain = \"SUPER+X CTRL+w\"\nexec = \"false\"\n";
    parse(&text).unwrap();
    let text = base() + "\n[[binds]]\nchain = \"SUPER+W f 3\"\nexec = \"true\"\n";
    let err = parse(&text).unwrap_err().to_string();
    assert!(err.contains("является началом") && err.contains("workspaces.dev-front") && err.contains("binds[0]"), "{err}");
    let text = sticky_base() + "[sticky.f1]\nenter = \"SUPER+S\"\nkeys = { x = { exec = \"true\" } }\n[[binds]]\nchain = \"f1 x\"\nexec = \"true\"\n";
    let err = parse(&text).unwrap_err().to_string();
    assert!(err.contains("ws-sticky:f1") && err.contains("sticky.f1") && err.contains("binds[0]"), "{err}");
}

#[test]
fn new_instance_action() {
    let text = sticky_base() + "[[binds]]\nchain = \"SUPER+SHIFT+E\"\naction = { app = \"neovide\", new = true }\n";
    let cfg = parse(&text).unwrap();
    let list = to_list(&cfg).unwrap();
    assert!(list.lines().any(|l| l.starts_with("SUPER+SHIFT+E ") && l.contains("app neovide --new")), "{list}");
    for bad in ["{ workspace = \"surf\", new = true }", "{ app = \"neovide\", workspace = \"surf\", new = true }", "{ app = \"neovide\", pull = true, new = true }"] {
        let text = sticky_base() + &format!("[[binds]]\nchain = \"SUPER+SHIFT+E\"\naction = {bad}\n");
        let err = parse(&text).unwrap_err().to_string();
        assert!(err.contains("SUPER+SHIFT+E") && err.contains("new"), "{bad}: {err}");
    }
    let text = sticky_base() + "[sticky.apps]\nenter = \"SUPER+S\"\nkeys = { n = { action = { app = \"neovide\", new = true }, exit = true } }\n";
    let lua = to_lua(&parse(&text).unwrap()).unwrap();
    assert!(lua.contains("hl.bind(\"n\", ws_run(\"workspaced app neovide --new\"), { ignore_mods = true })"), "{lua}");
}
