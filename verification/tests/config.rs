//! The configuration: its sections, checks, places and surroundings of commands.
use workspaced::config::Mode;
use workspaced::config::{
    new_apps, put_app, Action, App, Bind, Config, Desk, Dispatch, HalfAction, Keys, MoveAction, PlaceAction, Placement, Startup,
    StickyKey, StickyState, TargetAction, Template, Workspace, WsApp,
};
use workspaced::lookup::expand;
use workspaced::rect::PxRect;
use workspaced::rect::{Coord, Rect};
use workspaced::table::Table;

/// The monitor that shares of the screen are taken of.
const MON: (i32, i32) = (3840, 2160);

fn opt_text(t: &toml::Table, k: &str) -> Option<String> {
    t.get(k).map(|v| v.as_str().unwrap_or_else(|| panic!("{k}: not a text")).to_string())
}

fn text_list(t: &toml::Table, k: &str) -> Vec<String> {
    t.get(k).map(|v| v.as_array().unwrap().iter().map(|x| x.as_str().unwrap().to_string()).collect()).unwrap_or_default()
}

fn flag(t: &toml::Table, k: &str) -> bool {
    t.get(k).is_some_and(|v| v.as_bool().unwrap())
}

fn part(t: &toml::Table, k: &str) -> toml::Table {
    t.get(k).map(|v| v.as_table().unwrap().clone()).unwrap_or_default()
}

fn texts(t: &toml::Table, k: &str) -> Table<String> {
    let mut out = Table::new();
    for (name, v) in part(t, k) {
        out.insert(name, v.as_str().unwrap().to_string());
    }
    out
}

fn coord(v: &toml::Value, axis: i32) -> Coord {
    match v {
        toml::Value::Integer(n) => Coord::Px(*n as i32),
        toml::Value::Float(f) => Coord::Px(f.round() as i32),
        toml::Value::String(s) => {
            let p: f64 = s.trim().strip_suffix('%').unwrap().trim().parse().unwrap();
            Coord::Percent { bits: p.to_bits(), px: (axis as f64 * p / 100.0).round() as i32 }
        }
        other => panic!("not a coordinate: {other}"),
    }
}

fn rect(v: &toml::Value) -> Rect {
    let t = v.as_table().unwrap();
    Rect { x: coord(&t["x"], MON.0), y: coord(&t["y"], MON.1), w: coord(&t["w"], MON.0), h: coord(&t["h"], MON.1) }
}

fn placement(v: &toml::Value) -> WsApp {
    match v {
        toml::Value::String(s) => WsApp { place: Placement::Cell(s.clone()), chain: None, mode: None },
        toml::Value::Table(t) => {
            let place = match t.get("rect") {
                Some(r) => Placement::Rect { rect: rect(r) },
                None => Placement::Cell(opt_text(t, "cell").unwrap()),
            };
            WsApp { place, chain: opt_text(t, "chain"), mode: opt_text(t, "mode") }
        }
        other => panic!("not a place: {other}"),
    }
}

fn action(v: &toml::Value) -> Action {
    let t = match v {
        toml::Value::String(s) => return Action::Named(s.clone()),
        toml::Value::Table(t) => t,
        other => panic!("not an action: {other}"),
    };
    if let Some(half) = opt_text(t, "half") {
        return Action::Half(HalfAction { half });
    }
    if let Some(place) = opt_text(t, "place") {
        return Action::Place(PlaceAction { place });
    }
    match t.get("move") {
        Some(toml::Value::Integer(n)) => Action::Move(MoveAction { desktop: Desk::Num(*n) }),
        Some(v) => Action::Move(MoveAction { desktop: Desk::Str(v.as_str().unwrap().to_string()) }),
        None => Action::Target(TargetAction {
            desktop: t.get("desktop").map(|v| v.as_integer().unwrap() as u8),
            workspace: opt_text(t, "workspace"),
            app: opt_text(t, "app"),
            pull: t.get("pull").map(|v| v.as_bool().unwrap()),
            new: t.get("new").map(|v| v.as_bool().unwrap()),
        }),
    }
}

fn dispatchers(t: &toml::Table) -> Option<Dispatch> {
    t.get("dispatch").map(|v| match v {
        toml::Value::String(s) => Dispatch::One(s.clone()),
        _ => Dispatch::Many(text_list(t, "dispatch")),
    })
}

fn bind(v: &toml::Value) -> Bind {
    let t = v.as_table().unwrap();
    Bind {
        chain: opt_text(t, "chain").unwrap(),
        action: t.get("action").map(action),
        run: opt_text(t, "exec"),
        dispatch: dispatchers(t),
        lua: opt_text(t, "lua"),
        range: t.get("range").map(|v| (v[0].as_integer().unwrap(), v[1].as_integer().unwrap())),
        locked: flag(t, "locked"),
        repeating: flag(t, "repeating"),
        mouse: flag(t, "mouse"),
        release: flag(t, "release"),
        desc: opt_text(t, "desc"),
        group: opt_text(t, "group"),
    }
}

fn sticky_key(v: &toml::Value) -> StickyKey {
    let t = v.as_table().unwrap();
    StickyKey {
        action: t.get("action").map(action),
        run: opt_text(t, "exec"),
        dispatch: dispatchers(t),
        lua: opt_text(t, "lua"),
        state: opt_text(t, "state"),
        exit: flag(t, "exit"),
        desc: opt_text(t, "desc"),
    }
}

fn sticky(v: &toml::Value) -> StickyState {
    let t = v.as_table().unwrap();
    StickyState {
        enter: opt_text(t, "enter"),
        title: opt_text(t, "title"),
        apps: opt_text(t, "apps"),
        keys: part(t, "keys").iter().map(|(k, v)| (k.clone(), sticky_key(v))).collect(),
        states: part(t, "states").iter().map(|(k, v)| (k.clone(), sticky(v))).collect(),
    }
}

/// The configuration that a text describes, unchecked.
fn read(text: &str) -> Config {
    let root: toml::Table = text.parse().unwrap_or_else(|e| panic!("{e}\n{text}"));
    let keys = part(&root, "keys");
    let mut templates = Table::new();
    for (name, v) in part(&root, "templates") {
        let t = v.as_table().unwrap();
        let mut cells = Table::new();
        for (cell, r) in part(t, "cells") {
            cells.insert(cell, rect(&r));
        }
        templates.insert(name, Template { main: opt_text(t, "main").unwrap(), cells });
    }
    let mut apps = Table::new();
    for (name, v) in part(&root, "apps") {
        let t = v.as_table().unwrap();
        apps.insert(
            name,
            App {
                cmd: opt_text(t, "cmd"),
                args: text_list(t, "args"),
                cwd: opt_text(t, "cwd"),
                env: texts(t, "env"),
                chain: opt_text(t, "chain"),
                class: opt_text(t, "class"),
                title: opt_text(t, "title"),
                family: opt_text(t, "family"),
                rect: t.get("rect").map(rect),
                dialog_title: opt_text(t, "dialog_title"),
            },
        );
    }
    let mut workspaces = Table::new();
    for (name, v) in part(&root, "workspaces") {
        let t = v.as_table().unwrap();
        let mut list = new_apps();
        for (app, place) in part(t, "apps") {
            put_app(&mut list, app, placement(&place));
        }
        workspaces.insert(
            name,
            Workspace {
                template: opt_text(t, "template").unwrap(),
                main: opt_text(t, "main"),
                icon: opt_text(t, "icon"),
                chain: opt_text(t, "chain"),
                env: texts(t, "env"),
                mode: opt_text(t, "mode").unwrap_or("swap".to_string()),
                apps: list,
            },
        );
    }
    Config {
        env: texts(&root, "env"),
        keys: Keys {
            save_session: opt_text(&keys, "save_session"),
            save_workspace: opt_text(&keys, "save_workspace"),
            sessions: opt_text(&keys, "sessions"),
            next_workspace: opt_text(&keys, "next_workspace"),
            reserved: text_list(&keys, "reserved"),
            reserved_desc: texts(&keys, "reserved_desc"),
        },
        gap: root.get("gap").map(|v| v.as_integer().unwrap() as i32).unwrap_or(0),
        templates,
        apps,
        ignore_classes: text_list(&root, "ignore_classes"),
        workspaces,
        binds: root.get("binds").map(|v| v.as_array().unwrap().iter().map(bind).collect()).unwrap_or_default(),
        startup: root.get("startup").map(|v| {
            let t = v.as_table().unwrap();
            Startup { workspace: opt_text(t, "workspace").unwrap(), desktop: t.get("desktop").map(|d| d.as_integer().unwrap() as u8).unwrap_or(1) }
        }),
        sticky: part(&root, "sticky").iter().map(|(k, v)| (k.clone(), sticky(v))).collect(),
    }
}

/// The configuration that a text describes, or its fault.
fn parse(text: &str) -> Result<Config, String> {
    let cfg = read(text);
    cfg.validate()?;
    Ok(cfg)
}

const HOME: &str = "/home/user";

/// What the process has around it.
fn outer() -> Table<String> {
    let mut t = Table::new();
    t.insert("HOME".to_string(), HOME.to_string());
    t
}

const MINIMAL: &str = r#"
[templates.halves]
main = "right"
[templates.halves.cells]
left  = { x = 330, y = 0, w = "50%", h = "100%" }
right = { x = "50%", y = 0, w = "50%", h = "100%" }

[apps.terminal]
cmd = "wezterm-gui"

[workspaces.work]
template = "halves"
main = "terminal"
apps = { terminal = "right" }
"#;

#[test]
fn minimal_config() {
    let cfg = parse(MINIMAL).unwrap();
    assert_eq!(cfg.templates.len(), 1);
    assert_eq!(cfg.apps.len(), 1);
    assert_eq!(cfg.workspaces.len(), 1);
}

#[test]
fn named_actions_in_binds() {
    let ok = format!("{MINIMAL}\n[[binds]]\nchain = \"SUPER+X\"\naction = \"maximize\"\n");
    parse(&ok).unwrap();
    let bad = format!("{MINIMAL}\n[[binds]]\nchain = \"SUPER+X\"\naction = \"maximise\"\n");
    let err = parse(&bad).unwrap_err().to_string();
    assert!(err.contains("SUPER+X") && err.contains("maximise"), "{err}");
}

#[test]
fn place_action_in_binds() {
    let ok = format!("{MINIMAL}\n[[binds]]\nchain = \"ALT+SUPER+Home\"\naction = {{ place = \"top-left\" }}\n");
    let cfg = parse(&ok).unwrap();
    assert_eq!(cfg.binds[0].action, Some(Action::Place(PlaceAction { place: "top-left".into() })));
    let bad = format!("{MINIMAL}\n[[binds]]\nchain = \"ALT+SUPER+Home\"\naction = {{ place = \"left\" }}\n");
    let err = parse(&bad).unwrap_err().to_string();
    assert!(err.contains("Home") && err.contains("top-left") && err.contains("full"), "{err}");
}

#[test]
fn class_title_and_startup() {
    let ok = format!("{MINIMAL}\n[apps.terminal]\nclass = \"^org\\\\.wezfurlong\\\\.wezterm$\"\ntitle = \"^herdr · \"\n[startup]\nworkspace = \"work\"\n");
    let ok = ok
        .replace(
            "[apps.terminal]\ncmd = \"wezterm-gui\"\n",
            "[apps.terminal]\ncmd = \"wezterm-gui\"\nclass = \"^org\\\\.wezfurlong\\\\.wezterm$\"\ntitle = \"^herdr · \"\n",
        )
        .replace("\n[apps.terminal]\nclass", "\n[apps.unused]\ncmd = \"x\"\nclass");
    let cfg = parse(&ok).unwrap();
    assert_eq!(cfg.startup.as_ref().map(|s| (s.workspace.as_str(), s.desktop)), Some(("work", 1)));
    let (class, title) = cfg.apps.get("terminal").unwrap().matchers().unwrap().unwrap();
    assert!(class.is_match("org.wezfurlong.wezterm") && !class.is_match("org.wezfurlong.wezterm2"));
    assert!(title.unwrap().is_match("herdr · dev-lab"));
    let title_only = format!("{MINIMAL}\n[apps.a]\ncmd = \"a\"\ntitle = \"x\"\n");
    assert!(parse(&title_only).unwrap_err().to_string().contains("приложение a"));
    let bad_re = format!("{MINIMAL}\n[apps.a]\ncmd = \"a\"\nclass = \"(\"\n");
    assert!(format!("{:#}", parse(&bad_re).unwrap_err()).contains("class"));
    let bad_ws = format!("{MINIMAL}\n[startup]\nworkspace = \"nope\"\n");
    assert!(parse(&bad_ws).unwrap_err().to_string().contains("nope"));
    let bad_desk = format!("{MINIMAL}\n[startup]\nworkspace = \"work\"\ndesktop = 9\n");
    assert!(parse(&bad_desk).unwrap_err().to_string().contains("1…8"));
}

#[test]
fn workspace_mode_and_app_order() {
    let cfg = parse(MINIMAL).unwrap();
    assert_eq!(cfg.workspaces.get("work").unwrap().mode(), Mode::Swap);

    let text = MINIMAL.replace(
        "[apps.terminal]\ncmd = \"wezterm-gui\"\n",
        "[apps.terminal]\ncmd = \"wezterm-gui\"\n[apps.browser]\ncmd = \"chromium\"\n[apps.editor]\ncmd = \"neovide\"\n",
    )
    .replace(
        "apps = { terminal = \"right\" }",
        "mode = \"stack\"\napps = { terminal = \"right\", editor = \"left\", browser = \"left\" }",
    );
    let cfg = parse(&text).unwrap();
    assert_eq!(cfg.workspaces.get("work").unwrap().mode(), Mode::Stack);
    assert_eq!(cfg.workspaces.get("work").unwrap().apps.keys().map(String::as_str).collect::<Vec<_>>(), vec!["terminal", "editor", "browser"]);

    let bad = text.replace("mode = \"stack\"", "mode = \"stak\"");
    let err = parse(&bad).unwrap_err().to_string();
    assert!(err.contains("work") && err.contains("stak") && err.contains("swap") && err.contains("stack"), "{err}");
}

#[test]
fn family_and_variant() {
    let ok = format!(
        "{MINIMAL}\n[apps.wezterm]\ncmd = \"wezterm-gui\"\nclass = \"^org\\\\.wezfurlong\\\\.wezterm$\"\n[apps.herdr]\nfamily = \"wezterm\"\ncmd = \"wezterm-gui\"\nclass = \"^wezterm-herdr$\"\n"
    );
    let cfg = parse(&ok).unwrap();
    assert_eq!(cfg.family_of("herdr"), Some("wezterm"));
    assert_eq!(cfg.family_of("wezterm"), None);
    assert_eq!(cfg.variants_of("wezterm"), vec!["herdr"]);
    assert!(cfg.app_is("herdr", "wezterm") && cfg.app_is("herdr", "herdr") && !cfg.app_is("wezterm", "herdr"));

    let no_family = ok.replace("family = \"wezterm\"", "family = \"weztermm\"");
    let err = parse(&no_family).unwrap_err().to_string();
    assert!(err.contains("herdr") && err.contains("weztermm"), "{err}");

    let deep = format!("{ok}[apps.herdr-lab]\nfamily = \"herdr\"\ncmd = \"wezterm-gui\"\nclass = \"^wezterm-herdr-lab$\"\n");
    let err = parse(&deep).unwrap_err().to_string();
    assert!(err.contains("herdr-lab") && err.contains("уровней ровно два"), "{err}");

    let selfish = ok.replace("family = \"wezterm\"", "family = \"herdr\"");
    let err = parse(&selfish).unwrap_err().to_string();
    assert!(err.contains("herdr") && err.contains("само приложение"), "{err}");
}

#[test]
fn app_without_cmd_and_invalid_names() {
    let only_class = format!("{MINIMAL}\n[apps.wezterm]\nclass = \"^org\\\\.wezfurlong\\\\.wezterm$\"\n");
    let cfg = parse(&only_class).unwrap();
    assert!(cfg.apps.get("wezterm").unwrap().cmd.is_none());
    assert!(cfg.app_command(None, cfg.apps.get("wezterm").unwrap(), &outer()).is_none());

    let empty = format!("{MINIMAL}\n[apps.wezterm]\nchain = \"SUPER+W\"\n");
    let err = parse(&empty).unwrap_err().to_string();
    assert!(err.contains("wezterm") && err.contains("cmd") && err.contains("class"), "{err}");

    for bad in ["chrome#ai", "chrome:ai"] {
        let text = format!("{MINIMAL}\n[apps.\"{bad}\"]\ncmd = \"x\"\n");
        let err = parse(&text).unwrap_err().to_string();
        assert!(err.contains(bad), "{err}");
    }
}

#[test]
fn dialog_title_and_ignore_classes() {
    let text = format!(
        "ignore_classes = [\"termfilechooser\", \"pinentry.*\"]\n{MINIMAL}\n[apps.chrome]\ncmd = \"google-chrome\"\nclass = \"(?i)^google-chrome$\"\ndialog_title = \"^(Диспетчер задач|Task Manager)$\"\n"
    );
    let cfg = parse(&text).unwrap();
    let chrome = cfg.apps.get("chrome").unwrap();
    assert!(chrome.is_dialog("Диспетчер задач") && chrome.is_dialog("Task Manager"));
    assert!(!chrome.is_dialog("Новая вкладка - Google Chrome"));
    assert!(!cfg.apps.get("terminal").unwrap().is_dialog("Диспетчер задач"));
    assert!(cfg.ignored_class("termfilechooser") && cfg.ignored_class("pinentry-gtk"));
    assert!(!cfg.ignored_class("termfilechooser-2") && !cfg.ignored_class("chromium"));

    let no_class = format!("{MINIMAL}\n[apps.a]\ncmd = \"a\"\ndialog_title = \"x\"\n");
    let err = parse(&no_class).unwrap_err().to_string();
    assert!(err.contains("приложение a") && err.contains("dialog_title"), "{err}");
    let bad = text.replace("dialog_title = \"^(Диспетчер задач|Task Manager)$\"", "dialog_title = \"(\"");
    assert!(format!("{:#}", parse(&bad).unwrap_err()).contains("dialog_title"));
    let bad = text.replace("\"pinentry.*\"", "\"(\"");
    assert!(format!("{:#}", parse(&bad).unwrap_err()).contains("ignore_classes"));
}

#[test]
fn detach_action_in_binds() {
    let ok = format!("{MINIMAL}\n[[binds]]\nchain = \"SUPER+BackSpace\"\naction = \"detach\"\n");
    let cfg = parse(&ok).unwrap();
    assert_eq!(cfg.binds[0].action, Some(Action::Named("detach".into())));
    let bad = ok.replace("\"detach\"", "\"detahc\"");
    let err = parse(&bad).unwrap_err().to_string();
    assert!(err.contains("BackSpace") && err.contains("detahc"), "{err}");
}

#[test]
fn app_default_rect() {
    let text = format!("{MINIMAL}\n[apps.calc]\ncmd = \"galculator\"\nrect = {{ x = 2600, y = 1500, w = 600, h = 400 }}\n");
    let cfg = parse(&text).unwrap();
    let r = cfg.apps.get("calc").unwrap().rect.as_ref().unwrap().resolve();
    assert_eq!(r, PxRect { x: 2600, y: 1500, w: 600, h: 400 });
    assert!(cfg.apps.get("terminal").unwrap().rect.is_none());
}

#[test]
fn percent_and_pixels_in_one_cell() {
    let cfg = parse(MINIMAL).unwrap();
    let cell = cfg.templates.get("halves").unwrap().cells.get("left").unwrap();
    assert_eq!(cell.resolve(), PxRect { x: 330, y: 0, w: 1920, h: 2160 });
}

#[test]
fn negative_and_oversized_rect() {
    let cfg = parse(&MINIMAL.replace(
        "left  = { x = 330, y = 0, w = \"50%\", h = \"100%\" }",
        "left  = { x = -400, y = \"-10%\", w = 5000, h = \"120%\" }",
    ))
    .unwrap();
    let r = cfg.templates.get("halves").unwrap().cells.get("left").unwrap().resolve();
    assert_eq!(r, PxRect { x: -400, y: -216, w: 5000, h: 2592 });
    assert_eq!(r.inset(5), PxRect { x: -395, y: -211, w: 4990, h: 2582 });
}

#[test]
fn unknown_cell_is_error() {
    let text = MINIMAL.replace("apps = { terminal = \"right\" }", "apps = { terminal = \"top\" }");
    let err = parse(&text).unwrap_err().to_string();
    assert!(err.contains("work") && err.contains("terminal") && err.contains("top"), "{err}");
}

#[test]
fn env_layers_and_substitution() {
    let text = r#"
[env]
NODE_ENV = "production"
[templates.t]
main = "c"
cells = { c = { x = 0, y = 0, w = 10, h = 10 } }
[apps.term]
cmd = "wezterm-gui"
args = ["--cwd", "$ROOT"]
env = { NODE_ENV = "test" }
[apps.plain]
cmd = "true"
[workspaces.w]
template = "t"
env = { ROOT = "~/work/front-end", NODE_ENV = "development" }
apps = { term = "c", plain = "c" }
"#;
    let cfg = parse(text).unwrap();
    let ws = cfg.workspaces.get("w").unwrap();
    let home = HOME;
    let (_, args, _, env) = cfg.app_command(Some(ws), cfg.apps.get("term").unwrap(), &outer()).unwrap();
    assert_eq!(args, vec!["--cwd".to_string(), format!("{home}/work/front-end")]);
    assert_eq!(*env.get("ROOT").unwrap(), format!("{home}/work/front-end"));
    assert_eq!(env.get("NODE_ENV").unwrap(), "test");
    let env2 = cfg.app_env(Some(ws), cfg.apps.get("plain").unwrap(), &outer());
    assert_eq!(env2.get("NODE_ENV").unwrap(), "development");
    let env3 = cfg.app_env(None, cfg.apps.get("plain").unwrap(), &outer());
    assert_eq!(env3.get("NODE_ENV").unwrap(), "production");
}

#[test]
fn expand_forms() {
    let mut env = Table::new();
    env.insert("A".to_string(), "x".to_string());
    assert_eq!(expand("$A/${A}/$NOPE_VAR_Q/$", &env, &outer()), "x/x//$");
    assert_eq!(expand("~", &env, &outer()), HOME);
    assert_eq!(expand("a~b", &env, &outer()), "a~b");
    let home = HOME;
    assert_eq!(expand("--user-data-dir=~/.config/x", &env, &outer()), "--user-data-dir=~/.config/x");
    assert_eq!(expand("--user-data-dir=$HOME/.config/x", &env, &outer()), format!("--user-data-dir={home}/.config/x"));
}
