//! What holds of the library as a whole, on concrete values.
use workspaced::area::{grid_cell, half_rect, maximize_rect, place_rect};
use workspaced::chain::{chain_compact, parse_chain, same_chain};
use workspaced::config::{
    new_apps, put_app, Action, App, Bind, Config, Desk, Dispatch, HalfAction, Keys, MoveAction, PlaceAction, Placement, Startup,
    StickyKey, StickyState, TargetAction, Template, Workspace, WsApp,
};
use workspaced::cycle::{open_new, CycleAct};
use workspaced::desktop::{assign_desktop, next_ws, successor};
use workspaced::events::maximize;
use workspaced::extra::{detach_step, DetachStep};
use workspaced::help::{entries, grouped};
use workspaced::home::{actives, depth_plan, follow_plan, window_home, Home, Spot};
use workspaced::hypr::{Client, WsRef};
use workspaced::keys::shell_quote;
use workspaced::layout::{drop_moved, swap_places};
use workspaced::lookup::expand;
use workspaced::lua::{lua_str, to_lua};
use workspaced::member::{derive_membership, share_plan};
use workspaced::pending::{session_target, Target};
use workspaced::rect::{Coord, PxRect, Rect};
use workspaced::report::summary;
use workspaced::route::{cycle_step, route_step, AppRoute, CycleStep, RouteStep, Start};
use workspaced::state::{Desktop, Moved, Place, State};
use workspaced::table::Table;
use workspaced::windows::{app_for_window, app_windows};

/// The monitor that shares of the screen are taken of.
const MON: (i32, i32) = (3840, 2160);

fn opt_text(t: &toml::Table, k: &str) -> Option<String> {
    t.get(k).map(|v| v.as_str().unwrap_or_else(|| panic!("{k}: not a text")).to_string())
}

fn text_list(t: &toml::Table, k: &str) -> Vec<String> {
    t.get(k).map(|v| v.as_array().unwrap().iter().map(|x| x.as_str().unwrap().to_string()).collect()).unwrap_or_default()
}

fn flag(t: &toml::Table, k: &str) -> bool {
    t.get(k).is_some_and(|v| v.as_bool().unwrap())
}

fn part(t: &toml::Table, k: &str) -> toml::Table {
    t.get(k).map(|v| v.as_table().unwrap().clone()).unwrap_or_default()
}

fn texts(t: &toml::Table, k: &str) -> Table<String> {
    let mut out = Table::new();
    for (name, v) in part(t, k) {
        out.insert(name, v.as_str().unwrap().to_string());
    }
    out
}

fn coord(v: &toml::Value, axis: i32) -> Coord {
    match v {
        toml::Value::Integer(n) => Coord::Px(*n as i32),
        toml::Value::Float(f) => Coord::Px(f.round() as i32),
        toml::Value::String(s) => {
            let p: f64 = s.trim().strip_suffix('%').unwrap().trim().parse().unwrap();
            Coord::Percent { bits: p.to_bits(), px: (axis as f64 * p / 100.0).round() as i32 }
        }
        other => panic!("not a coordinate: {other}"),
    }
}

fn rect(v: &toml::Value) -> Rect {
    let t = v.as_table().unwrap();
    Rect { x: coord(&t["x"], MON.0), y: coord(&t["y"], MON.1), w: coord(&t["w"], MON.0), h: coord(&t["h"], MON.1) }
}

fn placement(v: &toml::Value) -> WsApp {
    match v {
        toml::Value::String(s) => WsApp { place: Placement::Cell(s.clone()), chain: None, mode: None },
        toml::Value::Table(t) => {
            let place = match t.get("rect") {
                Some(r) => Placement::Rect { rect: rect(r) },
                None => Placement::Cell(opt_text(t, "cell").unwrap()),
            };
            WsApp { place, chain: opt_text(t, "chain"), mode: opt_text(t, "mode") }
        }
        other => panic!("not a place: {other}"),
    }
}

fn action(v: &toml::Value) -> Action {
    let t = match v {
        toml::Value::String(s) => return Action::Named(s.clone()),
        toml::Value::Table(t) => t,
        other => panic!("not an action: {other}"),
    };
    if let Some(half) = opt_text(t, "half") {
        return Action::Half(HalfAction { half });
    }
    if let Some(place) = opt_text(t, "place") {
        return Action::Place(PlaceAction { place });
    }
    match t.get("move") {
        Some(toml::Value::Integer(n)) => Action::Move(MoveAction { desktop: Desk::Num(*n) }),
        Some(v) => Action::Move(MoveAction { desktop: Desk::Str(v.as_str().unwrap().to_string()) }),
        None => Action::Target(TargetAction {
            desktop: t.get("desktop").map(|v| v.as_integer().unwrap() as u8),
            workspace: opt_text(t, "workspace"),
            app: opt_text(t, "app"),
            pull: t.get("pull").map(|v| v.as_bool().unwrap()),
            new: t.get("new").map(|v| v.as_bool().unwrap()),
        }),
    }
}

fn dispatchers(t: &toml::Table) -> Option<Dispatch> {
    t.get("dispatch").map(|v| match v {
        toml::Value::String(s) => Dispatch::One(s.clone()),
        _ => Dispatch::Many(text_list(t, "dispatch")),
    })
}

fn bind(v: &toml::Value) -> Bind {
    let t = v.as_table().unwrap();
    Bind {
        chain: opt_text(t, "chain").unwrap(),
        action: t.get("action").map(action),
        run: opt_text(t, "exec"),
        dispatch: dispatchers(t),
        lua: opt_text(t, "lua"),
        range: t.get("range").map(|v| (v[0].as_integer().unwrap(), v[1].as_integer().unwrap())),
        locked: flag(t, "locked"),
        repeating: flag(t, "repeating"),
        mouse: flag(t, "mouse"),
        release: flag(t, "release"),
        desc: opt_text(t, "desc"),
        group: opt_text(t, "group"),
    }
}

fn sticky_key(v: &toml::Value) -> StickyKey {
    let t = v.as_table().unwrap();
    StickyKey {
        action: t.get("action").map(action),
        run: opt_text(t, "exec"),
        dispatch: dispatchers(t),
        lua: opt_text(t, "lua"),
        state: opt_text(t, "state"),
        exit: flag(t, "exit"),
        desc: opt_text(t, "desc"),
    }
}

fn sticky(v: &toml::Value) -> StickyState {
    let t = v.as_table().unwrap();
    StickyState {
        enter: opt_text(t, "enter"),
        title: opt_text(t, "title"),
        apps: opt_text(t, "apps"),
        keys: part(t, "keys").iter().map(|(k, v)| (k.clone(), sticky_key(v))).collect(),
        states: part(t, "states").iter().map(|(k, v)| (k.clone(), sticky(v))).collect(),
    }
}

/// The configuration that a text describes, unchecked.
fn read(text: &str) -> Config {
    let root: toml::Table = text.parse().unwrap_or_else(|e| panic!("{e}\n{text}"));
    let keys = part(&root, "keys");
    let mut templates = Table::new();
    for (name, v) in part(&root, "templates") {
        let t = v.as_table().unwrap();
        let mut cells = Table::new();
        for (cell, r) in part(t, "cells") {
            cells.insert(cell, rect(&r));
        }
        templates.insert(name, Template { main: opt_text(t, "main").unwrap(), cells });
    }
    let mut apps = Table::new();
    for (name, v) in part(&root, "apps") {
        let t = v.as_table().unwrap();
        apps.insert(
            name,
            App {
                cmd: opt_text(t, "cmd"),
                args: text_list(t, "args"),
                cwd: opt_text(t, "cwd"),
                env: texts(t, "env"),
                chain: opt_text(t, "chain"),
                class: opt_text(t, "class"),
                title: opt_text(t, "title"),
                family: opt_text(t, "family"),
                rect: t.get("rect").map(rect),
                dialog_title: opt_text(t, "dialog_title"),
            },
        );
    }
    let mut workspaces = Table::new();
    for (name, v) in part(&root, "workspaces") {
        let t = v.as_table().unwrap();
        let mut list = new_apps();
        for (app, place) in part(t, "apps") {
            put_app(&mut list, app, placement(&place));
        }
        workspaces.insert(
            name,
            Workspace {
                template: opt_text(t, "template").unwrap(),
                main: opt_text(t, "main"),
                icon: opt_text(t, "icon"),
                chain: opt_text(t, "chain"),
                env: texts(t, "env"),
                mode: opt_text(t, "mode").unwrap_or("swap".to_string()),
                apps: list,
            },
        );
    }
    Config {
        env: texts(&root, "env"),
        keys: Keys {
            save_session: opt_text(&keys, "save_session"),
            save_workspace: opt_text(&keys, "save_workspace"),
            sessions: opt_text(&keys, "sessions"),
            next_workspace: opt_text(&keys, "next_workspace"),
            reserved: text_list(&keys, "reserved"),
            reserved_desc: texts(&keys, "reserved_desc"),
        },
        gap: root.get("gap").map(|v| v.as_integer().unwrap() as i32).unwrap_or(0),
        templates,
        apps,
        ignore_classes: text_list(&root, "ignore_classes"),
        workspaces,
        binds: root.get("binds").map(|v| v.as_array().unwrap().iter().map(bind).collect()).unwrap_or_default(),
        startup: root.get("startup").map(|v| {
            let t = v.as_table().unwrap();
            Startup { workspace: opt_text(t, "workspace").unwrap(), desktop: t.get("desktop").map(|d| d.as_integer().unwrap() as u8).unwrap_or(1) }
        }),
        sticky: part(&root, "sticky").iter().map(|(k, v)| (k.clone(), sticky(v))).collect(),
    }
}

/// The configuration that a text describes, or its fault.
fn parse(text: &str) -> Result<Config, String> {
    let cfg = read(text);
    cfg.validate()?;
    Ok(cfg)
}

fn test_client(addr: &str, class: &str, title: &str, desktop: &str, tags: &[&str]) -> Client {
    Client {
        address: addr.to_string(),
        class: class.to_string(),
        title: title.to_string(),
        workspace: WsRef { id: 1, name: desktop.to_string() },
        pid: 0,
        tags: tags.iter().map(|t| t.to_string()).collect(),
        at: (0, 0),
        size: (10, 10),
        floating: true,
        mapped: true,
        fullscreen: 0,
        stable_id: String::new(),
    }
}

const CFG: &str = "
[templates.cols]
main = \"left\"
cells.left = { x = 0, y = 0, w = 1920, h = 2160 }
cells.right = { x = 1920, y = 0, w = 1920, h = 2160 }
[apps.term]
cmd = \"kitty\"
class = \"^kitty$\"
[apps.web]
cmd = \"web\"
class = \".*\"
[workspaces.work]
template = \"cols\"
main = \"term\"
apps = { term = \"left\", web = \"right\" }
[workspaces.mail]
template = \"cols\"
main = \"web\"
apps = { web = \"left\" }
";

fn texts_of(v: &[&str]) -> Vec<String> {
    v.iter().map(|s| s.to_string()).collect()
}

fn desk(list: &[&str], active: Option<&str>) -> Desktop {
    Desktop { workspaces: texts_of(list), active: active.map(String::from) }
}

fn px(x: i32, y: i32, w: i32, h: i32) -> PxRect {
    PxRect { x, y, w, h }
}

#[test]
fn halves_stand_apart() {
    let area = px(0, 40, 1001, 800);
    let left = half_rect(area, 10, "left").unwrap();
    let right = half_rect(area, 10, "right").unwrap();
    assert_eq!(left, px(20, 60, 470, 760));
    assert_eq!(right, px(510, 60, 471, 760));
    assert!(left.x + left.w <= right.x);
    let up = half_rect(area, 10, "up").unwrap();
    let down = half_rect(area, 10, "down").unwrap();
    assert_eq!(up, px(20, 60, 961, 370));
    assert_eq!(down, px(20, 450, 961, 370));
    assert_eq!(left, grid_cell(area, 10, 2, 1, 0, 0));
    assert!(half_rect(area, 10, "middle").is_err());
}

#[test]
fn cells_of_a_grid_stand_apart() {
    let area = px(0, 0, 1000, 600);
    let at = |c: i32, r: i32| grid_cell(area, 10, 3, 2, c, r);
    assert_eq!(at(0, 0), px(20, 20, 306, 270));
    assert_eq!(at(1, 0), px(346, 20, 306, 270));
    assert_eq!(at(2, 0), px(672, 20, 308, 270));
    assert_eq!(at(0, 1), px(20, 310, 306, 270));
}

#[test]
fn full_place_is_maximized() {
    let area = px(0, 40, 1001, 800);
    assert_eq!(place_rect(area, 10, "full").unwrap(), maximize_rect(area, 10));
    assert_eq!(place_rect(area, 10, "top-left").unwrap(), px(20, 60, 470, 370));
    assert_eq!(place_rect(area, 10, "center").unwrap().h, 760);
    assert_eq!(
        place_rect(area, 10, "nowhere").unwrap_err(),
        "place: неизвестная позиция \"nowhere\" (top-left, top-center, top-right, bottom-left, bottom-center, bottom-right, center, full)"
    );
}

#[test]
fn maximized_window_comes_back() {
    let mut kept = Table::new();
    let alive = texts_of(&["0xa"]);
    let (cur, full) = (px(1, 2, 3, 4), px(0, 0, 100, 100));
    assert_eq!(maximize(&mut kept, &alive, "0xa", cur, full, false), Some(full));
    assert_eq!(maximize(&mut kept, &alive, "0xa", full, full, false), Some(cur));
}

#[test]
fn next_workspace_goes_round() {
    assert_eq!(next_ws(&desk(&["a", "b", "c"], Some("c"))), Some("a".to_string()));
    assert_eq!(next_ws(&desk(&["a", "b", "c"], Some("a"))), Some("b".to_string()));
}

#[test]
fn workspace_stands_on_one_desktop() {
    let mut st = State::default();
    st.desktops.insert(1, desk(&["work", "mail"], Some("work")));
    assign_desktop(&mut st, "work", 4);
    assert_eq!(st.desktops[&1].workspaces, ["mail"]);
    assert_eq!(st.desktops[&4].workspaces, ["work"]);
    assert_eq!(successor(&texts_of(&["a", "b"]), "a", Some("b")), Some("b".to_string()));
    assert_eq!(successor(&texts_of(&["a"]), "a", None), None);
}

#[test]
fn walk_visits_each_window() {
    let order = texts_of(&["0x1", "0x2", "0x3"]);
    for (at, to) in [("0x1", "0x2"), ("0x2", "0x3")] {
        assert_eq!(cycle_step(&order, Some(at), false, None, None), CycleStep::Select(to.to_string()));
    }
}

#[test]
fn plain_text_needs_no_expansion() {
    let mut env = Table::new();
    env.insert("DIR".to_string(), "/srv".to_string());
    let outer = Table::new();
    assert_eq!(expand("/usr/bin", &env, &outer), "/usr/bin");
    assert_eq!(expand("$DIR/x", &env, &outer), "/srv/x");
}

#[test]
fn quotes_keep_the_text() {
    assert_eq!(shell_quote("a b"), "'a b'");
    assert_eq!(shell_quote("it's"), "'it'\\''s'");
    assert_eq!(shell_quote(""), "''");
    assert_eq!(lua_str("a\"b\\c\nd"), "\"a\\\"b\\\\c\\nd\"");
}

#[test]
fn chains_read_back() {
    let c = parse_chain("shift+SUPER+W  3 f").unwrap();
    let t = chain_compact(&c);
    assert!(same_chain("shift+SUPER+W  3 f", &t));
    assert_eq!(chain_compact(&parse_chain(&t).unwrap()), t);
}

#[test]
fn depth_puts_main_where_asked() {
    let order = texts_of(&["a", "m", "b"]);
    assert_eq!(depth_plan(&order, Some("m"), true), ["a", "b", "m"]);
}

#[test]
fn home_is_where_the_workspace_is_active() {
    let mut st = State::default();
    st.desktops.insert(2, desk(&["work"], Some("work")));
    let active = actives(&st);
    let own = texts_of(&["work"]);
    assert_eq!(window_home(&own, &active, 1, Spot::Pool), Home::Desktop(2));
    assert_eq!(window_home(&own, &active, 1, Spot::Hidden), Home::Keep);
    assert_eq!(window_home(&texts_of(&["mail"]), &active, 2, Spot::Desktop(2)), Home::Pool);
}

#[test]
fn detached_window_goes_home_or_closes() {
    let cfg = parse(CFG).unwrap();
    let mut desks = std::collections::BTreeMap::new();
    desks.insert(1u8, "work".to_string());
    desks.insert(3u8, "mail".to_string());
    let both = test_client("0x1", "web", "", "1", &["app:web#1", "ws:work", "ws:mail"]);
    let one = test_client("0x2", "web", "", "1", &["app:web#2", "ws:work"]);
    let extra = Table::new();
    let step = |c: &Client| detach_step(&cfg, &[], Some("work"), &extra, Some(c), &desks, 1);
    assert_eq!(step(&both), DetachStep::Leave { app: "web".into(), home: Home::Desktop(3), drop_extra: false });
    assert_eq!(step(&one), DetachStep::Close { app: "web".into(), drop_extra: false, last: true });
    assert!(matches!(detach_step(&cfg, &[], None, &extra, Some(&one), &desks, 1), DetachStep::Skip(_)));
    assert!(matches!(detach_step(&cfg, &[], Some("work"), &extra, None, &desks, 1), DetachStep::Skip(_)));
}

#[test]
fn derived_workspaces_describe_the_window() {
    let cfg = parse(CFG).unwrap();
    let mut st = State::default();
    st.desktops.insert(1, desk(&["mail"], Some("mail")));
    let list = [
        test_client("0x1", "web", "", "1", &["app:web#1"]),
        test_client("0x2", "kitty", "", "1", &["app:term#1"]),
        test_client("0x3", "web", "", "1", &["app:web#1", "ws:work"]),
    ];
    assert_eq!(derive_membership(&cfg, &st, &list), [("0x1".to_string(), "mail".to_string())]);
}

#[test]
fn windows_are_shared_once() {
    let cfg = parse(CFG).unwrap();
    let list = [test_client("0x1", "web", "", "1", &["app:web#1", "ws:mail"])];
    let apps = texts_of(&["term", "web"]);
    assert_eq!(share_plan(&cfg, &list, "work", &apps), [(0, "web".to_string())]);
    assert_eq!(share_plan(&cfg, &list, "mail", &texts_of(&["web"])), []);
}

#[test]
fn windows_follow_the_user() {
    let cfg = parse(CFG).unwrap();
    let mut st = State::default();
    st.desktops.insert(1, desk(&["work"], Some("work")));
    let list = [
        test_client("0x1", "kitty", "", "1", &["app:term#1", "ws:work"]),
        test_client("0x2", "web", "", "2", &["app:web#1", "ws:work"]),
        test_client("0x3", "web", "", "2", &["app:web#1", "ws:mail"]),
    ];
    let plan = follow_plan(&mut st, &cfg, &list, 1);
    assert_eq!(plan.iter().map(|f| f.addr.as_str()).collect::<Vec<_>>(), ["0x2"]);
}

#[test]
fn window_without_class_fits_nothing() {
    let cfg = parse(CFG).unwrap();
    assert_eq!(app_for_window(&cfg, &test_client("0x1", " ", "", "1", &[])), None);
    assert_eq!(app_for_window(&cfg, &test_client("0x1", "any", "", "1", &[])), Some("web".to_string()));
}

#[test]
fn swapped_places_swap_back() {
    let mut st = State::default();
    let mut cells = Table::new();
    cells.insert("term".to_string(), Place::Cell("left".to_string()));
    cells.insert("web".to_string(), Place::Cell("right".to_string()));
    st.cells.insert("work".to_string(), cells);
    swap_places(&mut st, "work", Some("term"), "web", "left", true, true);
    assert_eq!(st.cells.get("work").unwrap().get("web"), Some(&Place::Cell("left".to_string())));
    assert_eq!(st.cells.get("work").unwrap().get("term"), Some(&Place::Cell("right".to_string())));
    swap_places(&mut st, "work", Some("web"), "term", "left", true, true);
    assert_eq!(st.cells.get("work").unwrap().get("term"), Some(&Place::Cell("left".to_string())));
    assert_eq!(st.cells.get("work").unwrap().get("web"), Some(&Place::Cell("right".to_string())));
}

#[test]
fn accepted_configuration_has_bindings() {
    let cfg = parse(CFG).unwrap();
    assert!(to_lua(&cfg).is_ok());
    let lines = summary(&cfg, 5);
    assert_eq!(lines[0], "шаблонов: 1, приложений: 2, workspace: 2, привязок: 5");
    assert_eq!(lines.len(), 6);
    assert!(parse(&CFG.replace("main = \"web\"", "main = \"none\"")).is_err());
}

#[test]
fn windows_stand_in_order_of_instances() {
    let cfg = parse(CFG).unwrap();
    let list = [
        test_client("0x1", "web", "", "1", &["app:web#3"]),
        test_client("0x2", "web", "", "1", &["app:web#1"]),
        test_client("0x3", "kitty", "", "1", &["app:term#1"]),
        test_client("0x4", "web", "", "1", &["app:web#2"]),
    ];
    let order: Vec<&str> = app_windows(&cfg, &list, "web").iter().map(|c| c.address.as_str()).collect();
    assert_eq!(order, ["0x2", "0x4", "0x1"]);
}

#[test]
fn gone_window_owns_no_place() {
    let cfg = parse(CFG).unwrap();
    let mut st = State::default();
    let mut moved = Table::new();
    moved.insert("web".to_string(), Moved { rect: px(1, 2, 3, 4), owner: Some("0x1".to_string()) });
    moved.insert("term".to_string(), Moved { rect: px(5, 6, 7, 8), owner: Some("0x1".to_string()) });
    st.moved.insert("work".to_string(), moved);
    let left = [test_client("0x2", "web", "", "1", &["app:web#1", "ws:work"])];
    assert_eq!(drop_moved(&mut st, &cfg, "0x1", &left), [("work".to_string(), "term".to_string())]);
    let kept = st.moved.get("work").unwrap();
    assert_eq!(kept.get("web").unwrap().owner, Some("0x2".to_string()));
    assert!(kept.get("term").is_none());
}

#[test]
fn help_shows_each_line_once() {
    let text = format!("{CFG}\n[keys]\nreserved = [\"SUPER+Q\"]\nreserved_desc = {{ \"SUPER+Q\" = \"Выход\" }}\n");
    let cfg = parse(&text).unwrap();
    let all = entries(&cfg).unwrap();
    let groups = grouped(&cfg).unwrap();
    assert_eq!(groups.iter().map(|g| g.1.len()).sum::<usize>(), all.len());
    assert!(!all.is_empty());
    for (name, rows) in &groups {
        assert!(rows.iter().all(|e| e.group == *name));
    }
}

#[test]
fn session_applications_go_to_their_places() {
    let cfg = parse(CFG).unwrap();
    let mut st = State::default();
    assert_eq!(session_target(&cfg, &mut st, "web", Some("work"), Some(2), 1), (2, Target::Place(px(1920, 0, 1920, 2160))));
    assert_eq!(session_target(&cfg, &mut st, "web", None, Some(2), 1), (2, Target::Free(None)));
    assert_eq!(session_target(&cfg, &mut st, "web", Some("work"), None, 1), (1, Target::Pool));
}

#[test]
fn new_instance_is_started_with_windows_open() {
    let cfg = parse(CFG).unwrap();
    let mut st = State::default();
    st.desktops.insert(1, desk(&["work"], Some("work")));
    let list = [test_client("0x1", "web", "", "1", &["app:web#1", "ws:work"])];
    let act = open_new(&cfg, &mut st, Some("work"), "web", &list, Some("0x1"), 1);
    assert!(matches!(act, CycleAct::Launch(_, Target::Place(_))));
    let mut st = State::default();
    let act = open_new(&cfg, &mut st, Some("mail"), "term", &list, None, 1);
    assert!(matches!(act, CycleAct::Launch(_, Target::Free(None))));
    let act = open_new(&cfg, &mut st, None, "web", &list, None, 1);
    assert!(matches!(act, CycleAct::Launch(_, Target::Free(None))));
}

#[test]
fn new_instance_walks_nowhere() {
    let (ws, app) = ("work".to_string(), "web".to_string());
    let here = || AppRoute::Cycle { ws: ws.clone(), app: app.clone() };
    assert_eq!(route_step(here(), false, true), RouteStep::New { ws: Some(ws.clone()), app: app.clone() });
    assert_eq!(route_step(here(), true, false), RouteStep::Walk { ws: ws.clone(), app: app.clone(), start: Start::Raised });
    let there = || AppRoute::Raise { ws: ws.clone(), app: app.clone(), desktop: Some(2) };
    assert_eq!(route_step(there(), false, true), RouteStep::RaiseNew { ws: ws.clone(), app: app.clone(), desktop: Some(2) });
    assert_eq!(route_step(there(), false, false), RouteStep::RaiseWalk { ws: ws.clone(), app: app.clone(), desktop: Some(2) });
    let pull = || AppRoute::Pull { ws: ws.clone(), app: app.clone() };
    assert_eq!(route_step(pull(), false, false), RouteStep::Bring { ws: ws.clone(), app: app.clone(), pull: true });
    assert_eq!(route_step(pull(), false, true), RouteStep::New { ws: Some(ws.clone()), app: app.clone() });
    assert_eq!(route_step(AppRoute::Free { app: app.clone() }, false, true), RouteStep::New { ws: None, app: app.clone() });
}
