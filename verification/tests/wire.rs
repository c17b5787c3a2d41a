//! Requests, replies, lines for the user, the text of the configuration, and processes.
use workspaced::pending::{free_step, FreeStep};
use workspaced::procs::{
    ancestors, cmdline, flatpak_app_id, found_program, launch_dir, parent, program_kind, program_place, unescape_unit, Program, Seen,
};
use workspaced::rect::{share_fault, share_text, PxRect};
use workspaced::report::{desk_line, restore_text, window_line, write_finished, FileEvent};
use workspaced::request::{is_subscribe, names_window, read_request, reply_error, request_of, Fields, Request};
use workspaced::save::{may_save, save_workspace, workspace_to_save, AppItem, AppTable, SavePlan};
use workspaced::state::{Desktop, RestoreEntry, RestoreState, State};
use workspaced::table::Table;

fn text(s: &str) -> Option<String> {
    Some(s.to_string())
}

fn fault(line: &str) -> String {
    read_request(line).unwrap_err()
}

#[test]
fn request_fields_are_read() {
    assert_eq!(
        read_request(r#"{"cmd":"raise","workspace":"work","desktop":3}"#),
        Ok(Request::Raise { workspace: "work".into(), desktop: Some(3) })
    );
    assert_eq!(
        read_request(r#"{"cmd":"app","apps":["kitty",7,"foot"],"pull":true}"#),
        Ok(Request::App { apps: vec!["kitty".into(), "foot".into()], desktop: None, workspace: None, pull: true, new: false })
    );
    assert_eq!(read_request(r#"{"cmd":"key","chain":"SUPER+a"}"#), Ok(Request::Key { chain: "SUPER+a".into(), new: false }));
    assert_eq!(read_request(r#"{"cmd":"move-desktop","desktop":4}"#), Ok(Request::MoveDesktop(4)));
    assert_eq!(read_request(r#"{"cmd":"half","side":"left"}"#), Ok(Request::Half("left".into())));
    assert_eq!(read_request(r#"{"cmd":"place","position":"full"}"#), Ok(Request::Place("full".into())));
    assert_eq!(
        read_request(r#"{"cmd":"remove","workspace":"work"}"#),
        Ok(Request::Remove { workspace: "work".into(), desktop: None })
    );
    for (cmd, what) in [
        ("next", Request::Next),
        ("arrange", Request::Arrange),
        ("detach", Request::Detach),
        ("maximize", Request::Maximize),
        ("save-session", Request::SaveSession),
        ("save-workspace", Request::SaveWorkspace),
        ("sessions", Request::Sessions),
        ("status", Request::Status),
    ] {
        assert_eq!(read_request(&format!("{{\"cmd\":\"{cmd}\"}}")), Ok(what));
    }
}

#[test]
fn request_of_session_reads_operation() {
    assert_eq!(read_request(r#"{"cmd":"session","op":"save","name":"a"}"#), Ok(Request::SessionSave("a".into())));
    assert_eq!(read_request(r#"{"cmd":"session","op":"load"}"#), Ok(Request::SessionLoad(String::new())));
    assert_eq!(read_request(r#"{"cmd":"session","op":"list"}"#), Ok(Request::SessionList));
    assert_eq!(fault(r#"{"cmd":"session","op":"drop"}"#), "неизвестная операция drop");
}

#[test]
fn request_faults_name_what_is_missing() {
    assert_eq!(fault(r#"{"cmd":"raise"}"#), "нет workspace");
    assert_eq!(fault(r#"{"cmd":"app","apps":[1]}"#), "нет приложений");
    assert_eq!(fault(r#"{"cmd":"app"}"#), "нет приложений");
    assert_eq!(fault(r#"{"cmd":"key","chain":5}"#), "нет цепочки");
    assert_eq!(fault(r#"{"cmd":"move-desktop","desktop":"4"}"#), "нет desktop");
    assert_eq!(fault(r#"{"cmd":"half"}"#), "нет side");
    assert_eq!(fault(r#"{"cmd":"place"}"#), "нет position");
    assert_eq!(fault(r#"{"cmd":"remove"}"#), "нет workspace");
    assert_eq!(fault(r#"{"cmd":"fly"}"#), "неизвестная команда \"fly\"");
    assert_eq!(fault("{}"), "неизвестная команда \"\"");
    assert!(read_request("{").is_err());
}

#[test]
fn request_desktop_is_taken_to_a_byte() {
    let f = Fields { cmd: text("move-desktop"), desktop: Some(259), ..Fields::default() };
    assert_eq!(request_of(&f), Ok(Request::MoveDesktop(3)));
}

#[test]
fn new_instance_is_asked_for() {
    assert_eq!(
        read_request(r#"{"cmd":"key","chain":"SUPER+V","new":true}"#),
        Ok(Request::Key { chain: "SUPER+V".into(), new: true })
    );
    assert_eq!(
        read_request(r#"{"cmd":"app","apps":["neovide"],"new":true}"#),
        Ok(Request::App { apps: vec!["neovide".into()], desktop: None, workspace: None, pull: false, new: true })
    );
    assert_eq!(
        read_request(r#"{"cmd":"key","chain":"SUPER+V","new":"yes"}"#),
        Ok(Request::Key { chain: "SUPER+V".into(), new: false })
    );
}

#[test]
fn reply_names_a_window() {
    assert!(names_window(r#"{"address":"0x1"}"#));
    assert!(!names_window(r#"{"address":""}"#));
    assert!(!names_window("{}"));
    assert!(!names_window("not json"));
}

#[test]
fn reply_tells_of_error() {
    assert_eq!(reply_error(r#"{"ok":true}"#), None);
    assert_eq!(reply_error(r#"{"ok":false,"error":"нет такого"}"#), text("нет такого"));
    assert_eq!(reply_error(r#"{"ok":false}"#), text("ошибка демона"));
    assert_eq!(reply_error("not json"), text("ошибка демона"));
}

#[test]
fn subscription_is_told_from_requests() {
    assert!(is_subscribe(r#"{"cmd":"subscribe"}"#));
    assert!(!is_subscribe(r#"{"cmd":"status"}"#));
    assert!(!is_subscribe("subscribe"));
}

#[test]
fn lines_for_the_user() {
    assert_eq!(desk_line("3", &[]), None);
    let list = [("work".to_string(), true), ("mail".to_string(), false)];
    assert_eq!(desk_line("3", &list), text("стол 3: work*, mail"));
    let line = window_line("0xaa", "kitty", "3", Some("term"), false);
    assert_eq!(line, format!("  0xaa {:<28} стол {:<14} приложение term", "kitty", "3"));
    assert!(window_line("0xaa", "kitty", "3", None, true).ends_with("приложение (постороннее)"));
    assert!(window_line("0xaa", "kitty", "3", None, false).ends_with("приложение -"));
    assert_eq!(restore_text(RestoreState::Waiting), "waiting");
    assert_eq!(restore_text(RestoreState::Launched(42)), "launched 42");
    assert_eq!(restore_text(RestoreState::Done), "done");
}

#[test]
fn finished_writes() {
    assert!(write_finished(FileEvent::Closed { written: true }));
    assert!(!write_finished(FileEvent::Closed { written: false }));
    assert!(!write_finished(FileEvent::Created));
    assert!(write_finished(FileEvent::RenamedTo));
    assert!(!write_finished(FileEvent::Other));
}

#[test]
fn shares_of_the_screen() {
    assert_eq!(share_text(" 50 % "), Ok("50".into()));
    assert_eq!(share_text("12.5%"), Ok("12.5".into()));
    assert_eq!(
        share_text("50"),
        Err("ожидалось число пикселей или строка с процентом, получено \"50\"".into())
    );
    assert_eq!(share_fault("x%"), "не число в процентах: \"x%\"");
}

fn plan() -> SavePlan {
    SavePlan {
        ws: "work".into(),
        session_apps: vec![(
            "pad".into(),
            AppTable { cmd: "/usr/bin/pad".into(), args: vec!["-x".into()], cwd: text("/tmp"), class: text("^pad$") },
        )],
        main: text("pad"),
        stack: true,
        window_apps: vec![(
            "web".into(),
            AppTable { cmd: "web".into(), args: vec![], cwd: None, class: None },
        )],
        entries: vec![
            ("term".into(), AppItem::Cell("left".into())),
            ("pad".into(), AppItem::Rect(PxRect { x: 1, y: -2, w: 3, h: 4 })),
        ],
        ex: vec![],
        adopted: vec![],
    }
}

const FILE: &str = "# head\n[apps.term]\ncmd = \"kitty\" # own\n\n[workspaces.work]\nmode = \"swap\"\n\n[workspaces.work.apps]\nold = \"right\"\n";

#[test]
fn workspace_is_written_into_the_text() {
    let out = save_workspace(FILE, &plan()).unwrap();
    assert!(out.contains("# head") && out.contains("# own"));
    let t: toml::Table = out.parse().unwrap();
    let apps = t["apps"].as_table().unwrap();
    assert_eq!(apps["term"]["cmd"].as_str(), Some("kitty"));
    assert_eq!(apps["pad"]["cmd"].as_str(), Some("/usr/bin/pad"));
    assert_eq!(apps["pad"]["args"][0].as_str(), Some("-x"));
    assert_eq!(apps["pad"]["cwd"].as_str(), Some("/tmp"));
    assert_eq!(apps["pad"]["class"].as_str(), Some("^pad$"));
    assert_eq!(apps["web"].as_table().unwrap().len(), 1);
    let ws = t["workspaces"]["work"].as_table().unwrap();
    assert_eq!(ws["main"].as_str(), Some("pad"));
    assert_eq!(ws["mode"].as_str(), Some("stack"));
    let entries = ws["apps"].as_table().unwrap();
    assert_eq!(entries.len(), 2);
    assert_eq!(entries["term"].as_str(), Some("left"));
    let r = &entries["pad"]["rect"];
    assert_eq!(
        (r["x"].as_integer(), r["y"].as_integer(), r["w"].as_integer(), r["h"].as_integer()),
        (Some(1), Some(-2), Some(3), Some(4))
    );
}

#[test]
fn writing_twice_says_the_same() {
    let once = save_workspace(FILE, &plan()).unwrap();
    let twice = save_workspace(&once, &plan()).unwrap();
    let a: toml::Table = once.parse().unwrap();
    let b: toml::Table = twice.parse().unwrap();
    assert_eq!(a, b);
}

#[test]
fn writing_needs_tables() {
    let empty = SavePlan { session_apps: vec![], window_apps: vec![], ..plan() };
    assert_eq!(save_workspace("apps = 1\n", &plan()).unwrap_err(), "[apps] не таблица");
    assert_eq!(save_workspace("workspaces = 1\n", &empty).unwrap_err(), "[workspaces] не таблица");
    assert_eq!(save_workspace("[workspaces]\nwork = 1\n", &empty).unwrap_err(), "workspace не таблица");
    assert!(save_workspace("a = = b", &empty).unwrap_err().starts_with("разбор конфига для записи: "));
}

#[test]
fn workspace_to_save_is_the_active_one() {
    let mut st = State::default();
    st.desktops.insert(2, Desktop { workspaces: vec!["work".into()], active: text("work") });
    assert_eq!(workspace_to_save(&st, 2), Ok("work".into()));
    assert_eq!(workspace_to_save(&st, 3), Err("на столе 3 нет активного workspace".into()));
    assert_eq!(may_save(&st, 2, "a = 1", "a = 1"), Ok("work".into()));
    assert_eq!(may_save(&st, 3, "a = 1", "a = 1"), Err("на столе 3 нет активного workspace".into()));
    assert_eq!(
        may_save(&st, 2, "a = 2", "a = 1"),
        Err("конфиг изменился с последнего чтения; перечитан, повторите команду".into())
    );
}

#[test]
fn commands_of_processes() {
    assert_eq!(cmdline(b"kitty\0-e\0\xff\0"), ["kitty", "-e", "\u{fffd}"]);
    assert_eq!(unescape_unit(r"a\x2db\x"), r"a-b\x");
    assert_eq!(unescape_unit(r"\xff"), "\u{fffd}");
    assert_eq!(flatpak_app_id("0::/user.slice/app-flatpak-org.x.Y-42.scope\n"), text("org.x.Y"));
    assert_eq!(flatpak_app_id("0::/user.slice/kitty.scope\n"), None);
    assert!(matches!(program_kind("/usr/bin/a"), Program::Absolute));
    assert!(matches!(program_kind("./a"), Program::Relative));
    assert!(matches!(program_kind("a"), Program::Named));
    assert_eq!(program_place("/a//b", None), text("/a//b"));
    assert_eq!(program_place(".//x/./y/", Some("/d/")), text("/d/.//x/./y/"));
    assert_eq!(program_place("../x", Some("./d")), text("./d/../x"));
    assert_eq!(program_place("./x", None), None);
    let seen = Seen { exists: false, is_file: true, named: false, exe_is_file: false };
    assert_eq!(found_program("a", None, seen), None);
    assert_eq!(found_program("./a", Some("/d"), seen), text("/d/a"));
    assert_eq!(found_program(".//x/./y/", Some("/d/"), seen), text("/d/x/y"));
    assert_eq!(found_program("../x", Some("./d"), seen), text("./d/../x"));
    assert_eq!(found_program("./a", None, seen), None);
    assert_eq!(found_program("/a", None, seen), text("/a"));
}

#[test]
fn parents_of_processes() {
    assert_eq!(parent("42 (a b) c) S 7 42 42"), Some(7));
    assert_eq!(parent("broken"), None);
    let mut chain = Vec::new();
    let p = ancestors(&mut chain, 42, Some("42 (sh) S 7 42 42"));
    assert_eq!((chain.as_slice(), p), ([42].as_slice(), Some(7)));
    assert_eq!(launch_dir(text("/gone").as_deref(), false, "/home/user"), ("/home/user".into(), text("каталога /gone нет, запуск в /home/user")));
    assert_eq!(launch_dir(text("/tmp").as_deref(), true, "/home/user"), ("/tmp".into(), None));
    assert_eq!(launch_dir(None, false, "/home/user").0, "/home/user");
}

#[test]
fn free_windows_come_back() {
    let record = |app: &str, instance: u32, desktop: &str, cmd: &[&str]| RestoreEntry {
        app: app.into(),
        instance,
        workspaces: vec![],
        desktop: desktop.into(),
        rect: PxRect { x: 1, y: 2, w: 3, h: 4 },
        rects: Table::new(),
        cmd: cmd.iter().map(|s| s.to_string()).collect(),
        cwd: None,
        state: RestoreState::Waiting,
    };
    let list = [record("a", 1, "2", &[]), record("a", 2, "3", &[]), record("b", 1, "", &[]), record("c", 1, "2", &["c"])];
    assert!(matches!(free_step(&list, 0, false, 1), FreeStep::Launch { desktop: 2, .. }));
    assert_eq!(free_step(&list, 1, false, 1), FreeStep::Skip);
    assert_eq!(free_step(&list, 0, true, 1), FreeStep::Skip);
    assert!(matches!(free_step(&list, 2, false, 1), FreeStep::Launch { desktop: 1, .. }));
    assert_eq!(free_step(&list, 3, false, 1), FreeStep::Own);
}

#[test]
fn text_around_the_section_is_kept() {
    let file = "# head\nx = 1.5 # tail\n\n[[list]]\na = 1\n[list.sub]\nb = 2\n\n[workspaces]\nwork.mode = \"swap\"\n\n# own\n[workspaces.other.apps]\nterm = \"left\"\n";
    let out = save_workspace(file, &plan()).unwrap();
    assert!(out.contains("# head") && out.contains("# tail") && out.contains("# own"));
    let (a, b): (toml::Table, toml::Table) = (file.parse().unwrap(), out.parse().unwrap());
    assert_eq!(a["x"], b["x"]);
    assert_eq!(a["list"], b["list"]);
    assert_eq!(a["workspaces"]["other"], b["workspaces"]["other"]);
    assert_eq!(b["workspaces"]["work"]["mode"].as_str(), Some("stack"));
    assert_eq!(b["workspaces"]["work"]["apps"].as_table().unwrap().len(), 2);
    let dotted = "workspaces.work.apps.old = \"left\"\napps.term.cmd = \"kitty\"\n";
    let c: toml::Table = save_workspace(dotted, &plan()).unwrap().parse().unwrap();
    assert_eq!(c["apps"]["term"]["cmd"].as_str(), Some("kitty"));
    assert_eq!(c["workspaces"]["work"]["apps"].as_table().unwrap().len(), 2);
}

#[test]
fn comments_before_keys_and_headers_stay() {
    let file = "# top\n[apps.vim]\n# its command\ncmd = \"vim\"\n\n# old entries\n[workspaces.work.apps]\nold = \"left\"\n\n# own section\n[workspaces.work]\n# the main one\nmain = \"old\"\n# how it goes\nmode = \"swap\" # gone\n\n# another\n[workspaces.other]\n# its mode\nmode = \"swap\"\n# end\n";
    for file in [file.to_string(), file.replace('\n', "\r\n")] {
        let out = save_workspace(&file, &plan()).unwrap();
        for piece in [
            "# top\n[apps.vim]\n# its command\ncmd = \"vim\"\n",
            "# own section\n[workspaces.work]\n# the main one\nmain = ",
            "\n# how it goes\nmode = \"stack\"\n",
            "# another\n[workspaces.other]\n# its mode\nmode = \"swap\"\n",
        ] {
            assert!(out.contains(piece), "{piece}: {out}");
        }
        assert!(!out.contains("old entries") && !out.contains("gone"), "{out}");
        assert!(out.ends_with("# end\n"), "{out}");
        let t: toml::Table = out.parse().unwrap();
        assert_eq!(t["workspaces"]["work"]["apps"].as_table().unwrap().len(), 2);
    }
}

#[test]
fn header_before_dotted_keys_does_not_read() {
    let file = "[workspaces.other]\nmode = \"swap\"\n\n[workspaces]\nwork.mode = \"swap\"\n";
    assert!(file.parse::<toml::Table>().is_ok());
    let out = save_workspace(file, &plan()).unwrap();
    assert!(out.parse::<toml::Table>().is_err(), "{out}");
}

#[test]
fn files_of_many_shapes_read_back() {
    let files = [
        "",
        "# only this\n",
        "[z]\n[[apps.list]]\nx = 1\n[z.k]\n[[apps.list]]\nx = 2\n[apps.list.sub]\n",
        "[workspaces.work.apps]\na = \"left\"\n[workspaces.work]\n[workspaces]\n",
        "workspaces.work.mode = \"swap\"\nx = 1\nworkspaces.other.mode = \"swap\"\n[workspaces.third]\n[apps.q]\n",
        "workspaces.other.mode = \"swap\"\n[workspaces.work]\napps.a = \"left\"\n[workspaces.work.extra]\n",
        "[apps]\nterm.cmd = \"kitty\"\n[workspaces]\n[ workspaces . work ]\n# dotted\nmain.x = 1\n",
        "[workspaces.work]\n[[ workspaces.work.main ]]\na = 1\n",
        "[workspaces.work]\n\"ma\\u0069n\" = { a = 1 }\n",
    ];
    for file in files {
        let out = save_workspace(file, &plan()).unwrap();
        let (a, b): (toml::Table, toml::Table) = (file.parse().unwrap(), out.parse().unwrap());
        let work = &b["workspaces"]["work"];
        assert_eq!(work["apps"].as_table().unwrap().len(), 2, "{out}");
        assert_eq!((work["main"].as_str(), work["mode"].as_str()), (Some("pad"), Some("stack")), "{out}");
        assert_eq!(b["apps"]["pad"]["args"][0].as_str(), Some("-x"), "{out}");
        for (k, v) in &a {
            for (name, part) in v.as_table().into_iter().flatten() {
                assert!(name == "work" || b[k].get(name) == Some(part), "{k} {name}: {out}");
            }
        }
    }
}
