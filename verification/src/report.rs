//! Reports: what the daemon tells of its desktops, and the lines that are shown to the user.
use vstd::prelude::*;

use crate::config::{app_names, App, AppView, Config, ConfigView, StickyStateView};
use crate::desks::{at_desk, desk_get};
use crate::hypr::Client;
use crate::state::{no_desktop, Desktop, RestoreState, State, StateView};
use crate::table::{tab_get, tab_keys, Dup};
use crate::text::{copy_opt, dec, join, joined, opt_is, opt_str, oview, pad, padded, push_dec, views, Str};
use crate::windows::{members, ws_windows};

verus! {

broadcast use {crate::text::group_views, crate::hypr::group_derefs};

// ---- Desktops ---------------------------------------------------------------------------

/// A workspace in the report of its desktop.
#[derive(Debug, PartialEq, Eq)]
pub struct WsReport {
    pub name: String,
    pub icon: Option<String>,
    pub active: bool,
    /// The applications of its section, in the order of the file.
    pub apps: Vec<String>,
    /// The addresses of its windows.
    pub windows: Vec<String>,
}

/// What the report of a workspace says.
pub struct WsReportView {
    pub name: Str,
    pub icon: Option<Str>,
    pub active: bool,
    pub apps: Seq<Str>,
    pub windows: Seq<Str>,
}

impl View for WsReport {
    type V = WsReportView;

    open spec fn view(&self) -> WsReportView {
        WsReportView {
            name: self.name@,
            icon: oview(self.icon),
            active: self.active,
            apps: views(self.apps@),
            windows: views(self.windows@),
        }
    }
}

/// A desktop in the report of the daemon.
#[derive(Debug, PartialEq, Eq)]
pub struct DeskReport {
    pub workspaces: Vec<WsReport>,
    pub active: Option<String>,
}

/// What the report of a desktop says.
pub struct DeskReportView {
    pub workspaces: Seq<WsReportView>,
    pub active: Option<Str>,
}

impl View for DeskReport {
    type V = DeskReportView;

    open spec fn view(&self) -> DeskReportView {
        DeskReportView { workspaces: views(self.workspaces@), active: oview(self.active) }
    }
}

/// The addresses of windows.
pub open spec fn addresses(s: Seq<Client>) -> Seq<Str> {
    s.map_values(|c: Client| c.address@)
}

/// The report of a workspace on a desktop where `active` is active.
pub open spec fn ws_report_of(cfg: ConfigView, clients: Seq<Client>, active: Option<Str>, ws: Str) -> WsReportView {
    let w = tab_get(cfg.workspaces, ws);
    WsReportView {
        name: ws,
        icon: match w {
            Some(w) => w.icon,
            None => None,
        },
        active: active == Some(ws),
        apps: match w {
            Some(w) => tab_keys(w.apps),
            None => Seq::empty(),
        },
        windows: addresses(members(clients, ws)),
    }
}

/// The report of a desktop: its list, and for each workspace what the configuration says of it and which
/// windows are its own. A window of two workspaces stands in both.
pub open spec fn desk_report_of(cfg: ConfigView, st: StateView, clients: Seq<Client>, n: u8) -> DeskReportView {
    let d = match at_desk(st.desktops, n) {
        Some(d) => d,
        None => no_desktop(),
    };
    DeskReportView {
        workspaces: d.workspaces.map_values(|ws: Str| ws_report_of(cfg, clients, d.active, ws)),
        active: d.active,
    }
}

fn list_addresses(wins: &Vec<&Client>) -> (r: Vec<String>)
    ensures
        views(r@) == addresses(crate::hypr::derefs(wins@)),
{
    let ghost s = crate::hypr::derefs(wins@);
    let mut out: Vec<String> = Vec::new();
    let mut i: usize = 0;
    while i < wins.len()
        invariant
            i <= wins.len(),
            s == crate::hypr::derefs(wins@),
            views(out@) == addresses(s).take(i as int),
        decreases wins.len() - i,
    {
        assert(s[i as int] == *wins[i as int]);
        out.push(wins[i].address.clone());
        proof {
            assert(addresses(s).take(i + 1) =~= addresses(s).take(i as int).push(addresses(s)[i as int]));
        }
        i = i + 1;
    }
    proof {
        assert(addresses(s).take(i as int) =~= addresses(s));
    }
    out
}

fn ws_report(cfg: &Config, clients: &[Client], active: &Option<String>, ws: &str) -> (r: WsReport)
    ensures
        r@ == ws_report_of(cfg@, clients@, oview(*active), ws@),
{
    let (icon, apps) = match cfg.workspaces.get(ws) {
        Some(w) => (copy_opt(&w.icon), app_names(&w.apps)),
        None => (None, Vec::new()),
    };
    let windows = list_addresses(&ws_windows(clients, ws));
    WsReport { name: ws.to_owned(), icon, active: opt_is(active, ws), apps, windows }
}

/// The report of a desktop: its list, and for each workspace what the configuration says of it and which
/// windows are its own.
pub fn desk_report(cfg: &Config, st: &State, clients: &[Client], n: u8) -> (r: DeskReport)
    ensures
        r@ == desk_report_of(cfg@, st@, clients@, n),
{
    let d = match desk_get(&st.desktops, n) {
        Some(d) => d.dup(),
        None => Desktop::default(),
    };
    let ghost v = d@;
    let ghost all = desk_report_of(cfg@, st@, clients@, n).workspaces;
    let mut out: Vec<WsReport> = Vec::new();
    let mut i: usize = 0;
    while i < d.workspaces.len()
        invariant
            i <= d.workspaces.len(),
            v == d@,
            all == v.workspaces.map_values(|ws: Str| ws_report_of(cfg@, clients@, v.active, ws)),
            views(out@) == all.take(i as int),
        decreases d.workspaces.len() - i,
    {
        assert(v.workspaces[i as int] == d.workspaces@[i as int]@);
        out.push(ws_report(cfg, clients, &d.active, d.workspaces[i].as_str()));
        proof {
            assert(all.take(i + 1) =~= all.take(i as int).push(all[i as int]));
        }
        i = i + 1;
    }
    proof {
        assert(all.take(i as int) =~= all);
    }
    DeskReport { workspaces: out, active: d.active }
}

/// How far the record of a restored window has come, in a word.
pub open spec fn restore_word(s: RestoreState) -> Str {
    match s {
        RestoreState::Waiting => "waiting"@,
        RestoreState::Launched(pid) => "launched "@ + dec(pid as nat),
        RestoreState::Done => "done"@,
    }
}

/// How far the record of a restored window has come, in a word.
pub fn restore_text(s: RestoreState) -> (r: String)
    ensures
        r@ == restore_word(s),
{
    match s {
        RestoreState::Waiting => "waiting".to_owned(),
        RestoreState::Launched(pid) => {
            let mut t = "launched ".to_owned();
            push_dec(&mut t, pid as u64);
            t
        },
        RestoreState::Done => "done".to_owned(),
    }
}

// ---- Lines for the user --------------------------------------------------------------------

/// The names of a list, the active ones with a star.
pub open spec fn starred(list: Seq<(Str, bool)>) -> Seq<Str> {
    list.map_values(
        |e: (Str, bool)|
            e.0 + if e.1 {
                "*"@
            } else {
                ""@
            },
    )
}

/// What a list of names is, each with whether it is active.
pub open spec fn named_view(s: Seq<(String, bool)>) -> Seq<(Str, bool)> {
    s.map_values(|e: (String, bool)| (e.0@, e.1))
}

/// The line of a desktop with its workspaces, the active one with a star; none of a desktop without
/// workspaces.
pub fn desk_line(n: &str, list: &[(String, bool)]) -> (r: Option<String>)
    ensures
        oview(r) == if list.len() == 0 {
            None::<Str>
        } else {
            Some("стол "@ + n@ + ": "@ + joined(starred(named_view(list@)), ", "@))
        },
{
    if list.len() == 0 {
        return None;
    }
    let ghost all = starred(named_view(list@));
    let mut names: Vec<String> = Vec::new();
    let mut i: usize = 0;
    while i < list.len()
        invariant
            i <= list.len(),
            all == starred(named_view(list@)),
            views(names@) == all.take(i as int),
        decreases list.len() - i,
    {
        let mut t = list[i].0.clone();
        t.append(
            if list[i].1 {
                "*"
            } else {
                ""
            },
        );
        assert(named_view(list@)[i as int] == (list@[i as int].0@, list@[i as int].1));
        names.push(t);
        proof {
            assert(all.take(i + 1) =~= all.take(i as int).push(all[i as int]));
        }
        i = i + 1;
    }
    proof {
        assert(all.take(i as int) =~= all);
    }
    let mut s = "стол ".to_owned();
    s.append(n);
    s.append(": ");
    s.append(join(names.as_slice(), ", ").as_str());
    Some(s)
}

/// The line of a window: its address, class, desktop and application; of a window of no application, that
/// it is a stranger.
pub fn window_line(address: &str, class: &str, desktop: &str, app: Option<&str>, foreign: bool) -> (r: String)
    ensures
        r@ == "  "@ + address@ + " "@ + padded(class@, 28) + " стол "@ + padded(desktop@, 14) + " приложение "@ + match oview(
            app,
        ) {
            Some(a) => a,
            None => if foreign {
                "(постороннее)"@
            } else {
                "-"@
            },
        },
{
    let mut s = "  ".to_owned();
    s.append(address);
    s.append(" ");
    s.append(pad(class, 28).as_str());
    s.append(" стол ");
    s.append(pad(desktop, 14).as_str());
    s.append(" приложение ");
    match app {
        Some(a) => s.append(a),
        None => s.append(
            if foreign {
                "(постороннее)"
            } else {
                "-"
            },
        ),
    }
    s
}

/// The line that counts what a configuration holds.
pub open spec fn counts_line(cfg: ConfigView, binds: nat) -> Str {
    "шаблонов: "@ + dec(cfg.templates.len()) + ", приложений: "@ + dec(cfg.apps.len()) + ", workspace: "@ + dec(
        cfg.workspaces.len(),
    ) + ", привязок: "@ + dec(binds)
}

/// The line of an application.
pub open spec fn app_line(name: Str, app: AppView) -> Str {
    "  приложение "@ + name + match app.family {
        Some(f) => " (вариант семейства "@ + f + ")"@,
        None => ""@,
    }
}

/// The line of a mode.
pub open spec fn mode_line(name: Str, enter: Option<Str>) -> Str {
    "  цепочка с выходом "@ + name + " ("@ + match enter {
        Some(e) => e,
        None => ""@,
    } + ")"@
}

/// The lines on what a configuration holds: the counts, then the workspaces, applications, templates and
/// modes.
pub open spec fn summary_of(cfg: ConfigView, binds: nat) -> Seq<Str> {
    seq![counts_line(cfg, binds)] + cfg.workspaces.map_values(
        |e: (Str, crate::config::WorkspaceView)| "  workspace "@ + e.0,
    ) + cfg.apps.map_values(|e: (Str, AppView)| app_line(e.0, e.1)) + cfg.templates.map_values(
        |e: (Str, crate::config::TemplateView)| "  шаблон "@ + e.0,
    ) + cfg.sticky.map_values(|e: (Str, StickyStateView)| mode_line(e.0, e.1.enter))
}

fn count_text(cfg: &Config, binds: usize) -> (r: String)
    ensures
        r@ == counts_line(cfg@, binds as nat),
{
    let mut s = "шаблонов: ".to_owned();
    push_dec(&mut s, cfg.templates.len() as u64);
    s.append(", приложений: ");
    push_dec(&mut s, cfg.apps.len() as u64);
    s.append(", workspace: ");
    push_dec(&mut s, cfg.workspaces.len() as u64);
    s.append(", привязок: ");
    push_dec(&mut s, binds as u64);
    s
}

fn app_text(name: &str, app: &App) -> (r: String)
    ensures
        r@ == app_line(name@, app@),
{
    let mut s = "  приложение ".to_owned();
    s.append(name);
    match &app.family {
        Some(f) => {
            let mut t = " (вариант семейства ".to_owned();
            t.append(f.as_str());
            t.append(")");
            s.append(t.as_str());
        },
        None => s.append(""),
    }
    s
}

fn mode_text(name: &str, enter: Option<&str>) -> (r: String)
    ensures
        r@ == mode_line(name@, oview(enter)),
{
    let mut s = "  цепочка с выходом ".to_owned();
    s.append(name);
    s.append(" (");
    match enter {
        Some(e) => s.append(e),
        None => s.append(""),
    }
    s.append(")");
    s
}

/// The lines on what a configuration with `binds` bindings holds: the counts, then the workspaces,
/// applications, templates and modes.
pub fn summary(cfg: &Config, binds: usize) -> (r: Vec<String>)
    ensures
        views(r@) == summary_of(cfg@, binds as nat),
{
    let mut out: Vec<String> = Vec::new();
    out.push(count_text(cfg, binds));
    let ghost head = seq![counts_line(cfg@, binds as nat)];
    let ghost wss = cfg@.workspaces.map_values(|e: (Str, crate::config::WorkspaceView)| "  workspace "@ + e.0);
    let ghost apps = cfg@.apps.map_values(|e: (Str, AppView)| app_line(e.0, e.1));
    let ghost templates = cfg@.templates.map_values(|e: (Str, crate::config::TemplateView)| "  шаблон "@ + e.0);
    let ghost modes = cfg@.sticky.map_values(|e: (Str, StickyStateView)| mode_line(e.0, e.1.enter));
    let n: usize = cfg.workspaces.len();
    let mut i: usize = 0;
    proof {
        assert(views(out@) =~= head + wss.take(0));
    }
    while i < n
        invariant
            i <= n,
            n == cfg@.workspaces.len(),
            wss == cfg@.workspaces.map_values(|e: (Str, crate::config::WorkspaceView)| "  workspace "@ + e.0),
            views(out@) == head + wss.take(i as int),
        decreases n - i,
    {
        let mut s = "  workspace ".to_owned();
        s.append(cfg.workspaces.key(i).as_str());
        out.push(s);
        proof {
            assert(head + wss.take(i + 1) =~= (head + wss.take(i as int)).push(wss[i as int]));
        }
        i = i + 1;
    }
    let n: usize = cfg.apps.len();
    let mut i: usize = 0;
    let ghost head = head + wss;
    proof {
        assert(wss.take(wss.len() as int) =~= wss);
        assert(views(out@) =~= head + apps.take(0));
    }
    while i < n
        invariant
            i <= n,
            n == cfg@.apps.len(),
            apps == cfg@.apps.map_values(|e: (Str, AppView)| app_line(e.0, e.1)),
            views(out@) == head + apps.take(i as int),
        decreases n - i,
    {
        out.push(app_text(cfg.apps.key(i).as_str(), cfg.apps.at(i)));
        proof {
            assert(head + apps.take(i + 1) =~= (head + apps.take(i as int)).push(apps[i as int]));
        }
        i = i + 1;
    }
    let n: usize = cfg.templates.len();
    let mut i: usize = 0;
    let ghost head = head + apps;
    proof {
        assert(apps.take(apps.len() as int) =~= apps);
        assert(views(out@) =~= head + templates.take(0));
    }
    while i < n
        invariant
            i <= n,
            n == cfg@.templates.len(),
            templates == cfg@.templates.map_values(|e: (Str, crate::config::TemplateView)| "  шаблон "@ + e.0),
            views(out@) == head + templates.take(i as int),
        decreases n - i,
    {
        let mut s = "  шаблон ".to_owned();
        s.append(cfg.templates.key(i).as_str());
        out.push(s);
        proof {
            assert(head + templates.take(i + 1) =~= (head + templates.take(i as int)).push(templates[i as int]));
        }
        i = i + 1;
    }
    let mut i: usize = 0;
    let ghost head = head + templates;
    proof {
        assert(templates.take(templates.len() as int) =~= templates);
        assert(views(out@) =~= head + modes.take(0));
    }
    while i < cfg.sticky.len()
        invariant
            i <= cfg.sticky.len(),
            modes == cfg@.sticky.map_values(|e: (Str, StickyStateView)| mode_line(e.0, e.1.enter)),
            views(out@) == head + modes.take(i as int),
        decreases cfg.sticky.len() - i,
    {
        assert(cfg@.sticky[i as int] == (cfg.sticky@[i as int].0@, cfg.sticky@[i as int].1@));
        out.push(mode_text(cfg.sticky[i].0.as_str(), opt_str(&cfg.sticky[i].1.enter)));
        proof {
            assert(head + modes.take(i + 1) =~= (head + modes.take(i as int)).push(modes[i as int]));
        }
        i = i + 1;
    }
    proof {
        assert(modes.take(modes.len() as int) =~= modes);
    }
    out
}

// ---- The file of the configuration -----------------------------------------------------------

/// What happened to a file.
#[derive(Debug, Clone, Copy, PartialEq, Eq, Structural)]
pub enum FileEvent {
    Created,
    /// Its contents changed.
    Data,
    /// It was closed after writing, or after reading alone.
    Closed { written: bool },
    /// It had this name and lost it.
    RenamedFrom,
    /// It got this name.
    RenamedTo,
    /// Both in one event.
    RenamedBoth,
    Other,
}

/// The event means that the file is complete: it was closed after writing, or came under its name. Changes
/// of contents come amid writing; a file that was created is closed later; of a renaming that is told
/// twice, one event counts.
pub fn write_finished(kind: FileEvent) -> (r: bool)
    ensures
        r == (kind == FileEvent::RenamedTo || kind == FileEvent::Closed { written: true }),
{
    match kind {
        FileEvent::Closed { written } => written,
        FileEvent::RenamedTo => true,
        _ => false,
    }
}

} // verus!
