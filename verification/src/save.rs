//! Saving: the session takes windows in, and the active workspace is written into the configuration file.
use vstd::prelude::*;

use crate::config::{Config, ConfigView, Mode};
use crate::desktop::{active_desktop_of, active_from};
use crate::docedit::{
    below, document_dots, document_kept, document_notes, document_parts, grafted, inline_item, is_part, is_tree, is_value,
    item_fresh, item_parts, lemma_grafted_tree, lemma_opened, lemma_put, lemma_sub_tree, lemma_tables_tree, list_item,
    notes_beside, notes_stay, number_item, only, open_in, opened_at, placed, print_document, prints_as, put_at, put_in,
    read_document, reads_as, set_item, table_at, table_item, text_item, toml_read, with_sub, with_tables, within, without, Dots,
    Notes, Part, Parts,
};
use crate::extra::{
    app_name, join_of, join_window, merged, name_for, rebuild_cfg, taken_names, taken_of, Join, JoinView,
};
use crate::hypr::{app_of, app_tag, d_tag, in_ws, instance_tag, on_hidden, rect_of, tag_of, ws_tag, Client};
use crate::raise::desk_of;
use crate::rect::PxRect;
use crate::state::{
    class_text, exact_class, place_only, ExtraApp, ExtraAppView, Foreign, ForeignView, Place, PlaceView, State, StateView,
};
use crate::table::{nest_at, nest_get, nest_put, tab_del, tab_get, tab_has, tab_keys, Dup, Table};
use crate::text::{copy_all, copy_opt, dec, holds, opt_str, oview, push_dec, same, views, Str};
use crate::windows::{
    all_instances, app_for_window, app_windows, classless, fitting_app, has_no_class, members, next_instance, next_number,
    used_instances, used_view, windows_of, ws_windows,
};

verus! {

broadcast use {crate::text::group_views, crate::hypr::group_derefs};

// ---- What is written of an application ------------------------------------------------

/// The entry of an application in the section of a workspace.
#[derive(Debug, PartialEq, Eq)]
pub enum AppItem {
    /// The name of a cell.
    Cell(String),
    Rect(PxRect),
}

/// What the entry says.
pub enum AppItemView {
    Cell(Str),
    Rect(PxRect),
}

impl View for AppItem {
    type V = AppItemView;

    open spec fn view(&self) -> AppItemView {
        match self {
            AppItem::Cell(c) => AppItemView::Cell(c@),
            AppItem::Rect(r) => AppItemView::Rect(*r),
        }
    }
}

/// The entry of an application: the name of its cell where its window stands in it or there is no window,
/// else a rectangle.
pub open spec fn item_of(place: PlaceView, live: Option<PxRect>, expected: Option<PxRect>) -> AppItemView {
    match place {
        PlaceView::Cell(c) => match live {
            None => AppItemView::Cell(c),
            Some(l) => if expected == Some(l) {
                AppItemView::Cell(c)
            } else {
                AppItemView::Rect(l)
            },
        },
        PlaceView::Rect { rect } => match live {
            Some(l) => AppItemView::Rect(l),
            None => AppItemView::Rect(rect),
        },
    }
}

/// The entry of an application in the section of a workspace: `live` is the rectangle of its window,
/// `expected` that of its place.
pub fn app_item(place: &Place, live: Option<PxRect>, expected: Option<PxRect>) -> (r: AppItem)
    ensures
        r@ == item_of(place@, live, expected),
{
    match place {
        Place::Cell(c) => match live {
            None => AppItem::Cell(c.clone()),
            Some(l) => if expected == Some(l) {
                AppItem::Cell(c.clone())
            } else {
                AppItem::Rect(l)
            },
        },
        Place::Rect { rect } => match live {
            Some(l) => AppItem::Rect(l),
            None => AppItem::Rect(*rect),
        },
    }
}

/// The first window from `i` on that belongs to a workspace and is not hidden.
pub open spec fn live_from(s: Seq<Client>, ws: Str, i: int) -> Option<Client>
    decreases s.len() - i,
{
    if i >= s.len() {
        None
    } else if in_ws(s[i], ws) && !on_hidden(s[i]) {
        Some(s[i])
    } else {
        live_from(s, ws, i + 1)
    }
}

/// The window that says where an application is in a workspace: its first one that belongs to the workspace
/// and is not hidden.
pub open spec fn live_window(cfg: ConfigView, clients: Seq<Client>, ws: Str, app: Str) -> Option<Client> {
    live_from(windows_of(cfg, clients, app), ws, 0)
}

fn find_live<'a>(cfg: &Config, clients: &'a [Client], ws: &str, app: &str) -> (r: Option<&'a Client>)
    ensures
        crate::windows::odref(r) == live_window(cfg@, clients@, ws@, app@),
{
    let wins = app_windows(cfg, clients, app);
    let ghost s = crate::hypr::derefs(wins@);
    let mut i: usize = 0;
    while i < wins.len()
        invariant
            i <= wins.len(),
            s == crate::hypr::derefs(wins@),
            s == windows_of(cfg@, clients@, app@),
            live_from(s, ws@, 0) == live_from(s, ws@, i as int),
        decreases wins.len() - i,
    {
        assert(s[i as int] == *wins[i as int]);
        if wins[i].in_ws(ws) && !wins[i].on_hidden() {
            return Some(wins[i]);
        }
        i = i + 1;
    }
    None
}

/// Where an application is in a workspace: the rectangle of its first window that belongs to the workspace
/// and is not hidden.
pub fn live_rect(cfg: &Config, clients: &[Client], ws: &str, app: &str) -> (r: Option<PxRect>)
    ensures
        r == match live_window(cfg@, clients@, ws@, app@) {
            Some(c) => Some(rect_of(c)),
            None => None,
        },
{
    match find_live(cfg, clients, ws, app) {
        Some(c) => Some(c.rect()),
        None => None,
    }
}

/// The description of an application in the section of applications.
#[derive(Debug, PartialEq, Eq)]
pub struct AppTable {
    pub cmd: String,
    pub args: Vec<String>,
    pub cwd: Option<String>,
    /// The class of its windows, to be met exactly.
    pub class: Option<String>,
}

/// What the description says.
pub struct AppTableView {
    pub cmd: Str,
    pub args: Seq<Str>,
    pub cwd: Option<Str>,
    pub class: Option<Str>,
}

impl View for AppTable {
    type V = AppTableView;

    open spec fn view(&self) -> AppTableView {
        AppTableView { cmd: self.cmd@, args: views(self.args@), cwd: oview(self.cwd), class: oview(self.class) }
    }
}

/// The description of an application by its command, directory and class.
pub open spec fn table_of(cmd: Seq<Str>, cwd: Option<Str>, class: Option<Str>) -> AppTableView {
    AppTableView {
        cmd: cmd[0],
        args: cmd.skip(1),
        cwd,
        class: match class {
            Some(c) => Some(exact_class(c)),
            None => None,
        },
    }
}

/// The description of an application by its command, directory and class.
pub fn app_table(cmd: &[String], cwd: Option<&str>, class: Option<&str>) -> (r: AppTable)
    requires
        cmd.len() > 0,
    ensures
        r@ == table_of(views(cmd@), oview(cwd), oview(class)),
{
    let ghost s = views(cmd@);
    let mut args: Vec<String> = Vec::new();
    let mut i: usize = 1;
    proof {
        assert(s.subrange(1, 1) =~= Seq::empty());
    }
    while i < cmd.len()
        invariant
            1 <= i <= cmd.len(),
            s == views(cmd@),
            views(args@) == s.subrange(1, i as int),
        decreases cmd.len() - i,
    {
        args.push(cmd[i].clone());
        proof {
            assert(s.subrange(1, i + 1) =~= s.subrange(1, i as int).push(s[i as int]));
        }
        i = i + 1;
    }
    proof {
        assert(s.subrange(1, s.len() as int) =~= s.skip(1));
        assert(s[0] == cmd@[0]@);
    }
    let class = match class {
        Some(c) => Some(class_text(c)),
        None => None,
    };
    let cwd = match cwd {
        Some(d) => Some(d.to_owned()),
        None => None,
    };
    AppTable { cmd: cmd[0].clone(), args, cwd, class }
}

// ---- The session ------------------------------------------------------------------------

/// A window that a workspace takes in when the session is saved.
#[derive(Debug, PartialEq)]
pub struct Adopted {
    pub addr: String,
    pub app: String,
    /// The record for the session; none where the workspace has the application.
    pub extra: Option<ExtraApp>,
}

/// What it says.
pub struct AdoptedView {
    pub addr: Str,
    pub app: Str,
    pub extra: Option<ExtraAppView>,
}

impl View for Adopted {
    type V = AdoptedView;

    open spec fn view(&self) -> AdoptedView {
        AdoptedView { addr: self.addr@, app: self.app@, extra: oview(self.extra) }
    }
}

/// The command of a window of no application.
pub open spec fn foreign_cmd(f: Option<ForeignView>) -> Seq<Str> {
    match f {
        Some(f) => f.cmd,
        None => Seq::empty(),
    }
}

/// The directory of a window of no application.
pub open spec fn foreign_cwd(f: Option<ForeignView>) -> Option<Str> {
    match f {
        Some(f) => f.cwd,
        None => None,
    }
}

/// What windows are, with what is known of their processes.
pub open spec fn windows_view(s: Seq<(&Client, Option<&Foreign>)>) -> Seq<(Client, Option<ForeignView>)> {
    s.map_values(|e: (&Client, Option<&Foreign>)| (*e.0, oview(e.1)))
}

/// The windows from `i` on that a workspace takes in, after `acc`, and the names that are taken after it.
/// Each is decided as a window that has just opened; it keeps its rectangle.
pub open spec fn session_from(
    cfg: ConfigView,
    file: ConfigView,
    ws: Str,
    taken: Seq<Str>,
    windows: Seq<(Client, Option<ForeignView>)>,
    i: int,
    acc: Seq<AdoptedView>,
) -> (Seq<Str>, Seq<AdoptedView>)
    decreases windows.len() - i,
{
    if i >= windows.len() {
        (taken, acc)
    } else {
        let (c, f) = windows[i];
        match join_of(cfg, file, Some(ws), c, foreign_cmd(f), taken) {
            JoinView::App(app) => session_from(
                cfg,
                file,
                ws,
                taken,
                windows,
                i + 1,
                acc.push(AdoptedView { addr: c.address@, app, extra: None }),
            ),
            JoinView::AppPlace(app) => session_from(
                cfg,
                file,
                ws,
                taken,
                windows,
                i + 1,
                acc.push(AdoptedView { addr: c.address@, app, extra: Some(place_only(rect_of(c))) }),
            ),
            JoinView::Extra(name) => session_from(
                cfg,
                file,
                ws,
                if taken.contains(name) {
                    taken
                } else {
                    taken.push(name)
                },
                windows,
                i + 1,
                acc.push(
                    AdoptedView {
                        addr: c.address@,
                        app: name,
                        extra: Some(
                            ExtraAppView {
                                class: Some(c.class@),
                                cmd: foreign_cmd(f),
                                cwd: foreign_cwd(f),
                                rect: rect_of(c),
                            },
                        ),
                    },
                ),
            ),
            JoinView::Free(_) => session_from(cfg, file, ws, taken, windows, i + 1, acc),
        }
    }
}

/// The windows that a workspace takes in when the session is saved. `taken` gets the names of the new
/// applications.
pub fn session_plan(
    cfg: &Config,
    file: &Config,
    ws: &str,
    taken: &mut Vec<String>,
    windows: &[(&Client, Option<&Foreign>)],
) -> (r: Vec<Adopted>)
    requires
        old(taken).len() + windows.len() < u32::MAX,
    ensures
        session_from(cfg@, file@, ws@, views(old(taken)@), windows_view(windows@), 0, Seq::empty()) == (
            views(final(taken)@),
            views(r@),
        ),
{
    let ghost w = windows_view(windows@);
    let mut out: Vec<Adopted> = Vec::new();
    let mut i: usize = 0;
    while i < windows.len()
        invariant
            i <= windows.len(),
            w == windows_view(windows@),
            taken.len() <= old(taken).len() + i,
            old(taken).len() + windows.len() < u32::MAX,
            session_from(cfg@, file@, ws@, views(old(taken)@), w, 0, Seq::empty()) == session_from(
                cfg@,
                file@,
                ws@,
                views(taken@),
                w,
                i as int,
                views(out@),
            ),
        decreases windows.len() - i,
    {
        let (c, f) = windows[i];
        assert(w[i as int] == (*c, oview(f)));
        let cmd = match f {
            Some(f) => copy_all(f.cmd.as_slice()),
            None => Vec::new(),
        };
        assert(views(cmd@) == foreign_cmd(oview(f)));
        match join_window(cfg, file, Some(ws), c, cmd.as_slice(), taken.as_slice()) {
            Join::App(app) => {
                out.push(Adopted { addr: c.address.clone(), app, extra: None });
            },
            Join::AppPlace(app) => {
                let mut e = ExtraApp::default();
                e.rect = c.rect();
                out.push(Adopted { addr: c.address.clone(), app, extra: Some(e) });
            },
            Join::Extra(name) => {
                if !holds(taken.as_slice(), name.as_str()) {
                    taken.push(name.clone());
                }
                let cwd = match f {
                    Some(f) => copy_opt(&f.cwd),
                    None => None,
                };
                let e = ExtraApp { class: Some(c.class.clone()), cmd, cwd, rect: c.rect() };
                out.push(Adopted { addr: c.address.clone(), app: name, extra: Some(e) });
            },
            Join::Free(_) => {},
        }
        i = i + 1;
    }
    out
}

/// Those of the first `k` windows that stand on desktop `n` and show no application.
pub open spec fn untold_upto(
    clients: Seq<Client>,
    foreign: Seq<(Str, ForeignView)>,
    n: u8,
    k: int,
) -> Seq<(Client, Option<ForeignView>)>
    decreases k,
{
    if k <= 0 {
        Seq::empty()
    } else if desk_of(clients[k - 1]) == Some(n) && app_of(clients[k - 1]) is None {
        untold_upto(clients, foreign, n, k - 1).push(
            (clients[k - 1], tab_get(foreign, clients[k - 1].address@)),
        )
    } else {
        untold_upto(clients, foreign, n, k - 1)
    }
}

/// The expressions that tag the first `k` windows taken in, and the numbers in use after it.
pub open spec fn tagging_upto(used: Seq<(Str, nat)>, plan: Seq<AdoptedView>, ws: Str, k: int) -> (
    Seq<(Str, nat)>,
    Seq<Str>,
)
    decreases k,
{
    if k <= 0 {
        (used, Seq::empty())
    } else {
        let (u, ex) = tagging_upto(used, plan, ws, k - 1);
        let a = plan[k - 1];
        let num = next_number(u, a.app);
        (
            u.push((a.app, num)),
            ex.push(tag_of(a.addr, instance_tag(a.app, num))).push(tag_of(a.addr, "ws:"@ + ws)),
        )
    }
}

/// The windows that the active workspace of desktop `n` takes in, by the names that are taken.
pub open spec fn accepted(
    cfg: ConfigView,
    file: ConfigView,
    st: StateView,
    clients: Seq<Client>,
    n: u8,
    ws: Str,
) -> Seq<AdoptedView> {
    session_from(
        cfg,
        file,
        ws,
        taken_of(cfg, st.extra),
        untold_upto(clients, st.foreign, n, clients.len() as int),
        0,
        Seq::empty(),
    ).1
}

fn untold<'a>(clients: &'a [Client], foreign: &'a Table<Foreign>, n: u8) -> (r: Vec<(&'a Client, Option<&'a Foreign>)>)
    ensures
        windows_view(r@) == untold_upto(clients@, foreign@, n, clients.len() as int),
        r.len() <= clients.len(),
{
    let mut out: Vec<(&'a Client, Option<&'a Foreign>)> = Vec::new();
    let mut i: usize = 0;
    proof {
        assert(windows_view(out@) =~= Seq::empty());
    }
    while i < clients.len()
        invariant
            i <= clients.len(),
            out.len() <= i,
            windows_view(out@) == untold_upto(clients@, foreign@, n, i as int),
        decreases clients.len() - i,
    {
        let c = &clients[i];
        if c.desktop() == Some(n) && c.app().is_none() {
            let f = foreign.get(c.address.as_str());
            let ghost was = out@;
            out.push((c, f));
            proof {
                assert(windows_view(out@) =~= windows_view(was).push((*c, oview(f))));
            }
        }
        i = i + 1;
    }
    out
}

fn tag_adopted(used: Vec<(String, u32)>, plan: &[Adopted], ws: &str) -> (r: Vec<String>)
    requires
        used.len() + plan.len() < u32::MAX,
    ensures
        views(r@) == tagging_upto(used_view(used@), views(plan@), ws@, plan.len() as int).1,
{
    let ghost first = used_view(used@);
    let ghost p = views(plan@);
    let mut used = used;
    let mut ex: Vec<String> = Vec::new();
    let mut i: usize = 0;
    assert(first.len() == used.len());
    while i < plan.len()
        invariant
            i <= plan.len(),
            p == views(plan@),
            first.len() + plan.len() < u32::MAX,
            used_view(used@).len() == first.len() + i,
            tagging_upto(first, p, ws@, i as int) == (used_view(used@), views(ex@)),
        decreases plan.len() - i,
    {
        let a = &plan[i];
        assert(p[i as int] == a@);
        assert(used_view(used@).len() == used.len());
        let num: u32 = next_instance(&mut used, a.app.as_str());
        ex.push(d_tag(a.addr.as_str(), app_tag(a.app.as_str(), num).as_str()));
        ex.push(d_tag(a.addr.as_str(), ws_tag(ws).as_str()));
        i = i + 1;
    }
    ex
}

/// The windows that the active workspace `ws` of desktop `n` takes in when the session is saved, and the
/// expressions that tag them.
pub fn accept_desktop(cfg: &Config, file: &Config, st: &State, clients: &[Client], n: u8, ws: &str) -> (r: (
    Vec<Adopted>,
    Vec<String>,
))
    requires
        2 * clients.len() < u32::MAX,
        clients.len() + taken_of(cfg@, st@.extra).len() < u32::MAX,
    ensures
        views(r.0@) == accepted(cfg@, file@, st@, clients@, n, ws@),
        views(r.1@) == tagging_upto(
            all_instances(clients@, clients@.len() as int),
            views(r.0@),
            ws@,
            r.0@.len() as int,
        ).1,
{
    let windows = untold(clients, &st.foreign, n);
    let mut taken = taken_names(cfg, &st.extra);
    assert(views(taken@).len() == taken.len());
    let plan = session_plan(cfg, file, ws, &mut taken, windows.as_slice());
    proof {
        lemma_session_len(
            cfg@,
            file@,
            ws@,
            taken_of(cfg@, st@.extra),
            windows_view(windows@),
            0,
            Seq::empty(),
        );
        assert(views(plan@).len() == plan.len());
        assert(windows_view(windows@).len() == windows.len());
    }
    let used = used_instances(clients);
    let ex = tag_adopted(used, plan.as_slice(), ws);
    (plan, ex)
}

proof fn lemma_session_len(
    cfg: ConfigView,
    file: ConfigView,
    ws: Str,
    taken: Seq<Str>,
    windows: Seq<(Client, Option<ForeignView>)>,
    i: int,
    acc: Seq<AdoptedView>,
)
    requires
        0 <= i <= windows.len(),
    ensures
        session_from(cfg, file, ws, taken, windows, i, acc).1.len() <= acc.len() + windows.len() - i,
    decreases windows.len() - i,
{
    if i < windows.len() {
        let (c, f) = windows[i];
        match join_of(cfg, file, Some(ws), c, foreign_cmd(f), taken) {
            JoinView::App(app) => {
                lemma_session_len(
                    cfg,
                    file,
                    ws,
                    taken,
                    windows,
                    i + 1,
                    acc.push(AdoptedView { addr: c.address@, app, extra: None }),
                );
            },
            JoinView::AppPlace(app) => {
                lemma_session_len(
                    cfg,
                    file,
                    ws,
                    taken,
                    windows,
                    i + 1,
                    acc.push(AdoptedView { addr: c.address@, app, extra: Some(place_only(rect_of(c))) }),
                );
            },
            JoinView::Extra(name) => {
                let e = ExtraAppView {
                    class: Some(c.class@),
                    cmd: foreign_cmd(f),
                    cwd: foreign_cwd(f),
                    rect: rect_of(c),
                };
                lemma_session_len(
                    cfg,
                    file,
                    ws,
                    if taken.contains(name) {
                        taken
                    } else {
                        taken.push(name)
                    },
                    windows,
                    i + 1,
                    acc.push(AdoptedView { addr: c.address@, app: name, extra: Some(e) }),
                );
            },
            JoinView::Free(_) => {
                lemma_session_len(cfg, file, ws, taken, windows, i + 1, acc);
            },
        }
    }
}

/// The state after the windows from `i` on were taken in: they are no longer of no application, and their
/// records are put down.
pub open spec fn taken_in_from(st: StateView, ws: Str, plan: Seq<AdoptedView>, i: int) -> StateView
    decreases plan.len() - i,
{
    if i >= plan.len() {
        st
    } else {
        let a = plan[i];
        taken_in_from(
            StateView {
                foreign: tab_del(st.foreign, a.addr),
                extra: match a.extra {
                    Some(e) => nest_put(st.extra, ws, a.app, e),
                    None => st.extra,
                },
                ..st
            },
            ws,
            plan,
            i + 1,
        )
    }
}

/// Put down that windows were taken into a workspace, and make the effective configuration anew.
pub fn accept_finish(file: &Config, st: &mut State, ws: &str, plan: &[Adopted]) -> (r: Config)
    ensures
        ({
            let s = taken_in_from(old(st)@, ws@, views(plan@), 0);
            &&& final(st)@ == s.rebuilt(file@)
            &&& r@ == merged(file@, s.extra).0
        }),
{
    let ghost p = views(plan@);
    let mut i: usize = 0;
    while i < plan.len()
        invariant
            i <= plan.len(),
            p == views(plan@),
            taken_in_from(old(st)@, ws@, p, 0) == taken_in_from(st@, ws@, p, i as int),
        decreases plan.len() - i,
    {
        assert(p[i as int] == plan@[i as int]@);
        st.foreign.remove(plan[i].addr.as_str());
        if let Some(e) = &plan[i].extra {
            st.extra.put_nested(ws, plan[i].app.clone(), e.dup());
        }
        i = i + 1;
    }
    rebuild_cfg(file, st).0
}

/// The place of a record of the session by the windows of its application: the rectangle of the first one on
/// the desktop where the workspace is active, else the one kept for it there.
pub open spec fn extra_rect_of(
    cfg: ConfigView,
    clients: Seq<Client>,
    ws: Str,
    desk: Option<u8>,
    kept: Option<Seq<(Str, PxRect)>>,
    name: Str,
) -> Option<PxRect> {
    match live_window(cfg, clients, ws, name) {
        None => None,
        Some(c) => if desk is Some && desk_of(c) == desk {
            Some(rect_of(c))
        } else {
            match kept {
                Some(g) => tab_get(g, c.address@),
                None => None,
            }
        },
    }
}

/// The place of a record of the session by the windows of its application. `desk` is the desktop where the
/// workspace is active, `kept` the rectangles kept for its windows, where they count: a window that followed
/// the user elsewhere stands there for another workspace.
pub fn extra_rect(
    cfg: &Config,
    clients: &[Client],
    ws: &str,
    desk: Option<u8>,
    kept: Option<&Table<PxRect>>,
    name: &str,
) -> (r: Option<PxRect>)
    ensures
        r == extra_rect_of(cfg@, clients@, ws@, desk, oview(kept), name@),
{
    let c = match find_live(cfg, clients, ws, name) {
        Some(c) => c,
        None => return None,
    };
    if desk.is_some() && c.desktop() == desk {
        return Some(c.rect());
    }
    match kept {
        Some(g) => match g.get(c.address.as_str()) {
            Some(r) => Some(*r),
            None => None,
        },
        None => None,
    }
}

/// The rectangles kept for the windows of a workspace, where they count: only in the mode `stack`.
pub open spec fn kept_for(cfg: ConfigView, st: StateView, ws: Str) -> Option<Seq<(Str, PxRect)>> {
    match tab_get(cfg.workspaces, ws) {
        Some(w) => if crate::config::mode_of(w.mode) == Mode::Stack {
            Some(nest_at(st.geom, ws))
        } else {
            None
        },
        None => None,
    }
}

/// The state after the records of a workspace from `i` on got the places of their windows, and how many
/// changed. `geom` and `desk` are those before.
pub open spec fn placed_records_from(
    cfg: ConfigView,
    st: StateView,
    ws: Str,
    clients: Seq<Client>,
    desk: Option<u8>,
    kept: Option<Seq<(Str, PxRect)>>,
    names: Seq<Str>,
    i: int,
    changed: nat,
) -> (StateView, nat)
    decreases names.len() - i,
{
    if i >= names.len() {
        (st, changed)
    } else {
        let name = names[i];
        match (extra_rect_of(cfg, clients, ws, desk, kept, name), nest_get(st.extra, ws, name)) {
            (Some(rect), Some(e)) => if e.rect == rect {
                placed_records_from(cfg, st, ws, clients, desk, kept, names, i + 1, changed)
            } else {
                placed_records_from(
                    cfg,
                    StateView {
                        extra: nest_put(st.extra, ws, name, ExtraAppView { rect, ..e }),
                        cells: if tab_has(st.cells, ws) {
                            nest_put(st.cells, ws, name, PlaceView::Rect { rect })
                        } else {
                            st.cells
                        },
                        ..st
                    },
                    ws,
                    clients,
                    desk,
                    kept,
                    names,
                    i + 1,
                    changed + 1,
                )
            },
            _ => placed_records_from(cfg, st, ws, clients, desk, kept, names, i + 1, changed),
        }
    }
}

/// Give the records of a workspace the places of their windows. Gives how many changed.
pub fn update_extra_rects(cfg: &Config, st: &mut State, ws: &str, clients: &[Client]) -> (r: usize)
    ensures
        placed_records_from(
            cfg@,
            old(st)@,
            ws@,
            clients@,
            active_from(old(st)@.desktops, ws@, 0),
            kept_for(cfg@, old(st)@, ws@),
            tab_keys(nest_at(old(st)@.extra, ws@)),
            0,
            0,
        ) == (final(st)@, r as nat),
{
    let names = match st.extra.get(ws) {
        Some(t) => t.keys(),
        None => {
            let none: Vec<String> = Vec::new();
            proof {
                assert(views(none@) =~= tab_keys(Seq::<(Str, ExtraAppView)>::empty()));
            }
            none
        },
    };
    let desk = active_desktop_of(st, ws);
    let stack = match cfg.workspaces.get(ws) {
        Some(w) => w.mode() == Mode::Stack,
        None => false,
    };
    let geom = match st.geom.get(ws) {
        Some(g) => g.dup(),
        None => Table::new(),
    };
    let kept = if stack {
        Some(&geom)
    } else {
        None
    };
    let ghost k = kept_for(cfg@, st@, ws@);
    let ghost ns = views(names@);
    assert(oview(kept) == k);
    let mut changed: usize = 0;
    let mut i: usize = 0;
    while i < names.len()
        invariant
            i <= names.len(),
            changed <= i,
            ns == views(names@),
            oview(kept) == k,
            placed_records_from(cfg@, old(st)@, ws@, clients@, desk, k, ns, 0, 0) == placed_records_from(
                cfg@,
                st@,
                ws@,
                clients@,
                desk,
                k,
                ns,
                i as int,
                changed as nat,
            ),
        decreases names.len() - i,
    {
        let name = names[i].as_str();
        assert(ns[i as int] == name@);
        if let Some(rect) = extra_rect(cfg, clients, ws, desk, kept, name) {
            let now = match st.extra.nested(ws, name) {
                Some(e) => Some(e.dup()),
                None => None,
            };
            if let Some(e) = now {
                if e.rect != rect {
                    let mut e = e;
                    e.rect = rect;
                    st.extra.put_nested(ws, names[i].clone(), e);
                    if st.cells.contains_key(ws) {
                        st.cells.put_nested(ws, names[i].clone(), Place::Rect { rect });
                    }
                    changed = changed + 1;
                }
            }
        }
        i = i + 1;
    }
    changed
}

/// How many windows the first `n` workspaces have together; a window of two counts twice.
pub open spec fn count_upto(clients: Seq<Client>, list: Seq<Str>, n: int) -> nat
    decreases n,
{
    if n <= 0 {
        0
    } else {
        count_upto(clients, list, n - 1) + members(clients, list[n - 1]).len()
    }
}

proof fn lemma_members_len(clients: Seq<Client>, ws: Str, n: int)
    requires
        0 <= n <= clients.len(),
    ensures
        crate::windows::members_upto(clients, ws, n).len() <= n,
    decreases n,
{
    if n > 0 {
        lemma_members_len(clients, ws, n - 1);
    }
}

/// How many windows some workspaces have together; a window of two counts twice.
pub fn count_windows(clients: &[Client], list: &[String]) -> (r: u64)
    requires
        clients.len() < u32::MAX,
        list.len() < u32::MAX,
    ensures
        r == count_upto(clients@, views(list@), list.len() as int),
{
    let ghost l = views(list@);
    let mut n: u64 = 0;
    let mut i: usize = 0;
    while i < list.len()
        invariant
            i <= list.len(),
            l == views(list@),
            clients.len() < u32::MAX,
            list.len() < u32::MAX,
            n <= i * 0xffff_fffe,
            n == count_upto(clients@, l, i as int),
        decreases list.len() - i,
    {
        let wins = ws_windows(clients, list[i].as_str());
        proof {
            assert(l[i as int] == list@[i as int]@);
            lemma_members_len(clients@, l[i as int], clients@.len() as int);
            assert(crate::hypr::derefs(wins@).len() == wins.len());
            assert((i + 1) * 0xffff_fffe == i * 0xffff_fffe + 0xffff_fffe);
            assert(i * 0xffff_fffe <= 0xffff_fffe * 0xffff_fffe) by (nonlinear_arith)
                requires
                    0 <= i <= 0xffff_fffe,
            ;
        }
        n = n + wins.len() as u64;
        i = i + 1;
    }
    n
}

// ---- The active workspace ---------------------------------------------------------------

/// What is written into the configuration file for a workspace.
#[derive(Debug)]
pub struct SavePlan {
    pub ws: String,
    /// Applications of the session, which come into the section of applications.
    pub session_apps: Vec<(String, AppTable)>,
    pub main: Option<String>,
    /// The mode is `stack`.
    pub stack: bool,
    /// New applications of windows of no application.
    pub window_apps: Vec<(String, AppTable)>,
    /// The entries of the workspace; a later one of the same name stands.
    pub entries: Vec<(String, AppItem)>,
    /// The expressions that tag windows.
    pub ex: Vec<String>,
    /// The windows that become windows of the workspace.
    pub adopted: Vec<String>,
}

/// What it says.
pub struct SavePlanView {
    pub ws: Str,
    pub session_apps: Seq<(Str, AppTableView)>,
    pub main: Option<Str>,
    pub stack: bool,
    pub window_apps: Seq<(Str, AppTableView)>,
    pub entries: Seq<(Str, AppItemView)>,
    pub ex: Seq<Str>,
    pub adopted: Seq<Str>,
}

/// What a list of applications says.
pub open spec fn tables_view(s: Seq<(String, AppTable)>) -> Seq<(Str, AppTableView)> {
    s.map_values(|e: (String, AppTable)| (e.0@, e.1@))
}

/// What a list of entries says.
pub open spec fn items_view(s: Seq<(String, AppItem)>) -> Seq<(Str, AppItemView)> {
    s.map_values(|e: (String, AppItem)| (e.0@, e.1@))
}

impl View for SavePlan {
    type V = SavePlanView;

    open spec fn view(&self) -> SavePlanView {
        SavePlanView {
            ws: self.ws@,
            session_apps: tables_view(self.session_apps@),
            main: oview(self.main),
            stack: self.stack,
            window_apps: tables_view(self.window_apps@),
            entries: items_view(self.entries@),
            ex: views(self.ex@),
            adopted: views(self.adopted@),
        }
    }
}

/// The descriptions of those of the first `n` records that have a command.
pub open spec fn session_tables(extra: Seq<(Str, ExtraAppView)>, n: int) -> Seq<(Str, AppTableView)>
    decreases n,
{
    if n <= 0 {
        Seq::empty()
    } else if extra[n - 1].1.cmd.len() > 0 {
        session_tables(extra, n - 1).push(
            (extra[n - 1].0, table_of(extra[n - 1].1.cmd, extra[n - 1].1.cwd, extra[n - 1].1.class)),
        )
    } else {
        session_tables(extra, n - 1)
    }
}

/// The entries of the first `n` places of a workspace.
pub open spec fn place_items(
    cfg: ConfigView,
    st: StateView,
    clients: Seq<Client>,
    ws: Str,
    cells: Seq<(Str, PlaceView)>,
    n: int,
) -> Seq<(Str, AppItemView)>
    decreases n,
{
    if n <= 0 {
        Seq::empty()
    } else {
        let app = cells[n - 1].0;
        place_items(cfg, st, clients, ws, cells, n - 1).push(
            (
                app,
                item_of(
                    cells[n - 1].1,
                    match live_window(cfg, clients, ws, app) {
                        Some(c) => Some(rect_of(c)),
                        None => None,
                    },
                    st.place(cfg, ws, app),
                ),
            ),
        )
    }
}

/// What taking windows of no application into the workspace has come to: names that are taken, numbers in
/// use, new applications, entries, expressions and windows.
pub struct Gathered {
    pub taken: Seq<Str>,
    pub used: Seq<(Str, nat)>,
    pub apps: Seq<(Str, AppTableView)>,
    pub entries: Seq<(Str, AppItemView)>,
    pub ex: Seq<Str>,
    pub adopted: Seq<Str>,
}

/// The application that the tag of a window names, where the configuration has it.
pub open spec fn tagged_app(cfg: ConfigView, c: Client) -> Option<Str> {
    match app_of(c) {
        Some(a) => if tab_has(cfg.apps, a) {
            Some(a)
        } else {
            None
        },
        None => None,
    }
}

/// What it has come to after one window of the desktop: a window of no application with a class becomes one
/// of the application that its tag names or that it fits, else of a new application if its command is known.
pub open spec fn gathered_one(cfg: ConfigView, foreign: Seq<(Str, ForeignView)>, ws: Str, n: u8, c: Client, g: Gathered) -> Gathered {
    match tab_get(foreign, c.address@) {
        None => g,
        Some(f) => if desk_of(c) != Some(n) || in_ws(c, ws) || has_no_class(c) {
            g
        } else {
            let tagged = tagged_app(cfg, c);
            let known = match tagged {
                Some(a) => Some(a),
                None => fitting_app(cfg, c),
            };
            if known is None && f.cmd.len() == 0 {
                g
            } else {
                let name = match known {
                    Some(a) => a,
                    None => name_for(c.class@, g.taken),
                };
                let num = next_number(g.used, name);
                Gathered {
                    taken: if known is None {
                        g.taken.push(name)
                    } else {
                        g.taken
                    },
                    used: if tagged is None {
                        g.used.push((name, num))
                    } else {
                        g.used
                    },
                    apps: if known is None {
                        g.apps.push((name, table_of(f.cmd, f.cwd, Some(c.class@))))
                    } else {
                        g.apps
                    },
                    entries: g.entries.push((name, AppItemView::Rect(rect_of(c)))),
                    ex: (if tagged is None {
                        g.ex.push(tag_of(c.address@, instance_tag(name, num)))
                    } else {
                        g.ex
                    }).push(tag_of(c.address@, "ws:"@ + ws)),
                    adopted: g.adopted.push(c.address@),
                }
            }
        },
    }
}

/// What it has come to after the windows from `i` on.
pub open spec fn gathered_from(
    cfg: ConfigView,
    foreign: Seq<(Str, ForeignView)>,
    ws: Str,
    n: u8,
    clients: Seq<Client>,
    i: int,
    g: Gathered,
) -> Gathered
    decreases clients.len() - i,
{
    if i >= clients.len() {
        g
    } else {
        gathered_from(cfg, foreign, ws, n, clients, i + 1, gathered_one(cfg, foreign, ws, n, clients[i], g))
    }
}

/// What is written into the configuration file for the workspace `ws`, active on desktop `n`.
pub open spec fn plan_of(cfg: ConfigView, st: StateView, clients: Seq<Client>, n: u8, ws: Str) -> SavePlanView {
    let cells = nest_at(st.cells, ws);
    let extra = nest_at(st.extra, ws);
    let g = gathered_from(
        cfg,
        st.foreign,
        ws,
        n,
        clients,
        0,
        Gathered {
            taken: tab_keys(cfg.apps),
            used: all_instances(clients, clients.len() as int),
            apps: Seq::empty(),
            entries: place_items(cfg, st, clients, ws, cells, cells.len() as int),
            ex: Seq::empty(),
            adopted: Seq::empty(),
        },
    );
    SavePlanView {
        ws,
        session_apps: session_tables(extra, extra.len() as int),
        main: st.main_in(cfg, ws),
        stack: tab_get(cfg.workspaces, ws) matches Some(w) && crate::config::mode_of(w.mode) == Mode::Stack,
        window_apps: g.apps,
        entries: g.entries,
        ex: g.ex,
        adopted: g.adopted,
    }
}

fn make_session_tables(extra: &Table<ExtraApp>) -> (r: Vec<(String, AppTable)>)
    ensures
        tables_view(r@) == session_tables(extra@, extra@.len() as int),
{
    let mut out: Vec<(String, AppTable)> = Vec::new();
    proof {
        assert(tables_view(out@) =~= Seq::empty());
    }
    let n: usize = extra.len();
    let mut i: usize = 0;
    while i < n
        invariant
            i <= n,
            n == extra@.len(),
            tables_view(out@) == session_tables(extra@, i as int),
        decreases n - i,
    {
        let e = extra.at(i);
        assert(e@.cmd.len() == e.cmd.len());
        if e.cmd.len() > 0 {
            let t = app_table(e.cmd.as_slice(), opt_str(&e.cwd), opt_str(&e.class));
            let ghost was = out@;
            let ghost v = t@;
            out.push((extra.key(i).clone(), t));
            proof {
                assert(tables_view(out@) =~= tables_view(was).push((extra@[i as int].0, v)));
            }
        }
        i = i + 1;
    }
    out
}

fn make_place_items(cfg: &Config, st: &mut State, clients: &[Client], ws: &str, cells: &Table<Place>) -> (r: Vec<
    (String, AppItem),
>)
    requires
        old(st)@.built(cfg@, ws@) == old(st)@,
    ensures
        items_view(r@) == place_items(cfg@, old(st)@, clients@, ws@, cells@, cells@.len() as int),
        final(st)@ == old(st)@,
{
    let mut out: Vec<(String, AppItem)> = Vec::new();
    proof {
        assert(items_view(out@) =~= Seq::empty());
    }
    let n: usize = cells.len();
    let mut i: usize = 0;
    while i < n
        invariant
            i <= n,
            n == cells@.len(),
            st@ == old(st)@,
            old(st)@.built(cfg@, ws@) == old(st)@,
            items_view(out@) == place_items(cfg@, old(st)@, clients@, ws@, cells@, i as int),
        decreases n - i,
    {
        let app = cells.key(i);
        let expected = st.rect_for(cfg, ws, app.as_str());
        let live = live_rect(cfg, clients, ws, app.as_str());
        let item = app_item(cells.at(i), live, expected);
        let ghost was = out@;
        let ghost v = item@;
        out.push((app.clone(), item));
        proof {
            assert(items_view(out@) =~= items_view(was).push((app@, v)));
        }
        i = i + 1;
    }
    out
}

/// What has been gathered so far.
struct Gather {
    taken: Vec<String>,
    used: Vec<(String, u32)>,
    apps: Vec<(String, AppTable)>,
    entries: Vec<(String, AppItem)>,
    ex: Vec<String>,
    adopted: Vec<String>,
}

impl View for Gather {
    type V = Gathered;

    closed spec fn view(&self) -> Gathered {
        Gathered {
            taken: views(self.taken@),
            used: used_view(self.used@),
            apps: tables_view(self.apps@),
            entries: items_view(self.entries@),
            ex: views(self.ex@),
            adopted: views(self.adopted@),
        }
    }
}

fn gather_one(cfg: &Config, foreign: &Table<Foreign>, ws: &str, n: u8, c: &Client, g: &mut Gather)
    requires
        old(g)@.taken.len() < u32::MAX,
        old(g)@.used.len() < u32::MAX,
    ensures
        final(g)@ == gathered_one(cfg@, foreign@, ws@, n, *c, old(g)@),
        final(g)@.taken.len() <= old(g)@.taken.len() + 1,
        final(g)@.used.len() <= old(g)@.used.len() + 1,
{
    let ghost g0 = g@;
    assert(g0.taken.len() == g.taken.len());
    assert(g0.used.len() == g.used.len());
    let f = match foreign.get(c.address.as_str()) {
        Some(f) => f,
        None => return ,
    };
    if c.desktop() != Some(n) || c.in_ws(ws) || classless(c) {
        return ;
    }
    assert(f@.cmd.len() == f.cmd.len());
    let tagged = match c.app() {
        Some(a) => if cfg.apps.contains_key(a.as_str()) {
            Some(a)
        } else {
            None
        },
        None => None,
    };
    assert(oview(tagged) == tagged_app(cfg@, *c));
    let is_tagged = tagged.is_some();
    let known = match tagged {
        Some(a) => Some(a),
        None => app_for_window(cfg, c),
    };
    let name = match known {
        Some(a) => a,
        None => {
            if f.cmd.len() == 0 {
                return ;
            }
            let name = app_name(c.class.as_str(), g.taken.as_slice());
            let t = app_table(f.cmd.as_slice(), opt_str(&f.cwd), Some(c.class.as_str()));
            let ghost was = g.apps@;
            let ghost v = t@;
            g.apps.push((name.clone(), t));
            g.taken.push(name.clone());
            proof {
                assert(tables_view(g.apps@) =~= tables_view(was).push((name@, v)));
            }
            name
        },
    };
    if !is_tagged {
        let num: u32 = next_instance(&mut g.used, name.as_str());
        g.ex.push(d_tag(c.address.as_str(), app_tag(name.as_str(), num).as_str()));
    }
    g.ex.push(d_tag(c.address.as_str(), ws_tag(ws).as_str()));
    let ghost was = g.entries@;
    let ghost key = name@;
    g.entries.push((name, AppItem::Rect(c.rect())));
    proof {
        assert(items_view(g.entries@) =~= items_view(was).push((key, AppItemView::Rect(rect_of(*c)))));
    }
    g.adopted.push(c.address.clone());
}

proof fn lemma_built_twice(cfg: ConfigView, st: StateView, ws: Str)
    ensures
        st.built(cfg, ws).built(cfg, ws) == st.built(cfg, ws),
{
    if tab_has(cfg.workspaces, ws) && !tab_has(st.cells, ws) {
        let e = cfg.entries(ws);
        crate::layout::lemma_put_found(st.cells, ws, crate::state::places_upto(e, e.len() as int));
    }
}

/// The fault of saving where no workspace is active.
pub open spec fn none_active(n: u8) -> Str {
    "на столе "@ + dec(n as nat) + " нет активного workspace"@
}

/// The workspace to save: the one active on the desktop of the user.
pub fn workspace_to_save(st: &State, n: u8) -> (r: Result<String, String>)
    ensures
        match r {
            Ok(w) => st@.active_on(n) == Some(w@),
            Err(e) => st@.active_on(n) is None && e@ == none_active(n),
        },
{
    match st.active_on(n) {
        Some(w) => Ok(w),
        None => {
            let mut s = "на столе ".to_owned();
            push_dec(&mut s, n as u64);
            s.append(" нет активного workspace");
            Err(s)
        },
    }
}

/// What is written into the configuration file for the workspace `ws`, active on desktop `n`: its
/// applications with their places as they stand, its main application and its mode, and the windows of no
/// application on the desktop, which become its windows.
pub fn save_plan(cfg: &Config, st: &mut State, clients: &[Client], n: u8, ws: &str) -> (r: SavePlan)
    requires
        2 * clients.len() < u32::MAX,
        clients.len() + cfg@.apps.len() < u32::MAX,
    ensures
        final(st)@ == old(st)@.built(cfg@, ws@),
        r@ == plan_of(cfg@, final(st)@, clients@, n, ws@),
{
    let cells = st.cells_of(cfg, ws);
    proof {
        lemma_built_twice(cfg@, old(st)@, ws@);
    }
    let main = st.main_app(cfg, ws);
    let none: Table<ExtraApp> = Table::new();
    let session_apps = match st.extra.get(ws) {
        Some(t) => make_session_tables(t),
        None => make_session_tables(&none),
    };
    let stack = match cfg.workspaces.get(ws) {
        Some(w) => w.mode() == Mode::Stack,
        None => false,
    };
    let entries = make_place_items(cfg, st, clients, ws, &cells);
    let taken = cfg.apps.keys();
    let used = used_instances(clients);
    let mut g = Gather { taken, used, apps: Vec::new(), entries, ex: Vec::new(), adopted: Vec::new() };
    let ghost first = g@;
    proof {
        assert(tables_view(g.apps@) =~= Seq::empty());
        assert(first.taken.len() == tab_keys(cfg@.apps).len());
        assert(first.used.len() == g.used.len());
    }
    let mut i: usize = 0;
    while i < clients.len()
        invariant
            i <= clients.len(),
            2 * clients.len() < u32::MAX,
            clients.len() + cfg@.apps.len() < u32::MAX,
            g@.taken.len() <= cfg@.apps.len() + i,
            g@.used.len() <= clients.len() + i,
            gathered_from(cfg@, st@.foreign, ws@, n, clients@, 0, first) == gathered_from(
                cfg@,
                st@.foreign,
                ws@,
                n,
                clients@,
                i as int,
                g@,
            ),
        decreases clients.len() - i,
    {
        gather_one(cfg, &st.foreign, ws, n, &clients[i], &mut g);
        i = i + 1;
    }
    SavePlan {
        ws: ws.to_owned(),
        session_apps,
        main,
        stack,
        window_apps: g.apps,
        entries: g.entries,
        ex: g.ex,
        adopted: g.adopted,
    }
}

/// The state after the windows from `i` on became windows of the workspace.
pub open spec fn no_longer_foreign(foreign: Seq<(Str, ForeignView)>, adopted: Seq<Str>, i: int) -> Seq<(Str, ForeignView)>
    decreases adopted.len() - i,
{
    if i >= adopted.len() {
        foreign
    } else {
        no_longer_foreign(tab_del(foreign, adopted[i]), adopted, i + 1)
    }
}

/// The workspace was written: its windows are no longer of no application, its places are to be made anew
/// from the file, and its records of the session went into the file.
pub fn save_finish(st: &mut State, ws: &str, adopted: &[String])
    ensures
        final(st)@ == (StateView {
            foreign: no_longer_foreign(old(st)@.foreign, views(adopted@), 0),
            cells: tab_del(old(st)@.cells, ws@),
            extra: tab_del(old(st)@.extra, ws@),
            ..old(st)@
        }),
{
    let ghost a = views(adopted@);
    let mut i: usize = 0;
    while i < adopted.len()
        invariant
            i <= adopted.len(),
            a == views(adopted@),
            st@ == (StateView { foreign: st@.foreign, ..old(st)@ }),
            no_longer_foreign(old(st)@.foreign, a, 0) == no_longer_foreign(st@.foreign, a, i as int),
        decreases adopted.len() - i,
    {
        assert(a[i as int] == adopted@[i as int]@);
        st.foreign.remove(adopted[i].as_str());
        i = i + 1;
    }
    st.cells.remove(ws);
    st.extra.remove(ws);
}

/// The fault of saving into a file that changed since it was read.
pub open spec fn file_changed() -> Str {
    "конфиг изменился с последнего чтения; перечитан, повторите команду"@
}

/// The workspace to save on desktop `n`, where the file still says what was read of it. `text` is the file now,
/// `known` what was read.
pub fn may_save(st: &State, n: u8, text: &str, known: &str) -> (r: Result<String, String>)
    ensures
        match st@.active_on(n) {
            None => r matches Err(e) && e@ == none_active(n),
            Some(w) => if text@ == known@ {
                r matches Ok(x) && x@ == w
            } else {
                r matches Err(e) && e@ == file_changed()
            },
        },
{
    match workspace_to_save(st, n) {
        Err(e) => Err(e),
        Ok(w) => if same(text, known) {
            Ok(w)
        } else {
            Err("конфиг изменился с последнего чтения; перечитан, повторите команду".to_owned())
        },
    }
}

// ---- The text of the file -----------------------------------------------------------------

/// A table with a text under a key, where there is one.
pub open spec fn with_text(m: Parts, k: Str, o: Option<Str>) -> Parts {
    match o {
        Some(v) => with_sub(m, k, only(Part::Text(v))),
        None => m,
    }
}

/// The section of an application: its command, and the arguments, the directory and the class where it has
/// them.
pub open spec fn app_parts(t: AppTableView) -> Parts {
    let a = with_sub(only(Part::Table), "cmd"@, only(Part::Text(t.cmd)));
    let b = if t.args.len() > 0 {
        with_sub(a, "args"@, only(Part::List(t.args)))
    } else {
        a
    };
    with_text(with_text(b, "cwd"@, t.cwd), "class"@, t.class)
}

/// A rectangle in the file: `{ x = .., y = .., w = .., h = .. }`.
pub open spec fn rect_parts(r: PxRect) -> Parts {
    let a = with_sub(only(Part::Inline), "x"@, only(Part::Number(r.x as i64)));
    let b = with_sub(a, "y"@, only(Part::Number(r.y as i64)));
    let c = with_sub(b, "w"@, only(Part::Number(r.w as i64)));
    with_sub(c, "h"@, only(Part::Number(r.h as i64)))
}

/// What an entry of a workspace says: the name of a cell, or `{ rect = .. }`.
pub open spec fn entry_parts(e: AppItemView) -> Parts {
    match e {
        AppItemView::Cell(c) => only(Part::Text(c)),
        AppItemView::Rect(r) => with_sub(only(Part::Inline), "rect"@, rect_parts(r)),
    }
}

/// The table of the first `n` entries.
pub open spec fn entries_parts(s: Seq<(Str, AppItemView)>, n: int) -> Parts
    decreases n,
{
    if n <= 0 {
        only(Part::Table)
    } else {
        with_sub(entries_parts(s, n - 1), s[n - 1].0, entry_parts(s[n - 1].1))
    }
}

/// The file with the applications from `i` on described.
pub open spec fn with_apps_from(m: Parts, apps: Seq<(Str, AppTableView)>, i: int) -> Result<Parts, Str>
    decreases apps.len() - i,
{
    if i >= apps.len() {
        Ok(m)
    } else {
        match put_at(m, seq!["apps"@], apps[i].0, app_parts(apps[i].1)) {
            Some(w) => with_apps_from(w, apps, i + 1),
            None => Err("[apps] не таблица"@),
        }
    }
}

/// The file with a text under a key of the section of a workspace, where there is one.
pub open spec fn with_key(m: Parts, ws: Str, k: Str, o: Option<Str>) -> Result<Parts, Str> {
    match o {
        None => Ok(m),
        Some(v) => match put_at(m, seq!["workspaces"@, ws], k, only(Part::Text(v))) {
            Some(w) => Ok(w),
            None => Err("workspace не таблица"@),
        },
    }
}

/// The word for the mode of a workspace, where it has to be written.
pub open spec fn mode_word(stack: bool) -> Option<Str> {
    if stack {
        Some("stack"@)
    } else {
        None
    }
}

/// The file with a workspace written into it: first its applications of the session, then its section with the
/// main application and the mode, then the applications of windows, and its entries in place of those it
/// had; or the fault.
pub open spec fn written(m: Parts, p: SavePlanView) -> Result<Parts, Str> {
    match with_apps_from(m, p.session_apps, 0) {
        Err(e) => Err(e),
        Ok(a) => match opened_at(a, seq!["workspaces"@]) {
            None => Err("[workspaces] не таблица"@),
            Some(b) => match opened_at(b, seq!["workspaces"@, p.ws]) {
                None => Err("workspace не таблица"@),
                Some(c) => match with_key(c, p.ws, "main"@, p.main) {
                    Err(e) => Err(e),
                    Ok(d) => match with_key(d, p.ws, "mode"@, mode_word(p.stack)) {
                        Err(e) => Err(e),
                        Ok(f) => match with_apps_from(f, p.window_apps, 0) {
                            Err(e) => Err(e),
                            Ok(g) => match put_at(
                                g,
                                seq!["workspaces"@, p.ws],
                                "apps"@,
                                entries_parts(p.entries, p.entries.len() as int),
                            ) {
                                Some(w) => Ok(w),
                                None => Err("workspace не таблица"@),
                            },
                        },
                    },
                },
            },
        },
    }
}

proof fn lemma_only(p: Part)
    ensures
        is_tree(only(p)),
        within(only(p), 0),
        within(only(p), 1),
        is_part(only(p), p),
{
}

proof fn lemma_text_tree(m: Parts, k: Str, o: Option<Str>)
    requires
        is_tree(m),
        is_part(m, Part::Table),
        within(m, 1),
    ensures
        is_tree(with_text(m, k, o)),
        within(with_text(m, k, o), 1),
        is_part(with_text(m, k, o), Part::Table),
{
    if let Some(v) = o {
        lemma_only(Part::Text(v));
        lemma_sub_tree(m, k, only(Part::Text(v)));
    }
}

proof fn lemma_app_tree(t: AppTableView)
    ensures
        is_tree(app_parts(t)),
        within(app_parts(t), 1),
{
    lemma_only(Part::Table);
    lemma_only(Part::Text(t.cmd));
    lemma_only(Part::List(t.args));
    let a = with_sub(only(Part::Table), "cmd"@, only(Part::Text(t.cmd)));
    lemma_sub_tree(only(Part::Table), "cmd"@, only(Part::Text(t.cmd)));
    lemma_sub_tree(a, "args"@, only(Part::List(t.args)));
    let b = if t.args.len() > 0 {
        with_sub(a, "args"@, only(Part::List(t.args)))
    } else {
        a
    };
    lemma_text_tree(b, "cwd"@, t.cwd);
    lemma_text_tree(with_text(b, "cwd"@, t.cwd), "class"@, t.class);
}

proof fn lemma_rect_tree(r: PxRect)
    ensures
        is_tree(rect_parts(r)),
        within(rect_parts(r), 1),
        is_part(rect_parts(r), Part::Inline),
{
    lemma_only(Part::Inline);
    lemma_only(Part::Number(r.x as i64));
    lemma_only(Part::Number(r.y as i64));
    lemma_only(Part::Number(r.w as i64));
    lemma_only(Part::Number(r.h as i64));
    let a = with_sub(only(Part::Inline), "x"@, only(Part::Number(r.x as i64)));
    let b = with_sub(a, "y"@, only(Part::Number(r.y as i64)));
    let c = with_sub(b, "w"@, only(Part::Number(r.w as i64)));
    lemma_sub_tree(only(Part::Inline), "x"@, only(Part::Number(r.x as i64)));
    lemma_sub_tree(a, "y"@, only(Part::Number(r.y as i64)));
    lemma_sub_tree(b, "w"@, only(Part::Number(r.w as i64)));
    lemma_sub_tree(c, "h"@, only(Part::Number(r.h as i64)));
}

proof fn lemma_entry_tree(e: AppItemView)
    ensures
        is_tree(entry_parts(e)),
        within(entry_parts(e), 2),
{
    match e {
        AppItemView::Cell(c) => lemma_only(Part::Text(c)),
        AppItemView::Rect(r) => {
            lemma_only(Part::Inline);
            lemma_rect_tree(r);
            lemma_sub_tree(only(Part::Inline), "rect"@, rect_parts(r));
        },
    }
}

proof fn lemma_entries_tree(s: Seq<(Str, AppItemView)>, n: int)
    requires
        0 <= n <= s.len(),
    ensures
        is_tree(entries_parts(s, n)),
        within(entries_parts(s, n), 3),
        is_part(entries_parts(s, n), Part::Table),
    decreases n,
{
    lemma_only(Part::Table);
    if n > 0 {
        lemma_entries_tree(s, n - 1);
        lemma_entry_tree(s[n - 1].1);
        lemma_sub_tree(entries_parts(s, n - 1), s[n - 1].0, entry_parts(s[n - 1].1));
    }
}

fn make_app(t: &AppTable) -> (r: toml_edit::Item)
    ensures
        item_parts(r) == app_parts(t@),
        item_fresh(r),
{
    proof {
        lemma_only(Part::Table);
        lemma_only(Part::Text(t@.cmd));
        lemma_only(Part::List(t@.args));
        lemma_sub_tree(only(Part::Table), "cmd"@, only(Part::Text(t@.cmd)));
        lemma_sub_tree(
            with_sub(only(Part::Table), "cmd"@, only(Part::Text(t@.cmd))),
            "args"@,
            only(Part::List(t@.args)),
        );
        assert(t@.args.len() == t.args.len());
    }
    let mut r = table_item();
    set_item(&mut r, "cmd", text_item(t.cmd.as_str()));
    if t.args.len() > 0 {
        set_item(&mut r, "args", list_item(t.args.as_slice()));
    }
    proof {
        lemma_text_tree(item_parts(r), "cwd"@, t@.cwd);
    }
    if let Some(d) = &t.cwd {
        set_item(&mut r, "cwd", text_item(d.as_str()));
    }
    if let Some(c) = &t.class {
        set_item(&mut r, "class", text_item(c.as_str()));
    }
    r
}

fn make_rect(r: &PxRect) -> (t: toml_edit::Item)
    ensures
        item_parts(t) == rect_parts(*r),
        item_fresh(t),
{
    proof {
        lemma_only(Part::Inline);
        lemma_only(Part::Number(r.x as i64));
        lemma_only(Part::Number(r.y as i64));
        lemma_only(Part::Number(r.w as i64));
        lemma_only(Part::Number(r.h as i64));
        let a = with_sub(only(Part::Inline), "x"@, only(Part::Number(r.x as i64)));
        let b = with_sub(a, "y"@, only(Part::Number(r.y as i64)));
        lemma_sub_tree(only(Part::Inline), "x"@, only(Part::Number(r.x as i64)));
        lemma_sub_tree(a, "y"@, only(Part::Number(r.y as i64)));
        lemma_sub_tree(b, "w"@, only(Part::Number(r.w as i64)));
    }
    let mut t = inline_item();
    set_item(&mut t, "x", number_item(r.x as i64));
    set_item(&mut t, "y", number_item(r.y as i64));
    set_item(&mut t, "w", number_item(r.w as i64));
    set_item(&mut t, "h", number_item(r.h as i64));
    t
}

fn make_entry(e: &AppItem) -> (t: toml_edit::Item)
    ensures
        item_parts(t) == entry_parts(e@),
        item_fresh(t),
        is_value(item_parts(t)),
{
    match e {
        AppItem::Cell(c) => text_item(c.as_str()),
        AppItem::Rect(r) => {
            proof {
                lemma_only(Part::Inline);
                lemma_rect_tree(*r);
            }
            let mut t = inline_item();
            set_item(&mut t, "rect", make_rect(r));
            t
        },
    }
}

fn make_entries(entries: &[(String, AppItem)]) -> (t: toml_edit::Item)
    ensures
        item_parts(t) == entries_parts(items_view(entries@), entries.len() as int),
        item_fresh(t),
{
    let ghost s = items_view(entries@);
    let mut t = table_item();
    let mut i: usize = 0;
    while i < entries.len()
        invariant
            i <= entries.len(),
            s == items_view(entries@),
            item_parts(t) == entries_parts(s, i as int),
            item_fresh(t),
        decreases entries.len() - i,
    {
        proof {
            assert(s[i as int] == (entries@[i as int].0@, entries@[i as int].1@));
            lemma_entries_tree(s, i as int);
        }
        set_item(&mut t, entries[i].0.as_str(), make_entry(&entries[i].1));
        i = i + 1;
    }
    t
}

/// The path of the section of a workspace.
pub open spec fn section_path(ws: Str) -> Seq<Str> {
    seq!["workspaces"@, ws]
}

/// The section of a workspace has no dotted keys, or stands among dotted keys itself.
pub open spec fn section_plain(s: Dots, ws: Str) -> bool {
    s.contains_key(section_path(ws)) ==> s.contains_key(seq!["workspaces"@])
}

/// Sections have dotted keys where they had them.
spec fn sections_same(s: Dots, u: Dots) -> bool {
    &&& u.contains_key(seq!["workspaces"@]) == s.contains_key(seq!["workspaces"@])
    &&& forall|ws: Str| #[trigger] u.contains_key(section_path(ws)) == s.contains_key(section_path(ws))
}

/// What stood before a key or a header stands there still.
pub open spec fn note_stays(k: Notes, l: Notes, q: Seq<Str>) -> bool {
    k.contains_key(q) ==> l.contains_key(q) && l[q] == k[q]
}

/// No application of the list has its section on the way to the path.
spec fn apps_apart(apps: Seq<(Str, AppTableView)>, q: Seq<Str>) -> bool {
    forall|name: Str| #[trigger] last_named(apps, name, 0) >= 0 ==> !below(q, app_path(name))
}

/// What becomes of the notes where a key of the section of a workspace is written.
spec fn key_notes(m: Parts, k: Notes, l: Notes, base: Seq<Str>, o: Option<Str>) -> bool {
    &&& o is Some ==> notes_beside(k, l, base)
    &&& o is None || !table_at(m, base) ==> notes_stay(k, l)
}

proof fn lemma_sections_same(s: Dots, base: Seq<Str>)
    requires
        base.len() > 2 || (base.len() == 2 && base[0] == "apps"@),
    ensures
        sections_same(s, without(s, base)),
{
    lemma_words_differ();
    assert forall|ws: Str| !#[trigger] below(section_path(ws), base) by {
        if base.len() == 2 {
            assert(section_path(ws).take(2)[0] == "workspaces"@);
        }
    }
    let u = without(s, base);
    assert forall|ws: Str| #[trigger] u.contains_key(section_path(ws)) == s.contains_key(section_path(ws)) by {
        assert(!below(section_path(ws), base));
    }
    assert(!below(seq!["workspaces"@], base));
}

proof fn lemma_section_placed(s: Dots, ws: Str)
    requires
        section_plain(s, ws),
    ensures
        placed(s, section_path(ws), 1),
{
    assert forall|q: Seq<Str>| below(section_path(ws), q) && q.len() > 1 && #[trigger] s.contains_key(q) implies s.contains_key(
        q.drop_last(),
    ) by {
        assert(section_path(ws).take(2) =~= section_path(ws));
        assert(q == section_path(ws));
        assert(q.drop_last() =~= seq!["workspaces"@]);
    }
}

proof fn lemma_last_found(apps: Seq<(Str, AppTableView)>, i: int, j: int)
    requires
        0 <= i <= j < apps.len(),
    ensures
        last_named(apps, apps[j].0, i) >= 0,
    decreases apps.len() - i,
{
    if i < j {
        lemma_last_found(apps, i + 1, j);
    }
}

fn write_apps(d: &mut toml_edit::DocumentMut, apps: &[(String, AppTable)]) -> (r: Result<(), String>)
    requires
        is_tree(document_parts(*old(d))),
    ensures
        match with_apps_from(document_parts(*old(d)), tables_view(apps@), 0) {
            Ok(w) => r is Ok && document_parts(*final(d)) == w && is_tree(w),
            Err(e) => r matches Err(x) && x@ == e,
        },
        r is Ok ==> sections_same(document_dots(*old(d)), document_dots(*final(d))),
        r is Ok ==> forall|q: Seq<Str>|
            apps_apart(tables_view(apps@), q) ==> #[trigger] note_stays(
                document_notes(*old(d)),
                document_notes(*final(d)),
                q,
            ),
        r is Ok && document_kept(*old(d)) ==> document_kept(*final(d)),
{
    let ghost a = tables_view(apps@);
    let ghost first = document_parts(*d);
    let ghost notes = document_notes(*d);
    let ghost dots = document_dots(*d);
    let mut path: Vec<String> = Vec::new();
    path.push("apps".to_owned());
    proof {
        assert(views(path@) =~= seq!["apps"@]);
    }
    let mut i: usize = 0;
    while i < apps.len()
        invariant
            i <= apps.len(),
            a == tables_view(apps@),
            first == document_parts(*old(d)),
            notes == document_notes(*old(d)),
            dots == document_dots(*old(d)),
            views(path@) == seq!["apps"@],
            is_tree(document_parts(*d)),
            with_apps_from(first, a, 0) == with_apps_from(document_parts(*d), a, i as int),
            sections_same(dots, document_dots(*d)),
            forall|q: Seq<Str>| apps_apart(a, q) ==> #[trigger] note_stays(notes, document_notes(*d), q),
            document_kept(*old(d)) ==> document_kept(*d),
        decreases apps.len() - i,
    {
        let ghost m = document_parts(*d);
        let ghost k = document_notes(*d);
        let ghost s = document_dots(*d);
        let ghost own = apps@[i as int].0@;
        proof {
            assert(a[i as int] == (own, apps@[i as int].1@));
            lemma_app_tree(a[i as int].1);
        }
        let v = make_app(&apps[i].1);
        if !put_in(d, path.as_slice(), apps[i].0.as_str(), v, false) {
            return Err("[apps] не таблица".to_owned());
        }
        proof {
            lemma_step(m, seq!["apps"@], own, app_parts(a[i as int].1), own);
            assert(seq!["apps"@].push(own) =~= app_path(own));
            lemma_sections_same(s, app_path(own));
            lemma_last_found(a, 0, i as int);
            assert forall|q: Seq<Str>| apps_apart(a, q) implies #[trigger] note_stays(notes, document_notes(*d), q) by {
                assert(note_stays(notes, k, q));
                assert(!below(q, app_path(own)));
            }
        }
        i = i + 1;
    }
    Ok(())
}

fn write_key(d: &mut toml_edit::DocumentMut, ws: &str, key: &str, value: Option<&str>) -> (r: Result<(), String>)
    requires
        is_tree(document_parts(*old(d))),
    ensures
        match with_key(document_parts(*old(d)), ws@, key@, oview(value)) {
            Ok(w) => r is Ok && document_parts(*final(d)) == w && is_tree(w),
            Err(e) => r matches Err(x) && x@ == e,
        },
        r is Ok ==> sections_same(document_dots(*old(d)), document_dots(*final(d))),
        r is Ok ==> key_notes(
            document_parts(*old(d)),
            document_notes(*old(d)),
            document_notes(*final(d)),
            key_path(ws@, key@),
            oview(value),
        ),
        r is Ok && document_kept(*old(d)) && section_plain(document_dots(*old(d)), ws@) ==> document_kept(*final(d)),
{
    let v = match value {
        Some(v) => v,
        None => return Ok(()),
    };
    let ghost m = document_parts(*d);
    let ghost s = document_dots(*d);
    let mut path: Vec<String> = Vec::new();
    path.push("workspaces".to_owned());
    path.push(ws.to_owned());
    proof {
        assert(views(path@) =~= section_path(ws@));
        assert(section_path(ws@).push(key@) =~= key_path(ws@, key@));
        lemma_only(Part::Text(v@));
        lemma_sections_same(s, key_path(ws@, key@));
        if section_plain(s, ws@) {
            lemma_section_placed(s, ws@);
        }
    }
    if put_in(d, path.as_slice(), key, text_item(v), true) {
        proof {
            lemma_step(m, section_path(ws@), key@, only(Part::Text(v@)), ws@);
        }
        Ok(())
    } else {
        Err("workspace не таблица".to_owned())
    }
}

/// What stands before the keys and headers that the plan does not write, and before the main application and the
/// mode of the workspace.
pub open spec fn notes_left(m: Parts, k: Notes, p: SavePlanView) -> Notes {
    Map::new(
        |q: Seq<Str>|
            k.contains_key(q) && (!touched(p, q) || (!table_at(m, q) && (q == key_path(p.ws, "main"@) || q == key_path(
                p.ws,
                "mode"@,
            )))),
        |q: Seq<Str>| k[q],
    )
}

proof fn lemma_keys_held(m: Parts, p: SavePlanView)
    requires
        is_tree(m),
        written(m, p) is Ok,
    ensures
        ({
            let a = with_apps_from(m, p.session_apps, 0)->Ok_0;
            let b = opened_at(a, seq!["workspaces"@])->Some_0;
            let c = opened_at(b, section_path(p.ws))->Some_0;
            let d = with_key(c, p.ws, "main"@, p.main)->Ok_0;
            &&& table_at(c, key_path(p.ws, "main"@)) ==> table_at(m, key_path(p.ws, "main"@))
            &&& table_at(d, key_path(p.ws, "mode"@)) ==> table_at(m, key_path(p.ws, "mode"@))
        }),
{
    let ws = p.ws;
    let a = with_apps_from(m, p.session_apps, 0)->Ok_0;
    let b = opened_at(a, seq!["workspaces"@])->Some_0;
    let c = opened_at(b, section_path(ws))->Some_0;
    let d = with_key(c, ws, "main"@, p.main)->Ok_0;
    lemma_words_differ();
    lemma_apps_written(m, p.session_apps, 0, ws);
    lemma_open_step(a, seq!["workspaces"@], ws);
    lemma_open_step(b, section_path(ws), ws);
    lemma_key_step(c, ws, "main"@, p.main);
    assert forall|q: Seq<Str>|
        (q == key_path(ws, "main"@) || q == key_path(ws, "mode"@)) && #[trigger] table_at(c, q) implies table_at(m, q) by {
        assert(q.take(3) =~= q);
        lemma_key_apart(ws, q[2], q);
        assert(kept(m, a, ws, q) && kept(a, b, ws, q) && kept(b, c, ws, q));
    }
    let km = key_path(ws, "main"@);
    let ko = key_path(ws, "mode"@);
    assert(ko.take(3) =~= ko);
    lemma_key_apart(ws, "mode"@, ko);
    assert(kept(c, d, ws, ko));
    assert(table_at(c, km) ==> table_at(m, km));
    assert(table_at(d, ko) ==> table_at(c, ko));
}

fn write_plan(d: &mut toml_edit::DocumentMut, p: &SavePlan) -> (r: Result<(), String>)
    requires
        is_tree(document_parts(*old(d))),
    ensures
        match written(document_parts(*old(d)), p@) {
            Ok(w) => r is Ok && document_parts(*final(d)) == w && is_part(w, Part::Table) == is_part(
                document_parts(*old(d)),
                Part::Table,
            ),
            Err(e) => r matches Err(x) && x@ == e,
        },
        r is Ok ==> notes_stay(
            notes_left(document_parts(*old(d)), document_notes(*old(d)), p@),
            document_notes(*final(d)),
        ),
        r is Ok && document_kept(*old(d)) && section_plain(document_dots(*old(d)), p.ws@) ==> document_kept(*final(d)),
{
    let ghost m = document_parts(*d);
    let ghost k = document_notes(*d);
    let mut root: Vec<String> = Vec::new();
    root.push("workspaces".to_owned());
    let mut path: Vec<String> = Vec::new();
    path.push("workspaces".to_owned());
    path.push(p.ws.clone());
    proof {
        assert(views(root@) =~= seq!["workspaces"@]);
        assert(views(path@) =~= section_path(p.ws@));
        lemma_words_differ();
    }
    if let Err(e) = write_apps(d, p.session_apps.as_slice()) {
        return Err(e);
    }
    let ghost a = document_parts(*d);
    let ghost na = document_notes(*d);
    if !open_in(d, root.as_slice()) {
        return Err("[workspaces] не таблица".to_owned());
    }
    let ghost b = document_parts(*d);
    proof {
        lemma_open_step(a, seq!["workspaces"@], p.ws@);
        if section_plain(document_dots(*d), p.ws@) {
            lemma_section_placed(document_dots(*d), p.ws@);
        }
    }
    if !open_in(d, path.as_slice()) {
        return Err("workspace не таблица".to_owned());
    }
    proof {
        lemma_open_step(b, section_path(p.ws@), p.ws@);
    }
    if let Err(e) = write_key(d, p.ws.as_str(), "main", opt_str(&p.main)) {
        return Err(e);
    }
    let mode = if p.stack {
        Some("stack")
    } else {
        None
    };
    if let Err(e) = write_key(d, p.ws.as_str(), "mode", mode) {
        return Err(e);
    }
    let ghost nf = document_notes(*d);
    if let Err(e) = write_apps(d, p.window_apps.as_slice()) {
        return Err(e);
    }
    let ghost ng = document_notes(*d);
    let v = make_entries(p.entries.as_slice());
    proof {
        lemma_entries_tree(p@.entries, p@.entries.len() as int);
        if section_plain(document_dots(*d), p.ws@) {
            lemma_section_placed(document_dots(*d), p.ws@);
        }
    }
    if !put_in(d, path.as_slice(), "apps", v, false) {
        return Err("workspace не таблица".to_owned());
    }
    proof {
        assert(section_path(p.ws@).push("apps"@) =~= key_path(p.ws@, "apps"@));
        lemma_keys_held(m, p@);
        law_saved_reads_back(m, p@);
        assert(kept(m, document_parts(*d), p.ws@, Seq::empty()));
        let left = notes_left(m, k, p@);
        assert forall|q: Seq<Str>| #[trigger] left.contains_key(q) implies document_notes(*d).contains_key(q)
            && document_notes(*d)[q] == left[q] by {
            lemma_note_left(m, k, p@, q);
            assert(note_stays(k, na, q));
            assert(note_stays(nf, ng, q));
        }
    }
    Ok(())
}

/// Write a workspace into the text of a configuration file: the text is that of the file with the workspace
/// written into it, and what stands before the keys and headers that are not written, comments among it,
/// stays, before the main application and the mode too. The text reads so, but where the section is written with
/// dotted keys under the header `[workspaces]`: `toml_edit` may then place a new header before them, and such
/// a text does not read.
pub fn save_workspace(text: &str, p: &SavePlan) -> (r: Result<String, String>)
    ensures
        match toml_read(text@) {
            Err(e) => r matches Err(x) && x@ == "разбор конфига для записи: "@ + e,
            Ok((m, k, s)) => match written(m, p@) {
                Err(e) => r matches Err(x) && x@ == e,
                Ok(w) => {
                    &&& r matches Ok(t) && prints_as(t@, w, notes_left(m, k, p@))
                    &&& section_plain(s, p.ws@) ==> reads_as(r->Ok_0@, w, notes_left(m, k, p@))
                },
            },
        },
        r is Ok ==> (toml_read(text@) matches Ok((m, _, _)) && is_tree(m)),
{
    let mut d = match read_document(text) {
        Ok(d) => d,
        Err(e) => {
            let mut s = "разбор конфига для записи: ".to_owned();
            s.append(e.as_str());
            return Err(s);
        },
    };
    match write_plan(&mut d, p) {
        Err(e) => Err(e),
        Ok(_) => Ok(print_document(&d)),
    }
}

proof fn lemma_note_left(m: Parts, k: Notes, p: SavePlanView, q: Seq<Str>)
    requires
        notes_left(m, k, p).contains_key(q),
    ensures
        apps_apart(p.session_apps, q),
        apps_apart(p.window_apps, q),
        !below(q, key_path(p.ws, "apps"@)),
        p.main is Some && below(q, key_path(p.ws, "main"@)) ==> q == key_path(p.ws, "main"@) && !table_at(m, q),
        p.stack && below(q, key_path(p.ws, "mode"@)) ==> q == key_path(p.ws, "mode"@) && !table_at(m, q),
{
    lemma_words_differ();
    if touched(p, q) {
        assert(q.take(3) =~= q);
        lemma_key_apart(p.ws, q[2], q);
    } else {
        assert forall|name: Str| #[trigger] last_named(p.session_apps, name, 0) >= 0 implies !below(q, app_path(name)) by {
            assert(described(p, name) is Some);
        }
        assert forall|name: Str| #[trigger] last_named(p.window_apps, name, 0) >= 0 implies !below(q, app_path(name)) by {
            assert(described(p, name) is Some);
        }
    }
}

/// What stood at a path stays there, and what came there is a table along the path to a section that was
/// written.
pub open spec fn kept(m: Parts, w: Parts, ws: Str, q: Seq<Str>) -> bool {
    &&& m.contains_key(q) ==> w.contains_key(q) && w[q] == m[q]
    &&& w.contains_key(q) && !m.contains_key(q) ==> w[q] == Part::Table && (below(seq!["apps"@], q) || below(
        seq!["workspaces"@, ws],
        q,
    ))
}

/// What stands from a path on is this.
pub open spec fn stands(w: Parts, base: Seq<Str>, v: Parts) -> bool {
    forall|q: Seq<Str>|
        below(q, base) ==> #[trigger] w.contains_key(q) == v.contains_key(q.skip(base.len() as int)) && (w.contains_key(q)
            ==> w[q] == v[q.skip(base.len() as int)])
}

proof fn lemma_step(m: Parts, path: Seq<Str>, key: Str, v: Parts, ws: Str)
    requires
        is_tree(m),
        is_tree(v),
        put_at(m, path, key, v) is Some,
        path == seq!["apps"@] || path == seq!["workspaces"@, ws],
    ensures
        ({
            let w = put_at(m, path, key, v)->Some_0;
            &&& is_tree(w)
            &&& stands(w, path.push(key), v)
            &&& forall|q: Seq<Str>| !below(q, path.push(key)) ==> #[trigger] kept(m, w, ws, q)
        }),
{
    let base = path.push(key);
    lemma_put(m, path, key, v);
    assert(base.drop_last() =~= path);
    lemma_grafted_tree(m, base, v);
    let w = grafted(m, base, v);
    assert forall|q: Seq<Str>| !below(q, base) implies #[trigger] kept(m, w, ws, q) by {
        if below(base, q) {
            if q.len() == base.len() {
                assert(base.take(q.len() as int) =~= base);
                assert(q.take(base.len() as int) =~= q);
                assert(below(q, base));
            }
            assert(path.take(q.len() as int) =~= base.take(q.len() as int));
            assert(below(path, q));
        }
    }
}

/// The number of the last application from `i` on that has a name; negative where there is none.
pub open spec fn last_named(apps: Seq<(Str, AppTableView)>, name: Str, i: int) -> int
    decreases apps.len() - i,
{
    if i >= apps.len() {
        -1
    } else {
        let k = last_named(apps, name, i + 1);
        if k < 0 && apps[i].0 == name {
            i
        } else {
            k
        }
    }
}

/// The path of the section of an application.
pub open spec fn app_path(name: Str) -> Seq<Str> {
    seq!["apps"@, name]
}

proof fn lemma_other_app(q: Seq<Str>, a: Str, b: Str)
    requires
        below(q, app_path(a)),
        a != b,
    ensures
        !below(q, app_path(b)),
{
    assert(q.take(2)[1] == a);
    if below(q, app_path(b)) {
        assert(q.take(2)[1] == b);
    }
}

proof fn lemma_apps_written(m: Parts, apps: Seq<(Str, AppTableView)>, i: int, ws: Str)
    requires
        is_tree(m),
        0 <= i <= apps.len(),
        with_apps_from(m, apps, i) is Ok,
    ensures
        ({
            let w = with_apps_from(m, apps, i)->Ok_0;
            &&& is_tree(w)
            &&& forall|name: Str| #[trigger] last_named(apps, name, i) >= 0 ==> last_named(apps, name, i) < apps.len() && stands(
                w,
                app_path(name),
                app_parts(apps[last_named(apps, name, i)].1),
            )
            &&& forall|q: Seq<Str>|
                (forall|name: Str| #[trigger] last_named(apps, name, i) >= 0 ==> !below(q, app_path(name))) ==> #[trigger] kept(
                    m,
                    w,
                    ws,
                    q,
                )
        }),
    decreases apps.len() - i,
{
    if i < apps.len() {
        let (own, t) = apps[i];
        let path = seq!["apps"@];
        lemma_app_tree(t);
        lemma_step(m, path, own, app_parts(t), ws);
        assert(path.push(own) =~= app_path(own));
        let a = put_at(m, path, own, app_parts(t))->Some_0;
        lemma_apps_written(a, apps, i + 1, ws);
        let w = with_apps_from(m, apps, i)->Ok_0;
        assert forall|name: Str| #[trigger] last_named(apps, name, i) >= 0 implies last_named(apps, name, i) < apps.len()
            && stands(w, app_path(name), app_parts(apps[last_named(apps, name, i)].1)) by {
            if last_named(apps, name, i + 1) < 0 {
                assert(name == own);
                assert forall|q: Seq<Str>| below(q, app_path(own)) implies #[trigger] w.contains_key(q) == app_parts(
                    t,
                ).contains_key(q.skip(2)) && (w.contains_key(q) ==> w[q] == app_parts(t)[q.skip(2)]) by {
                    assert forall|x: Str| #[trigger] last_named(apps, x, i + 1) >= 0 implies !below(q, app_path(x)) by {
                        lemma_other_app(q, own, x);
                    }
                    assert(kept(a, w, ws, q));
                    assert(a.contains_key(q) == app_parts(t).contains_key(q.skip(2)));
                    if below(seq!["apps"@], q) {
                        assert(q.len() <= 1);
                    }
                    if below(seq!["workspaces"@, ws], q) {
                        assert(q.take(2)[0] == "apps"@);
                        assert(seq!["workspaces"@, ws].take(q.len() as int)[0] == q[0]);
                        lemma_words_differ();
                    }
                }
            }
        }
        assert forall|q: Seq<Str>|
            (forall|name: Str| #[trigger] last_named(apps, name, i) >= 0 ==> !below(q, app_path(name))) implies #[trigger] kept(
            m,
            w,
            ws,
            q,
        ) by {
            assert(last_named(apps, own, i) >= 0) by {
                lemma_last_bound(apps, own, i + 1);
            }
            assert(!below(q, app_path(own)));
            assert forall|x: Str| #[trigger] last_named(apps, x, i + 1) >= 0 implies !below(q, app_path(x)) by {
                assert(last_named(apps, x, i) >= 0);
            }
            assert(kept(a, w, ws, q));
            assert(kept(m, a, ws, q));
        }
    }
}

proof fn lemma_last_bound(apps: Seq<(Str, AppTableView)>, name: Str, i: int)
    requires
        0 <= i <= apps.len(),
    ensures
        -1 <= last_named(apps, name, i) < apps.len(),
    decreases apps.len() - i,
{
    if i < apps.len() {
        lemma_last_bound(apps, name, i + 1);
    }
}

proof fn lemma_words_differ()
    ensures
        "apps"@ != "workspaces"@,
        "main"@ != "mode"@,
        "main"@ != "apps"@,
        "mode"@ != "apps"@,
{
    reveal_strlit("apps");
    reveal_strlit("workspaces");
    reveal_strlit("main");
    reveal_strlit("mode");
    assert("apps"@.len() == 4 && "workspaces"@.len() == 10);
    assert("main"@[1] == 'a' && "mode"@[1] == 'o' && "apps"@[0] == 'a' && "main"@[0] == 'm' && "mode"@[0] == 'm');
}

/// The path of a key in the section of a workspace.
pub open spec fn key_path(ws: Str, k: Str) -> Seq<Str> {
    seq!["workspaces"@, ws, k]
}

/// What the plan says of an application; a window has the last word.
pub open spec fn described(p: SavePlanView, name: Str) -> Option<AppTableView> {
    let k = last_named(p.window_apps, name, 0);
    let j = last_named(p.session_apps, name, 0);
    if k >= 0 {
        Some(p.window_apps[k].1)
    } else if j >= 0 {
        Some(p.session_apps[j].1)
    } else {
        None
    }
}

/// The plan writes at the path.
pub open spec fn touched(p: SavePlanView, q: Seq<Str>) -> bool {
    ||| p.main is Some && below(q, key_path(p.ws, "main"@))
    ||| p.stack && below(q, key_path(p.ws, "mode"@))
    ||| below(q, key_path(p.ws, "apps"@))
    ||| exists|name: Str| #[trigger] described(p, name) is Some && below(q, app_path(name))
}

proof fn lemma_stays(a: Parts, w: Parts, ws: Str, base: Seq<Str>, v: Parts)
    requires
        stands(a, base, v),
        (base.len() == 2 && base[0] == "apps"@) || base.len() > 2,
        forall|q: Seq<Str>| below(q, base) ==> #[trigger] kept(a, w, ws, q),
    ensures
        stands(w, base, v),
{
    let n = base.len() as int;
    assert forall|q: Seq<Str>| below(q, base) implies #[trigger] w.contains_key(q) == v.contains_key(q.skip(n)) && (
    w.contains_key(q) ==> w[q] == v[q.skip(n)]) by {
        assert(kept(a, w, ws, q));
        assert(a.contains_key(q) == v.contains_key(q.skip(n)));
        if below(seq!["workspaces"@, ws], q) {
            assert(q.take(n)[0] == base[0]);
            assert(seq!["workspaces"@, ws].take(q.len() as int)[0] == q[0]);
            lemma_words_differ();
        }
    }
}

proof fn lemma_open_step(m: Parts, path: Seq<Str>, ws: Str)
    requires
        is_tree(m),
        opened_at(m, path) is Some,
        path == seq!["workspaces"@] || path == seq!["workspaces"@, ws],
    ensures
        is_tree(opened_at(m, path)->Some_0),
        forall|q: Seq<Str>| #[trigger] kept(m, opened_at(m, path)->Some_0, ws, q),
{
    lemma_opened(m, path);
    lemma_tables_tree(m, path);
    let w = with_tables(m, path);
    assert forall|q: Seq<Str>| #[trigger] kept(m, w, ws, q) by {
        if below(path, q) {
            assert(path.take(q.len() as int) =~= seq!["workspaces"@, ws].take(q.len() as int));
        }
    }
}

proof fn lemma_key_step(m: Parts, ws: Str, k: Str, o: Option<Str>)
    requires
        is_tree(m),
        with_key(m, ws, k, o) is Ok,
    ensures
        ({
            let w = with_key(m, ws, k, o)->Ok_0;
            &&& is_tree(w)
            &&& o matches Some(v) ==> stands(w, key_path(ws, k), only(Part::Text(v)))
            &&& forall|q: Seq<Str>| o is None || !below(q, key_path(ws, k)) ==> #[trigger] kept(m, w, ws, q)
        }),
{
    if let Some(v) = o {
        lemma_only(Part::Text(v));
        lemma_step(m, seq!["workspaces"@, ws], k, only(Part::Text(v)), ws);
        assert(seq!["workspaces"@, ws].push(k) =~= key_path(ws, k));
    }
}

proof fn lemma_key_apart(ws: Str, a: Str, q: Seq<Str>)
    requires
        below(q, key_path(ws, a)),
    ensures
        forall|b: Str| b != a ==> !#[trigger] below(q, key_path(ws, b)),
        forall|name: Str| !#[trigger] below(q, app_path(name)),
{
    assert(q.take(3)[2] == a && q.take(3)[0] == "workspaces"@);
    assert forall|b: Str| b != a implies !#[trigger] below(q, key_path(ws, b)) by {
        if below(q, key_path(ws, b)) {
            assert(q.take(3)[2] == b);
        }
    }
    assert forall|name: Str| !#[trigger] below(q, app_path(name)) by {
        if below(q, app_path(name)) {
            assert(q.take(2)[0] == "apps"@);
            lemma_words_differ();
        }
    }
}

proof fn lemma_app_apart(name: Str, q: Seq<Str>)
    requires
        below(q, app_path(name)),
    ensures
        forall|ws: Str, b: Str| !#[trigger] below(q, key_path(ws, b)),
{
    assert(q.take(2)[0] == "apps"@);
    lemma_words_differ();
    assert forall|ws: Str, b: Str| !#[trigger] below(q, key_path(ws, b)) by {
        if below(q, key_path(ws, b)) {
            assert(q.take(3)[0] == "workspaces"@);
        }
    }
}

/// A file with a workspace written into it reads back as the plan: the section of the workspace has the entries
/// of the plan and no other, its main application and its mode, and each application of the plan is
/// described. All else in the file says what it said.
#[verifier::rlimit(60)]
pub proof fn law_saved_reads_back(m: Parts, p: SavePlanView)
    requires
        is_tree(m),
        written(m, p) is Ok,
    ensures
        ({
            let w = written(m, p)->Ok_0;
            &&& stands(w, key_path(p.ws, "apps"@), entries_parts(p.entries, p.entries.len() as int))
            &&& p.main matches Some(v) ==> stands(w, key_path(p.ws, "main"@), only(Part::Text(v)))
            &&& p.stack ==> stands(w, key_path(p.ws, "mode"@), only(Part::Text("stack"@)))
            &&& forall|name: Str| #[trigger] described(p, name) matches Some(t) ==> stands(w, app_path(name), app_parts(t))
            &&& forall|q: Seq<Str>| !touched(p, q) ==> #[trigger] kept(m, w, p.ws, q)
        }),
{
    let ws = p.ws;
    let n = p.entries.len() as int;
    let path = seq!["workspaces"@, ws];
    let w = written(m, p)->Ok_0;
    let (km, ko, ka) = (key_path(ws, "main"@), key_path(ws, "mode"@), key_path(ws, "apps"@));
    lemma_words_differ();
    let a = with_apps_from(m, p.session_apps, 0)->Ok_0;
    lemma_apps_written(m, p.session_apps, 0, ws);
    let b = opened_at(a, seq!["workspaces"@])->Some_0;
    lemma_open_step(a, seq!["workspaces"@], ws);
    let c = opened_at(b, path)->Some_0;
    lemma_open_step(b, path, ws);
    let d = with_key(c, ws, "main"@, p.main)->Ok_0;
    lemma_key_step(c, ws, "main"@, p.main);
    let f = with_key(d, ws, "mode"@, mode_word(p.stack))->Ok_0;
    lemma_key_step(d, ws, "mode"@, mode_word(p.stack));
    let g = with_apps_from(f, p.window_apps, 0)->Ok_0;
    lemma_apps_written(f, p.window_apps, 0, ws);
    let e = entries_parts(p.entries, n);
    lemma_entries_tree(p.entries, n);
    lemma_step(g, path, "apps"@, e, ws);
    assert(path.push("apps"@) =~= ka);
    if let Some(v) = p.main {
        let t = only(Part::Text(v));
        assert forall|q: Seq<Str>| below(q, km) implies #[trigger] kept(d, f, ws, q) by {
            lemma_key_apart(ws, "main"@, q);
        }
        lemma_stays(d, f, ws, km, t);
        assert forall|q: Seq<Str>| below(q, km) implies #[trigger] kept(f, g, ws, q) by {
            lemma_key_apart(ws, "main"@, q);
        }
        lemma_stays(f, g, ws, km, t);
        assert forall|q: Seq<Str>| below(q, km) implies #[trigger] kept(g, w, ws, q) by {
            lemma_key_apart(ws, "main"@, q);
        }
        lemma_stays(g, w, ws, km, t);
    }
    if p.stack {
        let t = only(Part::Text("stack"@));
        assert forall|q: Seq<Str>| below(q, ko) implies #[trigger] kept(f, g, ws, q) by {
            lemma_key_apart(ws, "mode"@, q);
        }
        lemma_stays(f, g, ws, ko, t);
        assert forall|q: Seq<Str>| below(q, ko) implies #[trigger] kept(g, w, ws, q) by {
            lemma_key_apart(ws, "mode"@, q);
        }
        lemma_stays(g, w, ws, ko, t);
    }
    assert forall|name: Str| #[trigger] described(p, name) is Some implies stands(
        w,
        app_path(name),
        app_parts(described(p, name)->Some_0),
    ) by {
        let t = app_parts(described(p, name)->Some_0);
        let base = app_path(name);
        if last_named(p.window_apps, name, 0) < 0 {
            assert forall|q: Seq<Str>| below(q, base) implies #[trigger] kept(a, b, ws, q) by {}
            lemma_stays(a, b, ws, base, t);
            lemma_stays(b, c, ws, base, t);
            assert forall|q: Seq<Str>| below(q, base) implies #[trigger] kept(c, d, ws, q) by {
                lemma_app_apart(name, q);
            }
            lemma_stays(c, d, ws, base, t);
            assert forall|q: Seq<Str>| below(q, base) implies #[trigger] kept(d, f, ws, q) by {
                lemma_app_apart(name, q);
            }
            lemma_stays(d, f, ws, base, t);
            assert forall|q: Seq<Str>| below(q, base) implies #[trigger] kept(f, g, ws, q) by {
                assert forall|x: Str| #[trigger] last_named(p.window_apps, x, 0) >= 0 implies !below(q, app_path(x)) by {
                    lemma_other_app(q, name, x);
                }
            }
            lemma_stays(f, g, ws, base, t);
        }
        assert forall|q: Seq<Str>| below(q, base) implies #[trigger] kept(g, w, ws, q) by {
            lemma_app_apart(name, q);
        }
        lemma_stays(g, w, ws, base, t);
    }
    assert forall|q: Seq<Str>| !touched(p, q) implies #[trigger] kept(m, w, ws, q) by {
        assert forall|x: Str| #[trigger] last_named(p.session_apps, x, 0) >= 0 implies !below(q, app_path(x)) by {
            assert(described(p, x) is Some);
        }
        assert forall|x: Str| #[trigger] last_named(p.window_apps, x, 0) >= 0 implies !below(q, app_path(x)) by {
            assert(described(p, x) is Some);
        }
        assert(kept(m, a, ws, q) && kept(a, b, ws, q) && kept(b, c, ws, q));
        assert(kept(c, d, ws, q) && kept(d, f, ws, q) && kept(f, g, ws, q) && kept(g, w, ws, q));
    }
}

} // verus!
