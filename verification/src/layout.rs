//! Layouts of workspaces: places that applications exchange, changed places, arranging by command.
use vstd::prelude::*;

use crate::area::{center_rect, centered};
use crate::config::{same_section, Config, ConfigView};
use crate::home::entry_names_of;
use crate::hypr::{app_of, derefs, Client};
use crate::rect::PxRect;
use crate::state::{own_rect, Moved, MovedView, Place, PlaceView, State, StateView};
use crate::table::{
    lemma_del_get, lemma_del_put, lemma_del_sorted, lemma_find, lemma_find_at, lemma_put_get, lemma_put_sorted, nest_at,
    nest_del, nest_get, nest_put, tab_del, tab_find, tab_get, tab_has, tab_keys, tab_masked, tab_pruned, tab_put,
    tab_sorted, Dup, Table,
};
use crate::text::{add_names, ascending, names_with, opt_is, oview, same, views, Str};
use crate::windows::{entry_of, first_of, first_or_hidden, placed, placed_windows, ws_app_of};

verus! {

broadcast use {crate::text::group_views, crate::hypr::group_derefs};

// ---- A configuration that was read again --------------------------------------

/// An ascending list with the names of a table put in.
pub open spec fn names_and<T>(acc: Seq<Str>, t: Seq<(Str, T)>) -> Seq<Str> {
    names_with(acc, tab_keys(t), tab_keys(t).len() as int)
}

fn put_names<V: View>(acc: &mut Vec<String>, t: &Table<V>)
    requires
        ascending(views(old(acc)@)),
    ensures
        views(final(acc)@) == names_and(views(old(acc)@), t@),
        ascending(views(final(acc)@)),
{
    let keys = t.keys();
    add_names(acc, keys.as_slice());
}

/// The workspaces that either configuration or a layout names, in ascending order.
pub open spec fn layout_names(old_cfg: ConfigView, new_cfg: ConfigView, st: StateView) -> Seq<Str> {
    names_and(
        names_and(
            names_and(
                names_and(names_and(names_and(Seq::empty(), old_cfg.workspaces), new_cfg.workspaces), st.cells),
                st.moved,
            ),
            st.main,
        ),
        st.geom,
    )
}

/// The section of a workspace is in both configurations and says the same.
pub open spec fn unchanged(old_cfg: ConfigView, new_cfg: ConfigView, ws: Str) -> bool {
    match (tab_get(old_cfg.workspaces, ws), tab_get(new_cfg.workspaces, ws)) {
        (Some(a), Some(b)) => same_section(a, b),
        _ => false,
    }
}

impl StateView {
    /// The state without the layout of a workspace.
    pub open spec fn without_layout(self, ws: Str) -> StateView {
        StateView {
            cells: tab_del(self.cells, ws),
            moved: tab_del(self.moved, ws),
            main: tab_del(self.main, ws),
            geom: tab_del(self.geom, ws),
            ..self
        }
    }

    /// The state without the layouts of those workspaces from `i` on that changed, and those of them that
    /// the new configuration has, after `acc`.
    pub open spec fn kept_from(
        self,
        old_cfg: ConfigView,
        new_cfg: ConfigView,
        names: Seq<Str>,
        i: int,
        acc: Seq<Str>,
    ) -> (StateView, Seq<Str>)
        decreases names.len() - i,
    {
        if i >= names.len() {
            (self, acc)
        } else if unchanged(old_cfg, new_cfg, names[i]) {
            self.kept_from(old_cfg, new_cfg, names, i + 1, acc)
        } else {
            self.without_layout(names[i]).kept_from(
                old_cfg,
                new_cfg,
                names,
                i + 1,
                if tab_has(new_cfg.workspaces, names[i]) {
                    acc.push(names[i])
                } else {
                    acc
                },
            )
        }
    }
}

/// Forget the layouts of workspaces whose section changed or is gone; those of the others stay. Gives
/// the changed workspaces that the new configuration has.
pub fn keep_layout(old_cfg: &Config, new_cfg: &Config, st: &mut State) -> (r: Vec<String>)
    ensures
        old(st)@.kept_from(old_cfg@, new_cfg@, layout_names(old_cfg@, new_cfg@, old(st)@), 0, Seq::empty()) == (
            final(st)@,
            views(r@),
        ),
{
    let mut names: Vec<String> = Vec::new();
    put_names(&mut names, &old_cfg.workspaces);
    put_names(&mut names, &new_cfg.workspaces);
    put_names(&mut names, &st.cells);
    put_names(&mut names, &st.moved);
    put_names(&mut names, &st.main);
    put_names(&mut names, &st.geom);
    let ghost s = views(names@);
    let mut out: Vec<String> = Vec::new();
    let mut i: usize = 0;
    while i < names.len()
        invariant
            i <= names.len(),
            s == views(names@),
            old(st)@.kept_from(old_cfg@, new_cfg@, s, 0, Seq::empty()) == st@.kept_from(
                old_cfg@,
                new_cfg@,
                s,
                i as int,
                views(out@),
            ),
        decreases names.len() - i,
    {
        let ws = names[i].as_str();
        assert(s[i as int] == ws@);
        let now = new_cfg.workspaces.get(ws);
        let stays = match (old_cfg.workspaces.get(ws), now) {
            (Some(a), Some(b)) => a.same_as(b),
            _ => false,
        };
        if !stays {
            st.reset_layout(ws);
            if now.is_some() {
                out.push(names[i].clone());
            }
        }
        i = i + 1;
    }
    out
}

proof fn lemma_kept(st: StateView, a: ConfigView, b: ConfigView, names: Seq<Str>, i: int, acc: Seq<Str>, ws: Str)
    requires
        0 <= i <= names.len(),
        unchanged(a, b, ws),
        tab_sorted(st.cells),
        tab_sorted(st.moved),
        tab_sorted(st.main),
        tab_sorted(st.geom),
    ensures
        tab_get(st.kept_from(a, b, names, i, acc).0.cells, ws) == tab_get(st.cells, ws),
        tab_get(st.kept_from(a, b, names, i, acc).0.moved, ws) == tab_get(st.moved, ws),
        tab_get(st.kept_from(a, b, names, i, acc).0.main, ws) == tab_get(st.main, ws),
        tab_get(st.kept_from(a, b, names, i, acc).0.geom, ws) == tab_get(st.geom, ws),
    decreases names.len() - i,
{
    if i < names.len() {
        if unchanged(a, b, names[i]) {
            lemma_kept(st, a, b, names, i + 1, acc, ws);
        } else {
            let n = names[i];
            let t = st.without_layout(n);
            lemma_del_sorted(st.cells, n);
            lemma_del_sorted(st.moved, n);
            lemma_del_sorted(st.main, n);
            lemma_del_sorted(st.geom, n);
            lemma_del_get(st.cells, n, ws);
            lemma_del_get(st.moved, n, ws);
            lemma_del_get(st.main, n, ws);
            lemma_del_get(st.geom, n, ws);
            lemma_kept(
                t,
                a,
                b,
                names,
                i + 1,
                if tab_has(b.workspaces, n) {
                    acc.push(n)
                } else {
                    acc
                },
                ws,
            );
        }
    }
}

/// Reading a configuration again keeps the whole layout of every workspace whose section is still
/// there and says the same: an edit of one workspace does not disturb another.
pub proof fn law_keep_layout(st: StateView, old_cfg: ConfigView, new_cfg: ConfigView, ws: Str)
    requires
        unchanged(old_cfg, new_cfg, ws),
        tab_sorted(st.cells),
        tab_sorted(st.moved),
        tab_sorted(st.main),
        tab_sorted(st.geom),
    ensures
        ({
            let t = st.kept_from(old_cfg, new_cfg, layout_names(old_cfg, new_cfg, st), 0, Seq::empty()).0;
            &&& tab_get(t.cells, ws) == tab_get(st.cells, ws)
            &&& tab_get(t.moved, ws) == tab_get(st.moved, ws)
            &&& tab_get(t.main, ws) == tab_get(st.main, ws)
            &&& tab_get(t.geom, ws) == tab_get(st.geom, ws)
        }),
{
    lemma_kept(st, old_cfg, new_cfg, layout_names(old_cfg, new_cfg, st), 0, Seq::empty(), ws);
}

// ---- Changed places -----------------------------------------------------------

/// The changed places after a window went, and the entries that lost theirs: of the entries of
/// a workspace from `j` on.
pub open spec fn released_from(
    cfg: ConfigView,
    addr: Str,
    clients: Seq<Client>,
    ws: Str,
    entries: Seq<(Str, MovedView)>,
    j: int,
    m: Seq<(Str, Seq<(Str, MovedView)>)>,
    gone: Seq<(Str, Str)>,
) -> (Seq<(Str, Seq<(Str, MovedView)>)>, Seq<(Str, Str)>)
    decreases entries.len() - j,
{
    if j >= entries.len() {
        (m, gone)
    } else {
        let (entry, x) = entries[j];
        if x.owner != Some(addr) {
            released_from(cfg, addr, clients, ws, entries, j + 1, m, gone)
        } else {
            match first_of(placed(cfg, clients, ws, entry_names_of(cfg, ws), entry)) {
                Some(c) => released_from(
                    cfg,
                    addr,
                    clients,
                    ws,
                    entries,
                    j + 1,
                    nest_put(m, ws, entry, MovedView { rect: x.rect, owner: Some(c.address@) }),
                    gone,
                ),
                None => released_from(
                    cfg,
                    addr,
                    clients,
                    ws,
                    entries,
                    j + 1,
                    nest_del(m, ws, entry),
                    gone.push((ws, entry)),
                ),
            }
        }
    }
}

/// The changed places after a window went, and the entries that lost theirs: of the workspaces from `i`
/// on.
pub open spec fn all_released_from(
    cfg: ConfigView,
    addr: Str,
    clients: Seq<Client>,
    all: Seq<(Str, Seq<(Str, MovedView)>)>,
    i: int,
    m: Seq<(Str, Seq<(Str, MovedView)>)>,
    gone: Seq<(Str, Str)>,
) -> (Seq<(Str, Seq<(Str, MovedView)>)>, Seq<(Str, Str)>)
    decreases all.len() - i,
{
    if i >= all.len() {
        (m, gone)
    } else {
        let r = released_from(cfg, addr, clients, all[i].0, all[i].1, 0, m, gone);
        all_released_from(cfg, addr, clients, all, i + 1, r.0, r.1)
    }
}

/// What a list of workspaces and entries says.
pub open spec fn pairs_view(s: Seq<(String, String)>) -> Seq<(Str, Str)> {
    s.map_values(|e: (String, String)| (e.0@, e.1@))
}

fn release_entries(
    st: &mut State,
    cfg: &Config,
    addr: &str,
    clients: &[Client],
    ws: &str,
    entries: &Table<Moved>,
    out: Vec<(String, String)>,
) -> (r: Vec<(String, String)>)
    ensures
        released_from(cfg@, addr@, clients@, ws@, entries@, 0, old(st)@.moved, pairs_view(out@)) == (
            final(st)@.moved,
            pairs_view(r@),
        ),
        final(st)@ == (StateView { moved: final(st)@.moved, ..old(st)@ }),
{
    let apps = cfg.entry_names(ws);
    let mut gone = out;
    let ghost first = pairs_view(gone@);
    let n: usize = entries.len();
    let mut j: usize = 0;
    while j < n
        invariant
            j <= n,
            n == entries@.len(),
            views(apps@) == entry_names_of(cfg@, ws@),
            first == pairs_view(out@),
            st@ == (StateView { moved: st@.moved, ..old(st)@ }),
            released_from(cfg@, addr@, clients@, ws@, entries@, 0, old(st)@.moved, first) == released_from(
                cfg@,
                addr@,
                clients@,
                ws@,
                entries@,
                j as int,
                st@.moved,
                pairs_view(gone@),
            ),
        decreases n - j,
    {
        let x = entries.at(j);
        if opt_is(&x.owner, addr) {
            let entry = entries.key(j);
            let rest = placed_windows(cfg, clients, ws, apps.as_slice(), entry.as_str());
            match first_or_hidden(&rest) {
                Some(c) => {
                    st.moved.put_nested(ws, entry.clone(), Moved { rect: x.rect, owner: Some(c.address.clone()) });
                },
                None => {
                    st.moved.remove_nested(ws, entry.as_str());
                    let ghost was = gone@;
                    gone.push((ws.to_owned(), entry.clone()));
                    proof {
                        assert(pairs_view(gone@) =~= pairs_view(was).push((ws@, entry@)));
                    }
                },
            }
        }
        j = j + 1;
    }
    gone
}

impl StateView {
    /// The state after a window went: a changed place that was read from it goes to another window of
    /// the entry, or back to the description where there is none; and the places that went back.
    pub open spec fn released(self, cfg: ConfigView, addr: Str, clients: Seq<Client>) -> (StateView, Seq<(Str, Str)>) {
        let r = all_released_from(cfg, addr, clients, self.moved, 0, self.moved, Seq::empty());
        (StateView { moved: tab_pruned(r.0), ..self }, r.1)
    }
}

/// Give up the changed places that were read from a window which was closed or left its workspace.
/// `clients` are the windows after it went. Gives the workspaces and entries whose places went back to
/// the description.
pub fn drop_moved(st: &mut State, cfg: &Config, addr: &str, clients: &[Client]) -> (r: Vec<(String, String)>)
    ensures
        old(st)@.released(cfg@, addr@, clients@) == (final(st)@, pairs_view(r@)),
{
    let all = st.moved.dup();
    let mut out: Vec<(String, String)> = Vec::new();
    proof {
        assert(pairs_view(out@) =~= Seq::empty());
    }
    let n: usize = all.len();
    let mut i: usize = 0;
    while i < n
        invariant
            i <= n,
            n == all@.len(),
            all@ == old(st)@.moved,
            st@ == (StateView { moved: st@.moved, ..old(st)@ }),
            all_released_from(cfg@, addr@, clients@, all@, 0, old(st)@.moved, Seq::empty()) == all_released_from(
                cfg@,
                addr@,
                clients@,
                all@,
                i as int,
                st@.moved,
                pairs_view(out@),
            ),
        decreases n - i,
    {
        out = release_entries(st, cfg, addr, clients, all.key(i).as_str(), all.at(i), out);
        i = i + 1;
    }
    st.moved.prune();
    out
}

impl StateView {
    /// The state after a window took the place of an application: a changed place that no window owns
    /// becomes its own.
    pub open spec fn claimed(self, cfg: ConfigView, ws: Str, app: Str, addr: Str) -> StateView {
        match cfg.ws_entry(ws, app) {
            None => self,
            Some((entry, _)) => match nest_get(self.moved, ws, entry) {
                Some(m) => if m.owner is None {
                    StateView {
                        moved: nest_put(self.moved, ws, entry, MovedView { rect: m.rect, owner: Some(addr) }),
                        ..self
                    }
                } else {
                    self
                },
                None => self,
            },
        }
    }
}

/// A window took the place of an application: a changed place that no window owns becomes its own.
pub fn claim_owner(st: &mut State, cfg: &Config, ws: &str, app: &str, addr: &str)
    ensures
        final(st)@ == old(st)@.claimed(cfg@, ws@, app@, addr@),
{
    if let Some((entry, _)) = cfg.ws_entry(ws, app) {
        let free = match st.moved.nested(ws, entry.as_str()) {
            Some(m) => if m.owner.is_none() {
                Some(m.rect)
            } else {
                None
            },
            None => None,
        };
        if let Some(rect) = free {
            st.moved.put_nested(ws, entry, Moved { rect, owner: Some(addr.to_owned()) });
        }
    }
}

// ---- Places that windows take -------------------------------------------------

impl StateView {
    /// The state after the place of an application was looked up.
    pub open spec fn opened(self, cfg: ConfigView, ws: Option<Str>) -> StateView {
        match ws {
            Some(w) => if tab_has(cfg.workspaces, w) {
                self.built(cfg, w)
            } else {
                self
            },
            None => self,
        }
    }

    /// The place of a window of an application: in the workspace where it is in the configuration, else
    /// the one that the application has by itself.
    pub open spec fn open_place(self, cfg: ConfigView, ws: Option<Str>, app: Str) -> Option<PxRect> {
        match ws {
            Some(w) => if tab_has(cfg.workspaces, w) {
                self.built(cfg, w).place(cfg, w, app)
            } else {
                own_rect(cfg, app)
            },
            None => own_rect(cfg, app),
        }
    }
}

/// The place of a window that an application opened: in the active workspace, else the one that the
/// application has by itself; none where the window stays.
pub fn open_rect(st: &mut State, cfg: &Config, ws: Option<&str>, app: &str) -> (r: Option<PxRect>)
    ensures
        final(st)@ == old(st)@.opened(cfg@, oview(ws)),
        r == old(st)@.open_place(cfg@, oview(ws), app@),
{
    if let Some(w) = ws {
        if cfg.workspaces.contains_key(w) {
            return st.rect_for(cfg, w, app);
        }
    }
    State::app_rect(cfg, app)
}

/// The plan of the windows from `i` on, after `acc`: an address and a place. A window of an application
/// takes the place of the application; other windows of one class lie on one another in the middle of
/// the screen.
pub open spec fn arranged_from(
    st: StateView,
    cfg: ConfigView,
    ws: Option<Str>,
    windows: Seq<Client>,
    mon: (i32, i32),
    i: int,
    stacks: Seq<(Str, PxRect)>,
    acc: Seq<(Str, PxRect)>,
) -> (StateView, Seq<(Str, PxRect)>)
    decreases windows.len() - i,
{
    if i >= windows.len() {
        (st, acc)
    } else {
        let c = windows[i];
        let known = app_of(c) matches Some(a) && tab_has(cfg.apps, a);
        let place = if known {
            st.open_place(cfg, ws, app_of(c)->0)
        } else {
            None
        };
        let next = if known {
            st.opened(cfg, ws)
        } else {
            st
        };
        match place {
            Some(r) => arranged_from(next, cfg, ws, windows, mon, i + 1, stacks, acc.push((c.address@, r))),
            None => match tab_get(stacks, c.class@) {
                Some(r) => arranged_from(next, cfg, ws, windows, mon, i + 1, stacks, acc.push((c.address@, r))),
                None => {
                    let r = centered(c.size, mon);
                    arranged_from(
                        next,
                        cfg,
                        ws,
                        windows,
                        mon,
                        i + 1,
                        tab_put(stacks, c.class@, r),
                        acc.push((c.address@, r)),
                    )
                },
            },
        }
    }
}

/// The plan of arranging windows: an address and a place for each.
pub fn arrange_plan(st: &mut State, cfg: &Config, ws: Option<&str>, windows: &[&Client], mon: (i32, i32)) -> (r: Vec<
    (String, PxRect),
>)
    ensures
        arranged_from(old(st)@, cfg@, oview(ws), derefs(windows@), mon, 0, Seq::empty(), Seq::empty()) == (
            final(st)@,
            crate::home::geom_view(r@),
        ),
{
    let ghost s = derefs(windows@);
    let mut stacks: Table<PxRect> = Table::new();
    let mut plan: Vec<(String, PxRect)> = Vec::new();
    let mut i: usize = 0;
    proof {
        assert(crate::home::geom_view(plan@) =~= Seq::empty());
    }
    while i < windows.len()
        invariant
            i <= windows.len(),
            s == derefs(windows@),
            arranged_from(old(st)@, cfg@, oview(ws), s, mon, 0, Seq::empty(), Seq::empty()) == arranged_from(
                st@,
                cfg@,
                oview(ws),
                s,
                mon,
                i as int,
                stacks@,
                crate::home::geom_view(plan@),
            ),
        decreases windows.len() - i,
    {
        let c = windows[i];
        assert(s[i as int] == *c);
        let mut place: Option<PxRect> = None;
        if let Some(a) = c.app() {
            if cfg.apps.contains_key(a.as_str()) {
                place = open_rect(st, cfg, ws, a.as_str());
            }
        }
        let r = match place {
            Some(r) => r,
            None => {
                let there = match stacks.get(c.class.as_str()) {
                    Some(r) => Some(*r),
                    None => None,
                };
                match there {
                    Some(r) => r,
                    None => {
                        let r = center_rect(c, mon);
                        stacks.insert(c.class.clone(), r);
                        r
                    },
                }
            },
        };
        let ghost was = plan@;
        plan.push((c.address.clone(), r));
        proof {
            assert(crate::home::geom_view(plan@) =~= crate::home::geom_view(was).push((c.address@, r)));
        }
        i = i + 1;
    }
    plan
}

/// One of the windows from `i` on has this address and belongs to the workspace.
pub open spec fn member_addr_from(cfg: ConfigView, ws: Str, windows: Seq<Client>, addr: Str, i: int) -> bool
    decreases windows.len() - i,
{
    if i >= windows.len() {
        false
    } else {
        (windows[i].address@ == addr && entry_of(cfg, ws, entry_names_of(cfg, ws), windows[i]) is Some)
            || member_addr_from(cfg, ws, windows, addr, i + 1)
    }
}

/// The rectangles of the first `n` windows of a plan that belong to the workspace.
pub open spec fn plan_geom(
    cfg: ConfigView,
    ws: Str,
    windows: Seq<Client>,
    plan: Seq<(Str, PxRect)>,
    n: int,
) -> Seq<(Str, PxRect)>
    decreases n,
{
    if n <= 0 {
        Seq::empty()
    } else if member_addr_from(cfg, ws, windows, plan[n - 1].0, 0) {
        tab_put(plan_geom(cfg, ws, windows, plan, n - 1), plan[n - 1].0, plan[n - 1].1)
    } else {
        plan_geom(cfg, ws, windows, plan, n - 1)
    }
}

impl StateView {
    /// The state after arranging, and the plan: changed places of the workspace go, windows take the
    /// places described, and these become the rectangles of the windows of the workspace.
    pub open spec fn arranged(self, cfg: ConfigView, ws: Option<Str>, windows: Seq<Client>, mon: (i32, i32)) -> (
        StateView,
        Seq<(Str, PxRect)>,
    ) {
        match ws {
            None => arranged_from(self, cfg, ws, windows, mon, 0, Seq::empty(), Seq::empty()),
            Some(w) => {
                let (st, plan) = arranged_from(
                    StateView { moved: tab_del(self.moved, w), ..self },
                    cfg,
                    ws,
                    windows,
                    mon,
                    0,
                    Seq::empty(),
                    Seq::empty(),
                );
                (
                    StateView { geom: tab_put(st.geom, w, plan_geom(cfg, w, windows, plan, plan.len() as int)), ..st },
                    plan,
                )
            },
        }
    }
}

fn member_addr(cfg: &Config, ws: &str, apps: &[String], windows: &[&Client], addr: &str) -> (r: bool)
    requires
        views(apps@) == entry_names_of(cfg@, ws@),
    ensures
        r == member_addr_from(cfg@, ws@, derefs(windows@), addr@, 0),
{
    let ghost s = derefs(windows@);
    let mut i: usize = 0;
    while i < windows.len()
        invariant
            i <= windows.len(),
            s == derefs(windows@),
            views(apps@) == entry_names_of(cfg@, ws@),
            member_addr_from(cfg@, ws@, s, addr@, 0) == member_addr_from(cfg@, ws@, s, addr@, i as int),
        decreases windows.len() - i,
    {
        let c = windows[i];
        assert(s[i as int] == *c);
        if same(c.address.as_str(), addr) && ws_app_of(cfg, ws, apps, c).is_some() {
            return true;
        }
        i = i + 1;
    }
    false
}

/// Arrange windows by the description: what the user changed in the workspace goes, exchanged places
/// stay. The rectangles kept for windows of the workspace become those of the plan, and windows that are
/// not in it are forgotten.
pub fn arrange_layout(
    st: &mut State,
    cfg: &Config,
    ws: Option<&str>,
    windows: &[&Client],
    mon: (i32, i32),
) -> (r: Vec<(String, PxRect)>)
    ensures
        old(st)@.arranged(cfg@, oview(ws), derefs(windows@), mon) == (final(st)@, crate::home::geom_view(r@)),
{
    if let Some(w) = ws {
        st.moved.remove(w);
    }
    let plan = arrange_plan(st, cfg, ws, windows, mon);
    if let Some(w) = ws {
        let apps = cfg.entry_names(w);
        let ghost p = crate::home::geom_view(plan@);
        let mut g: Table<PxRect> = Table::new();
        let mut i: usize = 0;
        while i < plan.len()
            invariant
                i <= plan.len(),
                p == crate::home::geom_view(plan@),
                views(apps@) == entry_names_of(cfg@, w@),
                g@ == plan_geom(cfg@, w@, derefs(windows@), p, i as int),
            decreases plan.len() - i,
        {
            assert(p[i as int] == (plan@[i as int].0@, plan@[i as int].1));
            if member_addr(cfg, w, apps.as_slice(), windows, plan[i].0.as_str()) {
                g.insert(plan[i].0.clone(), plan[i].1);
            }
            i = i + 1;
        }
        st.geom.insert(w.to_owned(), g);
    }
    plan
}

proof fn lemma_arranged(
    st: StateView,
    cfg: ConfigView,
    ws: Option<Str>,
    windows: Seq<Client>,
    mon: (i32, i32),
    i: int,
    stacks: Seq<(Str, PxRect)>,
    acc: Seq<(Str, PxRect)>,
)
    requires
        0 <= i <= windows.len(),
    ensures
        ({
            let t = arranged_from(st, cfg, ws, windows, mon, i, stacks, acc);
            &&& t.0 == st || t.0 == st.opened(cfg, ws)
            &&& t.1.len() == acc.len() + windows.len() - i
        }),
    decreases windows.len() - i,
{
    if i < windows.len() {
        let c = windows[i];
        let known = app_of(c) matches Some(a) && tab_has(cfg.apps, a);
        let place = if known {
            st.open_place(cfg, ws, app_of(c)->0)
        } else {
            None
        };
        let next = if known {
            st.opened(cfg, ws)
        } else {
            st
        };
        if ws is Some && tab_has(cfg.workspaces, ws->0) && !tab_has(st.cells, ws->0) {
            let e = cfg.entries(ws->0);
            lemma_put_found(st.cells, ws->0, crate::state::places_upto(e, e.len() as int));
        }
        assert(st.opened(cfg, ws).opened(cfg, ws) == st.opened(cfg, ws));
        match place {
            Some(r) => {
                lemma_arranged(next, cfg, ws, windows, mon, i + 1, stacks, acc.push((c.address@, r)));
            },
            None => match tab_get(stacks, c.class@) {
                Some(r) => {
                    lemma_arranged(next, cfg, ws, windows, mon, i + 1, stacks, acc.push((c.address@, r)));
                },
                None => {
                    let r = centered(c.size, mon);
                    lemma_arranged(
                        next,
                        cfg,
                        ws,
                        windows,
                        mon,
                        i + 1,
                        tab_put(stacks, c.class@, r),
                        acc.push((c.address@, r)),
                    );
                },
            },
        }
    }
}

pub proof fn lemma_put_found<T>(s: Seq<(Str, T)>, k: Str, v: T)
    ensures
        tab_has(tab_put(s, k, v), k),
{
    let t = tab_put(s, k, v);
    lemma_rank_bound(s, k, 0);
    let r = crate::table::tab_rank(s, k, 0);
    assert(t[r].0 == k);
    lemma_find(t, k, 0);
    if tab_find(t, k, 0) == t.len() {
        assert(t[r].0 != k);
    }
}

proof fn lemma_rank_bound<T>(s: Seq<(Str, T)>, k: Str, i: int)
    requires
        0 <= i <= s.len(),
    ensures
        i <= crate::table::tab_rank(s, k, i) <= s.len(),
    decreases s.len() - i,
{
    if i < s.len() && crate::text::str_lt(s[i].0, k) {
        lemma_rank_bound(s, k, i + 1);
    }
}

/// Arranging changes neither the main application of any workspace nor a layout that was made, gives
/// every window a place, and leaves no changed place in the workspace.
pub proof fn law_arrange_keeps_exchange(st: StateView, cfg: ConfigView, ws: Str, windows: Seq<Client>, mon: (i32, i32))
    requires
        tab_sorted(st.moved),
    ensures
        ({
            let (t, plan) = st.arranged(cfg, Some(ws), windows, mon);
            &&& t.main == st.main
            &&& tab_has(st.cells, ws) ==> t.cells == st.cells
            &&& tab_get(t.moved, ws) is None
            &&& plan.len() == windows.len()
        }),
{
    let u = StateView { moved: tab_del(st.moved, ws), ..st };
    lemma_arranged(u, cfg, Some(ws), windows, mon, 0, Seq::empty(), Seq::empty());
    lemma_del_get(st.moved, ws, ws);
}

// ---- Exchanging places --------------------------------------------------------

/// The places after an application took the main one: the main application gets its place, or none.
pub open spec fn cells_swapped(
    cells: Seq<(Str, PlaceView)>,
    main: Option<Str>,
    app: Str,
    main_cell: Str,
) -> Seq<(Str, PlaceView)> {
    let main_place = match main {
        Some(m) => tab_get(cells, m),
        None => None,
    };
    let one = match main {
        Some(m) => match tab_get(cells, app) {
            Some(p) => tab_put(cells, m, p),
            None => tab_del(cells, m),
        },
        None => cells,
    };
    tab_put(
        one,
        app,
        match main_place {
            Some(p) => p,
            None => PlaceView::Cell(main_cell),
        },
    )
}

/// The changed places after an application took the main one. A changed place that comes to an
/// application without windows goes: it belonged to a window.
pub open spec fn moved_swapped(
    moved: Seq<(Str, MovedView)>,
    main: Option<Str>,
    app: Str,
    main_has: bool,
    app_has: bool,
) -> Seq<(Str, MovedView)> {
    let app_moved = tab_get(moved, app);
    let one = tab_del(moved, app);
    let main_moved = match main {
        Some(m) => tab_get(one, m),
        None => None,
    };
    let two = match main {
        Some(m) => tab_del(one, m),
        None => one,
    };
    let three = match (main, app_moved) {
        (Some(m), Some(x)) => tab_put(two, m, x),
        _ => two,
    };
    let four = match main_moved {
        Some(x) => tab_put(three, app, x),
        None => three,
    };
    let five = match main {
        Some(m) => if main_has {
            four
        } else {
            tab_del(four, m)
        },
        None => four,
    };
    if app_has {
        five
    } else {
        tab_del(five, app)
    }
}

impl StateView {
    /// The state after an application of a workspace took the main place.
    pub open spec fn swapped(
        self,
        ws: Str,
        main: Option<Str>,
        app: Str,
        main_cell: Str,
        main_has: bool,
        app_has: bool,
    ) -> StateView {
        StateView {
            cells: tab_put(self.cells, ws, cells_swapped(nest_at(self.cells, ws), main, app, main_cell)),
            moved: tab_pruned(
                tab_put(self.moved, ws, moved_swapped(nest_at(self.moved, ws), main, app, main_has, app_has)),
            ),
            main: tab_put(self.main, ws, app),
            ..self
        }
    }
}

fn swap_cells(cells: Table<Place>, main: Option<&str>, app: &str, main_cell: &str) -> (r: Table<Place>)
    ensures
        r@ == cells_swapped(cells@, oview(main), app@, main_cell@),
{
    let mut t = cells;
    let app_place = crate::table::dup_opt(&take_copy(&t, app));
    let mut main_place: Option<Place> = None;
    if let Some(m) = main {
        main_place = take_copy(&t, m);
        match app_place {
            Some(p) => {
                t.insert(m.to_owned(), p);
            },
            None => {
                t.remove(m);
            },
        }
    }
    let p = match main_place {
        Some(p) => p,
        None => Place::Cell(main_cell.to_owned()),
    };
    t.insert(app.to_owned(), p);
    t
}

fn take_copy(t: &Table<Place>, k: &str) -> (r: Option<Place>)
    ensures
        oview(r) == tab_get(t@, k@),
{
    match t.get(k) {
        Some(p) => Some(p.dup()),
        None => None,
    }
}

fn swap_moved(moved: Table<Moved>, main: Option<&str>, app: &str, main_has: bool, app_has: bool) -> (r: Table<Moved>)
    ensures
        r@ == moved_swapped(moved@, oview(main), app@, main_has, app_has),
{
    let mut t = moved;
    let app_moved = t.remove(app);
    if let Some(m) = main {
        let main_moved = t.remove(m);
        if let Some(x) = app_moved {
            t.insert(m.to_owned(), x);
        }
        if let Some(x) = main_moved {
            t.insert(app.to_owned(), x);
        }
        if !main_has {
            t.remove(m);
        }
    }
    if !app_has {
        t.remove(app);
    }
    t
}

/// An application of a workspace takes the main place: it and the main application exchange their places
/// together with what the user changed about them, and it becomes the main one. Without a main
/// application it gets the main cell of the template. `main_has` and `app_has` say whether the two have
/// windows in the workspace.
pub fn swap_places(
    st: &mut State,
    ws: &str,
    main: Option<&str>,
    app: &str,
    main_cell: &str,
    main_has: bool,
    app_has: bool,
)
    ensures
        final(st)@ == old(st)@.swapped(ws@, oview(main), app@, main_cell@, main_has, app_has),
{
    proof {
        use_type_invariant(&st.cells);
        crate::table::lemma_sorted_view(&st.cells);
    }
    let ghost c = st@.cells;
    let cells = match st.cells.remove(ws) {
        Some(t) => t,
        None => Table::new(),
    };
    let new_cells = swap_cells(cells, main, app, main_cell);
    let ghost nc = new_cells@;
    st.cells.insert(ws.to_owned(), new_cells);
    proof {
        lemma_del_put(c, ws@, nc);
    }
    proof {
        use_type_invariant(&st.moved);
        crate::table::lemma_sorted_view(&st.moved);
    }
    let ghost m = st@.moved;
    let moved = match st.moved.remove(ws) {
        Some(t) => t,
        None => Table::new(),
    };
    let new_moved = swap_moved(moved, main, app, main_has, app_has);
    let ghost nm = new_moved@;
    st.moved.insert(ws.to_owned(), new_moved);
    proof {
        lemma_del_put(m, ws@, nm);
    }
    st.moved.prune();
    st.main.insert(ws.to_owned(), app.to_owned());
}

proof fn lemma_cells_swapped(cells: Seq<(Str, PlaceView)>, main: Str, app: Str, cell: Str, q: Str)
    requires
        tab_sorted(cells),
        main != app,
    ensures
        tab_sorted(cells_swapped(cells, Some(main), app, cell)),
        tab_get(cells_swapped(cells, Some(main), app, cell), q) == if q == app {
            match tab_get(cells, main) {
                Some(p) => Some(p),
                None => Some(PlaceView::Cell(cell)),
            }
        } else if q == main {
            tab_get(cells, app)
        } else {
            tab_get(cells, q)
        },
{
    let p = match tab_get(cells, main) {
        Some(p) => p,
        None => PlaceView::Cell(cell),
    };
    match tab_get(cells, app) {
        Some(x) => {
            let one = tab_put(cells, main, x);
            lemma_put_sorted(cells, main, x);
            lemma_put_get(cells, main, x, q);
            lemma_put_sorted(one, app, p);
            lemma_put_get(one, app, p, q);
        },
        None => {
            let one = tab_del(cells, main);
            lemma_del_sorted(cells, main);
            lemma_del_get(cells, main, q);
            lemma_put_sorted(one, app, p);
            lemma_put_get(one, app, p, q);
        },
    }
}

proof fn lemma_moved_swapped(moved: Seq<(Str, MovedView)>, main: Str, app: Str, q: Str)
    requires
        tab_sorted(moved),
        main != app,
    ensures
        tab_sorted(moved_swapped(moved, Some(main), app, true, true)),
        tab_get(moved_swapped(moved, Some(main), app, true, true), q) == if q == app {
            tab_get(moved, main)
        } else if q == main {
            tab_get(moved, app)
        } else {
            tab_get(moved, q)
        },
{
    let one = tab_del(moved, app);
    lemma_del_sorted(moved, app);
    lemma_del_get(moved, app, q);
    lemma_del_get(moved, app, main);
    let two = tab_del(one, main);
    lemma_del_sorted(one, main);
    lemma_del_get(one, main, q);
    let three = match tab_get(moved, app) {
        Some(x) => tab_put(two, main, x),
        None => two,
    };
    if let Some(x) = tab_get(moved, app) {
        lemma_put_sorted(two, main, x);
        lemma_put_get(two, main, x, q);
    }
    if let Some(x) = tab_get(one, main) {
        lemma_put_sorted(three, app, x);
        lemma_put_get(three, app, x, q);
    }
}

proof fn lemma_masked_in<T>(s: Seq<(Str, T)>, mask: Seq<bool>, n: int, i: int) -> (j: int)
    requires
        0 <= i < n <= s.len(),
        mask[i],
    ensures
        0 <= j < tab_masked(s, mask, n).len(),
        tab_masked(s, mask, n)[j] == s[i],
    decreases n,
{
    let m = tab_masked(s, mask, n - 1);
    if i == n - 1 {
        m.len() as int
    } else {
        lemma_masked_in(s, mask, n - 1, i)
    }
}

proof fn lemma_masked_from<T>(s: Seq<(Str, T)>, mask: Seq<bool>, n: int, j: int) -> (i: int)
    requires
        0 <= n <= s.len(),
        0 <= j < tab_masked(s, mask, n).len(),
    ensures
        0 <= i < n,
        mask[i],
        tab_masked(s, mask, n)[j] == s[i],
    decreases n,
{
    if mask[n - 1] && j == tab_masked(s, mask, n - 1).len() {
        n - 1
    } else {
        lemma_masked_from(s, mask, n - 1, j)
    }
}

pub proof fn lemma_masked_get<T>(s: Seq<(Str, T)>, mask: Seq<bool>, k: Str)
    requires
        tab_sorted(s),
    ensures
        tab_sorted(tab_masked(s, mask, s.len() as int)),
        tab_get(tab_masked(s, mask, s.len() as int), k) == match tab_get(s, k) {
            Some(v) => if mask[tab_find(s, k, 0)] {
                Some(v)
            } else {
                None
            },
            None => None,
        },
{
    let n = s.len() as int;
    let b = tab_masked(s, mask, n);
    crate::table::lemma_masked(s, mask, n);
    lemma_find(s, k, 0);
    lemma_find(b, k, 0);
    let i = tab_find(s, k, 0);
    let j = tab_find(b, k, 0);
    if j < b.len() {
        let x = lemma_masked_from(s, mask, n, j);
        lemma_find_at(s, x);
    } else if i < n && mask[i] {
        let y = lemma_masked_in(s, mask, n, i);
        lemma_find_at(b, y);
    }
}

pub proof fn lemma_pruned_get<T>(s: Seq<(Str, Seq<(Str, T)>)>, a: Str, b: Str)
    requires
        tab_sorted(s),
    ensures
        nest_get(tab_pruned(s), a, b) == nest_get(s, a, b),
{
    let mask = s.map_values(|e: (Str, Seq<(Str, T)>)| e.1.len() > 0);
    lemma_masked_get(s, mask, a);
    lemma_find(s, a, 0);
}

/// The place and the changed place that an entry has in a workspace.
pub open spec fn places_of(st: StateView, ws: Str, entry: Str) -> (Option<PlaceView>, Option<MovedView>) {
    (nest_get(st.cells, ws, entry), nest_get(st.moved, ws, entry))
}

proof fn lemma_swapped(st: StateView, ws: Str, main: Str, app: Str, cell: Str, q: Str)
    requires
        tab_sorted(st.cells),
        tab_sorted(st.moved),
        tab_sorted(st.main),
        tab_sorted(nest_at(st.cells, ws)),
        tab_sorted(nest_at(st.moved, ws)),
        main != app,
        nest_get(st.cells, ws, main) is Some,
    ensures
        places_of(st.swapped(ws, Some(main), app, cell, true, true), ws, q) == if q == app {
            places_of(st, ws, main)
        } else if q == main {
            places_of(st, ws, app)
        } else {
            places_of(st, ws, q)
        },
        tab_get(st.swapped(ws, Some(main), app, cell, true, true).main, ws) == Some(app),
{
    let t = st.swapped(ws, Some(main), app, cell, true, true);
    let c = cells_swapped(nest_at(st.cells, ws), Some(main), app, cell);
    let m = moved_swapped(nest_at(st.moved, ws), Some(main), app, true, true);
    lemma_put_get(st.cells, ws, c, ws);
    lemma_cells_swapped(nest_at(st.cells, ws), main, app, cell, q);
    lemma_put_sorted(st.moved, ws, m);
    lemma_put_get(st.moved, ws, m, ws);
    lemma_pruned_get(tab_put(st.moved, ws, m), ws, q);
    lemma_moved_swapped(nest_at(st.moved, ws), main, app, q);
    lemma_put_get(st.main, ws, app, ws);
}

/// Taking the main place exchanges the places of the two applications, with what the user changed about
/// them, moves nobody else and makes the application the main one.
pub proof fn law_swap_exchanges(st: StateView, ws: Str, main: Str, app: Str, cell: Str)
    requires
        tab_sorted(st.cells),
        tab_sorted(st.moved),
        tab_sorted(st.main),
        tab_sorted(nest_at(st.cells, ws)),
        tab_sorted(nest_at(st.moved, ws)),
        main != app,
        nest_get(st.cells, ws, main) is Some,
    ensures
        ({
            let t = st.swapped(ws, Some(main), app, cell, true, true);
            &&& places_of(t, ws, app) == places_of(st, ws, main)
            &&& places_of(t, ws, main) == places_of(st, ws, app)
            &&& forall|q: Str| q != app && q != main ==> #[trigger] places_of(t, ws, q) == places_of(st, ws, q)
            &&& tab_get(t.main, ws) == Some(app)
        }),
{
    let t = st.swapped(ws, Some(main), app, cell, true, true);
    lemma_swapped(st, ws, main, app, cell, app);
    lemma_swapped(st, ws, main, app, cell, main);
    assert forall|q: Str| q != app && q != main implies #[trigger] places_of(t, ws, q) == places_of(st, ws, q) by {
        lemma_swapped(st, ws, main, app, cell, q);
    }
}

proof fn lemma_pruned_outer<T>(m: Seq<(Str, Seq<(Str, T)>)>, k: Str)
    requires
        tab_sorted(m),
    ensures
        tab_sorted(tab_pruned(m)),
        tab_get(tab_pruned(m), k) == match tab_get(m, k) {
            Some(t) => if t.len() > 0 {
                Some(t)
            } else {
                None
            },
            None => None,
        },
{
    lemma_masked_get(m, m.map_values(|e: (Str, Seq<(Str, T)>)| e.1.len() > 0), k);
    lemma_find(m, k, 0);
}

/// Exchanging the places a second time, back, brings all places of all workspaces back, and the changed ones.
pub proof fn law_swap_back(st: StateView, ws: Str, main: Str, app: Str, cell: Str)
    requires
        tab_sorted(st.cells),
        tab_sorted(st.moved),
        tab_sorted(st.main),
        tab_sorted(nest_at(st.cells, ws)),
        tab_sorted(nest_at(st.moved, ws)),
        main != app,
        nest_get(st.cells, ws, main) is Some,
        nest_get(st.cells, ws, app) is Some,
    ensures
        ({
            let t = st.swapped(ws, Some(main), app, cell, true, true).swapped(
                ws,
                Some(app),
                main,
                cell,
                true,
                true,
            );
            &&& t.cells == st.cells
            &&& t.moved == tab_pruned(st.moved)
            &&& tab_get(t.main, ws) == Some(main)
        }),
{
    let s = st.swapped(ws, Some(main), app, cell, true, true);
    let t = s.swapped(ws, Some(app), main, cell, true, true);
    // The places.
    let c0 = nest_at(st.cells, ws);
    let c1 = cells_swapped(c0, Some(main), app, cell);
    let c2 = cells_swapped(c1, Some(app), main, cell);
    lemma_cells_swapped(c0, main, app, cell, app);
    lemma_cells_swapped(c0, main, app, cell, main);
    assert forall|q: Str| #[trigger] tab_get(c2, q) == tab_get(c0, q) by {
        lemma_cells_swapped(c0, main, app, cell, q);
        lemma_cells_swapped(c1, app, main, cell, q);
    }
    lemma_cells_swapped(c1, app, main, cell, main);
    crate::table::lemma_same_table(c2, c0);
    lemma_put_sorted(st.cells, ws, c1);
    lemma_put_get(st.cells, ws, c1, ws);
    lemma_put_sorted(s.cells, ws, c2);
    assert forall|x: Str| #[trigger] tab_get(t.cells, x) == tab_get(st.cells, x) by {
        lemma_put_get(st.cells, ws, c1, x);
        lemma_put_get(s.cells, ws, c2, x);
        if x == ws {
            lemma_find(st.cells, ws, 0);
            assert(tab_get(Seq::<(Str, PlaceView)>::empty(), main) is None);
        }
    }
    crate::table::lemma_same_table(t.cells, st.cells);
    // The changed places.
    let m0 = nest_at(st.moved, ws);
    let m1 = moved_swapped(m0, Some(main), app, true, true);
    let p1 = tab_put(st.moved, ws, m1);
    lemma_moved_swapped(m0, main, app, app);
    lemma_put_sorted(st.moved, ws, m1);
    lemma_put_get(st.moved, ws, m1, ws);
    lemma_pruned_outer(p1, ws);
    assert(nest_at(s.moved, ws) =~= m1);
    let m2 = moved_swapped(m1, Some(app), main, true, true);
    lemma_moved_swapped(m1, app, main, app);
    assert forall|q: Str| #[trigger] tab_get(m2, q) == tab_get(m0, q) by {
        lemma_moved_swapped(m0, main, app, q);
        lemma_moved_swapped(m0, main, app, main);
        lemma_moved_swapped(m0, main, app, app);
        lemma_moved_swapped(m1, app, main, q);
    }
    crate::table::lemma_same_table(m2, m0);
    let p2 = tab_put(s.moved, ws, m2);
    lemma_put_sorted(s.moved, ws, m2);
    lemma_pruned_outer(p2, ws);
    lemma_pruned_outer(st.moved, ws);
    assert forall|x: Str| #[trigger] tab_get(t.moved, x) == tab_get(tab_pruned(st.moved), x) by {
        lemma_pruned_outer(p2, x);
        lemma_pruned_outer(st.moved, x);
        lemma_pruned_outer(p1, x);
        lemma_put_get(st.moved, ws, m1, x);
        lemma_put_get(s.moved, ws, m2, x);
    }
    crate::table::lemma_same_table(t.moved, tab_pruned(st.moved));
    // The main application.
    lemma_put_sorted(st.main, ws, app);
    lemma_put_get(s.main, ws, main, ws);
}

/// Tables of tables, each in the order of its names.
pub open spec fn all_sorted<T>(m: Seq<(Str, Seq<(Str, T)>)>) -> bool {
    tab_sorted(m) && forall|a: Str| #[trigger] tab_sorted(nest_at(m, a))
}

pub proof fn lemma_nest_put<T>(m: Seq<(Str, Seq<(Str, T)>)>, a: Str, b: Str, v: T)
    requires
        all_sorted(m),
    ensures
        all_sorted(nest_put(m, a, b, v)),
        forall|x: Str, y: Str| #[trigger]
            nest_get(nest_put(m, a, b, v), x, y) == if x == a && y == b {
                Some(v)
            } else {
                nest_get(m, x, y)
            },
{
    let inner = tab_put(nest_at(m, a), b, v);
    let r = nest_put(m, a, b, v);
    assert(tab_sorted(nest_at(m, a)));
    lemma_put_sorted(nest_at(m, a), b, v);
    lemma_put_sorted(m, a, inner);
    assert forall|x: Str| #[trigger] tab_sorted(nest_at(r, x)) by {
        lemma_put_get(m, a, inner, x);
        assert(tab_sorted(nest_at(m, x)));
    }
    assert forall|x: Str, y: Str| #[trigger] nest_get(r, x, y) == if x == a && y == b {
        Some(v)
    } else {
        nest_get(m, x, y)
    } by {
        lemma_put_get(m, a, inner, x);
        lemma_put_get(nest_at(m, a), b, v, y);
    }
}

pub proof fn lemma_nest_del<T>(m: Seq<(Str, Seq<(Str, T)>)>, a: Str, b: Str)
    requires
        all_sorted(m),
    ensures
        all_sorted(nest_del(m, a, b)),
        forall|x: Str, y: Str| #[trigger]
            nest_get(nest_del(m, a, b), x, y) == if x == a && y == b {
                None
            } else {
                nest_get(m, x, y)
            },
{
    let r = nest_del(m, a, b);
    if let Some(t) = tab_get(m, a) {
        let inner = tab_del(t, b);
        assert(nest_at(m, a) == t);
        assert(tab_sorted(nest_at(m, a)));
        lemma_del_sorted(t, b);
        lemma_put_sorted(m, a, inner);
        assert forall|x: Str| #[trigger] tab_sorted(nest_at(r, x)) by {
            lemma_put_get(m, a, inner, x);
            assert(tab_sorted(nest_at(m, x)));
        }
        assert forall|x: Str, y: Str| #[trigger] nest_get(r, x, y) == if x == a && y == b {
            None
        } else {
            nest_get(m, x, y)
        } by {
            lemma_put_get(m, a, inner, x);
            lemma_del_get(t, b, y);
        }
    }
}

/// No changed place was read from the window.
pub open spec fn not_of(o: Option<MovedView>, addr: Str) -> bool {
    o matches Some(x) ==> x.owner != Some(addr)
}

proof fn lemma_released(
    cfg: ConfigView,
    addr: Str,
    clients: Seq<Client>,
    ws: Str,
    entries: Seq<(Str, MovedView)>,
    j: int,
    m: Seq<(Str, Seq<(Str, MovedView)>)>,
    gone: Seq<(Str, Str)>,
)
    requires
        0 <= j <= entries.len(),
        tab_sorted(entries),
        all_sorted(m),
        forall|c: Client| #[trigger] clients.contains(c) ==> c.address@ != addr,
        forall|k: int| j <= k < entries.len() ==> nest_get(m, ws, (#[trigger] entries[k]).0) == Some(entries[k].1),
    ensures
        ({
            let r = released_from(cfg, addr, clients, ws, entries, j, m, gone).0;
            &&& all_sorted(r)
            &&& forall|x: Str, y: Str| x != ws ==> #[trigger] nest_get(r, x, y) == nest_get(m, x, y)
            &&& forall|y: Str| not_of(nest_get(m, ws, y), addr) ==> not_of(#[trigger] nest_get(r, ws, y), addr)
            &&& forall|k: int| j <= k < entries.len() ==> not_of(nest_get(r, ws, (#[trigger] entries[k]).0), addr)
        }),
    decreases entries.len() - j,
{
    if j < entries.len() {
        let (entry, x) = entries[j];
        let names = entry_names_of(cfg, ws);
        let next = if x.owner != Some(addr) {
            m
        } else {
            match first_of(placed(cfg, clients, ws, names, entry)) {
                Some(c) => nest_put(m, ws, entry, MovedView { rect: x.rect, owner: Some(c.address@) }),
                None => nest_del(m, ws, entry),
            }
        };
        if x.owner == Some(addr) {
            crate::windows::lemma_first_placed(cfg, clients, ws, names, entry);
            match first_of(placed(cfg, clients, ws, names, entry)) {
                Some(c) => lemma_nest_put(m, ws, entry, MovedView { rect: x.rect, owner: Some(c.address@) }),
                None => lemma_nest_del(m, ws, entry),
            }
        }
        assert forall|k: int| j + 1 <= k < entries.len() implies nest_get(next, ws, (#[trigger] entries[k]).0) == Some(
            entries[k].1,
        ) by {
            assert(crate::text::str_lt(entries[j].0, entries[k].0));
            crate::text::lemma_lt_irreflexive(entry);
        }
        assert(not_of(nest_get(next, ws, entry), addr));
        let more = if x.owner == Some(addr) && first_of(placed(cfg, clients, ws, names, entry)) is None {
            gone.push((ws, entry))
        } else {
            gone
        };
        lemma_released(cfg, addr, clients, ws, entries, j + 1, next, more);
        let r = released_from(cfg, addr, clients, ws, entries, j, m, gone).0;
        assert(r == released_from(cfg, addr, clients, ws, entries, j + 1, next, more).0);
        assert forall|y: Str| not_of(nest_get(m, ws, y), addr) implies not_of(#[trigger] nest_get(r, ws, y), addr) by {
            assert(not_of(nest_get(next, ws, y), addr));
        }
        assert forall|k: int| j <= k < entries.len() implies not_of(nest_get(r, ws, (#[trigger] entries[k]).0), addr) by {
            if k == j {
                assert(not_of(nest_get(r, ws, entry), addr));
            }
        }
    }
}

proof fn lemma_all_released(
    cfg: ConfigView,
    addr: Str,
    clients: Seq<Client>,
    all: Seq<(Str, Seq<(Str, MovedView)>)>,
    i: int,
    m: Seq<(Str, Seq<(Str, MovedView)>)>,
    gone: Seq<(Str, Str)>,
)
    requires
        0 <= i <= all.len(),
        all_sorted(all),
        all_sorted(m),
        forall|c: Client| #[trigger] clients.contains(c) ==> c.address@ != addr,
        forall|k: int, y: Str|
            i <= k < all.len() ==> #[trigger] nest_get(m, #[trigger] all[k].0, y) == tab_get(all[k].1, y),
        forall|x: Str, y: Str|
            not_of(#[trigger] nest_get(m, x, y), addr) || exists|k: int| i <= k < all.len() && #[trigger] all[k].0 == x,
    ensures
        ({
            let r = all_released_from(cfg, addr, clients, all, i, m, gone).0;
            &&& all_sorted(r)
            &&& forall|x: Str, y: Str| not_of(#[trigger] nest_get(r, x, y), addr)
        }),
    decreases all.len() - i,
{
    if i < all.len() {
        let (ws, entries) = all[i];
        lemma_find_at(all, i);
        assert(nest_at(all, ws) == entries);
        assert(tab_sorted(nest_at(all, ws)));
        assert forall|k: int| 0 <= k < entries.len() implies nest_get(m, ws, (#[trigger] entries[k]).0) == Some(
            entries[k].1,
        ) by {
            lemma_find_at(entries, k);
            assert(nest_get(m, all[i].0, entries[k].0) == tab_get(all[i].1, entries[k].0));
        }
        lemma_released(cfg, addr, clients, ws, entries, 0, m, gone);
        let r = released_from(cfg, addr, clients, ws, entries, 0, m, gone);
        assert forall|k: int, y: Str| i + 1 <= k < all.len() implies #[trigger] nest_get(r.0, #[trigger] all[k].0, y)
            == tab_get(all[k].1, y) by {
            assert(crate::text::str_lt(all[i].0, all[k].0));
            crate::text::lemma_lt_irreflexive(ws);
            assert(nest_get(m, all[k].0, y) == tab_get(all[k].1, y));
        }
        assert forall|x: Str, y: Str| not_of(#[trigger] nest_get(r.0, x, y), addr) || exists|k: int|
            i + 1 <= k < all.len() && #[trigger] all[k].0 == x by {
            if x == ws {
                lemma_find(entries, y, 0);
                let f = tab_find(entries, y, 0);
                if f < entries.len() {
                    assert(entries[f].0 == y);
                } else {
                    assert(nest_get(m, all[i].0, y) == tab_get(all[i].1, y));
                }
            } else {
                assert(nest_get(r.0, x, y) == nest_get(m, x, y));
                if !not_of(nest_get(m, x, y), addr) {
                    let k = choose|k: int| i <= k < all.len() && #[trigger] all[k].0 == x;
                    assert(k != i);
                    assert(all[k].0 == x);
                }
            }
        }
        lemma_all_released(cfg, addr, clients, all, i + 1, r.0, r.1);
    }
}

/// When a window is gone, no changed place is known by it any more: each was given to another window of its
/// entry or went back to the description.
pub proof fn law_gone_owns_nothing(st: StateView, cfg: ConfigView, addr: Str, clients: Seq<Client>)
    requires
        all_sorted(st.moved),
        forall|c: Client| #[trigger] clients.contains(c) ==> c.address@ != addr,
    ensures
        forall|x: Str, y: Str| not_of(#[trigger] nest_get(st.released(cfg, addr, clients).0.moved, x, y), addr),
{
    assert forall|k: int, y: Str| 0 <= k < st.moved.len() implies #[trigger] nest_get(st.moved, #[trigger] st.moved[k].0, y)
        == tab_get(st.moved[k].1, y) by {
        lemma_find_at(st.moved, k);
    }
    assert forall|x: Str, y: Str| not_of(#[trigger] nest_get(st.moved, x, y), addr) || exists|k: int|
        0 <= k < st.moved.len() && #[trigger] st.moved[k].0 == x by {
        lemma_find(st.moved, x, 0);
        let f = tab_find(st.moved, x, 0);
        if f < st.moved.len() {
            assert(st.moved[f].0 == x);
        } else {
            assert(nest_at(st.moved, x) =~= Seq::empty());
        }
    }
    lemma_all_released(cfg, addr, clients, st.moved, 0, st.moved, Seq::empty());
    let r = all_released_from(cfg, addr, clients, st.moved, 0, st.moved, Seq::empty()).0;
    assert forall|x: Str, y: Str| not_of(#[trigger] nest_get(st.released(cfg, addr, clients).0.moved, x, y), addr) by {
        lemma_pruned_get(r, x, y);
        assert(not_of(nest_get(r, x, y), addr));
    }
}

} // verus!
