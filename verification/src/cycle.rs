//! The key of an application: the walk over its windows, the exchange of places, opening and pulling.
use std::collections::BTreeMap;
use vstd::prelude::*;

use crate::area::center_rect;
use crate::adopt::{free_rect, not_foreign};
use crate::chain::{chain_compact, chain_of, compact_of, parse_chain};
use crate::config::{Config, ConfigView, Mode};
use crate::desks::{at_desk, desk_get, mviews};
use crate::exprs::{desk_move, focusing, placing, push_desk_move, push_focus, push_place};
use crate::extra::{merged, record_for, remember_extra, share_record};
use crate::home::{absorb_into, actives, actives_of, entry_names_of};
use crate::hypr::{app_of, d_tag, derefs, in_ws, on_hidden, tag_of, ws_tag, Client};
use crate::layout::{claim_owner, open_rect, swap_places};
use crate::lookup::ws_has_app;
use crate::member::{addr_from, find_addr};
use crate::pending::{make_not_described, not_described, Target};
use crate::raise::desk_of;
use crate::rect::PxRect;
use crate::restore::end_restore_wait;
use crate::route::{
    anchor_of, anchor_window, cycle_mode, cycle_step, entry_name, key_route, next_app_window, next_window_of,
    restart_of, route_of, swap_start, walk_of, AppRoute, CycleStep, CycleStepView, Start,
};
use crate::state::{Cycle, CycleView, Moved, MovedView, State, StateView};
use crate::table::{nest_get, nest_put, tab_get, tab_has, tab_put};
use crate::text::{holds, opt_is, opt_str, oview, same, views, Str};
use crate::windows::{
    app_windows, entry_of, first_visible, placed, placed_windows, visible_from, windows_of, ws_app_of,
};

verus! {

broadcast use {crate::text::group_views, crate::hypr::group_derefs};

// ---- Windows that are not hidden ------------------------------------------------

/// Those of the first `n` windows that are not hidden.
pub open spec fn shown_upto(s: Seq<Client>, n: int) -> Seq<Client>
    decreases n,
{
    if n <= 0 {
        Seq::empty()
    } else if on_hidden(s[n - 1]) {
        shown_upto(s, n - 1)
    } else {
        shown_upto(s, n - 1).push(s[n - 1])
    }
}

/// The windows that are not hidden.
pub open spec fn shown(s: Seq<Client>) -> Seq<Client> {
    shown_upto(s, s.len() as int)
}

fn only_shown<'a>(wins: &Vec<&'a Client>) -> (r: Vec<&'a Client>)
    ensures
        derefs(r@) == shown(derefs(wins@)),
{
    let ghost s = derefs(wins@);
    let mut out: Vec<&'a Client> = Vec::new();
    let mut i: usize = 0;
    while i < wins.len()
        invariant
            i <= wins.len(),
            s == derefs(wins@),
            derefs(out@) == shown_upto(s, i as int),
        decreases wins.len() - i,
    {
        assert(s[i as int] == *wins[i as int]);
        if !wins[i].on_hidden() {
            out.push(wins[i]);
        }
        i = i + 1;
    }
    out
}

/// The addresses of windows.
pub open spec fn addresses(s: Seq<Client>) -> Seq<Str> {
    s.map_values(|c: Client| c.address@)
}

fn address_list(wins: &Vec<&Client>) -> (r: Vec<String>)
    ensures
        views(r@) == addresses(derefs(wins@)),
{
    let ghost s = derefs(wins@);
    let ghost a = addresses(s);
    let mut out: Vec<String> = Vec::new();
    let mut i: usize = 0;
    proof {
        assert(a.take(0) =~= Seq::empty());
    }
    while i < wins.len()
        invariant
            i <= wins.len(),
            s == derefs(wins@),
            a == addresses(s),
            views(out@) == a.take(i as int),
        decreases wins.len() - i,
    {
        assert(s[i as int] == *wins[i as int]);
        out.push(wins[i].address.clone());
        proof {
            assert(a.take(i + 1) =~= a.take(i as int).push(a[i as int]));
        }
        i = i + 1;
    }
    proof {
        assert(a.take(a.len() as int) =~= a);
    }
    out
}

// ---- The exchange of places -------------------------------------------------------

impl StateView {
    /// The state and the expressions after the windows from `i` on were put into a rectangle on desktop
    /// `n`.
    pub open spec fn stacked_from(self, ws: Str, wins: Seq<Client>, r: PxRect, n: u8, i: int, ex: Seq<Str>) -> (
        StateView,
        Seq<Str>,
    )
        decreases wins.len() - i,
    {
        if i >= wins.len() {
            (self, ex)
        } else {
            let c = wins[i];
            StateView { geom: nest_put(self.geom, ws, c.address@, r), ..self }.stacked_from(
                ws,
                wins,
                r,
                n,
                i + 1,
                (if desk_of(c) != Some(n) {
                    ex.push(desk_move(c.address@, n))
                } else {
                    ex
                }) + placing(c.address@, r),
            )
        }
    }

    /// The state after a changed place got another owner.
    pub open spec fn owned(self, ws: Str, entry: Str, owner: Option<Client>) -> StateView {
        match (nest_get(self.moved, ws, entry), owner) {
            (Some(m), Some(c)) => StateView {
                moved: nest_put(self.moved, ws, entry, MovedView { rect: m.rect, owner: Some(c.address@) }),
                ..self
            },
            _ => self,
        }
    }

    /// The state and the expressions after the windows of an entry took its place on desktop `n`.
    pub open spec fn settled_entry(
        self,
        cfg: ConfigView,
        ws: Str,
        name: Str,
        clients: Seq<Client>,
        n: u8,
        ex: Seq<Str>,
    ) -> (StateView, Seq<Str>) {
        let one = self.built(cfg, ws);
        match one.place(cfg, ws, name) {
            None => (one, ex),
            Some(r) => {
                let wins = shown(placed(cfg, clients, ws, entry_names_of(cfg, ws), name));
                let (two, ex2) = one.stacked_from(ws, wins, r, n, 0, ex);
                (
                    two.owned(
                        ws,
                        name,
                        if wins.len() > 0 {
                            Some(wins[0])
                        } else {
                            None
                        },
                    ),
                    ex2,
                )
            },
        }
    }

    /// The state and the expressions after an application took the main place of a workspace: it and the
    /// main one exchange their places, and the windows of both take them.
    pub open spec fn swapped_in(
        self,
        cfg: ConfigView,
        ws: Str,
        app: Str,
        clients: Seq<Client>,
        n: u8,
        ex: Seq<Str>,
    ) -> (StateView, Seq<Str>) {
        let one = self.built(cfg, ws);
        let main = one.main_in(cfg, ws);
        let cell = main_cell_of(cfg, ws);
        if main == Some(app) || cell is None {
            (one, ex)
        } else {
            let apps = entry_names_of(cfg, ws);
            let two = one.swapped(
                ws,
                main,
                app,
                cell->0,
                main matches Some(m) && placed(cfg, clients, ws, apps, m).len() > 0,
                placed(cfg, clients, ws, apps, app).len() > 0,
            );
            let (three, ex3) = match main {
                Some(m) => two.settled_entry(cfg, ws, m, clients, n, ex),
                None => (two, ex),
            };
            three.settled_entry(cfg, ws, app, clients, n, ex3)
        }
    }
}

/// The main cell of the template of a workspace.
pub open spec fn main_cell_of(cfg: ConfigView, ws: Str) -> Option<Str> {
    match tab_get(cfg.workspaces, ws) {
        None => None,
        Some(w) => match tab_get(cfg.templates, w.template) {
            None => None,
            Some(t) => Some(t.main),
        },
    }
}

fn main_cell(cfg: &Config, ws: &str) -> (r: Option<String>)
    ensures
        oview(r) == main_cell_of(cfg@, ws@),
{
    match cfg.workspaces.get(ws) {
        None => None,
        Some(w) => match cfg.templates.get(w.template.as_str()) {
            None => None,
            Some(t) => Some(t.main.clone()),
        },
    }
}

fn settle_entry(
    cfg: &Config,
    st: &mut State,
    ws: &str,
    name: &str,
    clients: &[Client],
    n: u8,
    ex: &mut Vec<String>,
)
    ensures
        old(st)@.settled_entry(cfg@, ws@, name@, clients@, n, views(old(ex)@)) == (final(st)@, views(final(ex)@)),
{
    let r = match st.rect_for(cfg, ws, name) {
        Some(r) => r,
        None => return ,
    };
    let apps = cfg.entry_names(ws);
    let all = placed_windows(cfg, clients, ws, apps.as_slice(), name);
    let wins = only_shown(&all);
    let ghost s = derefs(wins@);
    let ghost one = st@;
    let ghost first = views(ex@);
    assert(s.len() == wins.len());
    let mut i: usize = 0;
    while i < wins.len()
        invariant
            i <= wins.len(),
            s == derefs(wins@),
            one.stacked_from(ws@, s, r, n, 0, first) == st@.stacked_from(ws@, s, r, n, i as int, views(ex@)),
        decreases wins.len() - i,
    {
        let c = wins[i];
        assert(s[i as int] == *c);
        if c.desktop() != Some(n) {
            push_desk_move(ex, c.address.as_str(), n);
        }
        push_place(ex, c.address.as_str(), r);
        st.geom.put_nested(ws, c.address.clone(), r);
        i = i + 1;
    }
    let moved = match st.moved.nested(ws, name) {
        Some(m) => Some(m.rect),
        None => None,
    };
    if let Some(rect) = moved {
        if wins.len() > 0 {
            assert(s[0] == *wins[0]);
            st.moved.put_nested(ws, name.to_owned(), Moved { rect, owner: Some(wins[0].address.clone()) });
        }
    }
}

/// Let an application take the main place of a workspace on desktop `n`. Nothing happens if it is the main
/// one or the workspace has no template. The expressions are added to `ex`.
pub fn swap_to_main(
    cfg: &Config,
    st: &mut State,
    ws: &str,
    app: &str,
    clients: &[Client],
    n: u8,
    ex: &mut Vec<String>,
)
    ensures
        old(st)@.swapped_in(cfg@, ws@, app@, clients@, n, views(old(ex)@)) == (final(st)@, views(final(ex)@)),
{
    let main = st.main_app(cfg, ws);
    if opt_is(&main, app) {
        return ;
    }
    let cell = match main_cell(cfg, ws) {
        Some(c) => c,
        None => return ,
    };
    let apps = cfg.entry_names(ws);
    let main_has = match &main {
        Some(m) => {
            let wins = placed_windows(cfg, clients, ws, apps.as_slice(), m.as_str());
            assert(derefs(wins@).len() == wins.len());
            wins.len() > 0
        },
        None => false,
    };
    let own = placed_windows(cfg, clients, ws, apps.as_slice(), app);
    assert(derefs(own@).len() == own.len());
    swap_places(st, ws, opt_str(&main), app, cell.as_str(), main_has, own.len() > 0);
    if let Some(m) = &main {
        settle_entry(cfg, st, ws, m.as_str(), clients, n, ex);
    }
    settle_entry(cfg, st, ws, app, clients, n, ex);
}

impl StateView {
    /// The state and the expressions after a window was chosen: with `swap` its application takes the main
    /// place first.
    pub open spec fn selected(
        self,
        cfg: ConfigView,
        ws: Str,
        addr: Str,
        clients: Seq<Client>,
        swap: bool,
        n: u8,
    ) -> (StateView, Seq<Str>) {
        let i = addr_from(clients, addr, 0);
        let app = if swap && i < clients.len() {
            entry_of(cfg, ws, entry_names_of(cfg, ws), clients[i])
        } else {
            None
        };
        let (one, ex) = match app {
            Some(a) => self.swapped_in(cfg, ws, a, clients, n, Seq::empty()),
            None => (self, Seq::empty()),
        };
        (one, ex + focusing(addr))
    }
}

/// Choose a window: with `swap` its application takes the main place first, then the window gets the focus
/// and comes to the top. Gives the expressions.
pub fn select_window(cfg: &Config, st: &mut State, ws: &str, addr: &str, clients: &[Client], swap: bool, n: u8) -> (r:
    Vec<String>)
    ensures
        old(st)@.selected(cfg@, ws@, addr@, clients@, swap, n) == (final(st)@, views(r@)),
{
    let mut ex: Vec<String> = Vec::new();
    if swap {
        let i: usize = find_addr(clients, addr);
        if i < clients.len() {
            let apps = cfg.entry_names(ws);
            if let Some(app) = ws_app_of(cfg, ws, apps.as_slice(), &clients[i]) {
                swap_to_main(cfg, st, ws, app.as_str(), clients, n, &mut ex);
            }
        }
    }
    push_focus(&mut ex, addr);
    ex
}

// ---- The walk ---------------------------------------------------------------------

/// What a press of the key comes to.
#[derive(Debug)]
pub enum CycleAct {
    /// All windows of the application are hidden: nothing.
    Nothing,
    /// Carry the expressions out.
    Show(Vec<String>),
    /// Carry the expressions out and start the application; its window goes there and gets the focus.
    Launch(Vec<String>, Target),
}

/// What it says.
pub enum CycleActView {
    Nothing,
    Show(Seq<Str>),
    Launch(Seq<Str>, Target),
}

impl View for CycleAct {
    type V = CycleActView;

    open spec fn view(&self) -> CycleActView {
        match self {
            CycleAct::Nothing => CycleActView::Nothing,
            CycleAct::Show(ex) => CycleActView::Show(views(ex@)),
            CycleAct::Launch(ex, t) => CycleActView::Launch(views(ex@), *t),
        }
    }
}

/// Where a window goes that is started for a place.
pub open spec fn place_target(rect: Option<PxRect>) -> Target {
    match rect {
        Some(r) => Target::Place(r),
        None => Target::Free(None),
    }
}

/// The first window of the main application that is not hidden, where the exchange of places applies and
/// the main application is another one.
pub open spec fn main_window_of(
    st: StateView,
    cfg: ConfigView,
    ws: Str,
    entry: Str,
    clients: Seq<Client>,
    swap: bool,
) -> Option<Str> {
    if swap {
        match st.main_in(cfg, ws) {
            Some(m) => if m == entry {
                None
            } else {
                match visible_from(placed(cfg, clients, ws, entry_names_of(cfg, ws), m), 0) {
                    Some(c) => Some(c.address@),
                    None => None,
                }
            },
            None => None,
        }
    } else {
        None
    }
}

/// The window that the walk goes back to: the one put down when it began, as long as it is there and not
/// hidden.
pub open spec fn prev_of(st: StateView, ws: Str, app: Str, clients: Seq<Client>) -> Option<Str> {
    match tab_get(st.cycle, ws) {
        Some(x) => if x.app == app && (x.back matches Some(a) && shown_addr_from(clients, a, 0)) {
            x.back
        } else {
            None
        },
        None => None,
    }
}

/// One of the windows from `i` on has this address and is not hidden.
pub open spec fn shown_addr_from(clients: Seq<Client>, a: Str, i: int) -> bool
    decreases clients.len() - i,
{
    if i >= clients.len() {
        false
    } else {
        (clients[i].address@ == a && !on_hidden(clients[i])) || shown_addr_from(clients, a, i + 1)
    }
}

impl StateView {
    /// The state in which the step of the walk is chosen, and the step; nothing where all windows of the
    /// application are hidden.
    pub open spec fn walked(
        self,
        cfg: ConfigView,
        ws: Str,
        app: Str,
        start: Start,
        clients: Seq<Client>,
        active: Option<Str>,
        n: u8,
    ) -> (StateView, Option<CycleStepView>) {
        let one = self.absorbed(cfg, ws, n, clients);
        let swap = cfg.app_mode(ws, app) == Mode::Swap;
        let entry = entry_name(cfg, ws, app);
        let wins = placed(cfg, clients, ws, entry_names_of(cfg, ws), app);
        let order = addresses(shown(wins));
        if order.len() == 0 && wins.len() > 0 {
            (one, None)
        } else {
            let two = one.built(cfg, ws);
            let is_main = two.main_in(cfg, ws) == Some(entry);
            let on_instance = active matches Some(a) && order.contains(a);
            let restart = if swap && start != Start::Joined {
                restart_of(order, active, is_main)
            } else {
                None
            };
            let three = if start != Start::Continue || !on_instance || restart is Some {
                two.anchored(cfg, ws, app, clients, active)
            } else {
                two
            };
            let step = match restart {
                Some(a) => CycleStepView::Select(a),
                None => walk_of(
                    order,
                    active,
                    start != Start::Continue,
                    prev_of(three, ws, app, clients),
                    next_window_of(cfg, clients, ws, entry),
                ),
            };
            (three, Some(step))
        }
    }

    /// The state once an application is to be started in a workspace, and the start: in the exchange of places
    /// it takes the main place first, and its window comes to the place that it then has.
    pub open spec fn launched(self, cfg: ConfigView, ws: Str, app: Str, clients: Seq<Client>, n: u8) -> (
        StateView,
        CycleActView,
    ) {
        let (one, ex) = if cfg.app_mode(ws, app) == Mode::Swap {
            self.swapped_in(cfg, ws, entry_name(cfg, ws, app), clients, n, Seq::empty())
        } else {
            (self, Seq::empty())
        };
        let two = one.built(cfg, ws);
        (two, CycleActView::Launch(ex, place_target(two.place(cfg, ws, app))))
    }

    /// The state with a new walk begun: the window that it goes back to is put down.
    pub open spec fn anchored(
        self,
        cfg: ConfigView,
        ws: Str,
        app: Str,
        clients: Seq<Client>,
        active: Option<Str>,
    ) -> StateView {
        let swap = cfg.app_mode(ws, app) == Mode::Swap;
        let entry = entry_name(cfg, ws, app);
        let order = addresses(shown(placed(cfg, clients, ws, entry_names_of(cfg, ws), app)));
        StateView {
            cycle: tab_put(
                self.cycle,
                ws,
                CycleView {
                    app,
                    back: anchor_of(
                        cfg,
                        clients,
                        ws,
                        main_window_of(self, cfg, ws, entry, clients, swap),
                        order,
                        active,
                        tab_get(self.focus, ws),
                    ),
                },
            ),
            ..self
        }
    }

    /// The state and the start where a new instance is asked for, whatever windows are open: in a workspace
    /// that describes the application as a walk starts it; in another one at its place there; outside
    /// workspaces at the place that it has by itself.
    pub open spec fn opened_new(
        self,
        cfg: ConfigView,
        ws: Option<Str>,
        app: Str,
        clients: Seq<Client>,
        active: Option<Str>,
        n: u8,
    ) -> (StateView, CycleActView) {
        match ws {
            Some(w) if cfg.ws_has_app(w, app) => self.absorbed(cfg, w, n, clients).built(cfg, w).anchored(
                cfg,
                w,
                app,
                clients,
                active,
            ).launched(cfg, w, app, clients, n),
            _ => (self.opened(cfg, ws), CycleActView::Launch(Seq::empty(), Target::Free(self.open_place(cfg, ws, app)))),
        }
    }

    /// The state and what a press of the key comes to. The whole walk goes by the mode of the application
    /// called. In the exchange of places, choosing an instance means that the application takes the main
    /// place, and so does starting it; only a press that opened or pulled the application chooses without.
    pub open spec fn cycled(
        self,
        cfg: ConfigView,
        ws: Str,
        app: Str,
        start: Start,
        clients: Seq<Client>,
        active: Option<Str>,
        n: u8,
    ) -> (StateView, CycleActView) {
        let (one, step) = self.walked(cfg, ws, app, start, clients, active, n);
        let swap = cfg.app_mode(ws, app) == Mode::Swap;
        match step {
            None => (one, CycleActView::Nothing),
            Some(CycleStepView::Launch) => one.launched(cfg, ws, app, clients, n),
            Some(CycleStepView::Select(a)) => {
                let (two, ex) = one.selected(cfg, ws, a, clients, swap && start != Start::Joined, n);
                (two, CycleActView::Show(ex))
            },
            Some(CycleStepView::Back(a)) => {
                let (two, ex) = one.selected(cfg, ws, a, clients, swap, n);
                (two, CycleActView::Show(ex))
            },
            Some(CycleStepView::NextApp(a)) => {
                let (two, ex) = one.selected(cfg, ws, a, clients, swap, n);
                (two, CycleActView::Show(ex))
            },
        }
    }
}

fn shown_addr(clients: &[Client], a: &str) -> (r: bool)
    ensures
        r == shown_addr_from(clients@, a@, 0),
{
    let mut i: usize = 0;
    while i < clients.len()
        invariant
            i <= clients.len(),
            shown_addr_from(clients@, a@, 0) == shown_addr_from(clients@, a@, i as int),
        decreases clients.len() - i,
    {
        if same(clients[i].address.as_str(), a) && !clients[i].on_hidden() {
            return true;
        }
        i = i + 1;
    }
    false
}

fn main_window(cfg: &Config, main: &Option<String>, ws: &str, entry: &str, clients: &[Client]) -> (r: Option<String>)
    ensures
        oview(r) == match oview(*main) {
            Some(m) => if m == entry@ {
                None
            } else {
                match visible_from(placed(cfg@, clients@, ws@, entry_names_of(cfg@, ws@), m), 0) {
                    Some(c) => Some(c.address@),
                    None => None,
                }
            },
            None => None,
        },
{
    match main {
        None => None,
        Some(m) => if same(m.as_str(), entry) {
            None
        } else {
            let apps = cfg.entry_names(ws);
            let wins = placed_windows(cfg, clients, ws, apps.as_slice(), m.as_str());
            match first_visible(&wins) {
                Some(c) => Some(c.address.clone()),
                None => None,
            }
        },
    }
}

fn find_prev(st: &State, ws: &str, app: &str, clients: &[Client]) -> (r: Option<String>)
    ensures
        oview(r) == prev_of(st@, ws@, app@, clients@),
{
    match st.cycle.get(ws) {
        None => None,
        Some(x) => {
            if !same(x.app.as_str(), app) {
                return None;
            }
            match &x.back {
                None => None,
                Some(a) => if shown_addr(clients, a.as_str()) {
                    Some(a.clone())
                } else {
                    None
                },
            }
        },
    }
}

fn put_anchor(
    cfg: &Config,
    st: &mut State,
    ws: &str,
    app: &str,
    entry: &str,
    swap: bool,
    main: &Option<String>,
    order: &[String],
    clients: &[Client],
    active: Option<&str>,
)
    requires
        swap == (cfg@.app_mode(ws@, app@) == Mode::Swap),
        entry@ == entry_name(cfg@, ws@, app@),
        oview(*main) == old(st)@.main_in(cfg@, ws@),
        views(order@) == addresses(shown(placed(cfg@, clients@, ws@, entry_names_of(cfg@, ws@), app@))),
    ensures
        final(st)@ == old(st)@.anchored(cfg@, ws@, app@, clients@, oview(active)),
{
    let first = if swap {
        main_window(cfg, main, ws, entry, clients)
    } else {
        None
    };
    let focus = match st.focus.get(ws) {
        Some(a) => Some(a.as_str()),
        None => None,
    };
    let back = anchor_window(cfg, clients, ws, opt_str(&first), order, active, focus);
    st.cycle.insert(ws.to_owned(), Cycle { app: app.to_owned(), back });
}

fn launch(cfg: &Config, st: &mut State, ws: &str, app: &str, entry: &str, swap: bool, clients: &[Client], n: u8) -> (r: CycleAct)
    requires
        swap == (cfg@.app_mode(ws@, app@) == Mode::Swap),
        entry@ == entry_name(cfg@, ws@, app@),
    ensures
        old(st)@.launched(cfg@, ws@, app@, clients@, n) == (final(st)@, r@),
{
    let mut ex: Vec<String> = Vec::new();
    if swap {
        swap_to_main(cfg, st, ws, entry, clients, n, &mut ex);
    }
    let target = match st.rect_for(cfg, ws, app) {
        Some(r) => Target::Place(r),
        None => Target::Free(None),
    };
    CycleAct::Launch(ex, target)
}

fn walk(
    cfg: &Config,
    st: &mut State,
    ws: &str,
    app: &str,
    entry: &str,
    swap: bool,
    start: Start,
    clients: &[Client],
    active: Option<&str>,
    n: u8,
) -> (r: Option<CycleStep>)
    requires
        swap == (cfg@.app_mode(ws@, app@) == Mode::Swap),
        entry@ == entry_name(cfg@, ws@, app@),
    ensures
        old(st)@.walked(cfg@, ws@, app@, start, clients@, oview(active), n) == (final(st)@, oview(r)),
{
    absorb_into(cfg, st, ws, n, clients);
    let apps = cfg.entry_names(ws);
    let wins = placed_windows(cfg, clients, ws, apps.as_slice(), app);
    let visible = only_shown(&wins);
    let order = address_list(&visible);
    assert(derefs(wins@).len() == wins.len());
    assert(views(order@).len() == order.len());
    if order.len() == 0 && wins.len() > 0 {
        return None;
    }
    let main = st.main_app(cfg, ws);
    let on_instance = match active {
        Some(a) => holds(order.as_slice(), a),
        None => false,
    };
    let restart = if swap && start != Start::Joined {
        swap_start(order.as_slice(), active, opt_is(&main, entry))
    } else {
        None
    };
    let fresh = start != Start::Continue;
    if fresh || !on_instance || restart.is_some() {
        put_anchor(cfg, st, ws, app, entry, swap, &main, order.as_slice(), clients, active);
    }
    if let Some(a) = restart {
        return Some(CycleStep::Select(a));
    }
    let prev = find_prev(st, ws, app, clients);
    let next = next_app_window(cfg, clients, ws, entry);
    Some(cycle_step(order.as_slice(), active, fresh, opt_str(&prev), opt_str(&next)))
}

/// A press of the key of an application in a workspace of desktop `n`, the one of the user. `start` says
/// whether the walk begins anew, `active` is the active window. The layout is read before the step is
/// chosen: a window that the user moved gives its rectangle to the place of its application.
pub fn cycle(
    cfg: &Config,
    st: &mut State,
    ws: &str,
    app: &str,
    start: Start,
    clients: &[Client],
    active: Option<&str>,
    n: u8,
) -> (r: CycleAct)
    ensures
        old(st)@.cycled(cfg@, ws@, app@, start, clients@, oview(active), n) == (final(st)@, r@),
{
    let (mode, entry) = cycle_mode(cfg, ws, app);
    let swap = mode == Mode::Swap;
    match walk(cfg, st, ws, app, entry.as_str(), swap, start, clients, active, n) {
        None => CycleAct::Nothing,
        Some(CycleStep::Launch) => launch(cfg, st, ws, app, entry.as_str(), swap, clients, n),
        Some(CycleStep::Select(a)) => CycleAct::Show(
            select_window(cfg, st, ws, a.as_str(), clients, swap && start != Start::Joined, n),
        ),
        Some(CycleStep::Back(a)) => CycleAct::Show(select_window(cfg, st, ws, a.as_str(), clients, swap, n)),
        Some(CycleStep::NextApp(a)) => CycleAct::Show(select_window(cfg, st, ws, a.as_str(), clients, swap, n)),
    }
}

/// Start a new instance of an application in place of the walk over its windows: in workspace `ws` of desktop
/// `n`, or outside workspaces. `active` is the active window.
pub fn open_new(
    cfg: &Config,
    st: &mut State,
    ws: Option<&str>,
    app: &str,
    clients: &[Client],
    active: Option<&str>,
    n: u8,
) -> (r: CycleAct)
    ensures
        r@ is Launch,
        old(st)@.opened_new(cfg@, oview(ws), app@, clients@, oview(active), n) == (final(st)@, r@),
{
    if let Some(w) = ws {
        if ws_has_app(cfg, w, app) {
            let (mode, entry) = cycle_mode(cfg, w, app);
            let swap = mode == Mode::Swap;
            absorb_into(cfg, st, w, n, clients);
            let apps = cfg.entry_names(w);
            let wins = placed_windows(cfg, clients, w, apps.as_slice(), app);
            let visible = only_shown(&wins);
            let order = address_list(&visible);
            let main = st.main_app(cfg, w);
            put_anchor(cfg, st, w, app, entry.as_str(), swap, &main, order.as_slice(), clients, active);
            return launch(cfg, st, w, app, entry.as_str(), swap, clients, n);
        }
    }
    let ex: Vec<String> = Vec::new();
    let rect = open_rect(st, cfg, ws, app);
    proof {
        assert(views(ex@) =~= Seq::empty());
    }
    CycleAct::Launch(ex, Target::Free(rect))
}

/// What a press of the key of an application outside workspaces comes to: the first window after the last.
/// Windows that are all hidden are shown, the first of them on desktop `n`.
pub open spec fn free_walk(cfg: ConfigView, clients: Seq<Client>, active: Option<Str>, app: Str, n: u8) -> CycleActView {
    let wins = windows_of(cfg, clients, app);
    let order = addresses(shown(wins));
    if order.len() == 0 && wins.len() > 0 {
        CycleActView::Show(seq![desk_move(wins[0].address@, n)] + focusing(wins[0].address@))
    } else {
        match walk_of(order, active, false, None, None) {
            CycleStepView::Launch => CycleActView::Launch(
                Seq::empty(),
                Target::Free(crate::state::own_rect(cfg, app)),
            ),
            CycleStepView::Select(a) => CycleActView::Show(focusing(a)),
            CycleStepView::Back(a) => CycleActView::Show(focusing(a)),
            CycleStepView::NextApp(a) => CycleActView::Show(focusing(a)),
        }
    }
}

/// A press of the key of an application outside workspaces.
pub fn cycle_free(cfg: &Config, clients: &[Client], active: Option<&str>, app: &str, n: u8) -> (r: CycleAct)
    ensures
        r@ == free_walk(cfg@, clients@, oview(active), app@, n),
{
    let wins = app_windows(cfg, clients, app);
    let visible = only_shown(&wins);
    let order = address_list(&visible);
    let mut ex: Vec<String> = Vec::new();
    let ghost s = derefs(wins@);
    assert(s.len() == wins.len());
    assert(views(order@).len() == order.len());
    if order.len() == 0 && wins.len() > 0 {
        assert(s[0] == *wins[0]);
        push_desk_move(&mut ex, wins[0].address.as_str(), n);
        push_focus(&mut ex, wins[0].address.as_str());
        proof {
            assert(views(ex@) =~= seq![desk_move(s[0].address@, n)] + focusing(s[0].address@));
        }
        return CycleAct::Show(ex);
    }
    match cycle_step(order.as_slice(), active, false, None, None) {
        CycleStep::Launch => CycleAct::Launch(ex, Target::Free(State::app_rect(cfg, app))),
        CycleStep::Select(a) | CycleStep::Back(a) | CycleStep::NextApp(a) => {
            push_focus(&mut ex, a.as_str());
            proof {
                assert(views(ex@) =~= focusing(a@));
            }
            CycleAct::Show(ex)
        },
    }
}

// ---- Opening and pulling ------------------------------------------------------------

/// Those of the first `n` windows that belong to a workspace.
pub open spec fn of_ws(s: Seq<Client>, ws: Str) -> Seq<Client> {
    crate::windows::members(s, ws)
}

/// The windows to bring: all that are not hidden when the application is pulled, else those of the workspace
/// where there are any.
pub open spec fn taken(cfg: ConfigView, clients: Seq<Client>, ws: Str, app: Str, pull: bool) -> Seq<Client> {
    let own = shown(windows_of(cfg, clients, app));
    if pull || of_ws(own, ws).len() == 0 {
        own
    } else {
        of_ws(own, ws)
    }
}

fn take_windows<'a>(cfg: &Config, clients: &'a [Client], ws: &str, app: &str, pull: bool) -> (r: Vec<&'a Client>)
    ensures
        derefs(r@) == taken(cfg@, clients@, ws@, app@, pull),
{
    let all = app_windows(cfg, clients, app);
    let own = only_shown(&all);
    let ghost s = derefs(own@);
    let mut inside: Vec<&'a Client> = Vec::new();
    let mut i: usize = 0;
    while i < own.len()
        invariant
            i <= own.len(),
            s == derefs(own@),
            derefs(inside@) == crate::windows::members_upto(s, ws@, i as int),
        decreases own.len() - i,
    {
        assert(s[i as int] == *own[i as int]);
        if own[i].in_ws(ws) {
            inside.push(own[i]);
        }
        i = i + 1;
    }
    assert(derefs(inside@).len() == inside.len());
    if pull || inside.len() == 0 {
        own
    } else {
        inside
    }
}

impl StateView {
    /// The state and the expressions after the windows from `i` on were brought into a workspace of desktop
    /// `n`.
    pub open spec fn brought_from(
        self,
        cfg: ConfigView,
        ws: Str,
        before: Map<u8, Str>,
        take: Seq<Client>,
        rect: PxRect,
        clients: Seq<Client>,
        n: u8,
        i: int,
        ex: Seq<Str>,
    ) -> (StateView, Seq<Str>)
        decreases take.len() - i,
    {
        if i >= take.len() {
            (self, ex)
        } else {
            let c = take[i];
            let one = if desk_of(c) != Some(n) {
                match desk_of(c) {
                    Some(k) => match at_desk(before, k) {
                        Some(v) => if v != ws && in_ws(c, v) {
                            self.absorbed(cfg, v, k, clients)
                        } else {
                            self
                        },
                        None => self,
                    },
                    None => self,
                }
            } else {
                self
            };
            let two = StateView { geom: nest_put(one.geom, ws, c.address@, rect), ..one };
            let ex1 = if in_ws(c, ws) {
                ex
            } else {
                ex.push(tag_of(c.address@, "ws:"@ + ws))
            };
            let ex2 = if desk_of(c) != Some(n) {
                ex1.push(desk_move(c.address@, n))
            } else {
                ex1
            };
            not_foreign(two, c.address@).brought_from(
                cfg,
                ws,
                before,
                take,
                rect,
                clients,
                n,
                i + 1,
                ex2 + placing(c.address@, rect),
            )
        }
    }
}

/// What came of bringing an application into a workspace.
#[derive(Debug)]
pub enum Bring {
    /// It has no windows: it is to be started, and its window goes there.
    Launch(Target),
    /// Carry the expressions out; then the walk over its windows begins.
    Windows(Vec<String>),
}

/// What it says, with the configuration and the state after it.
pub enum BringView {
    Launch(Target),
    Windows(Seq<Str>),
    /// The application cannot be described in the workspace.
    Fault(Str),
}

/// The fault of an application that cannot be described in a workspace.
pub open spec fn cannot_describe(app: Str, ws: Str) -> Str {
    "приложение "@ + app + ": нечем описать его в workspace "@ + ws
}

/// What comes of bringing an application into the active workspace of desktop `n`: without windows it is
/// started. Else its windows enter the workspace, which gets a record of it if it does not describe it, and
/// stand on the place of the application.
pub open spec fn brought(
    cfg: ConfigView,
    file: ConfigView,
    st: StateView,
    ws: Str,
    app: Str,
    pull: bool,
    clients: Seq<Client>,
    n: u8,
    mon: (i32, i32),
) -> (ConfigView, StateView, BringView) {
    let take = taken(cfg, clients, ws, app, pull);
    let place = st.open_place(cfg, Some(ws), app);
    let one = st.opened(cfg, Some(ws));
    if take.len() == 0 {
        (cfg, one, BringView::Launch(Target::Free(place)))
    } else {
        let rect = free_rect(place, take[0], mon);
        if cfg.ws_has_app(ws, app) {
            let (two, ex) = one.brought_from(
                cfg,
                ws,
                actives_of(one.desktops),
                take,
                rect,
                clients,
                n,
                0,
                Seq::empty(),
            );
            (cfg, two.claimed(cfg, ws, app, take[0].address@), BringView::Windows(ex))
        } else {
            match record_for(file, one.extra, app, rect) {
                None => (cfg, one, BringView::Fault(cannot_describe(app, ws))),
                Some(e) => {
                    let two = StateView { extra: nest_put(one.extra, ws, app, e), ..one };
                    let cfg2 = merged(file, two.extra).0;
                    let three = two.rebuilt(file);
                    let (four, ex) = three.brought_from(
                        cfg2,
                        ws,
                        actives_of(three.desktops),
                        take,
                        rect,
                        clients,
                        n,
                        0,
                        Seq::empty(),
                    );
                    (cfg2, four.claimed(cfg, ws, app, take[0].address@), BringView::Windows(ex))
                },
            }
        }
    }
}

fn bring_window(
    cfg: &Config,
    st: &mut State,
    ws: &str,
    before: &BTreeMap<u8, String>,
    c: &Client,
    rect: PxRect,
    clients: &[Client],
    n: u8,
    ex: &mut Vec<String>,
)
    ensures
        old(st)@.brought_from(cfg@, ws@, mviews(before@), seq![*c], rect, clients@, n, 0, views(old(ex)@)) == (
            final(st)@,
            views(final(ex)@),
        ),
{
    if !c.in_ws(ws) {
        ex.push(d_tag(c.address.as_str(), ws_tag(ws).as_str()));
    }
    if c.desktop() != Some(n) {
        if let Some(k) = c.desktop() {
            if let Some(v) = desk_get(before, k) {
                if !same(v.as_str(), ws) && c.in_ws(v.as_str()) {
                    absorb_into(cfg, st, v.as_str(), k, clients);
                }
            }
        }
        push_desk_move(ex, c.address.as_str(), n);
    }
    push_place(ex, c.address.as_str(), rect);
    st.geom.put_nested(ws, c.address.clone(), rect);
    st.foreign.remove(c.address.as_str());
    proof {
        reveal_with_fuel(StateView::brought_from, 2);
    }
}

fn bring_windows(
    cfg: &Config,
    st: &mut State,
    ws: &str,
    take: &Vec<&Client>,
    rect: PxRect,
    clients: &[Client],
    n: u8,
) -> (r: Vec<String>)
    ensures
        old(st)@.brought_from(
            cfg@,
            ws@,
            actives_of(old(st)@.desktops),
            derefs(take@),
            rect,
            clients@,
            n,
            0,
            Seq::empty(),
        ) == (final(st)@, views(r@)),
{
    let before = actives(st);
    let ghost b = mviews(before@);
    let ghost s = derefs(take@);
    let mut ex: Vec<String> = Vec::new();
    let mut i: usize = 0;
    while i < take.len()
        invariant
            i <= take.len(),
            s == derefs(take@),
            b == mviews(before@),
            old(st)@.brought_from(cfg@, ws@, b, s, rect, clients@, n, 0, Seq::empty()) == st@.brought_from(
                cfg@,
                ws@,
                b,
                s,
                rect,
                clients@,
                n,
                i as int,
                views(ex@),
            ),
        decreases take.len() - i,
    {
        assert(s[i as int] == *take[i as int]);
        let ghost st0 = st@;
        let ghost ex0 = views(ex@);
        bring_window(cfg, st, ws, &before, take[i], rect, clients, n, &mut ex);
        proof {
            reveal_with_fuel(StateView::brought_from, 2);
        }
        i = i + 1;
    }
    ex
}

/// Bring an application into the active workspace of desktop `n`: open it there, or with `pull` pull its
/// windows in. It fails where the workspace does not describe the application and nothing can describe it.
pub fn bring(
    cfg: &mut Config,
    file: &Config,
    st: &mut State,
    ws: &str,
    app: &str,
    pull: bool,
    clients: &[Client],
    n: u8,
    mon: (i32, i32),
) -> (r: Result<Bring, String>)
    ensures
        brought(old(cfg)@, file@, old(st)@, ws@, app@, pull, clients@, n, mon) == (
            final(cfg)@,
            final(st)@,
            match r {
                Ok(Bring::Launch(t)) => BringView::Launch(t),
                Ok(Bring::Windows(ex)) => BringView::Windows(views(ex@)),
                Err(e) => BringView::Fault(e@),
            },
        ),
{
    let take = take_windows(cfg, clients, ws, app, pull);
    let ghost s = derefs(take@);
    assert(s.len() == take.len());
    let place = open_rect(st, cfg, Some(ws), app);
    if take.len() == 0 {
        return Ok(Bring::Launch(Target::Free(place)));
    }
    assert(s[0] == *take[0]);
    let rect = match place {
        Some(r) => r,
        None => center_rect(take[0], mon),
    };
    if ws_has_app(cfg, ws, app) {
        let ex = bring_windows(cfg, st, ws, &take, rect, clients, n);
        claim_owner(st, cfg, ws, app, take[0].address.as_str());
        return Ok(Bring::Windows(ex));
    }
    match share_record(file, &st.extra, app, rect) {
        None => {
            let mut m = "приложение ".to_owned();
            m.append(app);
            m.append(": нечем описать его в workspace ");
            m.append(ws);
            Err(m)
        },
        Some(e) => {
            let fresh = remember_extra(file, st, ws, app, e);
            let ex = bring_windows(&fresh, st, ws, &take, rect, clients, n);
            claim_owner(st, cfg, ws, app, take[0].address.as_str());
            *cfg = fresh;
            Ok(Bring::Windows(ex))
        },
    }
}

// ---- Commands -------------------------------------------------------------------------

/// The first of the applications from `i` on that the configuration does not have.
pub open spec fn first_unknown(cfg: ConfigView, apps: Seq<Str>, i: int) -> Option<Str>
    decreases apps.len() - i,
{
    if i >= apps.len() {
        None
    } else if tab_has(cfg.apps, apps[i]) {
        first_unknown(cfg, apps, i + 1)
    } else {
        Some(apps[i])
    }
}

/// The state after waiting for windows of the applications from `i` on was given up.
pub open spec fn all_waits_ended(st: StateView, apps: Seq<Str>, i: int) -> StateView
    decreases apps.len() - i,
{
    if i >= apps.len() {
        st
    } else {
        all_waits_ended(st.wait_ended(Some(apps[i]), false), apps, i + 1)
    }
}

/// The command that calls applications: it fails where the configuration does not have one of them, else
/// nothing waits for windows that they open by themselves any more.
pub fn app(cfg: &Config, st: &mut State, apps: &[String]) -> (r: Result<(), String>)
    ensures
        match r {
            Ok(_) => first_unknown(cfg@, views(apps@), 0) is None && final(st)@ == all_waits_ended(
                old(st)@,
                views(apps@),
                0,
            ),
            Err(e) => first_unknown(cfg@, views(apps@), 0) matches Some(a) && e@ == not_described(a) && final(st)@
                == old(st)@,
        },
{
    let ghost s = views(apps@);
    let mut i: usize = 0;
    while i < apps.len()
        invariant
            i <= apps.len(),
            s == views(apps@),
            st@ == old(st)@,
            first_unknown(cfg@, s, 0) == first_unknown(cfg@, s, i as int),
        decreases apps.len() - i,
    {
        assert(s[i as int] == apps@[i as int]@);
        if !cfg.apps.contains_key(apps[i].as_str()) {
            return Err(make_not_described(apps[i].as_str()));
        }
        i = i + 1;
    }
    let mut k: usize = 0;
    while k < apps.len()
        invariant
            k <= apps.len(),
            s == views(apps@),
            all_waits_ended(old(st)@, s, 0) == all_waits_ended(st@, s, k as int),
        decreases apps.len() - k,
    {
        assert(s[k as int] == apps@[k as int]@);
        let _ = end_restore_wait(st, Some(apps[k].as_str()), false);
        k = k + 1;
    }
    Ok(())
}

/// The applications of those of the first `k` windows that belong to a workspace.
pub open spec fn tagged_upto(clients: Seq<Client>, ws: Str, k: int) -> Seq<Str>
    decreases k,
{
    if k <= 0 {
        Seq::empty()
    } else {
        match app_of(clients[k - 1]) {
            Some(a) => if in_ws(clients[k - 1], ws) {
                tagged_upto(clients, ws, k - 1).push(a)
            } else {
                tagged_upto(clients, ws, k - 1)
            },
            None => tagged_upto(clients, ws, k - 1),
        }
    }
}

/// The applications of the windows that belong to the active workspace of a desktop: a key leads to a
/// window where it is.
pub fn tagged_in_active(st: &State, clients: &[Client], n: u8) -> (r: Vec<String>)
    ensures
        views(r@) == match st@.active_on(n) {
            Some(w) => tagged_upto(clients@, w, clients.len() as int),
            None => Seq::empty(),
        },
{
    let mut out: Vec<String> = Vec::new();
    let ws = match st.active_on(n) {
        Some(w) => w,
        None => return out,
    };
    let mut i: usize = 0;
    while i < clients.len()
        invariant
            i <= clients.len(),
            views(out@) == tagged_upto(clients@, ws@, i as int),
        decreases clients.len() - i,
    {
        if let Some(a) = clients[i].app() {
            if clients[i].in_ws(ws.as_str()) {
                out.push(a);
            }
        }
        i = i + 1;
    }
    out
}

/// The route of a key pressed on desktop `n`, or the fault of the chain. Nothing waits for windows that the
/// application opens by itself any more.
pub fn key(cfg: &Config, st: &mut State, chain: &str, n: u8, tagged: &[String]) -> (r: Result<Option<AppRoute>, String>)
    ensures
        match chain_of(chain@) {
            Err(e) => r matches Err(x) && x@ == e && final(st)@ == old(st)@,
            Ok(c) => {
                let route = route_of(cfg@, old(st)@.desktops, n, compact_of(c), views(tagged@));
                &&& r matches Ok(x) && oview(x) == route
                &&& final(st)@ == match route {
                    Some(a) => old(st)@.wait_ended(Some(a.called()), false),
                    None => old(st)@,
                }
            },
        },
{
    let parsed = match parse_chain(chain) {
        Ok(c) => c,
        Err(e) => return Err(e),
    };
    let compact = chain_compact(&parsed);
    let route = key_route(cfg, &st.desktops, n, compact.as_str(), tagged);
    if let Some(a) = &route {
        let name = a.app();
        let _ = end_restore_wait(st, Some(name.as_str()), false);
    }
    Ok(route)
}

} // verus!
