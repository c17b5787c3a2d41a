//! What the daemon does on events of the compositor and on commands about the desktop of the user.
use vstd::prelude::*;

use crate::config::{Config, ConfigView};
use crate::desks::{desk_put, desk_take};
use crate::desktop::{move_step, next_of, next_ws, successor, successor_of, MoveStep};
use crate::exprs::{desk_move, focusing, placing, placing_opt, push_desk_move, push_focus, push_place, push_place_opt};
use crate::home::{entry_names_of, follow_plan, geom_view, FollowView};
use crate::hypr::{d_float_on, d_raise, derefs, desk_number, float_of, parse_desk, raise_of, rect_of, stable_of, Client};
use crate::layout::arrange_layout;
use crate::raise::desk_of;
use crate::rect::PxRect;
use crate::state::{Cycle, CycleView, Desktop, State, StateView};
use crate::table::{nest_forget, nest_put, tab_del, tab_get, tab_masked, tab_put, tab_unlike, Dup, Table};
use crate::text::{dec, holds, opt_is, opt_str, oview, push_dec, views, Str};
use crate::windows::{entry_of, members, odref, ws_app_of, ws_windows};

verus! {

broadcast use {crate::text::group_views, crate::hypr::group_derefs};

// ---- A window closes --------------------------------------------------------------

/// The walks of the workspaces from the first to the `n`th, without one as the window to go back to.
pub open spec fn walks_without(s: Seq<(Str, CycleView)>, addr: Str, n: int) -> Seq<(Str, CycleView)>
    decreases n,
{
    if n <= 0 {
        s
    } else {
        let t = walks_without(s, addr, n - 1);
        if s[n - 1].1.back == Some(addr) {
            tab_put(t, s[n - 1].0, CycleView { app: s[n - 1].1.app, back: None })
        } else {
            t
        }
    }
}

impl StateView {
    /// The state after a window was forgotten: its rectangles, the focus it had, and the walks that go
    /// back to it.
    pub open spec fn forgot(self, addr: Str) -> StateView {
        StateView {
            geom: nest_forget(self.geom, addr),
            focus: tab_unlike(self.focus, addr),
            cycle: walks_without(self.cycle, addr, self.cycle.len() as int),
            ..self
        }
    }
}

/// Forget a window that was closed: its rectangles, the focus it had, and the walks that go back to it.
pub fn forget_window(st: &mut State, addr: &str)
    ensures
        final(st)@ == old(st)@.forgot(addr@),
{
    st.geom.forget(addr);
    st.focus.remove_value(addr);
    let walks = st.cycle.dup();
    let ghost s = walks@;
    let n: usize = walks.len();
    let mut i: usize = 0;
    while i < n
        invariant
            i <= n,
            n == s.len(),
            s == walks@,
            s == old(st)@.cycle,
            st@ == (StateView {
                geom: nest_forget(old(st)@.geom, addr@),
                focus: tab_unlike(old(st)@.focus, addr@),
                cycle: walks_without(s, addr@, i as int),
                ..old(st)@
            }),
        decreases n - i,
    {
        let x = walks.at(i);
        if opt_is(&x.back, addr) {
            st.cycle.insert(walks.key(i).clone(), Cycle { app: x.app.clone(), back: None });
        }
        i = i + 1;
    }
}

/// A window was closed: it is no longer one of no application, and it is forgotten.
pub fn on_close(st: &mut State, addr: &str)
    ensures
        final(st)@ == (StateView { foreign: tab_del(old(st)@.foreign, addr@), ..old(st)@ }).forgot(addr@),
{
    st.foreign.remove(addr);
    forget_window(st, addr);
}

// ---- The focus and the desktop of the user ------------------------------------------

/// The state after a window got the focus: the last one of its workspace.
pub open spec fn focused(cfg: ConfigView, st: StateView, c: Client) -> StateView {
    match desk_of(c) {
        None => st,
        Some(n) => match st.active_on(n) {
            None => st,
            Some(w) => if entry_of(cfg, w, entry_names_of(cfg, w), c) is Some {
                StateView { focus: tab_put(st.focus, w, c.address@), ..st }
            } else {
                st
            },
        },
    }
}

/// A window got the focus: it is put down as the last one of the workspace active on its desktop, if it
/// belongs to it.
pub fn on_focus(cfg: &Config, st: &mut State, c: &Client)
    ensures
        final(st)@ == focused(cfg@, old(st)@, *c),
{
    let n: u8 = match c.desktop() {
        Some(n) => n,
        None => return ,
    };
    let ws = match st.active_on(n) {
        Some(w) => w,
        None => return ,
    };
    let apps = cfg.entry_names(ws.as_str());
    if ws_app_of(cfg, ws.as_str(), apps.as_slice(), c).is_some() {
        st.focus.insert(ws, c.address.clone());
    }
}

/// The user came to a desktop: its number, and the workspace that waited for it there, which waits no
/// longer. Nothing for a place that is no desktop.
pub fn on_workspace(st: &mut State, name: &str) -> (r: Option<(u8, Option<String>)>)
    ensures
        match desk_number(name@) {
            None => r is None && final(st)@ == old(st)@,
            Some(n) => {
                &&& r matches Some((k, w)) && k == n && oview(w) == crate::desks::at_desk(old(st)@.lazy, n)
                &&& final(st)@ == (StateView { lazy: old(st)@.lazy.remove(n), ..old(st)@ })
            },
        },
{
    match parse_desk(name) {
        None => None,
        Some(n) => {
            let w = desk_take(&mut st.lazy, n);
            Some((n, w))
        },
    }
}

/// The desktop of the user: the one that the compositor names, else the one known before.
pub fn sync_current(live: Option<&str>, current: u8) -> (r: u8)
    ensures
        r == match oview(live) {
            Some(name) => match desk_number(name) {
                Some(n) => n,
                None => current,
            },
            None => current,
        },
{
    match live {
        Some(name) => match parse_desk(name) {
            Some(n) => n,
            None => current,
        },
        None => current,
    }
}

// ---- Windows that follow the user ---------------------------------------------------

/// The kept rectangles with those of the windows from `i` on that follow.
pub open spec fn followed_geom(
    g: Seq<(Str, Seq<(Str, PxRect)>)>,
    ws: Str,
    plan: Seq<FollowView>,
    i: int,
) -> Seq<(Str, Seq<(Str, PxRect)>)>
    decreases plan.len() - i,
{
    if i >= plan.len() {
        g
    } else {
        followed_geom(
            nest_put(
                g,
                ws,
                plan[i].addr,
                match plan[i].rect {
                    Some(r) => r,
                    None => plan[i].now,
                },
            ),
            ws,
            plan,
            i + 1,
        )
    }
}

/// The expressions by which the first `k` windows follow the user to desktop `n`.
pub open spec fn following(plan: Seq<FollowView>, n: u8, k: int) -> Seq<Str>
    decreases k,
{
    if k <= 0 {
        Seq::empty()
    } else {
        following(plan, n, k - 1).push(desk_move(plan[k - 1].addr, n)) + placing_opt(
            plan[k - 1].addr,
            plan[k - 1].rect,
        )
    }
}

/// The state and the expressions after the windows of the active workspace followed the user to desktop
/// `n`. The focus stays, and the active window stays on top.
pub open spec fn follow_of(
    cfg: ConfigView,
    st: StateView,
    clients: Seq<Client>,
    n: u8,
    active: Option<Client>,
) -> (StateView, Seq<Str>) {
    let (one, plan) = st.followed(cfg, clients, n);
    match one.active_on(n) {
        None => (one, Seq::empty()),
        Some(ws) => if plan.len() == 0 {
            (one, Seq::empty())
        } else {
            (
                StateView { geom: followed_geom(one.geom, ws, plan, 0), ..one },
                following(plan, n, plan.len() as int) + match active {
                    Some(c) => if desk_of(c) == Some(n) {
                        seq![raise_of(c.address@)]
                    } else {
                        Seq::empty()
                    },
                    None => Seq::empty(),
                },
            )
        },
    }
}

/// Let the windows of the active workspace of desktop `n` follow the user there, into the state kept for the
/// workspace. `active` is the active window. Gives the expressions.
pub fn follow(cfg: &Config, st: &mut State, clients: &[Client], n: u8, active: Option<&Client>) -> (r: Vec<String>)
    ensures
        follow_of(cfg@, old(st)@, clients@, n, odref(active)) == (final(st)@, views(r@)),
{
    let plan = follow_plan(st, cfg, clients, n);
    let ghost p = views(plan@);
    assert(p.len() == plan.len());
    let mut ex: Vec<String> = Vec::new();
    let ws = match st.active_on(n) {
        Some(w) => w,
        None => return ex,
    };
    if plan.len() == 0 {
        return ex;
    }
    let ghost one = st@;
    let mut i: usize = 0;
    while i < plan.len()
        invariant
            i <= plan.len(),
            p == views(plan@),
            st@ == (StateView { geom: st@.geom, ..one }),
            followed_geom(one.geom, ws@, p, 0) == followed_geom(st@.geom, ws@, p, i as int),
            views(ex@) == following(p, n, i as int),
        decreases plan.len() - i,
    {
        let f = &plan[i];
        assert(p[i as int] == f@);
        push_desk_move(&mut ex, f.addr.as_str(), n);
        push_place_opt(&mut ex, f.addr.as_str(), f.rect);
        let r = match f.rect {
            Some(r) => r,
            None => f.now,
        };
        st.geom.put_nested(ws.as_str(), f.addr.clone(), r);
        i = i + 1;
    }
    let ghost mid = views(ex@);
    if let Some(c) = active {
        if c.desktop() == Some(n) {
            ex.push(d_raise(c.address.as_str()));
            proof {
                assert(views(ex@) =~= mid + seq![raise_of(c.address@)]);
            }
            return ex;
        }
    }
    proof {
        assert(views(ex@) =~= mid + Seq::<Str>::empty());
    }
    ex
}

// ---- Arranging ----------------------------------------------------------------------

/// The place from `i` on at which a window comes into a list ordered by the time of appearance.
pub open spec fn age_place(s: Seq<Client>, c: Client, i: int) -> int
    decreases s.len() - i,
{
    if i < s.len() && stable_of(s[i]) <= stable_of(c) {
        age_place(s, c, i + 1)
    } else {
        i
    }
}

/// Those of the first `k` windows that stand on desktop `n`, by the time of appearance.
pub open spec fn by_age_upto(clients: Seq<Client>, n: u8, k: int) -> Seq<Client>
    decreases k,
{
    if k <= 0 {
        Seq::empty()
    } else if desk_of(clients[k - 1]) == Some(n) {
        let s = by_age_upto(clients, n, k - 1);
        s.insert(age_place(s, clients[k - 1], 0), clients[k - 1])
    } else {
        by_age_upto(clients, n, k - 1)
    }
}

/// The windows of a desktop by the time of appearance.
pub fn windows_by_age<'a>(clients: &'a [Client], n: u8) -> (r: Vec<&'a Client>)
    ensures
        derefs(r@) == by_age_upto(clients@, n, clients.len() as int),
{
    let mut out: Vec<&'a Client> = Vec::new();
    let mut i: usize = 0;
    while i < clients.len()
        invariant
            i <= clients.len(),
            derefs(out@) == by_age_upto(clients@, n, i as int),
        decreases clients.len() - i,
    {
        let c = &clients[i];
        if c.desktop() == Some(n) {
            let ghost s = derefs(out@);
            let mut k: usize = 0;
            while k < out.len() && out[k].stable() <= c.stable()
                invariant
                    k <= out.len(),
                    s == derefs(out@),
                    age_place(s, *c, 0) == age_place(s, *c, k as int),
                decreases out.len() - k,
            {
                assert(s[k as int] == *out[k as int]);
                k = k + 1;
            }
            proof {
                if k < out.len() {
                    assert(s[k as int] == *out[k as int]);
                }
            }
            out.insert(k, c);
            proof {
                assert(derefs(out@) =~= s.insert(k as int, *c));
            }
        }
        i = i + 1;
    }
    out
}

/// The expressions that give the first `k` windows of a plan their rectangles.
pub open spec fn placing_all(plan: Seq<(Str, PxRect)>, k: int) -> Seq<Str>
    decreases k,
{
    if k <= 0 {
        Seq::empty()
    } else {
        placing_all(plan, k - 1) + placing(plan[k - 1].0, plan[k - 1].1)
    }
}

/// The state and the expressions of arranging the windows of desktop `n`; nothing where there are none.
pub open spec fn arrangement(
    cfg: ConfigView,
    st: StateView,
    clients: Seq<Client>,
    n: u8,
    active: Option<Client>,
    mon: (i32, i32),
) -> (StateView, Option<Seq<Str>>) {
    let wins = by_age_upto(clients, n, clients.len() as int);
    if wins.len() == 0 {
        (st, None)
    } else {
        let (one, plan) = st.arranged(cfg, st.active_on(n), wins, mon);
        (
            one,
            Some(
                placing_all(plan, plan.len() as int) + match active {
                    Some(c) => if desk_of(c) == Some(n) {
                        focusing(c.address@)
                    } else {
                        Seq::empty()
                    },
                    None => Seq::empty(),
                },
            ),
        )
    }
}

/// Arrange the windows of desktop `n`, the one of the user, by the description of its active workspace. The
/// active window keeps the focus and comes to the top. Gives the expressions; nothing where there are no
/// windows.
pub fn arrange(cfg: &Config, st: &mut State, clients: &[Client], n: u8, active: Option<&Client>, mon: (i32, i32)) -> (r:
    Option<Vec<String>>)
    ensures
        arrangement(cfg@, old(st)@, clients@, n, odref(active), mon) == (
            final(st)@,
            match r {
                Some(ex) => Some(views(ex@)),
                None => None,
            },
        ),
{
    let wins = windows_by_age(clients, n);
    assert(derefs(wins@).len() == wins.len());
    if wins.len() == 0 {
        return None;
    }
    let ws = st.active_on(n);
    let plan = arrange_layout(st, cfg, opt_str(&ws), wins.as_slice(), mon);
    let ghost p = geom_view(plan@);
    let mut ex: Vec<String> = Vec::new();
    let mut i: usize = 0;
    while i < plan.len()
        invariant
            i <= plan.len(),
            p == geom_view(plan@),
            views(ex@) == placing_all(p, i as int),
        decreases plan.len() - i,
    {
        assert(p[i as int] == (plan@[i as int].0@, plan@[i as int].1));
        push_place(&mut ex, plan[i].0.as_str(), plan[i].1);
        i = i + 1;
    }
    let ghost mid = views(ex@);
    if let Some(c) = active {
        if c.desktop() == Some(n) {
            push_focus(&mut ex, c.address.as_str());
            return Some(ex);
        }
    }
    proof {
        assert(mid =~= mid + Seq::<Str>::empty());
    }
    Some(ex)
}

/// The state and the expressions after the windows from `i` on took the places of a layout that was made
/// anew.
pub open spec fn applied_from(
    cfg: ConfigView,
    st: StateView,
    ws: Str,
    n: u8,
    wins: Seq<Client>,
    i: int,
    ex: Seq<Str>,
) -> (StateView, Seq<Str>)
    decreases wins.len() - i,
{
    if i >= wins.len() {
        (st, ex)
    } else {
        let c = wins[i];
        if desk_of(c) != Some(n) || c.fullscreen != 0 {
            applied_from(cfg, st, ws, n, wins, i + 1, ex)
        } else {
            match entry_of(cfg, ws, entry_names_of(cfg, ws), c) {
                None => applied_from(cfg, st, ws, n, wins, i + 1, ex),
                Some(app) => {
                    let one = st.built(cfg, ws);
                    match one.place(cfg, ws, app) {
                        None => applied_from(cfg, one, ws, n, wins, i + 1, ex),
                        Some(r) => applied_from(
                            cfg,
                            StateView { geom: nest_put(one.geom, ws, c.address@, r), ..one },
                            ws,
                            n,
                            wins,
                            i + 1,
                            if rect_of(c) != r {
                                ex + placing(c.address@, r)
                            } else {
                                ex
                            },
                        ),
                    }
                },
            }
        }
    }
}

/// Put the windows of a workspace on desktop `n`, where it is active, on the places of a layout that was
/// made anew. Focus and depth stay. Gives the expressions.
pub fn apply_layout(cfg: &Config, st: &mut State, ws: &str, n: u8, clients: &[Client]) -> (r: Vec<String>)
    ensures
        applied_from(cfg@, old(st)@, ws@, n, members(clients@, ws@), 0, Seq::empty()) == (final(st)@, views(r@)),
{
    let wins = ws_windows(clients, ws);
    let apps = cfg.entry_names(ws);
    let ghost s = derefs(wins@);
    let mut ex: Vec<String> = Vec::new();
    let mut i: usize = 0;
    while i < wins.len()
        invariant
            i <= wins.len(),
            s == derefs(wins@),
            views(apps@) == entry_names_of(cfg@, ws@),
            applied_from(cfg@, old(st)@, ws@, n, s, 0, Seq::empty()) == applied_from(
                cfg@,
                st@,
                ws@,
                n,
                s,
                i as int,
                views(ex@),
            ),
        decreases wins.len() - i,
    {
        let c = wins[i];
        assert(s[i as int] == *c);
        if c.desktop() == Some(n) && c.fullscreen == 0 {
            if let Some(app) = ws_app_of(cfg, ws, apps.as_slice(), c) {
                if let Some(r) = st.rect_for(cfg, ws, app.as_str()) {
                    st.geom.put_nested(ws, c.address.clone(), r);
                    if c.rect() != r {
                        push_place(&mut ex, c.address.as_str(), r);
                    }
                }
            }
        }
        i = i + 1;
    }
    ex
}

// ---- Moving and changing workspaces ----------------------------------------------------

/// What moving the active workspace to another desktop comes to.
#[derive(Debug, PartialEq, Eq)]
pub enum MovePlan {
    /// No workspace is active on the desktop.
    Nothing,
    /// The workspace is there.
    Here(String),
    /// Raise the workspace there, then the successor on the desktop it leaves, without going back.
    Move(String, Option<String>),
}

/// What it says.
pub enum MovePlanView {
    Nothing,
    Here(Str),
    Move(Str, Option<Str>),
}

impl View for MovePlan {
    type V = MovePlanView;

    open spec fn view(&self) -> MovePlanView {
        match self {
            MovePlan::Nothing => MovePlanView::Nothing,
            MovePlan::Here(w) => MovePlanView::Here(w@),
            MovePlan::Move(w, next) => MovePlanView::Move(w@, oview(*next)),
        }
    }
}

/// What moving the active workspace of desktop `cur` to desktop `n` comes to.
pub open spec fn move_of(st: StateView, cur: u8, n: u8) -> MovePlanView {
    match st.active_on(cur) {
        None => MovePlanView::Nothing,
        Some(ws) => if n == cur {
            MovePlanView::Here(ws)
        } else {
            MovePlanView::Move(
                ws,
                successor_of(st.desktops[cur].workspaces, ws, crate::desks::at_desk(st.prev_active, cur)),
            )
        },
    }
}

/// The fault of a number that is no desktop.
pub open spec fn not_a_desk(n: u8) -> Str {
    "стол должен быть от 1 до 8, получено "@ + dec(n as nat)
}

/// A desktop has a number from 1 to 8.
pub fn check_desk(n: u8) -> (r: Result<(), String>)
    ensures
        match r {
            Ok(_) => 1 <= n <= 8,
            Err(e) => !(1 <= n <= 8) && e@ == not_a_desk(n),
        },
{
    if n < 1 || n > 8 {
        let mut s = "стол должен быть от 1 до 8, получено ".to_owned();
        push_dec(&mut s, n as u64);
        return Err(s);
    }
    Ok(())
}

/// What moving the active workspace of desktop `cur` to desktop `n` comes to. The successor is chosen before
/// the move: it takes the workspace off the list.
pub fn move_desktop(st: &State, cur: u8, n: u8) -> (r: Result<MovePlan, String>)
    ensures
        match r {
            Ok(p) => 1 <= n <= 8 && p@ == move_of(st@, cur, n),
            Err(e) => !(1 <= n <= 8) && e@ == not_a_desk(n),
        },
{
    if let Err(e) = check_desk(n) {
        return Err(e);
    }
    let active = st.active_on(cur);
    match move_step(cur, n, opt_str(&active)) {
        MoveStep::Nothing => Ok(MovePlan::Nothing),
        MoveStep::Here(ws) => Ok(MovePlan::Here(ws)),
        MoveStep::Move(ws) => {
            let prev = match crate::desks::desk_get(&st.prev_active, cur) {
                Some(p) => Some(p.as_str()),
                None => None,
            };
            let next = match crate::desks::desk_get(&st.desktops, cur) {
                Some(d) => successor(d.workspaces.as_slice(), ws.as_str(), prev),
                None => None,
            };
            Ok(MovePlan::Move(ws, next))
        },
    }
}

/// The fault of a desktop without workspaces.
pub open spec fn no_workspace(n: u8) -> Str {
    "на столе "@ + dec(n as nat) + " нет workspace"@
}

/// The next workspace in the list of the desktop of the user.
pub fn next(st: &mut State, current: u8) -> (r: Result<String, String>)
    ensures
        final(st)@ == old(st)@.with_desk(current, old(st)@.desk(current)),
        match r {
            Ok(w) => next_of(old(st)@.desk(current)) == Some(w@),
            Err(e) => next_of(old(st)@.desk(current)) is None && e@ == no_workspace(current),
        },
{
    let d = match crate::desks::desk_get(&st.desktops, current) {
        Some(d) => d.dup(),
        None => Desktop::default(),
    };
    let ws = next_ws(&d);
    desk_put(&mut st.desktops, current, d);
    match ws {
        Some(w) => Ok(w),
        None => {
            let mut s = "на столе ".to_owned();
            push_dec(&mut s, current as u64);
            s.append(" нет workspace");
            Err(s)
        },
    }
}

// ---- The active window ------------------------------------------------------------------

/// The expressions that put a window into a rectangle, floating.
pub open spec fn floating_at(addr: Str, r: PxRect) -> Seq<Str> {
    seq![float_of(addr)] + placing(addr, r)
}

/// The expressions that put a window into a rectangle, floating.
pub fn place_floating(addr: &str, r: PxRect) -> (e: Vec<String>)
    ensures
        views(e@) == floating_at(addr@, r),
{
    let mut ex: Vec<String> = Vec::new();
    ex.push(d_float_on(addr));
    push_place(&mut ex, addr, r);
    proof {
        assert(views(ex@) =~= floating_at(addr@, r));
    }
    ex
}

/// The mode to leave before a window can be maximized: the one it is in.
pub fn fullscreen_mode(fullscreen: i32) -> (r: Option<&'static str>)
    ensures
        oview(r) == (if fullscreen == 0 {
            None
        } else if fullscreen == 2 {
            Some("fullscreen"@)
        } else {
            Some("maximized"@)
        }),
{
    if fullscreen == 0 {
        None
    } else if fullscreen == 2 {
        Some("fullscreen")
    } else {
        Some("maximized")
    }
}

/// The rectangles of those windows that are alive.
pub open spec fn alive_only(s: Seq<(Str, PxRect)>, alive: Seq<Str>) -> Seq<(Str, PxRect)> {
    tab_masked(s, s.map_values(|e: (Str, PxRect)| alive.contains(e.0)), s.len() as int)
}

/// The rectangles before maximizing and where the window goes: a maximized window goes back to the rectangle
/// it had, any other is maximized; one that just left the full screen never goes back.
pub open spec fn maximize_of(
    kept: Seq<(Str, PxRect)>,
    alive: Seq<Str>,
    addr: Str,
    cur: PxRect,
    target: PxRect,
    from_fullscreen: bool,
) -> (Seq<(Str, PxRect)>, Option<PxRect>) {
    let live = alive_only(kept, alive);
    if cur != target {
        (tab_put(live, addr, cur), Some(target))
    } else if from_fullscreen {
        (live, None)
    } else {
        (tab_del(live, addr), tab_get(live, addr))
    }
}

/// Maximize the active window or bring it back. `kept` are the rectangles of windows before they were
/// maximized, `alive` all windows, `cur` the rectangle of the window, `target` that of a maximized one.
/// Gives where the window goes.
pub fn maximize(
    kept: &mut Table<PxRect>,
    alive: &[String],
    addr: &str,
    cur: PxRect,
    target: PxRect,
    from_fullscreen: bool,
) -> (r: Option<PxRect>)
    ensures
        maximize_of(old(kept)@, views(alive@), addr@, cur, target, from_fullscreen) == (final(kept)@, r),
{
    let ghost s = kept@;
    let ghost m = s.map_values(|e: (Str, PxRect)| views(alive@).contains(e.0));
    let n: usize = kept.len();
    let mut mask: Vec<bool> = Vec::new();
    let mut i: usize = 0;
    while i < n
        invariant
            i <= n,
            n == s.len(),
            s == kept@,
            kept@ == old(kept)@,
            mask.len() == i,
            m == s.map_values(|e: (Str, PxRect)| views(alive@).contains(e.0)),
            forall|k: int| 0 <= k < i ==> #[trigger] mask@[k] == m[k],
        decreases n - i,
    {
        mask.push(holds(alive, kept.key(i).as_str()));
        i = i + 1;
    }
    proof {
        assert(mask@ =~= m);
    }
    kept.keep(&mask);
    if cur == target {
        if from_fullscreen {
            return None;
        }
        return kept.remove(addr);
    }
    kept.insert(addr.to_owned(), cur);
    Some(target)
}

/// Maximizing a window that is not maximized and then again, while it is alive, brings back the rectangle it
/// had.
pub proof fn law_maximize_back(kept: Seq<(Str, PxRect)>, alive: Seq<Str>, addr: Str, cur: PxRect, target: PxRect)
    requires
        crate::table::tab_sorted(kept),
        alive.contains(addr),
        cur != target,
    ensures
        ({
            let (one, go) = maximize_of(kept, alive, addr, cur, target, false);
            let (two, back) = maximize_of(one, alive, addr, target, target, false);
            &&& go == Some(target)
            &&& back == Some(cur)
        }),
{
    let live = alive_only(kept, alive);
    let mask = kept.map_values(|e: (Str, PxRect)| alive.contains(e.0));
    crate::table::lemma_masked(kept, mask, kept.len() as int);
    crate::table::lemma_put_sorted(live, addr, cur);
    crate::table::lemma_put_get(live, addr, cur, addr);
    let one = tab_put(live, addr, cur);
    let m = one.map_values(|e: (Str, PxRect)| alive.contains(e.0));
    crate::layout::lemma_masked_get(one, m, addr);
    crate::table::lemma_find(one, addr, 0);
}

} // verus!
