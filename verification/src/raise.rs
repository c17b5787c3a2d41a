//! Raising a workspace on a desktop, and windows that go home.
use std::collections::BTreeMap;
use vstd::prelude::*;

use crate::config::{Config, ConfigView};
use crate::desks::{at_desk, desk_get, desk_put, desk_take, mviews};
use crate::desktop::{active_desktop_of, active_from, assign_desktop, drop_text, without};
use crate::exprs::{
    desk_move, park, placing_opt, push_desk_move, push_park, push_place_opt,
};
use crate::home::{
    absorb_into, actives, actives_of, arrive_rect, arrives, arrives_at, depth_of, depth_plan, entry_names_of,
    home_of, raise_target, spot_of, target_of, window_home, Home, Spot,
};
use crate::hypr::{
    d_focus_desktop, d_focus_window, d_raise, derefs, desk_focus_of, desk_number, focus_of, has_ws, in_ws, on_hidden,
    raise_of, rect_of, ws_list, Client,
};
use crate::layout::claim_owner;
use crate::pending::Target;
use crate::rect::PxRect;
use crate::restore::{raise_restore_step, raise_step_of, RaiseStep};
use crate::state::{no_desktop, Desktop, DesktopView, State, StateView};
use crate::table::{nest_get, nest_put, tab_has, Dup};
use crate::text::{copy_opt, holds, opt_is, opt_str, oview, same, views, Str};
use crate::windows::{members, placed, placed_windows, ws_windows};

verus! {

broadcast use {crate::text::group_views, crate::hypr::group_derefs};

// ---- Windows that go home -----------------------------------------------------

/// The desktop of a window.
pub open spec fn desk_of(c: Client) -> Option<u8> {
    desk_number(c.workspace.name@)
}

impl StateView {
    /// The state after a window went to a desktop where another workspace of it is active.
    pub open spec fn sent(self, cfg: ConfigView, c: Client, k: u8, active: Map<u8, Str>) -> StateView {
        match at_desk(active, k) {
            None => self,
            Some(v) => {
                let r = self.arrival(cfg, v, c);
                let st = self.arrived(cfg, v, c);
                StateView {
                    geom: nest_put(
                        st.geom,
                        v,
                        c.address@,
                        match r {
                            Some(r) => r,
                            None => rect_of(c),
                        },
                    ),
                    ..st
                }
            },
        }
    }

    /// The expressions by which a window goes to a desktop where another workspace of it is active.
    pub open spec fn sending(self, cfg: ConfigView, c: Client, k: u8, active: Map<u8, Str>) -> Seq<Str> {
        seq![desk_move(c.address@, k)] + match at_desk(active, k) {
            None => Seq::empty(),
            Some(v) => placing_opt(c.address@, self.arrival(cfg, v, c)),
        }
    }
}

/// Send a window to a desktop where another workspace of it is active, into the state kept for that
/// workspace. The layout of the workspace it leaves is read before.
pub fn send_to(st: &mut State, cfg: &Config, c: &Client, k: u8, active: &BTreeMap<u8, String>, ex: &mut Vec<String>)
    ensures
        final(st)@ == old(st)@.sent(cfg@, *c, k, mviews(active@)),
        views(final(ex)@) == views(old(ex)@) + old(st)@.sending(cfg@, *c, k, mviews(active@)),
{
    let ghost was = views(ex@);
    push_desk_move(ex, c.address.as_str(), k);
    match desk_get(active, k) {
        None => {},
        Some(v) => {
            let r = arrive_rect(st, cfg, v.as_str(), c);
            push_place_opt(ex, c.address.as_str(), r);
            let rect = match r {
                Some(r) => r,
                None => c.rect(),
            };
            st.geom.put_nested(v.as_str(), c.address.clone(), rect);
        },
    }
    proof {
        assert(views(ex@) =~= was + old(st)@.sending(cfg@, *c, k, mviews(active@)));
    }
}

impl StateView {
    /// The state after a window left desktop `n` for its home.
    pub open spec fn gone_home(self, cfg: ConfigView, c: Client, n: u8, active: Map<u8, Str>, cur: u8) -> StateView {
        match home_of(ws_list(c), active, cur, spot_of(c)) {
            Home::Desktop(k) => if k != n {
                self.sent(cfg, c, k, active)
            } else {
                self
            },
            _ => self,
        }
    }

    /// The expressions by which a window leaves desktop `n` for its home.
    pub open spec fn going(self, cfg: ConfigView, c: Client, n: u8, active: Map<u8, Str>, cur: u8) -> Seq<Str> {
        match home_of(ws_list(c), active, cur, spot_of(c)) {
            Home::Desktop(k) => if k != n {
                self.sending(cfg, c, k, active)
            } else {
                Seq::empty()
            },
            Home::Pool => seq![park(c.address@)],
            Home::Keep => Seq::empty(),
        }
    }

    /// The state and the expressions after the windows from `i` on left desktop `n` for their homes.
    pub open spec fn all_home_from(
        self,
        cfg: ConfigView,
        wins: Seq<Client>,
        n: u8,
        active: Map<u8, Str>,
        cur: u8,
        i: int,
        ex: Seq<Str>,
    ) -> (StateView, Seq<Str>)
        decreases wins.len() - i,
    {
        if i >= wins.len() {
            (self, ex)
        } else {
            self.gone_home(cfg, wins[i], n, active, cur).all_home_from(
                cfg,
                wins,
                n,
                active,
                cur,
                i + 1,
                ex + self.going(cfg, wins[i], n, active, cur),
            )
        }
    }
}

fn go_home(
    st: &mut State,
    cfg: &Config,
    c: &Client,
    n: u8,
    active: &BTreeMap<u8, String>,
    cur: u8,
    ex: &mut Vec<String>,
)
    ensures
        final(st)@ == old(st)@.gone_home(cfg@, *c, n, mviews(active@), cur),
        views(final(ex)@) == views(old(ex)@) + old(st)@.going(cfg@, *c, n, mviews(active@), cur),
{
    let list = c.workspaces();
    let ghost was = views(ex@);
    match window_home(list.as_slice(), active, cur, Spot::of(c)) {
        Home::Desktop(k) => {
            if k != n {
                send_to(st, cfg, c, k, active, ex);
            }
        },
        Home::Pool => {
            push_park(ex, c.address.as_str());
        },
        Home::Keep => {},
    }
    proof {
        assert(views(ex@) =~= was + old(st)@.going(cfg@, *c, n, mviews(active@), cur));
    }
}

fn all_go_home(
    st: &mut State,
    cfg: &Config,
    wins: &Vec<&Client>,
    n: u8,
    active: &BTreeMap<u8, String>,
    cur: u8,
    ex: &mut Vec<String>,
)
    ensures
        old(st)@.all_home_from(cfg@, derefs(wins@), n, mviews(active@), cur, 0, views(old(ex)@)) == (
            final(st)@,
            views(final(ex)@),
        ),
{
    let ghost s = derefs(wins@);
    let mut i: usize = 0;
    while i < wins.len()
        invariant
            i <= wins.len(),
            s == derefs(wins@),
            old(st)@.all_home_from(cfg@, s, n, mviews(active@), cur, 0, views(old(ex)@)) == st@.all_home_from(
                cfg@,
                s,
                n,
                mviews(active@),
                cur,
                i as int,
                views(ex@),
            ),
        decreases wins.len() - i,
    {
        assert(s[i as int] == *wins[i as int]);
        go_home(st, cfg, wins[i], n, active, cur, ex);
        i = i + 1;
    }
}

// ---- Taking a workspace off a desktop -------------------------------------------

/// Those of the first `k` windows that stand on desktop `n`.
pub open spec fn standing_upto(s: Seq<Client>, n: u8, k: int) -> Seq<Client>
    decreases k,
{
    if k <= 0 {
        Seq::empty()
    } else if desk_of(s[k - 1]) == Some(n) {
        standing_upto(s, n, k - 1).push(s[k - 1])
    } else {
        standing_upto(s, n, k - 1)
    }
}

fn on_desktop<'a>(wins: Vec<&'a Client>, n: u8) -> (r: Vec<&'a Client>)
    ensures
        derefs(r@) == standing_upto(derefs(wins@), n, wins.len() as int),
{
    let ghost s = derefs(wins@);
    let mut out: Vec<&'a Client> = Vec::new();
    let mut i: usize = 0;
    while i < wins.len()
        invariant
            i <= wins.len(),
            s == derefs(wins@),
            derefs(out@) == standing_upto(s, n, i as int),
        decreases wins.len() - i,
    {
        assert(s[i as int] == *wins[i as int]);
        if wins[i].desktop() == Some(n) {
            out.push(wins[i]);
        }
        i = i + 1;
    }
    out
}

impl StateView {
    /// The state with another list and active workspace of a desktop.
    pub open spec fn with_desk(self, n: u8, d: DesktopView) -> StateView {
        StateView { desktops: self.desktops.insert(n, d), ..self }
    }

    /// The list and the active workspace of a desktop; an empty list where there is none.
    pub open spec fn desk(self, n: u8) -> DesktopView {
        match at_desk(self.desktops, n) {
            Some(d) => d,
            None => no_desktop(),
        }
    }

    /// The state and the expressions after a workspace was taken off the list of a desktop. Where it was
    /// active there, its layout is read and its windows go home.
    pub open spec fn removed(self, cfg: ConfigView, ws: Str, n: u8, clients: Seq<Client>, current: u8) -> (
        StateView,
        Seq<Str>,
    ) {
        if self.active_on(n) == Some(ws) {
            let one = self.absorbed(cfg, ws, n, clients);
            let two = one.with_desk(
                n,
                DesktopView { workspaces: without(one.desk(n).workspaces, ws), active: None },
            );
            let m = members(clients, ws);
            two.all_home_from(
                cfg,
                standing_upto(m, n, m.len() as int),
                n,
                actives_of(two.desktops),
                current,
                0,
                Seq::empty(),
            )
        } else {
            (
                self.with_desk(
                    n,
                    DesktopView { workspaces: without(self.desk(n).workspaces, ws), active: self.desk(n).active },
                ),
                Seq::empty(),
            )
        }
    }
}

/// Take a workspace off the list of a desktop. Where it was active there, its layout is read and its
/// windows go home: to a desktop where another workspace of theirs is active, else they are parked. Gives
/// the expressions; `clients` are read only in that case.
pub fn remove(cfg: &Config, st: &mut State, ws: &str, n: u8, clients: &[Client], current: u8) -> (r: Vec<String>)
    ensures
        old(st)@.removed(cfg@, ws@, n, clients@, current) == (final(st)@, views(r@)),
{
    let mut ex: Vec<String> = Vec::new();
    let was_active = match st.active_on(n) {
        Some(w) => same(w.as_str(), ws),
        None => false,
    };
    if was_active {
        absorb_into(cfg, st, ws, n, clients);
    }
    let d = match desk_get(&st.desktops, n) {
        Some(d) => d.dup(),
        None => Desktop::default(),
    };
    let left = drop_text(d.workspaces.as_slice(), ws);
    let active = if was_active {
        None
    } else {
        copy_opt(&d.active)
    };
    desk_put(&mut st.desktops, n, Desktop { workspaces: left, active });
    if was_active {
        let after = actives(st);
        let wins = on_desktop(ws_windows(clients, ws), n);
        all_go_home(st, cfg, &wins, n, &after, current, &mut ex);
    }
    ex
}

// ---- Raising: the beginning -----------------------------------------------------

/// The fault of raising a workspace that the configuration does not have.
pub open spec fn not_found(ws: Str) -> Str {
    "workspace "@ + ws + " не найден"@
}

/// The desktop that a workspace is raised on: the one asked for, else the one where it is active, else the
/// one of the user.
pub open spec fn raise_desk(st: StateView, ws: Str, desktop: Option<u8>, current: u8) -> u8 {
    match desktop {
        Some(n) => n,
        None => match active_from(st.desktops, ws, 0) {
            Some(k) => k,
            None => current,
        },
    }
}

/// Begin to raise a workspace. It fails where the configuration does not have it. Gives the desktop it is
/// raised on and the one where it was active; nothing waits for the user on that desktop any more.
pub fn raise_begin(cfg: &Config, st: &mut State, ws: &str, desktop: Option<u8>, current: u8) -> (r: Result<
    (u8, Option<u8>),
    String,
>)
    ensures
        match r {
            Ok((n, was_on)) => {
                &&& tab_has(cfg@.workspaces, ws@)
                &&& n == raise_desk(old(st)@, ws@, desktop, current)
                &&& was_on == active_from(old(st)@.desktops, ws@, 0)
                &&& final(st)@ == (StateView { lazy: old(st)@.lazy.remove(n), ..old(st)@ })
            },
            Err(e) => {
                &&& !tab_has(cfg@.workspaces, ws@)
                &&& e@ == not_found(ws@)
                &&& final(st)@ == old(st)@
            },
        },
{
    if !cfg.workspaces.contains_key(ws) {
        let mut s = "workspace ".to_owned();
        s.append(ws);
        s.append(" не найден");
        return Err(s);
    }
    let was_on = active_desktop_of(st, ws);
    let n: u8 = match desktop {
        Some(n) => n,
        None => match was_on {
            Some(k) => k,
            None => current,
        },
    };
    let _ = desk_take(&mut st.lazy, n);
    Ok((n, was_on))
}

/// What raising does for the applications from the first to the `n`th: by the windows that each has.
pub open spec fn steps_upto(
    cfg: ConfigView,
    st: StateView,
    clients: Seq<Client>,
    ws: Str,
    apps: Seq<Str>,
    n: int,
) -> Seq<RaiseStep>
    decreases n,
{
    if n <= 0 {
        Seq::empty()
    } else {
        steps_upto(cfg, st, clients, ws, apps, n - 1).push(
            raise_step_of(
                cfg,
                st.restore,
                apps[n - 1],
                ws,
                placed(cfg, clients, ws, apps, apps[n - 1]).len() > 0,
            ),
        )
    }
}

/// What raising a workspace does for each of its applications, by the saved session.
pub fn raise_steps(cfg: &Config, st: &State, clients: &[Client], ws: &str, apps: &[String]) -> (r: Vec<RaiseStep>)
    ensures
        r@ == steps_upto(cfg@, st@, clients@, ws@, views(apps@), apps.len() as int),
        r.len() == apps.len(),
{
    let ghost s = views(apps@);
    let mut out: Vec<RaiseStep> = Vec::new();
    let mut i: usize = 0;
    while i < apps.len()
        invariant
            i <= apps.len(),
            s == views(apps@),
            out.len() == i,
            out@ == steps_upto(cfg@, st@, clients@, ws@, s, i as int),
        decreases apps.len() - i,
    {
        assert(s[i as int] == apps@[i as int]@);
        let wins = placed_windows(cfg, clients, ws, apps, apps[i].as_str());
        assert(derefs(wins@).len() == wins.len());
        out.push(raise_restore_step(cfg, st.restore.as_slice(), apps[i].as_str(), ws, wins.len() > 0));
        i = i + 1;
    }
    out
}

/// Those of the first `n` applications that get no windows of other workspaces.
pub open spec fn held_upto(apps: Seq<Str>, steps: Seq<RaiseStep>, n: int) -> Seq<Str>
    decreases n,
{
    if n <= 0 {
        Seq::empty()
    } else if steps[n - 1] != RaiseStep::Normal {
        held_upto(apps, steps, n - 1).push(apps[n - 1])
    } else {
        held_upto(apps, steps, n - 1)
    }
}

/// The applications that get no windows of other workspaces: the saved session brings theirs back.
pub fn held_apps(apps: &[String], steps: &[RaiseStep]) -> (r: Vec<String>)
    requires
        steps.len() == apps.len(),
    ensures
        views(r@) == held_upto(views(apps@), steps@, apps.len() as int),
{
    let ghost s = views(apps@);
    let mut out: Vec<String> = Vec::new();
    let mut i: usize = 0;
    while i < apps.len()
        invariant
            i <= apps.len(),
            steps.len() == apps.len(),
            s == views(apps@),
            views(out@) == held_upto(s, steps@, i as int),
        decreases apps.len() - i,
    {
        match steps[i] {
            RaiseStep::Normal => {},
            _ => {
                out.push(apps[i].clone());
            },
        }
        i = i + 1;
    }
    out
}

// ---- Raising: the run -----------------------------------------------------------

/// A workspace that is being raised.
#[derive(Debug)]
pub struct Raise {
    pub ws: String,
    /// The desktop it is raised on.
    pub n: u8,
    /// The desktop where it was active.
    pub was_on: Option<u8>,
    /// The user goes there and the main window gets the focus.
    pub focus: bool,
    /// The desktop of the user.
    pub cur: u8,
    /// The workspaces active on the desktops before.
    pub before: BTreeMap<u8, String>,
    /// Those active on the desktops after it.
    pub after: BTreeMap<u8, String>,
    pub main_app: Option<String>,
    /// The expressions so far.
    pub ex: Vec<String>,
    /// The windows whose depth is given.
    pub members: Vec<String>,
    /// The window that gets the focus.
    pub main_addr: Option<String>,
}

/// What the run says.
pub struct RaiseView {
    pub ws: Str,
    pub n: u8,
    pub was_on: Option<u8>,
    pub focus: bool,
    pub cur: u8,
    pub before: Map<u8, Str>,
    pub after: Map<u8, Str>,
    pub main_app: Option<Str>,
    pub ex: Seq<Str>,
    pub members: Seq<Str>,
    pub main_addr: Option<Str>,
}

impl View for Raise {
    type V = RaiseView;

    open spec fn view(&self) -> RaiseView {
        RaiseView {
            ws: self.ws@,
            n: self.n,
            was_on: self.was_on,
            focus: self.focus,
            cur: self.cur,
            before: mviews(self.before@),
            after: mviews(self.after@),
            main_app: oview(self.main_app),
            ex: views(self.ex@),
            members: views(self.members@),
            main_addr: oview(self.main_addr),
        }
    }
}

/// The workspaces active on the desktops once a workspace is raised.
pub open spec fn raised_actives(before: Map<u8, Str>, ws: Str, n: u8) -> Map<u8, Str> {
    Map::new(|k: u8| before.contains_key(k) && before[k] != ws, |k: u8| before[k]).insert(n, ws)
}

fn make_after(before: &BTreeMap<u8, String>, ws: &str, n: u8) -> (r: BTreeMap<u8, String>)
    ensures
        mviews(r@) == raised_actives(mviews(before@), ws@, n),
{
    let mut out: BTreeMap<u8, String> = BTreeMap::new();
    let mut k: u16 = 0;
    while k < 256
        invariant
            k <= 256,
            forall|j: u8| #[trigger]
                mviews(out@).contains_key(j) <==> j < k && mviews(before@).contains_key(j) && mviews(before@)[j] != ws@,
            forall|j: u8| #[trigger] mviews(out@).contains_key(j) ==> mviews(out@)[j] == mviews(before@)[j],
        decreases 256 - k,
    {
        let d: u8 = k as u8;
        assert(mviews(before@).contains_key(d) <==> before@.contains_key(d));
        if let Some(v) = desk_get(before, d) {
            if !same(v.as_str(), ws) {
                desk_put(&mut out, d, v.clone());
            }
        }
        k = k + 1;
    }
    desk_put(&mut out, n, ws.to_owned());
    proof {
        assert(mviews(out@) =~= raised_actives(mviews(before@), ws@, n));
    }
    out
}

impl StateView {
    /// The state once the layouts that the raise disturbs were read: that of the workspace active on the
    /// desktop, and that of the workspace itself on the desktop it leaves.
    pub open spec fn before_raise(
        self,
        cfg: ConfigView,
        ws: Str,
        n: u8,
        was_on: Option<u8>,
        clients: Seq<Client>,
    ) -> StateView {
        let one = match self.active_on(n) {
            Some(old_ws) => self.absorbed(cfg, old_ws, n, clients),
            None => self,
        };
        match was_on {
            Some(k) => if k != n {
                one.absorbed(cfg, ws, k, clients)
            } else {
                one
            },
            None => one,
        }
    }
}

/// Prepare to raise a workspace on a desktop: read the layouts that it disturbs, and go there.
pub fn raise_prepare(
    cfg: &Config,
    st: &mut State,
    ws: &str,
    n: u8,
    was_on: Option<u8>,
    focus: bool,
    current: u8,
    clients: &[Client],
) -> (r: Raise)
    ensures
        ({
            let one = old(st)@.before_raise(cfg@, ws@, n, was_on, clients@);
            let before = actives_of(old(st)@.desktops);
            let goes = focus && n != current;
            &&& final(st)@ == one.built(cfg@, ws@)
            &&& r@ == (RaiseView {
                ws: ws@,
                n,
                was_on,
                focus,
                cur: if goes {
                    n
                } else {
                    current
                },
                before,
                after: raised_actives(before, ws@, n),
                main_app: final(st)@.main_in(cfg@, ws@),
                ex: if goes {
                    seq![desk_focus_of(n)]
                } else {
                    Seq::empty()
                },
                members: Seq::empty(),
                main_addr: None,
            })
        }),
{
    let before = actives(st);
    if let Some(old_ws) = st.active_on(n) {
        absorb_into(cfg, st, old_ws.as_str(), n, clients);
    }
    if let Some(k) = was_on {
        if k != n {
            absorb_into(cfg, st, ws, k, clients);
        }
    }
    let after = make_after(&before, ws, n);
    let mut ex: Vec<String> = Vec::new();
    let goes = focus && n != current;
    let cur: u8 = if goes {
        n
    } else {
        current
    };
    if goes {
        ex.push(d_focus_desktop(n));
        proof {
            assert(views(ex@) =~= seq![desk_focus_of(n)]);
        }
    }
    let main_app = st.main_app(cfg, ws);
    let members: Vec<String> = Vec::new();
    Raise { ws: ws.to_owned(), n, was_on, focus, cur, before, after, main_app, ex, members, main_addr: None }
}

impl RaiseView {
    /// The workspace moves: it was active on another desktop.
    pub open spec fn moves(self) -> bool {
        self.was_on matches Some(d) && d != self.n
    }

    /// The window leaves a desktop where it stands for another workspace of it.
    pub open spec fn leaves_for(self, c: Client) -> Option<(u8, Str)> {
        match desk_of(c) {
            Some(k) => match at_desk(self.before, k) {
                Some(v) => if v != self.ws && in_ws(c, v) {
                    Some((k, v))
                } else {
                    None
                },
                None => None,
            },
            None => None,
        }
    }

    /// The state before a window is placed: the layout it leaves is read.
    pub open spec fn leaving(self, st: StateView, now: ConfigView, c: Client, clients: Seq<Client>) -> StateView {
        if desk_of(c) != Some(self.n) {
            match self.leaves_for(c) {
                Some((k, v)) => st.absorbed(now, v, k, clients),
                None => st,
            }
        } else {
            st
        }
    }

    /// Where the window goes; none where it stays as it is.
    pub open spec fn target(self, st: StateView, c: Client, rect: Option<PxRect>) -> Option<PxRect> {
        target_of(
            self.moves() && desk_of(c) == self.was_on,
            arrives_at(c, self.n, self.before, self.ws),
            nest_get(st.geom, self.ws, c.address@),
            rect,
            rect_of(c),
        )
    }

    /// The run and the state after a window of the workspace was placed on the desktop.
    pub open spec fn placed_window(
        self,
        st: StateView,
        cfg: ConfigView,
        now: ConfigView,
        app: Str,
        rect: Option<PxRect>,
        c: Client,
        clients: Seq<Client>,
    ) -> (RaiseView, StateView) {
        let one = self.leaving(st, now, c, clients);
        let target = self.target(one, c, rect);
        let two = StateView {
            geom: nest_put(
                one.geom,
                self.ws,
                c.address@,
                match target {
                    Some(r) => r,
                    None => rect_of(c),
                },
            ),
            ..one
        };
        let three = if target is Some && target == rect {
            two.claimed(cfg, self.ws, app, c.address@)
        } else {
            two
        };
        (
            RaiseView {
                ex: (if desk_of(c) != Some(self.n) {
                    self.ex.push(desk_move(c.address@, self.n))
                } else {
                    self.ex
                }) + placing_opt(c.address@, target),
                members: self.members.push(c.address@),
                main_addr: if self.main_app == Some(app) && self.main_addr is None {
                    Some(c.address@)
                } else {
                    self.main_addr
                },
                ..self
            },
            three,
        )
    }

    /// The run and the state after one window: it is placed on the desktop if that is its home, sent to
    /// its home on another desktop if it is not there, and left alone if it is hidden.
    pub open spec fn one_window(
        self,
        st: StateView,
        cfg: ConfigView,
        now: ConfigView,
        app: Str,
        rect: Option<PxRect>,
        c: Client,
        clients: Seq<Client>,
    ) -> (RaiseView, StateView) {
        if on_hidden(c) {
            (self, st)
        } else {
            match home_of(ws_list(c), self.after, self.cur, spot_of(c)) {
                Home::Desktop(k) => if k == self.n {
                    self.placed_window(st, cfg, now, app, rect, c, clients)
                } else if desk_of(c) != Some(k) {
                    (
                        RaiseView { ex: self.ex + st.sending(now, c, k, self.after), ..self },
                        st.sent(now, c, k, self.after),
                    )
                } else {
                    (self, st)
                },
                _ => (self, st),
            }
        }
    }

    /// The run and the state after the windows from `i` on.
    pub open spec fn windows_from(
        self,
        st: StateView,
        cfg: ConfigView,
        now: ConfigView,
        app: Str,
        rect: Option<PxRect>,
        wins: Seq<Client>,
        clients: Seq<Client>,
        i: int,
    ) -> (RaiseView, StateView)
        decreases wins.len() - i,
    {
        if i >= wins.len() {
            (self, st)
        } else {
            let (r, s) = self.one_window(st, cfg, now, app, rect, wins[i], clients);
            r.windows_from(s, cfg, now, app, rect, wins, clients, i + 1)
        }
    }

    /// The run, the state and the application to start, with where its window goes and whether it gets
    /// the focus, after one application of the workspace.
    pub open spec fn one_app(
        self,
        st: StateView,
        cfg: ConfigView,
        now: ConfigView,
        app: Str,
        step: RaiseStep,
        clients: Seq<Client>,
    ) -> (RaiseView, StateView, Option<(Target, bool)>) {
        let one = st.built(cfg, self.ws);
        let rect = one.place(cfg, self.ws, app);
        let wins = placed(cfg, clients, self.ws, entry_names_of(cfg, self.ws), app);
        if wins.len() == 0 {
            let launch = (
                match rect {
                    Some(r) => Target::Place(r),
                    None => Target::Free(None),
                },
                self.focus && self.main_app == Some(app),
            );
            match step {
                RaiseStep::Wait => (self, one, None),
                RaiseStep::LaunchFirst => (
                    self,
                    StateView { restore_apps: one.restore_apps.insert(app), ..one },
                    Some(launch),
                ),
                RaiseStep::Normal => (self, one, Some(launch)),
            }
        } else {
            let (r, s) = self.windows_from(one, cfg, now, app, rect, wins, clients, 0);
            (r, s, None)
        }
    }
}

fn raise_placed(
    run: &mut Raise,
    st: &mut State,
    cfg: &Config,
    now: &Config,
    app: &str,
    rect: Option<PxRect>,
    c: &Client,
    clients: &[Client],
)
    ensures
        old(run)@.placed_window(old(st)@, cfg@, now@, app@, rect, *c, clients@) == (final(run)@, final(st)@),
{
    let ghost was = run@;
    run.members.push(c.address.clone());
    let moving = c.desktop() != Some(run.n);
    let arriving = arrives(c, run.n, &run.before, run.ws.as_str());
    if moving {
        if let Some(k) = c.desktop() {
            if let Some(v) = desk_get(&run.before, k) {
                if !same(v.as_str(), run.ws.as_str()) && c.in_ws(v.as_str()) {
                    absorb_into(now, st, v.as_str(), k, clients);
                }
            }
        }
        push_desk_move(&mut run.ex, c.address.as_str(), run.n);
    }
    proof {
        assert(st@ == was.leaving(old(st)@, now@, *c, clients@));
    }
    let moves = match run.was_on {
        Some(d) => d != run.n,
        None => false,
    };
    let carried = moves && c.desktop() == run.was_on;
    let kept = match st.geom.nested(run.ws.as_str(), c.address.as_str()) {
        Some(r) => Some(*r),
        None => None,
    };
    let target = raise_target(carried, arriving, kept, rect, c.rect());
    push_place_opt(&mut run.ex, c.address.as_str(), target);
    let r = match target {
        Some(r) => r,
        None => c.rect(),
    };
    st.geom.put_nested(run.ws.as_str(), c.address.clone(), r);
    if target.is_some() && target == rect {
        claim_owner(st, cfg, run.ws.as_str(), app, c.address.as_str());
    }
    if opt_is(&run.main_app, app) && run.main_addr.is_none() {
        run.main_addr = Some(c.address.clone());
    }
}

fn raise_window(
    run: &mut Raise,
    st: &mut State,
    cfg: &Config,
    now: &Config,
    app: &str,
    rect: Option<PxRect>,
    c: &Client,
    clients: &[Client],
)
    ensures
        old(run)@.one_window(old(st)@, cfg@, now@, app@, rect, *c, clients@) == (final(run)@, final(st)@),
{
    if c.on_hidden() {
        return ;
    }
    let list = c.workspaces();
    match window_home(list.as_slice(), &run.after, run.cur, Spot::of(c)) {
        Home::Desktop(k) => {
            if k == run.n {
                raise_placed(run, st, cfg, now, app, rect, c, clients);
            } else if c.desktop() != Some(k) {
                send_to(st, now, c, k, &run.after, &mut run.ex);
            }
        },
        _ => {},
    }
}

/// Raise one application of the workspace. Its windows are placed; one without windows is to be started,
/// unless the saved session brings its window back. `cfg` is the configuration the raise began with, `now`
/// the one at hand. Gives where the window of an application to start goes and whether it gets the focus.
pub fn raise_app(
    run: &mut Raise,
    st: &mut State,
    cfg: &Config,
    now: &Config,
    app: &str,
    step: RaiseStep,
    clients: &[Client],
) -> (r: Option<(Target, bool)>)
    ensures
        old(run)@.one_app(old(st)@, cfg@, now@, app@, step, clients@) == (final(run)@, final(st)@, r),
{
    let rect = st.rect_for(cfg, run.ws.as_str(), app);
    let apps = cfg.entry_names(run.ws.as_str());
    let wins = placed_windows(cfg, clients, run.ws.as_str(), apps.as_slice(), app);
    let ghost s = derefs(wins@);
    assert(s.len() == wins.len());
    if wins.len() == 0 {
        match step {
            RaiseStep::Wait => {
                return None;
            },
            RaiseStep::LaunchFirst => {
                st.restore_apps.insert(app.to_owned());
            },
            RaiseStep::Normal => {},
        }
        let target = match rect {
            Some(r) => Target::Place(r),
            None => Target::Free(None),
        };
        return Some((target, run.focus && opt_is(&run.main_app, app)));
    }
    let ghost first = run@;
    let ghost one = st@;
    let mut i: usize = 0;
    while i < wins.len()
        invariant
            i <= wins.len(),
            s == derefs(wins@),
            first.windows_from(one, cfg@, now@, app@, rect, s, clients@, 0) == run@.windows_from(
                st@,
                cfg@,
                now@,
                app@,
                rect,
                s,
                clients@,
                i as int,
            ),
        decreases wins.len() - i,
    {
        assert(s[i as int] == *wins[i as int]);
        raise_window(run, st, cfg, now, app, rect, wins[i], clients);
        i = i + 1;
    }
    None
}

// ---- Raising: the end -----------------------------------------------------------

/// Those of the first `k` windows that stand on the desktop for other workspaces only.
pub open spec fn strangers_upto(s: Seq<Client>, ws: Str, n: u8, k: int) -> Seq<Client>
    decreases k,
{
    if k <= 0 {
        Seq::empty()
    } else if desk_of(s[k - 1]) == Some(n) && !in_ws(s[k - 1], ws) && has_ws(s[k - 1]) {
        strangers_upto(s, ws, n, k - 1).push(s[k - 1])
    } else {
        strangers_upto(s, ws, n, k - 1)
    }
}

/// The addresses of those of the first `k` windows that are among these.
pub open spec fn order_upto(s: Seq<Client>, among: Seq<Str>, k: int) -> Seq<Str>
    decreases k,
{
    if k <= 0 {
        Seq::empty()
    } else if among.contains(s[k - 1].address@) {
        order_upto(s, among, k - 1).push(s[k - 1].address@)
    } else {
        order_upto(s, among, k - 1)
    }
}

/// The expressions that raise windows above the others, one after the other.
pub open spec fn raising(list: Seq<Str>) -> Seq<Str> {
    list.map_values(|a: Str| raise_of(a))
}

impl RaiseView {
    /// The state and the expressions at the end: windows of other workspaces leave the desktop for their
    /// homes, the main window gets the focus, the windows of the workspace get their depth, and the
    /// desktop takes the workspace.
    pub open spec fn finished(self, st: StateView, now: ConfigView, clients: Seq<Client>) -> (StateView, Seq<Str>) {
        let (one, ex) = st.all_home_from(
            now,
            strangers_upto(clients, self.ws, self.n, clients.len() as int),
            self.n,
            self.after,
            self.cur,
            0,
            self.ex,
        );
        let focus = match self.main_addr {
            Some(a) => if self.focus {
                seq![focus_of(a)]
            } else {
                Seq::empty()
            },
            None => Seq::empty(),
        };
        let depth = depth_of(
            order_upto(clients, self.members, clients.len() as int),
            self.main_addr,
            !self.moves(),
        );
        (one.assigned(self.ws, self.n), ex + focus + raising(depth))
    }
}

fn strangers<'a>(clients: &'a [Client], ws: &str, n: u8) -> (r: Vec<&'a Client>)
    ensures
        derefs(r@) == strangers_upto(clients@, ws@, n, clients.len() as int),
{
    let mut out: Vec<&'a Client> = Vec::new();
    let mut i: usize = 0;
    while i < clients.len()
        invariant
            i <= clients.len(),
            derefs(out@) == strangers_upto(clients@, ws@, n, i as int),
        decreases clients.len() - i,
    {
        let c = &clients[i];
        if c.desktop() == Some(n) && !c.in_ws(ws) && c.has_ws() {
            out.push(c);
        }
        i = i + 1;
    }
    out
}

/// The end of raising a workspace: windows of other workspaces leave the desktop for their homes, the main
/// window gets the focus, the windows of the workspace get their depth, and the desktop takes the
/// workspace. Gives all expressions of the run.
pub fn raise_finish(run: Raise, st: &mut State, now: &Config, clients: &[Client]) -> (r: Vec<String>)
    ensures
        run@.finished(old(st)@, now@, clients@) == (final(st)@, views(r@)),
{
    let ghost v = run@;
    let wins = strangers(clients, run.ws.as_str(), run.n);
    let mut ex = run.ex;
    all_go_home(st, now, &wins, run.n, &run.after, run.cur, &mut ex);
    let ghost one = views(ex@);
    let ghost focus = match v.main_addr {
        Some(a) => if v.focus {
            seq![focus_of(a)]
        } else {
            Seq::empty()
        },
        None => Seq::empty(),
    };
    if run.focus {
        if let Some(a) = &run.main_addr {
            ex.push(d_focus_window(a.as_str()));
        }
    }
    proof {
        assert(views(ex@) =~= one + focus);
    }
    let mut order: Vec<String> = Vec::new();
    let mut i: usize = 0;
    while i < clients.len()
        invariant
            i <= clients.len(),
            v.members == views(run.members@),
            views(order@) == order_upto(clients@, v.members, i as int),
        decreases clients.len() - i,
    {
        if holds(run.members.as_slice(), clients[i].address.as_str()) {
            order.push(clients[i].address.clone());
        }
        i = i + 1;
    }
    let moves = match run.was_on {
        Some(d) => d != run.n,
        None => false,
    };
    let depth = depth_plan(order.as_slice(), opt_str(&run.main_addr), !moves);
    let ghost d = views(depth@);
    let ghost two = views(ex@);
    let mut k: usize = 0;
    proof {
        assert(two + raising(d).take(0) =~= two);
    }
    while k < depth.len()
        invariant
            k <= depth.len(),
            d == views(depth@),
            views(ex@) == two + raising(d).take(k as int),
        decreases depth.len() - k,
    {
        ex.push(d_raise(depth[k].as_str()));
        proof {
            assert(raising(d)[k as int] == raise_of(depth@[k as int]@));
            assert(two + raising(d).take(k + 1) =~= (two + raising(d).take(k as int)).push(raising(d)[k as int]));
        }
        k = k + 1;
    }
    proof {
        assert(raising(d).take(raising(d).len() as int) =~= raising(d));
    }
    assign_desktop(st, run.ws.as_str(), run.n);
    ex
}

/// Once a workspace is raised on a desktop, it is the active one there and on no other desktop, whatever
/// windows there are.
pub proof fn law_raised_is_active(run: RaiseView, st: StateView, now: ConfigView, clients: Seq<Client>)
    ensures
        ({
            let t = run.finished(st, now, clients).0;
            &&& t.active_on(run.n) == Some(run.ws)
            &&& forall|k: u8| #[trigger] t.desktops.contains_key(k) && k != run.n ==> t.desktops[k].active != Some(run.ws)
        }),
{
    let one = st.all_home_from(
        now,
        strangers_upto(clients, run.ws, run.n, clients.len() as int),
        run.n,
        run.after,
        run.cur,
        0,
        run.ex,
    ).0;
    crate::desktop::law_one_desktop(one, run.ws, run.n);
    assert(one.assigned(run.ws, run.n).desktops.contains_key(run.n));
}

/// A window that stands on the desktop as a window of the workspace is not moved by raising it, a window
/// that moves with the workspace keeps its rectangle, and any other takes the rectangle kept for it, else
/// the place of its application.
pub proof fn law_raise_target(run: RaiseView, st: StateView, c: Client, rect: Option<PxRect>)
    ensures
        run.moves() && desk_of(c) == run.was_on ==> run.target(st, c, rect) == Some(rect_of(c)),
        !(run.moves() && desk_of(c) == run.was_on) && !arrives_at(c, run.n, run.before, run.ws) ==> run.target(
            st,
            c,
            rect,
        ) is None,
        !(run.moves() && desk_of(c) == run.was_on) && arrives_at(c, run.n, run.before, run.ws) ==> run.target(
            st,
            c,
            rect,
        ) == match nest_get(st.geom, run.ws, c.address@) {
            Some(r) => Some(r),
            None => rect,
        },
{
}

} // verus!
