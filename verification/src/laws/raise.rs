//! Raising a workspace.
use vstd::prelude::*;

use crate::config::ConfigView;
use crate::desks::at_desk;
use crate::desktop::active_from;
use crate::effects::{begins_with, lemma_begins, lemma_runs_more, runs};
use crate::exprs::{desk_move, park, placing, placing_opt};
use crate::home::{arrives_at, depth_of, entry_names_of, home_of, law_depth_plan, spot_of, Home};
use crate::hypr::{focus_of, has_ws, in_ws, on_hidden, part, raise_of, rect_of, ws_list, Client};
use crate::laws::reading::{addresses_differ, is_seen, law_places_are_read, law_rects_are_kept};
use crate::laws::restore::law_raise_step;
use crate::laws::select::in_order;
use crate::laws::windows::{law_placed, lemma_in_sum, lemma_push, places};
use crate::pending::Target;
use crate::raise::{
    desk_of, held_upto, order_upto, raise_desk, raised_actives, raising, steps_upto, strangers_upto, RaiseView,
};
use crate::rect::PxRect;
use crate::restore::{raise_step_of, RaiseStep};
use crate::state::{DesktopView, StateView};
use crate::table::nest_get;
use crate::text::Str;
use crate::windows::{members, placed};

verus! {

/// Raising an application of a workspace that has no window there starts it, unless the saved session is about to
/// bring its window back: the window goes to the place of the application in the workspace, where it has one,
/// and gets the focus exactly where the raise has the focus and the application is the main one. Nothing else
/// is carried out for it. An application that has a window there is not started.
pub proof fn law_raise_starts(
    run: RaiseView,
    st: StateView,
    cfg: ConfigView,
    now: ConfigView,
    app: Str,
    step: RaiseStep,
    clients: Seq<Client>,
)
    ensures
        ({
            let (r, t, start) = run.one_app(st, cfg, now, app, step, clients);
            let there = exists|c: Client| #[trigger] clients.contains(c) && places(cfg, run.ws, app, c);
            &&& there ==> start is None
            &&& !there && step == RaiseStep::Wait ==> start is None
            &&& !there && step != RaiseStep::Wait ==> {
                &&& start matches Some((target, focus))
                &&& match t.place(cfg, run.ws, app) {
                    Some(rect) => target == Target::Place(rect),
                    None => target == Target::Free(None),
                }
                &&& focus <==> run.focus && run.main_app == Some(app)
            }
            &&& !there ==> r == run
            &&& !there ==> t.cells == st.built(cfg, run.ws).cells && t.moved == st.moved && t.main == st.main && t.geom == st.geom
            &&& !there ==> (t.restore_apps.contains(app) <==> st.restore_apps.contains(app) || step == RaiseStep::LaunchFirst)
        }),
{
    let wins = placed(cfg, clients, run.ws, entry_names_of(cfg, run.ws), app);
    law_placed(cfg, clients, run.ws, app);
    if wins.len() > 0 {
        assert(wins.contains(wins[0]));
    }
    if exists|c: Client| #[trigger] clients.contains(c) && places(cfg, run.ws, app, c) {
        let c = choose|c: Client| #[trigger] clients.contains(c) && places(cfg, run.ws, app, c);
        assert(wins.contains(c));
    }
}

/// Where a window has to stand once the workspace is raised.
pub open spec fn home_in(run: RaiseView, c: Client) -> Home {
    home_of(ws_list(c), run.after, run.cur, spot_of(c))
}

/// What raising a workspace does for one of its windows. A window whose home is the desktop of the raise is one of
/// the windows whose depth is given and is moved there where it stands elsewhere; it keeps its rectangle where
/// it comes along with the workspace, and is placed where it comes from elsewhere and its application has
/// a place. A window whose home is another desktop is sent there where it stands elsewhere.
pub open spec fn is_raised(run: RaiseView, c: Client, rect: Option<PxRect>, r: RaiseView) -> bool {
    let addr = c.address@;
    let carried = run.moves() && desk_of(c) == run.was_on;
    match home_in(run, c) {
        Home::Desktop(k) => if k == run.n {
            &&& r.members.contains(addr)
            &&& desk_of(c) == Some(k) || r.ex.contains(desk_move(addr, k))
            &&& carried ==> runs(r.ex, placing(addr, rect_of(c)))
            &&& !carried && arrives_at(c, run.n, run.before, run.ws) && rect is Some ==> exists|q: PxRect|
                runs(r.ex, #[trigger] placing(addr, q))
        } else {
            desk_of(c) == Some(k) || r.ex.contains(desk_move(addr, k))
        },
        _ => true,
    }
}

/// The run goes on: nothing of it is taken back.
pub open spec fn goes_on(a: RaiseView, b: RaiseView) -> bool {
    &&& b == (RaiseView { ex: b.ex, members: b.members, main_addr: b.main_addr, ..a })
    &&& begins_with(b.ex, a.ex)
    &&& begins_with(b.members, a.members)
    &&& a.main_addr is Some ==> b.main_addr == a.main_addr
}

proof fn lemma_goes_on(a: RaiseView, b: RaiseView, c: RaiseView)
    requires
        goes_on(a, b),
        goes_on(b, c),
    ensures
        goes_on(a, c),
{
    lemma_begins(a.ex, b.ex, c.ex);
    lemma_begins(a.members, b.members, c.members);
}

pub proof fn lemma_prefix_contains<A>(a: Seq<A>, b: Seq<A>, x: A)
    requires
        a.len() <= b.len(),
        b.take(a.len() as int) == a,
        a.contains(x),
    ensures
        b.contains(x),
{
    let k = choose|k: int| 0 <= k < a.len() && a[k] == x;
    assert(b.take(a.len() as int)[k] == b[k]);
}

proof fn lemma_still_raised(run: RaiseView, c: Client, rect: Option<PxRect>, a: RaiseView, b: RaiseView)
    requires
        is_raised(run, c, rect, a),
        goes_on(a, b),
    ensures
        is_raised(run, c, rect, b),
{
    let addr = c.address@;
    lemma_begins(a.ex, b.ex, b.ex);
    let rest = b.ex.skip(a.ex.len() as int);
    if let Home::Desktop(k) = home_in(run, c) {
        if a.ex.contains(desk_move(addr, k)) {
            lemma_prefix_contains(a.ex, b.ex, desk_move(addr, k));
        }
        if k == run.n {
            lemma_prefix_contains(a.members, b.members, addr);
            lemma_runs_more(a.ex, rest, placing(addr, rect_of(c)));
            if exists|q: PxRect| runs(a.ex, #[trigger] placing(addr, q)) {
                let q = choose|q: PxRect| runs(a.ex, #[trigger] placing(addr, q));
                lemma_runs_more(a.ex, rest, placing(addr, q));
            }
        }
    }
}

proof fn lemma_one_raised(
    run: RaiseView,
    st: StateView,
    cfg: ConfigView,
    now: ConfigView,
    app: Str,
    rect: Option<PxRect>,
    c: Client,
    clients: Seq<Client>,
)
    ensures
        ({
            let r = run.one_window(st, cfg, now, app, rect, c, clients).0;
            let here = home_in(run, c) == Home::Desktop(run.n);
            &&& goes_on(run, r)
            &&& is_raised(run, c, rect, r)
            &&& r.members == if here {
                run.members.push(c.address@)
            } else {
                run.members
            }
            &&& r.main_addr == if here && run.main_app == Some(app) && run.main_addr is None {
                Some(c.address@)
            } else {
                run.main_addr
            }
        }),
{
    let addr = c.address@;
    let r = run.one_window(st, cfg, now, app, rect, c, clients).0;
    let none = Seq::<Str>::empty();
    lemma_begins(run.members, none, none);
    lemma_begins(run.ex, none, none);
    assert(run.members + none =~= run.members);
    assert(run.ex + none =~= run.ex);
    if !on_hidden(c) {
        if let Home::Desktop(k) = home_in(run, c) {
            if k == run.n {
                let one = run.leaving(st, now, c, clients);
                let target = run.target(one, c, rect);
                let lead = if desk_of(c) != Some(run.n) {
                    seq![desk_move(addr, run.n)]
                } else {
                    Seq::empty()
                };
                let part = placing_opt(addr, target);
                assert(r.ex =~= run.ex + (lead + part));
                lemma_begins(run.ex, lead + part, none);
                assert(r.members =~= run.members + seq![addr]);
                lemma_begins(run.members, seq![addr], none);
                assert(r.members[run.members.len() as int] == addr);
                if desk_of(c) != Some(run.n) {
                    assert(r.ex[run.ex.len() as int] == desk_move(addr, run.n));
                }
                if let Some(q) = target {
                    lemma_runs_more(placing(addr, q), none, placing(addr, q));
                    lemma_runs_more(lead, part, part);
                    lemma_runs_more(run.ex, lead + part, part);
                    assert(runs(r.ex, placing(addr, q)));
                }
            } else if desk_of(c) != Some(k) {
                let part = st.sending(now, c, k, run.after);
                lemma_begins(run.ex, part, none);
                assert(part[0] == desk_move(addr, k));
                assert(r.ex[run.ex.len() as int] == desk_move(addr, k));
            }
        }
    } else {
        assert(home_in(run, c) == Home::Keep);
    }
}

proof fn lemma_windows_raised(
    run: RaiseView,
    st: StateView,
    cfg: ConfigView,
    now: ConfigView,
    app: Str,
    rect: Option<PxRect>,
    wins: Seq<Client>,
    clients: Seq<Client>,
    i: int,
)
    requires
        0 <= i <= wins.len(),
    ensures
        ({
            let r = run.windows_from(st, cfg, now, app, rect, wins, clients, i).0;
            &&& goes_on(run, r)
            &&& forall|k: int| i <= k < wins.len() ==> is_raised(run, #[trigger] wins[k], rect, r)
            &&& forall|a: Str| #[trigger]
                r.members.contains(a) ==> run.members.contains(a) || exists|k: int|
                    i <= k < wins.len() && (#[trigger] wins[k]).address@ == a && home_in(run, wins[k]) == Home::Desktop(run.n)
            &&& run.main_app != Some(app) ==> r.main_addr == run.main_addr
            &&& run.main_app == Some(app) ==> forall|k: int|
                i <= k < wins.len() && home_in(run, #[trigger] wins[k]) == Home::Desktop(run.n) ==> r.main_addr is Some
            &&& run.main_addr is None && r.main_addr is Some ==> exists|k: int|
                i <= k < wins.len() && r.main_addr == Some((#[trigger] wins[k]).address@) && home_in(run, wins[k])
                    == Home::Desktop(run.n)
        }),
    decreases wins.len() - i,
{
    let r = run.windows_from(st, cfg, now, app, rect, wins, clients, i).0;
    if i < wins.len() {
        let c = wins[i];
        let (a, s) = run.one_window(st, cfg, now, app, rect, c, clients);
        lemma_one_raised(run, st, cfg, now, app, rect, c, clients);
        lemma_windows_raised(a, s, cfg, now, app, rect, wins, clients, i + 1);
        lemma_goes_on(run, a, r);
        assert forall|k: int| i <= k < wins.len() implies is_raised(run, #[trigger] wins[k], rect, r) by {
            if k == i {
                lemma_still_raised(run, c, rect, a, r);
            } else {
                assert(is_raised(a, wins[k], rect, r));
            }
        }
        assert forall|b: Str| #[trigger] r.members.contains(b) implies run.members.contains(b) || exists|k: int|
            i <= k < wins.len() && (#[trigger] wins[k]).address@ == b && home_in(run, wins[k]) == Home::Desktop(run.n) by {
            if a.members.contains(b) {
                lemma_push(run.members, a.members, c.address@, b);
                assert(wins[i] == c);
            } else {
                let k = choose|k: int|
                    i + 1 <= k < wins.len() && (#[trigger] wins[k]).address@ == b && home_in(a, wins[k]) == Home::Desktop(
                        a.n,
                    );
                assert(home_in(run, wins[k]) == home_in(a, wins[k]));
            }
        }
        if run.main_app == Some(app) {
            assert forall|k: int|
                i <= k < wins.len() && home_in(run, #[trigger] wins[k]) == Home::Desktop(run.n) implies r.main_addr is Some by {
                if k > i {
                    assert(home_in(run, wins[k]) == home_in(a, wins[k]));
                }
            }
        }
        if run.main_addr is None && r.main_addr is Some {
            if a.main_addr is Some {
                assert(wins[i] == c);
            } else {
                let k = choose|k: int|
                    i + 1 <= k < wins.len() && r.main_addr == Some((#[trigger] wins[k]).address@) && home_in(a, wins[k])
                        == Home::Desktop(a.n);
                assert(home_in(run, wins[k]) == home_in(a, wins[k]));
            }
        }
    } else {
        let none = Seq::<Str>::empty();
        lemma_begins(run.members, none, none);
        lemma_begins(run.ex, none, none);
        assert(run.members + none =~= run.members);
        assert(run.ex + none =~= run.ex);
    }
}

/// Raising an application of a workspace takes each of its windows there to where it has to stand: to the desktop of
/// the raise, or to another desktop where a workspace of it is active. Hidden windows are left alone. The
/// windows whose depth is given are those that have to stand on the desktop and no other, and the window for
/// the focus is one of the main application, where it has one there.
pub proof fn law_raise_places(
    run: RaiseView,
    st: StateView,
    cfg: ConfigView,
    now: ConfigView,
    app: Str,
    step: RaiseStep,
    clients: Seq<Client>,
)
    ensures
        ({
            let r = run.one_app(st, cfg, now, app, step, clients).0;
            let rect = st.built(cfg, run.ws).place(cfg, run.ws, app);
            let here = |c: Client| clients.contains(c) && places(cfg, run.ws, app, c) && home_in(run, c) == Home::Desktop(run.n);
            &&& goes_on(run, r)
            &&& forall|c: Client| #[trigger]
                clients.contains(c) && places(cfg, run.ws, app, c) ==> is_raised(run, c, rect, r)
            &&& forall|a: Str| #[trigger]
                r.members.contains(a) ==> run.members.contains(a) || exists|c: Client| #[trigger]
                    clients.contains(c) && here(c) && c.address@ == a
            &&& run.main_app != Some(app) ==> r.main_addr == run.main_addr
            &&& run.main_app == Some(app) ==> forall|c: Client| #[trigger]
                clients.contains(c) && here(c) ==> r.main_addr is Some
            &&& run.main_addr is None && r.main_addr is Some ==> exists|c: Client| #[trigger]
                clients.contains(c) && here(c) && r.main_addr == Some(c.address@)
        }),
{
    let wins = placed(cfg, clients, run.ws, entry_names_of(cfg, run.ws), app);
    let one = st.built(cfg, run.ws);
    let rect = one.place(cfg, run.ws, app);
    let r = run.one_app(st, cfg, now, app, step, clients).0;
    let here = |c: Client| clients.contains(c) && places(cfg, run.ws, app, c) && home_in(run, c) == Home::Desktop(run.n);
    law_placed(cfg, clients, run.ws, app);
    lemma_windows_raised(run, one, cfg, now, app, rect, wins, clients, 0);
    assert(r == run.windows_from(one, cfg, now, app, rect, wins, clients, 0).0);
    assert forall|c: Client| #[trigger] clients.contains(c) && places(cfg, run.ws, app, c) implies is_raised(
        run,
        c,
        rect,
        r,
    ) && (here(c) && run.main_app == Some(app) ==> r.main_addr is Some) by {
        assert(wins.contains(c));
        let k = choose|k: int| 0 <= k < wins.len() && wins[k] == c;
        assert(is_raised(run, wins[k], rect, r));
    }
    assert forall|a: Str| #[trigger] r.members.contains(a) implies run.members.contains(a) || exists|c: Client| #[trigger]
        clients.contains(c) && here(c) && c.address@ == a by {
        if !run.members.contains(a) {
            let k = choose|k: int|
                0 <= k < wins.len() && (#[trigger] wins[k]).address@ == a && home_in(run, wins[k]) == Home::Desktop(run.n);
            assert(wins.contains(wins[k]));
            assert(clients.contains(wins[k]) && here(wins[k]));
        }
    }
    if run.main_addr is None && r.main_addr is Some {
        let k = choose|k: int|
            0 <= k < wins.len() && r.main_addr == Some((#[trigger] wins[k]).address@) && home_in(run, wins[k])
                == Home::Desktop(run.n);
        assert(wins.contains(wins[k]));
        assert(clients.contains(wins[k]) && here(wins[k]));
    }
}

// ---- The end of the raise -------------------------------------------------------------

/// The window stands on the desktop for other workspaces only.
pub open spec fn is_stranger(c: Client, ws: Str, n: u8) -> bool {
    desk_of(c) == Some(n) && !in_ws(c, ws) && has_ws(c)
}

proof fn lemma_strangers(s: Seq<Client>, ws: Str, n: u8, k: int)
    requires
        0 <= k <= s.len(),
    ensures
        forall|c: Client| #[trigger]
            strangers_upto(s, ws, n, k).contains(c) <==> is_stranger(c, ws, n) && exists|i: int|
                0 <= i < k && #[trigger] s[i] == c,
    decreases k,
{
    if k > 0 {
        lemma_strangers(s, ws, n, k - 1);
        let a = strangers_upto(s, ws, n, k - 1);
        let b = strangers_upto(s, ws, n, k);
        assert forall|c: Client| #[trigger] b.contains(c) <==> is_stranger(c, ws, n) && exists|i: int|
            0 <= i < k && #[trigger] s[i] == c by {
            lemma_push(a, b, s[k - 1], c);
            if a.contains(c) {
                let i = choose|i: int| 0 <= i < k - 1 && #[trigger] s[i] == c;
                assert(s[i] == c);
            }
            if exists|i: int| 0 <= i < k && #[trigger] s[i] == c {
                let i = choose|i: int| 0 <= i < k && #[trigger] s[i] == c;
                assert(i < k - 1 || c == s[k - 1]);
            }
        }
    }
}

proof fn lemma_order(s: Seq<Client>, among: Seq<Str>, k: int)
    requires
        0 <= k <= s.len(),
    ensures
        forall|a: Str| #[trigger]
            order_upto(s, among, k).contains(a) <==> among.contains(a) && exists|i: int|
                0 <= i < k && (#[trigger] s[i]).address@ == a,
    decreases k,
{
    if k > 0 {
        lemma_order(s, among, k - 1);
        let p = order_upto(s, among, k - 1);
        let q = order_upto(s, among, k);
        assert forall|a: Str| #[trigger] q.contains(a) <==> among.contains(a) && exists|i: int|
            0 <= i < k && (#[trigger] s[i]).address@ == a by {
            lemma_push(p, q, s[k - 1].address@, a);
            if p.contains(a) {
                let i = choose|i: int| 0 <= i < k - 1 && (#[trigger] s[i]).address@ == a;
                assert(s[i].address@ == a);
            }
            if exists|i: int| 0 <= i < k && (#[trigger] s[i]).address@ == a {
                let i = choose|i: int| 0 <= i < k && (#[trigger] s[i]).address@ == a;
                assert(i < k - 1 || a == s[k - 1].address@);
            }
        }
    }
}

/// The window leaves desktop `n` for its home: it is moved to another desktop where a workspace of it is active, or
/// parked where there is none.
pub open spec fn leaves(c: Client, n: u8, active: Map<u8, Str>, cur: u8, ex: Seq<Str>) -> bool {
    match home_of(ws_list(c), active, cur, spot_of(c)) {
        Home::Desktop(k) => k == n || ex.contains(desk_move(c.address@, k)),
        Home::Pool => ex.contains(park(c.address@)),
        Home::Keep => true,
    }
}

/// The expression is one of those that take a window home.
pub open spec fn takes_home(e: Str, c: Client, n: u8, active: Map<u8, Str>, cur: u8) -> bool {
    match home_of(ws_list(c), active, cur, spot_of(c)) {
        Home::Desktop(k) => k != n && (e == desk_move(c.address@, k) || exists|r: PxRect|
            (#[trigger] placing(c.address@, r)).contains(e)),
        Home::Pool => e == park(c.address@),
        Home::Keep => false,
    }
}

pub proof fn lemma_all_leave(
    st: StateView,
    cfg: ConfigView,
    wins: Seq<Client>,
    n: u8,
    active: Map<u8, Str>,
    cur: u8,
    i: int,
    ex: Seq<Str>,
)
    requires
        0 <= i <= wins.len(),
    ensures
        ({
            let e = st.all_home_from(cfg, wins, n, active, cur, i, ex).1;
            &&& begins_with(e, ex)
            &&& forall|k: int| i <= k < wins.len() ==> leaves(#[trigger] wins[k], n, active, cur, e)
            &&& forall|x: Str| #[trigger]
                e.contains(x) ==> ex.contains(x) || exists|k: int|
                    i <= k < wins.len() && takes_home(x, #[trigger] wins[k], n, active, cur)
        }),
    decreases wins.len() - i,
{
    let none = Seq::<Str>::empty();
    if i < wins.len() {
        let c = wins[i];
        let part = st.going(cfg, c, n, active, cur);
        let next = ex + part;
        let e = st.all_home_from(cfg, wins, n, active, cur, i, ex).1;
        lemma_all_leave(st.gone_home(cfg, c, n, active, cur), cfg, wins, n, active, cur, i + 1, next);
        lemma_begins(ex, part, none);
        lemma_begins(ex, next, e);
        match home_of(ws_list(c), active, cur, spot_of(c)) {
            Home::Desktop(k) => {
                if k != n {
                    assert(part[0] == desk_move(c.address@, k));
                    assert(next[ex.len() as int] == desk_move(c.address@, k));
                    lemma_prefix_contains(next, e, desk_move(c.address@, k));
                }
            },
            Home::Pool => {
                assert(part[0] == park(c.address@));
                assert(next[ex.len() as int] == park(c.address@));
                lemma_prefix_contains(next, e, park(c.address@));
            },
            Home::Keep => {},
        }
        assert forall|k: int| i <= k < wins.len() implies leaves(#[trigger] wins[k], n, active, cur, e) by {
            if k == i {
                assert(leaves(c, n, active, cur, e));
            }
        }
        assert forall|x: Str| #[trigger] e.contains(x) implies ex.contains(x) || exists|k: int|
            i <= k < wins.len() && takes_home(x, #[trigger] wins[k], n, active, cur) by {
            if next.contains(x) {
                lemma_in_sum(ex, part, x);
                if part.contains(x) {
                    lemma_going(st, cfg, c, n, active, cur, x);
                    assert(takes_home(x, wins[i], n, active, cur));
                }
            } else {
                let k = choose|k: int| i + 1 <= k < wins.len() && takes_home(x, #[trigger] wins[k], n, active, cur);
                assert(takes_home(x, wins[k], n, active, cur));
            }
        }
    } else {
        lemma_begins(ex, none, none);
        assert(ex + none =~= ex);
    }
}

proof fn lemma_going(st: StateView, cfg: ConfigView, c: Client, n: u8, active: Map<u8, Str>, cur: u8, x: Str)
    requires
        st.going(cfg, c, n, active, cur).contains(x),
    ensures
        takes_home(x, c, n, active, cur),
{
    let part = st.going(cfg, c, n, active, cur);
    let j = choose|j: int| 0 <= j < part.len() && part[j] == x;
    if let Home::Desktop(k) = home_of(ws_list(c), active, cur, spot_of(c)) {
        if j > 0 {
            let v = at_desk(active, k)->Some_0;
            let r = st.arrival(cfg, v, c)->Some_0;
            let p = placing(c.address@, r);
            assert(part =~= seq![desk_move(c.address@, k)] + p);
            assert(p[j - 1] == x);
            assert(p.contains(x));
        }
    }
}

/// The end of a raise: each window that stands on the desktop for other workspaces only leaves it for its home.
/// Windows of no workspace stay, and so does every other window. The window chosen for the focus gets it where
/// the raise has the focus, and no other does. Every window whose depth is given is raised, the main one last
/// unless the workspace moves.
pub proof fn law_raise_ends(run: RaiseView, st: StateView, now: ConfigView, clients: Seq<Client>)
    ensures
        ({
            let ex = run.finished(st, now, clients).1;
            let known = |a: Str| run.members.contains(a) && exists|i: int|
                0 <= i < clients.len() && (#[trigger] clients[i]).address@ == a;
            &&& begins_with(ex, run.ex)
            &&& forall|c: Client| #[trigger]
                clients.contains(c) && is_stranger(c, run.ws, run.n) ==> leaves(c, run.n, run.after, run.cur, ex)
            &&& run.focus && run.main_addr is Some ==> ex.contains(focus_of(run.main_addr->0))
            &&& forall|a: Str| #[trigger] known(a) ==> ex.contains(raise_of(a))
            &&& !run.moves() && run.main_addr is Some && known(run.main_addr->0) ==> ex.last() == raise_of(run.main_addr->0)
            &&& forall|x: Str| #[trigger]
                ex.contains(x) ==> {
                    ||| run.ex.contains(x)
                    ||| exists|c: Client| #[trigger]
                        clients.contains(c) && is_stranger(c, run.ws, run.n) && takes_home(x, c, run.n, run.after, run.cur)
                    ||| run.focus && run.main_addr is Some && x == focus_of(run.main_addr->0)
                    ||| exists|a: Str| #[trigger] known(a) && x == raise_of(a)
                }
        }),
{
    let known = |a: Str| run.members.contains(a) && exists|i: int|
        0 <= i < clients.len() && (#[trigger] clients[i]).address@ == a;
    let k = clients.len() as int;
    let wins = strangers_upto(clients, run.ws, run.n, k);
    let e = st.all_home_from(now, wins, run.n, run.after, run.cur, 0, run.ex).1;
    lemma_strangers(clients, run.ws, run.n, k);
    lemma_all_leave(st, now, wins, run.n, run.after, run.cur, 0, run.ex);
    let focus = match run.main_addr {
        Some(a) => if run.focus {
            seq![focus_of(a)]
        } else {
            Seq::empty()
        },
        None => Seq::empty(),
    };
    let order = order_upto(clients, run.members, k);
    lemma_order(clients, run.members, k);
    let depth = depth_of(order, run.main_addr, !run.moves());
    law_depth_plan(order, run.main_addr, !run.moves());
    lemma_same_multiset(depth, order);
    let up = raising(depth);
    let ex = run.finished(st, now, clients).1;
    assert(ex == e + focus + up);
    lemma_begins(e, focus + up, run.ex);
    assert(e + (focus + up) =~= ex);
    lemma_begins(run.ex, e, ex);
    assert forall|c: Client| #[trigger] clients.contains(c) && is_stranger(c, run.ws, run.n) implies leaves(
        c,
        run.n,
        run.after,
        run.cur,
        ex,
    ) by {
        let i = choose|i: int| 0 <= i < clients.len() && clients[i] == c;
        assert(clients[i] == c);
        assert(wins.contains(c));
        let j = choose|j: int| 0 <= j < wins.len() && wins[j] == c;
        assert(leaves(wins[j], run.n, run.after, run.cur, e));
        match home_of(ws_list(c), run.after, run.cur, spot_of(c)) {
            Home::Desktop(q) => {
                if q != run.n {
                    lemma_prefix_contains(e, ex, desk_move(c.address@, q));
                }
            },
            Home::Pool => lemma_prefix_contains(e, ex, park(c.address@)),
            Home::Keep => {},
        }
    }
    if run.focus && run.main_addr is Some {
        assert(ex[e.len() as int] == focus_of(run.main_addr->0));
    }
    assert forall|a: Str| #[trigger] known(a) implies ex.contains(raise_of(a)) by {
        assert(order.contains(a));
        assert(depth.contains(a));
        let j = choose|j: int| 0 <= j < depth.len() && depth[j] == a;
        assert(up[j] == raise_of(a));
        assert(ex[(e + focus).len() + j] == raise_of(a));
    }
    if !run.moves() && run.main_addr is Some && known(run.main_addr->0) {
        assert(order.contains(run.main_addr->0));
        assert(depth.contains(run.main_addr->0));
        assert(depth.len() > 0);
        assert(up[depth.len() - 1] == raise_of(depth[depth.len() - 1]));
        assert(ex.last() == up.last());
    }
    assert forall|x: Str| #[trigger] ex.contains(x) implies {
        ||| run.ex.contains(x)
        ||| exists|c: Client| #[trigger]
            clients.contains(c) && is_stranger(c, run.ws, run.n) && takes_home(x, c, run.n, run.after, run.cur)
        ||| run.focus && run.main_addr is Some && x == focus_of(run.main_addr->0)
        ||| exists|a: Str| #[trigger] known(a) && x == raise_of(a)
    } by {
        lemma_in_sum(e + focus, up, x);
        lemma_in_sum(e, focus, x);
        if e.contains(x) {
            if !run.ex.contains(x) {
                let j = choose|j: int| 0 <= j < wins.len() && takes_home(x, #[trigger] wins[j], run.n, run.after, run.cur);
                let c = wins[j];
                assert(wins.contains(c));
                let i = choose|i: int| 0 <= i < clients.len() && #[trigger] clients[i] == c;
                assert(clients.contains(c));
            }
        } else if up.contains(x) {
            let j = choose|j: int| 0 <= j < up.len() && up[j] == x;
            assert(up[j] == raise_of(depth[j]));
            assert(depth.contains(depth[j]));
            assert(order.contains(depth[j]));
            assert(known(depth[j]));
        }
    }
}

proof fn lemma_same_multiset(a: Seq<Str>, b: Seq<Str>)
    requires
        a.to_multiset() == b.to_multiset(),
    ensures
        forall|x: Str| #[trigger] a.contains(x) <==> b.contains(x),
        a.len() == b.len(),
{
    broadcast use vstd::seq_lib::group_to_multiset_ensures;

    assert forall|x: Str| #[trigger] a.contains(x) <==> b.contains(x) by {
        assert(a.contains(x) <==> a.to_multiset().count(x) > 0);
        assert(b.contains(x) <==> b.to_multiset().count(x) > 0);
    }
    assert(a.to_multiset().len() == a.len());
    assert(b.to_multiset().len() == b.len());
}

// ---- Which desktop, and which applications ----------------------------------------------

proof fn lemma_active(m: Map<u8, DesktopView>, ws: Str, n: int)
    requires
        0 <= n <= 256,
    ensures
        match active_from(m, ws, n) {
            Some(k) => n <= k && m.contains_key(k) && m[k].active == Some(ws) && forall|j: u8|
                n <= j < k && #[trigger] m.contains_key(j) ==> m[j].active != Some(ws),
            None => forall|j: u8| n <= j && #[trigger] m.contains_key(j) ==> m[j].active != Some(ws),
        },
    decreases 256 - n,
{
    if n < 256 && !(m.contains_key(n as u8) && m[n as u8].active == Some(ws)) {
        lemma_active(m, ws, n + 1);
    }
}

/// A workspace is raised on the desktop that is asked for; else on a desktop where it is active, so that it does not
/// move; else on that of the user.
pub proof fn law_raise_desk(st: StateView, ws: Str, desktop: Option<u8>, current: u8)
    ensures
        ({
            let n = raise_desk(st, ws, desktop, current);
            let active = |k: u8| st.desktops.contains_key(k) && st.desktops[k].active == Some(ws);
            &&& desktop matches Some(k) ==> n == k
            &&& desktop is None && (exists|k: u8| #[trigger] active(k)) ==> active(n)
            &&& desktop is None && !(exists|k: u8| #[trigger] active(k)) ==> n == current
        }),
{
    let active = |k: u8| st.desktops.contains_key(k) && st.desktops[k].active == Some(ws);
    lemma_active(st.desktops, ws, 0);
    if exists|k: u8| #[trigger] active(k) {
        let k = choose|k: u8| #[trigger] active(k);
        assert(st.desktops.contains_key(k));
    }
    if let Some(k) = active_from(st.desktops, ws, 0) {
        assert(active(k));
    }
}

/// Once a workspace is raised, it is the active one of the desktop and of no other, and every other desktop keeps
/// its active workspace.
pub proof fn law_raised_actives(before: Map<u8, Str>, ws: Str, n: u8)
    ensures
        ({
            let after = raised_actives(before, ws, n);
            &&& after.contains_key(n) && after[n] == ws
            &&& forall|k: u8| k != n ==> (#[trigger] after.contains_key(k) <==> before.contains_key(k) && before[k] != ws)
            &&& forall|k: u8| k != n && #[trigger] after.contains_key(k) ==> after[k] == before[k]
        }),
{
}

// ---- Preparing the raise --------------------------------------------------------------

proof fn lemma_steps(cfg: ConfigView, st: StateView, clients: Seq<Client>, ws: Str, apps: Seq<Str>, n: int)
    requires
        0 <= n <= apps.len(),
    ensures
        steps_upto(cfg, st, clients, ws, apps, n).len() == n,
        forall|i: int|
            0 <= i < n ==> #[trigger] steps_upto(cfg, st, clients, ws, apps, n)[i] == raise_step_of(
                cfg,
                st.restore,
                apps[i],
                ws,
                placed(cfg, clients, ws, apps, apps[i]).len() > 0,
            ),
    decreases n,
{
    if n > 0 {
        lemma_steps(cfg, st, clients, ws, apps, n - 1);
    }
}

/// Every entry of a raised workspace has a step, and the saved session decides it exactly for those entries that place no
/// window there: an entry with a window is raised as ever.
pub proof fn law_raise_steps(cfg: ConfigView, st: StateView, clients: Seq<Client>, ws: Str)
    ensures
        ({
            let apps = entry_names_of(cfg, ws);
            let steps = steps_upto(cfg, st, clients, ws, apps, apps.len() as int);
            let there = |i: int| exists|c: Client| #[trigger] clients.contains(c) && places(cfg, ws, apps[i], c);
            &&& steps.len() == apps.len()
            &&& forall|i: int| 0 <= i < apps.len() && there(i) ==> #[trigger] steps[i] == RaiseStep::Normal
            &&& forall|i: int|
                0 <= i < apps.len() && !there(i) ==> #[trigger] steps[i] == raise_step_of(cfg, st.restore, apps[i], ws, false)
        }),
{
    let apps = entry_names_of(cfg, ws);
    let steps = steps_upto(cfg, st, clients, ws, apps, apps.len() as int);
    let there = |i: int| exists|c: Client| #[trigger] clients.contains(c) && places(cfg, ws, apps[i], c);
    lemma_steps(cfg, st, clients, ws, apps, apps.len() as int);
    assert forall|i: int| 0 <= i < apps.len() implies (placed(cfg, clients, ws, apps, #[trigger] apps[i]).len() > 0) == there(i) by {
        let p = placed(cfg, clients, ws, apps, apps[i]);
        law_placed(cfg, clients, ws, apps[i]);
        if p.len() > 0 {
            assert(p.contains(p[0]));
            assert(clients.contains(p[0]) && places(cfg, ws, apps[i], p[0]));
        }
        if there(i) {
            let c = choose|c: Client| #[trigger] clients.contains(c) && places(cfg, ws, apps[i], c);
            assert(p.contains(c));
        }
    }
    assert forall|i: int| 0 <= i < apps.len() && there(i) implies #[trigger] steps[i] == RaiseStep::Normal by {
        law_raise_step(cfg, st.restore, apps[i], ws, true);
        assert(placed(cfg, clients, ws, apps, apps[i]).len() > 0);
    }
    assert forall|i: int| 0 <= i < apps.len() && !there(i) implies #[trigger] steps[i] == raise_step_of(
        cfg,
        st.restore,
        apps[i],
        ws,
        false,
    ) by {
        assert(!(placed(cfg, clients, ws, apps, apps[i]).len() > 0));
    }
}

proof fn lemma_held(apps: Seq<Str>, steps: Seq<RaiseStep>, n: int)
    requires
        0 <= n <= apps.len(),
    ensures
        forall|a: Str| #[trigger]
            held_upto(apps, steps, n).contains(a) <==> exists|i: int|
                0 <= i < n && #[trigger] apps[i] == a && steps[i] != RaiseStep::Normal,
    decreases n,
{
    if n > 0 {
        lemma_held(apps, steps, n - 1);
        let p = held_upto(apps, steps, n - 1);
        let r = held_upto(apps, steps, n);
        assert forall|a: Str| #[trigger] r.contains(a) <==> exists|i: int|
            0 <= i < n && #[trigger] apps[i] == a && steps[i] != RaiseStep::Normal by {
            lemma_push(p, r, apps[n - 1], a);
            if p.contains(a) {
                let i = choose|i: int| 0 <= i < n - 1 && #[trigger] apps[i] == a && steps[i] != RaiseStep::Normal;
                assert(apps[i] == a);
            }
            if exists|i: int| 0 <= i < n && #[trigger] apps[i] == a && steps[i] != RaiseStep::Normal {
                let i = choose|i: int| 0 <= i < n && #[trigger] apps[i] == a && steps[i] != RaiseStep::Normal;
                assert(i < n - 1 || a == apps[n - 1]);
            }
        }
    }
}

/// Windows of other workspaces are kept from exactly those applications whose windows the saved session brings.
pub proof fn law_held(apps: Seq<Str>, steps: Seq<RaiseStep>)
    ensures
        forall|a: Str| #[trigger]
            held_upto(apps, steps, apps.len() as int).contains(a) <==> exists|i: int|
                0 <= i < apps.len() && #[trigger] apps[i] == a && steps[i] != RaiseStep::Normal,
{
    lemma_held(apps, steps, apps.len() as int);
}

/// Before a workspace is raised the layouts are read that the raise disturbs: of the workspace active on the desktop,
/// and of the workspace itself where it is active on another one. Every other workspace is left as it was.
pub proof fn law_before_raise(st: StateView, cfg: ConfigView, ws: Str, n: u8, was_on: Option<u8>, clients: Seq<Client>)
    requires
        in_order(st),
    ensures
        ({
            let t = st.before_raise(cfg, ws, n, was_on, clients);
            let old_ws = st.active_on(n);
            &&& t.desktops == st.desktops
            &&& addresses_differ(clients) && old_ws is Some && old_ws->0 != ws ==> forall|c: Client| #[trigger]
                is_seen(clients, old_ws->0, n, c) ==> nest_get(t.geom, old_ws->0, c.address@) == Some(rect_of(c))
            &&& addresses_differ(clients) && was_on is Some && was_on->0 != n && st.active_on(was_on->0) == Some(ws) ==> forall|
                c: Client,
            | #[trigger]
                is_seen(clients, ws, was_on->0, c) ==> nest_get(t.geom, ws, c.address@) == Some(rect_of(c))
            &&& forall|x: Str, y: Str|
                x != ws && old_ws != Some(x) ==> #[trigger] nest_get(t.geom, x, y) == nest_get(st.geom, x, y)
        }),
{
    let one = match st.active_on(n) {
        Some(o) => st.absorbed(cfg, o, n, clients),
        None => st,
    };
    if let Some(o) = st.active_on(n) {
        law_rects_are_kept(st, cfg, o, n, clients);
        law_places_are_read(st, cfg, o, n, clients);
    }
    if let Some(k) = was_on {
        if k != n {
            law_rects_are_kept(one, cfg, ws, k, clients);
            law_places_are_read(one, cfg, ws, k, clients);
        }
    }
}

} // verus!
