//! Windows that are taken into workspaces and detached from them.
use vstd::prelude::*;

use crate::adopt::{
    capture_exprs, detached, detached_state, free_rect, giving, joined_in, moving_to, not_foreign, or_empty, settled,
    settled_focus, settled_state, settling, shares_without, sharing, unsharing,
};
use crate::area::centered;
use crate::config::{App, ConfigView};
use crate::desks::at_desk;
use crate::desktop::{lemma_without, without};
use crate::effects::{
    belongs_after, entering, law_ws_list, leaving, lemma_after_more, lemma_entering_apart, lemma_no_tags,
    lemma_runs_more, lemma_tag_same, lemma_tag_text, no_tag, runs,
};
use crate::exprs::{desk_move, park, placing, placing_opt};
use crate::extra::{detach_of, merged, DetachStepView, Free, JoinView};
use crate::home::{active_among, actives_of, entry_names_of, law_home_follows_user, law_home_is_active, spot_of, Home};
use crate::hypr::{
    app_instance, app_of, close_of, focus_of, in_ws, instance_tag, on_hidden, part, position_of, rect_of, resize_of,
    tag_of, top_text, ws_list, Client,
};
use crate::laws::desks::awaited_on;
use crate::laws::restore::{lemma_instances, lemma_quiet};
use crate::laws::select::in_order;
use crate::laws::windows::{lemma_in_sum, lemma_push};
use crate::layout::lemma_nest_put;
use crate::pending::{PendingView, Target};
use crate::raise::desk_of;
use crate::rect::{fits, PxRect};
use crate::restore::{focusing_opt, given, matched};
use crate::state::{place_only, ExtraAppView, ForeignView, StateView};
use crate::table::{lemma_del_get, lemma_put_get, nest_at, nest_get, nest_put, tab_del, tab_get, tab_put, tab_sorted};
use crate::text::Str;
use crate::windows::{entry_exprs, entry_of, instances, law_least_free, least_free};

verus! {

/// Once the expressions were carried out the window belongs to the given workspace besides those that it belongs to,
/// and where none is given to the same ones as before.
pub open spec fn enters(c: Client, ws: Option<Str>, ex: Seq<Str>) -> bool {
    forall|v: Str| #[trigger] belongs_after(c, v, ex) <==> in_ws(c, v) || ws == Some(v)
}

proof fn lemma_enters(c: Client, app: Str, num: nat, ws: Option<Str>, rest: Seq<Str>)
    requires
        forall|i: int| 0 <= i < rest.len() ==> no_tag(#[trigger] rest[i]),
    ensures
        enters(c, ws, entry_exprs(c.address@, app, num, ws) + rest),
{
    reveal(entering);
    reveal(leaving);
    reveal_strlit("ws:");
    reveal_strlit("-ws:");
    reveal_strlit("app:");
    let addr = c.address@;
    let first = entry_exprs(addr, app, num, ws);
    let t = instance_tag(app, num);
    assert(t[0] == "app:"@[0]);
    assert forall|v: Str| #[trigger] belongs_after(c, v, first + rest) <==> in_ws(c, v) || ws == Some(v) by {
        let (on, off) = (entering(addr, v), leaving(addr, v));
        lemma_quiet(rest, addr, v);
        lemma_after_more(c, v, first, rest);
        lemma_after_more(c, v, Seq::empty(), first);
        assert(Seq::<Str>::empty() + first =~= first);
        assert(first[0] == tag_of(addr, t));
        if first[0] == on {
            lemma_tag_same(addr, t, "ws:"@ + v);
            assert(t[0] == ("ws:"@ + v)[0]);
        }
        if first[0] == off {
            lemma_tag_same(addr, t, "-ws:"@ + v);
            assert(t[0] == ("-ws:"@ + v)[0]);
        }
        if let Some(w) = ws {
            assert(first[1] == entering(addr, w));
            if first[1] == on {
                lemma_tag_same(addr, "ws:"@ + w, "ws:"@ + v);
                assert(("ws:"@ + w).skip(3) =~= w);
                assert(("ws:"@ + v).skip(3) =~= v);
            }
            lemma_entering_apart(addr, w, addr, v);
            if w == v {
                assert(first.contains(on)) by {
                    assert(first[1] == on);
                }
            }
        }
        if first.contains(on) {
            let i = choose|i: int| 0 <= i < first.len() && first[i] == on;
            assert(i == 0 || i == 1);
        }
        if first.contains(off) {
            let i = choose|i: int| 0 <= i < first.len() && first[i] == off;
            assert(i == 0 || i == 1);
        }
    }
}

proof fn lemma_placing_quiet(addr: Str, r: PxRect)
    ensures
        forall|i: int| 0 <= i < placing(addr, r).len() ==> no_tag(#[trigger] placing(addr, r)[i]),
{
    lemma_no_tags(addr);
    let p = placing(addr, r);
    assert(p.len() == 2);
    assert(p[0] == resize_of(addr, r) || p[0] == position_of(addr, r));
    assert(p[1] == resize_of(addr, r) || p[1] == position_of(addr, r));
}

/// A window bears the number in the application.
pub open spec fn is_borne(clients: Seq<Client>, app: Str, k: nat) -> bool {
    exists|i: int| 0 <= i < clients.len() && app_instance(#[trigger] clients[i]) == Some((app, k))
}

/// The least number from one on that no window of the application bears.
pub open spec fn is_free_number(clients: Seq<Client>, app: Str, num: nat) -> bool {
    1 <= num && !is_borne(clients, app, num) && forall|k: nat| 1 <= k < num ==> #[trigger] is_borne(clients, app, k)
}

proof fn lemma_free_number(clients: Seq<Client>, app: Str)
    ensures
        is_free_number(clients, app, least_free(instances(clients, app))),
{
    let used = instances(clients, app);
    lemma_instances(clients, app, clients.len() as int);
    law_least_free(used);
    assert forall|k: nat| #[trigger] is_borne(clients, app, k) == used.contains(k) by {}
}

/// A window that its application opened by itself gets the least free number of the application and enters the
/// workspace where one is given, and no other. It takes the given place; without one it takes the place of the
/// application where it stands on a desktop, and stays where it does not.
pub proof fn law_captured_window(
    st: StateView,
    cfg: ConfigView,
    c: Client,
    clients: Seq<Client>,
    app: Str,
    place: Option<PxRect>,
    ws: Option<Str>,
)
    ensures
        ({
            let ex = capture_exprs(st, cfg, c, clients, app, place, ws);
            let at = if place is Some {
                place
            } else if desk_of(c) is Some {
                st.open_place(cfg, ws, app)
            } else {
                None
            };
            &&& enters(c, ws, ex)
            &&& exists|num: nat|
                is_free_number(clients, app, num) && ex[0] == tag_of(c.address@, #[trigger] instance_tag(app, num))
            &&& at matches Some(r) ==> runs(ex, placing(c.address@, r))
            &&& at is None ==> forall|r: PxRect, e: Str| #[trigger]
                placing(c.address@, r).contains(e) ==> !#[trigger] ex.contains(e)
        }),
{
    let num = least_free(instances(clients, app));
    let at = st.capture_place(cfg, c, app, place, ws);
    let rest = placing_opt(c.address@, at);
    let first = entry_exprs(c.address@, app, num, ws);
    let ex = first + rest;
    lemma_free_number(clients, app);
    if let Some(r) = at {
        lemma_placing_quiet(c.address@, r);
        lemma_runs_more(first, rest, rest);
    } else {
        assert forall|r: PxRect, e: Str| #[trigger] placing(c.address@, r).contains(e) implies !#[trigger] ex.contains(e) by {
            lemma_placing_quiet(c.address@, r);
            reveal(no_tag);
            let p = placing(c.address@, r);
            let j = choose|j: int| 0 <= j < p.len() && p[j] == e;
            assert(no_tag(p[j]));
            if ex.contains(e) {
                let i = choose|i: int| 0 <= i < ex.len() && ex[i] == e;
                assert(i == 0 || i == 1);
                if i == 1 {
                    assert(ex[1] == tag_of(c.address@, "ws:"@ + ws->0));
                } else {
                    assert(ex[0] == tag_of(c.address@, instance_tag(app, num)));
                }
            }
        }
    }
    lemma_enters(c, app, num, ws, rest);
    assert(ex[0] == tag_of(c.address@, instance_tag(app, num)));
}

/// The rectangle of a window that is taken into a workspace from a desktop is kept for it there: its place, or
/// where it has none the rectangle that it has. A window elsewhere, and a window of no workspace, has none kept.
pub proof fn law_captured_rect(st: StateView, cfg: ConfigView, c: Client, app: Str, place: Option<PxRect>, ws: Option<Str>)
    requires
        in_order(st),
    ensures
        ({
            let t = st.captured(cfg, c, app, place, ws);
            let at = if place is Some {
                place
            } else {
                st.open_place(cfg, ws, app)
            };
            &&& ws is Some && desk_of(c) is Some ==> nest_get(t.geom, ws->0, c.address@) == Some(
                if at is Some {
                    at->0
                } else {
                    rect_of(c)
                },
            )
            &&& forall|x: Str, y: Str|
                ws != Some(x) || y != c.address@ || desk_of(c) is None ==> #[trigger] nest_get(t.geom, x, y) == nest_get(
                    st.geom,
                    x,
                    y,
                )
        }),
{
    if ws is Some && desk_of(c) is Some {
        let r = match st.capture_place(cfg, c, app, place, ws) {
            Some(r) => r,
            None => rect_of(c),
        };
        lemma_nest_put(st.geom, ws->0, c.address@, r);
    }
}

/// None of the expressions is a tag.
#[verifier::opaque]
pub open spec fn is_quiet(ex: Seq<Str>) -> bool {
    forall|i: int| 0 <= i < ex.len() ==> no_tag(#[trigger] ex[i])
}

/// The place that a window is started for; none for the pool.
pub open spec fn target_rect(p: PendingView, c: Client, mon: (i32, i32)) -> Option<PxRect> {
    match p.target {
        Target::Pool => None,
        Target::Place(r) => Some(r),
        Target::Free(Some(r)) => Some(r),
        Target::Free(None) => Some(centered(c.size, mon)),
    }
}

proof fn lemma_settling(c: Client, p: PendingView, mon: (i32, i32))
    ensures
        ({
            let mid = settling(c, p, mon);
            &&& is_quiet(mid)
            &&& p.target == Target::Pool ==> mid.contains(park(c.address@))
            &&& target_rect(p, c, mon) matches Some(x) ==> runs(mid, placing(c.address@, x)) && (desk_of(c) == Some(p.desktop)
                || mid.contains(desk_move(c.address@, p.desktop)))
        }),
{
    reveal(is_quiet);
    let addr = c.address@;
    let mid = settling(c, p, mon);
    let head = moving_to(c, p.desktop);
    lemma_no_tags(addr);
    if let Some(x) = target_rect(p, c, mon) {
        let q = placing(addr, x);
        lemma_placing_quiet(addr, x);
        lemma_runs_more(head, q, q);
        assert(mid == head + q);
        assert forall|i: int| 0 <= i < mid.len() implies no_tag(#[trigger] mid[i]) by {
            if i >= head.len() {
                assert(mid[i] == q[i - head.len()]);
            }
        }
        if desk_of(c) != Some(p.desktop) {
            assert(mid[0] == desk_move(addr, p.desktop));
        }
    } else {
        assert(mid[0] == park(addr));
    }
}

proof fn lemma_then(c: Client, app: Str, num: nat, ws: Option<Str>, mid: Seq<Str>, f: Option<Str>)
    requires
        is_quiet(mid),
    ensures
        ({
            let first = entry_exprs(c.address@, app, num, ws);
            let ex = first + mid + focusing_opt(f);
            &&& enters(c, ws, ex)
            &&& ex[0] == tag_of(c.address@, instance_tag(app, num))
            &&& forall|part: Seq<Str>| #[trigger] runs(mid, part) ==> runs(ex, part)
            &&& forall|x: Str| #[trigger] mid.contains(x) ==> ex.contains(x)
            &&& f matches Some(a) ==> ex.len() >= 2 && ex.skip(ex.len() - 2) == seq![focus_of(a), top_text()]
            &&& f is None ==> ex == first + mid
        }),
{
    reveal(is_quiet);
    let first = entry_exprs(c.address@, app, num, ws);
    let last = focusing_opt(f);
    let rest = mid + last;
    let ex = first + mid + last;
    assert(ex =~= first + rest);
    if let Some(a) = f {
        lemma_no_tags(a);
        assert(ex.skip(ex.len() - 2) =~= seq![focus_of(a), top_text()]);
    } else {
        assert(ex =~= first + mid);
    }
    assert forall|i: int| 0 <= i < rest.len() implies no_tag(#[trigger] rest[i]) by {
        if i < mid.len() {
            assert(rest[i] == mid[i]);
        } else {
            assert(rest[i] == last[i - mid.len()]);
        }
    }
    lemma_enters(c, app, num, ws, rest);
    assert(ex[0] == first[0]);
    assert forall|part: Seq<Str>| #[trigger] runs(mid, part) implies runs(ex, part) by {
        lemma_runs_more(first, mid, part);
        lemma_runs_more(first + mid, last, part);
    }
    assert forall|x: Str| #[trigger] mid.contains(x) implies ex.contains(x) by {
        let i = choose|i: int| 0 <= i < mid.len() && mid[i] == x;
        assert(ex[first.len() + i] == x);
    }
}

/// The window of an application that was started and fulfils no record: it gets the least free number and enters the
/// workspace that it was started for. One started for the pool is parked. Another one comes to the desktop that it
/// was started for, into its place, and without one into the middle of the screen. It gets the focus exactly where
/// that was asked for.
pub proof fn law_settled(
    cfg: ConfigView,
    file: ConfigView,
    st: StateView,
    c: Client,
    clients: Seq<Client>,
    p: PendingView,
    cmd: Seq<Str>,
    cwd: Option<Str>,
    current: u8,
    mon: (i32, i32),
)
    requires
        matched(st.restore, Some(p.app), Seq::empty(), p.workspace) is None,
    ensures
        ({
            let r = settled(cfg, file, st, c, clients, p, cmd, cwd, current, mon);
            &&& r.restored is None
            &&& is_free_number(clients, p.app, r.num)
            &&& enters(c, p.workspace, r.ex)
            &&& r.ex[0] == tag_of(c.address@, instance_tag(p.app, r.num))
            &&& p.target == Target::Pool ==> r.ex.contains(park(c.address@))
            &&& target_rect(p, c, mon) matches Some(x) ==> runs(r.ex, placing(c.address@, x)) && (desk_of(c) == Some(p.desktop) || r.ex.contains(
                desk_move(c.address@, p.desktop),
            ))
            &&& p.focus ==> r.ex.len() >= 2 && r.ex.skip(r.ex.len() - 2) == seq![focus_of(c.address@), top_text()]
            &&& !p.focus && p.desktop != current || !p.focus && p.workspace is None ==> r.ex == entry_exprs(
                c.address@,
                p.app,
                r.num,
                p.workspace,
            ) + settling(c, p, mon)
        }),
{
    let num = least_free(instances(clients, p.app));
    let mid = settling(c, p, mon);
    let (cfg2, one) = settled_state(cfg, file, st, c, p, cmd, cwd, mon);
    lemma_free_number(clients, p.app);
    lemma_settling(c, p, mon);
    lemma_then(c, p.app, num, p.workspace, mid, settled_focus(cfg2, one, c, clients, p, current));
}

// ---- Detaching ----------------------------------------------------------------------------

proof fn lemma_close_quiet(addr: Str)
    ensures
        no_tag(close_of(addr)),
{
    reveal(no_tag);
    reveal_strlit("hl.dsp.window.close({ ");
    assert forall|a: Str, t: Str| close_of(addr) != #[trigger] tag_of(a, t) by {
        lemma_tag_text(a, t);
        assert(close_of(addr)[14] == 'c');
    }
}

proof fn lemma_leaves(c: Client, w: Str, rest: Seq<Str>)
    requires
        forall|i: int| 0 <= i < rest.len() ==> no_tag(#[trigger] rest[i]),
    ensures
        forall|v: Str| #[trigger]
            belongs_after(c, v, seq![tag_of(c.address@, "-"@ + ("ws:"@ + w))] + rest) <==> in_ws(c, v) && v != w,
{
    reveal(entering);
    reveal(leaving);
    reveal_strlit("-");
    reveal_strlit("ws:");
    reveal_strlit("-ws:");
    let addr = c.address@;
    let first = seq![tag_of(addr, "-"@ + ("ws:"@ + w))];
    assert("-"@ + ("ws:"@ + w) =~= "-ws:"@ + w);
    assert(first[0] == leaving(addr, w));
    assert forall|v: Str| #[trigger] belongs_after(c, v, first + rest) <==> in_ws(c, v) && v != w by {
        let (on, off) = (entering(addr, v), leaving(addr, v));
        lemma_quiet(rest, addr, v);
        lemma_after_more(c, v, first, rest);
        lemma_after_more(c, v, Seq::empty(), first);
        assert(Seq::<Str>::empty() + first =~= first);
        lemma_entering_apart(addr, v, addr, w);
        if first.contains(on) {
            assert(first[0] == on);
        }
        if first.contains(off) {
            lemma_tag_same(addr, "-ws:"@ + w, "-ws:"@ + v);
            assert(("-ws:"@ + w).skip(4) =~= w);
            assert(("-ws:"@ + v).skip(4) =~= v);
        }
        if v == w {
            assert(first.contains(off)) by {
                assert(first[0] == off);
            }
        }
    }
}

proof fn lemma_rest_of(c: Client, w: Str, active: Map<u8, Str>)
    ensures
        forall|v: Str| #[trigger] without(ws_list(c), w).contains(v) <==> in_ws(c, v) && v != w,
        without(ws_list(c), w).len() == 0 <==> forall|v: Str| #[trigger] in_ws(c, v) ==> v == w,
        forall|k: u8| #[trigger]
            active_among(without(ws_list(c), w), active, k) <==> awaited_on(c, active, k) && active[k] != w,
{
    let l = ws_list(c);
    let r = without(l, w);
    law_ws_list(c);
    lemma_without(l, w, l.len() as int);
    assert forall|v: Str| #[trigger] r.contains(v) <==> in_ws(c, v) && v != w by {
        if l.contains(v) {
            let i = choose|i: int| 0 <= i < l.len() && l[i] == v;
            assert(l[i] == v);
        }
    }
    if r.len() > 0 {
        assert(r.contains(r[0]));
    }
    if exists|v: Str| #[trigger] in_ws(c, v) && v != w {
        let v = choose|v: Str| #[trigger] in_ws(c, v) && v != w;
        assert(r.contains(v));
    }
}

/// Detaching does nothing without an active window or an active workspace, and to a window that the active workspace
/// does not describe. Otherwise the window belongs to every workspace that it belonged to but the active one. It is
/// closed exactly where it belongs to no other. Where it does and is not hidden, it goes to a desktop where another
/// workspace of it is active, that of the user first, and is parked where there is none.
pub proof fn law_detached(
    cfg: ConfigView,
    file: ConfigView,
    st: StateView,
    active: Option<Client>,
    n: u8,
    clients: Seq<Client>,
    after: Seq<Client>,
)
    ensures
        ({
            let (cfg2, t, ex) = detached(cfg, file, st, active, n, clients, after);
            let w = st.active_on(n)->0;
            let c = active->0;
            let desks = actives_of(st.desktops);
            let fits = active is Some && st.active_on(n) is Some && entry_of(cfg, w, entry_names_of(cfg, w), c) is Some
                && app_of(c) is Some;
            let other = |k: u8| awaited_on(c, desks, k) && desks[k] != w;
            let alone = forall|v: Str| #[trigger] in_ws(c, v) ==> v == w;
            &&& !fits ==> ex.len() == 0 && cfg2 == cfg
            &&& fits ==> {
                &&& forall|v: Str| #[trigger] belongs_after(c, v, ex) <==> in_ws(c, v) && v != w
                &&& alone ==> ex.len() == 2 && ex[1] == close_of(c.address@)
                &&& !alone && !on_hidden(c) && (exists|k: u8| #[trigger] other(k)) ==> exists|k: u8| #[trigger]
                    other(k) && (other(n) ==> k == n) && (k == n && ex.len() == 1 || k != n && ex.len() > 1 && ex[1] == desk_move(
                        c.address@,
                        k,
                    ))
                &&& !alone && !on_hidden(c) && (forall|k: u8| !#[trigger] other(k)) ==> ex.len() == 2 && ex[1] == park(c.address@)
                &&& !alone && on_hidden(c) ==> ex.len() == 1
            }
        }),
{
    if active is Some && st.active_on(n) is Some {
        let w = st.active_on(n)->0;
        let c = active->0;
        let addr = c.address@;
        let desks = actives_of(st.desktops);
        let other = |k: u8| awaited_on(c, desks, k) && desks[k] != w;
        let untag = seq![tag_of(addr, "-"@ + ("ws:"@ + w))];
        let (cfg2, t, ex) = detached(cfg, file, st, active, n, clients, after);
        let rest = without(ws_list(c), w);
        lemma_rest_of(c, w, desks);
        lemma_no_tags(addr);
        match detach_of(cfg, clients, Some(w), nest_at(st.extra, w), active, desks, n) {
            DetachStepView::Skip(_) => {},
            DetachStepView::Close { app, drop_extra, last } => {
                lemma_close_quiet(addr);
                assert(ex =~= untag + seq![close_of(addr)]);
                lemma_leaves(c, w, seq![close_of(addr)]);
            },
            DetachStepView::Leave { app, home, drop_extra } => {
                let (cfg3, two) = detached_state(cfg, file, st.absorbed(cfg, w, n, clients), c, w, app, drop_extra, false, after);
                if !on_hidden(c) {
                    law_home_is_active(rest, desks, n, spot_of(c));
                    law_home_follows_user(rest, desks, n, spot_of(c));
                    assert forall|k: u8| #[trigger] other(k) == active_among(rest, desks, k) by {}
                }
                match home {
                    Home::Desktop(k) => {
                        if k != n {
                            let s = two.sending(cfg3, c, k, desks);
                            lemma_sending_quiet(two, cfg3, c, k, desks);
                            assert(ex == untag + s);
                            lemma_leaves(c, w, s);
                            assert(ex[1] == s[0]);
                        } else {
                            assert(ex =~= untag + Seq::<Str>::empty());
                            lemma_leaves(c, w, Seq::empty());
                        }
                        assert(other(k));
                    },
                    Home::Pool => {
                        assert(ex =~= untag + seq![park(addr)]);
                        lemma_leaves(c, w, seq![park(addr)]);
                    },
                    Home::Keep => {
                        assert(ex =~= untag + Seq::<Str>::empty());
                        lemma_leaves(c, w, Seq::empty());
                    },
                }
            },
        }
    }
}

proof fn lemma_sending_quiet(st: StateView, cfg: ConfigView, c: Client, k: u8, active: Map<u8, Str>)
    ensures
        st.sending(cfg, c, k, active).len() > 0,
        st.sending(cfg, c, k, active)[0] == desk_move(c.address@, k),
        forall|i: int| 0 <= i < st.sending(cfg, c, k, active).len() ==> no_tag(#[trigger] st.sending(cfg, c, k, active)[i]),
{
    let s = st.sending(cfg, c, k, active);
    lemma_no_tags(c.address@);
    if let Some(v) = at_desk(active, k) {
        if let Some(r) = st.arrival(cfg, v, c) {
            lemma_placing_quiet(c.address@, r);
            let p = placing(c.address@, r);
            assert(s =~= seq![desk_move(c.address@, k)] + p);
            assert forall|i: int| 0 <= i < s.len() implies no_tag(#[trigger] s[i]) by {
                if i > 0 {
                    assert(s[i] == p[i - 1]);
                }
            }
        }
    }
}

// ---- Shared windows -----------------------------------------------------------------------

proof fn lemma_kept_shares(plan: Seq<(int, Str)>, skip: Seq<Str>, n: int)
    requires
        0 <= n <= plan.len(),
    ensures
        forall|x: (int, Str)| #[trigger]
            shares_without(plan, skip, n).contains(x) <==> !skip.contains(x.1) && exists|k: int| 0 <= k < n && #[trigger] plan[k] == x,
    decreases n,
{
    if n > 0 {
        lemma_kept_shares(plan, skip, n - 1);
        let p = shares_without(plan, skip, n - 1);
        let r = shares_without(plan, skip, n);
        assert forall|x: (int, Str)| #[trigger] r.contains(x) <==> !skip.contains(x.1) && exists|k: int|
            0 <= k < n && #[trigger] plan[k] == x by {
            lemma_push(p, r, plan[n - 1], x);
            if p.contains(x) {
                let k = choose|k: int| 0 <= k < n - 1 && #[trigger] plan[k] == x;
                assert(plan[k] == x);
            }
            if exists|k: int| 0 <= k < n && #[trigger] plan[k] == x {
                let k = choose|k: int| 0 <= k < n && #[trigger] plan[k] == x;
                assert(k < n - 1 || x == plan[n - 1]);
            }
        }
    }
}

proof fn lemma_sharing(clients: Seq<Client>, plan: Seq<(int, Str)>, ws: Str, n: int)
    requires
        0 <= n <= plan.len(),
    ensures
        sharing(clients, plan, ws, n).len() == n,
        forall|k: int|
            0 <= k < n ==> #[trigger] sharing(clients, plan, ws, n)[k] == tag_of(clients[plan[k].0].address@, "ws:"@ + ws),
    decreases n,
{
    if n > 0 {
        lemma_sharing(clients, plan, ws, n - 1);
    }
}

/// Sharing lets exactly those windows of the plan enter the workspace whose application is not skipped.
pub proof fn law_shared(clients: Seq<Client>, plan: Seq<(int, Str)>, ws: Str, skip: Seq<Str>)
    ensures
        ({
            let p = shares_without(plan, skip, plan.len() as int);
            let ex = sharing(clients, p, ws, p.len() as int);
            forall|e: Str| #[trigger]
                ex.contains(e) <==> exists|k: int|
                    0 <= k < plan.len() && !skip.contains((#[trigger] plan[k]).1) && e == entering(clients[plan[k].0].address@, ws)
        }),
{
    reveal(entering);
    let p = shares_without(plan, skip, plan.len() as int);
    let ex = sharing(clients, p, ws, p.len() as int);
    lemma_kept_shares(plan, skip, plan.len() as int);
    lemma_sharing(clients, p, ws, p.len() as int);
    assert forall|e: Str| #[trigger] ex.contains(e) <==> exists|k: int|
        0 <= k < plan.len() && !skip.contains((#[trigger] plan[k]).1) && e == entering(clients[plan[k].0].address@, ws) by {
        if ex.contains(e) {
            let i = choose|i: int| 0 <= i < ex.len() && ex[i] == e;
            assert(p.contains(p[i]));
            let k = choose|k: int| 0 <= k < plan.len() && #[trigger] plan[k] == p[i];
            assert(!skip.contains(plan[k].1));
        }
        if exists|k: int|
            0 <= k < plan.len() && !skip.contains((#[trigger] plan[k]).1) && e == entering(clients[plan[k].0].address@, ws) {
            let k = choose|k: int|
                0 <= k < plan.len() && !skip.contains((#[trigger] plan[k]).1) && e == entering(clients[plan[k].0].address@, ws);
            assert(p.contains(plan[k]));
            let i = choose|i: int| 0 <= i < p.len() && p[i] == plan[k];
            assert(ex[i] == e);
        }
    }
}

/// Bringing membership in line takes windows out of exactly the workspaces of the pairs that are wrong, and puts them into
/// exactly those of the pairs that are derived.
pub proof fn law_synced(stale: Seq<(Str, Str)>, given: Seq<(Str, Str)>)
    ensures
        forall|e: Str| #[trigger]
            (unsharing(stale) + giving(given)).contains(e) <==> {
                ||| exists|k: int| 0 <= k < stale.len() && e == leaving((#[trigger] stale[k]).0, stale[k].1)
                ||| exists|k: int| 0 <= k < given.len() && e == entering((#[trigger] given[k]).0, given[k].1)
            },
{
    reveal(entering);
    reveal(leaving);
    reveal_strlit("-");
    reveal_strlit("ws:");
    reveal_strlit("-ws:");
    let a = unsharing(stale);
    let b = giving(given);
    assert forall|k: int| 0 <= k < stale.len() implies #[trigger] a[k] == leaving(stale[k].0, stale[k].1) by {
        assert("-"@ + ("ws:"@ + stale[k].1) =~= "-ws:"@ + stale[k].1);
    }
    assert forall|e: Str| #[trigger] (a + b).contains(e) <==> {
        ||| exists|k: int| 0 <= k < stale.len() && e == leaving((#[trigger] stale[k]).0, stale[k].1)
        ||| exists|k: int| 0 <= k < given.len() && e == entering((#[trigger] given[k]).0, given[k].1)
    } by {
        lemma_in_sum(a, b, e);
        if a.contains(e) {
            let i = choose|i: int| 0 <= i < a.len() && a[i] == e;
            assert(e == leaving(stale[i].0, stale[i].1));
        }
        if b.contains(e) {
            let i = choose|i: int| 0 <= i < b.len() && b[i] == e;
            assert(e == entering(given[i].0, given[i].1));
        }
        if exists|k: int| 0 <= k < stale.len() && e == leaving((#[trigger] stale[k]).0, stale[k].1) {
            let k = choose|k: int| 0 <= k < stale.len() && e == leaving((#[trigger] stale[k]).0, stale[k].1);
            assert(a[k] == e);
        }
        if exists|k: int| 0 <= k < given.len() && e == entering((#[trigger] given[k]).0, given[k].1) {
            let k = choose|k: int| 0 <= k < given.len() && e == entering((#[trigger] given[k]).0, given[k].1);
            assert(b[k] == e);
        }
    }
}

// ---- A window that joins ------------------------------------------------------------------

proof fn lemma_only_records_go(st: StateView, dropped: Seq<(Str, Str, Str)>, i: int)
    requires
        0 <= i <= dropped.len(),
    ensures
        ({
            let t = st.without_extras_from(dropped, i);
            t == (StateView { extra: t.extra, cells: t.cells, moved: t.moved, ..st })
        }),
    decreases dropped.len() - i,
{
    if i < dropped.len() {
        lemma_only_records_go(st.without_extra(dropped[i].0, dropped[i].1), dropped, i + 1);
    }
}

/// The window gets the tags of the application and of the workspace, with a number that no window of the application has.
pub open spec fn joins(c: Client, clients: Seq<Client>, app: Str, ws: Option<Str>, ex: Seq<Str>) -> bool {
    &&& enters(c, ws, ex)
    &&& exists|num: nat| is_free_number(clients, app, num) && ex[0] == tag_of(c.address@, #[trigger] instance_tag(app, num))
}

/// A window that joins is from then on one of an application: it gets its tags and, where it has no entry yet, the place
/// that is free for it or the middle of the monitor. A window that stays free is put down with its rectangle and its
/// command, and nothing is done to it. No other window is concerned, and no desktop changes.
pub proof fn law_joined(
    cfg: ConfigView,
    file: ConfigView,
    st: StateView,
    c: Client,
    clients: Seq<Client>,
    ws: Option<Str>,
    join: JoinView,
    cmd: Seq<Str>,
    cwd: Option<Str>,
    mon: (i32, i32),
)
    requires
        tab_sorted(st.foreign),
    ensures
        ({
            let (cfg2, t, ex) = joined_in(cfg, file, st, c, clients, ws, join, cmd, cwd, mon);
            &&& tab_get(t.foreign, c.address@) == if join is Free {
                Some(ForeignView { rect: rect_of(c), cmd, cwd })
            } else {
                None
            }
            &&& forall|a: Str| a != c.address@ ==> #[trigger] tab_get(t.foreign, a) == tab_get(st.foreign, a)
            &&& t.desktops == st.desktops && t.focus == st.focus && t.restore == st.restore
            &&& match join {
                JoinView::Free(_) => cfg2 == cfg && ex.len() == 0 && t == (StateView { foreign: t.foreign, ..st }),
                JoinView::App(app) => cfg2 == cfg && t.extra == st.extra && joins(c, clients, app, ws, ex),
                JoinView::AppPlace(app) => ws is Some ==> joins(c, clients, app, ws, ex) && runs(
                    ex,
                    placing(c.address@, free_rect(st.open_place(cfg, ws, app), c, mon)),
                ),
                JoinView::Extra(name) => ws is Some ==> joins(c, clients, name, ws, ex) && runs(ex, placing(c.address@, centered(c.size, mon))),
            }
        }),
{
    let w = or_empty(ws);
    let a = c.address@;
    assert forall|b: Str| b != a implies #[trigger] tab_get(tab_del(st.foreign, a), b) == tab_get(st.foreign, b) by {
        lemma_del_get(st.foreign, a, b);
    }
    lemma_del_get(st.foreign, a, a);
    match join {
        JoinView::App(app) => {
            let one = not_foreign(st, a);
            law_captured_window(one, cfg, c, clients, app, None, ws);
        },
        JoinView::AppPlace(app) => {
            let rect = free_rect(st.open_place(cfg, Some(w), app), c, mon);
            let one = st.opened(cfg, Some(w));
            let two = StateView { extra: nest_put(one.extra, w, app, place_only(rect)), ..one };
            let cfg2 = merged(file, two.extra).0;
            lemma_only_records_go(two, merged(file, two.extra).1, 0);
            let three = not_foreign(two.rebuilt(file), a);
            law_captured_window(three, cfg2, c, clients, app, Some(rect), Some(w));
            assert(three.foreign == tab_del(st.foreign, a));
        },
        JoinView::Extra(name) => {
            let rect = centered(c.size, mon);
            let e = ExtraAppView { class: Some(c.class@), cmd, cwd, rect };
            let two = StateView { extra: nest_put(st.extra, w, name, e), ..st };
            let cfg2 = merged(file, two.extra).0;
            lemma_only_records_go(two, merged(file, two.extra).1, 0);
            let three = not_foreign(two.rebuilt(file), a);
            law_captured_window(three, cfg2, c, clients, name, Some(rect), Some(w));
            assert(three.foreign == tab_del(st.foreign, a));
        },
        JoinView::Free(_) => {
            let f = ForeignView { rect: rect_of(c), cmd, cwd };
            assert forall|b: Str| b != a implies #[trigger] tab_get(tab_put(st.foreign, a, f), b) == tab_get(st.foreign, b) by {
                lemma_put_get(st.foreign, a, f, b);
            }
            lemma_put_get(st.foreign, a, f, a);
        },
    }
}

} // verus!
