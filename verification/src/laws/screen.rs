//! Windows that follow the user, are arranged, and take the places of a layout; and what is kept of them.
use vstd::prelude::*;

use crate::area::centered;
use crate::config::ConfigView;
use crate::effects::{begins_with, lemma_begins, lemma_runs_more, runs};
use crate::events::{
    age_place, alive_only, applied_from, arrangement, by_age_upto, focused, follow_of, following, maximize_of,
    placing_all, walks_without,
};
use crate::exprs::{desk_move, focusing, placing, placing_opt};
use crate::home::{actives_of, away_upto, entry_names_of, leaves, FollowView};
use crate::hypr::{app_of, focus_of, in_ws, on_hidden, raise_of, rect_of, stable_of, top_text, Client};
use crate::laws::reading::{law_places_are_read, law_rects_are_kept};
use crate::laws::select::{in_order, lemma_built};
use crate::laws::windows::{is_early, law_members, lemma_in_sum, lemma_push};
use crate::layout::{all_sorted, arranged_from, lemma_masked_get, lemma_put_found};
use crate::raise::desk_of;
use crate::rect::PxRect;
use crate::save::{kept, stands};
use crate::state::{places_upto, CycleView, StateView};
use crate::table::{
    lemma_del_get, lemma_find, lemma_find_at, lemma_put_get, lemma_put_sorted, nest_at, nest_forget, nest_get,
    nest_put, tab_del, tab_find, tab_get, tab_has, tab_masked, tab_put, tab_sorted, tab_unlike,
};
use crate::text::Str;
use crate::windows::{entry_of, members};

verus! {

// ---- Following ----------------------------------------------------------------------------

proof fn lemma_following(plan: Seq<FollowView>, n: u8, k: int)
    requires
        0 <= k <= plan.len(),
    ensures
        ({
            let ex = following(plan, n, k);
            &&& forall|i: int|
                0 <= i < k ==> ex.contains(desk_move((#[trigger] plan[i]).addr, n)) && (plan[i].rect matches Some(r) ==> runs(
                    ex,
                    placing(plan[i].addr, r),
                ))
            &&& forall|e: Str| #[trigger]
                ex.contains(e) ==> exists|i: int|
                    0 <= i < k && (e == desk_move((#[trigger] plan[i]).addr, n) || plan[i].rect is Some && placing(
                        plan[i].addr,
                        plan[i].rect->0,
                    ).contains(e))
        }),
    decreases k,
{
    if k > 0 {
        lemma_following(plan, n, k - 1);
        let a = following(plan, n, k - 1);
        let f = plan[k - 1];
        let one = seq![desk_move(f.addr, n)];
        let two = placing_opt(f.addr, f.rect);
        let ex = following(plan, n, k);
        assert(ex =~= a + (one + two));
        assert(ex[a.len() as int] == desk_move(f.addr, n));
        assert forall|i: int| 0 <= i < k implies ex.contains(desk_move((#[trigger] plan[i]).addr, n)) && (plan[i].rect matches Some(
            r,
        ) ==> runs(ex, placing(plan[i].addr, r))) by {
            lemma_in_sum(a, one + two, desk_move(plan[i].addr, n));
            if let Some(r) = plan[i].rect {
                let q = placing(plan[i].addr, r);
                lemma_runs_more(one, two, q);
                lemma_runs_more(a, one + two, q);
            }
        }
        assert forall|e: Str| #[trigger] ex.contains(e) implies exists|i: int|
            0 <= i < k && (e == desk_move((#[trigger] plan[i]).addr, n) || plan[i].rect is Some && placing(
                plan[i].addr,
                plan[i].rect->0,
            ).contains(e)) by {
            lemma_in_sum(a, one + two, e);
            lemma_in_sum(one, two, e);
            if a.contains(e) {
                let i = choose|i: int|
                    0 <= i < k - 1 && (e == desk_move((#[trigger] plan[i]).addr, n) || plan[i].rect is Some && placing(
                        plan[i].addr,
                        plan[i].rect->0,
                    ).contains(e));
                assert(plan[i] == plan[i]);
            } else {
                assert(plan[k - 1] == f);
            }
        }
    }
}

proof fn lemma_left(
    st: StateView,
    cfg: ConfigView,
    active: Map<u8, Str>,
    away: Seq<Client>,
    clients: Seq<Client>,
    ws: Str,
    k: int,
)
    requires
        in_order(st),
        0 <= k <= 256,
    ensures
        ({
            let t = st.left_upto(cfg, active, away, clients, ws, k);
            &&& in_order(t)
            &&& t.desktops == st.desktops
            &&& forall|y: Str| #[trigger] nest_get(t.geom, ws, y) == nest_get(st.geom, ws, y)
            &&& forall|y: Str| #[trigger] nest_get(t.moved, ws, y) == nest_get(st.moved, ws, y)
        }),
    decreases k,
{
    if k > 0 {
        lemma_left(st, cfg, active, away, clients, ws, k - 1);
        let s = st.left_upto(cfg, active, away, clients, ws, k - 1);
        let d = (k - 1) as u8;
        if leaves(away, active, ws, d) {
            law_rects_are_kept(s, cfg, active[d], d, clients);
            law_places_are_read(s, cfg, active[d], d, clients);
        }
    }
}

proof fn lemma_arrivals(st: StateView, cfg: ConfigView, ws: Str, s: Seq<Client>, i: int, acc: Seq<FollowView>)
    requires
        0 <= i <= s.len(),
        acc.len() == i,
    ensures
        ({
            let (t, r) = st.follows_from(cfg, ws, s, i, acc);
            &&& t.desktops == st.desktops
            &&& r.len() == s.len()
            &&& forall|k: int| 0 <= k < i ==> #[trigger] r[k] == acc[k]
            &&& forall|k: int|
                i <= k < s.len() ==> (#[trigger] r[k]).addr == s[k].address@ && r[k].now == rect_of(s[k]) && (nest_get(
                    st.geom,
                    ws,
                    s[k].address@,
                ) is Some ==> r[k].rect == nest_get(st.geom, ws, s[k].address@)) && (nest_get(st.geom, ws, s[k].address@) is None
                    && entry_of(cfg, ws, entry_names_of(cfg, ws), s[k]) is None ==> r[k].rect is None)
        }),
    decreases s.len() - i,
{
    if i < s.len() {
        let x = FollowView { addr: s[i].address@, rect: st.arrival(cfg, ws, s[i]), now: rect_of(s[i]) };
        let next = acc.push(x);
        lemma_arrivals(st.arrived(cfg, ws, s[i]), cfg, ws, s, i + 1, next);
        let r = st.follows_from(cfg, ws, s, i, acc).1;
        assert(r[i] == next[i]);
        assert forall|k: int| 0 <= k < i implies #[trigger] r[k] == acc[k] by {
            assert(r[k] == next[k]);
        }
        assert forall|k: int| i <= k < s.len() implies (#[trigger] r[k]).addr == s[k].address@ && r[k].now == rect_of(s[k]) && (nest_get(
            st.geom,
            ws,
            s[k].address@,
        ) is Some ==> r[k].rect == nest_get(st.geom, ws, s[k].address@)) && (nest_get(st.geom, ws, s[k].address@) is None && entry_of(
            cfg,
            ws,
            entry_names_of(cfg, ws),
            s[k],
        ) is None ==> r[k].rect is None) by {
            if k == i {
                assert(r[k] == x);
            }
        }
    }
}

proof fn lemma_away(s: Seq<Client>, n: u8, k: int)
    requires
        0 <= k <= s.len(),
    ensures
        forall|c: Client| #[trigger]
            away_upto(s, n, k).contains(c) <==> !on_hidden(c) && desk_of(c) != Some(n) && is_early(s, k, c),
    decreases k,
{
    if k > 0 {
        lemma_away(s, n, k - 1);
        let a = away_upto(s, n, k - 1);
        let b = away_upto(s, n, k);
        assert forall|c: Client| #[trigger] b.contains(c) <==> !on_hidden(c) && desk_of(c) != Some(n) && is_early(s, k, c) by {
            lemma_push(a, b, s[k - 1], c);
            if is_early(s, k - 1, c) {
                let i = choose|i: int| 0 <= i < k - 1 && #[trigger] s[i] == c;
                assert(s[i] == c);
            }
            if is_early(s, k, c) {
                let i = choose|i: int| 0 <= i < k && #[trigger] s[i] == c;
                if i < k - 1 {
                    assert(is_early(s, k - 1, c));
                }
            } else {
                assert(s[k - 1] != c);
            }
        }
    }
}

/// The window is one of those that follow the user to the desktop.
pub open spec fn is_follower(clients: Seq<Client>, ws: Str, n: u8, c: Client) -> bool {
    clients.contains(c) && in_ws(c, ws) && !on_hidden(c) && desk_of(c) != Some(n)
}

/// The window of a plan is a follower, and goes into the rectangle kept for it where there is one.
pub open spec fn follows_as(st: StateView, clients: Seq<Client>, ws: Str, n: u8, f: FollowView, c: Client) -> bool {
    &&& is_follower(clients, ws, n, c)
    &&& f.addr == c.address@
    &&& nest_get(st.geom, ws, c.address@) is Some ==> f.rect == nest_get(st.geom, ws, c.address@)
}

/// The plan is that of the followers: of each of them, and of no other window.
#[verifier::opaque]
pub open spec fn plans_followers(st: StateView, clients: Seq<Client>, ws: Str, n: u8, plan: Seq<FollowView>) -> bool {
    &&& forall|k: int| 0 <= k < plan.len() ==> is_planned(st, clients, ws, n, #[trigger] plan[k])
    &&& forall|c: Client| #[trigger]
        is_follower(clients, ws, n, c) ==> exists|k: int|
            0 <= k < plan.len() && follows_as(st, clients, ws, n, #[trigger] plan[k], c)
}

/// The window of a plan is one of the followers.
pub open spec fn is_planned(st: StateView, clients: Seq<Client>, ws: Str, n: u8, f: FollowView) -> bool {
    exists|c: Client| #[trigger] follows_as(st, clients, ws, n, f, c)
}

proof fn lemma_followed(cfg: ConfigView, st: StateView, clients: Seq<Client>, n: u8)
    requires
        in_order(st),
        st.active_on(n) is Some,
    ensures
        ({
            let ws = st.active_on(n)->0;
            let (one, plan) = st.followed(cfg, clients, n);
            &&& one.active_on(n) == Some(ws)
            &&& plans_followers(st, clients, ws, n, plan)
        }),
{
    reveal(plans_followers);
    let ws = st.active_on(n)->0;
    let m = members(clients, ws);
    let away = away_upto(m, n, m.len() as int);
    let left = st.left_upto(cfg, actives_of(st.desktops), away, clients, ws, 256);
    lemma_left(st, cfg, actives_of(st.desktops), away, clients, ws, 256);
    lemma_arrivals(left, cfg, ws, away, 0, Seq::empty());
    let (one, plan) = st.followed(cfg, clients, n);
    law_members(clients, ws);
    lemma_away(m, n, m.len() as int);
    assert forall|c: Client| #[trigger] is_follower(clients, ws, n, c) <==> away.contains(c) by {
        if is_follower(clients, ws, n, c) {
            assert(m.contains(c));
            let i = choose|i: int| 0 <= i < m.len() && m[i] == c;
            assert(m[i] == c);
        }
        if away.contains(c) {
            let i = choose|i: int| 0 <= i < m.len() && #[trigger] m[i] == c;
            assert(m.contains(c));
        }
    }
    assert forall|k: int| 0 <= k < plan.len() implies #[trigger] follows_as(st, clients, ws, n, plan[k], away[k]) by {
        assert(plan[k].addr == away[k].address@);
        assert(away.contains(away[k]));
        assert(is_follower(clients, ws, n, away[k]));
        assert(nest_get(left.geom, ws, away[k].address@) == nest_get(st.geom, ws, away[k].address@));
    }
    assert forall|k: int| 0 <= k < plan.len() implies is_planned(st, clients, ws, n, #[trigger] plan[k]) by {
        assert(follows_as(st, clients, ws, n, plan[k], away[k]));
    }
    assert forall|c: Client| #[trigger] is_follower(clients, ws, n, c) implies exists|k: int|
        0 <= k < plan.len() && follows_as(st, clients, ws, n, #[trigger] plan[k], c) by {
        assert(away.contains(c));
        let k = choose|k: int| 0 <= k < away.len() && away[k] == c;
        assert(follows_as(st, clients, ws, n, plan[k], away[k]));
    }
}

/// The expression moves or places the window.
pub open spec fn moves_window(e: Str, c: Client, n: u8) -> bool {
    e == desk_move(c.address@, n) || exists|r: PxRect| (#[trigger] placing(c.address@, r)).contains(e)
}

/// The window comes to the desktop, into the rectangle kept for it where there is one.
pub open spec fn comes(st: StateView, ws: Str, n: u8, c: Client, ex: Seq<Str>) -> bool {
    &&& ex.contains(desk_move(c.address@, n))
    &&& nest_get(st.geom, ws, c.address@) is Some ==> runs(ex, placing(c.address@, nest_get(st.geom, ws, c.address@)->0))
}

proof fn lemma_follow_list(st: StateView, clients: Seq<Client>, ws: Str, n: u8, plan: Seq<FollowView>, tail: Seq<Str>)
    requires
        plans_followers(st, clients, ws, n, plan),
    ensures
        ({
            let ex = following(plan, n, plan.len() as int) + tail;
            &&& plan.len() > 0 <==> exists|c: Client| #[trigger] is_follower(clients, ws, n, c)
            &&& forall|c: Client| #[trigger] is_follower(clients, ws, n, c) ==> comes(st, ws, n, c, ex)
            &&& forall|e: Str| #[trigger]
                ex.contains(e) ==> tail.contains(e) || exists|c: Client| #[trigger]
                    is_follower(clients, ws, n, c) && moves_window(e, c, n)
        }),
{
    reveal(plans_followers);
    let body = following(plan, n, plan.len() as int);
    let ex = body + tail;
    lemma_following(plan, n, plan.len() as int);
    if plan.len() > 0 {
        assert(is_planned(st, clients, ws, n, plan[0]));
        let c = choose|c: Client| #[trigger] follows_as(st, clients, ws, n, plan[0], c);
        assert(is_follower(clients, ws, n, c));
    }
    assert forall|c: Client| #[trigger] is_follower(clients, ws, n, c) implies comes(st, ws, n, c, ex) by {
        let k = choose|k: int| 0 <= k < plan.len() && follows_as(st, clients, ws, n, #[trigger] plan[k], c);
        assert(plan[k].addr == c.address@);
        lemma_in_sum(body, tail, desk_move(c.address@, n));
        if let Some(r) = nest_get(st.geom, ws, c.address@) {
            lemma_runs_more(body, tail, placing(c.address@, r));
        }
    }
    assert forall|e: Str| #[trigger] ex.contains(e) implies tail.contains(e) || exists|c: Client| #[trigger]
        is_follower(clients, ws, n, c) && moves_window(e, c, n) by {
        lemma_in_sum(body, tail, e);
        if body.contains(e) {
            let i = choose|i: int|
                0 <= i < plan.len() && (e == desk_move((#[trigger] plan[i]).addr, n) || plan[i].rect is Some && placing(
                    plan[i].addr,
                    plan[i].rect->0,
                ).contains(e));
            assert(is_planned(st, clients, ws, n, plan[i]));
            let c = choose|c: Client| #[trigger] follows_as(st, clients, ws, n, plan[i], c);
            assert(is_follower(clients, ws, n, c) && moves_window(e, c, n));
        }
    }
}

/// Windows of the active workspace that stand elsewhere and are not hidden come to the desktop of the user: each of
/// them, into the rectangle kept for it in the workspace where there is one. No other window moves. The active window
/// is raised exactly where one came and it stands on the desktop.
pub proof fn law_follow(cfg: ConfigView, st: StateView, clients: Seq<Client>, n: u8, active: Option<Client>)
    requires
        in_order(st),
    ensures
        ({
            let ex = follow_of(cfg, st, clients, n, active).1;
            let ws = st.active_on(n)->0;
            let here = active is Some && desk_of(active->0) == Some(n);
            let some = st.active_on(n) is Some && exists|c: Client| #[trigger] is_follower(clients, ws, n, c);
            &&& !some ==> ex.len() == 0
            &&& some ==> {
                &&& forall|c: Client| #[trigger] is_follower(clients, ws, n, c) ==> comes(st, ws, n, c, ex)
                &&& forall|e: Str| #[trigger]
                    ex.contains(e) ==> here && e == raise_of(active->0.address@) || exists|c: Client| #[trigger]
                        is_follower(clients, ws, n, c) && moves_window(e, c, n)
                &&& here ==> ex.last() == raise_of(active->0.address@)
            }
        }),
{
    if st.active_on(n) is Some {
        let ws = st.active_on(n)->0;
        let plan = st.followed(cfg, clients, n).1;
        let tail = match active {
            Some(c) => if desk_of(c) == Some(n) {
                seq![raise_of(c.address@)]
            } else {
                Seq::empty()
            },
            None => Seq::empty(),
        };
        lemma_followed(cfg, st, clients, n);
        lemma_follow_list(st, clients, ws, n, plan, tail);
        let ex = follow_of(cfg, st, clients, n, active).1;
        if plan.len() > 0 {
            assert(ex == following(plan, n, plan.len() as int) + tail);
            if tail.len() > 0 {
                assert(ex.last() == tail[0]);
            }
        }
    }
}

// ---- Arranging ----------------------------------------------------------------------------

/// The configuration gives the window a place: it has the application, and the application has a place.
pub open spec fn has_place(st: StateView, cfg: ConfigView, ws: Option<Str>, c: Client) -> bool {
    app_of(c) is Some && tab_has(cfg.apps, app_of(c)->0) && st.open_place(cfg, ws, app_of(c)->0) is Some
}

/// The `j`th window is the first of its class that the configuration gives no place.
pub open spec fn leads(st: StateView, cfg: ConfigView, ws: Option<Str>, s: Seq<Client>, j: int) -> bool {
    !has_place(st, cfg, ws, s[j]) && forall|i: int|
        0 <= i < j && (#[trigger] s[i]).class@ == s[j].class@ ==> has_place(st, cfg, ws, s[i])
}

/// The place that arranging gives a window.
pub open spec fn gets(st: StateView, cfg: ConfigView, ws: Option<Str>, s: Seq<Client>, mon: (i32, i32), k: int, r: PxRect) -> bool {
    if has_place(st, cfg, ws, s[k]) {
        Some(r) == st.open_place(cfg, ws, app_of(s[k])->0)
    } else {
        exists|j: int|
            0 <= j <= k && s[j].class@ == s[k].class@ && #[trigger] leads(st, cfg, ws, s, j) && r == centered(s[j].size, mon)
    }
}

proof fn lemma_arranged(
    st: StateView,
    now: StateView,
    cfg: ConfigView,
    ws: Option<Str>,
    s: Seq<Client>,
    mon: (i32, i32),
    i: int,
    stacks: Seq<(Str, PxRect)>,
    acc: Seq<(Str, PxRect)>,
)
    requires
        0 <= i <= s.len(),
        acc.len() == i,
        now == st || now == st.opened(cfg, ws),
        st.opened(cfg, ws).opened(cfg, ws) == st.opened(cfg, ws),
        tab_sorted(stacks),
        forall|q: Str| #[trigger]
            tab_get(stacks, q) matches Some(r) ==> exists|j: int|
                0 <= j < i && s[j].class@ == q && #[trigger] leads(st, cfg, ws, s, j) && r == centered(s[j].size, mon),
        forall|j: int|
            0 <= j < i && !has_place(st, cfg, ws, #[trigger] s[j]) ==> tab_get(stacks, s[j].class@) is Some,
    ensures
        ({
            let r = arranged_from(now, cfg, ws, s, mon, i, stacks, acc).1;
            &&& r.len() == s.len()
            &&& forall|k: int| 0 <= k < i ==> #[trigger] r[k] == acc[k]
            &&& forall|k: int|
                i <= k < s.len() ==> (#[trigger] r[k]).0 == s[k].address@ && gets(st, cfg, ws, s, mon, k, r[k].1)
        }),
    decreases s.len() - i,
{
    if i < s.len() {
        let c = s[i];
        let known = app_of(c) matches Some(a) && tab_has(cfg.apps, a);
        let place = if known {
            now.open_place(cfg, ws, app_of(c)->0)
        } else {
            None
        };
        let next = if known {
            now.opened(cfg, ws)
        } else {
            now
        };
        if known {
            assert(now.open_place(cfg, ws, app_of(c)->0) == st.open_place(cfg, ws, app_of(c)->0));
        }
        assert(place is Some <==> has_place(st, cfg, ws, c));
        let rect = match place {
            Some(r) => r,
            None => match tab_get(stacks, c.class@) {
                Some(r) => r,
                None => centered(c.size, mon),
            },
        };
        let more = if place is None && tab_get(stacks, c.class@) is None {
            tab_put(stacks, c.class@, rect)
        } else {
            stacks
        };
        let x = (c.address@, rect);
        if place is None && tab_get(stacks, c.class@) is None {
            lemma_put_sorted(stacks, c.class@, rect);
            assert(leads(st, cfg, ws, s, i)) by {
                assert forall|k: int| 0 <= k < i && (#[trigger] s[k]).class@ == s[i].class@ implies has_place(st, cfg, ws, s[k]) by {
                    if !has_place(st, cfg, ws, s[k]) {
                        assert(tab_get(stacks, s[k].class@) is Some);
                    }
                }
            }
        }
        assert(gets(st, cfg, ws, s, mon, i, rect)) by {
            if place is None {
                if let Some(r) = tab_get(stacks, c.class@) {
                    let j = choose|j: int|
                        0 <= j < i && s[j].class@ == c.class@ && #[trigger] leads(st, cfg, ws, s, j) && r == centered(
                            s[j].size,
                            mon,
                        );
                    assert(leads(st, cfg, ws, s, j));
                }
            }
        }
        assert forall|q: Str| #[trigger] tab_get(more, q) matches Some(r) implies exists|j: int|
            0 <= j < i + 1 && s[j].class@ == q && #[trigger] leads(st, cfg, ws, s, j) && tab_get(more, q) == Some(
                centered(s[j].size, mon),
            ) by {
            if place is None && tab_get(stacks, c.class@) is None {
                lemma_put_get(stacks, c.class@, rect, q);
            }
            if tab_get(stacks, q) is Some {
                let j = choose|j: int|
                    0 <= j < i && s[j].class@ == q && #[trigger] leads(st, cfg, ws, s, j) && tab_get(stacks, q)->0 == centered(
                        s[j].size,
                        mon,
                    );
                assert(leads(st, cfg, ws, s, j));
            } else {
                assert(leads(st, cfg, ws, s, i));
            }
        }
        assert forall|j: int| 0 <= j < i + 1 && !has_place(st, cfg, ws, #[trigger] s[j]) implies tab_get(
            more,
            s[j].class@,
        ) is Some by {
            if place is None && tab_get(stacks, c.class@) is None {
                lemma_put_get(stacks, c.class@, rect, s[j].class@);
            }
        }
        lemma_arranged(st, next, cfg, ws, s, mon, i + 1, more, acc.push(x));
        let r = arranged_from(now, cfg, ws, s, mon, i, stacks, acc).1;
        assert(r[i] == acc.push(x)[i]);
        assert forall|k: int| 0 <= k < i implies #[trigger] r[k] == acc[k] by {
            assert(r[k] == acc.push(x)[k]);
        }
    }
}

/// Arranging gives every window a place. A window of an application that has a place by the description of the
/// workspace gets that, whatever place the user gave the application before; of the others all windows of one class
/// lie in one place, in the middle of the screen, with the size of the first.
pub proof fn law_arranged(st: StateView, cfg: ConfigView, ws: Option<Str>, windows: Seq<Client>, mon: (i32, i32))
    ensures
        ({
            let plan = st.arranged(cfg, ws, windows, mon).1;
            let s = match ws {
                Some(w) => StateView { moved: tab_del(st.moved, w), ..st },
                None => st,
            };
            &&& plan.len() == windows.len()
            &&& forall|k: int|
                0 <= k < windows.len() ==> (#[trigger] plan[k]).0 == windows[k].address@ && gets(
                    s,
                    cfg,
                    ws,
                    windows,
                    mon,
                    k,
                    plan[k].1,
                )
        }),
{
    let s = match ws {
        Some(w) => StateView { moved: tab_del(st.moved, w), ..st },
        None => st,
    };
    if ws is Some && tab_has(cfg.workspaces, ws->0) && !tab_has(st.cells, ws->0) {
        let e = cfg.entries(ws->0);
        lemma_put_found(st.cells, ws->0, places_upto(e, e.len() as int));
    }
    lemma_arranged(s, s, cfg, ws, windows, mon, 0, Seq::empty(), Seq::empty());
}

proof fn lemma_placing_all(plan: Seq<(Str, PxRect)>, k: int)
    requires
        0 <= k <= plan.len(),
    ensures
        forall|i: int| 0 <= i < k ==> runs(placing_all(plan, k), placing((#[trigger] plan[i]).0, plan[i].1)),
    decreases k,
{
    if k > 0 {
        lemma_placing_all(plan, k - 1);
        let a = placing_all(plan, k - 1);
        let b = placing(plan[k - 1].0, plan[k - 1].1);
        assert forall|i: int| 0 <= i < k implies runs(placing_all(plan, k), placing((#[trigger] plan[i]).0, plan[i].1)) by {
            lemma_runs_more(a, b, placing(plan[i].0, plan[i].1));
        }
    }
}

proof fn lemma_age_place(s: Seq<Client>, c: Client, i: int)
    requires
        0 <= i <= s.len(),
    ensures
        i <= age_place(s, c, i) <= s.len(),
        forall|k: int| i <= k < age_place(s, c, i) ==> stable_of(#[trigger] s[k]) <= stable_of(c),
        age_place(s, c, i) < s.len() ==> stable_of(s[age_place(s, c, i)]) > stable_of(c),
    decreases s.len() - i,
{
    if i < s.len() && stable_of(s[i]) <= stable_of(c) {
        lemma_age_place(s, c, i + 1);
    }
}

proof fn lemma_by_age(clients: Seq<Client>, n: u8, k: int)
    requires
        0 <= k <= clients.len(),
    ensures
        ({
            let s = by_age_upto(clients, n, k);
            &&& forall|i: int, j: int| 0 <= i < j < s.len() ==> stable_of(#[trigger] s[i]) <= stable_of(#[trigger] s[j])
            &&& forall|c: Client| #[trigger] s.contains(c) <==> desk_of(c) == Some(n) && is_early(clients, k, c)
        }),
    decreases k,
{
    if k > 0 {
        lemma_by_age(clients, n, k - 1);
        let s = by_age_upto(clients, n, k - 1);
        let t = by_age_upto(clients, n, k);
        let x = clients[k - 1];
        let p = age_place(s, x, 0);
        lemma_age_place(s, x, 0);
        if desk_of(x) == Some(n) {
            assert(t == s.insert(p, x));
            assert forall|i: int, j: int| 0 <= i < j < t.len() implies stable_of(#[trigger] t[i]) <= stable_of(#[trigger] t[j]) by {
                let a = if i < p {
                    s[i]
                } else if i == p {
                    x
                } else {
                    s[i - 1]
                };
                let b = if j < p {
                    s[j]
                } else if j == p {
                    x
                } else {
                    s[j - 1]
                };
                assert(t[i] == a && t[j] == b);
                if i == p {
                    assert(stable_of(s[p]) <= stable_of(s[j - 1]));
                }
            }
        }
        assert forall|c: Client| #[trigger] t.contains(c) <==> desk_of(c) == Some(n) && is_early(clients, k, c) by {
            if desk_of(x) == Some(n) {
                if t.contains(c) {
                    let i = choose|i: int| 0 <= i < t.len() && t[i] == c;
                    if i < p {
                        assert(s[i] == c);
                    } else if i > p {
                        assert(s[i - 1] == c);
                    }
                    assert(c == x || s.contains(c));
                }
                if s.contains(c) {
                    let i = choose|i: int| 0 <= i < s.len() && s[i] == c;
                    if i < p {
                        assert(t[i] == c);
                    } else {
                        assert(t[i + 1] == c);
                    }
                }
                assert(t[p] == x);
            }
            if is_early(clients, k - 1, c) {
                let i = choose|i: int| 0 <= i < k - 1 && #[trigger] clients[i] == c;
                assert(clients[i] == c);
            }
            if is_early(clients, k, c) {
                let i = choose|i: int| 0 <= i < k && #[trigger] clients[i] == c;
                if i < k - 1 {
                    assert(is_early(clients, k - 1, c));
                }
            } else {
                assert(clients[k - 1] != c);
            }
        }
    }
}

/// The windows of a desktop are those that stand on it, the older ones first.
pub proof fn law_by_age(clients: Seq<Client>, n: u8)
    ensures
        ({
            let wins = by_age_upto(clients, n, clients.len() as int);
            &&& forall|c: Client| #[trigger] wins.contains(c) <==> clients.contains(c) && desk_of(c) == Some(n)
            &&& forall|i: int, j: int| 0 <= i < j < wins.len() ==> stable_of(#[trigger] wins[i]) <= stable_of(#[trigger] wins[j])
            &&& wins.len() > 0 <==> exists|c: Client| #[trigger] clients.contains(c) && desk_of(c) == Some(n)
        }),
{
    let wins = by_age_upto(clients, n, clients.len() as int);
    lemma_by_age(clients, n, clients.len() as int);
    assert forall|c: Client| #[trigger] wins.contains(c) <==> clients.contains(c) && desk_of(c) == Some(n) by {
        if clients.contains(c) {
            let i = choose|i: int| 0 <= i < clients.len() && clients[i] == c;
            assert(clients[i] == c);
        }
    }
    if wins.len() > 0 {
        assert(wins.contains(wins[0]));
        assert(clients.contains(wins[0]));
    }
    if exists|c: Client| #[trigger] clients.contains(c) && desk_of(c) == Some(n) {
        let c = choose|c: Client| #[trigger] clients.contains(c) && desk_of(c) == Some(n);
        assert(wins.contains(c));
    }
}

proof fn lemma_ends_with(body: Seq<Str>, a: Str)
    ensures
        (body + focusing(a)).skip(body.len() as int) == seq![focus_of(a), top_text()],
        (body + focusing(a)).len() == body.len() + 2,
{
    assert((body + focusing(a)).skip(body.len() as int) =~= seq![focus_of(a), top_text()]);
}

proof fn lemma_arrange_list(plan: Seq<(Str, PxRect)>, tail: Seq<Str>)
    ensures
        forall|k: int|
            0 <= k < plan.len() ==> runs(
                placing_all(plan, plan.len() as int) + tail,
                placing((#[trigger] plan[k]).0, plan[k].1),
            ),
{
    lemma_placing_all(plan, plan.len() as int);
    assert forall|k: int| 0 <= k < plan.len() implies runs(
        placing_all(plan, plan.len() as int) + tail,
        placing((#[trigger] plan[k]).0, plan[k].1),
    ) by {
        lemma_runs_more(placing_all(plan, plan.len() as int), tail, placing(plan[k].0, plan[k].1));
    }
}

/// Arranging a desktop does nothing exactly where no window stands on it. Else its windows take the places of the plan,
/// and the active window gets the focus where it stands there.
pub proof fn law_arrangement(
    cfg: ConfigView,
    st: StateView,
    clients: Seq<Client>,
    n: u8,
    active: Option<Client>,
    mon: (i32, i32),
)
    ensures
        ({
            let wins = by_age_upto(clients, n, clients.len() as int);
            let r = arrangement(cfg, st, clients, n, active, mon).1;
            let plan = st.arranged(cfg, st.active_on(n), wins, mon).1;
            &&& r is Some <==> exists|c: Client| #[trigger] clients.contains(c) && desk_of(c) == Some(n)
            &&& r matches Some(ex) ==> {
                &&& forall|k: int| 0 <= k < plan.len() ==> runs(ex, placing((#[trigger] plan[k]).0, plan[k].1))
                &&& active is Some && desk_of(active->0) == Some(n) ==> ex.len() >= 2 && ex.skip(ex.len() - 2) == seq![
                    focus_of(active->0.address@),
                    top_text(),
                ]
            }
        }),
{
    let wins = by_age_upto(clients, n, clients.len() as int);
    let plan = st.arranged(cfg, st.active_on(n), wins, mon).1;
    law_by_age(clients, n);
    if active is Some && desk_of(active->0) == Some(n) {
        lemma_arrange_list(plan, focusing(active->0.address@));
        lemma_ends_with(placing_all(plan, plan.len() as int), active->0.address@);
    } else {
        lemma_arrange_list(plan, Seq::empty());
    }
}

// ---- A layout made anew -------------------------------------------------------------------

/// The window stands on the desktop, not in full screen, and an entry with a place describes it.
pub open spec fn is_laid(st: StateView, cfg: ConfigView, ws: Str, n: u8, c: Client, r: PxRect) -> bool {
    let e = entry_of(cfg, ws, entry_names_of(cfg, ws), c);
    desk_of(c) == Some(n) && c.fullscreen == 0 && e is Some && st.built(cfg, ws).place(cfg, ws, e->0) == Some(r)
}

proof fn lemma_applied(st: StateView, now: StateView, cfg: ConfigView, ws: Str, n: u8, s: Seq<Client>, i: int, ex: Seq<Str>)
    requires
        0 <= i <= s.len(),
        now == (StateView { geom: now.geom, ..st }) || now == (StateView { geom: now.geom, ..st.built(cfg, ws) }),
        st.built(cfg, ws).built(cfg, ws) == st.built(cfg, ws),
    ensures
        ({
            let e = applied_from(cfg, now, ws, n, s, i, ex).1;
            &&& begins_with(e, ex)
            &&& forall|k: int, r: PxRect|
                i <= k < s.len() && #[trigger] is_laid(st, cfg, ws, n, s[k], r) && rect_of(s[k]) != r ==> runs(
                    e,
                    placing(s[k].address@, r),
                )
            &&& forall|x: Str| #[trigger]
                e.contains(x) ==> ex.contains(x) || exists|k: int, r: PxRect|
                    i <= k < s.len() && #[trigger] is_laid(st, cfg, ws, n, s[k], r) && rect_of(s[k]) != r && placing(
                        s[k].address@,
                        r,
                    ).contains(x)
        }),
    decreases s.len() - i,
{
    let none = Seq::<Str>::empty();
    if i < s.len() {
        let c = s[i];
        let e = applied_from(cfg, now, ws, n, s, i, ex).1;
        let entry = entry_of(cfg, ws, entry_names_of(cfg, ws), c);
        let b = st.built(cfg, ws);
        let stands = desk_of(c) == Some(n) && c.fullscreen == 0 && entry is Some;
        let one = now.built(cfg, ws);
        assert(one == (StateView { geom: now.geom, ..b }));
        if stands && b.place(cfg, ws, entry->0) is Some {
            let r = b.place(cfg, ws, entry->0)->0;
            assert(one.place(cfg, ws, entry->0) == Some(r));
            assert(is_laid(st, cfg, ws, n, s[i], r));
            let p = if rect_of(c) != r {
                placing(c.address@, r)
            } else {
                none
            };
            let next = ex + p;
            assert(ex + none =~= ex);
            let two = StateView { geom: nest_put(one.geom, ws, c.address@, r), ..one };
            lemma_applied(st, two, cfg, ws, n, s, i + 1, next);
            lemma_begins(ex, p, none);
            lemma_begins(ex, next, e);
            lemma_begins(next, e, none);
            lemma_runs_more(ex, p, p);
            lemma_runs_more(next, e.skip(next.len() as int), p);
            assert forall|x: Str| #[trigger] e.contains(x) implies ex.contains(x) || exists|k: int, q: PxRect|
                i <= k < s.len() && #[trigger] is_laid(st, cfg, ws, n, s[k], q) && rect_of(s[k]) != q && placing(
                    s[k].address@,
                    q,
                ).contains(x) by {
                if next.contains(x) {
                    lemma_in_sum(ex, p, x);
                    if p.contains(x) {
                        assert(is_laid(st, cfg, ws, n, s[i], r));
                    }
                }
            }
        } else {
            let two = if stands {
                one
            } else {
                now
            };
            lemma_applied(st, two, cfg, ws, n, s, i + 1, ex);
        }
    } else {
        lemma_begins(ex, none, none);
        assert(ex + none =~= ex);
    }
}

/// A layout made anew moves exactly those windows of the workspace that stand on the desktop, not in full screen, away
/// from the place of their entry, and puts each of them there.
pub proof fn law_applied(cfg: ConfigView, st: StateView, ws: Str, n: u8, clients: Seq<Client>)
    requires
        in_order(st),
    ensures
        ({
            let ex = applied_from(cfg, st, ws, n, members(clients, ws), 0, Seq::empty()).1;
            &&& forall|c: Client, r: PxRect|
                clients.contains(c) && in_ws(c, ws) && #[trigger] is_laid(st, cfg, ws, n, c, r) && rect_of(c) != r ==> runs(
                    ex,
                    placing(c.address@, r),
                )
            &&& forall|x: Str| #[trigger]
                ex.contains(x) ==> exists|c: Client, r: PxRect|
                    clients.contains(c) && in_ws(c, ws) && #[trigger] is_laid(st, cfg, ws, n, c, r) && rect_of(c) != r && placing(
                        c.address@,
                        r,
                    ).contains(x)
        }),
{
    let m = members(clients, ws);
    let ex = applied_from(cfg, st, ws, n, m, 0, Seq::empty()).1;
    lemma_built(st, cfg, ws);
    lemma_applied(st, st, cfg, ws, n, m, 0, Seq::empty());
    law_members(clients, ws);
    assert forall|c: Client, r: PxRect|
        clients.contains(c) && in_ws(c, ws) && #[trigger] is_laid(st, cfg, ws, n, c, r) && rect_of(c) != r implies runs(
        ex,
        placing(c.address@, r),
    ) by {
        assert(m.contains(c));
        let k = choose|k: int| 0 <= k < m.len() && m[k] == c;
        assert(is_laid(st, cfg, ws, n, m[k], r));
    }
    assert forall|x: Str| #[trigger] ex.contains(x) implies exists|c: Client, r: PxRect|
        clients.contains(c) && in_ws(c, ws) && #[trigger] is_laid(st, cfg, ws, n, c, r) && rect_of(c) != r && placing(
            c.address@,
            r,
        ).contains(x) by {
        let (k, r) = choose|k: int, r: PxRect|
            0 <= k < m.len() && #[trigger] is_laid(st, cfg, ws, n, m[k], r) && rect_of(m[k]) != r && placing(
                m[k].address@,
                r,
            ).contains(x);
        assert(m.contains(m[k]));
        assert(is_laid(st, cfg, ws, n, m[k], r));
    }
}

// ---- What is kept -------------------------------------------------------------------------

/// A window that gets the focus is put down as the last one of the workspace active on its desktop, exactly where an
/// entry of the workspace describes it. Nothing else changes.
pub proof fn law_focused(cfg: ConfigView, st: StateView, c: Client)
    requires
        tab_sorted(st.focus),
    ensures
        ({
            let t = focused(cfg, st, c);
            let w = st.active_on(desk_of(c)->0)->0;
            let counts = desk_of(c) is Some && st.active_on(desk_of(c)->0) is Some && entry_of(
                cfg,
                w,
                entry_names_of(cfg, w),
                c,
            ) is Some;
            &&& t == (StateView { focus: t.focus, ..st })
            &&& forall|v: Str| #[trigger]
                tab_get(t.focus, v) == if counts && v == w {
                    Some(c.address@)
                } else {
                    tab_get(st.focus, v)
                }
        }),
{
    let t = focused(cfg, st, c);
    if t.focus != st.focus {
        let w = st.active_on(desk_of(c)->0)->0;
        assert forall|v: Str| #[trigger] tab_get(t.focus, v) == if v == w {
            Some(c.address@)
        } else {
            tab_get(st.focus, v)
        } by {
            lemma_put_get(st.focus, w, c.address@, v);
        }
    } else if desk_of(c) is Some && st.active_on(desk_of(c)->0) is Some {
        let w = st.active_on(desk_of(c)->0)->0;
        lemma_put_get(st.focus, w, c.address@, w);
    }
}

/// Maximizing a window that does not fill the screen makes it fill the screen and keeps the rectangle that it has. One
/// that fills it goes back to the rectangle kept for it, which is kept no longer; one that just left the full
/// screen stays. Rectangles of windows that are gone are forgotten, those of other windows stay.
pub proof fn law_maximized(
    kept: Seq<(Str, PxRect)>,
    alive: Seq<Str>,
    addr: Str,
    cur: PxRect,
    target: PxRect,
    from_fullscreen: bool,
)
    requires
        tab_sorted(kept),
        alive.contains(addr),
    ensures
        ({
            let (next, go) = maximize_of(kept, alive, addr, cur, target, from_fullscreen);
            &&& cur != target ==> go == Some(target) && tab_get(next, addr) == Some(cur)
            &&& cur == target && from_fullscreen ==> go is None && tab_get(next, addr) == tab_get(kept, addr)
            &&& cur == target && !from_fullscreen ==> go == tab_get(kept, addr) && tab_get(next, addr) is None
            &&& forall|a: Str|
                a != addr ==> #[trigger] tab_get(next, a) == if alive.contains(a) {
                    tab_get(kept, a)
                } else {
                    None
                }
        }),
{
    let live = alive_only(kept, alive);
    let mask = kept.map_values(|e: (Str, PxRect)| alive.contains(e.0));
    let next = maximize_of(kept, alive, addr, cur, target, from_fullscreen).0;
    assert forall|a: Str| #[trigger] tab_get(live, a) == if alive.contains(a) {
        tab_get(kept, a)
    } else {
        None
    } by {
        lemma_masked_get(kept, mask, a);
        lemma_find(kept, a, 0);
    }
    lemma_masked_get(kept, mask, addr);
    lemma_put_get(live, addr, cur, addr);
    lemma_del_get(live, addr, addr);
    assert forall|a: Str| a != addr implies #[trigger] tab_get(next, a) == if alive.contains(a) {
        tab_get(kept, a)
    } else {
        None
    } by {
        lemma_put_get(live, addr, cur, a);
        lemma_del_get(live, addr, a);
    }
}

proof fn lemma_walks_without(s: Seq<(Str, CycleView)>, addr: Str, n: int)
    requires
        0 <= n <= s.len(),
        tab_sorted(s),
    ensures
        tab_sorted(walks_without(s, addr, n)),
        forall|w: Str|
            #![trigger tab_get(walks_without(s, addr, n), w)]
            tab_get(walks_without(s, addr, n), w) == match tab_get(s, w) {
                Some(x) => if x.back == Some(addr) && tab_find(s, w, 0) < n {
                    Some(CycleView { app: x.app, back: None })
                } else {
                    Some(x)
                },
                None => None,
            },
    decreases n,
{
    if n > 0 {
        lemma_walks_without(s, addr, n - 1);
        let t = walks_without(s, addr, n - 1);
        let (k, x) = s[n - 1];
        let v = CycleView { app: x.app, back: None };
        lemma_find_at(s, n - 1);
        lemma_put_sorted(t, k, v);
        assert forall|w: Str|
            #![trigger tab_get(walks_without(s, addr, n), w)]
            tab_get(walks_without(s, addr, n), w) == match tab_get(s, w) {
                Some(y) => if y.back == Some(addr) && tab_find(s, w, 0) < n {
                    Some(CycleView { app: y.app, back: None })
                } else {
                    Some(y)
                },
                None => None,
            } by {
            lemma_put_get(t, k, v, w);
            lemma_find(s, w, 0);
            assert(tab_get(t, w) == tab_get(walks_without(s, addr, n - 1), w));
            if tab_find(s, w, 0) == n - 1 {
                assert(w == k);
            }
        }
    }
}

proof fn lemma_forget(g: Seq<(Str, Seq<(Str, PxRect)>)>, addr: Str, x: Str, y: Str)
    requires
        all_sorted(g),
    ensures
        nest_get(nest_forget(g, addr), x, y) == if y == addr {
            None
        } else {
            nest_get(g, x, y)
        },
{
    let r = nest_forget(g, addr);
    lemma_find(g, x, 0);
    lemma_find(r, x, 0);
    let a = tab_find(g, x, 0);
    let b = tab_find(r, x, 0);
    if a < g.len() {
        assert(r[a].0 == x);
        if b < a {
            assert(g[b].0 == r[b].0);
        }
        assert(b == a);
        assert(nest_at(g, x) == g[a].1);
        assert(tab_sorted(nest_at(g, x)));
        lemma_del_get(g[a].1, addr, y);
    } else {
        if b < r.len() {
            assert(g[b].0 == r[b].0);
        }
        assert(nest_at(g, x) =~= Seq::empty());
        assert(nest_at(r, x) =~= Seq::empty());
    }
}

proof fn lemma_unlike(s: Seq<(Str, Str)>, v: Str, w: Str)
    requires
        tab_sorted(s),
    ensures
        tab_get(tab_unlike(s, v), w) == if tab_get(s, w) == Some(v) {
            None
        } else {
            tab_get(s, w)
        },
{
    let n = s.len() as int;
    assert forall|mask: Seq<bool>|
        (forall|i: int| 0 <= i < n ==> #[trigger] mask[i] == (s[i].1 != v)) implies tab_get(#[trigger] tab_masked(s, mask, n), w) == (
    if tab_get(s, w) == Some(v) {
        None
    } else {
        tab_get(s, w)
    }) by {
        lemma_masked_get(s, mask, w);
        lemma_find(s, w, 0);
        let at = tab_find(s, w, 0);
        if at < n {
            assert(mask[at] == (s[at].1 != v));
        }
    }
}

/// A window that was closed is forgotten: no rectangle is kept for it, no workspace has it as the last one with the focus,
/// and no walk goes back to it. Of all other windows all stays as it was.
pub proof fn law_forgotten(st: StateView, addr: Str)
    requires
        all_sorted(st.geom),
        tab_sorted(st.focus),
        tab_sorted(st.cycle),
    ensures
        ({
            let t = st.forgot(addr);
            &&& t == (StateView { geom: t.geom, focus: t.focus, cycle: t.cycle, ..st })
            &&& forall|x: Str, y: Str| #[trigger]
                nest_get(t.geom, x, y) == if y == addr {
                    None
                } else {
                    nest_get(st.geom, x, y)
                }
            &&& forall|w: Str| #[trigger]
                tab_get(t.focus, w) == if tab_get(st.focus, w) == Some(addr) {
                    None
                } else {
                    tab_get(st.focus, w)
                }
            &&& forall|w: Str| #[trigger]
                tab_get(t.cycle, w) == match tab_get(st.cycle, w) {
                    Some(x) => if x.back == Some(addr) {
                        Some(CycleView { app: x.app, back: None })
                    } else {
                        Some(x)
                    },
                    None => None,
                }
        }),
{
    let t = st.forgot(addr);
    assert forall|x: Str, y: Str| #[trigger] nest_get(t.geom, x, y) == if y == addr {
        None
    } else {
        nest_get(st.geom, x, y)
    } by {
        lemma_forget(st.geom, addr, x, y);
    }
    assert forall|w: Str| #[trigger] tab_get(t.focus, w) == if tab_get(st.focus, w) == Some(addr) {
        None
    } else {
        tab_get(st.focus, w)
    } by {
        lemma_unlike(st.focus, addr, w);
    }
    lemma_walks_without(st.cycle, addr, st.cycle.len() as int);
    assert forall|w: Str| #[trigger] tab_get(t.cycle, w) == match tab_get(st.cycle, w) {
        Some(x) => if x.back == Some(addr) {
            Some(CycleView { app: x.app, back: None })
        } else {
            Some(x)
        },
        None => None,
    } by {
        lemma_find(st.cycle, w, 0);
    }
}

} // verus!
