//! Workspaces and desktops.
use vstd::prelude::*;

use crate::config::ConfigView;
use crate::desks::at_desk;
use crate::desktop::{
    active_from, law_next_goes_round, law_successor, lemma_without, next_of, successor_of, without, without_upto,
};
use crate::effects::law_ws_list;
use crate::events::{move_of, MovePlanView};
use crate::exprs::{desk_move, park};
use crate::home::{active_among, actives_of, find_in, home_of, least_home, spot_of, Home};
use crate::hypr::{in_ws, on_hidden, ws_list, Client};
use crate::laws::raise::{leaves, lemma_all_leave, takes_home};
use crate::laws::reading::law_places_are_read;
use crate::laws::select::in_order;
use crate::laws::windows::{law_members, lemma_push};
use crate::raise::{desk_of, standing_upto};
use crate::report::{addresses, desk_report_of};
use crate::state::{DesktopView, StateView};
use crate::text::Str;
use crate::windows::members;

verus! {

/// Moving the active workspace to another desktop moves the one that is active on the desktop of the user. There is
/// a successor exactly where the list of the desktop that is left holds another workspace, and it is another
/// one of that list: the one that was active there before, where it still stands in the list.
pub proof fn law_move_desktop(st: StateView, cur: u8, n: u8)
    ensures
        match move_of(st, cur, n) {
            MovePlanView::Nothing => !(st.desktops.contains_key(cur) && st.desktops[cur].active is Some),
            MovePlanView::Here(ws) => n == cur && st.desktops.contains_key(cur) && st.desktops[cur].active == Some(ws),
            MovePlanView::Move(ws, next) => {
                let list = st.desktops[cur].workspaces;
                &&& n != cur && st.desktops.contains_key(cur) && st.desktops[cur].active == Some(ws)
                &&& next matches Some(w) ==> list.contains(w) && w != ws
                &&& next is Some <==> exists|w: Str| #[trigger] list.contains(w) && w != ws
                &&& st.prev_active.contains_key(cur) && st.prev_active[cur] != ws && list.contains(st.prev_active[cur])
                    ==> next == Some(st.prev_active[cur])
            },
        },
{
    if let Some(ws) = st.active_on(cur) {
        law_successor(st.desktops[cur].workspaces, ws, at_desk(st.prev_active, cur));
    }
}

/// Where the workspace that was active before is gone, the successor is the one that stands before the leaving one in
/// the list; for the first one, and for one that is not in the list, it is the last of the others.
pub proof fn law_successor_stands_before(list: Seq<Str>, ws: Str, prev: Option<Str>)
    requires
        !(prev is Some && prev->0 != ws && list.contains(prev->0)),
    ensures
        forall|i: int|
            0 < i < list.len() && #[trigger] list[i] == ws && (forall|k: int| 0 <= k < i ==> #[trigger] list[k] != ws)
                ==> successor_of(list, ws, prev) == Some(list[i - 1]),
        list.len() > 0 && list.last() != ws && (list[0] == ws || !list.contains(ws)) ==> successor_of(list, ws, prev)
            == Some(list.last()),
{
    let rest = without(list, ws);
    lemma_without(list, ws, list.len() as int);
    lemma_found(list, ws, 0);
    assert forall|i: int|
        0 < i < list.len() && #[trigger] list[i] == ws && (forall|k: int| 0 <= k < i ==> #[trigger] list[k] != ws) implies successor_of(
        list,
        ws,
        prev,
    ) == Some(list[i - 1]) by {
        assert(rest.contains(list[i - 1]));
    }
    if list.len() > 0 && list.last() != ws {
        assert(rest == without_upto(list, ws, list.len() - 1).push(list.last()));
        if !list.contains(ws) && find_in(list, ws, 0) < list.len() {
            assert(list.contains(list[find_in(list, ws, 0)]));
        }
    }
}

pub proof fn lemma_found(s: Seq<Str>, t: Str, i: int)
    requires
        0 <= i <= s.len(),
    ensures
        i <= find_in(s, t, i) <= s.len(),
        find_in(s, t, i) < s.len() ==> s[find_in(s, t, i)] == t,
        forall|k: int| i <= k < find_in(s, t, i) ==> #[trigger] s[k] != t,
    decreases s.len() - i,
{
    if i < s.len() && s[i] != t {
        lemma_found(s, t, i + 1);
    }
}

/// Going on leads nowhere exactly on a desktop without workspaces; where no workspace of the list is active it leads
/// to the first one, and after the active one comes its successor in the list, after the last one the first.
pub proof fn law_next(d: DesktopView)
    ensures
        next_of(d) is None <==> d.workspaces.len() == 0,
        d.workspaces.len() > 0 && (d.active is None || !d.workspaces.contains(d.active->0)) ==> next_of(d) == Some(
            d.workspaces[0],
        ),
        forall|i: int|
            0 <= i < d.workspaces.len() - 1 && d.active == Some(#[trigger] d.workspaces[i]) && d.workspaces.no_duplicates()
                ==> next_of(d) == Some(d.workspaces[i + 1]),
        d.workspaces.len() > 0 && d.active == Some(d.workspaces.last()) && d.workspaces.no_duplicates() ==> next_of(d) == Some(
            d.workspaces[0],
        ),
{
    let s = d.workspaces;
    if let Some(a) = d.active {
        lemma_found(s, a, 0);
        let k = find_in(s, a, 0);
        if k < s.len() {
            assert(s.contains(s[k]));
        }
        if k < s.len() && s.no_duplicates() {
            law_next_goes_round(d, k);
        }
    }
}

proof fn lemma_active_from(m: Map<u8, DesktopView>, ws: Str, n: int)
    requires
        0 <= n <= 256,
    ensures
        match active_from(m, ws, n) {
            Some(k) => n <= k && m.contains_key(k) && m[k].active == Some(ws) && forall|j: u8|
                n <= j < k && #[trigger] m.contains_key(j) ==> m[j].active != Some(ws),
            None => forall|j: u8| n <= j && #[trigger] m.contains_key(j) ==> m[j].active != Some(ws),
        },
    decreases 256 - n,
{
    if n < 256 && !(m.contains_key(n as u8) && m[n as u8].active == Some(ws)) {
        lemma_active_from(m, ws, n + 1);
    }
}

/// The desktop of an active workspace is the least one on which it is active, and there is one exactly where it is
/// active somewhere.
pub proof fn law_active_desktop(m: Map<u8, DesktopView>, ws: Str)
    ensures
        match active_from(m, ws, 0) {
            Some(k) => m.contains_key(k) && m[k].active == Some(ws) && forall|j: u8|
                j < k && #[trigger] m.contains_key(j) ==> m[j].active != Some(ws),
            None => forall|j: u8| #[trigger] m.contains_key(j) ==> m[j].active != Some(ws),
        },
{
    lemma_active_from(m, ws, 0);
}

/// A workspace of the window is active on the desktop.
pub open spec fn awaited_on(c: Client, active: Map<u8, Str>, k: u8) -> bool {
    active.contains_key(k) && in_ws(c, active[k])
}

/// Where a window goes: to the desktop of the user where a workspace of it is active there, else it stays on its own
/// desktop on that condition, else it goes to the least desktop of that kind, and is parked where there is
/// none. A hidden window stays.
pub proof fn law_home(c: Client, active: Map<u8, Str>, cur: u8)
    ensures
        ({
            let h = home_of(ws_list(c), active, cur, spot_of(c));
            let own = desk_of(c) is Some && awaited_on(c, active, desk_of(c)->0);
            if on_hidden(c) {
                h == Home::Keep
            } else if awaited_on(c, active, cur) {
                h == Home::Desktop(cur)
            } else if own {
                h == Home::Desktop(desk_of(c)->0)
            } else {
                match h {
                    Home::Desktop(k) => awaited_on(c, active, k) && forall|j: u8| j < k ==> !#[trigger] awaited_on(c, active, j),
                    Home::Pool => forall|j: u8| !#[trigger] awaited_on(c, active, j),
                    Home::Keep => false,
                }
            }
        }),
{
    let l = ws_list(c);
    law_ws_list(c);
    lemma_home_from(l, active, 0);
    assert forall|k: u8| #[trigger] awaited_on(c, active, k) == active_among(l, active, k) by {}
}

proof fn lemma_home_from(l: Seq<Str>, active: Map<u8, Str>, n: int)
    requires
        0 <= n <= 256,
    ensures
        match least_home(l, active, n) {
            Home::Desktop(d) => n <= d && active_among(l, active, d) && forall|k: u8|
                n <= k < d ==> !#[trigger] active_among(l, active, k),
            Home::Pool => forall|k: u8| n <= k ==> !#[trigger] active_among(l, active, k),
            Home::Keep => false,
        },
    decreases 256 - n,
{
    if n < 256 && !active_among(l, active, n as u8) {
        lemma_home_from(l, active, n + 1);
    }
}

proof fn lemma_standing(s: Seq<Client>, n: u8, k: int)
    requires
        0 <= k <= s.len(),
    ensures
        forall|c: Client| #[trigger]
            standing_upto(s, n, k).contains(c) <==> desk_of(c) == Some(n) && exists|i: int| 0 <= i < k && #[trigger] s[i] == c,
    decreases k,
{
    if k > 0 {
        lemma_standing(s, n, k - 1);
        let a = standing_upto(s, n, k - 1);
        let b = standing_upto(s, n, k);
        assert forall|c: Client| #[trigger] b.contains(c) <==> desk_of(c) == Some(n) && exists|i: int|
            0 <= i < k && #[trigger] s[i] == c by {
            lemma_push(a, b, s[k - 1], c);
            if a.contains(c) {
                let i = choose|i: int| 0 <= i < k - 1 && #[trigger] s[i] == c;
                assert(s[i] == c);
            }
            if exists|i: int| 0 <= i < k && #[trigger] s[i] == c {
                let i = choose|i: int| 0 <= i < k && #[trigger] s[i] == c;
                assert(i < k - 1 || c == s[k - 1]);
            }
        }
    }
}

proof fn lemma_desks_stay(
    st: StateView,
    cfg: ConfigView,
    wins: Seq<Client>,
    n: u8,
    active: Map<u8, Str>,
    cur: u8,
    i: int,
    ex: Seq<Str>,
)
    requires
        0 <= i <= wins.len(),
    ensures
        ({
            let t = st.all_home_from(cfg, wins, n, active, cur, i, ex).0;
            t == (StateView { cells: t.cells, geom: t.geom, ..st })
        }),
    decreases wins.len() - i,
{
    if i < wins.len() {
        lemma_desks_stay(
            st.gone_home(cfg, wins[i], n, active, cur),
            cfg,
            wins,
            n,
            active,
            cur,
            i + 1,
            ex + st.going(cfg, wins[i], n, active, cur),
        );
    }
}

/// The window leaves for a desktop where a workspace of it is active, that of the user first, and is parked where
/// there is none.
pub open spec fn goes_home(c: Client, active: Map<u8, Str>, cur: u8, ex: Seq<Str>) -> bool {
    if exists|k: u8| #[trigger] awaited_on(c, active, k) {
        exists|k: u8| #[trigger]
            awaited_on(c, active, k) && (awaited_on(c, active, cur) ==> k == cur) && ex.contains(desk_move(c.address@, k))
    } else {
        ex.contains(park(c.address@))
    }
}

/// Taking a workspace off a desktop takes it off the list of that desktop, where every other workspace stays. Where it
/// was active there, nothing is active there any more, and each of its windows there goes home; other windows are
/// not moved. Where it was not active, the active one stays and no window moves.
pub proof fn law_removed(st: StateView, cfg: ConfigView, ws: Str, n: u8, clients: Seq<Client>, cur: u8)
    requires
        in_order(st),
    ensures
        ({
            let (t, ex) = st.removed(cfg, ws, n, clients, cur);
            let was = st.active_on(n) == Some(ws);
            &&& t.desktops.contains_key(n)
            &&& forall|w: Str| #[trigger]
                t.desktops[n].workspaces.contains(w) <==> w != ws && st.desk(n).workspaces.contains(w)
            &&& t.desktops[n].active == if was {
                None
            } else {
                st.desk(n).active
            }
            &&& forall|k: u8| k != n ==> (#[trigger] t.desktops.contains_key(k) <==> st.desktops.contains_key(k))
            &&& forall|k: u8| k != n && #[trigger] t.desktops.contains_key(k) ==> t.desktops[k] == st.desktops[k]
            &&& !was ==> ex.len() == 0
            &&& was ==> forall|c: Client| #[trigger]
                clients.contains(c) && in_ws(c, ws) && desk_of(c) == Some(n) && !on_hidden(c) ==> goes_home(
                    c,
                    actives_of(t.desktops),
                    cur,
                    ex,
                )
            &&& forall|x: Str| #[trigger]
                ex.contains(x) ==> exists|c: Client| #[trigger]
                    clients.contains(c) && in_ws(c, ws) && desk_of(c) == Some(n) && takes_home(
                        x,
                        c,
                        n,
                        actives_of(t.desktops),
                        cur,
                    )
        }),
{
    let list = st.desk(n).workspaces;
    let (t, ex) = st.removed(cfg, ws, n, clients, cur);
    lemma_without(list, ws, list.len() as int);
    assert forall|w: Str| #[trigger] without(list, ws).contains(w) <==> w != ws && list.contains(w) by {
        if list.contains(w) {
            let i = choose|i: int| 0 <= i < list.len() && list[i] == w;
            assert(list[i] == w);
        }
    }
    if st.active_on(n) == Some(ws) {
        law_places_are_read(st, cfg, ws, n, clients);
        let one = st.absorbed(cfg, ws, n, clients);
        let two = one.with_desk(n, DesktopView { workspaces: without(one.desk(n).workspaces, ws), active: None });
        let m = members(clients, ws);
        let wins = standing_upto(m, n, m.len() as int);
        let active = actives_of(two.desktops);
        lemma_desks_stay(two, cfg, wins, n, active, cur, 0, Seq::empty());
        lemma_all_leave(two, cfg, wins, n, active, cur, 0, Seq::empty());
        lemma_standing(m, n, m.len() as int);
        law_members(clients, ws);
        assert(one.desktops == st.desktops);
        assert forall|c: Client| #[trigger]
            clients.contains(c) && in_ws(c, ws) && desk_of(c) == Some(n) && !on_hidden(c) implies goes_home(
            c,
            active,
            cur,
            ex,
        ) by {
            assert(m.contains(c));
            let i = choose|i: int| 0 <= i < m.len() && m[i] == c;
            assert(m[i] == c);
            assert(wins.contains(c));
            let k = choose|k: int| 0 <= k < wins.len() && wins[k] == c;
            assert(leaves(wins[k], n, active, cur, ex));
            law_home(c, active, cur);
            assert(!awaited_on(c, active, n));
        }
        assert forall|x: Str| #[trigger] ex.contains(x) implies exists|c: Client| #[trigger]
            clients.contains(c) && in_ws(c, ws) && desk_of(c) == Some(n) && takes_home(x, c, n, active, cur) by {
            let k = choose|k: int| 0 <= k < wins.len() && takes_home(x, #[trigger] wins[k], n, active, cur);
            let c = wins[k];
            assert(wins.contains(c));
            let i = choose|i: int| 0 <= i < m.len() && #[trigger] m[i] == c;
            assert(m.contains(c));
            assert(clients.contains(c));
        }
    }
}

// ---- The report of a desktop --------------------------------------------------------------

/// A desktop is reported with its workspaces in their order, at most the active one of them as active, and each with the
/// windows that belong to it and with no other.
pub proof fn law_report(cfg: ConfigView, st: StateView, clients: Seq<Client>, n: u8)
    ensures
        ({
            let r = desk_report_of(cfg, st, clients, n);
            &&& at_desk(st.desktops, n) is None ==> r.workspaces.len() == 0 && r.active is None
            &&& at_desk(st.desktops, n) matches Some(d) ==> {
                &&& r.active == d.active && r.workspaces.len() == d.workspaces.len()
                &&& forall|i: int|
                    #![trigger r.workspaces[i]]
                    0 <= i < d.workspaces.len() ==> {
                        &&& r.workspaces[i].name == d.workspaces[i]
                        &&& r.workspaces[i].active <==> d.active == Some(d.workspaces[i])
                        &&& forall|a: Str| #[trigger]
                            r.workspaces[i].windows.contains(a) <==> exists|c: Client| #[trigger]
                                clients.contains(c) && in_ws(c, d.workspaces[i]) && c.address@ == a
                    }
            }
        }),
{
    let r = desk_report_of(cfg, st, clients, n);
    if let Some(d) = at_desk(st.desktops, n) {
        assert forall|i: int, a: Str| 0 <= i < d.workspaces.len() implies (#[trigger] r.workspaces[i].windows.contains(a)
            <==> exists|c: Client| #[trigger] clients.contains(c) && in_ws(c, d.workspaces[i]) && c.address@ == a) by {
            let ws = d.workspaces[i];
            let m = members(clients, ws);
            law_members(clients, ws);
            assert(r.workspaces[i].windows == addresses(m));
            if addresses(m).contains(a) {
                let k = choose|k: int| 0 <= k < addresses(m).len() && addresses(m)[k] == a;
                assert(m.contains(m[k]));
                assert(clients.contains(m[k]));
            }
            if exists|c: Client| #[trigger] clients.contains(c) && in_ws(c, ws) && c.address@ == a {
                let c = choose|c: Client| #[trigger] clients.contains(c) && in_ws(c, ws) && c.address@ == a;
                assert(m.contains(c));
                let k = choose|k: int| 0 <= k < m.len() && m[k] == c;
                assert(addresses(m)[k] == a);
            }
        }
    }
}

} // verus!
