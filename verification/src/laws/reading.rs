//! Layouts that are read from the screen.
use vstd::prelude::*;

use crate::config::ConfigView;
use crate::home::{
    change_of, changes_from, entry_names_of, geom_with, layout_on, moved_with, rects_upto, standing_from, stands_on,
};
use crate::hypr::{app_instance, in_ws, rect_of, Client};
use crate::laws::select::{in_order, lemma_built, lemma_pruned_sorted};
use crate::laws::windows::{law_members, law_placed, law_placed_in_turn, law_turn, lemma_push, places};
use crate::layout::{all_sorted, lemma_nest_del, lemma_nest_put, lemma_pruned_get};
use crate::rect::PxRect;
use crate::state::{MovedView, StateView};
use crate::table::{lemma_put_get, lemma_put_sorted, nest_at, nest_get, nest_open, tab_has, tab_sorted};
use crate::text::{lemma_lt_irreflexive, Str};
use crate::windows::{members, placed, win_lt};

verus! {

/// What the screen says about the place of an entry: the rectangle of the first of its windows that stands on the
/// desktop, and nothing where that is the place described.
pub open spec fn reads(
    cfg: ConfigView,
    st: StateView,
    ws: Str,
    n: u8,
    clients: Seq<Client>,
    entry: Str,
    x: Option<MovedView>,
) -> bool {
    let first = standing_from(placed(cfg, clients, ws, entry_names_of(cfg, ws), entry), n, 0);
    first is Some && x == change_of(st.built(cfg, ws), cfg, ws, entry, first->0)
}

proof fn lemma_changes(
    cfg: ConfigView,
    st: StateView,
    ws: Str,
    n: u8,
    clients: Seq<Client>,
    i: int,
    acc: Seq<(Str, Option<MovedView>)>,
)
    requires
        0 <= i <= entry_names_of(cfg, ws).len(),
        st.built(cfg, ws).built(cfg, ws) == st.built(cfg, ws),
    ensures
        ({
            let apps = entry_names_of(cfg, ws);
            let (t, a) = changes_from(cfg, st, ws, n, clients, apps, i, acc);
            &&& t == st || t == st.built(cfg, ws)
            &&& acc.len() <= a.len()
            &&& forall|k: int| 0 <= k < acc.len() ==> #[trigger] a[k] == acc[k]
            &&& forall|k: int|
                acc.len() <= k < a.len() ==> apps.contains((#[trigger] a[k]).0) && reads(cfg, st, ws, n, clients, a[k].0, a[k].1)
            &&& forall|m: int|
                i <= m < apps.len() && standing_from(placed(cfg, clients, ws, apps, #[trigger] apps[m]), n, 0) is Some
                    ==> exists|k: int| acc.len() <= k < a.len() && (#[trigger] a[k]).0 == apps[m]
        }),
    decreases entry_names_of(cfg, ws).len() - i,
{
    let apps = entry_names_of(cfg, ws);
    let a = changes_from(cfg, st, ws, n, clients, apps, i, acc).1;
    if i < apps.len() {
        match standing_from(placed(cfg, clients, ws, apps, apps[i]), n, 0) {
            None => {
                lemma_changes(cfg, st, ws, n, clients, i + 1, acc);
            },
            Some(first) => {
                let b = st.built(cfg, ws);
                let x = (apps[i], change_of(b, cfg, ws, apps[i], first));
                let more = acc.push(x);
                lemma_changes(cfg, b, ws, n, clients, i + 1, more);
                assert(a[acc.len() as int] == more[acc.len() as int]);
                assert forall|k: int| 0 <= k < acc.len() implies #[trigger] a[k] == acc[k] by {
                    assert(a[k] == more[k]);
                }
                assert forall|k: int| acc.len() <= k < a.len() implies apps.contains((#[trigger] a[k]).0) && reads(
                    cfg,
                    st,
                    ws,
                    n,
                    clients,
                    a[k].0,
                    a[k].1,
                ) by {
                    if k == acc.len() {
                        assert(a[k] == x);
                    }
                }
                assert forall|m: int|
                    i <= m < apps.len() && standing_from(placed(cfg, clients, ws, apps, #[trigger] apps[m]), n, 0) is Some implies exists|
                    k: int,
                | acc.len() <= k < a.len() && (#[trigger] a[k]).0 == apps[m] by {
                    if m == i {
                        assert(a[acc.len() as int].0 == apps[m]);
                    } else {
                        let k = choose|k: int| more.len() <= k < a.len() && (#[trigger] a[k]).0 == apps[m];
                        assert(a[k].0 == apps[m]);
                    }
                }
            },
        }
    }
}

proof fn lemma_moved_with(m: Seq<(Str, Seq<(Str, MovedView)>)>, ws: Str, a: Seq<(Str, Option<MovedView>)>, n: int)
    requires
        all_sorted(m),
        0 <= n <= a.len(),
    ensures
        ({
            let r = moved_with(m, ws, a, n);
            &&& all_sorted(r)
            &&& forall|x: Str, y: Str| x != ws ==> #[trigger] nest_get(r, x, y) == nest_get(m, x, y)
            &&& forall|y: Str|
                nest_get(r, ws, y) == #[trigger] nest_get(m, ws, y) || exists|k: int|
                    0 <= k < n && (#[trigger] a[k]).0 == y && nest_get(r, ws, y) == a[k].1
            &&& forall|k: int|
                0 <= k < n ==> exists|j: int| 0 <= j < n && a[j].0 == (#[trigger] a[k]).0 && nest_get(r, ws, a[k].0) == (#[trigger] a[j]).1
        }),
    decreases n,
{
    if n > 0 {
        lemma_moved_with(m, ws, a, n - 1);
        let p = moved_with(m, ws, a, n - 1);
        let r = moved_with(m, ws, a, n);
        let (e, v) = a[n - 1];
        match v {
            Some(x) => {
                lemma_nest_put(p, ws, e, x);
            },
            None => {
                lemma_nest_del(p, ws, e);
            },
        }
        assert(forall|x: Str, y: Str| #[trigger] nest_get(r, x, y) == if x == ws && y == e {
            v
        } else {
            nest_get(p, x, y)
        });
        assert forall|y: Str| nest_get(r, ws, y) == #[trigger] nest_get(m, ws, y) || exists|k: int|
            0 <= k < n && (#[trigger] a[k]).0 == y && nest_get(r, ws, y) == a[k].1 by {
            if y == e {
                assert(a[n - 1].0 == y);
            } else if nest_get(p, ws, y) != nest_get(m, ws, y) {
                let k = choose|k: int| 0 <= k < n - 1 && (#[trigger] a[k]).0 == y && nest_get(p, ws, y) == a[k].1;
                assert(a[k].0 == y);
            }
        }
        assert forall|k: int| 0 <= k < n implies exists|j: int|
            0 <= j < n && a[j].0 == (#[trigger] a[k]).0 && nest_get(r, ws, a[k].0) == (#[trigger] a[j]).1 by {
            if a[k].0 == e {
                assert(a[n - 1].0 == a[k].0);
            } else {
                let j = choose|j: int|
                    0 <= j < n - 1 && a[j].0 == a[k].0 && nest_get(p, ws, a[k].0) == (#[trigger] a[j]).1;
                assert(a[j].0 == a[k].0);
            }
        }
    }
}

proof fn lemma_geom_with(g: Seq<(Str, Seq<(Str, PxRect)>)>, ws: Str, a: Seq<(Str, PxRect)>, n: int)
    requires
        all_sorted(g),
        0 <= n <= a.len(),
    ensures
        ({
            let r = geom_with(g, ws, a, n);
            &&& all_sorted(r)
            &&& forall|x: Str, y: Str| x != ws ==> #[trigger] nest_get(r, x, y) == nest_get(g, x, y)
            &&& forall|y: Str|
                nest_get(r, ws, y) == #[trigger] nest_get(g, ws, y) || exists|k: int|
                    0 <= k < n && (#[trigger] a[k]).0 == y && nest_get(r, ws, y) == Some(a[k].1)
            &&& forall|k: int|
                0 <= k < n ==> exists|j: int|
                    0 <= j < n && a[j].0 == (#[trigger] a[k]).0 && nest_get(r, ws, a[k].0) == Some((#[trigger] a[j]).1)
        }),
    decreases n,
{
    if n > 0 {
        lemma_geom_with(g, ws, a, n - 1);
        let p = geom_with(g, ws, a, n - 1);
        let r = geom_with(g, ws, a, n);
        let (e, v) = a[n - 1];
        lemma_nest_put(p, ws, e, v);
        assert forall|y: Str| nest_get(r, ws, y) == #[trigger] nest_get(g, ws, y) || exists|k: int|
            0 <= k < n && (#[trigger] a[k]).0 == y && nest_get(r, ws, y) == Some(a[k].1) by {
            if y == e {
                assert(a[n - 1].0 == y);
            } else if nest_get(p, ws, y) != nest_get(g, ws, y) {
                let k = choose|k: int| 0 <= k < n - 1 && (#[trigger] a[k]).0 == y && nest_get(p, ws, y) == Some(a[k].1);
                assert(a[k].0 == y);
            }
        }
        assert forall|k: int| 0 <= k < n implies exists|j: int|
            0 <= j < n && a[j].0 == (#[trigger] a[k]).0 && nest_get(r, ws, a[k].0) == Some((#[trigger] a[j]).1) by {
            if a[k].0 == e {
                assert(a[n - 1].0 == a[k].0);
            } else {
                let j = choose|j: int|
                    0 <= j < n - 1 && a[j].0 == a[k].0 && nest_get(p, ws, a[k].0) == Some((#[trigger] a[j]).1);
                assert(a[j].0 == a[k].0);
            }
        }
    }
}

/// The rectangle is that of one of the first `k` windows, which stands on the desktop.
pub open spec fn is_read(s: Seq<Client>, n: u8, k: int, x: (Str, PxRect)) -> bool {
    exists|i: int| 0 <= i < k && stands_on(#[trigger] s[i], n) && x == (s[i].address@, rect_of(s[i]))
}

proof fn lemma_rects_upto(s: Seq<Client>, n: u8, k: int)
    requires
        0 <= k <= s.len(),
    ensures
        forall|x: (Str, PxRect)| #[trigger] rects_upto(s, n, k).contains(x) <==> is_read(s, n, k, x),
    decreases k,
{
    if k > 0 {
        lemma_rects_upto(s, n, k - 1);
        let p = rects_upto(s, n, k - 1);
        let r = rects_upto(s, n, k);
        assert forall|x: (Str, PxRect)| #[trigger] r.contains(x) <==> is_read(s, n, k, x) by {
            lemma_push(p, r, (s[k - 1].address@, rect_of(s[k - 1])), x);
            if is_read(s, n, k, x) {
                let i = choose|i: int| 0 <= i < k && stands_on(#[trigger] s[i], n) && x == (s[i].address@, rect_of(s[i]));
                if i < k - 1 {
                    assert(is_read(s, n, k - 1, x));
                }
            }
            if is_read(s, n, k - 1, x) {
                let i = choose|i: int|
                    0 <= i < k - 1 && stands_on(#[trigger] s[i], n) && x == (s[i].address@, rect_of(s[i]));
                assert(stands_on(s[i], n));
            }
        }
    } else {
        assert forall|x: (Str, PxRect)| #[trigger] rects_upto(s, n, k).contains(x) <==> is_read(s, n, k, x) by {}
    }
}

/// The window belongs to the workspace and stands on the desktop, neither hidden nor in full screen.
pub open spec fn is_seen(clients: Seq<Client>, ws: Str, n: u8, c: Client) -> bool {
    clients.contains(c) && in_ws(c, ws) && stands_on(c, n)
}

/// No two windows have the same address.
pub open spec fn addresses_differ(clients: Seq<Client>) -> bool {
    forall|i: int, j: int|
        0 <= i < clients.len() && 0 <= j < clients.len() && (#[trigger] clients[i]).address@ == (#[trigger] clients[j]).address@
            ==> i == j
}

proof fn lemma_open(g: Seq<(Str, Seq<(Str, PxRect)>)>, ws: Str)
    requires
        all_sorted(g),
    ensures
        all_sorted(nest_open(g, ws)),
        forall|x: Str, y: Str| #[trigger] nest_get(nest_open(g, ws), x, y) == nest_get(g, x, y),
{
    let r = nest_open(g, ws);
    let none = Seq::<(Str, PxRect)>::empty();
    if !tab_has(g, ws) {
        lemma_put_sorted(g, ws, none);
        assert forall|a: Str| #[trigger] tab_sorted(nest_at(r, a)) by {
            lemma_put_get(g, ws, none, a);
            assert(tab_sorted(nest_at(g, a)));
        }
        assert forall|x: Str, y: Str| #[trigger] nest_get(r, x, y) == nest_get(g, x, y) by {
            lemma_put_get(g, ws, none, x);
        }
    }
}

/// The pair is the address and the rectangle of a window that is seen.
pub open spec fn seen_rect(clients: Seq<Client>, ws: Str, n: u8, x: (Str, PxRect)) -> bool {
    exists|d: Client| #[trigger] is_seen(clients, ws, n, d) && x == (d.address@, rect_of(d))
}

proof fn lemma_seen_rects(clients: Seq<Client>, ws: Str, n: u8)
    ensures
        ({
            let m = members(clients, ws);
            forall|x: (Str, PxRect)| #[trigger]
                rects_upto(m, n, m.len() as int).contains(x) <==> seen_rect(clients, ws, n, x)
        }),
{
    let m = members(clients, ws);
    lemma_rects_upto(m, n, m.len() as int);
    law_members(clients, ws);
    assert forall|x: (Str, PxRect)| #[trigger] rects_upto(m, n, m.len() as int).contains(x) <==> seen_rect(
        clients,
        ws,
        n,
        x,
    ) by {
        if is_read(m, n, m.len() as int, x) {
            let i = choose|i: int| 0 <= i < m.len() && stands_on(#[trigger] m[i], n) && x == (m[i].address@, rect_of(m[i]));
            assert(m.contains(m[i]));
            assert(is_seen(clients, ws, n, m[i]));
        }
        if seen_rect(clients, ws, n, x) {
            let d = choose|d: Client| #[trigger] is_seen(clients, ws, n, d) && x == (d.address@, rect_of(d));
            assert(m.contains(d));
            let i = choose|i: int| 0 <= i < m.len() && m[i] == d;
            assert(stands_on(m[i], n));
        }
    }
}

proof fn lemma_one_rect(clients: Seq<Client>, ws: Str, n: u8, x: (Str, PxRect), y: (Str, PxRect))
    requires
        addresses_differ(clients),
        seen_rect(clients, ws, n, x),
        seen_rect(clients, ws, n, y),
        x.0 == y.0,
    ensures
        x == y,
{
    let c = choose|d: Client| #[trigger] is_seen(clients, ws, n, d) && x == (d.address@, rect_of(d));
    let d = choose|d: Client| #[trigger] is_seen(clients, ws, n, d) && y == (d.address@, rect_of(d));
    let p = choose|p: int| 0 <= p < clients.len() && clients[p] == c;
    let q = choose|q: int| 0 <= q < clients.len() && clients[q] == d;
    assert(clients[p].address@ == clients[q].address@);
}

proof fn lemma_geom_read(g: Seq<(Str, Seq<(Str, PxRect)>)>, clients: Seq<Client>, ws: Str, n: u8)
    requires
        all_sorted(g),
    ensures
        ({
            let m = members(clients, ws);
            let r = rects_upto(m, n, m.len() as int);
            let t = geom_with(nest_open(g, ws), ws, r, r.len() as int);
            &&& addresses_differ(clients) ==> forall|c: Client| #[trigger]
                is_seen(clients, ws, n, c) ==> nest_get(t, ws, c.address@) == Some(rect_of(c))
            &&& forall|x: Str, y: Str|
                x != ws || (forall|c: Client| #[trigger] is_seen(clients, ws, n, c) ==> c.address@ != y)
                    ==> #[trigger] nest_get(t, x, y) == nest_get(g, x, y)
            &&& all_sorted(t)
        }),
{
    let m = members(clients, ws);
    let r = rects_upto(m, n, m.len() as int);
    let o = nest_open(g, ws);
    let t = geom_with(o, ws, r, r.len() as int);
    lemma_open(g, ws);
    lemma_geom_with(o, ws, r, r.len() as int);
    lemma_seen_rects(clients, ws, n);
    if addresses_differ(clients) {
        assert forall|c: Client| #[trigger] is_seen(clients, ws, n, c) implies nest_get(t, ws, c.address@) == Some(
            rect_of(c),
        ) by {
            let x = (c.address@, rect_of(c));
            assert(seen_rect(clients, ws, n, x));
            assert(r.contains(x));
            let k = choose|k: int| 0 <= k < r.len() && r[k] == x;
            let j = choose|j: int|
                0 <= j < r.len() && r[j].0 == r[k].0 && nest_get(t, ws, r[k].0) == Some((#[trigger] r[j]).1);
            assert(r.contains(r[j]));
            lemma_one_rect(clients, ws, n, x, r[j]);
        }
    }
    assert forall|x: Str, y: Str|
        x != ws || (forall|c: Client| #[trigger] is_seen(clients, ws, n, c) ==> c.address@ != y) implies #[trigger] nest_get(
        t,
        x,
        y,
    ) == nest_get(g, x, y) by {
        assert(nest_get(o, x, y) == nest_get(g, x, y));
        if x == ws && nest_get(t, ws, y) != nest_get(o, ws, y) {
            let k = choose|k: int| 0 <= k < r.len() && (#[trigger] r[k]).0 == y && nest_get(t, ws, y) == Some(r[k].1);
            assert(r.contains(r[k]));
            let d = choose|d: Client| #[trigger] is_seen(clients, ws, n, d) && r[k] == (d.address@, rect_of(d));
            assert(d.address@ == y);
        }
    }
}

/// A layout is read only from the desktop where its workspace is active. Then the rectangle of every window of the
/// workspace that stands there is kept for it, and no other rectangle changes; windows elsewhere, hidden or in full
/// screen are not counted, and no other workspace is touched.
pub proof fn law_rects_are_kept(st: StateView, cfg: ConfigView, ws: Str, n: u8, clients: Seq<Client>)
    requires
        in_order(st),
    ensures
        ({
            let t = st.absorbed(cfg, ws, n, clients);
            &&& st.active_on(n) != Some(ws) ==> t == st
            &&& st.active_on(n) == Some(ws) && addresses_differ(clients) ==> forall|c: Client| #[trigger]
                is_seen(clients, ws, n, c) ==> nest_get(t.geom, ws, c.address@) == Some(rect_of(c))
            &&& forall|x: Str, y: Str|
                x != ws || (forall|c: Client| #[trigger] is_seen(clients, ws, n, c) ==> c.address@ != y)
                    ==> #[trigger] nest_get(t.geom, x, y) == nest_get(st.geom, x, y)
            &&& all_sorted(t.geom)
        }),
{
    if st.active_on(n) == Some(ws) {
        lemma_built(st, cfg, ws);
        lemma_changes(cfg, st, ws, n, clients, 0, Seq::empty());
        lemma_geom_read(st.geom, clients, ws, n);
    }
}

proof fn lemma_first_standing(s: Seq<Client>, n: u8, i: int)
    requires
        0 <= i <= s.len(),
    ensures
        match standing_from(s, n, i) {
            Some(c) => exists|k: int|
                i <= k < s.len() && #[trigger] s[k] == c && stands_on(c, n) && forall|j: int|
                    i <= j < k ==> !stands_on(#[trigger] s[j], n),
            None => forall|j: int| i <= j < s.len() ==> !stands_on(#[trigger] s[j], n),
        },
    decreases s.len() - i,
{
    if i < s.len() {
        if stands_on(s[i], n) {
            assert(s[i] == s[i]);
        } else {
            lemma_first_standing(s, n, i + 1);
            if let Some(c) = standing_from(s, n, i + 1) {
                let k = choose|k: int|
                    i + 1 <= k < s.len() && #[trigger] s[k] == c && stands_on(c, n) && forall|j: int|
                        i + 1 <= j < k ==> !stands_on(#[trigger] s[j], n);
                assert(s[k] == c);
            }
        }
    }
}

/// The window is one that the entry places in the workspace, and it stands on the desktop.
pub open spec fn stands_for(cfg: ConfigView, clients: Seq<Client>, ws: Str, n: u8, entry: Str, c: Client) -> bool {
    clients.contains(c) && places(cfg, ws, entry, c) && stands_on(c, n)
}

/// The window is the first by its number of those that stand on the desktop for an entry.
pub open spec fn stands_first(cfg: ConfigView, clients: Seq<Client>, ws: Str, n: u8, entry: Str, c: Client) -> bool {
    stands_for(cfg, clients, ws, n, entry, c) && forall|d: Client| #[trigger]
        stands_for(cfg, clients, ws, n, entry, d) ==> !win_lt(d, c)
}

proof fn lemma_reads(cfg: ConfigView, clients: Seq<Client>, ws: Str, n: u8, entry: Str)
    ensures
        match standing_from(placed(cfg, clients, ws, entry_names_of(cfg, ws), entry), n, 0) {
            Some(c) => stands_first(cfg, clients, ws, n, entry, c),
            None => forall|d: Client| !#[trigger] stands_for(cfg, clients, ws, n, entry, d),
        },
{
    let s = placed(cfg, clients, ws, entry_names_of(cfg, ws), entry);
    lemma_first_standing(s, n, 0);
    law_placed(cfg, clients, ws, entry);
    law_placed_in_turn(cfg, clients, ws, entry);
    assert forall|d: Client| #[trigger] stands_for(cfg, clients, ws, n, entry, d) implies s.contains(d) by {}
    match standing_from(s, n, 0) {
        Some(c) => {
            let k = choose|k: int|
                0 <= k < s.len() && #[trigger] s[k] == c && stands_on(c, n) && forall|j: int|
                    0 <= j < k ==> !stands_on(#[trigger] s[j], n);
            assert(s.contains(s[k]));
            assert forall|d: Client| #[trigger] stands_for(cfg, clients, ws, n, entry, d) implies !win_lt(d, c) by {
                assert(s.contains(d));
                let j = choose|j: int| 0 <= j < s.len() && s[j] == d;
                assert(stands_on(s[j], n));
                law_turn(d, d);
                if j > k {
                    assert(!win_lt(s[j], s[k]));
                } else {
                    lemma_turn_irreflexive(d);
                }
            }
        },
        None => {
            assert forall|d: Client| !#[trigger] stands_for(cfg, clients, ws, n, entry, d) by {
                if stands_for(cfg, clients, ws, n, entry, d) {
                    assert(s.contains(d));
                    let j = choose|j: int| 0 <= j < s.len() && s[j] == d;
                    assert(stands_on(s[j], n));
                }
            }
        },
    }
}

proof fn lemma_turn_irreflexive(c: Client)
    ensures
        !win_lt(c, c),
{
    if let Some((a, _)) = app_instance(c) {
        lemma_lt_irreflexive(a);
    }
}

/// An entry whose windows stand on the desktop gets the place where the first of them stands: where that is the
/// place described, the entry has no place given by the user any more, and else the given place is that
/// rectangle, owned by that window. An entry without a window there, and every other workspace, keeps what it has.
pub proof fn law_places_are_read(st: StateView, cfg: ConfigView, ws: Str, n: u8, clients: Seq<Client>)
    requires
        in_order(st),
    ensures
        ({
            let t = st.absorbed(cfg, ws, n, clients);
            let b = st.built(cfg, ws);
            &&& st.active_on(n) == Some(ws) ==> forall|e: Str, c: Client| #[trigger]
                stands_for(cfg, clients, ws, n, e, c) && entry_names_of(cfg, ws).contains(e) ==> exists|f: Client| #[trigger]
                stands_first(cfg, clients, ws, n, e, f) && nest_get(t.moved, ws, e) == (if b.base(cfg, ws, e) == Some(
                    rect_of(f),
                ) {
                    None
                } else {
                    Some(MovedView { rect: rect_of(f), owner: Some(f.address@) })
                })
            &&& forall|x: Str, e: Str|
                x != ws || !entry_names_of(cfg, ws).contains(e) || (forall|c: Client|
                    !#[trigger] stands_for(cfg, clients, ws, n, e, c)) ==> #[trigger] nest_get(t.moved, x, e) == nest_get(
                    st.moved,
                    x,
                    e,
                )
            &&& t.cells == st.cells || t.cells == b.cells
            &&& t == (StateView { cells: t.cells, moved: t.moved, geom: t.geom, ..st })
            &&& in_order(t)
        }),
{
    law_rects_are_kept(st, cfg, ws, n, clients);
    if st.active_on(n) == Some(ws) {
        let t = st.absorbed(cfg, ws, n, clients);
        let b = st.built(cfg, ws);
        let apps = entry_names_of(cfg, ws);
        let (u, v) = layout_on(cfg, st, ws, n, clients);
        let a = v.moved;
        let w = moved_with(u.moved, ws, a, a.len() as int);
        lemma_built(st, cfg, ws);
        lemma_changes(cfg, st, ws, n, clients, 0, Seq::empty());
        lemma_moved_with(u.moved, ws, a, a.len() as int);
        lemma_pruned_sorted(w);
        assert forall|x: Str, e: Str| #[trigger] nest_get(t.moved, x, e) == nest_get(w, x, e) by {
            lemma_pruned_get(w, x, e);
        }
        assert forall|e: Str, c: Client| #[trigger]
            stands_for(cfg, clients, ws, n, e, c) && apps.contains(e) implies exists|f: Client| #[trigger]
            stands_first(cfg, clients, ws, n, e, f) && nest_get(t.moved, ws, e) == (if b.base(cfg, ws, e) == Some(rect_of(f)) {
                None
            } else {
                Some(MovedView { rect: rect_of(f), owner: Some(f.address@) })
            }) by {
            lemma_reads(cfg, clients, ws, n, e);
            let f = standing_from(placed(cfg, clients, ws, apps, e), n, 0)->0;
            let m = choose|m: int| 0 <= m < apps.len() && apps[m] == e;
            assert(standing_from(placed(cfg, clients, ws, apps, apps[m]), n, 0) is Some);
            let k = choose|k: int| 0 <= k < a.len() && (#[trigger] a[k]).0 == apps[m];
            let j = choose|j: int| 0 <= j < a.len() && a[j].0 == a[k].0 && nest_get(w, ws, a[k].0) == (#[trigger] a[j]).1;
            assert(reads(cfg, st, ws, n, clients, a[j].0, a[j].1));
            assert(nest_get(t.moved, ws, e) == nest_get(w, ws, e));
            assert(stands_first(cfg, clients, ws, n, e, f));
        }
        assert forall|x: Str, e: Str|
            x != ws || !apps.contains(e) || (forall|c: Client| !#[trigger] stands_for(cfg, clients, ws, n, e, c)) implies #[trigger] nest_get(
            t.moved,
            x,
            e,
        ) == nest_get(st.moved, x, e) by {
            assert(nest_get(t.moved, x, e) == nest_get(w, x, e));
            if x == ws && nest_get(w, ws, e) != nest_get(u.moved, ws, e) {
                let k = choose|k: int| 0 <= k < a.len() && (#[trigger] a[k]).0 == e && nest_get(w, ws, e) == a[k].1;
                assert(reads(cfg, st, ws, n, clients, a[k].0, a[k].1));
                lemma_reads(cfg, clients, ws, n, e);
                let f = standing_from(placed(cfg, clients, ws, apps, e), n, 0)->0;
                assert(stands_for(cfg, clients, ws, n, e, f));
            }
        }
    }
}

} // verus!
