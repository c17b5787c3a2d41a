//! What is written of a workspace and kept of a session.
use vstd::prelude::*;

use crate::config::ConfigView;
use crate::cycle::taken;
use crate::effects::{begins_with, entering, lemma_begins};
use crate::extra::{join_of, taken_of, JoinView};
use crate::hypr::{app_instance, app_of, in_ws, instance_tag, on_hidden, rect_of, tag_of, Client};
use crate::laws::raise::lemma_prefix_contains;
use crate::laws::windows::{is_early, lemma_push};
use crate::layout::{all_sorted, lemma_nest_put};
use crate::member::law_next_number;
use crate::raise::desk_of;
use crate::rect::{PxRect, Rect};
use crate::save::{
    accepted, extra_rect_of, foreign_cmd, foreign_cwd, gathered_from, gathered_one, item_of, kept, live_from,
    live_window, no_longer_foreign, place_items, placed_records_from, plan_of, session_from, tagging_upto,
    taken_in_from, untold_upto, AdoptedView, AppItemView, Gathered,
};
use crate::state::{place_only, ExtraAppView, ForeignView, PlaceView, StateView};
use crate::table::{
    lemma_del_get, lemma_del_sorted, nest_at, nest_get, nest_put, tab_del, tab_get, tab_has, tab_keys, tab_sorted,
};
use crate::text::{lemma_lt_irreflexive, Str};
use crate::windows::{all_instances, fitting_app, has_no_class, law_windows_in_order, shows, win_lt, windows_of};

verus! {

/// An entry that stands in a cell stays in it exactly where no window of it says otherwise: there is none, or it stands
/// on the place of the entry. Else the rectangle of the window is written. An entry with a rectangle gets that of
/// its window, and keeps its own without one.
pub proof fn law_item(place: PlaceView, live: Option<PxRect>, expected: Option<PxRect>)
    ensures
        ({
            let r = item_of(place, live, expected);
            &&& live is None ==> (place matches PlaceView::Cell(c) ==> r == AppItemView::Cell(c)) && (place matches PlaceView::Rect {
                rect,
            } ==> r == AppItemView::Rect(rect))
            &&& live is Some && (place is Rect || expected != live) ==> r == AppItemView::Rect(live->0)
            &&& live is Some && expected == live ==> (place matches PlaceView::Cell(c) ==> r == AppItemView::Cell(c))
        }),
{
}

proof fn lemma_live(s: Seq<Client>, ws: Str, i: int)
    requires
        0 <= i <= s.len(),
    ensures
        match live_from(s, ws, i) {
            Some(c) => exists|k: int|
                i <= k < s.len() && #[trigger] s[k] == c && in_ws(c, ws) && !on_hidden(c) && forall|j: int|
                    i <= j < k ==> !in_ws(#[trigger] s[j], ws) || on_hidden(s[j]),
            None => forall|j: int| i <= j < s.len() ==> !in_ws(#[trigger] s[j], ws) || on_hidden(s[j]),
        },
    decreases s.len() - i,
{
    if i < s.len() {
        if in_ws(s[i], ws) && !on_hidden(s[i]) {
            assert(s[i] == s[i]);
        } else {
            lemma_live(s, ws, i + 1);
            if let Some(c) = live_from(s, ws, i + 1) {
                let k = choose|k: int|
                    i + 1 <= k < s.len() && #[trigger] s[k] == c && in_ws(c, ws) && !on_hidden(c) && forall|j: int|
                        i + 1 <= j < k ==> !in_ws(#[trigger] s[j], ws) || on_hidden(s[j]);
                assert(s[k] == c);
            }
        }
    }
}

/// The window shows the application or a variant of it, belongs to the workspace and is not hidden.
pub open spec fn is_live(cfg: ConfigView, clients: Seq<Client>, ws: Str, app: Str, c: Client) -> bool {
    clients.contains(c) && shows(cfg, c, app) && in_ws(c, ws) && !on_hidden(c)
}

/// Where an application is in a workspace says the first by its number of its windows that belong to the workspace and
/// are not hidden; nothing says so exactly where there is none.
pub proof fn law_live_window(cfg: ConfigView, clients: Seq<Client>, ws: Str, app: Str)
    ensures
        match live_window(cfg, clients, ws, app) {
            Some(c) => is_live(cfg, clients, ws, app, c) && forall|d: Client| #[trigger]
                is_live(cfg, clients, ws, app, d) ==> !win_lt(d, c),
            None => forall|d: Client| !#[trigger] is_live(cfg, clients, ws, app, d),
        },
{
    let s = windows_of(cfg, clients, app);
    law_windows_in_order(cfg, clients, app);
    lemma_live(s, ws, 0);
    match live_window(cfg, clients, ws, app) {
        Some(c) => {
            let k = choose|k: int|
                0 <= k < s.len() && #[trigger] s[k] == c && in_ws(c, ws) && !on_hidden(c) && forall|j: int|
                    0 <= j < k ==> !in_ws(#[trigger] s[j], ws) || on_hidden(s[j]);
            assert(s.contains(s[k]));
            assert forall|d: Client| #[trigger] is_live(cfg, clients, ws, app, d) implies !win_lt(d, c) by {
                assert(s.contains(d));
                let j = choose|j: int| 0 <= j < s.len() && s[j] == d;
                assert(in_ws(s[j], ws) && !on_hidden(s[j]));
                if j > k {
                    assert(!win_lt(s[j], s[k]));
                } else {
                    assert(d == c);
                    if let Some((a, _)) = app_instance(c) {
                        lemma_lt_irreflexive(a);
                    }
                }
            }
        },
        None => {
            assert forall|d: Client| !#[trigger] is_live(cfg, clients, ws, app, d) by {
                if is_live(cfg, clients, ws, app, d) {
                    assert(s.contains(d));
                    let j = choose|j: int| 0 <= j < s.len() && s[j] == d;
                    assert(in_ws(s[j], ws));
                }
            }
        },
    }
}

/// The place of a record of the session: the rectangle of its window where that stands on the desktop on which the
/// workspace is active, else the one kept for the window in the workspace; none without a window.
pub proof fn law_record_place(
    cfg: ConfigView,
    clients: Seq<Client>,
    ws: Str,
    desk: Option<u8>,
    kept: Option<Seq<(Str, PxRect)>>,
    name: Str,
)
    ensures
        ({
            let w = live_window(cfg, clients, ws, name);
            let r = extra_rect_of(cfg, clients, ws, desk, kept, name);
            let here = desk is Some && w is Some && desk_of(w->0) == desk;
            &&& w is None ==> r is None
            &&& here ==> r == Some(rect_of(w->0))
            &&& w is Some && !here ==> r == (if kept is Some {
                tab_get(kept->0, w->0.address@)
            } else {
                None
            })
        }),
{
}

proof fn lemma_untold(clients: Seq<Client>, foreign: Seq<(Str, ForeignView)>, n: u8, k: int)
    requires
        0 <= k <= clients.len(),
    ensures
        forall|x: (Client, Option<ForeignView>)| #[trigger]
            untold_upto(clients, foreign, n, k).contains(x) <==> desk_of(x.0) == Some(n) && app_of(x.0) is None && x.1 == tab_get(
                foreign,
                x.0.address@,
            ) && is_early(clients, k, x.0),
    decreases k,
{
    if k > 0 {
        lemma_untold(clients, foreign, n, k - 1);
        let a = untold_upto(clients, foreign, n, k - 1);
        let b = untold_upto(clients, foreign, n, k);
        let c = clients[k - 1];
        assert forall|x: (Client, Option<ForeignView>)| #[trigger] b.contains(x) <==> desk_of(x.0) == Some(n) && app_of(x.0) is None
            && x.1 == tab_get(foreign, x.0.address@) && is_early(clients, k, x.0) by {
            lemma_push(a, b, (c, tab_get(foreign, c.address@)), x);
            if is_early(clients, k - 1, x.0) {
                let i = choose|i: int| 0 <= i < k - 1 && #[trigger] clients[i] == x.0;
                assert(clients[i] == x.0);
            }
            if is_early(clients, k, x.0) {
                let i = choose|i: int| 0 <= i < k && #[trigger] clients[i] == x.0;
                if i < k - 1 {
                    assert(is_early(clients, k - 1, x.0));
                }
            } else {
                assert(clients[k - 1] != x.0);
            }
        }
    } else {
        assert forall|x: (Client, Option<ForeignView>)| !#[trigger] untold_upto(clients, foreign, n, k).contains(x) by {}
    }
}

/// A workspace is offered exactly the windows on its desktop that show no application, each with what is known of its
/// process.
pub proof fn law_untold(clients: Seq<Client>, foreign: Seq<(Str, ForeignView)>, n: u8)
    ensures
        forall|x: (Client, Option<ForeignView>)| #[trigger]
            untold_upto(clients, foreign, n, clients.len() as int).contains(x) <==> clients.contains(x.0) && desk_of(x.0) == Some(n)
                && app_of(x.0) is None && x.1 == tab_get(foreign, x.0.address@),
{
    lemma_untold(clients, foreign, n, clients.len() as int);
    assert forall|x: (Client, Option<ForeignView>)| #[trigger]
        untold_upto(clients, foreign, n, clients.len() as int).contains(x) <==> clients.contains(x.0) && desk_of(x.0) == Some(n)
            && app_of(x.0) is None && x.1 == tab_get(foreign, x.0.address@) by {
        if clients.contains(x.0) {
            let i = choose|i: int| 0 <= i < clients.len() && clients[i] == x.0;
            assert(clients[i] == x.0);
        }
    }
}

/// The window is taken in when the workspace is saved: it is one of no application that is known, stands on the desktop,
/// does not belong to the workspace and has a class; and it bears or fits an application of the configuration, or
/// its command is known.
pub open spec fn is_taken_in(cfg: ConfigView, foreign: Seq<(Str, ForeignView)>, ws: Str, n: u8, c: Client) -> bool {
    &&& tab_get(foreign, c.address@) is Some
    &&& desk_of(c) == Some(n) && !in_ws(c, ws) && !has_no_class(c)
    &&& (app_of(c) is Some && tab_has(cfg.apps, app_of(c)->0)) || fitting_app(cfg, c) is Some || tab_get(
        foreign,
        c.address@,
    )->0.cmd.len() > 0
}

proof fn lemma_gathered(
    cfg: ConfigView,
    foreign: Seq<(Str, ForeignView)>,
    ws: Str,
    n: u8,
    clients: Seq<Client>,
    i: int,
    g: Gathered,
)
    requires
        0 <= i <= clients.len(),
    ensures
        ({
            let r = gathered_from(cfg, foreign, ws, n, clients, i, g);
            &&& begins_with(r.ex, g.ex)
            &&& g.entries.len() <= r.entries.len() && forall|k: int|
                0 <= k < g.entries.len() ==> #[trigger] r.entries[k] == g.entries[k]
            &&& forall|a: Str| #[trigger]
                r.adopted.contains(a) <==> g.adopted.contains(a) || exists|k: int|
                    i <= k < clients.len() && (#[trigger] clients[k]).address@ == a && is_taken_in(cfg, foreign, ws, n, clients[k])
            &&& forall|k: int|
                i <= k < clients.len() && is_taken_in(cfg, foreign, ws, n, #[trigger] clients[k]) ==> r.ex.contains(
                    entering(clients[k].address@, ws),
                )
        }),
    decreases clients.len() - i,
{
    let none = Seq::<Str>::empty();
    if i < clients.len() {
        let c = clients[i];
        let one = gathered_one(cfg, foreign, ws, n, c, g);
        let r = gathered_from(cfg, foreign, ws, n, clients, i, g);
        lemma_gathered(cfg, foreign, ws, n, clients, i + 1, one);
        lemma_gathered_one(cfg, foreign, ws, n, c, g);
        lemma_begins(g.ex, one.ex, r.ex);
        assert forall|k: int| 0 <= k < g.entries.len() implies #[trigger] r.entries[k] == g.entries[k] by {
            assert(r.entries[k] == one.entries[k]);
        }
        assert forall|a: Str| #[trigger] r.adopted.contains(a) <==> g.adopted.contains(a) || exists|k: int|
            i <= k < clients.len() && (#[trigger] clients[k]).address@ == a && is_taken_in(cfg, foreign, ws, n, clients[k]) by {
            assert(r.adopted.contains(a) <==> one.adopted.contains(a) || exists|k: int|
                i + 1 <= k < clients.len() && (#[trigger] clients[k]).address@ == a && is_taken_in(cfg, foreign, ws, n, clients[k]));
            if exists|k: int|
                i <= k < clients.len() && (#[trigger] clients[k]).address@ == a && is_taken_in(cfg, foreign, ws, n, clients[k]) {
                let k = choose|k: int|
                    i <= k < clients.len() && (#[trigger] clients[k]).address@ == a && is_taken_in(cfg, foreign, ws, n, clients[k]);
                if k == i {
                    assert(one.adopted.contains(a));
                }
            }
            if one.adopted.contains(a) && !g.adopted.contains(a) {
                assert(clients[i].address@ == a);
            }
        }
        assert forall|k: int| i <= k < clients.len() && is_taken_in(cfg, foreign, ws, n, #[trigger] clients[k]) implies r.ex.contains(
            entering(clients[k].address@, ws),
        ) by {
            if k == i {
                lemma_prefix_contains(one.ex, r.ex, entering(c.address@, ws));
            }
        }
    } else {
        lemma_begins(g.ex, none, none);
        assert(g.ex + none =~= g.ex);
    }
}

proof fn lemma_gathered_one(cfg: ConfigView, foreign: Seq<(Str, ForeignView)>, ws: Str, n: u8, c: Client, g: Gathered)
    ensures
        ({
            let r = gathered_one(cfg, foreign, ws, n, c, g);
            let taken = is_taken_in(cfg, foreign, ws, n, c);
            &&& begins_with(r.ex, g.ex)
            &&& g.entries.len() <= r.entries.len() && forall|k: int|
                0 <= k < g.entries.len() ==> #[trigger] r.entries[k] == g.entries[k]
            &&& !taken ==> r == g
            &&& taken ==> r.ex.contains(entering(c.address@, ws)) && r.entries.len() == g.entries.len() + 1 && r.entries.last().1
                == AppItemView::Rect(rect_of(c))
            &&& forall|a: Str| #[trigger] r.adopted.contains(a) <==> g.adopted.contains(a) || taken && a == c.address@
        }),
{
    reveal(entering);
    let r = gathered_one(cfg, foreign, ws, n, c, g);
    let taken = is_taken_in(cfg, foreign, ws, n, c);
    let none = Seq::<Str>::empty();
    let on = tag_of(c.address@, "ws:"@ + ws);
    lemma_begins(g.ex, none, none);
    assert(g.ex + none =~= g.ex);
    if taken {
        let more = r.ex.skip(g.ex.len() as int);
        assert(r.ex =~= g.ex + more);
        lemma_begins(g.ex, more, none);
        assert(r.ex.last() == on);
        assert(r.ex[r.ex.len() - 1] == on);
        assert forall|a: Str| #[trigger] r.adopted.contains(a) <==> g.adopted.contains(a) || a == c.address@ by {
            lemma_push(g.adopted, r.adopted, c.address@, a);
        }
    }
}

proof fn lemma_items(
    cfg: ConfigView,
    st: StateView,
    clients: Seq<Client>,
    ws: Str,
    cells: Seq<(Str, PlaceView)>,
    n: int,
)
    requires
        0 <= n <= cells.len(),
    ensures
        ({
            let r = place_items(cfg, st, clients, ws, cells, n);
            &&& r.len() == n
            &&& forall|i: int| 0 <= i < n ==> (#[trigger] r[i]).0 == cells[i].0 && r[i].1 == item_now(cfg, st, clients, ws, cells[i])
        }),
    decreases n,
{
    if n > 0 {
        lemma_items(cfg, st, clients, ws, cells, n - 1);
    }
}

/// What is written of an entry: its place, or where its window stands elsewhere the rectangle of the window.
pub open spec fn item_now(cfg: ConfigView, st: StateView, clients: Seq<Client>, ws: Str, e: (Str, PlaceView)) -> AppItemView {
    let live = match live_window(cfg, clients, ws, e.0) {
        Some(c) => Some(rect_of(c)),
        None => None,
    };
    item_of(e.1, live, st.place(cfg, ws, e.0))
}

/// Saving writes every entry of the layout where its window stands, and after these the windows that are taken in, each
/// of which enters the workspace. These are exactly those that are to be taken in. The main application is the one
/// of the layout.
pub proof fn law_save_plan(cfg: ConfigView, st: StateView, clients: Seq<Client>, n: u8, ws: Str)
    ensures
        ({
            let p = plan_of(cfg, st, clients, n, ws);
            let cells = nest_at(st.cells, ws);
            &&& p.ws == ws && p.main == st.main_in(cfg, ws)
            &&& cells.len() <= p.entries.len()
            &&& forall|i: int|
                0 <= i < cells.len() ==> #[trigger] p.entries[i] == (cells[i].0, item_now(cfg, st, clients, ws, cells[i]))
            &&& forall|a: Str| #[trigger]
                p.adopted.contains(a) <==> exists|k: int|
                    0 <= k < clients.len() && (#[trigger] clients[k]).address@ == a && is_taken_in(
                        cfg,
                        st.foreign,
                        ws,
                        n,
                        clients[k],
                    )
            &&& forall|a: Str| #[trigger] p.adopted.contains(a) ==> p.ex.contains(entering(a, ws))
        }),
{
    let cells = nest_at(st.cells, ws);
    let g = Gathered {
        taken: tab_keys(cfg.apps),
        used: all_instances(clients, clients.len() as int),
        apps: Seq::empty(),
        entries: place_items(cfg, st, clients, ws, cells, cells.len() as int),
        ex: Seq::empty(),
        adopted: Seq::empty(),
    };
    let p = plan_of(cfg, st, clients, n, ws);
    lemma_items(cfg, st, clients, ws, cells, cells.len() as int);
    lemma_gathered(cfg, st.foreign, ws, n, clients, 0, g);
    assert forall|i: int| 0 <= i < cells.len() implies #[trigger] p.entries[i] == (
        cells[i].0,
        item_now(cfg, st, clients, ws, cells[i]),
    ) by {
        assert(p.entries[i] == g.entries[i]);
    }
    assert forall|a: Str| #[trigger] p.adopted.contains(a) implies p.ex.contains(entering(a, ws)) by {
        let k = choose|k: int|
            0 <= k < clients.len() && (#[trigger] clients[k]).address@ == a && is_taken_in(cfg, st.foreign, ws, n, clients[k]);
        assert(is_taken_in(cfg, st.foreign, ws, n, clients[k]));
    }
}

proof fn lemma_no_longer(foreign: Seq<(Str, ForeignView)>, adopted: Seq<Str>, i: int, a: Str)
    requires
        0 <= i <= adopted.len(),
        tab_sorted(foreign),
    ensures
        tab_get(no_longer_foreign(foreign, adopted, i), a) == if exists|k: int| i <= k < adopted.len() && #[trigger] adopted[k] == a {
            None
        } else {
            tab_get(foreign, a)
        },
    decreases adopted.len() - i,
{
    if i < adopted.len() {
        let next = tab_del(foreign, adopted[i]);
        lemma_del_sorted(foreign, adopted[i]);
        lemma_del_get(foreign, adopted[i], a);
        lemma_no_longer(next, adopted, i + 1, a);
        if exists|k: int| i + 1 <= k < adopted.len() && #[trigger] adopted[k] == a {
            let k = choose|k: int| i + 1 <= k < adopted.len() && #[trigger] adopted[k] == a;
            assert(adopted[k] == a);
        }
        if exists|k: int| i <= k < adopted.len() && #[trigger] adopted[k] == a {
            let k = choose|k: int| i <= k < adopted.len() && #[trigger] adopted[k] == a;
            assert(k == i || i + 1 <= k);
        }
    }
}

/// After a workspace was saved, exactly the windows that it took in are no longer windows of no application.
pub proof fn law_saved_windows(foreign: Seq<(Str, ForeignView)>, adopted: Seq<Str>)
    requires
        tab_sorted(foreign),
    ensures
        forall|a: Str| #[trigger]
            tab_get(no_longer_foreign(foreign, adopted, 0), a) == if adopted.contains(a) {
                None
            } else {
                tab_get(foreign, a)
            },
{
    assert forall|a: Str| #[trigger] tab_get(no_longer_foreign(foreign, adopted, 0), a) == if adopted.contains(a) {
        None
    } else {
        tab_get(foreign, a)
    } by {
        lemma_no_longer(foreign, adopted, 0, a);
        if adopted.contains(a) {
            let k = choose|k: int| 0 <= k < adopted.len() && adopted[k] == a;
            assert(adopted[k] == a);
        }
    }
}

/// What the plan takes in stands for a window that was offered, is decided as a new window is, and has a record exactly
/// where the workspace does not have the application.
pub open spec fn is_decided(
    cfg: ConfigView,
    file: ConfigView,
    ws: Str,
    w: (Client, Option<ForeignView>),
    taken: Seq<Str>,
    a: AdoptedView,
) -> bool {
    &&& a.addr == w.0.address@
    &&& match join_of(cfg, file, Some(ws), w.0, foreign_cmd(w.1), taken) {
        JoinView::App(app) => a.app == app && a.extra is None,
        JoinView::AppPlace(app) => a.app == app && a.extra == Some(place_only(rect_of(w.0))),
        JoinView::Extra(name) => a.app == name && (a.extra matches Some(e) && e.rect == rect_of(w.0) && e.cmd == foreign_cmd(w.1)
            && e.cwd == foreign_cwd(w.1) && e.class == Some(w.0.class@)),
        JoinView::Free(_) => false,
    }
}

/// The window is decided by some names that are taken, among which are all that were taken before.
pub open spec fn decided_by(
    cfg: ConfigView,
    file: ConfigView,
    ws: Str,
    first: Seq<Str>,
    w: (Client, Option<ForeignView>),
    a: AdoptedView,
) -> bool {
    exists|taken: Seq<Str>| #[trigger] is_decided(cfg, file, ws, w, taken, a) && forall|n: Str| #[trigger] first.contains(n) ==> taken.contains(n)
}

proof fn lemma_session(
    cfg: ConfigView,
    file: ConfigView,
    ws: Str,
    first: Seq<Str>,
    taken: Seq<Str>,
    windows: Seq<(Client, Option<ForeignView>)>,
    i: int,
    acc: Seq<AdoptedView>,
)
    requires
        0 <= i <= windows.len(),
        forall|n: Str| #[trigger] first.contains(n) ==> taken.contains(n),
    ensures
        ({
            let r = session_from(cfg, file, ws, taken, windows, i, acc).1;
            &&& acc.len() <= r.len()
            &&& forall|k: int| 0 <= k < acc.len() ==> #[trigger] r[k] == acc[k]
            &&& forall|k: int|
                acc.len() <= k < r.len() ==> exists|j: int|
                    i <= j < windows.len() && decided_by(cfg, file, ws, first, #[trigger] windows[j], #[trigger] r[k])
        }),
    decreases windows.len() - i,
{
    if i < windows.len() {
        let (c, f) = windows[i];
        let r = session_from(cfg, file, ws, taken, windows, i, acc).1;
        let j = join_of(cfg, file, Some(ws), c, foreign_cmd(f), taken);
        let more = match j {
            JoinView::App(app) => acc.push(AdoptedView { addr: c.address@, app, extra: None }),
            JoinView::AppPlace(app) => acc.push(AdoptedView { addr: c.address@, app, extra: Some(place_only(rect_of(c))) }),
            JoinView::Extra(name) => acc.push(
                AdoptedView {
                    addr: c.address@,
                    app: name,
                    extra: Some(
                        ExtraAppView { class: Some(c.class@), cmd: foreign_cmd(f), cwd: foreign_cwd(f), rect: rect_of(c) },
                    ),
                },
            ),
            JoinView::Free(_) => acc,
        };
        let names = match j {
            JoinView::Extra(name) => if taken.contains(name) {
                taken
            } else {
                taken.push(name)
            },
            _ => taken,
        };
        assert forall|n: Str| #[trigger] first.contains(n) implies names.contains(n) by {
            if names != taken {
                lemma_push(taken, names, names.last(), n);
            }
        }
        lemma_session(cfg, file, ws, first, names, windows, i + 1, more);
        assert forall|k: int| 0 <= k < acc.len() implies #[trigger] r[k] == acc[k] by {
            assert(r[k] == more[k]);
        }
        assert forall|k: int| acc.len() <= k < r.len() implies exists|q: int|
            i <= q < windows.len() && decided_by(cfg, file, ws, first, #[trigger] windows[q], #[trigger] r[k]) by {
            if k < more.len() {
                assert(r[k] == more[k]);
                assert(is_decided(cfg, file, ws, windows[i], taken, r[k]));
                assert(decided_by(cfg, file, ws, first, windows[i], r[k]));
            } else {
                let q = choose|q: int|
                    i + 1 <= q < windows.len() && decided_by(cfg, file, ws, first, #[trigger] windows[q], r[k]);
                assert(decided_by(cfg, file, ws, first, windows[q], r[k]));
            }
        }
    }
}

/// The window was offered to the workspace, stands on the desktop and shows no application, and was decided.
pub open spec fn accepts(
    cfg: ConfigView,
    file: ConfigView,
    st: StateView,
    clients: Seq<Client>,
    n: u8,
    ws: Str,
    c: Client,
    a: AdoptedView,
) -> bool {
    &&& clients.contains(c) && desk_of(c) == Some(n) && app_of(c) is None
    &&& decided_by(cfg, file, ws, taken_of(cfg, st.extra), (c, tab_get(st.foreign, c.address@)), a)
}

/// Some window was offered and decided so.
pub open spec fn is_accepted(
    cfg: ConfigView,
    file: ConfigView,
    st: StateView,
    clients: Seq<Client>,
    n: u8,
    ws: Str,
    a: AdoptedView,
) -> bool {
    exists|c: Client| #[trigger] accepts(cfg, file, st, clients, n, ws, c, a)
}

/// When the session is saved, the active workspace takes in only windows of its desktop that show no application, each
/// decided as a window that has just opened, with the rectangle that it has.
pub proof fn law_accepted(cfg: ConfigView, file: ConfigView, st: StateView, clients: Seq<Client>, n: u8, ws: Str)
    ensures
        forall|k: int|
            0 <= k < accepted(cfg, file, st, clients, n, ws).len() ==> is_accepted(
                cfg,
                file,
                st,
                clients,
                n,
                ws,
                #[trigger] accepted(cfg, file, st, clients, n, ws)[k],
            ),
{
    let taken = taken_of(cfg, st.extra);
    let windows = untold_upto(clients, st.foreign, n, clients.len() as int);
    let plan = accepted(cfg, file, st, clients, n, ws);
    lemma_session(cfg, file, ws, taken, taken, windows, 0, Seq::empty());
    law_untold(clients, st.foreign, n);
    assert forall|k: int| 0 <= k < plan.len() implies is_accepted(cfg, file, st, clients, n, ws, #[trigger] plan[k]) by {
        let j = choose|j: int| 0 <= j < windows.len() && decided_by(cfg, file, ws, taken, #[trigger] windows[j], plan[k]);
        assert(windows.contains(windows[j]));
        assert(windows[j] == (windows[j].0, tab_get(st.foreign, windows[j].0.address@)));
        assert(accepts(cfg, file, st, clients, n, ws, windows[j].0, plan[k]));
    }
}

// ---- What a saved session puts down -------------------------------------------------------

/// The windows taken in are tagged in turn, each with an instance of its application that no window has yet and with the
/// workspace.
pub proof fn law_tagging(used: Seq<(Str, nat)>, plan: Seq<AdoptedView>, ws: Str, k: int)
    requires
        0 <= k <= plan.len(),
    ensures
        ({
            let (u, ex) = tagging_upto(used, plan, ws, k);
            &&& u.len() == used.len() + k && ex.len() == 2 * k
            &&& forall|i: int| 0 <= i < used.len() ==> #[trigger] u[i] == used[i]
            &&& forall|i: int|
                #![trigger plan[i]]
                0 <= i < k ==> {
                    let at = used.len() + i;
                    &&& u[at].0 == plan[i].app && !u.take(at).contains(u[at])
                    &&& ex[2 * i] == tag_of(plan[i].addr, instance_tag(plan[i].app, u[at].1))
                    &&& ex[2 * i + 1] == tag_of(plan[i].addr, "ws:"@ + ws)
                }
        }),
    decreases k,
{
    if k > 0 {
        law_tagging(used, plan, ws, k - 1);
        let (p, pe) = tagging_upto(used, plan, ws, k - 1);
        let (u, ex) = tagging_upto(used, plan, ws, k);
        law_next_number(p, plan[k - 1].app);
        assert forall|i: int|
            #![trigger plan[i]]
            0 <= i < k implies {
            let at = used.len() + i;
            &&& u[at].0 == plan[i].app && !u.take(at).contains(u[at])
            &&& ex[2 * i] == tag_of(plan[i].addr, instance_tag(plan[i].app, u[at].1))
            &&& ex[2 * i + 1] == tag_of(plan[i].addr, "ws:"@ + ws)
        } by {
            let at = used.len() + i;
            if i == k - 1 {
                assert(u.take(at) =~= p);
            } else {
                assert(u.take(at) =~= p.take(at));
                assert(u[at] == p[at]);
                assert(ex[2 * i] == pe[2 * i] && ex[2 * i + 1] == pe[2 * i + 1]);
            }
        }
    }
}

/// The window that is taken in last under a name brings the record of that name.
pub open spec fn brings(plan: Seq<AdoptedView>, from: int, j: int, app: Str) -> bool {
    &&& from <= j < plan.len() && plan[j].app == app && plan[j].extra is Some
    &&& forall|k: int| j < k < plan.len() && #[trigger] plan[k].app == app ==> plan[k].extra is None
}

proof fn lemma_taken_in(st: StateView, ws: Str, plan: Seq<AdoptedView>, i: int)
    requires
        0 <= i <= plan.len(),
        all_sorted(st.extra),
        tab_sorted(st.foreign),
    ensures
        ({
            let t = taken_in_from(st, ws, plan, i);
            &&& all_sorted(t.extra) && t == (StateView { foreign: t.foreign, extra: t.extra, ..st })
            &&& forall|j: int| i <= j < plan.len() ==> tab_get(t.foreign, #[trigger] plan[j].addr) is None
            &&& forall|a: Str|
                #![trigger tab_get(t.foreign, a)]
                (forall|j: int| i <= j < plan.len() ==> #[trigger] plan[j].addr != a) ==> tab_get(t.foreign, a) == tab_get(st.foreign, a)
            &&& forall|x: Str, y: Str| x != ws ==> #[trigger] nest_get(t.extra, x, y) == nest_get(st.extra, x, y)
            &&& forall|j: int, y: Str| #[trigger] brings(plan, i, j, y) ==> nest_get(t.extra, ws, y) == plan[j].extra
            &&& forall|y: Str|
                #![trigger nest_get(t.extra, ws, y)]
                (forall|j: int| i <= j < plan.len() && #[trigger] plan[j].app == y ==> plan[j].extra is None) ==> nest_get(
                    t.extra,
                    ws,
                    y,
                ) == nest_get(st.extra, ws, y)
            &&& forall|a: Str| tab_get(st.foreign, a) is None ==> #[trigger] tab_get(t.foreign, a) is None
        }),
    decreases plan.len() - i,
{
    if i < plan.len() {
        let a = plan[i];
        let one = StateView {
            foreign: tab_del(st.foreign, a.addr),
            extra: match a.extra {
                Some(e) => nest_put(st.extra, ws, a.app, e),
                None => st.extra,
            },
            ..st
        };
        if let Some(e) = a.extra {
            lemma_nest_put(st.extra, ws, a.app, e);
        }
        lemma_del_sorted(st.foreign, a.addr);
        lemma_taken_in(one, ws, plan, i + 1);
        let t = taken_in_from(st, ws, plan, i);
        assert forall|b: Str|
            #![trigger tab_get(one.foreign, b)]
            tab_get(one.foreign, b) == if b == a.addr {
                None
            } else {
                tab_get(st.foreign, b)
            } by {
            lemma_del_get(st.foreign, a.addr, b);
        }
        assert(tab_get(one.foreign, a.addr) is None);
        assert forall|j: int, y: Str| #[trigger] brings(plan, i, j, y) implies nest_get(t.extra, ws, y) == plan[j].extra by {
            if j > i {
                assert(brings(plan, i + 1, j, y));
            } else {
                assert(nest_get(one.extra, ws, y) == a.extra);
                assert(forall|k: int| i + 1 <= k < plan.len() && #[trigger] plan[k].app == y ==> plan[k].extra is None);
            }
        }
        assert forall|j: int| i <= j < plan.len() implies tab_get(t.foreign, #[trigger] plan[j].addr) is None by {
            if j == i {
                assert(tab_get(t.foreign, a.addr) is None);
            }
        }
        assert forall|b: Str|
            #![trigger tab_get(t.foreign, b)]
            (forall|j: int| i <= j < plan.len() ==> #[trigger] plan[j].addr != b) implies tab_get(t.foreign, b) == tab_get(st.foreign, b) by {
            assert(plan[i].addr != b);
            assert(tab_get(one.foreign, b) == tab_get(st.foreign, b));
        }
        assert forall|y: Str|
            #![trigger nest_get(t.extra, ws, y)]
            (forall|j: int| i <= j < plan.len() && #[trigger] plan[j].app == y ==> plan[j].extra is None) implies nest_get(
            t.extra,
            ws,
            y,
        ) == nest_get(st.extra, ws, y) by {
            assert(nest_get(one.extra, ws, y) == nest_get(st.extra, ws, y));
        }
        assert forall|b: Str| tab_get(st.foreign, b) is None implies #[trigger] tab_get(t.foreign, b) is None by {
            assert(tab_get(one.foreign, b) is None);
        }
    }
}

/// What a saved session takes in is known from then on: no window of it is one of no application any more, the workspace
/// has the record that the last window under each name brings, and nothing else changes.
pub proof fn law_taken_in(st: StateView, ws: Str, plan: Seq<AdoptedView>)
    requires
        all_sorted(st.extra),
        tab_sorted(st.foreign),
    ensures
        ({
            let t = taken_in_from(st, ws, plan, 0);
            &&& t == (StateView { foreign: t.foreign, extra: t.extra, ..st })
            &&& forall|j: int| 0 <= j < plan.len() ==> tab_get(t.foreign, #[trigger] plan[j].addr) is None
            &&& forall|a: Str|
                #![trigger tab_get(t.foreign, a)]
                (forall|j: int| 0 <= j < plan.len() ==> #[trigger] plan[j].addr != a) ==> tab_get(t.foreign, a) == tab_get(st.foreign, a)
            &&& forall|x: Str, y: Str| x != ws ==> #[trigger] nest_get(t.extra, x, y) == nest_get(st.extra, x, y)
            &&& forall|j: int, y: Str| #[trigger] brings(plan, 0, j, y) ==> nest_get(t.extra, ws, y) == plan[j].extra
            &&& forall|y: Str|
                #![trigger nest_get(t.extra, ws, y)]
                (forall|j: int| 0 <= j < plan.len() && #[trigger] plan[j].app == y ==> plan[j].extra is None) ==> nest_get(
                    t.extra,
                    ws,
                    y,
                ) == nest_get(st.extra, ws, y)
        }),
{
    lemma_taken_in(st, ws, plan, 0);
}

/// The record with the place that is now known for it.
pub open spec fn replaced_record(e: Option<ExtraAppView>, rect: Option<PxRect>) -> Option<ExtraAppView> {
    match (e, rect) {
        (Some(x), Some(r)) => Some(ExtraAppView { class: x.class, cmd: x.cmd, cwd: x.cwd, rect: r }),
        _ => e,
    }
}

proof fn lemma_placed_records(
    cfg: ConfigView,
    st: StateView,
    ws: Str,
    clients: Seq<Client>,
    desk: Option<u8>,
    kept: Option<Seq<(Str, PxRect)>>,
    names: Seq<Str>,
    i: int,
    changed: nat,
)
    requires
        0 <= i <= names.len(),
        all_sorted(st.extra),
    ensures
        ({
            let (t, m) = placed_records_from(cfg, st, ws, clients, desk, kept, names, i, changed);
            &&& m >= changed && (m == changed ==> t == st)
            &&& t == (StateView { extra: t.extra, cells: t.cells, ..st })
            &&& all_sorted(t.extra)
            &&& forall|x: Str, y: Str| x != ws ==> #[trigger] nest_get(t.extra, x, y) == nest_get(st.extra, x, y)
            &&& forall|y: Str| #[trigger]
                nest_get(t.extra, ws, y) == if exists|k: int| i <= k < names.len() && #[trigger] names[k] == y {
                    replaced_record(nest_get(st.extra, ws, y), extra_rect_of(cfg, clients, ws, desk, kept, y))
                } else {
                    nest_get(st.extra, ws, y)
                }
        }),
    decreases names.len() - i,
{
    if i < names.len() {
        let name = names[i];
        let rect = extra_rect_of(cfg, clients, ws, desk, kept, name);
        let e = nest_get(st.extra, ws, name);
        let moves = rect is Some && e is Some && e->0.rect != rect->0;
        let one = if moves {
            StateView {
                extra: nest_put(st.extra, ws, name, ExtraAppView { rect: rect->0, ..e->0 }),
                cells: if tab_has(st.cells, ws) {
                    nest_put(st.cells, ws, name, PlaceView::Rect { rect: rect->0 })
                } else {
                    st.cells
                },
                ..st
            }
        } else {
            st
        };
        if moves {
            lemma_nest_put(st.extra, ws, name, ExtraAppView { rect: rect->0, ..e->0 });
        }
        let more = if moves {
            changed + 1
        } else {
            changed
        };
        lemma_placed_records(cfg, one, ws, clients, desk, kept, names, i + 1, more);
        let t = placed_records_from(cfg, st, ws, clients, desk, kept, names, i, changed).0;
        assert(t == placed_records_from(cfg, one, ws, clients, desk, kept, names, i + 1, more).0);
        assert forall|y: Str| #[trigger]
            nest_get(t.extra, ws, y) == if exists|k: int| i <= k < names.len() && #[trigger] names[k] == y {
                replaced_record(nest_get(st.extra, ws, y), extra_rect_of(cfg, clients, ws, desk, kept, y))
            } else {
                nest_get(st.extra, ws, y)
            } by {
            assert(names[i] == name);
            if exists|k: int| i + 1 <= k < names.len() && #[trigger] names[k] == y {
                let k = choose|k: int| i + 1 <= k < names.len() && #[trigger] names[k] == y;
                assert(names[k] == y);
            }
            if exists|k: int| i <= k < names.len() && #[trigger] names[k] == y {
                let k = choose|k: int| i <= k < names.len() && #[trigger] names[k] == y;
                assert(k == i || i + 1 <= k);
            }
            if y == name {
                assert(nest_get(one.extra, ws, y) == replaced_record(e, rect));
            } else {
                assert(nest_get(one.extra, ws, y) == nest_get(st.extra, ws, y));
            }
        }
    }
}

/// The records of a workspace get the places of their windows and keep all else; a record without such a place stays, and
/// so do those of other workspaces. Where none is counted as changed, nothing changes.
pub proof fn law_placed_records(
    cfg: ConfigView,
    st: StateView,
    ws: Str,
    clients: Seq<Client>,
    desk: Option<u8>,
    kept: Option<Seq<(Str, PxRect)>>,
    names: Seq<Str>,
)
    requires
        all_sorted(st.extra),
    ensures
        ({
            let (t, m) = placed_records_from(cfg, st, ws, clients, desk, kept, names, 0, 0);
            &&& m == 0 ==> t == st
            &&& t == (StateView { extra: t.extra, cells: t.cells, ..st })
            &&& forall|x: Str, y: Str| x != ws ==> #[trigger] nest_get(t.extra, x, y) == nest_get(st.extra, x, y)
            &&& forall|y: Str| #[trigger]
                nest_get(t.extra, ws, y) == if names.contains(y) {
                    replaced_record(nest_get(st.extra, ws, y), extra_rect_of(cfg, clients, ws, desk, kept, y))
                } else {
                    nest_get(st.extra, ws, y)
                }
        }),
{
    lemma_placed_records(cfg, st, ws, clients, desk, kept, names, 0, 0);
    let t = placed_records_from(cfg, st, ws, clients, desk, kept, names, 0, 0).0;
    assert forall|y: Str| #[trigger]
        nest_get(t.extra, ws, y) == if names.contains(y) {
            replaced_record(nest_get(st.extra, ws, y), extra_rect_of(cfg, clients, ws, desk, kept, y))
        } else {
            nest_get(st.extra, ws, y)
        } by {
        if names.contains(y) {
            let k = choose|k: int| 0 <= k < names.len() && names[k] == y;
            assert(names[k] == y);
        }
    }
}

} // verus!
