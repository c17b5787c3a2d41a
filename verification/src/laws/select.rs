//! The key of an application.
use vstd::prelude::*;

use crate::config::{ConfigView, WsAppView};
use crate::cycle::{main_cell_of, shown};
use crate::effects::{begins_with, lemma_begins, lemma_runs_more, runs};
use crate::exprs::{desk_move, focusing, placing};
use crate::home::entry_names_of;
use crate::hypr::{app_of, focus_of, on_hidden, top_text, Client};
use crate::laws::windows::{law_placed, law_shown, lemma_in_sum, lemma_three_parts, places, three_parts};
use crate::layout::{all_sorted, cells_swapped, lemma_nest_put, lemma_pruned_get, lemma_put_found, moved_swapped};
use crate::member::addr_from;
use crate::raise::desk_of;
use crate::rect::PxRect;
use crate::state::{place_of, places_upto, rect_at, MovedView, PlaceView, StateView};
use crate::table::{
    lemma_del_get, lemma_del_sorted, lemma_put_get, lemma_put_sorted, nest_at, nest_get, nest_put, tab_del, tab_get,
    tab_has, tab_pruned, tab_put, tab_sorted,
};
use crate::text::Str;
use crate::windows::{entry_from, entry_of, placed};

verus! {

/// The expressions put the window into the rectangle on desktop `n`.
pub open spec fn is_put(c: Client, r: PxRect, n: u8, ex: Seq<Str>) -> bool {
    &&& desk_of(c) == Some(n) || ex.contains(desk_move(c.address@, n))
    &&& runs(ex, placing(c.address@, r))
}

proof fn lemma_put_kept(c: Client, r: PxRect, n: u8, a: Seq<Str>, b: Seq<Str>)
    ensures
        is_put(c, r, n, a) ==> is_put(c, r, n, a + b),
        is_put(c, r, n, b) ==> is_put(c, r, n, a + b),
{
    lemma_in_sum(a, b, desk_move(c.address@, n));
    lemma_runs_more(a, b, placing(c.address@, r));
}

/// The expressions that put one window into a rectangle.
spec fn putting(c: Client, r: PxRect, n: u8) -> Seq<Str> {
    three_parts(
        None,
        if desk_of(c) != Some(n) {
            Some(desk_move(c.address@, n))
        } else {
            None
        },
        placing(c.address@, r),
    )
}

proof fn lemma_putting(c: Client, r: PxRect, n: u8)
    ensures
        is_put(c, r, n, putting(c, r, n)),
{
    lemma_three_parts(
        None,
        if desk_of(c) != Some(n) {
            Some(desk_move(c.address@, n))
        } else {
            None
        },
        placing(c.address@, r),
    );
}

/// Nothing but the rectangles kept for windows is changed.
pub open spec fn but_geom(a: StateView, b: StateView) -> bool {
    b == (StateView { geom: b.geom, ..a })
}

proof fn lemma_stacked(st: StateView, ws: Str, wins: Seq<Client>, r: PxRect, n: u8, i: int, ex: Seq<Str>)
    requires
        0 <= i <= wins.len(),
    ensures
        ({
            let (t, e) = st.stacked_from(ws, wins, r, n, i, ex);
            &&& begins_with(e, ex)
            &&& but_geom(st, t)
            &&& forall|k: int| i <= k < wins.len() ==> is_put(#[trigger] wins[k], r, n, e)
        }),
    decreases wins.len() - i,
{
    if i < wins.len() {
        let c = wins[i];
        let next = (if desk_of(c) != Some(n) {
            ex.push(desk_move(c.address@, n))
        } else {
            ex
        }) + placing(c.address@, r);
        assert(next =~= ex + putting(c, r, n));
        lemma_putting(c, r, n);
        lemma_put_kept(c, r, n, ex, putting(c, r, n));
        let u = StateView { geom: nest_put(st.geom, ws, c.address@, r), ..st };
        lemma_stacked(u, ws, wins, r, n, i + 1, next);
        let e = st.stacked_from(ws, wins, r, n, i, ex).1;
        lemma_begins(ex, putting(c, r, n), e);
        lemma_begins(ex, next, e);
        lemma_begins(next, e, e);
        lemma_put_kept(c, r, n, next, e.skip(next.len() as int));
        assert forall|k: int| i <= k < wins.len() implies is_put(#[trigger] wins[k], r, n, e) by {
            if k == i {
                assert(wins[k] == c);
            }
        }
    } else {
        lemma_begins(ex, Seq::empty(), ex);
        assert(ex + Seq::<Str>::empty() =~= ex);
    }
}

/// The rectangle that the user gave an entry.
pub open spec fn given_rect(st: StateView, ws: Str, entry: Str) -> Option<PxRect> {
    match nest_get(st.moved, ws, entry) {
        Some(m) => Some(m.rect),
        None => None,
    }
}

/// All entries of all workspaces have the places that they had, and the main applications are the same.
pub open spec fn same_places(a: StateView, b: StateView) -> bool {
    &&& b.cells == a.cells
    &&& b.main == a.main
    &&& forall|x: Str, y: Str| #[trigger] given_rect(b, x, y) == given_rect(a, x, y)
}

proof fn lemma_same_place(a: StateView, b: StateView, cfg: ConfigView, ws: Str, name: Str)
    requires
        same_places(a, b),
    ensures
        a.entry_now(cfg, ws, name) == b.entry_now(cfg, ws, name),
        a.place(cfg, ws, name) == b.place(cfg, ws, name),
        a.main_in(cfg, ws) == b.main_in(cfg, ws),
{
    assert(given_rect(b, ws, name) == given_rect(a, ws, name));
    assert(a.entry_now(cfg, ws, name) == b.entry_now(cfg, ws, name));
    if let Some(f) = cfg.family_of(name) {
        assert(given_rect(b, ws, f) == given_rect(a, ws, f));
        assert(a.entry_now(cfg, ws, f) == b.entry_now(cfg, ws, f));
    }
}

proof fn lemma_owned(st: StateView, ws: Str, entry: Str, owner: Option<Client>)
    requires
        all_sorted(st.moved),
    ensures
        same_places(st, st.owned(ws, entry, owner)),
        all_sorted(st.owned(ws, entry, owner).moved),
{
    if let (Some(m), Some(c)) = (nest_get(st.moved, ws, entry), owner) {
        let v = MovedView { rect: m.rect, owner: Some(c.address@) };
        lemma_nest_put(st.moved, ws, entry, v);
        let t = st.owned(ws, entry, owner);
        assert forall|x: Str, y: Str| #[trigger] given_rect(t, x, y) == given_rect(st, x, y) by {
            assert(nest_get(nest_put(st.moved, ws, entry, v), x, y) == if x == ws && y == entry {
                Some(v)
            } else {
                nest_get(st.moved, x, y)
            });
        }
    }
}

proof fn lemma_settled(st: StateView, cfg: ConfigView, ws: Str, name: Str, clients: Seq<Client>, n: u8, ex: Seq<Str>)
    requires
        all_sorted(st.moved),
        tab_has(st.cells, ws),
    ensures
        ({
            let (t, e) = st.settled_entry(cfg, ws, name, clients, n, ex);
            &&& begins_with(e, ex)
            &&& same_places(st, t)
            &&& all_sorted(t.moved)
            &&& st.place(cfg, ws, name) matches Some(r) ==> forall|c: Client| #[trigger]
                clients.contains(c) && places(cfg, ws, name, c) && !on_hidden(c) ==> is_put(c, r, n, e)
            &&& st.place(cfg, ws, name) is None ==> e == ex
        }),
{
    assert(st.built(cfg, ws) == st);
    match st.place(cfg, ws, name) {
        None => {
            lemma_begins(ex, Seq::empty(), ex);
            assert(ex + Seq::<Str>::empty() =~= ex);
        },
        Some(r) => {
            let all = placed(cfg, clients, ws, entry_names_of(cfg, ws), name);
            let wins = shown(all);
            lemma_stacked(st, ws, wins, r, n, 0, ex);
            let (two, e) = st.stacked_from(ws, wins, r, n, 0, ex);
            lemma_owned(
                two,
                ws,
                name,
                if wins.len() > 0 {
                    Some(wins[0])
                } else {
                    None
                },
            );
            let t = st.settled_entry(cfg, ws, name, clients, n, ex).0;
            assert forall|x: Str, y: Str| #[trigger] given_rect(t, x, y) == given_rect(st, x, y) by {
                assert(given_rect(two, x, y) == given_rect(st, x, y));
            }
            law_placed(cfg, clients, ws, name);
            law_shown(all);
            assert forall|c: Client| #[trigger]
                clients.contains(c) && places(cfg, ws, name, c) && !on_hidden(c) implies is_put(c, r, n, e) by {
                assert(all.contains(c));
                assert(wins.contains(c));
                let k = choose|k: int| 0 <= k < wins.len() && wins[k] == c;
                assert(is_put(wins[k], r, n, e));
            }
        },
    }
}

proof fn lemma_cells_exchanged(cells: Seq<(Str, PlaceView)>, main: Option<Str>, app: Str, cell: Str)
    requires
        tab_sorted(cells),
        main != Some(app),
    ensures
        ({
            let c = cells_swapped(cells, main, app, cell);
            &&& tab_get(c, app) == Some(
                match (match main {
                    Some(m) => tab_get(cells, m),
                    None => None,
                }) {
                    Some(p) => p,
                    None => PlaceView::Cell(cell),
                },
            )
            &&& main matches Some(m) ==> tab_get(c, m) == tab_get(cells, app)
            &&& forall|q: Str| q != app && main != Some(q) ==> #[trigger] tab_get(c, q) == tab_get(cells, q)
        }),
{
    let p = match (match main {
        Some(m) => tab_get(cells, m),
        None => None,
    }) {
        Some(p) => p,
        None => PlaceView::Cell(cell),
    };
    let one = match main {
        Some(m) => match tab_get(cells, app) {
            Some(x) => tab_put(cells, m, x),
            None => tab_del(cells, m),
        },
        None => cells,
    };
    if let Some(m) = main {
        match tab_get(cells, app) {
            Some(x) => lemma_put_sorted(cells, m, x),
            None => lemma_del_sorted(cells, m),
        }
    }
    lemma_put_get(one, app, p, app);
    assert forall|q: Str| q != app implies #[trigger] tab_get(cells_swapped(cells, main, app, cell), q) == (if main == Some(q) {
        tab_get(cells, app)
    } else {
        tab_get(cells, q)
    }) by {
        lemma_put_get(one, app, p, q);
        if let Some(m) = main {
            match tab_get(cells, app) {
                Some(x) => lemma_put_get(cells, m, x, q),
                None => lemma_del_get(cells, m, q),
            }
        }
    }
}

proof fn lemma_moved_exchanged(moved: Seq<(Str, MovedView)>, main: Option<Str>, app: Str, main_has: bool, app_has: bool)
    requires
        tab_sorted(moved),
        main != Some(app),
    ensures
        ({
            let c = moved_swapped(moved, main, app, main_has, app_has);
            &&& tab_sorted(c)
            &&& tab_get(c, app) == match main {
                Some(m) => if app_has {
                    tab_get(moved, m)
                } else {
                    None
                },
                None => None,
            }
            &&& main matches Some(m) ==> tab_get(c, m) == if main_has {
                tab_get(moved, app)
            } else {
                None
            }
            &&& forall|q: Str| q != app && main != Some(q) ==> #[trigger] tab_get(c, q) == tab_get(moved, q)
        }),
{
    let x = tab_get(moved, app);
    let one = tab_del(moved, app);
    lemma_del_sorted(moved, app);
    let y = match main {
        Some(m) => tab_get(one, m),
        None => None,
    };
    let two = match main {
        Some(m) => tab_del(one, m),
        None => one,
    };
    let three = match (main, x) {
        (Some(m), Some(v)) => tab_put(two, m, v),
        _ => two,
    };
    let four = match y {
        Some(v) => tab_put(three, app, v),
        None => three,
    };
    let five = match main {
        Some(m) => if main_has {
            four
        } else {
            tab_del(four, m)
        },
        None => four,
    };
    if let Some(m) = main {
        lemma_del_get(moved, app, m);
        lemma_del_sorted(one, m);
        if let Some(v) = x {
            lemma_put_sorted(two, m, v);
        }
    }
    if let Some(v) = y {
        lemma_put_sorted(three, app, v);
    }
    if let Some(m) = main {
        lemma_del_sorted(four, m);
    }
    lemma_del_sorted(five, app);
    let c = moved_swapped(moved, main, app, main_has, app_has);
    assert forall|q: Str| #[trigger] tab_get(c, q) == (if q == app {
        match main {
            Some(m) => if app_has {
                tab_get(moved, m)
            } else {
                None
            },
            None => None,
        }
    } else if main == Some(q) {
        if main_has {
            x
        } else {
            None
        }
    } else {
        tab_get(moved, q)
    }) by {
        lemma_del_get(moved, app, q);
        if let Some(m) = main {
            lemma_del_get(one, m, q);
            if let Some(v) = x {
                lemma_put_get(two, m, v, q);
            }
        }
        if let Some(v) = y {
            lemma_put_get(three, app, v, q);
        }
        if let Some(m) = main {
            lemma_del_get(four, m, q);
        }
        lemma_del_get(five, app, q);
    }
}

/// The tables of the state stand in the order of their names.
pub open spec fn in_order(st: StateView) -> bool {
    &&& all_sorted(st.cells)
    &&& all_sorted(st.moved)
    &&& all_sorted(st.geom)
    &&& tab_sorted(st.main)
}

/// The place that an entry gets by taking the main place of a workspace: the place of the main entry, and the main
/// cell of the template where that has none.
pub open spec fn main_place(st: StateView, ws: Str, main: Option<Str>, cell: Str) -> PlaceView {
    match (match main {
        Some(m) => nest_get(st.cells, ws, m),
        None => None,
    }) {
        Some(p) => p,
        None => PlaceView::Cell(cell),
    }
}

/// An entry of a workspace took the main place: it is the main one and has the place of the one that was, which has
/// its place; every other entry keeps what it had. A rectangle that the user gave goes with the place, where the
/// entry that gets it has windows.
pub open spec fn exchanged(
    a: StateView,
    b: StateView,
    ws: Str,
    main: Option<Str>,
    app: Str,
    cell: Str,
    main_has: bool,
    app_has: bool,
) -> bool {
    &&& tab_get(b.main, ws) == Some(app)
    &&& nest_get(b.cells, ws, app) == Some(main_place(a, ws, main, cell))
    &&& main matches Some(m) ==> nest_get(b.cells, ws, m) == nest_get(a.cells, ws, app)
    &&& forall|q: Str| q != app && main != Some(q) ==> #[trigger] nest_get(b.cells, ws, q) == nest_get(a.cells, ws, q)
    &&& given_rect(b, ws, app) == match main {
        Some(m) => if app_has {
            given_rect(a, ws, m)
        } else {
            None
        },
        None => None,
    }
    &&& main matches Some(m) ==> given_rect(b, ws, m) == if main_has {
        given_rect(a, ws, app)
    } else {
        None
    }
    &&& forall|q: Str| q != app && main != Some(q) ==> #[trigger] given_rect(b, ws, q) == given_rect(a, ws, q)
}

pub proof fn lemma_pruned_sorted<T>(m: Seq<(Str, Seq<(Str, T)>)>)
    requires
        all_sorted(m),
    ensures
        all_sorted(tab_pruned(m)),
{
    let mask = m.map_values(|e: (Str, Seq<(Str, T)>)| e.1.len() > 0);
    let p = tab_pruned(m);
    assert forall|a: Str| #[trigger] tab_sorted(nest_at(p, a)) by {
        crate::layout::lemma_masked_get(m, mask, a);
        assert(tab_sorted(nest_at(m, a)));
    }
    crate::layout::lemma_masked_get(m, mask, Seq::empty());
}

proof fn lemma_exchanged(
    st: StateView,
    ws: Str,
    main: Option<Str>,
    app: Str,
    cell: Str,
    main_has: bool,
    app_has: bool,
)
    requires
        in_order(st),
        main != Some(app),
    ensures
        exchanged(st, st.swapped(ws, main, app, cell, main_has, app_has), ws, main, app, cell, main_has, app_has),
        all_sorted(st.swapped(ws, main, app, cell, main_has, app_has).moved),
        tab_has(st.swapped(ws, main, app, cell, main_has, app_has).cells, ws),
{
    let t = st.swapped(ws, main, app, cell, main_has, app_has);
    let c0 = nest_at(st.cells, ws);
    let m0 = nest_at(st.moved, ws);
    assert(tab_sorted(c0) && tab_sorted(m0));
    let c = cells_swapped(c0, main, app, cell);
    let m = moved_swapped(m0, main, app, main_has, app_has);
    lemma_cells_exchanged(c0, main, app, cell);
    lemma_moved_exchanged(m0, main, app, main_has, app_has);
    lemma_put_get(st.cells, ws, c, ws);
    lemma_put_get(st.main, ws, app, ws);
    lemma_put_sorted(st.moved, ws, m);
    lemma_put_get(st.moved, ws, m, ws);
    let mm = tab_put(st.moved, ws, m);
    assert forall|a: Str| #[trigger] tab_sorted(nest_at(mm, a)) by {
        lemma_put_get(st.moved, ws, m, a);
        assert(tab_sorted(nest_at(st.moved, a)));
    }
    lemma_pruned_sorted(mm);
    assert forall|q: Str| #[trigger] nest_get(t.moved, ws, q) == tab_get(m, q) by {
        lemma_pruned_get(mm, ws, q);
    }
    assert forall|q: Str| q != app && main != Some(q) implies #[trigger] nest_get(t.cells, ws, q) == nest_get(
        st.cells,
        ws,
        q,
    ) by {
        assert(tab_get(c, q) == tab_get(c0, q));
    }
    assert forall|q: Str| q != app && main != Some(q) implies #[trigger] given_rect(t, ws, q) == given_rect(st, ws, q) by {
        assert(nest_get(t.moved, ws, q) == tab_get(m, q));
        assert(tab_get(m, q) == tab_get(m0, q));
    }
    assert(nest_get(t.moved, ws, app) == tab_get(m, app));
    if let Some(x) = main {
        assert(nest_get(t.moved, ws, x) == tab_get(m, x));
    }
    lemma_put_found(st.cells, ws, c);
}

proof fn lemma_places_sorted(s: Seq<(Str, WsAppView)>, n: int)
    requires
        0 <= n <= s.len(),
    ensures
        tab_sorted(places_upto(s, n)),
    decreases n,
{
    if n > 0 {
        lemma_places_sorted(s, n - 1);
        lemma_put_sorted(places_upto(s, n - 1), s[n - 1].0, place_of(s[n - 1].1.place));
    }
}

pub proof fn lemma_built(st: StateView, cfg: ConfigView, ws: Str)
    requires
        in_order(st),
    ensures
        in_order(st.built(cfg, ws)),
        tab_has(cfg.workspaces, ws) ==> tab_has(st.built(cfg, ws).cells, ws),
        st.built(cfg, ws).built(cfg, ws) == st.built(cfg, ws),
{
    if !tab_has(st.cells, ws) && tab_has(cfg.workspaces, ws) {
        let e = cfg.entries(ws);
        let p = places_upto(e, e.len() as int);
        let c = tab_put(st.cells, ws, p);
        lemma_places_sorted(e, e.len() as int);
        lemma_put_sorted(st.cells, ws, p);
        assert forall|a: Str| #[trigger] tab_sorted(nest_at(c, a)) by {
            lemma_put_get(st.cells, ws, p, a);
            assert(tab_sorted(nest_at(st.cells, a)));
        }
        lemma_put_found(st.cells, ws, p);
    }
}

proof fn lemma_entry_from(cfg: ConfigView, own: Str, apps: Seq<Str>, app: Str, i: int)
    requires
        0 <= i <= apps.len(),
        cfg.family_of(own) == Some(app),
        !apps.contains(own),
        exists|k: int| i <= k < apps.len() && #[trigger] apps[k] == app,
    ensures
        entry_from(cfg, own, apps, i) == Some(app),
    decreases apps.len() - i,
{
    let k = choose|k: int| i <= k < apps.len() && #[trigger] apps[k] == app;
    assert(apps.contains(apps[i]));
    if apps[i] != app {
        assert(apps[k] == app && i + 1 <= k);
        lemma_entry_from(cfg, own, apps, app, i + 1);
    }
}

/// A window belongs to the entry of a workspace that places it.
pub proof fn law_entry_of(cfg: ConfigView, ws: Str, app: Str, c: Client)
    requires
        places(cfg, ws, app, c),
        entry_names_of(cfg, ws).contains(app),
    ensures
        entry_of(cfg, ws, entry_names_of(cfg, ws), c) == Some(app),
{
    let apps = entry_names_of(cfg, ws);
    let own = app_of(c)->Some_0;
    if !apps.contains(own) {
        let k = choose|k: int| 0 <= k < apps.len() && apps[k] == app;
        assert(apps[k] == app);
        lemma_entry_from(cfg, own, apps, app, 0);
    }
}

proof fn lemma_addr(clients: Seq<Client>, addr: Str, i: int, k: int)
    requires
        0 <= i <= k < clients.len(),
        clients[k].address@ == addr,
        forall|j: int| i <= j < k ==> (#[trigger] clients[j]).address@ != addr,
    ensures
        addr_from(clients, addr, i) == k,
    decreases k - i,
{
    if i < k {
        assert(clients[i].address@ != addr);
        lemma_addr(clients, addr, i + 1, k);
    }
}

/// A window of the entry stands in the workspace.
pub open spec fn stands_there(cfg: ConfigView, clients: Seq<Client>, ws: Str, app: Str) -> bool {
    exists|c: Client| #[trigger] clients.contains(c) && places(cfg, ws, app, c)
}

proof fn lemma_stands(cfg: ConfigView, clients: Seq<Client>, ws: Str, app: Str)
    ensures
        stands_there(cfg, clients, ws, app) == (placed(cfg, clients, ws, entry_names_of(cfg, ws), app).len() > 0),
{
    let wins = placed(cfg, clients, ws, entry_names_of(cfg, ws), app);
    law_placed(cfg, clients, ws, app);
    if wins.len() > 0 {
        assert(wins.contains(wins[0]));
        assert(clients.contains(wins[0]));
    }
    if stands_there(cfg, clients, ws, app) {
        let c = choose|c: Client| #[trigger] clients.contains(c) && places(cfg, ws, app, c);
        assert(wins.contains(c));
    }
}

/// All windows of an entry that are not hidden are put into a rectangle on desktop `n`.
pub open spec fn all_put(cfg: ConfigView, clients: Seq<Client>, ws: Str, app: Str, r: PxRect, n: u8, ex: Seq<Str>) -> bool {
    forall|c: Client| #[trigger]
        clients.contains(c) && places(cfg, ws, app, c) && !on_hidden(c) ==> is_put(c, r, n, ex)
}

proof fn lemma_all_put(
    cfg: ConfigView,
    clients: Seq<Client>,
    ws: Str,
    app: Str,
    r: PxRect,
    n: u8,
    a: Seq<Str>,
    b: Seq<Str>,
)
    requires
        all_put(cfg, clients, ws, app, r, n, a),
    ensures
        all_put(cfg, clients, ws, app, r, n, a + b),
{
    assert forall|c: Client| #[trigger] clients.contains(c) && places(cfg, ws, app, c) && !on_hidden(c) implies is_put(
        c,
        r,
        n,
        a + b,
    ) by {
        lemma_put_kept(c, r, n, a, b);
    }
}

/// The template of a workspace has this main cell.
pub open spec fn has_main_cell(cfg: ConfigView, ws: Str, cell: Str) -> bool {
    tab_get(cfg.workspaces, ws) matches Some(w) && tab_get(cfg.templates, w.template) matches Some(t) && t.main == cell
}

/// Taking the main place of a workspace with a template: the application is the main one afterwards, it and the main
/// one have exchanged their places, and the expressions put all windows of both that are not hidden on the
/// places that they then have. In particular its windows go to where the main one stood. Where it is the main
/// one, nothing happens.
pub proof fn law_takes_main_place(
    st: StateView,
    cfg: ConfigView,
    ws: Str,
    app: Str,
    cell: Str,
    clients: Seq<Client>,
    n: u8,
    ex: Seq<Str>,
)
    requires
        in_order(st),
        has_main_cell(cfg, ws, cell),
    ensures
        ({
            let b = st.built(cfg, ws);
            let main = b.main_in(cfg, ws);
            let (t, e) = st.swapped_in(cfg, ws, app, clients, n, ex);
            let there = stands_there(cfg, clients, ws, app);
            &&& t.main_in(cfg, ws) == Some(app)
            &&& begins_with(e, ex)
            &&& main == Some(app) ==> t == b && e == ex
            &&& main != Some(app) ==> {
                &&& exchanged(
                    b,
                    t,
                    ws,
                    main,
                    app,
                    cell,
                    main matches Some(m) && stands_there(cfg, clients, ws, m),
                    there,
                )
                &&& t.place(cfg, ws, app) matches Some(r) ==> all_put(cfg, clients, ws, app, r, n, e)
                &&& main matches Some(m) ==> {
                    &&& t.place(cfg, ws, m) matches Some(r) ==> all_put(cfg, clients, ws, m, r, n, e)
                    &&& there && b.entry_now(cfg, ws, m) is Some ==> t.place(cfg, ws, app) == b.entry_now(cfg, ws, m)
                }
                &&& main is None ==> t.entry_now(cfg, ws, app) == rect_at(cfg, ws, PlaceView::Cell(cell))
            }
        }),
{
    let b = st.built(cfg, ws);
    let main = b.main_in(cfg, ws);
    let (t, e) = st.swapped_in(cfg, ws, app, clients, n, ex);
    lemma_built(st, cfg, ws);
    if main == Some(app) {
        lemma_begins(ex, Seq::empty(), ex);
        assert(ex + Seq::<Str>::empty() =~= ex);
    } else {
        lemma_stands(cfg, clients, ws, app);
        let app_has = stands_there(cfg, clients, ws, app);
        let main_has = main matches Some(m) && stands_there(cfg, clients, ws, m);
        if let Some(m) = main {
            lemma_stands(cfg, clients, ws, m);
        }
        assert(main_cell_of(cfg, ws) == Some(cell));
        lemma_exchanged(b, ws, main, app, cell, main_has, app_has);
        let two = b.swapped(ws, main, app, cell, main_has, app_has);
        let (three, ex3) = match main {
            Some(m) => two.settled_entry(cfg, ws, m, clients, n, ex),
            None => (two, ex),
        };
        match main {
            Some(m) => lemma_settled(two, cfg, ws, m, clients, n, ex),
            None => {
                lemma_begins(ex, Seq::empty(), ex);
                assert(ex + Seq::<Str>::empty() =~= ex);
            },
        }
        assert(same_places(two, three)) by {
            if main is None {
                assert(three == two);
            }
        }
        lemma_settled(three, cfg, ws, app, clients, n, ex3);
        assert(t == three.settled_entry(cfg, ws, app, clients, n, ex3).0);
        assert(same_places(two, t)) by {
            assert forall|x: Str, y: Str| #[trigger] given_rect(t, x, y) == given_rect(two, x, y) by {
                assert(given_rect(three, x, y) == given_rect(two, x, y));
            }
        }
        lemma_same_exchange(b, two, t, ws, main, app, cell, main_has, app_has);
        lemma_begins(ex, ex3, e);
        lemma_begins(ex3, e, e);
        lemma_same_place(three, t, cfg, ws, app);
        if let Some(m) = main {
            lemma_same_place(two, t, cfg, ws, m);
            if let Some(r) = t.place(cfg, ws, m) {
                lemma_all_put(cfg, clients, ws, m, r, n, ex3, e.skip(ex3.len() as int));
            }
        }
    }
}

proof fn lemma_same_exchange(
    a: StateView,
    b: StateView,
    c: StateView,
    ws: Str,
    main: Option<Str>,
    app: Str,
    cell: Str,
    main_has: bool,
    app_has: bool,
)
    requires
        exchanged(a, b, ws, main, app, cell, main_has, app_has),
        same_places(b, c),
    ensures
        exchanged(a, c, ws, main, app, cell, main_has, app_has),
{
    assert forall|q: Str| q != app && main != Some(q) implies #[trigger] given_rect(c, ws, q) == given_rect(a, ws, q) by {
        assert(given_rect(c, ws, q) == given_rect(b, ws, q));
    }
    assert(given_rect(c, ws, app) == given_rect(b, ws, app));
    if let Some(m) = main {
        assert(given_rect(c, ws, m) == given_rect(b, ws, m));
    }
}

/// Choosing a window without the exchange of places changes nothing and moves nothing: the window gets the focus and
/// comes to the top, and that is all.
pub proof fn law_choose_moves_nothing(st: StateView, cfg: ConfigView, ws: Str, addr: Str, clients: Seq<Client>, n: u8)
    ensures
        st.selected(cfg, ws, addr, clients, false, n) == (st, seq![focus_of(addr), top_text()]),
{
    assert(Seq::<Str>::empty() + focusing(addr) =~= seq![focus_of(addr), top_text()]);
}

/// Choosing a window of an entry with the exchange of places, in a workspace with a template: the entry is the main
/// one afterwards and its windows that are not hidden stand on its place, which is where the main one stood; then
/// the window gets the focus and comes to the top.
pub proof fn law_choose_exchanges(
    st: StateView,
    cfg: ConfigView,
    ws: Str,
    clients: Seq<Client>,
    i: int,
    app: Str,
    cell: Str,
    n: u8,
)
    requires
        in_order(st),
        has_main_cell(cfg, ws, cell),
        0 <= i < clients.len(),
        forall|j: int| 0 <= j < i ==> (#[trigger] clients[j]).address@ != clients[i].address@,
        places(cfg, ws, app, clients[i]),
        entry_names_of(cfg, ws).contains(app),
    ensures
        ({
            let addr = clients[i].address@;
            let b = st.built(cfg, ws);
            let main = b.main_in(cfg, ws);
            let (t, ex) = st.selected(cfg, ws, addr, clients, true, n);
            &&& t.main_in(cfg, ws) == Some(app)
            &&& ex.len() >= 2 && ex.skip(ex.len() - 2) == seq![focus_of(addr), top_text()]
            &&& main == Some(app) ==> t == b && ex.len() == 2
            &&& main != Some(app) ==> {
                &&& exchanged(
                    b,
                    t,
                    ws,
                    main,
                    app,
                    cell,
                    main matches Some(m) && stands_there(cfg, clients, ws, m),
                    true,
                )
                &&& t.place(cfg, ws, app) matches Some(r) ==> all_put(cfg, clients, ws, app, r, n, ex)
                &&& main matches Some(m) ==> {
                    &&& t.place(cfg, ws, m) matches Some(r) ==> all_put(cfg, clients, ws, m, r, n, ex)
                    &&& b.entry_now(cfg, ws, m) is Some ==> t.place(cfg, ws, app) == b.entry_now(cfg, ws, m)
                }
                &&& main is None ==> t.entry_now(cfg, ws, app) == rect_at(cfg, ws, PlaceView::Cell(cell))
            }
        }),
{
    let addr = clients[i].address@;
    lemma_addr(clients, addr, 0, i);
    law_entry_of(cfg, ws, app, clients[i]);
    law_takes_main_place(st, cfg, ws, app, cell, clients, n, Seq::empty());
    assert(clients.contains(clients[i]));
    assert(stands_there(cfg, clients, ws, app));
    let b = st.built(cfg, ws);
    let main = b.main_in(cfg, ws);
    let (t, e) = st.swapped_in(cfg, ws, app, clients, n, Seq::empty());
    let f = focusing(addr);
    let ex = e + f;
    assert(st.selected(cfg, ws, addr, clients, true, n) == (t, ex));
    assert(ex.skip(ex.len() - 2) =~= seq![focus_of(addr), top_text()]);
    if main != Some(app) {
        if let Some(r) = t.place(cfg, ws, app) {
            lemma_all_put(cfg, clients, ws, app, r, n, e, f);
        }
        if let Some(m) = main {
            if let Some(r) = t.place(cfg, ws, m) {
                lemma_all_put(cfg, clients, ws, m, r, n, e, f);
            }
        }
    }
}

} // verus!
