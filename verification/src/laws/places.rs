//! Places of applications in workspaces.
use vstd::prelude::*;

use crate::config::{mode_of, ConfigView, PlacementView, WsAppView};
use crate::home::entry_names_of;
use crate::hypr::Client;
use crate::laws::select::{given_rect, has_main_cell, in_order};
use crate::layout::{all_released_from, all_sorted, lemma_nest_del, lemma_nest_put, lemma_pruned_get, released_from};
use crate::state::{in_cell_from, own_rect, place_of, places_upto, MovedView, PlaceView, StateView};
use crate::table::{
    lemma_find, lemma_find_at, lemma_put_get, lemma_put_sorted, nest_at, nest_del, nest_get, nest_put, tab_find,
    tab_get, tab_has, tab_sorted,
};
use crate::text::{lemma_lt_irreflexive, str_lt, Str};
use crate::windows::{first_of, placed};

verus! {

/// The place of an application in a workspace: the rectangle that the user gave it; without one the place described for
/// it; without an entry of its own that of its family, in the same order; and without either the place that it has
/// by itself.
pub proof fn law_place(st: StateView, cfg: ConfigView, ws: Str, app: Str)
    ensures
        given_rect(st, ws, app) is Some ==> st.place(cfg, ws, app) == given_rect(st, ws, app),
        given_rect(st, ws, app) is None && st.entry_rect(cfg, ws, app) is Some ==> st.place(cfg, ws, app) == st.entry_rect(
            cfg,
            ws,
            app,
        ),
        given_rect(st, ws, app) is None && st.entry_rect(cfg, ws, app) is None ==> match cfg.family_of(app) {
            Some(f) => {
                &&& given_rect(st, ws, f) is Some ==> st.place(cfg, ws, app) == given_rect(st, ws, f)
                &&& given_rect(st, ws, f) is None && st.entry_rect(cfg, ws, f) is Some ==> st.place(cfg, ws, app)
                    == st.entry_rect(cfg, ws, f)
                &&& given_rect(st, ws, f) is None && st.entry_rect(cfg, ws, f) is None ==> st.place(cfg, ws, app)
                    == own_rect(cfg, app)
            },
            None => st.place(cfg, ws, app) == own_rect(cfg, app),
        },
{
}

proof fn lemma_places(s: Seq<(Str, WsAppView)>, n: int)
    requires
        0 <= n <= s.len(),
        forall|i: int, j: int| 0 <= i < j < s.len() ==> (#[trigger] s[i]).0 != (#[trigger] s[j]).0,
    ensures
        tab_sorted(places_upto(s, n)),
        forall|i: int| 0 <= i < n ==> tab_get(places_upto(s, n), (#[trigger] s[i]).0) == Some(place_of(s[i].1.place)),
        forall|e: Str| (forall|i: int| 0 <= i < n ==> (#[trigger] s[i]).0 != e) ==> #[trigger] tab_get(places_upto(s, n), e) is None,
    decreases n,
{
    if n > 0 {
        lemma_places(s, n - 1);
        let p = places_upto(s, n - 1);
        let (k, v) = (s[n - 1].0, place_of(s[n - 1].1.place));
        lemma_put_sorted(p, k, v);
        assert forall|i: int| 0 <= i < n implies tab_get(places_upto(s, n), (#[trigger] s[i]).0) == Some(
            place_of(s[i].1.place),
        ) by {
            lemma_put_get(p, k, v, s[i].0);
        }
        assert forall|e: Str| (forall|i: int| 0 <= i < n ==> (#[trigger] s[i]).0 != e) implies #[trigger] tab_get(
            places_upto(s, n),
            e,
        ) is None by {
            lemma_put_get(p, k, v, e);
            assert(s[n - 1].0 != e);
        }
    }
}

/// A layout is made once, out of the entries of the workspace: each entry stands in the cell or the rectangle that it
/// names, and no other entry is there. A layout that is there already stays as it is, and so do all others.
pub proof fn law_layout_is_made(st: StateView, cfg: ConfigView, ws: Str)
    requires
        in_order(st),
        forall|i: int, j: int|
            0 <= i < j < cfg.entries(ws).len() ==> (#[trigger] cfg.entries(ws)[i]).0 != (#[trigger] cfg.entries(ws)[j]).0,
    ensures
        ({
            let t = st.built(cfg, ws);
            let e = cfg.entries(ws);
            &&& tab_has(st.cells, ws) || !tab_has(cfg.workspaces, ws) ==> t == st
            &&& t == (StateView { cells: t.cells, ..st })
            &&& forall|x: Str, y: Str| x != ws ==> #[trigger] nest_get(t.cells, x, y) == nest_get(st.cells, x, y)
            &&& !tab_has(st.cells, ws) && tab_has(cfg.workspaces, ws) ==> {
                &&& forall|i: int|
                    0 <= i < e.len() ==> nest_get(t.cells, ws, (#[trigger] e[i]).0) == Some(
                        match e[i].1.place {
                            PlacementView::Cell(c) => PlaceView::Cell(c),
                            PlacementView::Rect { rect } => PlaceView::Rect { rect: rect.px() },
                        },
                    )
                &&& forall|y: Str|
                    (forall|i: int| 0 <= i < e.len() ==> (#[trigger] e[i]).0 != y) ==> #[trigger] nest_get(t.cells, ws, y) is None
            }
        }),
{
    let e = cfg.entries(ws);
    let p = places_upto(e, e.len() as int);
    if !tab_has(st.cells, ws) && tab_has(cfg.workspaces, ws) {
        lemma_places(e, e.len() as int);
        let t = st.built(cfg, ws);
        assert forall|x: Str, y: Str| x != ws implies #[trigger] nest_get(t.cells, x, y) == nest_get(st.cells, x, y) by {
            lemma_put_get(st.cells, ws, p, x);
        }
        lemma_put_get(st.cells, ws, p, ws);
    }
}

proof fn lemma_in_cell(s: Seq<(Str, PlaceView)>, cell: Str, i: int)
    requires
        0 <= i <= s.len(),
    ensures
        match in_cell_from(s, cell, i) {
            Some(e) => exists|k: int| i <= k < s.len() && #[trigger] s[k] == (e, PlaceView::Cell(cell)),
            None => forall|k: int| i <= k < s.len() ==> (#[trigger] s[k]).1 != PlaceView::Cell(cell),
        },
    decreases s.len() - i,
{
    if i < s.len() {
        if s[i].1 == PlaceView::Cell(cell) {
            assert(s[i] == (s[i].0, PlaceView::Cell(cell)));
        } else {
            lemma_in_cell(s, cell, i + 1);
            if let Some(e) = in_cell_from(s, cell, i + 1) {
                let k = choose|k: int| i + 1 <= k < s.len() && #[trigger] s[k] == (e, PlaceView::Cell(cell));
                assert(s[k] == (e, PlaceView::Cell(cell)));
            }
        }
    }
}

/// The main application of a workspace is the one that took the main place; else the one that the configuration names;
/// else one that stands in the main cell of the template, and none where no entry stands there.
pub proof fn law_main(st: StateView, cfg: ConfigView, ws: Str, cell: Str)
    requires
        has_main_cell(cfg, ws, cell),
    ensures
        ({
            let named = tab_get(cfg.workspaces, ws)->0.main;
            let cells = nest_at(st.cells, ws);
            &&& tab_get(st.main, ws) is Some ==> st.main_in(cfg, ws) == tab_get(st.main, ws)
            &&& tab_get(st.main, ws) is None && named is Some ==> st.main_in(cfg, ws) == named
            &&& tab_get(st.main, ws) is None && named is None ==> match st.main_in(cfg, ws) {
                Some(e) => exists|k: int| 0 <= k < cells.len() && #[trigger] cells[k] == (e, PlaceView::Cell(cell)),
                None => forall|k: int| 0 <= k < cells.len() ==> (#[trigger] cells[k]).1 != PlaceView::Cell(cell),
            }
        }),
{
    lemma_in_cell(nest_at(st.cells, ws), cell, 0);
}

/// The mode of the key of an application: that of its entry in the workspace where the entry has one, else that of the
/// workspace.
pub proof fn law_mode(cfg: ConfigView, ws: Str, app: Str)
    requires
        tab_has(cfg.workspaces, ws),
    ensures
        ({
            let own = match cfg.ws_entry(ws, app) {
                Some((_, e)) => e.mode,
                None => None,
            };
            let w = tab_get(cfg.workspaces, ws)->0;
            &&& own is Some ==> cfg.app_mode(ws, app) == mode_of(own->0)
            &&& own is None ==> cfg.app_mode(ws, app) == mode_of(w.mode)
        }),
{
    lemma_find(cfg.workspaces, ws, 0);
}

// ---- Places of windows that went ----------------------------------------------------------

/// What becomes of the changed place of an entry when a window went: one that was read from another window stays. One that
/// was read from it goes to the first other window that the entry places, with the same rectangle, and is no more
/// where there is none.
pub open spec fn passed_on(
    cfg: ConfigView,
    addr: Str,
    clients: Seq<Client>,
    ws: Str,
    entry: Str,
    was: Option<MovedView>,
) -> Option<MovedView> {
    if was is None || was->0.owner != Some(addr) {
        was
    } else {
        match first_of(placed(cfg, clients, ws, entry_names_of(cfg, ws), entry)) {
            Some(c) => Some(MovedView { rect: was->0.rect, owner: Some(c.address@) }),
            None => None,
        }
    }
}

proof fn lemma_passed_on(
    cfg: ConfigView,
    addr: Str,
    clients: Seq<Client>,
    ws: Str,
    entries: Seq<(Str, MovedView)>,
    j: int,
    m: Seq<(Str, Seq<(Str, MovedView)>)>,
    gone: Seq<(Str, Str)>,
)
    requires
        0 <= j <= entries.len(),
        tab_sorted(entries),
        all_sorted(m),
    ensures
        ({
            let r = released_from(cfg, addr, clients, ws, entries, j, m, gone).0;
            &&& all_sorted(r)
            &&& forall|x: Str, y: Str|
                x != ws || (forall|k: int| j <= k < entries.len() ==> (#[trigger] entries[k]).0 != y) ==> #[trigger] nest_get(r, x, y)
                    == nest_get(m, x, y)
            &&& forall|k: int|
                j <= k < entries.len() && nest_get(m, ws, (#[trigger] entries[k]).0) == Some(entries[k].1) ==> nest_get(
                    r,
                    ws,
                    entries[k].0,
                ) == passed_on(cfg, addr, clients, ws, entries[k].0, Some(entries[k].1))
        }),
    decreases entries.len() - j,
{
    if j < entries.len() {
        let (entry, v) = entries[j];
        let first = first_of(placed(cfg, clients, ws, entry_names_of(cfg, ws), entry));
        let r = released_from(cfg, addr, clients, ws, entries, j, m, gone).0;
        let (n, more) = if v.owner != Some(addr) {
            (m, gone)
        } else {
            match first {
                Some(c) => (nest_put(m, ws, entry, MovedView { rect: v.rect, owner: Some(c.address@) }), gone),
                None => (nest_del(m, ws, entry), gone.push((ws, entry))),
            }
        };
        if v.owner == Some(addr) {
            match first {
                Some(c) => {
                    lemma_nest_put(m, ws, entry, MovedView { rect: v.rect, owner: Some(c.address@) });
                },
                None => {
                    lemma_nest_del(m, ws, entry);
                },
            }
        }
        assert(forall|x: Str, y: Str| x != ws || y != entry ==> #[trigger] nest_get(n, x, y) == nest_get(m, x, y));
        assert(v.owner == Some(addr) ==> nest_get(n, ws, entry) == passed_on(cfg, addr, clients, ws, entry, Some(v)));
        lemma_passed_on(cfg, addr, clients, ws, entries, j + 1, n, more);
        assert forall|k: int| j < k < entries.len() implies (#[trigger] entries[k]).0 != entry by {
            assert(str_lt(entries[j].0, entries[k].0));
            lemma_lt_irreflexive(entry);
        }
        assert forall|x: Str, y: Str|
            x != ws || (forall|k: int| j <= k < entries.len() ==> (#[trigger] entries[k]).0 != y) implies #[trigger] nest_get(r, x, y)
            == nest_get(m, x, y) by {
            if x == ws {
                assert(entries[j].0 != y);
            }
            assert(nest_get(n, x, y) == nest_get(m, x, y));
        }
        assert forall|k: int|
            j <= k < entries.len() && nest_get(m, ws, (#[trigger] entries[k]).0) == Some(entries[k].1) implies nest_get(
            r,
            ws,
            entries[k].0,
        ) == passed_on(cfg, addr, clients, ws, entries[k].0, Some(entries[k].1)) by {
            if k == j {
                assert(nest_get(r, ws, entry) == nest_get(n, ws, entry));
            } else {
                assert(nest_get(n, ws, entries[k].0) == nest_get(m, ws, entries[k].0));
            }
        }
    }
}

proof fn lemma_all_passed_on(
    cfg: ConfigView,
    addr: Str,
    clients: Seq<Client>,
    all: Seq<(Str, Seq<(Str, MovedView)>)>,
    i: int,
    m: Seq<(Str, Seq<(Str, MovedView)>)>,
    gone: Seq<(Str, Str)>,
)
    requires
        0 <= i <= all.len(),
        all_sorted(all),
        all_sorted(m),
        forall|k: int, y: Str| i <= k < all.len() ==> #[trigger] nest_get(m, #[trigger] all[k].0, y) == tab_get(all[k].1, y),
    ensures
        ({
            let r = all_released_from(cfg, addr, clients, all, i, m, gone).0;
            &&& all_sorted(r)
            &&& forall|x: Str, y: Str|
                (forall|k: int| i <= k < all.len() ==> (#[trigger] all[k]).0 != x) ==> #[trigger] nest_get(r, x, y) == nest_get(m, x, y)
            &&& forall|k: int, y: Str|
                i <= k < all.len() ==> #[trigger] nest_get(r, #[trigger] all[k].0, y) == passed_on(
                    cfg,
                    addr,
                    clients,
                    all[k].0,
                    y,
                    tab_get(all[k].1, y),
                )
        }),
    decreases all.len() - i,
{
    if i < all.len() {
        let (ws, entries) = all[i];
        lemma_find_at(all, i);
        assert(nest_at(all, ws) == entries);
        assert(tab_sorted(nest_at(all, ws)));
        let n = released_from(cfg, addr, clients, ws, entries, 0, m, gone);
        let r = all_released_from(cfg, addr, clients, all, i, m, gone).0;
        lemma_passed_on(cfg, addr, clients, ws, entries, 0, m, gone);
        assert forall|k: int| i < k < all.len() implies (#[trigger] all[k]).0 != ws by {
            assert(str_lt(all[i].0, all[k].0));
            lemma_lt_irreflexive(ws);
        }
        assert forall|k: int, y: Str| i + 1 <= k < all.len() implies #[trigger] nest_get(n.0, #[trigger] all[k].0, y) == tab_get(
            all[k].1,
            y,
        ) by {
            assert(all[k].0 != ws);
            assert(nest_get(m, all[k].0, y) == tab_get(all[k].1, y));
        }
        assert forall|y: Str| #[trigger] nest_get(n.0, ws, y) == passed_on(cfg, addr, clients, ws, y, tab_get(entries, y)) by {
            assert(nest_get(m, all[i].0, y) == tab_get(all[i].1, y));
            lemma_find(entries, y, 0);
            let f = tab_find(entries, y, 0);
            if f < entries.len() {
                assert(nest_get(m, ws, entries[f].0) == Some(entries[f].1));
            }
        }
        lemma_all_passed_on(cfg, addr, clients, all, i + 1, n.0, n.1);
        assert forall|x: Str, y: Str|
            (forall|k: int| i <= k < all.len() ==> (#[trigger] all[k]).0 != x) implies #[trigger] nest_get(r, x, y) == nest_get(
            m,
            x,
            y,
        ) by {
            assert(all[i].0 != x);
            assert(nest_get(n.0, x, y) == nest_get(m, x, y));
        }
        assert forall|k: int, y: Str| i <= k < all.len() implies #[trigger] nest_get(r, #[trigger] all[k].0, y) == passed_on(
            cfg,
            addr,
            clients,
            all[k].0,
            y,
            tab_get(all[k].1, y),
        ) by {
            if k == i {
                assert(nest_get(r, ws, y) == nest_get(n.0, ws, y));
            }
        }
    }
}

/// When a window went, every changed place that was read from another window stays; each that was read from it is passed on.
pub proof fn law_released(st: StateView, cfg: ConfigView, addr: Str, clients: Seq<Client>)
    requires
        all_sorted(st.moved),
    ensures
        ({
            let t = st.released(cfg, addr, clients).0;
            &&& t == (StateView { moved: t.moved, ..st })
            &&& forall|x: Str, y: Str| #[trigger]
                nest_get(t.moved, x, y) == passed_on(cfg, addr, clients, x, y, nest_get(st.moved, x, y))
        }),
{
    let t = st.released(cfg, addr, clients).0;
    let r = all_released_from(cfg, addr, clients, st.moved, 0, st.moved, Seq::empty()).0;
    assert forall|k: int, y: Str| 0 <= k < st.moved.len() implies #[trigger] nest_get(st.moved, #[trigger] st.moved[k].0, y)
        == tab_get(st.moved[k].1, y) by {
        lemma_find_at(st.moved, k);
    }
    lemma_all_passed_on(cfg, addr, clients, st.moved, 0, st.moved, Seq::empty());
    assert forall|x: Str, y: Str| #[trigger] nest_get(t.moved, x, y) == passed_on(
        cfg,
        addr,
        clients,
        x,
        y,
        nest_get(st.moved, x, y),
    ) by {
        lemma_pruned_get(r, x, y);
        lemma_find(st.moved, x, 0);
        let f = tab_find(st.moved, x, 0);
        if f < st.moved.len() {
            assert(nest_get(r, st.moved[f].0, y) == passed_on(cfg, addr, clients, x, y, tab_get(st.moved[f].1, y)));
        } else {
            assert(nest_at(st.moved, x) =~= Seq::empty());
            assert(nest_get(r, x, y) == nest_get(st.moved, x, y));
        }
    }
}

} // verus!
