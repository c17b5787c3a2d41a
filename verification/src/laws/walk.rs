//! Presses of the key of an application: the walk over its windows.
use vstd::prelude::*;

use crate::config::{ConfigView, Mode};
use crate::cycle::{addresses, free_walk, prev_of, shown, shown_addr_from, shown_upto, CycleActView};
use crate::exprs::{desk_move, focusing};
use crate::home::{entry_names_of, find_in};
use crate::hypr::{focus_of, on_hidden, top_text, Client};
use crate::laws::desks::lemma_found;
use crate::laws::select::{has_main_cell, in_order, law_choose_moves_nothing, law_takes_main_place, lemma_built};
use crate::laws::windows::{in_turn, is_early, law_placed, law_placed_in_turn, law_shown, lemma_one_more, places};
use crate::pending::Target;
use crate::route::{
    anchor_fits_from, anchor_of, entry_name, law_walk_visits_each, next_window_from, next_window_of, restart_of,
    walk_of, CycleStepView, Start,
};
use crate::save::kept;
use crate::state::{own_rect, StateView};
use crate::table::{tab_get, tab_has};
use crate::text::Str;
use crate::windows::{entry_of, placed, visible_from, windows_of};

verus! {

/// The window is one that the entry places in the workspace and is not hidden.
pub open spec fn is_visible(cfg: ConfigView, clients: Seq<Client>, ws: Str, app: Str, c: Client) -> bool {
    clients.contains(c) && places(cfg, ws, app, c) && !on_hidden(c)
}

/// The addresses of the windows over which the key of an application walks in a workspace.
pub open spec fn walk_order(cfg: ConfigView, clients: Seq<Client>, ws: Str, app: Str) -> Seq<Str> {
    addresses(shown(placed(cfg, clients, ws, entry_names_of(cfg, ws), app)))
}

proof fn lemma_addresses(s: Seq<Client>)
    ensures
        addresses(s).len() == s.len(),
        forall|a: Str| #[trigger] addresses(s).contains(a) <==> exists|c: Client| #[trigger] s.contains(c) && c.address@ == a,
{
    let r = addresses(s);
    assert forall|a: Str| #[trigger] r.contains(a) <==> exists|c: Client| #[trigger] s.contains(c) && c.address@ == a by {
        if r.contains(a) {
            let i = choose|i: int| 0 <= i < r.len() && r[i] == a;
            assert(s.contains(s[i]));
        }
        if exists|c: Client| #[trigger] s.contains(c) && c.address@ == a {
            let c = choose|c: Client| #[trigger] s.contains(c) && c.address@ == a;
            let i = choose|i: int| 0 <= i < s.len() && s[i] == c;
            assert(r[i] == a);
        }
    }
}

proof fn lemma_shown_in_turn(s: Seq<Client>, n: int)
    requires
        0 <= n <= s.len(),
        in_turn(s),
    ensures
        in_turn(shown_upto(s, n)),
        forall|i: int| 0 <= i < shown_upto(s, n).len() ==> is_early(s, n, #[trigger] shown_upto(s, n)[i]),
    decreases n,
{
    if n > 0 {
        lemma_shown_in_turn(s, n - 1);
        lemma_one_more(s, shown_upto(s, n - 1), shown_upto(s, n), n);
    }
}

/// The walk leads over the windows that the entry places in the workspace and that are not hidden, all of them and
/// no other, in the order of their numbers.
pub proof fn law_walk_order(cfg: ConfigView, clients: Seq<Client>, ws: Str, app: Str)
    ensures
        ({
            let s = shown(placed(cfg, clients, ws, entry_names_of(cfg, ws), app));
            &&& in_turn(s)
            &&& walk_order(cfg, clients, ws, app) == addresses(s)
            &&& forall|c: Client| #[trigger] s.contains(c) <==> is_visible(cfg, clients, ws, app, c)
        }),
        forall|a: Str| #[trigger]
            walk_order(cfg, clients, ws, app).contains(a) <==> exists|c: Client| #[trigger]
                is_visible(cfg, clients, ws, app, c) && c.address@ == a,
        walk_order(cfg, clients, ws, app).len() == 0 <==> forall|c: Client|
            !#[trigger] is_visible(cfg, clients, ws, app, c),
{
    let p = placed(cfg, clients, ws, entry_names_of(cfg, ws), app);
    let s = shown(p);
    law_placed(cfg, clients, ws, app);
    law_placed_in_turn(cfg, clients, ws, app);
    law_shown(p);
    lemma_shown_in_turn(p, p.len() as int);
    lemma_addresses(s);
    assert forall|c: Client| #[trigger] s.contains(c) <==> is_visible(cfg, clients, ws, app, c) by {}
    let r = walk_order(cfg, clients, ws, app);
    assert forall|a: Str| #[trigger] r.contains(a) <==> exists|c: Client| #[trigger]
        is_visible(cfg, clients, ws, app, c) && c.address@ == a by {
        if r.contains(a) {
            let c = choose|c: Client| #[trigger] s.contains(c) && c.address@ == a;
            assert(is_visible(cfg, clients, ws, app, c));
        }
        if exists|c: Client| #[trigger] is_visible(cfg, clients, ws, app, c) && c.address@ == a {
            let c = choose|c: Client| #[trigger] is_visible(cfg, clients, ws, app, c) && c.address@ == a;
            assert(s.contains(c));
        }
    }
    if s.len() > 0 {
        assert(s.contains(s[0]));
    }
    if exists|c: Client| #[trigger] is_visible(cfg, clients, ws, app, c) {
        let c = choose|c: Client| #[trigger] is_visible(cfg, clients, ws, app, c);
        assert(s.contains(c));
    }
}

/// A walk without windows starts the application, and no other one does. A walk that begins, and one that does not
/// stand on a window of the application, chooses the first window.
pub proof fn law_walk_begins(order: Seq<Str>, active: Option<Str>, fresh: bool, prev: Option<Str>, next: Option<Str>)
    ensures
        walk_of(order, active, fresh, prev, next) is Launch <==> order.len() == 0,
        order.len() > 0 && (fresh || active is None || !order.contains(active->0)) ==> walk_of(
            order,
            active,
            fresh,
            prev,
            next,
        ) == CycleStepView::Select(order[0]),
        walk_of(order, active, fresh, prev, next) matches CycleStepView::Select(a) ==> order.contains(a),
        walk_of(order, active, fresh, prev, next) matches CycleStepView::Back(a) ==> prev == Some(a),
        walk_of(order, active, fresh, prev, next) matches CycleStepView::NextApp(a) ==> prev is None && next == Some(a),
{
    if let Some(a) = active {
        lemma_found(order, a, 0);
        let k = find_in(order, a, 0);
        if k < order.len() {
            assert(order.contains(order[k]));
        }
        if k + 1 < order.len() {
            assert(order.contains(order[k + 1]));
        }
    }
    if order.len() > 0 {
        assert(order.contains(order[0]));
    }
}

/// Where places are exchanged, the key of an application that is not the main one chooses one of its windows: the active
/// one where it is one of them, else the first. The key of the main one walks on.
pub proof fn law_restart(order: Seq<Str>, active: Option<Str>, is_main: bool)
    ensures
        restart_of(order, active, is_main) is Some <==> !is_main && order.len() > 0,
        restart_of(order, active, is_main) matches Some(a) ==> order.contains(a) && (active is Some && order.contains(
            active->0,
        ) ==> a == active->0) && (active is None || !order.contains(active->0) ==> a == order[0]),
{
    if order.len() > 0 {
        assert(order.contains(order[0]));
    }
}

proof fn lemma_anchor(cfg: ConfigView, clients: Seq<Client>, ws: Str, a: Str, i: int)
    requires
        0 <= i <= clients.len(),
    ensures
        anchor_fits_from(cfg, clients, ws, a, i) <==> exists|k: int|
            i <= k < clients.len() && (#[trigger] clients[k]).address@ == a && !on_hidden(clients[k]) && entry_of(
                cfg,
                ws,
                entry_names_of(cfg, ws),
                clients[k],
            ) is Some,
    decreases clients.len() - i,
{
    let fit = |k: int|
        clients[k].address@ == a && !on_hidden(clients[k]) && entry_of(cfg, ws, entry_names_of(cfg, ws), clients[k]) is Some;
    if i < clients.len() {
        lemma_anchor(cfg, clients, ws, a, i + 1);
        if fit(i) {
            assert(clients[i].address@ == a);
        } else if anchor_fits_from(cfg, clients, ws, a, i + 1) {
            let k = choose|k: int|
                i + 1 <= k < clients.len() && (#[trigger] clients[k]).address@ == a && !on_hidden(clients[k]) && entry_of(
                    cfg,
                    ws,
                    entry_names_of(cfg, ws),
                    clients[k],
                ) is Some;
            assert(clients[k].address@ == a);
        }
    }
}

/// The address is that of a visible window of the workspace over which the walk does not lead.
pub open spec fn is_anchor(cfg: ConfigView, clients: Seq<Client>, ws: Str, order: Seq<Str>, a: Option<Str>) -> bool {
    a is Some && !order.contains(a->0) && exists|k: int|
        0 <= k < clients.len() && (#[trigger] clients[k]).address@ == a->0 && !on_hidden(clients[k]) && entry_of(
            cfg,
            ws,
            entry_names_of(cfg, ws),
            clients[k],
        ) is Some
}

/// The window that the end of the walk goes back to: that of the main application where there is one, else the active
/// window, else the one that had the focus, each only as a visible window of the workspace over which the walk
/// does not lead; and none only where neither is such a window.
pub proof fn law_anchor(
    cfg: ConfigView,
    clients: Seq<Client>,
    ws: Str,
    main_window: Option<Str>,
    order: Seq<Str>,
    active: Option<Str>,
    focus: Option<Str>,
)
    ensures
        ({
            let r = anchor_of(cfg, clients, ws, main_window, order, active, focus);
            &&& main_window is Some ==> r == main_window
            &&& main_window is None ==> {
                &&& r is Some ==> is_anchor(cfg, clients, ws, order, r) && (r == active || r == focus)
                &&& is_anchor(cfg, clients, ws, order, active) ==> r == active
                &&& is_anchor(cfg, clients, ws, order, focus) ==> r is Some
            }
        }),
{
    if let Some(a) = active {
        lemma_anchor(cfg, clients, ws, a, 0);
    }
    if let Some(a) = focus {
        lemma_anchor(cfg, clients, ws, a, 0);
    }
}

proof fn lemma_shown_addr(clients: Seq<Client>, a: Str, i: int)
    requires
        0 <= i <= clients.len(),
    ensures
        shown_addr_from(clients, a, i) <==> exists|k: int|
            i <= k < clients.len() && (#[trigger] clients[k]).address@ == a && !on_hidden(clients[k]),
    decreases clients.len() - i,
{
    if i < clients.len() {
        lemma_shown_addr(clients, a, i + 1);
        if clients[i].address@ == a && !on_hidden(clients[i]) {
            assert(clients[i].address@ == a);
        } else if shown_addr_from(clients, a, i + 1) {
            let k = choose|k: int|
                i + 1 <= k < clients.len() && (#[trigger] clients[k]).address@ == a && !on_hidden(clients[k]);
            assert(clients[k].address@ == a);
        }
    }
}

/// A walk goes back exactly to the window put down when the walk over the same application began in the workspace, as
/// long as that window is there and not hidden.
pub proof fn law_prev(st: StateView, ws: Str, app: Str, clients: Seq<Client>)
    ensures
        ({
            let kept = tab_get(st.cycle, ws);
            let there = |a: Str| exists|k: int|
                0 <= k < clients.len() && (#[trigger] clients[k]).address@ == a && !on_hidden(clients[k]);
            &&& prev_of(st, ws, app, clients) matches Some(a) ==> kept is Some && kept->0.app == app && kept->0.back == Some(a)
                && there(a)
            &&& kept is Some && kept->0.app == app && kept->0.back is Some && there(kept->0.back->0) ==> prev_of(
                st,
                ws,
                app,
                clients,
            ) == kept->0.back
        }),
{
    if let Some(x) = tab_get(st.cycle, ws) {
        if let Some(a) = x.back {
            lemma_shown_addr(clients, a, 0);
        }
    }
}

/// The `k`-th entry after the `at`-th one, round and round.
pub open spec fn after_entry(names: Seq<Str>, at: int, k: int) -> Str {
    names[if at + k < names.len() {
        at + k
    } else {
        at + k - names.len()
    }]
}

proof fn lemma_visible(s: Seq<Client>, i: int)
    requires
        0 <= i <= s.len(),
    ensures
        match visible_from(s, i) {
            Some(c) => s.contains(c) && !on_hidden(c),
            None => forall|k: int| i <= k < s.len() ==> on_hidden(#[trigger] s[k]),
        },
    decreases s.len() - i,
{
    if i < s.len() {
        if on_hidden(s[i]) {
            lemma_visible(s, i + 1);
        } else {
            assert(s.contains(s[i]));
        }
    }
}

proof fn lemma_entry_visible(cfg: ConfigView, clients: Seq<Client>, ws: Str, e: Str)
    ensures
        match visible_from(placed(cfg, clients, ws, entry_names_of(cfg, ws), e), 0) {
            Some(c) => is_visible(cfg, clients, ws, e, c),
            None => forall|c: Client| !#[trigger] is_visible(cfg, clients, ws, e, c),
        },
{
    let s = placed(cfg, clients, ws, entry_names_of(cfg, ws), e);
    law_placed(cfg, clients, ws, e);
    lemma_visible(s, 0);
    if visible_from(s, 0) is None {
        assert forall|c: Client| !#[trigger] is_visible(cfg, clients, ws, e, c) by {
            if is_visible(cfg, clients, ws, e, c) {
                assert(s.contains(c));
                let k = choose|k: int| 0 <= k < s.len() && s[k] == c;
                assert(on_hidden(s[k]));
            }
        }
    }
}

/// The address is that of a visible window of the entry.
pub open spec fn shows_entry(cfg: ConfigView, clients: Seq<Client>, ws: Str, e: Str, a: Str) -> bool {
    exists|c: Client| #[trigger] is_visible(cfg, clients, ws, e, c) && c.address@ == a
}

proof fn lemma_next_window(cfg: ConfigView, clients: Seq<Client>, ws: Str, at: int, k: int)
    requires
        0 <= at < entry_names_of(cfg, ws).len(),
        1 <= k,
    ensures
        ({
            let names = entry_names_of(cfg, ws);
            match next_window_from(cfg, clients, ws, names, at, k) {
                Some(a) => exists|j: int|
                    k <= j < names.len() && shows_entry(cfg, clients, ws, #[trigger] after_entry(names, at, j), a) && forall|
                        i: int,
                        c: Client,
                    |
                        k <= i < j ==> !#[trigger] is_visible(cfg, clients, ws, after_entry(names, at, i), c),
                None => forall|i: int, c: Client|
                    k <= i < names.len() ==> !#[trigger] is_visible(cfg, clients, ws, after_entry(names, at, i), c),
            }
        }),
    decreases entry_names_of(cfg, ws).len() - k,
{
    let names = entry_names_of(cfg, ws);
    let n = names.len() as int;
    if k < n {
        let e = names[(at + k) % n];
        if at + k < n {
            assert((at + k) % n == at + k) by (nonlinear_arith)
                requires
                    0 <= at + k < n,
            ;
        } else {
            assert((at + k) % n == at + k - n) by (nonlinear_arith)
                requires
                    0 <= at + k - n < n,
                    n > 0,
            ;
        }
        assert(e == after_entry(names, at, k));
        lemma_entry_visible(cfg, clients, ws, e);
        if let Some(c) = visible_from(placed(cfg, clients, ws, names, e), 0) {
            assert(is_visible(cfg, clients, ws, e, c));
            assert(shows_entry(cfg, clients, ws, after_entry(names, at, k), c.address@));
        } else {
            lemma_next_window(cfg, clients, ws, at, k + 1);
            if let Some(a) = next_window_from(cfg, clients, ws, names, at, k + 1) {
                let j = choose|j: int|
                    k + 1 <= j < names.len() && shows_entry(cfg, clients, ws, #[trigger] after_entry(names, at, j), a)
                        && forall|i: int, c: Client|
                        k + 1 <= i < j ==> !#[trigger] is_visible(cfg, clients, ws, after_entry(names, at, i), c);
                assert(shows_entry(cfg, clients, ws, after_entry(names, at, j), a));
            }
        }
    }
}

/// The next application is the first of the entries after that of the application, round and round, that has a visible
/// window, and its window is a visible one of it. There is none exactly where no other entry has one.
pub proof fn law_next_app(cfg: ConfigView, clients: Seq<Client>, ws: Str, app: Str, at: int)
    requires
        0 <= at < entry_names_of(cfg, ws).len(),
        entry_names_of(cfg, ws)[at] == app,
        forall|i: int| 0 <= i < at ==> #[trigger] entry_names_of(cfg, ws)[i] != app,
    ensures
        ({
            let names = entry_names_of(cfg, ws);
            match next_window_of(cfg, clients, ws, app) {
                Some(a) => exists|j: int|
                    1 <= j < names.len() && shows_entry(cfg, clients, ws, #[trigger] after_entry(names, at, j), a) && forall|
                        i: int,
                        c: Client,
                    |
                        1 <= i < j ==> !#[trigger] is_visible(cfg, clients, ws, after_entry(names, at, i), c),
                None => forall|i: int, c: Client|
                    1 <= i < names.len() ==> !#[trigger] is_visible(cfg, clients, ws, after_entry(names, at, i), c),
            }
        }),
{
    let names = entry_names_of(cfg, ws);
    lemma_found(names, app, 0);
    let k = find_in(names, app, 0);
    if k > at {
        assert(names[at] != app);
    }
    lemma_next_window(cfg, clients, ws, at, 1);
}

// ---- The press --------------------------------------------------------------------------

/// A press of the key in a workspace starts the application exactly where no window of it is there, does nothing exactly
/// where all of them are hidden, and else shows a window. Where places are not exchanged, nothing is moved: a
/// window gets the focus and comes to the top, or the application is started at its place.
pub proof fn law_press(
    st: StateView,
    cfg: ConfigView,
    ws: Str,
    app: Str,
    start: Start,
    clients: Seq<Client>,
    active: Option<Str>,
    n: u8,
)
    ensures
        ({
            let (t, act) = st.cycled(cfg, ws, app, start, clients, active, n);
            let any = exists|c: Client| #[trigger] clients.contains(c) && places(cfg, ws, app, c);
            let visible = exists|c: Client| #[trigger] is_visible(cfg, clients, ws, app, c);
            &&& act is Launch <==> !any
            &&& act is Nothing <==> any && !visible
            &&& act is Show <==> visible
            &&& cfg.app_mode(ws, app) != Mode::Swap ==> match act {
                CycleActView::Launch(ex, target) => ex.len() == 0 && target == match t.place(cfg, ws, app) {
                    Some(r) => Target::Place(r),
                    None => Target::Free(None),
                },
                CycleActView::Show(ex) => exists|a: Str| ex == seq![#[trigger] focus_of(a), top_text()],
                CycleActView::Nothing => true,
            }
        }),
{
    let wins = placed(cfg, clients, ws, entry_names_of(cfg, ws), app);
    let order = walk_order(cfg, clients, ws, app);
    let (one, step) = st.walked(cfg, ws, app, start, clients, active, n);
    law_walk_order(cfg, clients, ws, app);
    law_placed(cfg, clients, ws, app);
    if wins.len() > 0 {
        assert(wins.contains(wins[0]));
    }
    if exists|c: Client| #[trigger] clients.contains(c) && places(cfg, ws, app, c) {
        let c = choose|c: Client| #[trigger] clients.contains(c) && places(cfg, ws, app, c);
        assert(wins.contains(c));
    }
    if exists|c: Client| #[trigger] is_visible(cfg, clients, ws, app, c) {
        let c = choose|c: Client| #[trigger] is_visible(cfg, clients, ws, app, c);
        assert(clients.contains(c) && places(cfg, ws, app, c));
    }
    if let Some(s) = step {
        match s {
            CycleStepView::Select(a) => {
                law_choose_moves_nothing(one, cfg, ws, a, clients, n);
            },
            CycleStepView::Back(a) => {
                law_choose_moves_nothing(one, cfg, ws, a, clients, n);
            },
            CycleStepView::NextApp(a) => {
                law_choose_moves_nothing(one, cfg, ws, a, clients, n);
            },
            CycleStepView::Launch => {},
        }
    }
}

/// Where places are not exchanged, the press leads from each window of the walk to the one after it, and a walk that
/// begins, or stands elsewhere, leads to the first.
pub proof fn law_press_goes_on(
    st: StateView,
    cfg: ConfigView,
    ws: Str,
    app: Str,
    start: Start,
    clients: Seq<Client>,
    active: Option<Str>,
    n: u8,
)
    requires
        cfg.app_mode(ws, app) != Mode::Swap,
        walk_order(cfg, clients, ws, app).no_duplicates(),
    ensures
        ({
            let order = walk_order(cfg, clients, ws, app);
            let act = st.cycled(cfg, ws, app, start, clients, active, n).1;
            &&& forall|i: int|
                0 <= i < order.len() - 1 && start == Start::Continue && active == Some(#[trigger] order[i]) ==> act
                    == CycleActView::Show(seq![focus_of(order[i + 1]), top_text()])
            &&& order.len() > 0 && (start != Start::Continue || active is None || !order.contains(active->0)) ==> act
                == CycleActView::Show(seq![focus_of(order[0]), top_text()])
        }),
{
    let order = walk_order(cfg, clients, ws, app);
    let (one, step) = st.walked(cfg, ws, app, start, clients, active, n);
    let entry = entry_name(cfg, ws, app);
    let next = next_window_of(cfg, clients, ws, entry);
    law_walk_order(cfg, clients, ws, app);
    if order.len() > 0 {
        law_walk_begins(order, active, start != Start::Continue, prev_of(one, ws, app, clients), next);
        law_choose_moves_nothing(one, cfg, ws, order[0], clients, n);
        assert forall|i: int| 0 <= i < order.len() - 1 && start == Start::Continue && active == Some(#[trigger] order[i]) implies st.cycled(
            cfg,
            ws,
            app,
            start,
            clients,
            active,
            n,
        ).1 == CycleActView::Show(seq![focus_of(order[i + 1]), top_text()]) by {
            law_walk_visits_each(order, i, prev_of(one, ws, app, clients), next);
            law_choose_moves_nothing(one, cfg, ws, order[i + 1], clients, n);
        }
    }
}

/// The active window where the walk leads over it, else the first one of the walk.
pub open spec fn restart_at(order: Seq<Str>, active: Option<Str>) -> Str {
    if active is Some && order.contains(active->0) {
        active->0
    } else {
        order[0]
    }
}

/// The act chooses a window with the exchange of places.
pub open spec fn exchanges(
    s: StateView,
    cfg: ConfigView,
    ws: Str,
    a: Str,
    clients: Seq<Client>,
    n: u8,
    t: StateView,
    act: CycleActView,
) -> bool {
    let (u, ex) = s.selected(cfg, ws, a, clients, true, n);
    t == u && act == CycleActView::Show(ex)
}

/// Where places are exchanged, the press on an application that is not the main one chooses with the exchange: the
/// active window where it is one of the walk, else the first. A press that opened or pulled the application in
/// chooses the first window without.
pub proof fn law_press_exchanges(
    st: StateView,
    cfg: ConfigView,
    ws: Str,
    app: Str,
    start: Start,
    clients: Seq<Client>,
    active: Option<Str>,
    n: u8,
)
    requires
        cfg.app_mode(ws, app) == Mode::Swap,
        walk_order(cfg, clients, ws, app).len() > 0,
    ensures
        ({
            let order = walk_order(cfg, clients, ws, app);
            let (t, act) = st.cycled(cfg, ws, app, start, clients, active, n);
            let before = st.absorbed(cfg, ws, n, clients).built(cfg, ws);
            let a = restart_at(order, active);
            &&& start == Start::Joined ==> act == CycleActView::Show(seq![focus_of(order[0]), top_text()])
            &&& start != Start::Joined && before.main_in(cfg, ws) != Some(entry_name(cfg, ws, app)) ==> exists|s: StateView|
                s == (StateView { cycle: s.cycle, ..before }) && #[trigger] exchanges(s, cfg, ws, a, clients, n, t, act)
        }),
{
    let order = walk_order(cfg, clients, ws, app);
    let (one, step) = st.walked(cfg, ws, app, start, clients, active, n);
    let before = st.absorbed(cfg, ws, n, clients).built(cfg, ws);
    let is_main = before.main_in(cfg, ws) == Some(entry_name(cfg, ws, app));
    law_restart(order, active, is_main);
    law_walk_begins(
        order,
        active,
        start != Start::Continue,
        prev_of(one, ws, app, clients),
        next_window_of(cfg, clients, ws, entry_name(cfg, ws, app)),
    );
    law_choose_moves_nothing(one, cfg, ws, order[0], clients, n);
    assert(one == (StateView { cycle: one.cycle, ..before }));
    let (t, act) = st.cycled(cfg, ws, app, start, clients, active, n);
    if start != Start::Joined && !is_main {
        let a = restart_at(order, active);
        assert(restart_of(order, active, is_main) == Some(a));
        assert(exchanges(one, cfg, ws, a, clients, n, t, act));
    }
}

/// Outside workspaces the key starts the application at its own place where it has no window; brings the first window
/// to the desktop and chooses it where all are hidden; and else chooses a visible window, after each one the next.
pub proof fn law_free_press(cfg: ConfigView, clients: Seq<Client>, active: Option<Str>, app: Str, n: u8)
    ensures
        ({
            let wins = windows_of(cfg, clients, app);
            let order = addresses(shown(wins));
            let act = free_walk(cfg, clients, active, app, n);
            &&& wins.len() == 0 ==> act == CycleActView::Launch(Seq::empty(), Target::Free(own_rect(cfg, app)))
            &&& wins.len() > 0 && order.len() == 0 ==> act == CycleActView::Show(
                seq![desk_move(wins[0].address@, n), focus_of(wins[0].address@), top_text()],
            )
            &&& order.len() > 0 && (active is None || !order.contains(active->0)) ==> act == CycleActView::Show(
                seq![focus_of(order[0]), top_text()],
            )
            &&& order.no_duplicates() ==> forall|i: int|
                0 <= i < order.len() && active == Some(#[trigger] order[i]) ==> act == CycleActView::Show(
                    seq![
                        focus_of(
                            if i + 1 < order.len() {
                                order[i + 1]
                            } else {
                                order[0]
                            },
                        ),
                        top_text(),
                    ],
                )
        }),
{
    let wins = windows_of(cfg, clients, app);
    let order = addresses(shown(wins));
    lemma_addresses(shown(wins));
    law_shown(wins);
    law_walk_begins(order, active, false, None, None);
    if wins.len() == 0 && shown(wins).len() > 0 {
        assert(shown(wins).contains(shown(wins)[0]));
    }
    if wins.len() > 0 {
        assert(seq![desk_move(wins[0].address@, n)] + focusing(wins[0].address@) =~= seq![
            desk_move(wins[0].address@, n),
            focus_of(wins[0].address@),
            top_text(),
        ]);
    }
    if order.no_duplicates() {
        assert forall|i: int| 0 <= i < order.len() && active == Some(#[trigger] order[i]) implies free_walk(
            cfg,
            clients,
            active,
            app,
            n,
        ) == CycleActView::Show(
            seq![
                focus_of(
                    if i + 1 < order.len() {
                        order[i + 1]
                    } else {
                        order[0]
                    },
                ),
                top_text(),
            ],
        ) by {
            law_walk_visits_each(order, i, None, None);
        }
    }
}

/// A start with the exchange of places in a workspace with a template: the entry is the main one afterwards. Without
/// the exchange nothing moves. Either way the window comes to the place that the application then has.
pub proof fn law_launched(st: StateView, cfg: ConfigView, ws: Str, app: Str, clients: Seq<Client>, n: u8, cell: Str)
    requires
        in_order(st),
        has_main_cell(cfg, ws, cell),
    ensures
        ({
            let (t, act) = st.launched(cfg, ws, app, clients, n);
            &&& act matches CycleActView::Launch(ex, target) && target == (match t.place(cfg, ws, app) {
                Some(r) => Target::Place(r),
                None => Target::Free(None),
            }) && (cfg.app_mode(ws, app) != Mode::Swap ==> ex.len() == 0 && t == st.built(cfg, ws))
            &&& cfg.app_mode(ws, app) == Mode::Swap ==> t.main_in(cfg, ws) == Some(entry_name(cfg, ws, app))
        }),
{
    law_takes_main_place(st, cfg, ws, entry_name(cfg, ws, app), cell, clients, n, Seq::empty());
    lemma_built(st, cfg, ws);
}

/// A new instance is always started. Outside workspaces, and in a workspace that does not describe the application, its
/// window goes to a free place: its place in the workspace where the configuration has that, else its own.
pub proof fn law_new_instance(
    st: StateView,
    cfg: ConfigView,
    ws: Option<Str>,
    app: Str,
    clients: Seq<Client>,
    active: Option<Str>,
    n: u8,
)
    ensures
        ({
            let (t, act) = st.opened_new(cfg, ws, app, clients, active, n);
            &&& act is Launch
            &&& ws is None ==> t == st && act == CycleActView::Launch(Seq::empty(), Target::Free(own_rect(cfg, app)))
            &&& ws matches Some(w) ==> !cfg.ws_has_app(w, app) ==> act == CycleActView::Launch(
                Seq::empty(),
                Target::Free(
                    if tab_has(cfg.workspaces, w) {
                        t.place(cfg, w, app)
                    } else {
                        own_rect(cfg, app)
                    },
                ),
            )
            &&& ws matches Some(w) ==> cfg.ws_has_app(w, app) && cfg.app_mode(w, app) != Mode::Swap ==> act
                == CycleActView::Launch(
                Seq::empty(),
                match t.place(cfg, w, app) {
                    Some(r) => Target::Place(r),
                    None => Target::Free(None),
                },
            )
        }),
{
}

} // verus!
