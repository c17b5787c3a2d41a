//! Records of the session, and windows that a workspace shares and captures.
use vstd::prelude::*;

use crate::config::ConfigView;
use crate::cycle::taken;
use crate::desktop::active_from;
use crate::extra::{
    drop_reason, full_record_from, going_upto, join_of, law_app_name_is_new, record_for, FreeView, JoinView,
};
use crate::home::entry_names_of;
use crate::hypr::{app_instance, app_of, has_ws, on_hidden, on_pool, Client};
use crate::laws::windows::{is_early, law_own, law_placed, lemma_push, places, would_place};
use crate::layout::{all_sorted, lemma_nest_put};
use crate::member::{
    addr_from, all_derived_upto, capture_of, derived, is_shared, is_stale, law_next_number, listed_upto, looks_like,
    one_is, parked_upto, shared_app_from, shared_from, stale_upto, unknown_upto, CaptureView,
};
use crate::raise::desk_of;
use crate::rect::{fits, PxRect};
use crate::route::entry_name;
use crate::state::{DesktopView, ExtraAppView, MovedView, StateView};
use crate::table::{nest_get, tab_get, tab_has};
use crate::text::Str;
use crate::windows::{fits_matcher, fitting_app, has_no_class, members, own_windows, placed};

verus! {

// ---- New windows --------------------------------------------------------------------------

/// What becomes of a new window. One without a class, one of a class to ignore and a dialog stay free. One that fits an
/// application is a window of it where no workspace is active or the active one describes it; where only the file
/// has the application, the workspace gets its place too. Any other becomes an application of the session, of its
/// own name only where it is the same program as the application that it fits, and else of a name that is not
/// taken; without a command, and without a workspace, it stays free.
pub proof fn law_join(cfg: ConfigView, file: ConfigView, ws: Option<Str>, c: Client, cmd: Seq<Str>, taken: Seq<Str>)
    ensures
        ({
            let fit = fitting_app(cfg, c);
            let out = has_no_class(c) || cfg.ignored_class(c.class@);
            let dialog = fit is Some && tab_get(cfg.apps, fit->0) is Some && tab_get(cfg.apps, fit->0)->0.is_dialog(c.title@);
            let open = !out && !dialog;
            let inside = fit is Some && (ws is None || cfg.ws_has_app(ws->0, fit->0));
            let j = join_of(cfg, file, ws, c, cmd, taken);
            &&& out ==> j == JoinView::Free(
                if has_no_class(c) {
                    FreeView::NoClass
                } else {
                    FreeView::Ignored
                },
            )
            &&& !out && dialog ==> j == JoinView::Free(FreeView::Dialog(fit->0))
            &&& open && inside ==> j == JoinView::App(fit->0)
            &&& open && !inside && fit is Some && tab_has(file.apps, fit->0) ==> j == JoinView::AppPlace(fit->0)
            &&& open && fit is None && ws is None ==> j == JoinView::Free(FreeView::NoWorkspace)
            &&& open && !inside && ws is Some && !(fit is Some && tab_has(file.apps, fit->0)) ==> {
                &&& cmd.len() == 0 ==> j == JoinView::Free(FreeView::NoCommand)
                &&& cmd.len() > 0 ==> (j matches JoinView::Extra(name) && (if fit is Some && tab_get(cfg.apps, fit->0) is Some
                    && tab_get(cfg.apps, fit->0)->0.cmd == Some(cmd[0]) {
                    name == fit->0
                } else {
                    !taken.contains(name)
                }))
            }
        }),
{
    law_app_name_is_new(c.class@, taken);
}

// ---- Records ------------------------------------------------------------------------------

/// A record of the session takes effect exactly where the file has its workspace, the workspace does not describe the
/// application, and the record has a command exactly where the file does not have the application.
pub proof fn law_record_counts(file: ConfigView, ws: Str, name: Str, e: ExtraAppView)
    ensures
        drop_reason(file, ws, name, e) is None <==> {
            let w = tab_get(file.workspaces, ws);
            &&& w is Some && !tab_has(w->0.apps, name)
            &&& e.cmd.len() > 0 <==> !tab_has(file.apps, name)
        },
{
}

proof fn lemma_full_record(extra: Seq<(Str, Seq<(Str, ExtraAppView)>)>, app: Str, i: int)
    requires
        0 <= i <= extra.len(),
    ensures
        match full_record_from(extra, app, i) {
            Some(e) => exists|k: int|
                i <= k < extra.len() && tab_get((#[trigger] extra[k]).1, app) == Some(e) && e.cmd.len() > 0,
            None => forall|k: int|
                i <= k < extra.len() ==> (tab_get((#[trigger] extra[k]).1, app) matches Some(e) ==> e.cmd.len() == 0),
        },
    decreases extra.len() - i,
{
    if i < extra.len() {
        if tab_get(extra[i].1, app) is Some && tab_get(extra[i].1, app)->0.cmd.len() > 0 {
            assert(tab_get(extra[i].1, app) is Some);
        } else {
            lemma_full_record(extra, app, i + 1);
            if let Some(e) = full_record_from(extra, app, i + 1) {
                let k = choose|k: int|
                    i + 1 <= k < extra.len() && tab_get((#[trigger] extra[k]).1, app) == Some(e) && e.cmd.len() > 0;
                assert(tab_get(extra[k].1, app) == Some(e));
            }
        }
    }
}

/// The record by which a workspace gets an application that it does not describe: with its place and nothing more where
/// the file has the application; else a copy, with the place, of a record of another workspace that has a command;
/// and none where there is neither.
pub proof fn law_record_for(file: ConfigView, extra: Seq<(Str, Seq<(Str, ExtraAppView)>)>, app: Str, rect: PxRect)
    ensures
        ({
            let full = |k: int| {
                let e = tab_get(extra[k].1, app);
                e is Some && e->0.cmd.len() > 0
            };
            match record_for(file, extra, app, rect) {
                Some(r) => {
                    &&& r.rect == rect
                    &&& tab_has(file.apps, app) ==> r.cmd.len() == 0
                    &&& !tab_has(file.apps, app) ==> exists|k: int|
                        0 <= k < extra.len() && #[trigger] full(k) && r == (ExtraAppView { rect, ..tab_get(extra[k].1, app)->0 })
                },
                None => !tab_has(file.apps, app) && forall|k: int| 0 <= k < extra.len() ==> !#[trigger] full(k),
            }
        }),
{
    let full = |k: int| {
        let e = tab_get(extra[k].1, app);
        e is Some && e->0.cmd.len() > 0
    };
    lemma_full_record(extra, app, 0);
    if let Some(e) = full_record_from(extra, app, 0) {
        let k = choose|k: int| 0 <= k < extra.len() && tab_get((#[trigger] extra[k]).1, app) == Some(e) && e.cmd.len() > 0;
        assert(full(k));
    }
}

proof fn lemma_going(extra: Seq<(Str, Seq<(Str, ExtraAppView)>)>, ws: Str, app: Str, everywhere: bool, n: int)
    requires
        0 <= n <= extra.len(),
    ensures
        forall|w: Str| #[trigger]
            going_upto(extra, ws, app, everywhere, n).contains(w) <==> (everywhere || w == ws) && exists|k: int|
                0 <= k < n && (#[trigger] extra[k]).0 == w && tab_has(extra[k].1, app),
    decreases n,
{
    if n > 0 {
        lemma_going(extra, ws, app, everywhere, n - 1);
        let a = going_upto(extra, ws, app, everywhere, n - 1);
        let b = going_upto(extra, ws, app, everywhere, n);
        assert forall|w: Str| #[trigger] b.contains(w) <==> (everywhere || w == ws) && exists|k: int|
            0 <= k < n && (#[trigger] extra[k]).0 == w && tab_has(extra[k].1, app) by {
            lemma_push(a, b, extra[n - 1].0, w);
            if a.contains(w) {
                let k = choose|k: int| 0 <= k < n - 1 && (#[trigger] extra[k]).0 == w && tab_has(extra[k].1, app);
                assert(extra[k].0 == w);
            }
            if exists|k: int| 0 <= k < n && (#[trigger] extra[k]).0 == w && tab_has(extra[k].1, app) {
                let k = choose|k: int| 0 <= k < n && (#[trigger] extra[k]).0 == w && tab_has(extra[k].1, app);
                assert(k < n - 1 || extra[n - 1].0 == w);
            }
        }
    }
}

/// The record of an application goes from the workspace that its window left; and with the last window of all, where that
/// record has a command, from every workspace that has one.
pub proof fn law_records_go(st: StateView, ws: Str, app: Str, last: bool)
    ensures
        ({
            let everywhere = last && nest_get(st.extra, ws, app) is Some && nest_get(st.extra, ws, app)->0.cmd.len() > 0;
            forall|w: Str| #[trigger]
                st.dropping(ws, app, last).contains(w) <==> (w == ws || everywhere) && exists|k: int|
                    0 <= k < st.extra.len() && (#[trigger] st.extra[k]).0 == w && tab_has(st.extra[k].1, app)
        }),
{
    lemma_going(st.extra, ws, app, st.goes_everywhere(ws, app, last), st.extra.len() as int);
}

/// A window owns the changed place of its entry after it took it only where no window owned it before; the rectangle
/// stays, and no other place changes.
pub proof fn law_claimed(st: StateView, cfg: ConfigView, ws: Str, app: Str, addr: Str)
    requires
        all_sorted(st.moved),
    ensures
        ({
            let t = st.claimed(cfg, ws, app, addr);
            let entry = entry_name(cfg, ws, app);
            let was = nest_get(st.moved, ws, entry);
            &&& t == (StateView { moved: t.moved, ..st })
            &&& forall|x: Str, y: Str| #[trigger]
                nest_get(t.moved, x, y) == if x == ws && y == entry && cfg.ws_entry(ws, app) is Some && was is Some && was->0.owner is None {
                    Some(MovedView { rect: was->0.rect, owner: Some(addr) })
                } else {
                    nest_get(st.moved, x, y)
                }
        }),
{
    if let Some((entry, _)) = cfg.ws_entry(ws, app) {
        if let Some(m) = nest_get(st.moved, ws, entry) {
            if m.owner is None {
                lemma_nest_put(st.moved, ws, entry, MovedView { rect: m.rect, owner: Some(addr) });
            }
        }
    }
}

// ---- Out of date --------------------------------------------------------------------------

proof fn lemma_stale(cfg: ConfigView, clients: Seq<Client>, n: int)
    requires
        0 <= n <= clients.len(),
    ensures
        forall|c: Client| #[trigger] stale_upto(cfg, clients, n).contains(c) <==> is_stale(cfg, c) && is_early(clients, n, c),
    decreases n,
{
    if n > 0 {
        lemma_stale(cfg, clients, n - 1);
        let a = stale_upto(cfg, clients, n - 1);
        let b = stale_upto(cfg, clients, n);
        assert forall|c: Client| #[trigger] b.contains(c) <==> is_stale(cfg, c) && is_early(clients, n, c) by {
            lemma_push(a, b, clients[n - 1], c);
            if is_early(clients, n - 1, c) {
                let i = choose|i: int| 0 <= i < n - 1 && #[trigger] clients[i] == c;
                assert(clients[i] == c);
            }
            if is_early(clients, n, c) {
                let i = choose|i: int| 0 <= i < n && #[trigger] clients[i] == c;
                if i < n - 1 {
                    assert(is_early(clients, n - 1, c));
                }
            } else {
                assert(clients[n - 1] != c);
            }
        }
    }
}

/// The windows that are set free are those whose tag names an application that the configuration does not have.
pub proof fn law_stale_windows(cfg: ConfigView, clients: Seq<Client>)
    ensures
        forall|c: Client| #[trigger]
            stale_upto(cfg, clients, clients.len() as int).contains(c) <==> clients.contains(c) && app_of(c) is Some && !tab_has(
                cfg.apps,
                app_of(c)->0,
            ),
{
    lemma_stale(cfg, clients, clients.len() as int);
    assert forall|c: Client| #[trigger] stale_upto(cfg, clients, clients.len() as int).contains(c) <==> clients.contains(c) && app_of(
        c,
    ) is Some && !tab_has(cfg.apps, app_of(c)->0) by {
        if clients.contains(c) {
            let i = choose|i: int| 0 <= i < clients.len() && clients[i] == c;
            assert(clients[i] == c);
        }
    }
}

proof fn lemma_unknown(cfg: ConfigView, apps: Seq<Str>, n: int)
    requires
        0 <= n <= apps.len(),
    ensures
        forall|a: Str| #[trigger]
            unknown_upto(cfg, apps, n).contains(a) <==> !tab_has(cfg.apps, a) && exists|i: int| 0 <= i < n && #[trigger] apps[i] == a,
    decreases n,
{
    if n > 0 {
        lemma_unknown(cfg, apps, n - 1);
        let p = unknown_upto(cfg, apps, n - 1);
        let r = unknown_upto(cfg, apps, n);
        assert forall|a: Str| #[trigger] r.contains(a) <==> !tab_has(cfg.apps, a) && exists|i: int|
            0 <= i < n && #[trigger] apps[i] == a by {
            lemma_push(p, r, apps[n - 1], a);
            if p.contains(a) {
                let i = choose|i: int| 0 <= i < n - 1 && #[trigger] apps[i] == a;
                assert(apps[i] == a);
            }
            if exists|i: int| 0 <= i < n && #[trigger] apps[i] == a {
                let i = choose|i: int| 0 <= i < n && #[trigger] apps[i] == a;
                assert(i < n - 1 || a == apps[n - 1]);
            }
        }
    }
}

/// The applications whose windows nobody waits for any more are those that the configuration does not have.
pub proof fn law_unknown(cfg: ConfigView, apps: Seq<Str>)
    ensures
        forall|a: Str| #[trigger]
            unknown_upto(cfg, apps, apps.len() as int).contains(a) <==> apps.contains(a) && !tab_has(cfg.apps, a),
{
    lemma_unknown(cfg, apps, apps.len() as int);
    assert forall|a: Str| #[trigger] unknown_upto(cfg, apps, apps.len() as int).contains(a) <==> apps.contains(a) && !tab_has(
        cfg.apps,
        a,
    ) by {
        if apps.contains(a) {
            let i = choose|i: int| 0 <= i < apps.len() && apps[i] == a;
            assert(apps[i] == a);
        }
    }
}

// ---- Derived membership -------------------------------------------------------------------

proof fn lemma_parked_kept(
    cfg: ConfigView,
    m: Map<u8, DesktopView>,
    c: Client,
    app: Str,
    list: Seq<Str>,
    n: int,
    acc: Seq<(Str, Str)>,
    x: (Str, Str),
)
    requires
        0 <= n <= list.len(),
    ensures
        parked_upto(cfg, m, c, app, list, n, acc).contains(x) <==> acc.contains(x) || x.0 == c.address@ && cfg.ws_has_app(x.1, app)
            && active_from(m, x.1, 0) is None && exists|i: int| 0 <= i < n && #[trigger] list[i] == x.1,
    decreases n,
{
    if n > 0 {
        lemma_parked_kept(cfg, m, c, app, list, n - 1, acc, x);
        let p = parked_upto(cfg, m, c, app, list, n - 1, acc);
        let r = parked_upto(cfg, m, c, app, list, n, acc);
        lemma_push(p, r, (c.address@, list[n - 1]), x);
        if exists|i: int| 0 <= i < n - 1 && #[trigger] list[i] == x.1 {
            let i = choose|i: int| 0 <= i < n - 1 && #[trigger] list[i] == x.1;
            assert(list[i] == x.1);
        }
        if exists|i: int| 0 <= i < n && #[trigger] list[i] == x.1 {
            let i = choose|i: int| 0 <= i < n && #[trigger] list[i] == x.1;
            assert(i < n - 1 || x.1 == list[n - 1]);
        }
    }
}

/// The window gets the workspace: it belongs to none, bears an application that the workspace describes, and stands on
/// the desktop where the workspace is active, or is parked while the workspace is active nowhere but listed.
pub open spec fn is_given(cfg: ConfigView, st: StateView, c: Client, ws: Str) -> bool {
    &&& !has_ws(c) && app_of(c) is Some && cfg.ws_has_app(ws, app_of(c)->0)
    &&& match desk_of(c) {
        Some(n) => st.active_on(n) == Some(ws),
        None => on_pool(c) && active_from(st.desktops, ws, 0) is None && listed_upto(st.desktops, 256).contains(ws),
    }
}

proof fn lemma_given(cfg: ConfigView, st: StateView, c: Client, acc: Seq<(Str, Str)>, x: (Str, Str))
    ensures
        derived(cfg, st, c, acc).contains(x) <==> acc.contains(x) || x.0 == c.address@ && is_given(cfg, st, c, x.1),
{
    let list = listed_upto(st.desktops, 256);
    let r = derived(cfg, st, c, acc);
    if !has_ws(c) && app_of(c) is Some {
        let app = app_of(c)->0;
        match desk_of(c) {
            Some(n) => {
                if let Some(w) = st.active_on(n) {
                    lemma_push(acc, r, (c.address@, w), x);
                }
            },
            None => {
                if on_pool(c) {
                    lemma_parked_kept(cfg, st.desktops, c, app, list, list.len() as int, acc, x);
                    if list.contains(x.1) {
                        let i = choose|i: int| 0 <= i < list.len() && list[i] == x.1;
                        assert(list[i] == x.1);
                    }
                }
            },
        }
    }
}

proof fn lemma_all_given(cfg: ConfigView, st: StateView, clients: Seq<Client>, n: int, x: (Str, Str))
    requires
        0 <= n <= clients.len(),
    ensures
        all_derived_upto(cfg, st, clients, n).contains(x) <==> exists|i: int|
            0 <= i < n && (#[trigger] clients[i]).address@ == x.0 && is_given(cfg, st, clients[i], x.1),
    decreases n,
{
    if n > 0 {
        lemma_all_given(cfg, st, clients, n - 1, x);
        lemma_given(cfg, st, clients[n - 1], all_derived_upto(cfg, st, clients, n - 1), x);
        if exists|i: int| 0 <= i < n - 1 && (#[trigger] clients[i]).address@ == x.0 && is_given(cfg, st, clients[i], x.1) {
            let i = choose|i: int|
                0 <= i < n - 1 && (#[trigger] clients[i]).address@ == x.0 && is_given(cfg, st, clients[i], x.1);
            assert(clients[i].address@ == x.0);
        }
        if exists|i: int| 0 <= i < n && (#[trigger] clients[i]).address@ == x.0 && is_given(cfg, st, clients[i], x.1) {
            let i = choose|i: int|
                0 <= i < n && (#[trigger] clients[i]).address@ == x.0 && is_given(cfg, st, clients[i], x.1);
            assert(i < n - 1 || clients[n - 1].address@ == x.0);
        }
    }
}

/// Exactly those windows get a workspace that are to get it, each of them every such workspace.
pub proof fn law_given(cfg: ConfigView, st: StateView, clients: Seq<Client>)
    ensures
        forall|addr: Str, ws: Str|
            #![trigger all_derived_upto(cfg, st, clients, clients.len() as int).contains((addr, ws))]
            all_derived_upto(cfg, st, clients, clients.len() as int).contains((addr, ws)) <==> exists|i: int|
                0 <= i < clients.len() && (#[trigger] clients[i]).address@ == addr && is_given(cfg, st, clients[i], ws),
{
    assert forall|addr: Str, ws: Str|
        #![trigger all_derived_upto(cfg, st, clients, clients.len() as int).contains((addr, ws))]
        all_derived_upto(cfg, st, clients, clients.len() as int).contains((addr, ws)) <==> exists|i: int|
            0 <= i < clients.len() && (#[trigger] clients[i]).address@ == addr && is_given(cfg, st, clients[i], ws) by {
        lemma_all_given(cfg, st, clients, clients.len() as int, (addr, ws));
    }
}

// ---- Sharing ------------------------------------------------------------------------------

/// The window may be shared by the entry: the entry would place it, it is not hidden, and it belongs to some workspace.
pub open spec fn may_share(cfg: ConfigView, clients: Seq<Client>, ws: Str, app: Str, c: Client) -> bool {
    clients.contains(c) && would_place(cfg, ws, app, c) && !on_hidden(c) && has_ws(c)
}

/// The `i`th window of the list has the address of one that the entry may share.
pub open spec fn shares(cfg: ConfigView, clients: Seq<Client>, ws: Str, x: (int, Str)) -> bool {
    exists|c: Client| #[trigger]
        may_share(cfg, clients, ws, x.1, c) && 0 <= x.0 < clients.len() && clients[x.0].address@ == c.address@
}

pub proof fn lemma_addr_at(clients: Seq<Client>, addr: Str, i: int)
    requires
        0 <= i <= clients.len(),
    ensures
        i <= addr_from(clients, addr, i) <= clients.len(),
        addr_from(clients, addr, i) < clients.len() ==> clients[addr_from(clients, addr, i)].address@ == addr,
        forall|k: int| i <= k < addr_from(clients, addr, i) ==> (#[trigger] clients[k]).address@ != addr,
    decreases clients.len() - i,
{
    if i < clients.len() && clients[i].address@ != addr {
        lemma_addr_at(clients, addr, i + 1);
    }
}

proof fn lemma_shared_one(
    cfg: ConfigView,
    clients: Seq<Client>,
    ws: Str,
    wins: Seq<Client>,
    app: Str,
    j: int,
    acc: Seq<(int, Str)>,
)
    requires
        0 <= j <= wins.len(),
        forall|k: int| 0 <= k < wins.len() ==> clients.contains(#[trigger] wins[k]) && would_place(cfg, ws, app, wins[k]),
    ensures
        ({
            let r = shared_app_from(clients, wins, app, j, acc);
            &&& acc.len() <= r.len()
            &&& forall|k: int| 0 <= k < acc.len() ==> #[trigger] r[k] == acc[k]
            &&& forall|k: int|
                acc.len() <= k < r.len() ==> (#[trigger] r[k]).1 == app && shares(cfg, clients, ws, r[k])
            &&& forall|k: int|
                j <= k < wins.len() && !on_hidden(#[trigger] wins[k]) && has_ws(wins[k]) ==> is_shared(
                    r,
                    addr_from(clients, wins[k].address@, 0),
                )
        }),
    decreases wins.len() - j,
{
    if j < wins.len() {
        let c = wins[j];
        let i = addr_from(clients, c.address@, 0);
        let r = shared_app_from(clients, wins, app, j, acc);
        lemma_addr_at(clients, c.address@, 0);
        assert(clients.contains(c));
        let p = choose|p: int| 0 <= p < clients.len() && clients[p] == c;
        assert(clients[p].address@ == c.address@);
        assert(i < clients.len());
        let fits = !on_hidden(c) && has_ws(c);
        let more = if fits && !is_shared(acc, i) {
            acc.push((i, app))
        } else {
            acc
        };
        lemma_shared_one(cfg, clients, ws, wins, app, j + 1, more);
        assert forall|k: int| 0 <= k < acc.len() implies #[trigger] r[k] == acc[k] by {
            assert(r[k] == more[k]);
        }
        if fits && !is_shared(acc, i) {
            assert(may_share(cfg, clients, ws, app, c));
            assert(r[acc.len() as int] == more[acc.len() as int]);
            let x = (i, app);
            assert(may_share(cfg, clients, ws, x.1, c) && clients[x.0].address@ == c.address@);
            assert(shares(cfg, clients, ws, x));
        }
        assert forall|k: int| j <= k < wins.len() && !on_hidden(#[trigger] wins[k]) && has_ws(wins[k]) implies is_shared(
            r,
            addr_from(clients, wins[k].address@, 0),
        ) by {
            if k == j {
                if is_shared(acc, i) {
                    let q = choose|q: int| 0 <= q < acc.len() && (#[trigger] acc[q]).0 == i;
                    assert(r[q].0 == i);
                } else {
                    assert(r[acc.len() as int].0 == i);
                }
            }
        }
    }
}

/// The entry lacks windows: none that it places is in the workspace.
pub open spec fn lacks(cfg: ConfigView, clients: Seq<Client>, ws: Str, app: Str) -> bool {
    forall|c: Client| #[trigger] clients.contains(c) ==> !places(cfg, ws, app, c)
}

proof fn lemma_shared_all(cfg: ConfigView, clients: Seq<Client>, ws: Str, i: int, acc: Seq<(int, Str)>)
    requires
        0 <= i <= entry_names_of(cfg, ws).len(),
    ensures
        ({
            let apps = entry_names_of(cfg, ws);
            let r = shared_from(cfg, clients, ws, apps, i, acc);
            &&& acc.len() <= r.len()
            &&& forall|k: int| 0 <= k < acc.len() ==> #[trigger] r[k] == acc[k]
            &&& forall|k: int|
                acc.len() <= k < r.len() ==> apps.contains((#[trigger] r[k]).1) && lacks(cfg, clients, ws, r[k].1) && shares(
                    cfg,
                    clients,
                    ws,
                    r[k],
                )
            &&& forall|m: int, c: Client|
                i <= m < apps.len() && lacks(cfg, clients, ws, apps[m]) && #[trigger] may_share(cfg, clients, ws, apps[m], c)
                    ==> is_shared(r, addr_from(clients, c.address@, 0))
        }),
    decreases entry_names_of(cfg, ws).len() - i,
{
    let apps = entry_names_of(cfg, ws);
    if i < apps.len() {
        let app = apps[i];
        let own = own_windows(cfg, clients, apps, app);
        let p = placed(cfg, clients, ws, apps, app);
        let r = shared_from(cfg, clients, ws, apps, i, acc);
        law_placed(cfg, clients, ws, app);
        law_own(cfg, clients, ws, app);
        assert(apps.contains(app));
        if p.len() > 0 {
            assert(p.contains(p[0]));
            assert(clients.contains(p[0]));
            lemma_shared_all(cfg, clients, ws, i + 1, acc);
        } else {
            assert(lacks(cfg, clients, ws, app)) by {
                assert forall|c: Client| #[trigger] clients.contains(c) implies !places(cfg, ws, app, c) by {
                    if places(cfg, ws, app, c) {
                        assert(p.contains(c));
                    }
                }
            }
            let more = shared_app_from(clients, own, app, 0, acc);
            assert forall|k: int| 0 <= k < own.len() implies clients.contains(#[trigger] own[k]) && would_place(cfg, ws, app, own[k]) by {
                assert(own.contains(own[k]));
            }
            lemma_shared_one(cfg, clients, ws, own, app, 0, acc);
            lemma_shared_all(cfg, clients, ws, i + 1, more);
            assert forall|k: int| 0 <= k < acc.len() implies #[trigger] r[k] == acc[k] by {
                assert(r[k] == more[k]);
            }
            assert forall|k: int| acc.len() <= k < r.len() implies apps.contains((#[trigger] r[k]).1) && lacks(
                cfg,
                clients,
                ws,
                r[k].1,
            ) && shares(cfg, clients, ws, r[k]) by {
                if k < more.len() {
                    assert(r[k] == more[k]);
                }
            }
            assert forall|m: int, c: Client|
                i <= m < apps.len() && lacks(cfg, clients, ws, apps[m]) && #[trigger] may_share(cfg, clients, ws, apps[m], c) implies is_shared(
                r,
                addr_from(clients, c.address@, 0),
            ) by {
                if m == i {
                    assert(own.contains(c));
                    let k = choose|k: int| 0 <= k < own.len() && own[k] == c;
                    assert(!on_hidden(own[k]));
                    let q = choose|q: int| 0 <= q < more.len() && (#[trigger] more[q]).0 == addr_from(clients, c.address@, 0);
                    assert(r[q].0 == addr_from(clients, c.address@, 0));
                }
            }
        }
    }
}

/// A workspace shares windows for exactly those of its entries that lack windows in it: all windows of other workspaces
/// that the entry would place and that are not hidden, and no other window.
pub proof fn law_shared_windows(cfg: ConfigView, clients: Seq<Client>, ws: Str)
    ensures
        ({
            let apps = entry_names_of(cfg, ws);
            let r = shared_from(cfg, clients, ws, apps, 0, Seq::empty());
            &&& forall|k: int|
                0 <= k < r.len() ==> apps.contains((#[trigger] r[k]).1) && lacks(cfg, clients, ws, r[k].1) && shares(
                    cfg,
                    clients,
                    ws,
                    r[k],
                )
            &&& forall|m: int, c: Client|
                0 <= m < apps.len() && lacks(cfg, clients, ws, apps[m]) && #[trigger] may_share(cfg, clients, ws, apps[m], c)
                    ==> is_shared(r, addr_from(clients, c.address@, 0))
        }),
{
    lemma_shared_all(cfg, clients, ws, 0, Seq::empty());
}

// ---- Capturing ----------------------------------------------------------------------------

proof fn lemma_one_is(cfg: ConfigView, apps: Seq<Str>, own: Str, i: int)
    requires
        0 <= i <= apps.len(),
    ensures
        one_is(cfg, apps, own, i) <==> exists|k: int| i <= k < apps.len() && cfg.app_is(own, #[trigger] apps[k]),
    decreases apps.len() - i,
{
    if i < apps.len() {
        lemma_one_is(cfg, apps, own, i + 1);
        if one_is(cfg, apps, own, i + 1) {
            let k = choose|k: int| i + 1 <= k < apps.len() && cfg.app_is(own, #[trigger] apps[k]);
            assert(cfg.app_is(own, apps[k]));
        }
    }
}

proof fn lemma_looks(looks: Seq<(Str, Str, Option<Str>)>, c: Client, i: int)
    requires
        0 <= i <= looks.len(),
    ensures
        match looks_like(looks, c, i) {
            Some(a) => exists|k: int|
                i <= k < looks.len() && (#[trigger] looks[k]).0 == a && fits_matcher(Some(looks[k].1), looks[k].2, c) && forall|j: int|
                    i <= j < k ==> !fits_matcher(Some((#[trigger] looks[j]).1), looks[j].2, c),
            None => forall|k: int| i <= k < looks.len() ==> !fits_matcher(Some((#[trigger] looks[k]).1), looks[k].2, c),
        },
    decreases looks.len() - i,
{
    if i < looks.len() {
        if fits_matcher(Some(looks[i].1), looks[i].2, c) {
            assert(looks[i].0 == looks[i].0);
        } else {
            lemma_looks(looks, c, i + 1);
            if let Some(a) = looks_like(looks, c, i + 1) {
                let k = choose|k: int|
                    i + 1 <= k < looks.len() && (#[trigger] looks[k]).0 == a && fits_matcher(Some(looks[k].1), looks[k].2, c)
                        && forall|j: int|
                        i + 1 <= j < k ==> !fits_matcher(Some((#[trigger] looks[j]).1), looks[j].2, c);
                assert(looks[k].0 == a);
            }
        }
    }
}

/// What becomes of a window when windows of applications are captured. A hidden one is left alone. One that bears an
/// application of the configuration keeps its tag, and is captured only for its workspaces: where these are asked
/// for, it belongs to none, and its application is one of those at hand. One of a class to ignore is left alone.
/// Another is captured under the first application that it looks like, with a number that no window bears.
pub proof fn law_capture(
    cfg: ConfigView,
    c: Client,
    i: int,
    apps: Seq<Str>,
    looks: Seq<(Str, Str, Option<Str>)>,
    members: bool,
    used: Seq<(Str, nat)>,
)
    ensures
        ({
            let (own, num) = match app_instance(c) {
                Some((a, k)) => (Some(a), k),
                None => (None, 0),
            };
            let borne = own is Some && tab_has(cfg.apps, own->0);
            let x = capture_of(cfg, c, i, apps, looks, members, used);
            let fits = |k: int| fits_matcher(Some(looks[k].1), looks[k].2, c);
            &&& on_hidden(c) ==> x is None
            &&& !on_hidden(c) && borne ==> if members && !has_ws(c) && exists|k: int|
                0 <= k < apps.len() && cfg.app_is(own->0, #[trigger] apps[k]) {
                x == Some(CaptureView { idx: i, app: own->0, num, retag: false })
            } else {
                x is None
            }
            &&& !on_hidden(c) && !borne && cfg.ignored_class(c.class@) ==> x is None
            &&& !on_hidden(c) && !borne && !cfg.ignored_class(c.class@) ==> match x {
                Some(y) => y.idx == i && y.retag && !used.contains((y.app, y.num)) && exists|k: int|
                    0 <= k < looks.len() && #[trigger] fits(k) && looks[k].0 == y.app && forall|j: int| 0 <= j < k ==> !#[trigger] fits(j),
                None => forall|k: int| 0 <= k < looks.len() ==> !#[trigger] fits(k),
            }
        }),
{
    let fits = |k: int| fits_matcher(Some(looks[k].1), looks[k].2, c);
    lemma_looks(looks, c, 0);
    if let Some((own, _)) = app_instance(c) {
        lemma_one_is(cfg, apps, own, 0);
    }
    if let Some(a) = looks_like(looks, c, 0) {
        law_next_number(used, a);
        let k = choose|k: int|
            0 <= k < looks.len() && (#[trigger] looks[k]).0 == a && fits_matcher(Some(looks[k].1), looks[k].2, c) && forall|j: int|
                0 <= j < k ==> !fits_matcher(Some((#[trigger] looks[j]).1), looks[j].2, c);
        assert(fits(k));
        assert forall|j: int| 0 <= j < k implies !#[trigger] fits(j) by {
            assert(looks[j] == looks[j]);
        }
    } else {
        assert forall|k: int| 0 <= k < looks.len() implies !#[trigger] fits(k) by {
            assert(looks[k] == looks[k]);
        }
    }
}

} // verus!
