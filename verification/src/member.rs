//! Which windows belong to which workspaces: what is out of date, what is captured, what is shared.
use vstd::prelude::*;

use crate::config::{Config, ConfigView};
use crate::desks::desk_get;
use crate::desktop::{active_desktop_of, active_from};
use crate::hypr::{app_instance, app_of, derefs, desk_number, has_ws, on_hidden, on_pool, ws_list, Client};
use crate::layout::pairs_view;
use crate::lookup::ws_has_app;
use crate::pattern::Pattern;
use crate::state::{DesktopView, State, StateView};
use crate::table::{tab_get, tab_has};
use crate::text::{add_name, add_names, ascending, name_put, names_with, oview, same, views, Str};
use crate::windows::{
    all_instances, app_windows_in, fits_matcher, matcher_fits, next_instance, next_number, own_windows, placed,
    placed_windows, used_instances, used_upto, used_view,
};

verus! {

broadcast use {crate::text::group_views, crate::hypr::group_derefs};

// ---- Out of date --------------------------------------------------------------

/// The tag of the window names an application that the configuration does not have.
pub open spec fn is_stale(cfg: ConfigView, c: Client) -> bool {
    app_of(c) matches Some(a) && !tab_has(cfg.apps, a)
}

/// Those of the first `n` windows whose tag names an application that the configuration does not have.
pub open spec fn stale_upto(cfg: ConfigView, clients: Seq<Client>, n: int) -> Seq<Client>
    decreases n,
{
    if n <= 0 {
        Seq::empty()
    } else if is_stale(cfg, clients[n - 1]) {
        stale_upto(cfg, clients, n - 1).push(clients[n - 1])
    } else {
        stale_upto(cfg, clients, n - 1)
    }
}

/// The windows to set free: their tag names an application that the configuration does not have.
pub fn stale_tagged<'a>(cfg: &Config, clients: &'a [Client]) -> (r: Vec<&'a Client>)
    ensures
        derefs(r@) == stale_upto(cfg@, clients@, clients.len() as int),
{
    let mut out: Vec<&'a Client> = Vec::new();
    let mut i: usize = 0;
    while i < clients.len()
        invariant
            i <= clients.len(),
            derefs(out@) == stale_upto(cfg@, clients@, i as int),
        decreases clients.len() - i,
    {
        let c = &clients[i];
        if let Some(a) = c.app() {
            if !cfg.apps.contains_key(a.as_str()) {
                out.push(c);
            }
        }
        i = i + 1;
    }
    out
}

/// Those of the first `n` applications that the configuration does not have.
pub open spec fn unknown_upto(cfg: ConfigView, apps: Seq<Str>, n: int) -> Seq<Str>
    decreases n,
{
    if n <= 0 {
        Seq::empty()
    } else if tab_has(cfg.apps, apps[n - 1]) {
        unknown_upto(cfg, apps, n - 1)
    } else {
        unknown_upto(cfg, apps, n - 1).push(apps[n - 1])
    }
}

/// The applications whose windows nobody waits for any more: the configuration does not have them.
pub fn stale_pending(cfg: &Config, apps: &[String]) -> (r: Vec<String>)
    ensures
        views(r@) == unknown_upto(cfg@, views(apps@), apps.len() as int),
{
    let ghost s = views(apps@);
    let mut out: Vec<String> = Vec::new();
    let mut i: usize = 0;
    while i < apps.len()
        invariant
            i <= apps.len(),
            s == views(apps@),
            views(out@) == unknown_upto(cfg@, s, i as int),
        decreases apps.len() - i,
    {
        if !cfg.apps.contains_key(apps[i].as_str()) {
            out.push(apps[i].clone());
        }
        i = i + 1;
    }
    out
}

/// The window may belong to the workspace: the workspace describes its application.
pub open spec fn may_belong(cfg: ConfigView, c: Client, ws: Str) -> bool {
    app_of(c) matches Some(a) && cfg.ws_has_app(ws, a)
}

/// Those of the first `n` workspaces of a window that it must not belong to, after `acc`.
pub open spec fn wrong_upto(cfg: ConfigView, c: Client, list: Seq<Str>, n: int, acc: Seq<(Str, Str)>) -> Seq<(Str, Str)>
    decreases n,
{
    if n <= 0 {
        acc
    } else if may_belong(cfg, c, list[n - 1]) {
        wrong_upto(cfg, c, list, n - 1, acc)
    } else {
        wrong_upto(cfg, c, list, n - 1, acc).push((c.address@, list[n - 1]))
    }
}

/// The windows among the first `n` and the workspaces that they must not belong to.
pub open spec fn all_wrong_upto(cfg: ConfigView, clients: Seq<Client>, n: int) -> Seq<(Str, Str)>
    decreases n,
{
    if n <= 0 {
        Seq::empty()
    } else {
        let list = ws_list(clients[n - 1]);
        wrong_upto(cfg, clients[n - 1], list, list.len() as int, all_wrong_upto(cfg, clients, n - 1))
    }
}

fn push_wrong(cfg: &Config, c: &Client, out: Vec<(String, String)>) -> (r: Vec<(String, String)>)
    ensures
        pairs_view(r@) == wrong_upto(cfg@, *c, ws_list(*c), ws_list(*c).len() as int, pairs_view(out@)),
{
    let app = c.app();
    let list = c.workspaces();
    let ghost s = ws_list(*c);
    let mut v = out;
    let mut k: usize = 0;
    while k < list.len()
        invariant
            k <= list.len(),
            s == views(list@),
            oview(app) == app_of(*c),
            pairs_view(v@) == wrong_upto(cfg@, *c, s, k as int, pairs_view(out@)),
        decreases list.len() - k,
    {
        assert(s[k as int] == list@[k as int]@);
        let fits = match &app {
            Some(a) => ws_has_app(cfg, list[k].as_str(), a.as_str()),
            None => false,
        };
        if !fits {
            let ghost was = v@;
            v.push((c.address.clone(), list[k].clone()));
            proof {
                assert(pairs_view(v@) =~= pairs_view(was).push((c.address@, s[k as int])));
            }
        }
        k = k + 1;
    }
    v
}

/// The tags of workspaces to take off: a window and a workspace that does not describe its application.
pub fn stale_ws_tags(cfg: &Config, clients: &[Client]) -> (r: Vec<(String, String)>)
    ensures
        pairs_view(r@) == all_wrong_upto(cfg@, clients@, clients.len() as int),
{
    let mut out: Vec<(String, String)> = Vec::new();
    let mut i: usize = 0;
    proof {
        assert(pairs_view(out@) =~= Seq::empty());
    }
    while i < clients.len()
        invariant
            i <= clients.len(),
            pairs_view(out@) == all_wrong_upto(cfg@, clients@, i as int),
        decreases clients.len() - i,
    {
        out = push_wrong(cfg, &clients[i], out);
        i = i + 1;
    }
    out
}

proof fn lemma_wrong(cfg: ConfigView, c: Client, list: Seq<Str>, n: int, acc: Seq<(Str, Str)>, p: (Str, Str))
    requires
        0 <= n <= list.len(),
    ensures
        wrong_upto(cfg, c, list, n, acc).contains(p) <==> acc.contains(p) || (p.0 == c.address@ && !may_belong(
            cfg,
            c,
            p.1,
        ) && list.take(n).contains(p.1)),
    decreases n,
{
    if n > 0 {
        lemma_wrong(cfg, c, list, n - 1, acc, p);
        let w = wrong_upto(cfg, c, list, n - 1, acc);
        assert(list.take(n) =~= list.take(n - 1).push(list[n - 1]));
        lemma_push_contains(list.take(n - 1), list[n - 1], p.1);
        lemma_push_contains(w, (c.address@, list[n - 1]), p);
    } else {
        assert(list.take(0) =~= Seq::empty());
    }
}

proof fn lemma_push_contains<T>(s: Seq<T>, x: T, y: T)
    ensures
        s.push(x).contains(y) <==> s.contains(y) || x == y,
{
    if s.contains(y) {
        let i = choose|i: int| 0 <= i < s.len() && s[i] == y;
        assert(s.push(x)[i] == y);
    }
    if x == y {
        assert(s.push(x)[s.len() as int] == y);
    }
    if s.push(x).contains(y) {
        let i = choose|i: int| 0 <= i < s.push(x).len() && s.push(x)[i] == y;
        if i < s.len() {
            assert(s[i] == y);
        }
    }
}

proof fn lemma_all_wrong(cfg: ConfigView, clients: Seq<Client>, n: int, addr: Str, ws: Str)
    requires
        0 <= n <= clients.len(),
    ensures
        all_wrong_upto(cfg, clients, n).contains((addr, ws)) <==> exists|i: int|
            0 <= i < n && (#[trigger] clients[i]).address@ == addr && ws_list(clients[i]).contains(ws) && !may_belong(
                cfg,
                clients[i],
                ws,
            ),
    decreases n,
{
    if n > 0 {
        lemma_all_wrong(cfg, clients, n - 1, addr, ws);
        let c = clients[n - 1];
        let list = ws_list(c);
        lemma_wrong(cfg, c, list, list.len() as int, all_wrong_upto(cfg, clients, n - 1), (addr, ws));
        assert(list.take(list.len() as int) =~= list);
        if all_wrong_upto(cfg, clients, n).contains((addr, ws)) && !all_wrong_upto(cfg, clients, n - 1).contains(
            (addr, ws),
        ) {
            assert(clients[n - 1].address@ == addr);
        }
    }
}

/// A tag of a workspace is taken off exactly where a window bears it and the workspace does not describe
/// the application of the window.
pub proof fn law_stale_tags(cfg: ConfigView, clients: Seq<Client>, addr: Str, ws: Str)
    ensures
        all_wrong_upto(cfg, clients, clients.len() as int).contains((addr, ws)) <==> exists|i: int|
            0 <= i < clients.len() && (#[trigger] clients[i]).address@ == addr && ws_list(clients[i]).contains(ws)
                && !may_belong(cfg, clients[i], ws),
{
    lemma_all_wrong(cfg, clients, clients.len() as int, addr, ws);
}

// ---- Windows with an application but no workspace ------------------------------

/// The workspaces in the lists of the desktops below `k`, in ascending order.
pub open spec fn listed_upto(m: Map<u8, DesktopView>, k: int) -> Seq<Str>
    decreases k,
{
    if k <= 0 {
        Seq::empty()
    } else if m.contains_key((k - 1) as u8) {
        let w = m[(k - 1) as u8].workspaces;
        names_with(listed_upto(m, k - 1), w, w.len() as int)
    } else {
        listed_upto(m, k - 1)
    }
}

fn listed(st: &State) -> (r: Vec<String>)
    ensures
        views(r@) == listed_upto(st@.desktops, 256),
{
    let mut out: Vec<String> = Vec::new();
    let mut k: u16 = 0;
    while k < 256
        invariant
            k <= 256,
            ascending(views(out@)),
            views(out@) == listed_upto(st@.desktops, k as int),
        decreases 256 - k,
    {
        if let Some(d) = desk_get(&st.desktops, k as u8) {
            add_names(&mut out, d.workspaces.as_slice());
        }
        k = k + 1;
    }
    out
}

/// Those of the first `n` workspaces that are active nowhere and describe the application of the window,
/// after `acc`.
pub open spec fn parked_upto(
    cfg: ConfigView,
    m: Map<u8, DesktopView>,
    c: Client,
    app: Str,
    list: Seq<Str>,
    n: int,
    acc: Seq<(Str, Str)>,
) -> Seq<(Str, Str)>
    decreases n,
{
    if n <= 0 {
        acc
    } else if active_from(m, list[n - 1], 0) is None && cfg.ws_has_app(list[n - 1], app) {
        parked_upto(cfg, m, c, app, list, n - 1, acc).push((c.address@, list[n - 1]))
    } else {
        parked_upto(cfg, m, c, app, list, n - 1, acc)
    }
}

/// The workspaces that a window without any gets, after `acc`: the one active on its desktop, or those
/// that are active nowhere if the window is parked.
pub open spec fn derived(cfg: ConfigView, st: StateView, c: Client, acc: Seq<(Str, Str)>) -> Seq<(Str, Str)> {
    if has_ws(c) {
        acc
    } else {
        match app_of(c) {
            None => acc,
            Some(app) => match desk_number(c.workspace.name@) {
                Some(n) => match st.active_on(n) {
                    Some(w) => if cfg.ws_has_app(w, app) {
                        acc.push((c.address@, w))
                    } else {
                        acc
                    },
                    None => acc,
                },
                None => if on_pool(c) {
                    let list = listed_upto(st.desktops, 256);
                    parked_upto(cfg, st.desktops, c, app, list, list.len() as int, acc)
                } else {
                    acc
                },
            },
        }
    }
}

/// The workspaces that those of the first `n` windows get that have none.
pub open spec fn all_derived_upto(cfg: ConfigView, st: StateView, clients: Seq<Client>, n: int) -> Seq<(Str, Str)>
    decreases n,
{
    if n <= 0 {
        Seq::empty()
    } else {
        derived(cfg, st, clients[n - 1], all_derived_upto(cfg, st, clients, n - 1))
    }
}

fn push_parked(cfg: &Config, st: &State, c: &Client, app: &str, list: &[String], out: Vec<(String, String)>) -> (r: Vec<
    (String, String),
>)
    ensures
        pairs_view(r@) == parked_upto(
            cfg@,
            st@.desktops,
            *c,
            app@,
            views(list@),
            list.len() as int,
            pairs_view(out@),
        ),
{
    let ghost s = views(list@);
    let mut v = out;
    let mut k: usize = 0;
    while k < list.len()
        invariant
            k <= list.len(),
            s == views(list@),
            pairs_view(v@) == parked_upto(cfg@, st@.desktops, *c, app@, s, k as int, pairs_view(out@)),
        decreases list.len() - k,
    {
        assert(s[k as int] == list@[k as int]@);
        if active_desktop_of(st, list[k].as_str()).is_none() && ws_has_app(cfg, list[k].as_str(), app) {
            let ghost was = v@;
            v.push((c.address.clone(), list[k].clone()));
            proof {
                assert(pairs_view(v@) =~= pairs_view(was).push((c.address@, s[k as int])));
            }
        }
        k = k + 1;
    }
    v
}

fn push_derived(cfg: &Config, st: &State, c: &Client, list: &[String], out: Vec<(String, String)>) -> (r: Vec<
    (String, String),
>)
    requires
        views(list@) == listed_upto(st@.desktops, 256),
    ensures
        pairs_view(r@) == derived(cfg@, st@, *c, pairs_view(out@)),
{
    if c.has_ws() {
        return out;
    }
    let app = match c.app() {
        Some(a) => a,
        None => return out,
    };
    if let Some(n) = c.desktop() {
        let mut v = out;
        if let Some(w) = st.active_on(n) {
            if ws_has_app(cfg, w.as_str(), app.as_str()) {
                let ghost was = v@;
                let ghost text = w@;
                v.push((c.address.clone(), w));
                proof {
                    assert(pairs_view(v@) =~= pairs_view(was).push((c.address@, text)));
                }
            }
        }
        return v;
    }
    if c.on_pool() {
        return push_parked(cfg, st, c, app.as_str(), list, out);
    }
    out
}

/// The workspaces of windows that are tagged with an application but belong to none: a window on
/// a desktop gets the active workspace there, a parked one those of the lists that are active nowhere;
/// in either case only a workspace that describes its application. A window and a workspace.
pub fn derive_membership(cfg: &Config, st: &State, clients: &[Client]) -> (r: Vec<(String, String)>)
    ensures
        pairs_view(r@) == all_derived_upto(cfg@, st@, clients@, clients.len() as int),
{
    let list = listed(st);
    let mut out: Vec<(String, String)> = Vec::new();
    let mut i: usize = 0;
    proof {
        assert(pairs_view(out@) =~= Seq::empty());
    }
    while i < clients.len()
        invariant
            i <= clients.len(),
            views(list@) == listed_upto(st@.desktops, 256),
            pairs_view(out@) == all_derived_upto(cfg@, st@, clients@, i as int),
        decreases clients.len() - i,
    {
        out = push_derived(cfg, st, &clients[i], list.as_slice(), out);
        i = i + 1;
    }
    out
}

// ---- Sharing ------------------------------------------------------------------

/// The number from `i` on of the first window with an address; that of all windows where there is none.
pub open spec fn addr_from(clients: Seq<Client>, addr: Str, i: int) -> int
    decreases clients.len() - i,
{
    if i >= clients.len() {
        clients.len() as int
    } else if clients[i].address@ == addr {
        i
    } else {
        addr_from(clients, addr, i + 1)
    }
}

/// The number of the first window with an address; that of all windows where there is none.
pub fn find_addr(clients: &[Client], addr: &str) -> (r: usize)
    ensures
        r == addr_from(clients@, addr@, 0),
        r <= clients.len(),
        r < clients.len() ==> clients@[r as int].address@ == addr@,
{
    let mut i: usize = 0;
    while i < clients.len()
        invariant
            i <= clients.len(),
            addr_from(clients@, addr@, 0) == addr_from(clients@, addr@, i as int),
        decreases clients.len() - i,
    {
        if same(clients[i].address.as_str(), addr) {
            return i;
        }
        i = i + 1;
    }
    i
}

/// What a list of numbers of windows and applications says.
pub open spec fn shares_view(s: Seq<(usize, String)>) -> Seq<(int, Str)> {
    s.map_values(|e: (usize, String)| (e.0 as int, e.1@))
}

/// A window is in the plan.
pub open spec fn is_shared(s: Seq<(int, Str)>, i: int) -> bool {
    exists|k: int| 0 <= k < s.len() && (#[trigger] s[k]).0 == i
}

/// The plan with those of the windows from `j` on that belong to some workspace and are not hidden.
pub open spec fn shared_app_from(
    clients: Seq<Client>,
    wins: Seq<Client>,
    app: Str,
    j: int,
    acc: Seq<(int, Str)>,
) -> Seq<(int, Str)>
    decreases wins.len() - j,
{
    if j >= wins.len() {
        acc
    } else {
        let i = addr_from(clients, wins[j].address@, 0);
        if !on_hidden(wins[j]) && has_ws(wins[j]) && i < clients.len() && !is_shared(acc, i) {
            shared_app_from(clients, wins, app, j + 1, acc.push((i, app)))
        } else {
            shared_app_from(clients, wins, app, j + 1, acc)
        }
    }
}

/// The plan of the applications from `i` on that have no windows in the workspace.
pub open spec fn shared_from(
    cfg: ConfigView,
    clients: Seq<Client>,
    ws: Str,
    apps: Seq<Str>,
    i: int,
    acc: Seq<(int, Str)>,
) -> Seq<(int, Str)>
    decreases apps.len() - i,
{
    if i >= apps.len() {
        acc
    } else if placed(cfg, clients, ws, apps, apps[i]).len() > 0 {
        shared_from(cfg, clients, ws, apps, i + 1, acc)
    } else {
        shared_from(
            cfg,
            clients,
            ws,
            apps,
            i + 1,
            shared_app_from(clients, own_windows(cfg, clients, apps, apps[i]), apps[i], 0, acc),
        )
    }
}

fn has_share(v: &Vec<(usize, String)>, i: usize) -> (r: bool)
    ensures
        r == is_shared(shares_view(v@), i as int),
{
    let ghost s = shares_view(v@);
    let mut k: usize = 0;
    while k < v.len()
        invariant
            k <= v.len(),
            s == shares_view(v@),
            forall|x: int| 0 <= x < k ==> (#[trigger] s[x]).0 != i,
        decreases v.len() - k,
    {
        assert(s[k as int].0 == v@[k as int].0);
        if v[k].0 == i {
            return true;
        }
        k = k + 1;
    }
    false
}

fn share_app(clients: &[Client], wins: &Vec<&Client>, app: &str, acc: Vec<(usize, String)>) -> (r: Vec<(usize, String)>)
    ensures
        shares_view(r@) == shared_app_from(clients@, derefs(wins@), app@, 0, shares_view(acc@)),
{
    let ghost s = derefs(wins@);
    let ghost first = shares_view(acc@);
    let mut out = acc;
    let mut j: usize = 0;
    while j < wins.len()
        invariant
            j <= wins.len(),
            s == derefs(wins@),
            first == shares_view(acc@),
            shared_app_from(clients@, s, app@, 0, first) == shared_app_from(
                clients@,
                s,
                app@,
                j as int,
                shares_view(out@),
            ),
        decreases wins.len() - j,
    {
        let c = wins[j];
        assert(s[j as int] == *c);
        if !c.on_hidden() && c.has_ws() {
            let i: usize = find_addr(clients, c.address.as_str());
            if i < clients.len() && !has_share(&out, i) {
                let ghost was = out@;
                out.push((i, app.to_owned()));
                proof {
                    assert(shares_view(out@) =~= shares_view(was).push((i as int, app@)));
                }
            }
        }
        j = j + 1;
    }
    out
}

/// The windows of other workspaces that a workspace shares when it is raised: for an application without
/// windows in it, all windows of the application that belong to some workspace and are not hidden. The
/// number of a window in the list and the application of the workspace.
pub fn share_plan(cfg: &Config, clients: &[Client], ws: &str, apps: &[String]) -> (r: Vec<(usize, String)>)
    ensures
        shares_view(r@) == shared_from(cfg@, clients@, ws@, views(apps@), 0, Seq::empty()),
{
    let ghost s = views(apps@);
    let mut out: Vec<(usize, String)> = Vec::new();
    let mut i: usize = 0;
    proof {
        assert(shares_view(out@) =~= Seq::empty());
    }
    while i < apps.len()
        invariant
            i <= apps.len(),
            s == views(apps@),
            shared_from(cfg@, clients@, ws@, s, 0, Seq::empty()) == shared_from(
                cfg@,
                clients@,
                ws@,
                s,
                i as int,
                shares_view(out@),
            ),
        decreases apps.len() - i,
    {
        assert(s[i as int] == apps@[i as int]@);
        let wins = placed_windows(cfg, clients, ws, apps, apps[i].as_str());
        assert(derefs(wins@).len() == wins.len());
        if wins.len() == 0 {
            let own = app_windows_in(cfg, clients, apps, apps[i].as_str());
            out = share_app(clients, &own, apps[i].as_str(), out);
        }
        i = i + 1;
    }
    out
}

// ---- Capturing ----------------------------------------------------------------

/// A window to capture.
#[derive(Debug, PartialEq, Eq)]
pub struct Capture {
    /// The number of the window in the list.
    pub idx: usize,
    pub app: String,
    /// The number of the instance.
    pub num: u32,
    /// The window gets a new tag; else it keeps its own and only enters the workspace.
    pub retag: bool,
}

/// What a capture says.
pub struct CaptureView {
    pub idx: int,
    pub app: Str,
    pub num: nat,
    pub retag: bool,
}

impl View for Capture {
    type V = CaptureView;

    open spec fn view(&self) -> CaptureView {
        CaptureView { idx: self.idx as int, app: self.app@, num: self.num as nat, retag: self.retag }
    }
}

/// The variants and the families to try for the applications from `i` on, each in ascending order.
pub open spec fn tried_from(cfg: ConfigView, apps: Seq<Str>, i: int, variants: Seq<Str>, families: Seq<Str>) -> (
    Seq<Str>,
    Seq<Str>,
)
    decreases apps.len() - i,
{
    if i >= apps.len() {
        (variants, families)
    } else if !tab_has(cfg.apps, apps[i]) {
        tried_from(cfg, apps, i + 1, variants, families)
    } else if cfg.family_of(apps[i]) is Some {
        tried_from(cfg, apps, i + 1, name_put(variants, apps[i]), families)
    } else {
        let v = cfg.variants_upto(apps[i], cfg.apps.len() as int);
        tried_from(cfg, apps, i + 1, names_with(variants, v, v.len() as int), name_put(families, apps[i]))
    }
}

/// The fault of an application.
pub open spec fn app_fault(app: Str, e: Str) -> Str {
    "приложение "@ + app + ": "@ + e
}

/// What the windows of the applications from `i` on look like, after `acc`; the first fault where there
/// is one.
pub open spec fn looks_from(cfg: ConfigView, names: Seq<Str>, i: int, acc: Seq<(Str, Str, Option<Str>)>) -> Result<
    Seq<(Str, Str, Option<Str>)>,
    Str,
>
    decreases names.len() - i,
{
    if i >= names.len() {
        Ok(acc)
    } else {
        match tab_get(cfg.apps, names[i]) {
            None => looks_from(cfg, names, i + 1, acc),
            Some(a) => match a.matchers() {
                Err(e) => Err(app_fault(names[i], e)),
                Ok(None) => looks_from(cfg, names, i + 1, acc),
                Ok(Some((c, t))) => looks_from(cfg, names, i + 1, acc.push((names[i], c, t))),
            },
        }
    }
}

/// The first application from `i` on whose windows look like this one.
pub open spec fn looks_like(looks: Seq<(Str, Str, Option<Str>)>, c: Client, i: int) -> Option<Str>
    decreases looks.len() - i,
{
    if i >= looks.len() {
        None
    } else if fits_matcher(Some(looks[i].1), looks[i].2, c) {
        Some(looks[i].0)
    } else {
        looks_like(looks, c, i + 1)
    }
}

/// Those of the first `n` windows that are parked, or those that are not.
pub open spec fn parked(clients: Seq<Client>, pool: bool, n: int) -> Seq<int>
    decreases n,
{
    if n <= 0 {
        Seq::empty()
    } else if on_pool(clients[n - 1]) == pool {
        parked(clients, pool, n - 1).push(n - 1)
    } else {
        parked(clients, pool, n - 1)
    }
}

/// The order in which windows are tried: those on desktops before those that are parked.
pub open spec fn tried_order(clients: Seq<Client>) -> Seq<int> {
    parked(clients, false, clients.len() as int) + parked(clients, true, clients.len() as int)
}

/// The applications that are described, or their family.
pub open spec fn one_is(cfg: ConfigView, apps: Seq<Str>, own: Str, i: int) -> bool
    decreases apps.len() - i,
{
    if i >= apps.len() {
        false
    } else {
        cfg.app_is(own, apps[i]) || one_is(cfg, apps, own, i + 1)
    }
}

/// What becomes of one window: captured under its own tag, captured under a new one, or left alone.
pub open spec fn capture_of(
    cfg: ConfigView,
    c: Client,
    i: int,
    apps: Seq<Str>,
    looks: Seq<(Str, Str, Option<Str>)>,
    members: bool,
    used: Seq<(Str, nat)>,
) -> Option<CaptureView> {
    if on_hidden(c) {
        None
    } else if app_instance(c) matches Some((own, _)) && tab_has(cfg.apps, own) {
        let (own, num) = app_instance(c)->0;
        if members && !has_ws(c) && one_is(cfg, apps, own, 0) {
            Some(CaptureView { idx: i, app: own, num, retag: false })
        } else {
            None
        }
    } else if cfg.ignored_class(c.class@) {
        None
    } else {
        match looks_like(looks, c, 0) {
            None => None,
            Some(app) => Some(CaptureView { idx: i, app, num: next_number(used, app), retag: true }),
        }
    }
}

/// The plan of the windows from `k` on in the order given, after `acc`.
pub open spec fn captured_from(
    cfg: ConfigView,
    clients: Seq<Client>,
    order: Seq<int>,
    k: int,
    apps: Seq<Str>,
    looks: Seq<(Str, Str, Option<Str>)>,
    members: bool,
    used: Seq<(Str, nat)>,
    acc: Seq<CaptureView>,
) -> Seq<CaptureView>
    decreases order.len() - k,
{
    if k >= order.len() {
        acc
    } else {
        match capture_of(cfg, clients[order[k]], order[k], apps, looks, members, used) {
            None => captured_from(cfg, clients, order, k + 1, apps, looks, members, used, acc),
            Some(x) => captured_from(
                cfg,
                clients,
                order,
                k + 1,
                apps,
                looks,
                members,
                if x.retag {
                    used.push((x.app, x.num))
                } else {
                    used
                },
                acc.push(x),
            ),
        }
    }
}

/// The windows to capture for some applications, or the fault of an application.
pub open spec fn captures(cfg: ConfigView, clients: Seq<Client>, apps: Seq<Str>, members: bool) -> Result<
    Seq<CaptureView>,
    Str,
> {
    let (variants, families) = tried_from(cfg, apps, 0, Seq::empty(), Seq::empty());
    match looks_from(cfg, variants + families, 0, Seq::empty()) {
        Err(e) => Err(e),
        Ok(looks) => Ok(
            captured_from(
                cfg,
                clients,
                tried_order(clients),
                0,
                apps,
                looks,
                members,
                all_instances(clients, clients.len() as int),
                Seq::empty(),
            ),
        ),
    }
}

fn tried(cfg: &Config, apps: &[String]) -> (r: Vec<String>)
    ensures
        ({
            let t = tried_from(cfg@, views(apps@), 0, Seq::empty(), Seq::empty());
            views(r@) == t.0 + t.1
        }),
{
    let ghost s = views(apps@);
    let mut variants: Vec<String> = Vec::new();
    let mut families: Vec<String> = Vec::new();
    let mut i: usize = 0;
    while i < apps.len()
        invariant
            i <= apps.len(),
            s == views(apps@),
            ascending(views(variants@)),
            ascending(views(families@)),
            tried_from(cfg@, s, 0, Seq::empty(), Seq::empty()) == tried_from(
                cfg@,
                s,
                i as int,
                views(variants@),
                views(families@),
            ),
        decreases apps.len() - i,
    {
        let app = apps[i].as_str();
        assert(s[i as int] == app@);
        if cfg.apps.contains_key(app) {
            if cfg.family_of(app).is_some() {
                add_name(&mut variants, apps[i].clone());
            } else {
                add_name(&mut families, apps[i].clone());
                let v = cfg.variants_of(app);
                add_names(&mut variants, v.as_slice());
            }
        }
        i = i + 1;
    }
    let ghost v = views(variants@);
    let ghost f = views(families@);
    let mut k: usize = 0;
    while k < families.len()
        invariant
            k <= families.len(),
            f == views(families@),
            views(variants@) == v + f.take(k as int),
        decreases families.len() - k,
    {
        variants.push(families[k].clone());
        proof {
            assert(f.take(k + 1) =~= f.take(k as int).push(f[k as int]));
            assert(v + f.take(k + 1) =~= (v + f.take(k as int)).push(f[k as int]));
        }
        k = k + 1;
    }
    proof {
        assert(f.take(f.len() as int) =~= f);
    }
    variants
}

/// What the windows of an application look like.
struct Look {
    app: String,
    class: Pattern,
    title: Option<Pattern>,
}

impl View for Look {
    type V = (Str, Str, Option<Str>);

    closed spec fn view(&self) -> (Str, Str, Option<Str>) {
        (self.app@, self.class@, oview(self.title))
    }
}

fn make_app_fault(app: &str, e: &str) -> (r: String)
    ensures
        r@ == app_fault(app@, e@),
{
    let mut s = "приложение ".to_owned();
    s.append(app);
    s.append(": ");
    s.append(e);
    s
}

fn looks(cfg: &Config, names: &[String]) -> (r: Result<Vec<Look>, String>)
    ensures
        match r {
            Ok(v) => looks_from(cfg@, views(names@), 0, Seq::empty()) == Ok::<Seq<(Str, Str, Option<Str>)>, Str>(
                views(v@),
            ),
            Err(e) => looks_from(cfg@, views(names@), 0, Seq::empty()) == Err::<Seq<(Str, Str, Option<Str>)>, Str>(e@),
        },
{
    let ghost s = views(names@);
    let mut out: Vec<Look> = Vec::new();
    let mut i: usize = 0;
    while i < names.len()
        invariant
            i <= names.len(),
            s == views(names@),
            looks_from(cfg@, s, 0, Seq::empty()) == looks_from(cfg@, s, i as int, views(out@)),
        decreases names.len() - i,
    {
        assert(s[i as int] == names@[i as int]@);
        if let Some(a) = cfg.apps.get(names[i].as_str()) {
            match a.matchers() {
                Err(e) => {
                    return Err(make_app_fault(names[i].as_str(), e.as_str()));
                },
                Ok(None) => {},
                Ok(Some((class, title))) => {
                    out.push(Look { app: names[i].clone(), class, title });
                },
            }
        }
        i = i + 1;
    }
    Ok(out)
}

fn like(looks: &Vec<Look>, c: &Client) -> (r: Option<String>)
    ensures
        oview(r) == looks_like(views(looks@), *c, 0),
{
    let ghost s = views(looks@);
    let mut i: usize = 0;
    while i < looks.len()
        invariant
            i <= looks.len(),
            s == views(looks@),
            looks_like(s, *c, 0) == looks_like(s, *c, i as int),
        decreases looks.len() - i,
    {
        assert(s[i as int] == looks@[i as int]@);
        let title = match &looks[i].title {
            Some(t) => Some(t),
            None => None,
        };
        if matcher_fits(Some(&looks[i].class), title, c) {
            return Some(looks[i].app.clone());
        }
        i = i + 1;
    }
    None
}

/// What a list of numbers says.
spec fn ints(s: Seq<usize>) -> Seq<int> {
    s.map_values(|n: usize| n as int)
}

fn order_of(clients: &[Client]) -> (r: Vec<usize>)
    ensures
        ints(r@) == tried_order(clients@),
        forall|k: int| 0 <= k < r.len() ==> #[trigger] r@[k] < clients.len(),
        r.len() == clients.len(),
{
    let mut out: Vec<usize> = Vec::new();
    let mut i: usize = 0;
    proof {
        assert(ints(out@) =~= Seq::empty());
    }
    while i < clients.len()
        invariant
            i <= clients.len(),
            ints(out@) == parked(clients@, false, i as int),
            out.len() + parked(clients@, true, i as int).len() == i,
            forall|k: int| 0 <= k < out.len() ==> #[trigger] out@[k] < clients.len(),
        decreases clients.len() - i,
    {
        if !clients[i].on_pool() {
            let ghost was = out@;
            out.push(i);
            proof {
                assert(ints(out@) =~= ints(was).push(i as int));
            }
        }
        i = i + 1;
    }
    let ghost first = ints(out@);
    let mut j: usize = 0;
    proof {
        assert(first + Seq::empty() =~= first);
    }
    while j < clients.len()
        invariant
            j <= clients.len(),
            first == parked(clients@, false, clients.len() as int),
            out.len() == first.len() + parked(clients@, true, j as int).len(),
            ints(out@) == first + parked(clients@, true, j as int),
            forall|k: int| 0 <= k < out.len() ==> #[trigger] out@[k] < clients.len(),
        decreases clients.len() - j,
    {
        if clients[j].on_pool() {
            let ghost was = out@;
            out.push(j);
            proof {
                assert(ints(out@) =~= ints(was).push(j as int));
                assert(first + parked(clients@, true, j as int).push(j as int) =~= (first + parked(
                    clients@,
                    true,
                    j as int,
                )).push(j as int));
            }
        }
        j = j + 1;
    }
    out
}

fn any_is(cfg: &Config, apps: &[String], own: &str) -> (r: bool)
    ensures
        r == one_is(cfg@, views(apps@), own@, 0),
{
    let ghost s = views(apps@);
    let mut i: usize = 0;
    while i < apps.len()
        invariant
            i <= apps.len(),
            s == views(apps@),
            one_is(cfg@, s, own@, 0) == one_is(cfg@, s, own@, i as int),
        decreases apps.len() - i,
    {
        assert(s[i as int] == apps@[i as int]@);
        if cfg.app_is(own, apps[i].as_str()) {
            return true;
        }
        i = i + 1;
    }
    false
}

fn capture(
    cfg: &Config,
    c: &Client,
    i: usize,
    apps: &[String],
    looks: &Vec<Look>,
    members: bool,
    used: &mut Vec<(String, u32)>,
) -> (r: Option<Capture>)
    requires
        old(used).len() < u32::MAX,
    ensures
        oview(r) == capture_of(cfg@, *c, i as int, views(apps@), views(looks@), members, used_view(old(used)@)),
        used_view(final(used)@) == match r {
            Some(x) => if x.retag {
                used_view(old(used)@).push((x.app@, x.num as nat))
            } else {
                used_view(old(used)@)
            },
            None => used_view(old(used)@),
        },
{
    if c.on_hidden() {
        return None;
    }
    if let Some((own, num)) = c.app_instance() {
        if cfg.apps.contains_key(own.as_str()) {
            if members && !c.has_ws() && any_is(cfg, apps, own.as_str()) {
                return Some(Capture { idx: i, app: own, num, retag: false });
            }
            return None;
        }
    }
    if cfg.ignored_class(c.class.as_str()) {
        return None;
    }
    match like(looks, c) {
        None => None,
        Some(app) => {
            let num: u32 = next_instance(used, app.as_str());
            Some(Capture { idx: i, app, num, retag: true })
        },
    }
}

/// The windows to capture. A window is taken that is not hidden and looks like one of the applications or
/// a variant of one, with no tag or with that of an unknown application; variants are tried before
/// families, windows on desktops before parked ones. With `members` also a window that is tagged with one
/// of the applications but belongs to no workspace: it keeps its tag.
pub fn adopt_plan(cfg: &Config, clients: &[Client], apps: &[String], members: bool) -> (r: Result<Vec<Capture>, String>)
    requires
        2 * clients.len() < u32::MAX,
    ensures
        match r {
            Ok(v) => captures(cfg@, clients@, views(apps@), members) == Ok::<Seq<CaptureView>, Str>(views(v@)),
            Err(e) => captures(cfg@, clients@, views(apps@), members) == Err::<Seq<CaptureView>, Str>(e@),
        },
{
    let names = tried(cfg, apps);
    let seen = match looks(cfg, names.as_slice()) {
        Ok(v) => v,
        Err(e) => return Err(e),
    };
    let order = order_of(clients);
    let mut used = used_instances(clients);
    let ghost o = ints(order@);
    let ghost first = used_view(used@);
    let mut out: Vec<Capture> = Vec::new();
    let mut k: usize = 0;
    while k < order.len()
        invariant
            k <= order.len(),
            order.len() == clients.len(),
            2 * clients.len() < u32::MAX,
            used_view(used@).len() <= clients.len() + k,
            o == ints(order@),
            forall|x: int| 0 <= x < order.len() ==> #[trigger] order@[x] < clients.len(),
            captured_from(cfg@, clients@, o, 0, views(apps@), views(seen@), members, first, Seq::empty())
                == captured_from(
                cfg@,
                clients@,
                o,
                k as int,
                views(apps@),
                views(seen@),
                members,
                used_view(used@),
                views(out@),
            ),
        decreases order.len() - k,
    {
        let i: usize = order[k];
        assert(o[k as int] == i as int);
        assert(used_view(used@).len() == used.len());
        if let Some(x) = capture(cfg, &clients[i], i, apps, &seen, members, &mut used) {
            out.push(x);
        }
        k = k + 1;
    }
    Ok(out)
}

proof fn lemma_used_has(s: Seq<(Str, nat)>, app: Str, n: int, k: int)
    requires
        0 <= k < n <= s.len(),
        s[k].0 == app,
    ensures
        used_upto(s, app, n).contains(s[k].1),
    decreases n,
{
    if k == n - 1 {
        let u = used_upto(s, app, n - 1);
        lemma_push_contains(u, s[n - 1].1, s[k].1);
    } else {
        lemma_used_has(s, app, n - 1, k);
        if s[n - 1].0 == app {
            lemma_push_contains(used_upto(s, app, n - 1), s[n - 1].1, s[k].1);
        }
    }
}

/// The next number of an application is one that nobody uses.
pub proof fn law_next_number(used: Seq<(Str, nat)>, app: Str)
    ensures
        !used.contains((app, next_number(used, app))),
{
    let n = next_number(used, app);
    crate::windows::law_least_free(used_upto(used, app, used.len() as int));
    if used.contains((app, n)) {
        let k = choose|k: int| 0 <= k < used.len() && used[k] == (app, n);
        lemma_used_has(used, app, used.len() as int, k);
    }
}

/// The new numbers of a plan are in use, and no two of its new tags are the same.
spec fn numbered(plan: Seq<CaptureView>, used: Seq<(Str, nat)>) -> bool {
    &&& forall|i: int| 0 <= i < plan.len() && (#[trigger] plan[i]).retag ==> used.contains((plan[i].app, plan[i].num))
    &&& forall|i: int, j: int|
        0 <= i < j < plan.len() && (#[trigger] plan[i]).retag && (#[trigger] plan[j]).retag ==> (
        plan[i].app,
        plan[i].num,
    ) != (plan[j].app, plan[j].num)
}

/// No new tag of a plan is among the tags there were.
spec fn unlike_first(plan: Seq<CaptureView>, first: Seq<(Str, nat)>) -> bool {
    forall|i: int| 0 <= i < plan.len() && (#[trigger] plan[i]).retag ==> !first.contains((plan[i].app, plan[i].num))
}

proof fn lemma_numbered_push(acc: Seq<CaptureView>, used: Seq<(Str, nat)>, x: CaptureView, v: Seq<(Str, nat)>, first: Seq<(Str, nat)>)
    requires
        numbered(acc, used),
        unlike_first(acc, first),
        forall|p: (Str, nat)| first.contains(p) ==> #[trigger] used.contains(p),
        x.retag ==> !used.contains((x.app, x.num)),
        v == if x.retag {
            used.push((x.app, x.num))
        } else {
            used
        },
    ensures
        numbered(acc.push(x), v),
        unlike_first(acc.push(x), first),
        forall|p: (Str, nat)| first.contains(p) ==> #[trigger] v.contains(p),
{
    let b = acc.push(x);
    assert forall|p: (Str, nat)| used.contains(p) implies #[trigger] v.contains(p) by {
        lemma_push_contains(used, (x.app, x.num), p);
    }
    assert forall|i: int| 0 <= i < b.len() && (#[trigger] b[i]).retag implies v.contains((b[i].app, b[i].num)) by {
        if i < acc.len() {
            assert(acc[i].retag);
            assert(used.contains((acc[i].app, acc[i].num)));
        } else {
            lemma_push_contains(used, (x.app, x.num), (x.app, x.num));
        }
    }
    assert forall|i: int, j: int| 0 <= i < j < b.len() && (#[trigger] b[i]).retag && (#[trigger] b[j]).retag implies (
        b[i].app,
        b[i].num,
    ) != (b[j].app, b[j].num) by {
        assert(acc[i] == b[i]);
        if j == acc.len() {
            assert(used.contains((acc[i].app, acc[i].num)));
        } else {
            assert(acc[j] == b[j]);
        }
    }
    assert forall|i: int| 0 <= i < b.len() && (#[trigger] b[i]).retag implies !first.contains((b[i].app, b[i].num)) by {
        if i < acc.len() {
            assert(acc[i] == b[i]);
        } else if first.contains((x.app, x.num)) {
            assert(used.contains((x.app, x.num)));
        }
    }
}

/// The numbers in use at the end, where a plan is made from number `k` on.
proof fn lemma_captured(
    cfg: ConfigView,
    clients: Seq<Client>,
    order: Seq<int>,
    k: int,
    apps: Seq<Str>,
    looks: Seq<(Str, Str, Option<Str>)>,
    members: bool,
    used: Seq<(Str, nat)>,
    acc: Seq<CaptureView>,
    first: Seq<(Str, nat)>,
) -> (u: Seq<(Str, nat)>)
    requires
        0 <= k <= order.len(),
        numbered(acc, used),
        unlike_first(acc, first),
        forall|p: (Str, nat)| first.contains(p) ==> #[trigger] used.contains(p),
    ensures
        unlike_first(captured_from(cfg, clients, order, k, apps, looks, members, used, acc), first),
        numbered(captured_from(cfg, clients, order, k, apps, looks, members, used, acc), u),
    decreases order.len() - k,
{
    if k < order.len() {
        match capture_of(cfg, clients[order[k]], order[k], apps, looks, members, used) {
            None => lemma_captured(cfg, clients, order, k + 1, apps, looks, members, used, acc, first),
            Some(x) => {
                let v = if x.retag {
                    used.push((x.app, x.num))
                } else {
                    used
                };
                if x.retag {
                    law_next_number(used, x.app);
                }
                lemma_numbered_push(acc, used, x, v, first);
                lemma_captured(cfg, clients, order, k + 1, apps, looks, members, v, acc.push(x), first)
            },
        }
    } else {
        used
    }
}

/// No two windows captured at once get the same number of an instance of an application, and none gets
/// a number that a window bears.
pub proof fn law_captures_differ(cfg: ConfigView, clients: Seq<Client>, apps: Seq<Str>, members: bool)
    ensures
        captures(cfg, clients, apps, members) matches Ok(plan) ==> {
            &&& forall|i: int|
                0 <= i < plan.len() && (#[trigger] plan[i]).retag ==> !all_instances(
                    clients,
                    clients.len() as int,
                ).contains((plan[i].app, plan[i].num))
            &&& forall|i: int, j: int|
                0 <= i < j < plan.len() && (#[trigger] plan[i]).retag && (#[trigger] plan[j]).retag ==> (
                plan[i].app,
                plan[i].num,
                ) != (plan[j].app, plan[j].num)
        },
{
    let (variants, families) = tried_from(cfg, apps, 0, Seq::empty(), Seq::empty());
    let first = all_instances(clients, clients.len() as int);
    if let Ok(looks) = looks_from(cfg, variants + families, 0, Seq::empty()) {
        let u = lemma_captured(cfg, clients, tried_order(clients), 0, apps, looks, members, first, Seq::empty(), first);
        assert(numbered(captured_from(cfg, clients, tried_order(clients), 0, apps, looks, members, first, Seq::empty()), u));
    }
}

/// A pair says of a window without workspaces that it gets one which describes its application: the one
/// that is active on its desktop, or, where it is parked, one that is active nowhere.
pub open spec fn derivable(cfg: ConfigView, st: StateView, c: Client, e: (Str, Str)) -> bool {
    &&& e.0 == c.address@
    &&& !has_ws(c)
    &&& app_of(c) matches Some(app) && cfg.ws_has_app(e.1, app)
    &&& match desk_number(c.workspace.name@) {
        Some(n) => st.active_on(n) == Some(e.1),
        None => on_pool(c) && active_from(st.desktops, e.1, 0) is None,
    }
}

proof fn lemma_parked(cfg: ConfigView, m: Map<u8, DesktopView>, c: Client, app: Str, list: Seq<Str>, n: int, acc: Seq<(Str, Str)>)
    requires
        0 <= n <= list.len(),
    ensures
        ({
            let r = parked_upto(cfg, m, c, app, list, n, acc);
            &&& acc.len() <= r.len()
            &&& forall|k: int| 0 <= k < acc.len() ==> #[trigger] r[k] == acc[k]
            &&& forall|k: int|
                acc.len() <= k < r.len() ==> (#[trigger] r[k]).0 == c.address@ && active_from(m, r[k].1, 0) is None
                    && cfg.ws_has_app(r[k].1, app)
        }),
    decreases n,
{
    if n > 0 {
        lemma_parked(cfg, m, c, app, list, n - 1, acc);
    }
}

proof fn lemma_derived(cfg: ConfigView, st: StateView, clients: Seq<Client>, n: int)
    requires
        0 <= n <= clients.len(),
    ensures
        forall|k: int|
            0 <= k < all_derived_upto(cfg, st, clients, n).len() ==> exists|i: int|
                0 <= i < n && derivable(
                    cfg,
                    st,
                    #[trigger] clients[i],
                    #[trigger] all_derived_upto(cfg, st, clients, n)[k],
                ),
    decreases n,
{
    if n > 0 {
        lemma_derived(cfg, st, clients, n - 1);
        let acc = all_derived_upto(cfg, st, clients, n - 1);
        let r = all_derived_upto(cfg, st, clients, n);
        let c = clients[n - 1];
        let list = listed_upto(st.desktops, 256);
        if let Some(app) = app_of(c) {
            lemma_parked(cfg, st.desktops, c, app, list, list.len() as int, acc);
        }
        assert forall|k: int| 0 <= k < r.len() implies exists|i: int|
            0 <= i < n && derivable(cfg, st, #[trigger] clients[i], #[trigger] r[k]) by {
            if k < acc.len() {
                assert(r[k] == acc[k]);
                let i = choose|i: int| 0 <= i < n - 1 && derivable(cfg, st, #[trigger] clients[i], acc[k]);
                assert(derivable(cfg, st, clients[i], r[k]));
            } else {
                assert(derivable(cfg, st, clients[n - 1], r[k]));
            }
        }
    }
}

/// No window is given a workspace that does not describe its application, none that has workspaces is
/// given another, and a parked one comes to no workspace that is active.
pub proof fn law_derived_fits(cfg: ConfigView, st: StateView, clients: Seq<Client>, k: int)
    requires
        0 <= k < all_derived_upto(cfg, st, clients, clients.len() as int).len(),
    ensures
        exists|i: int|
            0 <= i < clients.len() && derivable(
                cfg,
                st,
                #[trigger] clients[i],
                all_derived_upto(cfg, st, clients, clients.len() as int)[k],
            ),
{
    lemma_derived(cfg, st, clients, clients.len() as int);
    assert(all_derived_upto(cfg, st, clients, clients.len() as int)[k] == all_derived_upto(
        cfg,
        st,
        clients,
        clients.len() as int,
    )[k]);
}

/// A plan names each window once, and only windows of the list.
pub open spec fn each_once(s: Seq<(int, Str)>, n: int) -> bool {
    &&& forall|k: int| 0 <= k < s.len() ==> 0 <= (#[trigger] s[k]).0 < n
    &&& forall|j: int, k: int| 0 <= j < k < s.len() ==> (#[trigger] s[j]).0 != (#[trigger] s[k]).0
}

proof fn lemma_addr_bound(clients: Seq<Client>, addr: Str, i: int)
    requires
        0 <= i <= clients.len(),
    ensures
        i <= addr_from(clients, addr, i) <= clients.len(),
    decreases clients.len() - i,
{
    if i < clients.len() {
        lemma_addr_bound(clients, addr, i + 1);
    }
}

proof fn lemma_shared_app(clients: Seq<Client>, wins: Seq<Client>, app: Str, j: int, acc: Seq<(int, Str)>)
    requires
        0 <= j <= wins.len(),
        each_once(acc, clients.len() as int),
    ensures
        each_once(shared_app_from(clients, wins, app, j, acc), clients.len() as int),
    decreases wins.len() - j,
{
    if j < wins.len() {
        let i = addr_from(clients, wins[j].address@, 0);
        lemma_addr_bound(clients, wins[j].address@, 0);
        if !on_hidden(wins[j]) && has_ws(wins[j]) && i < clients.len() && !is_shared(acc, i) {
            let more = acc.push((i, app));
            assert forall|a: int, b: int| 0 <= a < b < more.len() implies (#[trigger] more[a]).0 != (#[trigger] more[b]).0 by {
                assert(more[a] == acc[a]);
            }
            lemma_shared_app(clients, wins, app, j + 1, more);
        } else {
            lemma_shared_app(clients, wins, app, j + 1, acc);
        }
    }
}

proof fn lemma_shared(cfg: ConfigView, clients: Seq<Client>, ws: Str, apps: Seq<Str>, i: int, acc: Seq<(int, Str)>)
    requires
        0 <= i <= apps.len(),
        each_once(acc, clients.len() as int),
    ensures
        each_once(shared_from(cfg, clients, ws, apps, i, acc), clients.len() as int),
    decreases apps.len() - i,
{
    if i < apps.len() {
        if placed(cfg, clients, ws, apps, apps[i]).len() > 0 {
            lemma_shared(cfg, clients, ws, apps, i + 1, acc);
        } else {
            let own = own_windows(cfg, clients, apps, apps[i]);
            lemma_shared_app(clients, own, apps[i], 0, acc);
            lemma_shared(cfg, clients, ws, apps, i + 1, shared_app_from(clients, own, apps[i], 0, acc));
        }
    }
}

/// A workspace shares each window of other workspaces once at most: no window serves two of its entries.
pub proof fn law_shared_once(cfg: ConfigView, clients: Seq<Client>, ws: Str, apps: Seq<Str>)
    ensures
        each_once(shared_from(cfg, clients, ws, apps, 0, Seq::empty()), clients.len() as int),
{
    lemma_shared(cfg, clients, ws, apps, 0, Seq::empty());
}

} // verus!
