//! Where the key of an application leads, and the walk over its windows.
use std::collections::BTreeMap;
use vstd::prelude::*;

use crate::config::{Config, ConfigView, Mode};
use crate::desks::{at_desk, desk_get, mviews};
use crate::home::{entry_names_of, find_in, position};
use crate::hypr::{on_hidden, Client};
use crate::lookup::ws_has_app;
use crate::state::{Desktop, DesktopView};
use crate::text::{copy_opt, holds, oview, same, views, Str};
use crate::windows::{entry_of, first_visible, placed, placed_windows, visible_from, ws_app_of};

verus! {

broadcast use {crate::text::group_views, crate::hypr::group_derefs};

/// Where the key of an application leads.
#[derive(Debug, PartialEq, Eq)]
pub enum AppRoute {
    /// The walk over its windows in a workspace.
    Cycle { ws: String, app: String },
    /// Pull its windows into the active workspace of the desktop.
    Pull { ws: String, app: String },
    /// Raise a running workspace with the application; `desktop` is the one whose list holds it, where it
    /// is not the desktop at hand.
    Raise { ws: String, app: String, desktop: Option<u8> },
    /// Open the application in the active workspace of the desktop.
    Open { ws: String, app: String },
    /// No workspace is active on the desktop: the walk over its windows outside workspaces.
    Free { app: String },
}

/// Where the key of an application leads.
pub enum AppRouteView {
    Cycle { ws: Str, app: Str },
    Pull { ws: Str, app: Str },
    Raise { ws: Str, app: Str, desktop: Option<u8> },
    Open { ws: Str, app: Str },
    Free { app: Str },
}

impl View for AppRoute {
    type V = AppRouteView;

    open spec fn view(&self) -> AppRouteView {
        match *self {
            AppRoute::Cycle { ws, app } => AppRouteView::Cycle { ws: ws@, app: app@ },
            AppRoute::Pull { ws, app } => AppRouteView::Pull { ws: ws@, app: app@ },
            AppRoute::Raise { ws, app, desktop } => AppRouteView::Raise { ws: ws@, app: app@, desktop },
            AppRoute::Open { ws, app } => AppRouteView::Open { ws: ws@, app: app@ },
            AppRoute::Free { app } => AppRouteView::Free { app: app@ },
        }
    }
}

impl AppRoute {
    /// The application that the key calls.
    pub fn app(&self) -> (r: String)
        ensures
            r@ == self@.called(),
    {
        match self {
            AppRoute::Cycle { ws: _, app } => app.clone(),
            AppRoute::Pull { ws: _, app } => app.clone(),
            AppRoute::Raise { ws: _, app, desktop: _ } => app.clone(),
            AppRoute::Open { ws: _, app } => app.clone(),
            AppRoute::Free { app } => app.clone(),
        }
    }
}

impl AppRouteView {
    /// The application that the key calls.
    pub open spec fn called(self) -> Str {
        match self {
            AppRouteView::Cycle { ws, app } => app,
            AppRouteView::Pull { ws, app } => app,
            AppRouteView::Raise { ws, app, desktop } => app,
            AppRouteView::Open { ws, app } => app,
            AppRouteView::Free { app } => app,
        }
    }
}

/// What carries out a route.
#[allow(inconsistent_fields)]
#[derive(Debug, PartialEq, Eq)]
pub enum RouteStep {
    /// The walk over the windows in a workspace.
    Walk { ws: String, app: String, start: Start },
    /// Raise a workspace, then the walk begins anew there.
    RaiseWalk { ws: String, app: String, desktop: Option<u8> },
    /// Open the application in a workspace, or pull its windows in.
    Bring { ws: String, app: String, pull: bool },
    /// The walk over the windows outside workspaces.
    WalkFree { app: String },
    /// A new instance, in a workspace or outside.
    New { ws: Option<String>, app: String },
    /// Raise a workspace, then a new instance there.
    RaiseNew { ws: String, app: String, desktop: Option<u8> },
}

/// What it says.
#[allow(inconsistent_fields)]
pub enum RouteStepView {
    Walk { ws: Str, app: Str, start: Start },
    RaiseWalk { ws: Str, app: Str, desktop: Option<u8> },
    Bring { ws: Str, app: Str, pull: bool },
    WalkFree { app: Str },
    New { ws: Option<Str>, app: Str },
    RaiseNew { ws: Str, app: Str, desktop: Option<u8> },
}

impl View for RouteStep {
    type V = RouteStepView;

    open spec fn view(&self) -> RouteStepView {
        match *self {
            RouteStep::Walk { ws, app, start } => RouteStepView::Walk { ws: ws@, app: app@, start },
            RouteStep::RaiseWalk { ws, app, desktop } => RouteStepView::RaiseWalk { ws: ws@, app: app@, desktop },
            RouteStep::Bring { ws, app, pull } => RouteStepView::Bring { ws: ws@, app: app@, pull },
            RouteStep::WalkFree { app } => RouteStepView::WalkFree { app: app@ },
            RouteStep::New { ws, app } => RouteStepView::New { ws: oview(ws), app: app@ },
            RouteStep::RaiseNew { ws, app, desktop } => RouteStepView::RaiseNew { ws: ws@, app: app@, desktop },
        }
    }
}

impl AppRouteView {
    /// What carries out the route: with `new` a new instance of the application where the route leads, else
    /// the walk over its windows. `raised` says that the same command raised the workspace.
    pub open spec fn step(self, raised: bool, new: bool) -> RouteStepView {
        match self {
            AppRouteView::Cycle { ws, app } => if new {
                RouteStepView::New { ws: Some(ws), app }
            } else {
                RouteStepView::Walk {
                    ws,
                    app,
                    start: if raised {
                        Start::Raised
                    } else {
                        Start::Continue
                    },
                }
            },
            AppRouteView::Raise { ws, app, desktop } => if new {
                RouteStepView::RaiseNew { ws, app, desktop }
            } else {
                RouteStepView::RaiseWalk { ws, app, desktop }
            },
            AppRouteView::Pull { ws, app } => if new {
                RouteStepView::New { ws: Some(ws), app }
            } else {
                RouteStepView::Bring { ws, app, pull: true }
            },
            AppRouteView::Open { ws, app } => if new {
                RouteStepView::New { ws: Some(ws), app }
            } else {
                RouteStepView::Bring { ws, app, pull: false }
            },
            AppRouteView::Free { app } => if new {
                RouteStepView::New { ws: None, app }
            } else {
                RouteStepView::WalkFree { app }
            },
        }
    }
}

/// What carries out a route. `raised` says that the same command raised the workspace, `new` that a new
/// instance is asked for.
pub fn route_step(route: AppRoute, raised: bool, new: bool) -> (r: RouteStep)
    ensures
        r@ == route@.step(raised, new),
{
    match route {
        AppRoute::Cycle { ws, app } => if new {
            RouteStep::New { ws: Some(ws), app }
        } else {
            RouteStep::Walk {
                ws,
                app,
                start: if raised {
                    Start::Raised
                } else {
                    Start::Continue
                },
            }
        },
        AppRoute::Raise { ws, app, desktop } => if new {
            RouteStep::RaiseNew { ws, app, desktop }
        } else {
            RouteStep::RaiseWalk { ws, app, desktop }
        },
        AppRoute::Pull { ws, app } => if new {
            RouteStep::New { ws: Some(ws), app }
        } else {
            RouteStep::Bring { ws, app, pull: true }
        },
        AppRoute::Open { ws, app } => if new {
            RouteStep::New { ws: Some(ws), app }
        } else {
            RouteStep::Bring { ws, app, pull: false }
        },
        AppRoute::Free { app } => if new {
            RouteStep::New { ws: None, app }
        } else {
            RouteStep::WalkFree { app }
        },
    }
}

/// A route with a new instance asked for leads to a start of the application it calls: no step of it walks
/// over windows or brings them.
pub proof fn law_new_walks_nowhere(route: AppRouteView, raised: bool)
    ensures
        match route.step(raised, true) {
            RouteStepView::New { ws, app } => app == route.called(),
            RouteStepView::RaiseNew { ws, app, desktop } => app == route.called(),
            _ => false,
        },
{
}

// ---- Running workspaces -------------------------------------------------------

/// What a list of running workspaces says.
pub open spec fn run_view(s: Seq<(String, Option<u8>)>) -> Seq<(Str, Option<u8>)> {
    s.map_values(|e: (String, Option<u8>)| (e.0@, e.1))
}

/// The list with a workspace put in, where it is not there yet.
pub open spec fn run_put(s: Seq<(Str, Option<u8>)>, ws: Str, d: Option<u8>) -> Seq<(Str, Option<u8>)> {
    if crate::table::tab_has(s, ws) {
        s
    } else {
        s.push((ws, d))
    }
}

/// The list with the first `n` workspaces of a desktop put in.
pub open spec fn run_with(s: Seq<(Str, Option<u8>)>, list: Seq<Str>, d: Option<u8>, n: int) -> Seq<(Str, Option<u8>)>
    decreases n,
{
    if n <= 0 {
        s
    } else {
        run_put(run_with(s, list, d, n - 1), list[n - 1], d)
    }
}

/// The list with the workspaces of the desktops below `k` put in, other than `current`.
pub open spec fn run_upto(
    s: Seq<(Str, Option<u8>)>,
    m: Map<u8, DesktopView>,
    current: u8,
    k: int,
) -> Seq<(Str, Option<u8>)>
    decreases k,
{
    if k <= 0 {
        s
    } else {
        let t = run_upto(s, m, current, k - 1);
        let d = (k - 1) as u8;
        if d != current && m.contains_key(d) {
            run_with(t, m[d].workspaces, Some(d), m[d].workspaces.len() as int)
        } else {
            t
        }
    }
}

/// The running workspaces in the order of the search: the list of the desktop at hand, then those of
/// the other desktops by number; with the desktop to go to.
pub open spec fn running_of(m: Map<u8, DesktopView>, current: u8) -> Seq<(Str, Option<u8>)> {
    let here = match at_desk(m, current) {
        Some(d) => d.workspaces,
        None => Seq::empty(),
    };
    run_upto(run_with(Seq::empty(), here, None, here.len() as int), m, current, 256)
}

fn run_has(v: &Vec<(String, Option<u8>)>, ws: &str) -> (r: bool)
    ensures
        r == crate::table::tab_has(run_view(v@), ws@),
{
    let ghost s = run_view(v@);
    let mut i: usize = 0;
    while i < v.len()
        invariant
            i <= v.len(),
            s == run_view(v@),
            s.len() == v.len(),
            crate::table::tab_find(s, ws@, 0) == crate::table::tab_find(s, ws@, i as int),
        decreases v.len() - i,
    {
        assert(s[i as int] == (v@[i as int].0@, v@[i as int].1));
        if same(v[i].0.as_str(), ws) {
            return true;
        }
        i = i + 1;
    }
    false
}

fn add_running(out: Vec<(String, Option<u8>)>, list: &Vec<String>, d: Option<u8>) -> (r: Vec<(String, Option<u8>)>)
    ensures
        run_view(r@) == run_with(run_view(out@), views(list@), d, list@.len() as int),
{
    let mut acc = out;
    let ghost first = run_view(acc@);
    let mut i: usize = 0;
    while i < list.len()
        invariant
            i <= list.len(),
            first == run_view(out@),
            run_view(acc@) == run_with(first, views(list@), d, i as int),
        decreases list.len() - i,
    {
        let w = list[i].as_str();
        if !run_has(&acc, w) {
            let ghost was = acc@;
            acc.push((list[i].clone(), d));
            proof {
                assert(run_view(acc@) =~= run_view(was).push((w@, d)));
            }
        }
        i = i + 1;
    }
    acc
}

/// The running workspaces in the order of the search.
pub fn running(desktops: &BTreeMap<u8, Desktop>, current: u8) -> (r: Vec<(String, Option<u8>)>)
    ensures
        run_view(r@) == running_of(mviews(desktops@), current),
{
    let none: Vec<(String, Option<u8>)> = Vec::new();
    proof {
        assert(run_view(none@) =~= Seq::empty());
    }
    let mut out = match desk_get(desktops, current) {
        Some(d) => add_running(none, &d.workspaces, None),
        None => none,
    };
    let ghost here = run_view(out@);
    let mut k: u16 = 0;
    while k < 256
        invariant
            k <= 256,
            run_view(out@) == run_upto(here, mviews(desktops@), current, k as int),
        decreases 256 - k,
    {
        let d: u8 = k as u8;
        if d != current {
            if let Some(x) = desk_get(desktops, d) {
                out = add_running(out, &x.workspaces, Some(d));
            }
        }
        k = k + 1;
    }
    out
}

// ---- Candidates in a workspace ------------------------------------------------

/// The place from `i` on of the entry that describes an application, or the number of entries.
pub open spec fn described_at(cfg: ConfigView, entries: Seq<Str>, app: Str, i: int) -> int
    decreases entries.len() - i,
{
    if i >= entries.len() {
        entries.len() as int
    } else if cfg.app_is(app, entries[i]) {
        i
    } else {
        described_at(cfg, entries, app, i + 1)
    }
}

/// One of the windows' applications from `i` on is the application or one of its variants.
pub open spec fn tagged_from(cfg: ConfigView, tagged: Seq<Str>, app: Str, i: int) -> bool
    decreases tagged.len() - i,
{
    if i >= tagged.len() {
        false
    } else {
        cfg.app_is(tagged[i], app) || tagged_from(cfg, tagged, app, i + 1)
    }
}

/// The rank of a candidate in a workspace: the place of its entry; after all entries where only a window
/// of it is there; none where it is not there at all.
pub open spec fn rank_in(cfg: ConfigView, entries: Seq<Str>, tagged: Seq<Str>, app: Str) -> Option<int> {
    let i = described_at(cfg, entries, app, 0);
    if i < entries.len() {
        Some(i)
    } else if tagged_from(cfg, tagged, app, 0) {
        Some(entries.len() as int)
    } else {
        None
    }
}

/// The candidate of the least rank from `i` on, or the one found before where none has a lesser rank.
pub open spec fn best_from(
    cfg: ConfigView,
    entries: Seq<Str>,
    tagged: Seq<Str>,
    candidates: Seq<Str>,
    i: int,
    best: Option<(int, Str)>,
) -> Option<Str>
    decreases candidates.len() - i,
{
    if i >= candidates.len() {
        match best {
            Some((_, a)) => Some(a),
            None => None,
        }
    } else {
        let next = match rank_in(cfg, entries, tagged, candidates[i]) {
            Some(r) => if best matches Some((b, _)) && b <= r {
                best
            } else {
                Some((r, candidates[i]))
            },
            None => best,
        };
        best_from(cfg, entries, tagged, candidates, i + 1, next)
    }
}

/// The candidate that is in a workspace: described there, or with a window there; by the order of the
/// entries, those with only a window last.
pub open spec fn present_in(cfg: ConfigView, ws: Str, candidates: Seq<Str>, tagged: Seq<Str>) -> Option<Str> {
    best_from(cfg, entry_names_of(cfg, ws), tagged, candidates, 0, None)
}

fn any_tagged(cfg: &Config, tagged: &[String], app: &str) -> (r: bool)
    ensures
        r == tagged_from(cfg@, views(tagged@), app@, 0),
{
    let mut i: usize = 0;
    while i < tagged.len()
        invariant
            i <= tagged.len(),
            tagged_from(cfg@, views(tagged@), app@, 0) == tagged_from(cfg@, views(tagged@), app@, i as int),
        decreases tagged.len() - i,
    {
        if cfg.app_is(tagged[i].as_str(), app) {
            return true;
        }
        i = i + 1;
    }
    false
}

fn rank(cfg: &Config, entries: &[String], tagged: &[String], app: &str) -> (r: Option<usize>)
    ensures
        match r {
            Some(i) => rank_in(cfg@, views(entries@), views(tagged@), app@) == Some(i as int),
            None => rank_in(cfg@, views(entries@), views(tagged@), app@) is None,
        },
{
    let mut i: usize = 0;
    while i < entries.len()
        invariant
            i <= entries.len(),
            described_at(cfg@, views(entries@), app@, 0) == described_at(cfg@, views(entries@), app@, i as int),
        decreases entries.len() - i,
    {
        if cfg.app_is(app, entries[i].as_str()) {
            return Some(i);
        }
        i = i + 1;
    }
    if any_tagged(cfg, tagged, app) {
        Some(entries.len())
    } else {
        None
    }
}

/// The candidate that is in a workspace.
pub fn present_candidate(cfg: &Config, ws: &str, candidates: &[String], tagged: &[String]) -> (r: Option<String>)
    ensures
        oview(r) == present_in(cfg@, ws@, views(candidates@), views(tagged@)),
{
    let entries = cfg.entry_names(ws);
    let ghost e = views(entries@);
    let ghost t = views(tagged@);
    let ghost c = views(candidates@);
    let mut best: Option<(usize, usize)> = None;
    let ghost mut seen: Option<(int, Str)> = None;
    let mut i: usize = 0;
    while i < candidates.len()
        invariant
            i <= candidates.len(),
            e == views(entries@),
            t == views(tagged@),
            c == views(candidates@),
            match best {
                Some((k, x)) => x < candidates.len() && seen == Some((k as int, c[x as int])),
                None => seen is None,
            },
            best_from(cfg@, e, t, c, 0, None) == best_from(cfg@, e, t, c, i as int, seen),
        decreases candidates.len() - i,
    {
        if let Some(k) = rank(cfg, entries.as_slice(), tagged, candidates[i].as_str()) {
            let better = match best {
                Some((b, _)) => k < b,
                None => true,
            };
            if better {
                best = Some((k, i));
                proof {
                    seen = Some((k as int, c[i as int]));
                }
            }
        }
        i = i + 1;
    }
    match best {
        Some((_, x)) => Some(candidates[x].clone()),
        None => None,
    }
}

// ---- The key of an application ------------------------------------------------

/// The applications among the first `n` whose own key is this chain.
pub open spec fn owners_upto(cfg: ConfigView, chain: Str, n: int) -> Seq<Str>
    decreases n,
{
    if n <= 0 {
        Seq::empty()
    } else if cfg.owns(cfg.apps[n - 1].0, chain) {
        owners_upto(cfg, chain, n - 1).push(cfg.apps[n - 1].0)
    } else {
        owners_upto(cfg, chain, n - 1)
    }
}

/// The applications whose own key is this chain, by name.
pub open spec fn owners_of(cfg: ConfigView, chain: Str) -> Seq<Str> {
    owners_upto(cfg, chain, cfg.apps.len() as int)
}

fn owners(cfg: &Config, chain: &str) -> (r: Vec<String>)
    ensures
        views(r@) == owners_of(cfg@, chain@),
{
    let mut out: Vec<String> = Vec::new();
    let n: usize = cfg.apps.len();
    let mut i: usize = 0;
    while i < n
        invariant
            i <= n,
            n == cfg@.apps.len(),
            views(out@) == owners_upto(cfg@, chain@, i as int),
        decreases n - i,
    {
        let a = cfg.apps.key(i);
        if cfg.owns(a.as_str(), chain) {
            out.push(a.clone());
        }
        i = i + 1;
    }
    out
}

/// The first of the applications from `i` on that a workspace describes without giving it another key.
pub open spec fn kept_from(cfg: ConfigView, ws: Str, own: Seq<Str>, i: int) -> Option<Str>
    decreases own.len() - i,
{
    if i >= own.len() {
        None
    } else if cfg.ws_has_app(ws, own[i]) && !cfg.overrides_key(ws, own[i]) {
        Some(own[i])
    } else {
        kept_from(cfg, ws, own, i + 1)
    }
}

fn first_kept(cfg: &Config, ws: &str, own: &[String]) -> (r: Option<String>)
    ensures
        oview(r) == kept_from(cfg@, ws@, views(own@), 0),
{
    let mut i: usize = 0;
    while i < own.len()
        invariant
            i <= own.len(),
            kept_from(cfg@, ws@, views(own@), 0) == kept_from(cfg@, ws@, views(own@), i as int),
        decreases own.len() - i,
    {
        if ws_has_app(cfg, ws, own[i].as_str()) && !cfg.overrides_key(ws, own[i].as_str()) {
            return Some(own[i].clone());
        }
        i = i + 1;
    }
    None
}

/// The application that a running workspace answers a chain with: by its own entry, else one whose own
/// key it is.
pub open spec fn answer_of(cfg: ConfigView, ws: Str, chain: Str) -> Option<Str> {
    match cfg.responds(ws, chain) {
        Some(a) => Some(a),
        None => kept_from(cfg, ws, owners_of(cfg, chain), 0),
    }
}

/// The first running workspace from `i` on that answers the chain.
pub open spec fn answer_from(cfg: ConfigView, run: Seq<(Str, Option<u8>)>, chain: Str, i: int) -> Option<AppRouteView>
    decreases run.len() - i,
{
    if i >= run.len() {
        None
    } else {
        match answer_of(cfg, run[i].0, chain) {
            Some(app) => Some(AppRouteView::Raise { ws: run[i].0, app, desktop: run[i].1 }),
            None => answer_from(cfg, run, chain, i + 1),
        }
    }
}

fn first_answer(cfg: &Config, run: &Vec<(String, Option<u8>)>, chain: &str, own: &[String]) -> (r: Option<AppRoute>)
    requires
        views(own@) == owners_of(cfg@, chain@),
    ensures
        oview(r) == answer_from(cfg@, run_view(run@), chain@, 0),
{
    let ghost s = run_view(run@);
    let mut i: usize = 0;
    while i < run.len()
        invariant
            i <= run.len(),
            s == run_view(run@),
            views(own@) == owners_of(cfg@, chain@),
            answer_from(cfg@, s, chain@, 0) == answer_from(cfg@, s, chain@, i as int),
        decreases run.len() - i,
    {
        assert(s[i as int] == (run@[i as int].0@, run@[i as int].1));
        let v = run[i].0.as_str();
        let app = match cfg.responds(v, chain) {
            Some(a) => Some(a),
            None => first_kept(cfg, v, own),
        };
        if let Some(a) = app {
            return Some(AppRoute::Raise { ws: v.to_owned(), app: a, desktop: run[i].1 });
        }
        i = i + 1;
    }
    None
}

/// The place from `i` on of the running workspace that describes an application, or the number of them;
/// with `keeps` only one that does not give it another key.
pub open spec fn holder_from(cfg: ConfigView, run: Seq<(Str, Option<u8>)>, app: Str, keeps: bool, i: int) -> int
    decreases run.len() - i,
{
    if i >= run.len() {
        run.len() as int
    } else if cfg.ws_has_app(run[i].0, app) && !(keeps && cfg.overrides_key(run[i].0, app)) {
        i
    } else {
        holder_from(cfg, run, app, keeps, i + 1)
    }
}

fn holder(cfg: &Config, run: &Vec<(String, Option<u8>)>, app: &str, keeps: bool) -> (r: usize)
    ensures
        r == holder_from(cfg@, run_view(run@), app@, keeps, 0),
        r <= run.len(),
{
    let ghost s = run_view(run@);
    let mut i: usize = 0;
    while i < run.len()
        invariant
            i <= run.len(),
            s == run_view(run@),
            s.len() == run.len(),
            holder_from(cfg@, s, app@, keeps, 0) == holder_from(cfg@, s, app@, keeps, i as int),
        decreases run.len() - i,
    {
        assert(s[i as int] == (run@[i as int].0@, run@[i as int].1));
        let v = run[i].0.as_str();
        if ws_has_app(cfg, v, app) && !(keeps && cfg.overrides_key(v, app)) {
            return i;
        }
        i = i + 1;
    }
    i
}

/// Pull the application into the active workspace, or raise the running one that describes it where
/// none is active.
pub open spec fn pull_or_raise(active: Option<Str>, run: (Str, Option<u8>), app: Str) -> AppRouteView {
    match active {
        Some(w) => AppRouteView::Pull { ws: w, app },
        None => AppRouteView::Raise { ws: run.0, app, desktop: run.1 },
    }
}

fn make_pull(active: &Option<String>, run: &(String, Option<u8>), app: &str) -> (r: AppRoute)
    ensures
        r@ == pull_or_raise(oview(*active), (run.0@, run.1), app@),
{
    match active {
        Some(w) => AppRoute::Pull { ws: w.clone(), app: app.to_owned() },
        None => AppRoute::Raise { ws: run.0.clone(), app: app.to_owned(), desktop: run.1 },
    }
}

/// The first of the applications from `i` on that some running workspace describes.
pub open spec fn pull_from(
    cfg: ConfigView,
    active: Option<Str>,
    run: Seq<(Str, Option<u8>)>,
    own: Seq<Str>,
    i: int,
) -> Option<AppRouteView>
    decreases own.len() - i,
{
    if i >= own.len() {
        None
    } else {
        let k = holder_from(cfg, run, own[i], false, 0);
        if 0 <= k < run.len() {
            Some(pull_or_raise(active, run[k], own[i]))
        } else {
            pull_from(cfg, active, run, own, i + 1)
        }
    }
}

/// The first application from `i` on that some workspace gives this chain as a key.
pub open spec fn given_from(cfg: ConfigView, chain: Str, i: int) -> Option<Str>
    decreases cfg.apps.len() - i,
{
    if i >= cfg.apps.len() {
        None
    } else if cfg.assigned(cfg.apps[i].0, chain) {
        Some(cfg.apps[i].0)
    } else {
        given_from(cfg, chain, i + 1)
    }
}

/// Open the application in the active workspace, or walk over its windows outside workspaces.
pub open spec fn open_or_free(active: Option<Str>, app: Str) -> AppRouteView {
    match active {
        Some(ws) => AppRouteView::Open { ws, app },
        None => AppRouteView::Free { app },
    }
}

/// The active workspace of the desktop at hand answers the chain: by its own entry, else with
/// a candidate that is in it.
pub open spec fn here_of(cfg: ConfigView, active: Option<Str>, chain: Str, tagged: Seq<Str>) -> Option<AppRouteView> {
    match active {
        None => None,
        Some(w) => match cfg.responds(w, chain) {
            Some(app) => Some(AppRouteView::Cycle { ws: w, app }),
            None => match present_in(cfg, w, cfg.key_candidates(chain), tagged) {
                Some(app) => Some(AppRouteView::Cycle { ws: w, app }),
                None => None,
            },
        },
    }
}

/// The active workspace of a desktop.
pub open spec fn active_at(m: Map<u8, DesktopView>, n: u8) -> Option<Str> {
    match at_desk(m, n) {
        Some(d) => d.active,
        None => None,
    }
}

/// Where a chain leads. First to the window where it is: the active workspace answers it or holds
/// a candidate. Then a running workspace that answers it is raised. Then an application whose own key
/// it is, described only where its key was changed, is pulled in. Then the first application that the
/// chain belongs to is opened. None where no application answers the chain.
pub open spec fn route_of(
    cfg: ConfigView,
    m: Map<u8, DesktopView>,
    current: u8,
    chain: Str,
    tagged: Seq<Str>,
) -> Option<AppRouteView> {
    let active = active_at(m, current);
    let run = running_of(m, current);
    let own = owners_of(cfg, chain);
    match here_of(cfg, active, chain, tagged) {
        Some(r) => Some(r),
        None => match answer_from(cfg, run, chain, 0) {
            Some(r) => Some(r),
            None => match pull_from(cfg, active, run, own, 0) {
                Some(r) => Some(r),
                None => match (if own.len() > 0 {
                    Some(own[0])
                } else {
                    given_from(cfg, chain, 0)
                }) {
                    Some(app) => Some(open_or_free(active, app)),
                    None => None,
                },
            },
        },
    }
}

fn first_pull(cfg: &Config, active: &Option<String>, run: &Vec<(String, Option<u8>)>, own: &[String]) -> (r: Option<
    AppRoute,
>)
    ensures
        oview(r) == pull_from(cfg@, oview(*active), run_view(run@), views(own@), 0),
{
    let ghost s = run_view(run@);
    let mut i: usize = 0;
    while i < own.len()
        invariant
            i <= own.len(),
            s == run_view(run@),
            s.len() == run.len(),
            pull_from(cfg@, oview(*active), s, views(own@), 0) == pull_from(
                cfg@,
                oview(*active),
                s,
                views(own@),
                i as int,
            ),
        decreases own.len() - i,
    {
        let k: usize = holder(cfg, run, own[i].as_str(), false);
        if k < run.len() {
            assert(s[k as int] == (run@[k as int].0@, run@[k as int].1));
            return Some(make_pull(active, &run[k], own[i].as_str()));
        }
        i = i + 1;
    }
    None
}

fn first_given(cfg: &Config, chain: &str) -> (r: Option<String>)
    ensures
        oview(r) == given_from(cfg@, chain@, 0),
{
    let n: usize = cfg.apps.len();
    let mut i: usize = 0;
    while i < n
        invariant
            i <= n,
            n == cfg@.apps.len(),
            given_from(cfg@, chain@, 0) == given_from(cfg@, chain@, i as int),
        decreases n - i,
    {
        if cfg.assigned(cfg.apps.key(i).as_str(), chain) {
            return Some(cfg.apps.key(i).clone());
        }
        i = i + 1;
    }
    None
}

fn make_open(active: &Option<String>, app: String) -> (r: AppRoute)
    ensures
        r@ == open_or_free(oview(*active), app@),
{
    match active {
        Some(w) => AppRoute::Open { ws: w.clone(), app },
        None => AppRoute::Free { app },
    }
}

fn active_here(desktops: &BTreeMap<u8, Desktop>, n: u8) -> (r: Option<String>)
    ensures
        oview(r) == active_at(mviews(desktops@), n),
{
    match desk_get(desktops, n) {
        Some(d) => copy_opt(&d.active),
        None => None,
    }
}

/// Where a chain leads: to the window where it is, to a running workspace, or to an application that
/// is opened.
pub fn key_route(
    cfg: &Config,
    desktops: &BTreeMap<u8, Desktop>,
    current: u8,
    chain: &str,
    tagged: &[String],
) -> (r: Option<AppRoute>)
    ensures
        oview(r) == route_of(cfg@, mviews(desktops@), current, chain@, views(tagged@)),
{
    let own = owners(cfg, chain);
    let active = active_here(desktops, current);
    if let Some(w) = &active {
        if let Some(app) = cfg.responds(w.as_str(), chain) {
            return Some(AppRoute::Cycle { ws: w.clone(), app });
        }
        let candidates = cfg.key_candidates(chain);
        if let Some(app) = present_candidate(cfg, w.as_str(), candidates.as_slice(), tagged) {
            return Some(AppRoute::Cycle { ws: w.clone(), app });
        }
    }
    let run = running(desktops, current);
    if let Some(r) = first_answer(cfg, &run, chain, own.as_slice()) {
        return Some(r);
    }
    if let Some(r) = first_pull(cfg, &active, &run, own.as_slice()) {
        return Some(r);
    }
    assert(views(own@).len() == own.len());
    let app = if own.len() > 0 {
        Some(own[0].clone())
    } else {
        first_given(cfg, chain)
    };
    match app {
        Some(a) => Some(make_open(&active, a)),
        None => None,
    }
}

// ---- The command of an application --------------------------------------------

/// Where the command of one application leads, with the step at which it was found.
pub open spec fn step_of(
    cfg: ConfigView,
    active: Option<Str>,
    run: Seq<(Str, Option<u8>)>,
    app: Str,
    pull: bool,
    tagged: Seq<Str>,
) -> (int, AppRouteView) {
    let k = holder_from(cfg, run, app, true, 0);
    let j = holder_from(cfg, run, app, false, 0);
    if active matches Some(w) && cfg.ws_has_app(w, app) {
        (
            if cfg.overrides_key(active->0, app) {
                2int
            } else {
                1int
            },
            AppRouteView::Cycle { ws: active->0, app },
        )
    } else if pull && active is Some {
        (2, AppRouteView::Pull { ws: active->0, app })
    } else if active is Some && tagged_from(cfg, tagged, app, 0) {
        (2, AppRouteView::Cycle { ws: active->0, app })
    } else if 0 <= k < run.len() {
        (3, AppRouteView::Raise { ws: run[k].0, app, desktop: run[k].1 })
    } else if 0 <= j < run.len() {
        (4, pull_or_raise(active, run[j], app))
    } else {
        (5, open_or_free(active, app))
    }
}

/// The route found at the least step from `i` on, or the one found before where none comes earlier.
pub open spec fn earliest_from(
    cfg: ConfigView,
    active: Option<Str>,
    run: Seq<(Str, Option<u8>)>,
    apps: Seq<Str>,
    pull: bool,
    tagged: Seq<Str>,
    i: int,
    best: Option<(int, AppRouteView)>,
) -> AppRouteView
    decreases apps.len() - i,
{
    if i >= apps.len() {
        match best {
            Some((_, r)) => r,
            None => AppRouteView::Free { app: Seq::empty() },
        }
    } else {
        let s = step_of(cfg, active, run, apps[i], pull, tagged);
        earliest_from(
            cfg,
            active,
            run,
            apps,
            pull,
            tagged,
            i + 1,
            if best matches Some((b, _)) && b <= s.0 {
                best
            } else {
                Some(s)
            },
        )
    }
}

/// Where the command of applications leads: the route of the one found at the earliest step.
pub open spec fn command_route(
    cfg: ConfigView,
    m: Map<u8, DesktopView>,
    current: u8,
    apps: Seq<Str>,
    pull: bool,
    tagged: Seq<Str>,
) -> AppRouteView {
    earliest_from(cfg, active_at(m, current), running_of(m, current), apps, pull, tagged, 0, None)
}

fn one_step(
    cfg: &Config,
    active: &Option<String>,
    run: &Vec<(String, Option<u8>)>,
    app: &str,
    pull: bool,
    tagged: &[String],
) -> (r: (u8, AppRoute))
    ensures
        step_of(cfg@, oview(*active), run_view(run@), app@, pull, views(tagged@)) == (r.0 as int, r.1@),
{
    let ghost s = run_view(run@);
    assert(s.len() == run.len());
    if let Some(w) = active {
        if ws_has_app(cfg, w.as_str(), app) {
            let step: u8 = if cfg.overrides_key(w.as_str(), app) {
                2
            } else {
                1
            };
            return (step, AppRoute::Cycle { ws: w.clone(), app: app.to_owned() });
        }
        if pull {
            return (2, AppRoute::Pull { ws: w.clone(), app: app.to_owned() });
        }
        if any_tagged(cfg, tagged, app) {
            return (2, AppRoute::Cycle { ws: w.clone(), app: app.to_owned() });
        }
    }
    let k: usize = holder(cfg, run, app, true);
    if k < run.len() {
        assert(s[k as int] == (run@[k as int].0@, run@[k as int].1));
        return (3, AppRoute::Raise { ws: run[k].0.clone(), app: app.to_owned(), desktop: run[k].1 });
    }
    let j: usize = holder(cfg, run, app, false);
    if j < run.len() {
        assert(s[j as int] == (run@[j as int].0@, run@[j as int].1));
        return (4, make_pull(active, &run[j], app));
    }
    (5, make_open(active, app.to_owned()))
}

/// Where the command of applications leads: the route of the one found at the earliest step, the first
/// of them on a tie.
pub fn app_route(
    cfg: &Config,
    desktops: &BTreeMap<u8, Desktop>,
    current: u8,
    apps: &[String],
    pull: bool,
    tagged: &[String],
) -> (r: AppRoute)
    ensures
        r@ == command_route(cfg@, mviews(desktops@), current, views(apps@), pull, views(tagged@)),
{
    let active = active_here(desktops, current);
    let run = running(desktops, current);
    let mut best: Option<(u8, AppRoute)> = None;
    let ghost a = oview(active);
    let ghost s = run_view(run@);
    let mut i: usize = 0;
    while i < apps.len()
        invariant
            i <= apps.len(),
            a == oview(active),
            s == run_view(run@),
            earliest_from(cfg@, a, s, views(apps@), pull, views(tagged@), 0, None) == earliest_from(
                cfg@,
                a,
                s,
                views(apps@),
                pull,
                views(tagged@),
                i as int,
                match best {
                    Some((b, x)) => Some((b as int, x@)),
                    None => None,
                },
            ),
        decreases apps.len() - i,
    {
        let x = one_step(cfg, &active, &run, apps[i].as_str(), pull, tagged);
        let better = match &best {
            Some((b, _)) => x.0 < *b,
            None => true,
        };
        if better {
            best = Some(x);
        }
        i = i + 1;
    }
    match best {
        Some((_, x)) => x,
        None => {
            let s = String::new();
            proof {
                assert(s@ =~= Seq::<char>::empty());
            }
            AppRoute::Free { app: s }
        },
    }
}

// ---- The walk over windows ----------------------------------------------------

/// The entry that an application goes by in a workspace: its own, else that of its family, else its own
/// name.
pub open spec fn entry_name(cfg: ConfigView, ws: Str, app: Str) -> Str {
    match cfg.ws_entry(ws, app) {
        Some((n, _)) => n,
        None => app,
    }
}

/// The mode of the walk over the windows of an application, and the entry that an exchange of places
/// moves.
pub fn cycle_mode(cfg: &Config, ws: &str, app: &str) -> (r: (Mode, String))
    ensures
        r.0 == cfg@.app_mode(ws@, app@),
        r.1@ == entry_name(cfg@, ws@, app@),
{
    let entry = match cfg.ws_entry(ws, app) {
        Some((n, _)) => n,
        None => app.to_owned(),
    };
    (cfg.app_mode(ws, app), entry)
}

/// What began the walk.
#[derive(Debug, Clone, Copy, PartialEq, Eq, Structural)]
pub enum Start {
    /// The key alone.
    Continue,
    /// The key raised the workspace: the walk begins anew.
    Raised,
    /// The key opened the application in the workspace or pulled it in: the walk begins anew, and the
    /// first window is chosen without an exchange of places.
    Joined,
}

/// What the key of an application does now.
#[derive(Debug, PartialEq, Eq)]
pub enum CycleStep {
    /// There are no windows: start the application.
    Launch,
    /// Choose a window.
    Select(String),
    /// The walk is over: go back to the window it began from.
    Back(String),
    /// The walk is over and there is no such window: the first window of the next application.
    NextApp(String),
}

/// What the key of an application does now.
pub enum CycleStepView {
    Launch,
    Select(Str),
    Back(Str),
    NextApp(Str),
}

impl View for CycleStep {
    type V = CycleStepView;

    open spec fn view(&self) -> CycleStepView {
        match *self {
            CycleStep::Launch => CycleStepView::Launch,
            CycleStep::Select(a) => CycleStepView::Select(a@),
            CycleStep::Back(a) => CycleStepView::Back(a@),
            CycleStep::NextApp(a) => CycleStepView::NextApp(a@),
        }
    }
}

/// The step of the walk: the first window where the walk begins or a window of another application is
/// active, else the one after the active one; after the last one back to `prev`, else to the next
/// application, else round again.
pub open spec fn walk_of(
    order: Seq<Str>,
    active: Option<Str>,
    fresh: bool,
    prev: Option<Str>,
    next: Option<Str>,
) -> CycleStepView {
    let i = match active {
        Some(a) => find_in(order, a, 0),
        None => order.len() as int,
    };
    if order.len() == 0 {
        CycleStepView::Launch
    } else if fresh || !(0 <= i < order.len()) {
        CycleStepView::Select(order[0])
    } else if i + 1 < order.len() {
        CycleStepView::Select(order[i + 1])
    } else {
        match (prev, next) {
            (Some(p), _) => CycleStepView::Back(p),
            (None, Some(n)) => CycleStepView::NextApp(n),
            (None, None) => CycleStepView::Select(order[0]),
        }
    }
}

/// The step of the walk over the windows of an application. It comes from the active window, so choosing
/// a window with the mouse does not disturb the walk.
pub fn cycle_step(
    order: &[String],
    active: Option<&str>,
    fresh: bool,
    prev: Option<&str>,
    next: Option<&str>,
) -> (r: CycleStep)
    ensures
        r@ == walk_of(views(order@), oview(active), fresh, oview(prev), oview(next)),
{
    let n: usize = order.len();
    if n == 0 {
        return CycleStep::Launch;
    }
    let i: usize = match active {
        Some(a) => position(order, a),
        None => n,
    };
    if fresh || i >= n {
        return CycleStep::Select(order[0].clone());
    }
    if i + 1 < n {
        return CycleStep::Select(order[i + 1].clone());
    }
    match (prev, next) {
        (Some(p), _) => CycleStep::Back(p.to_owned()),
        (None, Some(x)) => CycleStep::NextApp(x.to_owned()),
        (None, None) => CycleStep::Select(order[0].clone()),
    }
}

/// The window that the key of an application which is not the main one chooses where places are
/// exchanged: the active one, where it is one of its windows, else the first.
pub open spec fn restart_of(order: Seq<Str>, active: Option<Str>, is_main: bool) -> Option<Str> {
    if is_main || order.len() == 0 {
        None
    } else if active matches Some(a) && order.contains(a) {
        active
    } else {
        Some(order[0])
    }
}

/// The window that the key of an application which is not the main one chooses where places are
/// exchanged.
pub fn swap_start(order: &[String], active: Option<&str>, is_main: bool) -> (r: Option<String>)
    ensures
        oview(r) == restart_of(views(order@), oview(active), is_main),
{
    if is_main || order.len() == 0 {
        return None;
    }
    if let Some(a) = active {
        if holds(order, a) {
            return Some(a.to_owned());
        }
    }
    Some(order[0].clone())
}

/// One of the windows from `i` on has this address, is not hidden and belongs to the workspace.
pub open spec fn anchor_fits_from(cfg: ConfigView, clients: Seq<Client>, ws: Str, a: Str, i: int) -> bool
    decreases clients.len() - i,
{
    if i >= clients.len() {
        false
    } else {
        (clients[i].address@ == a && !on_hidden(clients[i]) && entry_of(
            cfg,
            ws,
            entry_names_of(cfg, ws),
            clients[i],
        ) is Some) || anchor_fits_from(cfg, clients, ws, a, i + 1)
    }
}

/// The window to go back to may be this one: a visible window of the workspace, of another application.
pub open spec fn anchor_fits(cfg: ConfigView, clients: Seq<Client>, ws: Str, order: Seq<Str>, a: Option<Str>) -> bool {
    a matches Some(x) && !order.contains(x) && anchor_fits_from(cfg, clients, ws, x, 0)
}

/// The window that the end of the walk goes back to: that of the main application where places are
/// exchanged; else the active window of the workspace, else the one that had the focus last.
pub open spec fn anchor_of(
    cfg: ConfigView,
    clients: Seq<Client>,
    ws: Str,
    main_window: Option<Str>,
    order: Seq<Str>,
    active: Option<Str>,
    focus: Option<Str>,
) -> Option<Str> {
    if main_window is Some {
        main_window
    } else if anchor_fits(cfg, clients, ws, order, active) {
        active
    } else if anchor_fits(cfg, clients, ws, order, focus) {
        focus
    } else {
        None
    }
}

fn fits_anchor(cfg: &Config, clients: &[Client], ws: &str, apps: &[String], order: &[String], a: &str) -> (r: bool)
    requires
        views(apps@) == entry_names_of(cfg@, ws@),
    ensures
        r == anchor_fits(cfg@, clients@, ws@, views(order@), Some(a@)),
{
    if holds(order, a) {
        return false;
    }
    let mut i: usize = 0;
    while i < clients.len()
        invariant
            i <= clients.len(),
            views(apps@) == entry_names_of(cfg@, ws@),
            !views(order@).contains(a@),
            anchor_fits_from(cfg@, clients@, ws@, a@, 0) == anchor_fits_from(cfg@, clients@, ws@, a@, i as int),
        decreases clients.len() - i,
    {
        let c = &clients[i];
        if same(c.address.as_str(), a) && !c.on_hidden() && ws_app_of(cfg, ws, apps, c).is_some() {
            return true;
        }
        i = i + 1;
    }
    false
}

/// The window that the end of the walk goes back to.
pub fn anchor_window(
    cfg: &Config,
    clients: &[Client],
    ws: &str,
    main_window: Option<&str>,
    order: &[String],
    active: Option<&str>,
    focus: Option<&str>,
) -> (r: Option<String>)
    ensures
        oview(r) == anchor_of(
            cfg@,
            clients@,
            ws@,
            oview(main_window),
            views(order@),
            oview(active),
            oview(focus),
        ),
{
    if let Some(m) = main_window {
        return Some(m.to_owned());
    }
    let apps = cfg.entry_names(ws);
    if let Some(a) = active {
        if fits_anchor(cfg, clients, ws, apps.as_slice(), order, a) {
            return Some(a.to_owned());
        }
    }
    if let Some(a) = focus {
        if fits_anchor(cfg, clients, ws, apps.as_slice(), order, a) {
            return Some(a.to_owned());
        }
    }
    None
}

/// The first visible window of the entries after `at`, from the `k`-th after it on, round and round.
pub open spec fn next_window_from(
    cfg: ConfigView,
    clients: Seq<Client>,
    ws: Str,
    names: Seq<Str>,
    at: int,
    k: int,
) -> Option<Str>
    decreases names.len() - k,
{
    if k >= names.len() {
        None
    } else {
        match visible_from(placed(cfg, clients, ws, names, names[(at + k) % (names.len() as int)]), 0) {
            Some(c) => Some(c.address@),
            None => next_window_from(cfg, clients, ws, names, at, k + 1),
        }
    }
}

/// The first visible window of the next application of a workspace, in the order of its entries, round
/// and round; applications without windows are passed over.
pub open spec fn next_window_of(cfg: ConfigView, clients: Seq<Client>, ws: Str, app: Str) -> Option<Str> {
    let names = entry_names_of(cfg, ws);
    let i = find_in(names, app, 0);
    if 0 <= i < names.len() {
        next_window_from(cfg, clients, ws, names, i, 1)
    } else {
        None
    }
}

/// The first visible window of the next application of a workspace.
pub fn next_app_window(cfg: &Config, clients: &[Client], ws: &str, app: &str) -> (r: Option<String>)
    ensures
        oview(r) == next_window_of(cfg@, clients@, ws@, app@),
{
    let names = cfg.entry_names(ws);
    let ghost s = views(names@);
    let n: usize = names.len();
    let i: usize = position(names.as_slice(), app);
    if i >= n {
        return None;
    }
    let mut k: usize = 1;
    while k < n
        invariant
            1 <= k,
            k <= n || n == 0,
            i < n,
            n == names.len(),
            s == views(names@),
            s == entry_names_of(cfg@, ws@),
            i == find_in(s, app@, 0),
            next_window_from(cfg@, clients@, ws@, s, i as int, 1) == next_window_from(
                cfg@,
                clients@,
                ws@,
                s,
                i as int,
                k as int,
            ),
        decreases n - k,
    {
        let j: usize = if k < n - i {
            i + k
        } else {
            k - (n - i)
        };
        proof {
            if k < n - i {
                assert((i + k) % (n as int) == i + k) by (nonlinear_arith)
                    requires
                        0 <= i + k < n,
                ;
            } else {
                assert((i + k) % (n as int) == i + k - n) by (nonlinear_arith)
                    requires
                        0 <= i + k - n < n,
                        n > 0,
                ;
            }
        }
        let wins = placed_windows(cfg, clients, ws, names.as_slice(), names[j].as_str());
        if let Some(c) = first_visible(&wins) {
            return Some(c.address.clone());
        }
        k = k + 1;
    }
    None
}

/// The walk over windows that are all different: from each one the key leads to the one after it, and from
/// the last one back to `prev` where there is one, else to the next application, else to the first. Nothing
/// but the active window decides, unless the walk begins.
pub proof fn law_walk_visits_each(order: Seq<Str>, i: int, prev: Option<Str>, next: Option<Str>)
    requires
        0 <= i < order.len(),
        order.no_duplicates(),
    ensures
        i + 1 < order.len() ==> walk_of(order, Some(order[i]), false, prev, next) == CycleStepView::Select(order[i + 1]),
        i + 1 == order.len() && prev is Some ==> walk_of(order, Some(order[i]), false, prev, next)
            == CycleStepView::Back(prev->0),
        i + 1 == order.len() && prev is None && next is Some ==> walk_of(order, Some(order[i]), false, prev, next)
            == CycleStepView::NextApp(next->0),
        i + 1 == order.len() && prev is None && next is None ==> walk_of(order, Some(order[i]), false, prev, next)
            == CycleStepView::Select(order[0]),
{
    lemma_found_at(order, i, 0);
}

proof fn lemma_found_at(s: Seq<Str>, i: int, k: int)
    requires
        0 <= k <= i < s.len(),
        s.no_duplicates(),
    ensures
        find_in(s, s[i], k) == i,
    decreases i - k,
{
    if k < i {
        lemma_found_at(s, i, k + 1);
    }
}

} // verus!
