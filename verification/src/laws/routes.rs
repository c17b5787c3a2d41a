//! Where a key and the command of applications lead.
use vstd::prelude::*;

use crate::config::ConfigView;
use crate::cycle::{first_unknown, tagged_upto};
use crate::desks::at_desk;
use crate::home::entry_names_of;
use crate::hypr::{app_of, in_ws, Client};
use crate::laws::bindings::answered;
use crate::laws::windows::lemma_push;
use crate::restore::given;
use crate::route::{
    active_at, answer_from, answer_of, best_from, command_route, described_at, earliest_from, given_from, here_of,
    holder_from, kept_from, owners_of, owners_upto, present_in, pull_from, rank_in, route_of, run_upto, run_with,
    running_of, step_of, tagged_from, AppRouteView, RouteStepView, Start,
};
use crate::save::{described, kept};
use crate::state::DesktopView;
use crate::table::{lemma_find, tab_find, tab_has};
use crate::text::Str;

verus! {

// ---- Running workspaces -------------------------------------------------------------------

/// No name stands twice in the list.
pub open spec fn once_each(s: Seq<(Str, Option<u8>)>) -> bool {
    forall|i: int, j: int| 0 <= i < j < s.len() ==> (#[trigger] s[i]).0 != (#[trigger] s[j]).0
}

/// The workspace stands in the list.
pub open spec fn is_run(s: Seq<(Str, Option<u8>)>, w: Str) -> bool {
    exists|k: int| 0 <= k < s.len() && (#[trigger] s[k]).0 == w
}

proof fn lemma_is_run(s: Seq<(Str, Option<u8>)>, w: Str)
    ensures
        tab_has(s, w) <==> is_run(s, w),
{
    lemma_find(s, w, 0);
    let i = tab_find(s, w, 0);
    if i < s.len() {
        assert(s[i].0 == w);
    }
    if is_run(s, w) {
        let k = choose|k: int| 0 <= k < s.len() && (#[trigger] s[k]).0 == w;
        assert(s[k].0 == w);
    }
}

proof fn lemma_run_with(s: Seq<(Str, Option<u8>)>, list: Seq<Str>, d: Option<u8>, n: int)
    requires
        0 <= n <= list.len(),
        once_each(s),
    ensures
        ({
            let r = run_with(s, list, d, n);
            &&& once_each(r)
            &&& s.len() <= r.len()
            &&& forall|k: int| 0 <= k < s.len() ==> #[trigger] r[k] == s[k]
            &&& forall|k: int|
                s.len() <= k < r.len() ==> (#[trigger] r[k]).1 == d && list.contains(r[k].0) && !is_run(s, r[k].0)
            &&& forall|i: int| 0 <= i < n ==> is_run(r, #[trigger] list[i])
        }),
    decreases n,
{
    if n > 0 {
        lemma_run_with(s, list, d, n - 1);
        let p = run_with(s, list, d, n - 1);
        let r = run_with(s, list, d, n);
        let w = list[n - 1];
        lemma_is_run(p, w);
        assert(list.contains(w));
        if !tab_has(p, w) {
            assert forall|k: int| 0 <= k < p.len() implies #[trigger] r[k] == p[k] by {}
            assert(r[p.len() as int] == (w, d));
            assert forall|i: int, j: int| 0 <= i < j < r.len() implies (#[trigger] r[i]).0 != (#[trigger] r[j]).0 by {
                assert(r[i] == p[i]);
                if j == p.len() {
                    assert(p[i].0 != w);
                }
            }
            if is_run(s, w) {
                let k = choose|k: int| 0 <= k < s.len() && (#[trigger] s[k]).0 == w;
                assert(p[k].0 == w);
            }
            assert forall|k: int| s.len() <= k < r.len() implies (#[trigger] r[k]).1 == d && list.contains(r[k].0) && !is_run(
                s,
                r[k].0,
            ) by {
                if k < p.len() {
                    assert(r[k] == p[k]);
                }
            }
        }
        assert forall|i: int| 0 <= i < n implies is_run(r, #[trigger] list[i]) by {
            if i < n - 1 {
                assert(is_run(p, list[i]));
                let k = choose|k: int| 0 <= k < p.len() && (#[trigger] p[k]).0 == list[i];
                assert(r[k].0 == list[i]);
            } else if tab_has(p, w) {
                assert(is_run(p, w));
            } else {
                assert(r[p.len() as int].0 == w);
            }
        }
    }
}

/// The workspace stands in the list of the desktop.
pub open spec fn listed_on(m: Map<u8, DesktopView>, d: u8, w: Str) -> bool {
    m.contains_key(d) && m[d].workspaces.contains(w)
}

/// The workspaces are found in this order: those of the desktop at hand first, with no desktop to go to; then those of
/// the other desktops below `k`, by number, each where it is found first.
#[verifier::opaque]
pub open spec fn runs_below(m: Map<u8, DesktopView>, current: u8, k: int, s: Seq<(Str, Option<u8>)>) -> bool {
    &&& once_each(s)
    &&& forall|i: int|
        0 <= i < s.len() ==> match (#[trigger] s[i]).1 {
            None => listed_on(m, current, s[i].0),
            Some(d) => d != current && d < k && listed_on(m, d, s[i].0) && !listed_on(m, current, s[i].0) && forall|e: u8|
                e < d ==> !#[trigger] listed_on(m, e, s[i].0),
        }
    &&& forall|i: int, j: int|
        0 <= i < j < s.len() ==> match ((#[trigger] s[i]).1, (#[trigger] s[j]).1) {
            (None, _) => true,
            (Some(a), Some(b)) => a <= b,
            (Some(_), None) => false,
        }
    &&& forall|d: u8, w: Str| (d < k || d == current) && #[trigger] listed_on(m, d, w) ==> is_run(s, w)
}

proof fn lemma_run_here(m: Map<u8, DesktopView>, current: u8)
    ensures
        ({
            let here = match at_desk(m, current) {
                Some(d) => d.workspaces,
                None => Seq::empty(),
            };
            runs_below(m, current, 0, run_with(Seq::empty(), here, None, here.len() as int))
        }),
{
    reveal(runs_below);
    let none = Seq::<(Str, Option<u8>)>::empty();
    let here = match at_desk(m, current) {
        Some(d) => d.workspaces,
        None => Seq::empty(),
    };
    let r = run_with(none, here, None, here.len() as int);
    lemma_run_with(none, here, None, here.len() as int);
    assert forall|i: int| 0 <= i < r.len() implies (#[trigger] r[i]).1 is None && listed_on(m, current, r[i].0) by {
        assert(here.contains(r[i].0));
    }
    assert forall|d: u8, w: Str| d == current && #[trigger] listed_on(m, d, w) implies is_run(r, w) by {
        let i = choose|i: int| 0 <= i < here.len() && here[i] == w;
        assert(is_run(r, here[i]));
    }
}

proof fn lemma_run_more(m: Map<u8, DesktopView>, current: u8, k: int, s: Seq<(Str, Option<u8>)>)
    requires
        0 <= k < 256,
        runs_below(m, current, k, s),
    ensures
        ({
            let d = k as u8;
            runs_below(
                m,
                current,
                k + 1,
                if d != current && m.contains_key(d) {
                    run_with(s, m[d].workspaces, Some(d), m[d].workspaces.len() as int)
                } else {
                    s
                },
            )
        }),
{
    reveal(runs_below);
    let d = k as u8;
    if d != current && m.contains_key(d) {
        let list = m[d].workspaces;
        let r = run_with(s, list, Some(d), list.len() as int);
        lemma_run_with(s, list, Some(d), list.len() as int);
        assert forall|i: int| 0 <= i < r.len() implies match (#[trigger] r[i]).1 {
            None => listed_on(m, current, r[i].0),
            Some(x) => x != current && x < k + 1 && listed_on(m, x, r[i].0) && !listed_on(m, current, r[i].0) && forall|e: u8|
                e < x ==> !#[trigger] listed_on(m, e, r[i].0),
        } by {
            if i < s.len() {
                assert(r[i] == s[i]);
            } else {
                let w = r[i].0;
                assert(!is_run(s, w));
                assert(list.contains(w));
                if listed_on(m, current, w) {
                    assert(is_run(s, w));
                }
                assert forall|e: u8| e < d implies !#[trigger] listed_on(m, e, w) by {
                    if listed_on(m, e, w) {
                        assert(is_run(s, w));
                    }
                }
            }
        }
        assert forall|i: int, j: int| 0 <= i < j < r.len() implies match ((#[trigger] r[i]).1, (#[trigger] r[j]).1) {
            (None, _) => true,
            (Some(a), Some(b)) => a <= b,
            (Some(_), None) => false,
        } by {
            if i < s.len() {
                assert(r[i] == s[i]);
            }
            if j < s.len() {
                assert(r[j] == s[j]);
            }
        }
        assert forall|x: u8, w: Str| (x < k + 1 || x == current) && #[trigger] listed_on(m, x, w) implies is_run(r, w) by {
            if x == d {
                let i = choose|i: int| 0 <= i < list.len() && list[i] == w;
                assert(is_run(r, list[i]));
            } else {
                assert(is_run(s, w));
                let i = choose|i: int| 0 <= i < s.len() && (#[trigger] s[i]).0 == w;
                assert(r[i].0 == w);
            }
        }
    } else {
        assert forall|x: u8, w: Str| (x < k + 1 || x == current) && #[trigger] listed_on(m, x, w) implies is_run(s, w) by {
            if x == d {
                assert(x == current || !m.contains_key(x));
            }
        }
    }
}

proof fn lemma_run_upto(m: Map<u8, DesktopView>, current: u8, s: Seq<(Str, Option<u8>)>, k: int)
    requires
        0 <= k <= 256,
        runs_below(m, current, 0, s),
    ensures
        runs_below(m, current, k, run_upto(s, m, current, k)),
    decreases k,
{
    if k > 0 {
        lemma_run_upto(m, current, s, k - 1);
        lemma_run_more(m, current, k - 1, run_upto(s, m, current, k - 1));
    }
}

/// The running workspaces are those that stand in the list of a desktop, each of them once. Those of the desktop at
/// hand come first and have no desktop to go to; each other one comes with the least desktop that lists it, and
/// these come by number.
pub proof fn law_running(m: Map<u8, DesktopView>, current: u8)
    ensures
        ({
            let s = running_of(m, current);
            &&& once_each(s)
            &&& forall|d: u8, w: Str| #[trigger] listed_on(m, d, w) ==> is_run(s, w)
            &&& forall|i: int|
                0 <= i < s.len() ==> match (#[trigger] s[i]).1 {
                    None => listed_on(m, current, s[i].0),
                    Some(d) => d != current && listed_on(m, d, s[i].0) && !listed_on(m, current, s[i].0) && forall|e: u8|
                        e < d ==> !#[trigger] listed_on(m, e, s[i].0),
                }
            &&& forall|i: int, j: int|
                0 <= i < j < s.len() ==> match ((#[trigger] s[i]).1, (#[trigger] s[j]).1) {
                    (None, _) => true,
                    (Some(a), Some(b)) => a <= b,
                    (Some(_), None) => false,
                }
        }),
{
    let here = match at_desk(m, current) {
        Some(d) => d.workspaces,
        None => Seq::empty(),
    };
    let first = run_with(Seq::empty(), here, None, here.len() as int);
    lemma_run_here(m, current);
    lemma_run_upto(m, current, first, 256);
    reveal(runs_below);
}

// ---- Candidates --------------------------------------------------------------------------

proof fn lemma_described(cfg: ConfigView, entries: Seq<Str>, app: Str, i: int)
    requires
        0 <= i <= entries.len(),
    ensures
        ({
            let k = described_at(cfg, entries, app, i);
            &&& i <= k <= entries.len()
            &&& k < entries.len() ==> cfg.app_is(app, entries[k])
            &&& forall|j: int| i <= j < k ==> !cfg.app_is(app, #[trigger] entries[j])
        }),
    decreases entries.len() - i,
{
    if i < entries.len() && !cfg.app_is(app, entries[i]) {
        lemma_described(cfg, entries, app, i + 1);
    }
}

proof fn lemma_tagged(cfg: ConfigView, tagged: Seq<Str>, app: Str, i: int)
    requires
        0 <= i <= tagged.len(),
    ensures
        tagged_from(cfg, tagged, app, i) <==> exists|k: int| i <= k < tagged.len() && cfg.app_is(#[trigger] tagged[k], app),
    decreases tagged.len() - i,
{
    if i < tagged.len() {
        lemma_tagged(cfg, tagged, app, i + 1);
        if tagged_from(cfg, tagged, app, i + 1) {
            let k = choose|k: int| i + 1 <= k < tagged.len() && cfg.app_is(#[trigger] tagged[k], app);
            assert(cfg.app_is(tagged[k], app));
        }
    }
}

/// The workspace describes the application, by an entry of it or of its family.
pub open spec fn is_described(cfg: ConfigView, ws: Str, app: Str) -> bool {
    exists|k: int| 0 <= k < entry_names_of(cfg, ws).len() && cfg.app_is(app, #[trigger] entry_names_of(cfg, ws)[k])
}

/// One of the windows shows the application or a variant of it.
pub open spec fn is_tagged(cfg: ConfigView, tagged: Seq<Str>, app: Str) -> bool {
    exists|k: int| 0 <= k < tagged.len() && cfg.app_is(#[trigger] tagged[k], app)
}

proof fn lemma_rank(cfg: ConfigView, ws: Str, tagged: Seq<Str>, app: Str)
    ensures
        ({
            let names = entry_names_of(cfg, ws);
            let r = rank_in(cfg, names, tagged, app);
            &&& r is Some <==> is_described(cfg, ws, app) || is_tagged(cfg, tagged, app)
            &&& r is Some && r->0 < names.len() <==> is_described(cfg, ws, app)
            &&& r matches Some(k) ==> 0 <= k <= names.len()
            &&& r is Some && r->0 < names.len() ==> cfg.app_is(app, names[r->0]) && forall|j: int|
                0 <= j < r->0 ==> !cfg.app_is(app, #[trigger] names[j])
        }),
{
    let names = entry_names_of(cfg, ws);
    lemma_described(cfg, names, app, 0);
    lemma_tagged(cfg, tagged, app, 0);
    let k = described_at(cfg, names, app, 0);
    if k < names.len() {
        assert(cfg.app_is(app, names[k]));
    }
    if is_described(cfg, ws, app) {
        let j = choose|j: int| 0 <= j < names.len() && cfg.app_is(app, #[trigger] names[j]);
        assert(k <= j);
    }
}

proof fn lemma_best(
    cfg: ConfigView,
    entries: Seq<Str>,
    tagged: Seq<Str>,
    s: Seq<Str>,
    i: int,
    best: Option<(int, Str)>,
)
    requires
        0 <= i <= s.len(),
        best matches Some((b, a)) ==> (exists|k: int| 0 <= k < i && #[trigger] s[k] == a) && rank_in(cfg, entries, tagged, a)
            == Some(b) && forall|j: int|
            0 <= j < i && rank_in(cfg, entries, tagged, #[trigger] s[j]) is Some ==> b <= rank_in(
                cfg,
                entries,
                tagged,
                s[j],
            )->0,
        best is None ==> forall|j: int| 0 <= j < i ==> rank_in(cfg, entries, tagged, #[trigger] s[j]) is None,
    ensures
        match best_from(cfg, entries, tagged, s, i, best) {
            Some(a) => s.contains(a) && rank_in(cfg, entries, tagged, a) is Some && forall|j: int|
                0 <= j < s.len() && rank_in(cfg, entries, tagged, #[trigger] s[j]) is Some ==> rank_in(
                    cfg,
                    entries,
                    tagged,
                    a,
                )->0 <= rank_in(cfg, entries, tagged, s[j])->0,
            None => forall|j: int| 0 <= j < s.len() ==> rank_in(cfg, entries, tagged, #[trigger] s[j]) is None,
        },
    decreases s.len() - i,
{
    if i < s.len() {
        let next = match rank_in(cfg, entries, tagged, s[i]) {
            Some(r) => if best matches Some((b, _)) && b <= r {
                best
            } else {
                Some((r, s[i]))
            },
            None => best,
        };
        assert(s[i] == s[i]);
        if let Some((_, a)) = best {
            let k = choose|k: int| 0 <= k < i && #[trigger] s[k] == a;
            assert(0 <= k < i + 1 && s[k] == a);
        }
        lemma_best(cfg, entries, tagged, s, i + 1, next);
    } else if let Some((_, a)) = best {
        let k = choose|k: int| 0 <= k < i && #[trigger] s[k] == a;
        assert(s.contains(s[k]));
    }
}

/// The candidate of a workspace is one of the candidates that the workspace describes or that has a window there. There
/// is one exactly where there is such a candidate. A described one comes before one that has only a window, and
/// of described ones that whose entry stands first.
pub proof fn law_present(cfg: ConfigView, ws: Str, candidates: Seq<Str>, tagged: Seq<Str>)
    ensures
        match present_in(cfg, ws, candidates, tagged) {
            Some(a) => {
                let names = entry_names_of(cfg, ws);
                &&& candidates.contains(a)
                &&& is_described(cfg, ws, a) || is_tagged(cfg, tagged, a)
                &&& forall|b: Str| #[trigger]
                    candidates.contains(b) && is_described(cfg, ws, b) ==> is_described(cfg, ws, a)
                &&& forall|b: Str, k: int|
                    #![trigger candidates.contains(b), names[k]]
                    candidates.contains(b) && 0 <= k < names.len() && cfg.app_is(b, names[k]) ==> exists|j: int|
                        0 <= j <= k && cfg.app_is(a, #[trigger] names[j])
            },
            None => forall|b: Str| #[trigger]
                candidates.contains(b) ==> !is_described(cfg, ws, b) && !is_tagged(cfg, tagged, b),
        },
{
    let names = entry_names_of(cfg, ws);
    lemma_best(cfg, names, tagged, candidates, 0, None);
    match present_in(cfg, ws, candidates, tagged) {
        Some(a) => {
            lemma_rank(cfg, ws, tagged, a);
            assert forall|b: Str| #[trigger] candidates.contains(b) && is_described(cfg, ws, b) implies is_described(
                cfg,
                ws,
                a,
            ) by {
                lemma_rank(cfg, ws, tagged, b);
                let j = choose|j: int| 0 <= j < candidates.len() && candidates[j] == b;
                assert(rank_in(cfg, names, tagged, candidates[j]) is Some);
            }
            assert forall|b: Str, k: int|
                #![trigger candidates.contains(b), names[k]]
                candidates.contains(b) && 0 <= k < names.len() && cfg.app_is(b, names[k]) implies exists|j: int|
                0 <= j <= k && cfg.app_is(a, #[trigger] names[j]) by {
                lemma_rank(cfg, ws, tagged, b);
                assert(is_described(cfg, ws, b));
                let j = choose|j: int| 0 <= j < candidates.len() && candidates[j] == b;
                assert(rank_in(cfg, names, tagged, candidates[j]) is Some);
                let x = rank_in(cfg, names, tagged, a)->0;
                let y = rank_in(cfg, names, tagged, b)->0;
                assert(y <= k);
                assert(cfg.app_is(a, names[x]));
            }
        },
        None => {
            assert forall|b: Str| #[trigger] candidates.contains(b) implies !is_described(cfg, ws, b) && !is_tagged(
                cfg,
                tagged,
                b,
            ) by {
                let j = choose|j: int| 0 <= j < candidates.len() && candidates[j] == b;
                assert(rank_in(cfg, names, tagged, candidates[j]) is None);
                lemma_rank(cfg, ws, tagged, b);
            }
        },
    }
}

// ---- The key ------------------------------------------------------------------------------

proof fn lemma_owners(cfg: ConfigView, chain: Str, n: int)
    requires
        0 <= n <= cfg.apps.len(),
    ensures
        forall|a: Str| #[trigger]
            owners_upto(cfg, chain, n).contains(a) <==> cfg.owns(a, chain) && exists|k: int|
                0 <= k < n && (#[trigger] cfg.apps[k]).0 == a,
    decreases n,
{
    if n > 0 {
        lemma_owners(cfg, chain, n - 1);
        let p = owners_upto(cfg, chain, n - 1);
        let r = owners_upto(cfg, chain, n);
        assert forall|a: Str| #[trigger] r.contains(a) <==> cfg.owns(a, chain) && exists|k: int|
            0 <= k < n && (#[trigger] cfg.apps[k]).0 == a by {
            lemma_push(p, r, cfg.apps[n - 1].0, a);
            if p.contains(a) {
                let k = choose|k: int| 0 <= k < n - 1 && (#[trigger] cfg.apps[k]).0 == a;
                assert(cfg.apps[k].0 == a);
            }
            if exists|k: int| 0 <= k < n && (#[trigger] cfg.apps[k]).0 == a {
                let k = choose|k: int| 0 <= k < n && (#[trigger] cfg.apps[k]).0 == a;
                assert(k < n - 1 || a == cfg.apps[n - 1].0);
            }
        }
    }
}

/// The application is described and the chain is its own key.
pub open spec fn is_owner(cfg: ConfigView, chain: Str, a: Str) -> bool {
    cfg.owns(a, chain) && exists|k: int| 0 <= k < cfg.apps.len() && (#[trigger] cfg.apps[k]).0 == a
}

proof fn lemma_kept_key(cfg: ConfigView, ws: Str, own: Seq<Str>, i: int)
    requires
        0 <= i <= own.len(),
    ensures
        match kept_from(cfg, ws, own, i) {
            Some(a) => own.contains(a) && cfg.ws_has_app(ws, a) && !cfg.overrides_key(ws, a),
            None => forall|k: int| i <= k < own.len() && cfg.ws_has_app(ws, #[trigger] own[k]) ==> cfg.overrides_key(ws, own[k]),
        },
    decreases own.len() - i,
{
    if i < own.len() {
        if cfg.ws_has_app(ws, own[i]) && !cfg.overrides_key(ws, own[i]) {
            assert(own.contains(own[i]));
        } else {
            lemma_kept_key(cfg, ws, own, i + 1);
        }
    }
}

/// A workspace answers a chain with the application: by its own entry; else it describes an application whose own key
/// the chain is, without giving that another key.
pub open spec fn answers(cfg: ConfigView, ws: Str, chain: Str, a: Str) -> bool {
    ||| cfg.responds(ws, chain) == Some(a)
    ||| cfg.responds(ws, chain) is None && is_owner(cfg, chain, a) && cfg.ws_has_app(ws, a) && !cfg.overrides_key(ws, a)
}

proof fn lemma_answer(cfg: ConfigView, ws: Str, chain: Str)
    ensures
        match answer_of(cfg, ws, chain) {
            Some(a) => answers(cfg, ws, chain, a),
            None => forall|a: Str| !#[trigger] answers(cfg, ws, chain, a),
        },
{
    let own = owners_of(cfg, chain);
    lemma_owners(cfg, chain, cfg.apps.len() as int);
    lemma_kept_key(cfg, ws, own, 0);
    if answer_of(cfg, ws, chain) is None {
        assert forall|a: Str| !#[trigger] answers(cfg, ws, chain, a) by {
            if answers(cfg, ws, chain, a) {
                assert(own.contains(a));
                let k = choose|k: int| 0 <= k < own.len() && own[k] == a;
                assert(cfg.ws_has_app(ws, own[k]));
            }
        }
    }
}

proof fn lemma_answers(cfg: ConfigView, run: Seq<(Str, Option<u8>)>, chain: Str, i: int)
    requires
        0 <= i <= run.len(),
    ensures
        match answer_from(cfg, run, chain, i) {
            Some(AppRouteView::Raise { ws, app, desktop }) => answers(cfg, ws, chain, app) && exists|k: int|
                i <= k < run.len() && #[trigger] run[k] == (ws, desktop) && forall|j: int, a: Str|
                    i <= j < k ==> !#[trigger] answers(cfg, run[j].0, chain, a),
            Some(_) => false,
            None => forall|j: int, a: Str| i <= j < run.len() ==> !#[trigger] answers(cfg, run[j].0, chain, a),
        },
    decreases run.len() - i,
{
    if i < run.len() {
        lemma_answer(cfg, run[i].0, chain);
        if answer_of(cfg, run[i].0, chain) is Some {
            assert(run[i] == (run[i].0, run[i].1));
        } else {
            lemma_answers(cfg, run, chain, i + 1);
            if let Some(AppRouteView::Raise { ws, app, desktop }) = answer_from(cfg, run, chain, i + 1) {
                let k = choose|k: int|
                    i + 1 <= k < run.len() && #[trigger] run[k] == (ws, desktop) && forall|j: int, a: Str|
                        i + 1 <= j < k ==> !#[trigger] answers(cfg, run[j].0, chain, a);
                assert(run[k] == (ws, desktop));
            }
        }
    }
}

proof fn lemma_holder(cfg: ConfigView, run: Seq<(Str, Option<u8>)>, app: Str, keeps: bool, i: int)
    requires
        0 <= i <= run.len(),
    ensures
        ({
            let k = holder_from(cfg, run, app, keeps, i);
            &&& i <= k <= run.len()
            &&& k < run.len() ==> cfg.ws_has_app(run[k].0, app) && !(keeps && cfg.overrides_key(run[k].0, app))
            &&& forall|j: int|
                i <= j < k && cfg.ws_has_app((#[trigger] run[j]).0, app) ==> keeps && cfg.overrides_key(run[j].0, app)
        }),
    decreases run.len() - i,
{
    if i < run.len() && !(cfg.ws_has_app(run[i].0, app) && !(keeps && cfg.overrides_key(run[i].0, app))) {
        lemma_holder(cfg, run, app, keeps, i + 1);
    }
}

/// A running workspace describes the application.
pub open spec fn is_held(cfg: ConfigView, run: Seq<(Str, Option<u8>)>, app: Str) -> bool {
    exists|k: int| 0 <= k < run.len() && cfg.ws_has_app((#[trigger] run[k]).0, app)
}

proof fn lemma_pull(cfg: ConfigView, active: Option<Str>, run: Seq<(Str, Option<u8>)>, own: Seq<Str>, i: int)
    requires
        0 <= i <= own.len(),
    ensures
        match pull_from(cfg, active, run, own, i) {
            Some(AppRouteView::Pull { ws, app }) => active == Some(ws) && own.contains(app) && is_held(cfg, run, app),
            Some(AppRouteView::Raise { ws, app, desktop }) => active is None && own.contains(app) && cfg.ws_has_app(ws, app)
                && exists|k: int| 0 <= k < run.len() && #[trigger] run[k] == (ws, desktop),
            Some(_) => false,
            None => forall|k: int| i <= k < own.len() ==> !is_held(cfg, run, #[trigger] own[k]),
        },
    decreases own.len() - i,
{
    if i < own.len() {
        lemma_holder(cfg, run, own[i], false, 0);
        let k = holder_from(cfg, run, own[i], false, 0);
        if k < run.len() {
            assert(own.contains(own[i]));
            assert(run[k] == (run[k].0, run[k].1));
            assert(is_held(cfg, run, own[i]));
        } else {
            if is_held(cfg, run, own[i]) {
                let j = choose|j: int| 0 <= j < run.len() && cfg.ws_has_app((#[trigger] run[j]).0, own[i]);
                assert(run[j] == run[j]);
            }
            lemma_pull(cfg, active, run, own, i + 1);
        }
    }
}

proof fn lemma_given(cfg: ConfigView, chain: Str, i: int)
    requires
        0 <= i <= cfg.apps.len(),
    ensures
        match given_from(cfg, chain, i) {
            Some(a) => cfg.assigned(a, chain) && exists|k: int| i <= k < cfg.apps.len() && (#[trigger] cfg.apps[k]).0 == a,
            None => forall|k: int| i <= k < cfg.apps.len() ==> !cfg.assigned((#[trigger] cfg.apps[k]).0, chain),
        },
    decreases cfg.apps.len() - i,
{
    if i < cfg.apps.len() {
        if cfg.assigned(cfg.apps[i].0, chain) {
            assert(cfg.apps[i].0 == cfg.apps[i].0);
        } else {
            lemma_given(cfg, chain, i + 1);
            if let Some(a) = given_from(cfg, chain, i + 1) {
                let k = choose|k: int| i + 1 <= k < cfg.apps.len() && (#[trigger] cfg.apps[k]).0 == a;
                assert(cfg.apps[k].0 == a);
            }
        }
    }
}

/// The active workspace holds the key: it answers the chain by its own entry, or a candidate of the chain is
/// described there or has a window there.
pub open spec fn is_here(cfg: ConfigView, w: Str, chain: Str, tagged: Seq<Str>) -> bool {
    ||| cfg.responds(w, chain) is Some
    ||| exists|a: Str| #[trigger]
        cfg.key_candidates(chain).contains(a) && (is_described(cfg, w, a) || is_tagged(cfg, tagged, a))
}

/// Where a key leads. In the active workspace it walks exactly where that holds the key, and where its own entry answers
/// the chain, to that application. Else the first running workspace that answers is raised. Else, where an
/// application with this key of its own is described by a running workspace, it is pulled into the active one, or
/// raised there where none is active. Else an application whose own key the chain is, and without one an application
/// to which some workspace gives the chain, is opened in the active workspace, or outside workspaces where none is
/// active; and the key leads nowhere exactly where there is no such application either.
pub proof fn law_key_route(cfg: ConfigView, m: Map<u8, DesktopView>, current: u8, chain: Str, tagged: Seq<Str>)
    ensures
        ({
            let active = active_at(m, current);
            let run = running_of(m, current);
            let here = active is Some && is_here(cfg, active->0, chain, tagged);
            let answered = exists|k: int, a: Str| 0 <= k < run.len() && #[trigger] answers(cfg, run[k].0, chain, a);
            let held = exists|a: Str| #[trigger] is_owner(cfg, chain, a) && is_held(cfg, run, a);
            let owned = exists|a: Str| #[trigger] is_owner(cfg, chain, a);
            let given = exists|k: int| 0 <= k < cfg.apps.len() && cfg.assigned((#[trigger] cfg.apps[k]).0, chain);
            match route_of(cfg, m, current, chain, tagged) {
                Some(AppRouteView::Cycle { ws, app }) => {
                    &&& here && active == Some(ws)
                    &&& cfg.responds(ws, chain) is Some ==> app == cfg.responds(ws, chain)->0
                    &&& cfg.responds(ws, chain) is None ==> cfg.key_candidates(chain).contains(app) && (is_described(
                        cfg,
                        ws,
                        app,
                    ) || is_tagged(cfg, tagged, app))
                },
                Some(AppRouteView::Raise { ws, app, desktop }) => {
                    &&& !here
                    &&& exists|k: int| 0 <= k < run.len() && #[trigger] run[k] == (ws, desktop)
                    &&& answered ==> answers(cfg, ws, chain, app)
                    &&& !answered ==> active is None && is_owner(cfg, chain, app) && cfg.ws_has_app(ws, app)
                },
                Some(AppRouteView::Pull { ws, app }) => !here && !answered && active == Some(ws) && is_owner(cfg, chain, app)
                    && is_held(cfg, run, app),
                Some(AppRouteView::Open { ws, app }) => !here && !answered && !held && active == Some(ws) && (if owned {
                    is_owner(cfg, chain, app)
                } else {
                    cfg.assigned(app, chain)
                }),
                Some(AppRouteView::Free { app }) => !here && !answered && !held && active is None && (if owned {
                    is_owner(cfg, chain, app)
                } else {
                    cfg.assigned(app, chain)
                }),
                None => !here && !answered && !owned && !given,
            }
        }),
{
    let active = active_at(m, current);
    let run = running_of(m, current);
    let own = owners_of(cfg, chain);
    lemma_owners(cfg, chain, cfg.apps.len() as int);
    lemma_answers(cfg, run, chain, 0);
    lemma_pull(cfg, active, run, own, 0);
    lemma_given(cfg, chain, 0);
    assert forall|a: Str| #[trigger] own.contains(a) <==> is_owner(cfg, chain, a) by {}
    if let Some(w) = active {
        law_present(cfg, w, cfg.key_candidates(chain), tagged);
        assert((here_of(cfg, active, chain, tagged) is Some) == is_here(cfg, w, chain, tagged));
    }
    if own.len() > 0 {
        assert(own.contains(own[0]));
        assert(is_owner(cfg, chain, own[0]));
    }
    if exists|a: Str| #[trigger] is_owner(cfg, chain, a) {
        let a = choose|a: Str| #[trigger] is_owner(cfg, chain, a);
        assert(own.contains(a));
    }
    if pull_from(cfg, active, run, own, 0) is None {
        assert forall|a: Str| #[trigger] is_owner(cfg, chain, a) implies !is_held(cfg, run, a) by {
            assert(own.contains(a));
            let k = choose|k: int| 0 <= k < own.len() && own[k] == a;
            assert(!is_held(cfg, run, own[k]));
        }
    }
    if let Some(AppRouteView::Raise { ws, app, desktop }) = answer_from(cfg, run, chain, 0) {
        let k = choose|k: int|
            0 <= k < run.len() && #[trigger] run[k] == (ws, desktop) && forall|j: int, a: Str|
                0 <= j < k ==> !#[trigger] answers(cfg, run[j].0, chain, a);
        assert(answers(cfg, run[k].0, chain, app));
    }
}

// ---- The command --------------------------------------------------------------------------

/// Where the command of one application leads. In the active workspace, where that describes the application, a walk;
/// else with `pull` a pull into it; else a walk where a window of the application is there. Else a running workspace
/// that describes it and does not change its key is raised; else one that describes it makes it be pulled in, or is
/// raised where none is active; else the application is opened in the active workspace or outside workspaces.
pub proof fn law_command_step(
    cfg: ConfigView,
    active: Option<Str>,
    run: Seq<(Str, Option<u8>)>,
    app: Str,
    pull: bool,
    tagged: Seq<Str>,
)
    ensures
        ({
            let (s, r) = step_of(cfg, active, run, app, pull, tagged);
            let kept = |v: (Str, Option<u8>)| cfg.ws_has_app(v.0, app) && !cfg.overrides_key(v.0, app);
            let described = active is Some && cfg.ws_has_app(active->0, app);
            let inside = active is Some && (described || pull || is_tagged(cfg, tagged, app));
            let raised = exists|k: int| 0 <= k < run.len() && kept(#[trigger] run[k]);
            &&& r.called() == app
            &&& described ==> r == (AppRouteView::Cycle { ws: active->0, app }) && s == (if cfg.overrides_key(active->0, app) {
                2int
            } else {
                1int
            })
            &&& active is Some && !described && pull ==> s == 2 && r == (AppRouteView::Pull { ws: active->0, app })
            &&& active is Some && !described && !pull && is_tagged(cfg, tagged, app) ==> s == 2 && r == (AppRouteView::Cycle {
                ws: active->0,
                app,
            })
            &&& !inside && raised ==> s == 3 && exists|k: int|
                0 <= k < run.len() && kept(#[trigger] run[k]) && r == (AppRouteView::Raise { ws: run[k].0, app, desktop: run[k].1 })
                    && forall|j: int| 0 <= j < k ==> !kept(#[trigger] run[j])
            &&& !inside && !raised && is_held(cfg, run, app) ==> s == 4 && match active {
                Some(w) => r == (AppRouteView::Pull { ws: w, app }),
                None => exists|k: int|
                    0 <= k < run.len() && cfg.ws_has_app((#[trigger] run[k]).0, app) && r == (AppRouteView::Raise {
                        ws: run[k].0,
                        app,
                        desktop: run[k].1,
                    }),
            }
            &&& !inside && !is_held(cfg, run, app) ==> s == 5 && match active {
                Some(w) => r == (AppRouteView::Open { ws: w, app }),
                None => r == (AppRouteView::Free { app }),
            }
        }),
{
    let kept = |v: (Str, Option<u8>)| cfg.ws_has_app(v.0, app) && !cfg.overrides_key(v.0, app);
    lemma_tagged(cfg, tagged, app, 0);
    lemma_holder(cfg, run, app, true, 0);
    lemma_holder(cfg, run, app, false, 0);
    let k = holder_from(cfg, run, app, true, 0);
    let j = holder_from(cfg, run, app, false, 0);
    if k < run.len() {
        assert(kept(run[k]));
        assert(is_held(cfg, run, app));
    }
    if exists|i: int| 0 <= i < run.len() && kept(#[trigger] run[i]) {
        let i = choose|i: int| 0 <= i < run.len() && kept(#[trigger] run[i]);
        assert(run[i] == run[i]);
        assert(k <= i);
    }
    if j < run.len() {
        assert(cfg.ws_has_app(run[j].0, app));
    }
    if is_held(cfg, run, app) {
        let i = choose|i: int| 0 <= i < run.len() && cfg.ws_has_app((#[trigger] run[i]).0, app);
        assert(j <= i);
    }
}

proof fn lemma_earliest(
    cfg: ConfigView,
    active: Option<Str>,
    run: Seq<(Str, Option<u8>)>,
    apps: Seq<Str>,
    pull: bool,
    tagged: Seq<Str>,
    i: int,
    best: int,
)
    requires
        0 <= best < i <= apps.len(),
        forall|j: int|
            0 <= j < i ==> step_of(cfg, active, run, apps[best], pull, tagged).0 <= step_of(
                cfg,
                active,
                run,
                #[trigger] apps[j],
                pull,
                tagged,
            ).0,
        forall|j: int|
            0 <= j < best ==> step_of(cfg, active, run, apps[best], pull, tagged).0 < step_of(
                cfg,
                active,
                run,
                #[trigger] apps[j],
                pull,
                tagged,
            ).0,
    ensures
        ({
            let r = earliest_from(
                cfg,
                active,
                run,
                apps,
                pull,
                tagged,
                i,
                Some(step_of(cfg, active, run, apps[best], pull, tagged)),
            );
            exists|k: int|
                0 <= k < apps.len() && r == step_of(cfg, active, run, #[trigger] apps[k], pull, tagged).1 && is_earliest(
                    cfg,
                    active,
                    run,
                    apps,
                    pull,
                    tagged,
                    k,
                )
        }),
    decreases apps.len() - i,
{
    if i < apps.len() {
        let s = step_of(cfg, active, run, apps[i], pull, tagged);
        let b = step_of(cfg, active, run, apps[best], pull, tagged);
        if b.0 <= s.0 {
            lemma_earliest(cfg, active, run, apps, pull, tagged, i + 1, best);
        } else {
            assert forall|j: int| 0 <= j < i + 1 implies s.0 <= step_of(
                cfg,
                active,
                run,
                #[trigger] apps[j],
                pull,
                tagged,
            ).0 by {
                if j < i {
                    assert(b.0 <= step_of(cfg, active, run, apps[j], pull, tagged).0);
                }
            }
            assert forall|j: int| 0 <= j < i implies s.0 < step_of(cfg, active, run, #[trigger] apps[j], pull, tagged).0 by {
                assert(b.0 <= step_of(cfg, active, run, apps[j], pull, tagged).0);
            }
            lemma_earliest(cfg, active, run, apps, pull, tagged, i + 1, i);
        }
    } else {
        assert(is_earliest(cfg, active, run, apps, pull, tagged, best));
        assert(apps[best] == apps[best]);
    }
}

/// No other application is found at an earlier step, and none before it at the same.
pub open spec fn is_earliest(
    cfg: ConfigView,
    active: Option<Str>,
    run: Seq<(Str, Option<u8>)>,
    apps: Seq<Str>,
    pull: bool,
    tagged: Seq<Str>,
    k: int,
) -> bool {
    let own = step_of(cfg, active, run, apps[k], pull, tagged).0;
    &&& forall|j: int| 0 <= j < apps.len() ==> own <= step_of(cfg, active, run, #[trigger] apps[j], pull, tagged).0
    &&& forall|j: int| 0 <= j < k ==> own < step_of(cfg, active, run, #[trigger] apps[j], pull, tagged).0
}

/// The command of several applications takes the route of the one that is found at the earliest step, and of those
/// found at the same step the first.
pub proof fn law_command_route(
    cfg: ConfigView,
    m: Map<u8, DesktopView>,
    current: u8,
    apps: Seq<Str>,
    pull: bool,
    tagged: Seq<Str>,
)
    requires
        apps.len() > 0,
    ensures
        ({
            let active = active_at(m, current);
            let run = running_of(m, current);
            exists|k: int|
                0 <= k < apps.len() && command_route(cfg, m, current, apps, pull, tagged) == step_of(
                    cfg,
                    active,
                    run,
                    #[trigger] apps[k],
                    pull,
                    tagged,
                ).1 && is_earliest(cfg, active, run, apps, pull, tagged, k)
        }),
{
    lemma_earliest(cfg, active_at(m, current), running_of(m, current), apps, pull, tagged, 1, 0);
}

/// What carries a route out keeps its workspace and its application: a walk in the workspace that begins anew exactly
/// where the same command raised it; a raise with the desktop of the route; a pull that pulls, and an opening that
/// does not.
pub proof fn law_route_step(route: AppRouteView, raised: bool)
    ensures
        match route {
            AppRouteView::Cycle { ws, app } => {
                &&& route.step(true, false) == (RouteStepView::Walk { ws, app, start: Start::Raised })
                &&& route.step(false, false) == (RouteStepView::Walk { ws, app, start: Start::Continue })
                &&& route.step(raised, true) == (RouteStepView::New { ws: Some(ws), app })
            },
            AppRouteView::Raise { ws, app, desktop } => {
                &&& route.step(raised, false) == (RouteStepView::RaiseWalk { ws, app, desktop })
                &&& route.step(raised, true) == (RouteStepView::RaiseNew { ws, app, desktop })
            },
            AppRouteView::Pull { ws, app } => {
                &&& route.step(raised, false) == (RouteStepView::Bring { ws, app, pull: true })
                &&& route.step(raised, true) == (RouteStepView::New { ws: Some(ws), app })
            },
            AppRouteView::Open { ws, app } => {
                &&& route.step(raised, false) == (RouteStepView::Bring { ws, app, pull: false })
                &&& route.step(raised, true) == (RouteStepView::New { ws: Some(ws), app })
            },
            AppRouteView::Free { app } => {
                &&& route.step(raised, false) == (RouteStepView::WalkFree { app })
                &&& route.step(raised, true) == (RouteStepView::New { ws: None, app })
            },
        },
{
}

// ---- Windows of the active workspace ------------------------------------------------------

proof fn lemma_tagged_upto(clients: Seq<Client>, ws: Str, k: int)
    requires
        0 <= k <= clients.len(),
    ensures
        forall|a: Str| #[trigger]
            tagged_upto(clients, ws, k).contains(a) <==> exists|i: int|
                0 <= i < k && app_of(#[trigger] clients[i]) == Some(a) && in_ws(clients[i], ws),
    decreases k,
{
    if k > 0 {
        lemma_tagged_upto(clients, ws, k - 1);
        let p = tagged_upto(clients, ws, k - 1);
        let r = tagged_upto(clients, ws, k);
        let c = clients[k - 1];
        assert forall|a: Str| #[trigger] r.contains(a) <==> exists|i: int|
            0 <= i < k && app_of(#[trigger] clients[i]) == Some(a) && in_ws(clients[i], ws) by {
            if let Some(x) = app_of(c) {
                lemma_push(p, r, x, a);
            }
            if p.contains(a) {
                let i = choose|i: int| 0 <= i < k - 1 && app_of(#[trigger] clients[i]) == Some(a) && in_ws(clients[i], ws);
                assert(app_of(clients[i]) == Some(a));
            }
            if exists|i: int| 0 <= i < k && app_of(#[trigger] clients[i]) == Some(a) && in_ws(clients[i], ws) {
                let i = choose|i: int| 0 <= i < k && app_of(#[trigger] clients[i]) == Some(a) && in_ws(clients[i], ws);
                assert(i < k - 1 || i == k - 1);
            }
        }
    }
}

/// A key finds windows of exactly those applications that a window of the workspace shows.
pub proof fn law_tagged(clients: Seq<Client>, ws: Str)
    ensures
        forall|a: Str| #[trigger]
            tagged_upto(clients, ws, clients.len() as int).contains(a) <==> exists|i: int|
                0 <= i < clients.len() && app_of(#[trigger] clients[i]) == Some(a) && in_ws(clients[i], ws),
{
    lemma_tagged_upto(clients, ws, clients.len() as int);
}

proof fn lemma_unknown_from(cfg: ConfigView, apps: Seq<Str>, i: int)
    requires
        0 <= i <= apps.len(),
    ensures
        match first_unknown(cfg, apps, i) {
            Some(a) => !tab_has(cfg.apps, a) && exists|k: int|
                i <= k < apps.len() && #[trigger] apps[k] == a && forall|j: int| i <= j < k ==> tab_has(cfg.apps, #[trigger] apps[j]),
            None => forall|k: int| i <= k < apps.len() ==> tab_has(cfg.apps, #[trigger] apps[k]),
        },
    decreases apps.len() - i,
{
    if i < apps.len() {
        if tab_has(cfg.apps, apps[i]) {
            lemma_unknown_from(cfg, apps, i + 1);
            if let Some(a) = first_unknown(cfg, apps, i + 1) {
                let k = choose|k: int|
                    i + 1 <= k < apps.len() && #[trigger] apps[k] == a && forall|j: int|
                        i + 1 <= j < k ==> tab_has(cfg.apps, #[trigger] apps[j]);
                assert(apps[k] == a);
            }
        } else {
            assert(apps[i] == apps[i]);
        }
    }
}

/// A command of applications fails at the first one that the configuration does not have, and only there.
pub proof fn law_first_unknown(cfg: ConfigView, apps: Seq<Str>)
    ensures
        match first_unknown(cfg, apps, 0) {
            Some(a) => !tab_has(cfg.apps, a) && exists|k: int|
                0 <= k < apps.len() && #[trigger] apps[k] == a && forall|j: int| 0 <= j < k ==> tab_has(cfg.apps, #[trigger] apps[j]),
            None => forall|k: int| 0 <= k < apps.len() ==> tab_has(cfg.apps, #[trigger] apps[k]),
        },
{
    lemma_unknown_from(cfg, apps, 0);
}

} // verus!
