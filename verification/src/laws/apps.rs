//! Applications, their families and their keys, and the windows that they fit.
use vstd::prelude::*;

use crate::chain::same_chain_of;
use crate::config::{ConfigView, WsAppView};
use crate::hypr::{on_hidden, Client};
use crate::laws::windows::lemma_push;
use crate::restore::given;
use crate::table::{lemma_find, lemma_find_at, tab_find, tab_sorted};
use crate::text::Str;
use crate::windows::{first_of, fit_from, fits_app, fitting_app, visible_from};

verus! {

/// The application is this one or a variant of it.
pub open spec fn is_or_varies(cfg: ConfigView, app: Str, target: Str) -> bool {
    app == target || exists|i: int|
        0 <= i < cfg.apps.len() && (#[trigger] cfg.apps[i]).0 == app && cfg.apps[i].1.family == Some(target)
}

/// An application goes by itself and by the family that its own description names, and by nothing else.
pub proof fn law_app_is(cfg: ConfigView, app: Str, target: Str)
    requires
        tab_sorted(cfg.apps),
    ensures
        cfg.app_is(app, target) <==> is_or_varies(cfg, app, target),
{
    lemma_find(cfg.apps, app, 0);
    let k = tab_find(cfg.apps, app, 0);
    if k < cfg.apps.len() {
        assert(cfg.apps[k].0 == app);
    }
    if exists|i: int| 0 <= i < cfg.apps.len() && (#[trigger] cfg.apps[i]).0 == app && cfg.apps[i].1.family == Some(target) {
        let i = choose|i: int|
            0 <= i < cfg.apps.len() && (#[trigger] cfg.apps[i]).0 == app && cfg.apps[i].1.family == Some(target);
        lemma_find_at(cfg.apps, i);
    }
}

proof fn lemma_described(cfg: ConfigView, s: Seq<(Str, WsAppView)>, app: Str, i: int)
    requires
        0 <= i <= s.len(),
    ensures
        cfg.described_from(s, app, i) <==> exists|k: int| i <= k < s.len() && cfg.app_is(app, (#[trigger] s[k]).0),
    decreases s.len() - i,
{
    if i < s.len() {
        lemma_described(cfg, s, app, i + 1);
        if cfg.described_from(s, app, i + 1) {
            let k = choose|k: int| i + 1 <= k < s.len() && cfg.app_is(app, (#[trigger] s[k]).0);
            assert(cfg.app_is(app, s[k].0));
        }
    }
}

/// A workspace describes exactly the applications that have an entry in it, and the variants of those.
pub proof fn law_describes(cfg: ConfigView, ws: Str, app: Str)
    requires
        tab_sorted(cfg.apps),
    ensures
        cfg.ws_has_app(ws, app) <==> exists|k: int|
            0 <= k < cfg.entries(ws).len() && is_or_varies(cfg, app, (#[trigger] cfg.entries(ws)[k]).0),
{
    let s = cfg.entries(ws);
    lemma_described(cfg, s, app, 0);
    if exists|k: int| 0 <= k < s.len() && cfg.app_is(app, (#[trigger] s[k]).0) {
        let k = choose|k: int| 0 <= k < s.len() && cfg.app_is(app, (#[trigger] s[k]).0);
        law_app_is(cfg, app, s[k].0);
    }
    if exists|k: int| 0 <= k < s.len() && is_or_varies(cfg, app, (#[trigger] s[k]).0) {
        let k = choose|k: int| 0 <= k < s.len() && is_or_varies(cfg, app, (#[trigger] s[k]).0);
        law_app_is(cfg, app, s[k].0);
    }
}

/// The entry of an application in a workspace is its own where it has one, else that of its family, and it is an entry
/// of the workspace.
pub proof fn law_entry(cfg: ConfigView, ws: Str, app: Str)
    ensures
        ({
            let s = cfg.entries(ws);
            let has_own = exists|k: int| 0 <= k < s.len() && (#[trigger] s[k]).0 == app;
            match cfg.ws_entry(ws, app) {
                Some((n, e)) => {
                    &&& exists|k: int| 0 <= k < s.len() && #[trigger] s[k] == (n, e)
                    &&& has_own ==> n == app
                    &&& !has_own ==> cfg.family_of(app) == Some(n)
                },
                None => !has_own && (cfg.family_of(app) matches Some(f) ==> forall|k: int|
                    0 <= k < s.len() ==> (#[trigger] s[k]).0 != f),
            }
        }),
{
    let s = cfg.entries(ws);
    lemma_find(s, app, 0);
    let i = tab_find(s, app, 0);
    if i < s.len() {
        assert(s[i] == (s[i].0, s[i].1));
    }
    if let Some(f) = cfg.family_of(app) {
        lemma_find(s, f, 0);
        let j = tab_find(s, f, 0);
        if j < s.len() {
            assert(s[j] == (s[j].0, s[j].1));
        }
    }
}

/// The key of an application in a workspace: its own, unless its entry there gives it another one, which then holds; two
/// chains are another where they do not stand for the same keys.
pub proof fn law_app_key(cfg: ConfigView, ws: Str, app: Str)
    ensures
        ({
            let given = cfg.entry_key(ws, app);
            let own = cfg.own_key(app);
            let key = cfg.app_key(ws, app);
            &&& given is None ==> key == own && !cfg.overrides_key(ws, app)
            &&& given is Some && own is None ==> key == given && cfg.overrides_key(ws, app)
            &&& given is Some && own is Some && !same_chain_of(given->0, own->0) ==> key == given && cfg.overrides_key(ws, app)
            &&& given is Some && own is Some && same_chain_of(given->0, own->0) ==> key == own && !cfg.overrides_key(ws, app)
        }),
{
}

/// The key of the application in the workspace is the chain.
pub open spec fn has_key(cfg: ConfigView, ws: Str, app: Str, chain: Str) -> bool {
    cfg.app_key(ws, app) is Some && same_chain_of(cfg.app_key(ws, app)->0, chain)
}

proof fn lemma_responds(cfg: ConfigView, ws: Str, chain: Str, i: int)
    requires
        0 <= i <= cfg.entries(ws).len(),
    ensures
        ({
            let s = cfg.entries(ws);
            match cfg.responds_from(ws, chain, i) {
                Some(a) => exists|k: int|
                    i <= k < s.len() && (#[trigger] s[k]).0 == a && has_key(cfg, ws, a, chain) && forall|j: int|
                        i <= j < k ==> !has_key(cfg, ws, (#[trigger] s[j]).0, chain),
                None => forall|k: int| i <= k < s.len() ==> !has_key(cfg, ws, (#[trigger] s[k]).0, chain),
            }
        }),
    decreases cfg.entries(ws).len() - i,
{
    let s = cfg.entries(ws);
    if i < s.len() {
        if has_key(cfg, ws, s[i].0, chain) {
            assert(s[i].0 == s[i].0);
        } else {
            lemma_responds(cfg, ws, chain, i + 1);
            if let Some(a) = cfg.responds_from(ws, chain, i + 1) {
                let k = choose|k: int|
                    i + 1 <= k < s.len() && (#[trigger] s[k]).0 == a && has_key(cfg, ws, a, chain) && forall|j: int|
                        i + 1 <= j < k ==> !has_key(cfg, ws, (#[trigger] s[j]).0, chain);
                assert(s[k].0 == a);
            }
        }
    }
}

/// A workspace answers a chain with the first application of its entries whose key there is the chain, and does not
/// answer it exactly where there is none.
pub proof fn law_responds(cfg: ConfigView, ws: Str, chain: Str)
    ensures
        ({
            let s = cfg.entries(ws);
            match cfg.responds(ws, chain) {
                Some(a) => exists|k: int|
                    0 <= k < s.len() && (#[trigger] s[k]).0 == a && has_key(cfg, ws, a, chain) && forall|j: int|
                        0 <= j < k ==> !has_key(cfg, ws, (#[trigger] s[j]).0, chain),
                None => forall|k: int| 0 <= k < s.len() ==> !has_key(cfg, ws, (#[trigger] s[k]).0, chain),
            }
        }),
{
    lemma_responds(cfg, ws, chain, 0);
}

/// The workspace gives the application the chain as another key than its own.
pub open spec fn gives_key(cfg: ConfigView, ws: Str, app: Str, chain: Str) -> bool {
    cfg.overrides_key(ws, app) && has_key(cfg, ws, app, chain)
}

proof fn lemma_assigned(cfg: ConfigView, app: Str, chain: Str, i: int)
    requires
        0 <= i <= cfg.workspaces.len(),
    ensures
        cfg.assigned_from(app, chain, i) <==> exists|k: int|
            i <= k < cfg.workspaces.len() && gives_key(cfg, (#[trigger] cfg.workspaces[k]).0, app, chain),
    decreases cfg.workspaces.len() - i,
{
    if i < cfg.workspaces.len() {
        lemma_assigned(cfg, app, chain, i + 1);
        assert(gives_key(cfg, cfg.workspaces[i].0, app, chain) == (cfg.entry_key(cfg.workspaces[i].0, app) is Some
            && same_chain_of(cfg.entry_key(cfg.workspaces[i].0, app)->0, chain) && cfg.overrides_key(
            cfg.workspaces[i].0,
            app,
        )));
        if cfg.assigned_from(app, chain, i + 1) {
            let k = choose|k: int|
                i + 1 <= k < cfg.workspaces.len() && gives_key(cfg, (#[trigger] cfg.workspaces[k]).0, app, chain);
            assert(gives_key(cfg, cfg.workspaces[k].0, app, chain));
        }
    }
}

proof fn lemma_candidates(cfg: ConfigView, chain: Str, n: int)
    requires
        0 <= n <= cfg.apps.len(),
    ensures
        forall|a: Str| #[trigger]
            cfg.candidates_upto(chain, n).contains(a) <==> (cfg.owns(a, chain) || cfg.assigned(a, chain)) && exists|k: int|
                0 <= k < n && (#[trigger] cfg.apps[k]).0 == a,
    decreases n,
{
    if n > 0 {
        lemma_candidates(cfg, chain, n - 1);
        let p = cfg.candidates_upto(chain, n - 1);
        let r = cfg.candidates_upto(chain, n);
        assert forall|a: Str| #[trigger] r.contains(a) <==> (cfg.owns(a, chain) || cfg.assigned(a, chain)) && exists|k: int|
            0 <= k < n && (#[trigger] cfg.apps[k]).0 == a by {
            lemma_push(p, r, cfg.apps[n - 1].0, a);
            if p.contains(a) {
                let k = choose|k: int| 0 <= k < n - 1 && (#[trigger] cfg.apps[k]).0 == a;
                assert(cfg.apps[k].0 == a);
            }
            if exists|k: int| 0 <= k < n && (#[trigger] cfg.apps[k]).0 == a {
                let k = choose|k: int| 0 <= k < n && (#[trigger] cfg.apps[k]).0 == a;
                assert(k < n - 1 || a == cfg.apps[n - 1].0);
            }
        }
    }
}

/// A chain may call exactly the applications whose own key it is, and those to which some workspace gives it as another
/// key.
pub proof fn law_candidates(cfg: ConfigView, chain: Str)
    ensures
        forall|a: Str| #[trigger]
            cfg.key_candidates(chain).contains(a) <==> (exists|k: int| 0 <= k < cfg.apps.len() && (#[trigger] cfg.apps[k]).0 == a)
                && ((cfg.own_key(a) is Some && same_chain_of(cfg.own_key(a)->0, chain)) || exists|k: int|
                0 <= k < cfg.workspaces.len() && gives_key(cfg, (#[trigger] cfg.workspaces[k]).0, a, chain)),
{
    lemma_candidates(cfg, chain, cfg.apps.len() as int);
    assert forall|a: Str| #[trigger] cfg.key_candidates(chain).contains(a) <==> (exists|k: int|
        0 <= k < cfg.apps.len() && (#[trigger] cfg.apps[k]).0 == a) && ((cfg.own_key(a) is Some && same_chain_of(
        cfg.own_key(a)->0,
        chain,
    )) || exists|k: int| 0 <= k < cfg.workspaces.len() && gives_key(cfg, (#[trigger] cfg.workspaces[k]).0, a, chain)) by {
        lemma_assigned(cfg, a, chain, 0);
    }
}

proof fn lemma_fit(cfg: ConfigView, c: Client, variants: bool, i: int)
    requires
        0 <= i <= cfg.apps.len(),
    ensures
        match fit_from(cfg, c, variants, i) {
            Some(a) => exists|k: int|
                i <= k < cfg.apps.len() && (#[trigger] cfg.apps[k]).0 == a && fits_as(cfg, k, c, variants) && forall|j: int|
                    i <= j < k ==> !#[trigger] fits_as(cfg, j, c, variants),
            None => forall|j: int| i <= j < cfg.apps.len() ==> !#[trigger] fits_as(cfg, j, c, variants),
        },
    decreases cfg.apps.len() - i,
{
    if i < cfg.apps.len() {
        if fits_as(cfg, i, c, variants) {
            assert(cfg.apps[i].0 == cfg.apps[i].0);
        } else {
            lemma_fit(cfg, c, variants, i + 1);
            if let Some(a) = fit_from(cfg, c, variants, i + 1) {
                let k = choose|k: int|
                    i + 1 <= k < cfg.apps.len() && (#[trigger] cfg.apps[k]).0 == a && fits_as(cfg, k, c, variants) && forall|j: int|
                        i + 1 <= j < k ==> !#[trigger] fits_as(cfg, j, c, variants);
                assert(cfg.apps[k].0 == a);
            }
        }
    }
}

/// The window fits the application of this number, which is a variant or is not.
pub open spec fn fits_as(cfg: ConfigView, i: int, c: Client, variants: bool) -> bool {
    (cfg.family_of(cfg.apps[i].0) is Some) == variants && fits_app(cfg, i, c)
}

/// The application of a window is one that it fits: the first variant that it fits where it fits one, else the first
/// other application; and it has none exactly where it fits none.
pub proof fn law_fitting(cfg: ConfigView, c: Client)
    ensures
        ({
            let varies = exists|k: int| 0 <= k < cfg.apps.len() && #[trigger] fits_as(cfg, k, c, true);
            match fitting_app(cfg, c) {
                Some(a) => exists|k: int|
                    0 <= k < cfg.apps.len() && (#[trigger] cfg.apps[k]).0 == a && fits_as(cfg, k, c, varies) && forall|j: int|
                        0 <= j < k ==> !#[trigger] fits_as(cfg, j, c, varies),
                None => forall|j: int| 0 <= j < cfg.apps.len() ==> !#[trigger] fits_app(cfg, j, c),
            }
        }),
{
    lemma_fit(cfg, c, true, 0);
    lemma_fit(cfg, c, false, 0);
    if fitting_app(cfg, c) is None {
        assert forall|j: int| 0 <= j < cfg.apps.len() implies !#[trigger] fits_app(cfg, j, c) by {
            assert(!fits_as(cfg, j, c, true) && !fits_as(cfg, j, c, false));
        }
    }
    if fit_from(cfg, c, true, 0) is Some {
        let a = fit_from(cfg, c, true, 0)->0;
        let k = choose|k: int|
            0 <= k < cfg.apps.len() && (#[trigger] cfg.apps[k]).0 == a && fits_as(cfg, k, c, true) && forall|j: int|
                0 <= j < k ==> !#[trigger] fits_as(cfg, j, c, true);
        assert(fits_as(cfg, k, c, true));
    }
}

/// The first window of a list is the first one that is not hidden; only where all are hidden it is the first of all.
pub proof fn law_first_window(s: Seq<Client>)
    ensures
        match first_of(s) {
            Some(c) => exists|k: int|
                0 <= k < s.len() && #[trigger] s[k] == c && (on_hidden(c) ==> k == 0 && forall|j: int|
                    0 <= j < s.len() ==> on_hidden(#[trigger] s[j])) && (!on_hidden(c) ==> forall|j: int|
                    0 <= j < k ==> on_hidden(#[trigger] s[j])),
            None => s.len() == 0,
        },
{
    lemma_first_visible(s, 0);
    if let Some(c) = visible_from(s, 0) {
        let k = choose|k: int|
            0 <= k < s.len() && #[trigger] s[k] == c && !on_hidden(c) && forall|j: int| 0 <= j < k ==> on_hidden(#[trigger] s[j]);
        assert(s[k] == c);
    } else if s.len() > 0 {
        assert(on_hidden(s[0]));
    }
}

proof fn lemma_first_visible(s: Seq<Client>, i: int)
    requires
        0 <= i <= s.len(),
    ensures
        match visible_from(s, i) {
            Some(c) => exists|k: int|
                i <= k < s.len() && #[trigger] s[k] == c && !on_hidden(c) && forall|j: int|
                    i <= j < k ==> on_hidden(#[trigger] s[j]),
            None => forall|j: int| i <= j < s.len() ==> on_hidden(#[trigger] s[j]),
        },
    decreases s.len() - i,
{
    if i < s.len() {
        if on_hidden(s[i]) {
            lemma_first_visible(s, i + 1);
            if let Some(c) = visible_from(s, i + 1) {
                let k = choose|k: int|
                    i + 1 <= k < s.len() && #[trigger] s[k] == c && !on_hidden(c) && forall|j: int|
                        i + 1 <= j < k ==> on_hidden(#[trigger] s[j]);
                assert(s[k] == c);
            }
        } else {
            assert(s[i] == s[i]);
        }
    }
}

} // verus!
