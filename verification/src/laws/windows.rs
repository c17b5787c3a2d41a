//! Which windows the entries of a workspace place.
use vstd::prelude::*;

use crate::config::ConfigView;
use crate::cycle::{shown, shown_upto};
use crate::effects::{lemma_runs_more, runs};
use crate::home::entry_names_of;
use crate::hypr::{app_instance, app_of, in_ws, on_hidden, Client};
use crate::text::{str_lt, Str};
use crate::windows::{law_windows_in_order, members, members_upto, own_upto, own_windows, placed, win_lt, windows_of};

verus! {

proof fn lemma_own(s: Seq<Client>, apps: Seq<Str>, app: Str, n: int)
    requires
        0 <= n <= s.len(),
    ensures
        forall|c: Client| #[trigger]
            own_upto(s, apps, app, n).contains(c) <==> !(app_of(c) matches Some(own) && own != app && apps.contains(own)) && exists|
                i: int,
            | 0 <= i < n && #[trigger] s[i] == c,
    decreases n,
{
    if n > 0 {
        lemma_own(s, apps, app, n - 1);
        let a = own_upto(s, apps, app, n - 1);
        let b = own_upto(s, apps, app, n);
        assert forall|c: Client| #[trigger] b.contains(c) <==> !(app_of(c) matches Some(own) && own != app && apps.contains(
            own,
        )) && exists|i: int| 0 <= i < n && #[trigger] s[i] == c by {
            lemma_push(a, b, s[n - 1], c);
            if a.contains(c) {
                let i = choose|i: int| 0 <= i < n - 1 && #[trigger] s[i] == c;
                assert(s[i] == c);
            }
            if exists|i: int| 0 <= i < n && #[trigger] s[i] == c {
                let i = choose|i: int| 0 <= i < n && #[trigger] s[i] == c;
                assert(i < n - 1 || c == s[n - 1]);
            }
        }
    }
}

pub proof fn lemma_push<A>(a: Seq<A>, b: Seq<A>, x: A, c: A)
    ensures
        b == a.push(x) ==> (b.contains(c) <==> a.contains(c) || c == x),
{
    if b == a.push(x) {
        if b.contains(c) {
            let i = choose|i: int| 0 <= i < b.len() && b[i] == c;
            if i < a.len() {
                assert(a[i] == c);
            }
        }
        if a.contains(c) {
            let i = choose|i: int| 0 <= i < a.len() && a[i] == c;
            assert(b[i] == c);
        }
        assert(b[a.len() as int] == x);
    }
}

proof fn lemma_members(s: Seq<Client>, ws: Str, n: int)
    requires
        0 <= n <= s.len(),
    ensures
        forall|c: Client| #[trigger]
            members_upto(s, ws, n).contains(c) <==> in_ws(c, ws) && exists|i: int| 0 <= i < n && #[trigger] s[i] == c,
    decreases n,
{
    if n > 0 {
        lemma_members(s, ws, n - 1);
        let a = members_upto(s, ws, n - 1);
        let b = members_upto(s, ws, n);
        assert forall|c: Client| #[trigger] b.contains(c) <==> in_ws(c, ws) && exists|i: int|
            0 <= i < n && #[trigger] s[i] == c by {
            lemma_push(a, b, s[n - 1], c);
            if a.contains(c) {
                let i = choose|i: int| 0 <= i < n - 1 && #[trigger] s[i] == c;
                assert(s[i] == c);
            }
            if exists|i: int| 0 <= i < n && #[trigger] s[i] == c {
                let i = choose|i: int| 0 <= i < n && #[trigger] s[i] == c;
                assert(i < n - 1 || c == s[n - 1]);
            }
        }
    }
}

proof fn lemma_shown(s: Seq<Client>, n: int)
    requires
        0 <= n <= s.len(),
    ensures
        forall|c: Client| #[trigger]
            shown_upto(s, n).contains(c) <==> !on_hidden(c) && exists|i: int| 0 <= i < n && #[trigger] s[i] == c,
    decreases n,
{
    if n > 0 {
        lemma_shown(s, n - 1);
        let a = shown_upto(s, n - 1);
        let b = shown_upto(s, n);
        assert forall|c: Client| #[trigger] b.contains(c) <==> !on_hidden(c) && exists|i: int|
            0 <= i < n && #[trigger] s[i] == c by {
            lemma_push(a, b, s[n - 1], c);
            if a.contains(c) {
                let i = choose|i: int| 0 <= i < n - 1 && #[trigger] s[i] == c;
                assert(s[i] == c);
            }
            if exists|i: int| 0 <= i < n && #[trigger] s[i] == c {
                let i = choose|i: int| 0 <= i < n && #[trigger] s[i] == c;
                assert(i < n - 1 || c == s[n - 1]);
            }
        }
    }
}

/// The windows that are not hidden, each of them and no other.
pub proof fn law_shown(s: Seq<Client>)
    ensures
        forall|c: Client| #[trigger] shown(s).contains(c) <==> s.contains(c) && !on_hidden(c),
{
    lemma_shown(s, s.len() as int);
    assert forall|c: Client| #[trigger] shown(s).contains(c) <==> s.contains(c) && !on_hidden(c) by {
        if s.contains(c) {
            let i = choose|i: int| 0 <= i < s.len() && s[i] == c;
            assert(s[i] == c);
        }
    }
}

/// The windows that belong to a workspace, each of them and no other.
pub proof fn law_members(s: Seq<Client>, ws: Str)
    ensures
        forall|c: Client| #[trigger] members(s, ws).contains(c) <==> s.contains(c) && in_ws(c, ws),
{
    lemma_members(s, ws, s.len() as int);
    assert forall|c: Client| #[trigger] members(s, ws).contains(c) <==> s.contains(c) && in_ws(c, ws) by {
        if s.contains(c) {
            let i = choose|i: int| 0 <= i < s.len() && s[i] == c;
            assert(s[i] == c);
        }
    }
}

/// The entry of an application places the window in a workspace: the window belongs to the workspace and shows
/// the application, or a variant of it that has no entry of its own.
pub open spec fn places(cfg: ConfigView, ws: Str, app: Str, c: Client) -> bool {
    &&& in_ws(c, ws)
    &&& app_of(c) matches Some(own) && (own == app || (cfg.family_of(own) == Some(app) && !entry_names_of(cfg, ws).contains(
        own,
    )))
}

/// The entry of an application would place the window in a workspace: the window shows the application, or a variant of
/// it that has no entry of its own.
pub open spec fn would_place(cfg: ConfigView, ws: Str, app: Str, c: Client) -> bool {
    app_of(c) matches Some(own) && (own == app || (cfg.family_of(own) == Some(app) && !entry_names_of(cfg, ws).contains(own)))
}

/// The windows of an entry are those that it would place in the workspace, each of them and no other.
pub proof fn law_own(cfg: ConfigView, clients: Seq<Client>, ws: Str, app: Str)
    ensures
        forall|c: Client| #[trigger]
            own_windows(cfg, clients, entry_names_of(cfg, ws), app).contains(c) <==> clients.contains(c) && would_place(
                cfg,
                ws,
                app,
                c,
            ),
{
    let apps = entry_names_of(cfg, ws);
    let all = windows_of(cfg, clients, app);
    let own = own_windows(cfg, clients, apps, app);
    law_windows_in_order(cfg, clients, app);
    lemma_own(all, apps, app, all.len() as int);
    assert forall|c: Client| #[trigger] own.contains(c) <==> clients.contains(c) && would_place(cfg, ws, app, c) by {
        if all.contains(c) {
            let i = choose|i: int| 0 <= i < all.len() && all[i] == c;
            assert(all[i] == c);
        }
        if own.contains(c) {
            let i = choose|i: int| 0 <= i < all.len() && #[trigger] all[i] == c;
            assert(all.contains(c));
        }
    }
}

/// The windows that the entry of an application places in a workspace, each of them and no other.
pub proof fn law_placed(cfg: ConfigView, clients: Seq<Client>, ws: Str, app: Str)
    ensures
        forall|c: Client| #[trigger]
            placed(cfg, clients, ws, entry_names_of(cfg, ws), app).contains(c) <==> clients.contains(c) && places(
                cfg,
                ws,
                app,
                c,
            ),
{
    let apps = entry_names_of(cfg, ws);
    let all = windows_of(cfg, clients, app);
    let own = own_windows(cfg, clients, apps, app);
    law_windows_in_order(cfg, clients, app);
    lemma_own(all, apps, app, all.len() as int);
    law_members(own, ws);
    assert forall|c: Client| #[trigger] placed(cfg, clients, ws, apps, app).contains(c) <==> clients.contains(c) && places(
        cfg,
        ws,
        app,
        c,
    ) by {
        if all.contains(c) {
            let i = choose|i: int| 0 <= i < all.len() && all[i] == c;
            assert(all[i] == c);
        }
        if own.contains(c) {
            let i = choose|i: int| 0 <= i < all.len() && #[trigger] all[i] == c;
            assert(all.contains(c));
        }
    }
}

pub proof fn lemma_joined<A>(a: Seq<A>, b: Seq<A>, c: Seq<A>, d: Seq<A>, x: A)
    ensures
        (a + b + c + d).contains(x) <==> a.contains(x) || b.contains(x) || c.contains(x) || d.contains(x),
{
    let s = a + b + c + d;
    let (i, j, k) = (a.len() as int, (a + b).len() as int, (a + b + c).len() as int);
    if s.contains(x) {
        let n = choose|n: int| 0 <= n < s.len() && s[n] == x;
        if n < i {
            assert(a[n] == x);
        } else if n < j {
            assert(b[n - i] == x);
        } else if n < k {
            assert(c[n - j] == x);
        } else {
            assert(d[n - k] == x);
        }
    }
    if a.contains(x) {
        let n = choose|n: int| 0 <= n < a.len() && a[n] == x;
        assert(s[n] == x);
    }
    if b.contains(x) {
        let n = choose|n: int| 0 <= n < b.len() && b[n] == x;
        assert(s[i + n] == x);
    }
    if c.contains(x) {
        let n = choose|n: int| 0 <= n < c.len() && c[n] == x;
        assert(s[j + n] == x);
    }
    if d.contains(x) {
        let n = choose|n: int| 0 <= n < d.len() && d[n] == x;
        assert(s[k + n] == x);
    }
}

pub proof fn lemma_in_sum<A>(a: Seq<A>, b: Seq<A>, x: A)
    ensures
        (a + b).contains(x) <==> a.contains(x) || b.contains(x),
{
    lemma_joined(a, b, Seq::empty(), Seq::empty(), x);
    assert(a + b + Seq::<A>::empty() + Seq::<A>::empty() =~= a + b);
    assert(!Seq::<A>::empty().contains(x));
}

/// The first expression and the second, where they are asked for, and then the others.
pub open spec fn three_parts(first: Option<Str>, second: Option<Str>, rest: Seq<Str>) -> Seq<Str> {
    (match first {
        Some(e) => seq![e],
        None => Seq::empty(),
    }) + (match second {
        Some(e) => seq![e],
        None => Seq::empty(),
    }) + rest
}

pub proof fn lemma_three_parts(first: Option<Str>, second: Option<Str>, rest: Seq<Str>)
    ensures
        runs(three_parts(first, second, rest), rest),
        forall|e: Str| #[trigger]
            three_parts(first, second, rest).contains(e) <==> first == Some(e) || second == Some(e) || rest.contains(e),
{
    let a = match first {
        Some(e) => seq![e],
        None => Seq::empty(),
    };
    let b = match second {
        Some(e) => seq![e],
        None => Seq::empty(),
    };
    let x = three_parts(first, second, rest);
    lemma_runs_more(a + b, rest, rest);
    lemma_runs_more(rest, rest, rest);
    assert forall|e: Str| #[trigger] x.contains(e) <==> first == Some(e) || second == Some(e) || rest.contains(e) by {
        lemma_in_sum(a + b, rest, e);
        lemma_in_sum(a, b, e);
        if first == Some(e) {
            assert(a[0] == e);
        }
        if second == Some(e) {
            assert(b[0] == e);
        }
    }
}

// ---- The order of windows ----------------------------------------------------------------

/// No window stands after one that comes later by the number and the name of its application.
pub open spec fn in_turn(s: Seq<Client>) -> bool {
    forall|i: int, j: int| 0 <= i < j < s.len() ==> !win_lt(#[trigger] s[j], #[trigger] s[i])
}

/// The window is one of the first `n`.
pub open spec fn is_early(s: Seq<Client>, n: int, c: Client) -> bool {
    exists|k: int| 0 <= k < n && #[trigger] s[k] == c
}

proof fn lemma_own_in_turn(s: Seq<Client>, apps: Seq<Str>, app: Str, n: int)
    requires
        0 <= n <= s.len(),
        in_turn(s),
    ensures
        ({
            let r = own_upto(s, apps, app, n);
            &&& in_turn(r)
            &&& forall|i: int| 0 <= i < r.len() ==> is_early(s, n, #[trigger] r[i])
        }),
    decreases n,
{
    if n > 0 {
        lemma_own_in_turn(s, apps, app, n - 1);
        lemma_one_more(s, own_upto(s, apps, app, n - 1), own_upto(s, apps, app, n), n);
    }
}

proof fn lemma_members_in_turn(s: Seq<Client>, ws: Str, n: int)
    requires
        0 <= n <= s.len(),
        in_turn(s),
    ensures
        ({
            let r = members_upto(s, ws, n);
            &&& in_turn(r)
            &&& forall|i: int| 0 <= i < r.len() ==> is_early(s, n, #[trigger] r[i])
        }),
    decreases n,
{
    if n > 0 {
        lemma_members_in_turn(s, ws, n - 1);
        lemma_one_more(s, members_upto(s, ws, n - 1), members_upto(s, ws, n), n);
    }
}

pub proof fn lemma_one_more(s: Seq<Client>, a: Seq<Client>, b: Seq<Client>, n: int)
    requires
        0 < n <= s.len(),
        in_turn(s),
        in_turn(a),
        forall|i: int| 0 <= i < a.len() ==> is_early(s, n - 1, #[trigger] a[i]),
        b == a || b == a.push(s[n - 1]),
    ensures
        in_turn(b),
        forall|i: int| 0 <= i < b.len() ==> is_early(s, n, #[trigger] b[i]),
{
    assert forall|i: int, j: int| 0 <= i < j < b.len() implies !win_lt(#[trigger] b[j], #[trigger] b[i]) by {
        assert(b[i] == a[i]);
        if j < a.len() {
            assert(b[j] == a[j]);
        } else {
            assert(is_early(s, n - 1, a[i]));
            let k = choose|k: int| 0 <= k < n - 1 && #[trigger] s[k] == a[i];
            assert(!win_lt(s[n - 1], s[k]));
        }
    }
    assert forall|i: int| 0 <= i < b.len() implies is_early(s, n, #[trigger] b[i]) by {
        if i < a.len() {
            assert(b[i] == a[i]);
            assert(is_early(s, n - 1, a[i]));
            let k = choose|k: int| 0 <= k < n - 1 && #[trigger] s[k] == a[i];
            assert(s[k] == b[i]);
        } else {
            assert(s[n - 1] == b[i]);
        }
    }
}

/// The windows that the entry of an application places in a workspace stand in the order of their numbers.
pub proof fn law_placed_in_turn(cfg: ConfigView, clients: Seq<Client>, ws: Str, app: Str)
    ensures
        in_turn(placed(cfg, clients, ws, entry_names_of(cfg, ws), app)),
{
    let apps = entry_names_of(cfg, ws);
    let all = windows_of(cfg, clients, app);
    let own = own_windows(cfg, clients, apps, app);
    law_windows_in_order(cfg, clients, app);
    lemma_own_in_turn(all, apps, app, all.len() as int);
    lemma_members_in_turn(own, ws, own.len() as int);
}

/// One window comes before another by the numbers of their instances: the lower number first, and under the same
/// number the lesser name. Of a window without an application nothing comes before or after.
pub proof fn law_turn(a: Client, b: Client)
    ensures
        win_lt(a, b) <==> match (app_instance(a), app_instance(b)) {
            (Some((x, m)), Some((y, n))) => m < n || m == n && str_lt(x, y),
            _ => false,
        },
{
}

} // verus!
