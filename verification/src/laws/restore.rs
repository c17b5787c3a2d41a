//! Windows of the saved session.
use vstd::prelude::*;

use crate::adopt::{settle_record, with_done};
use crate::config::ConfigView;
use crate::cycle::all_waits_ended;
use crate::effects::{
    begins_with, belongs_after, entering, law_ws_list, leaving, lemma_after_more, lemma_begins, lemma_entering_apart,
    lemma_no_tag, lemma_no_tags, lemma_runs_more, lemma_tag_same, no_tag, runs,
};
use crate::exprs::{app_tags_of, desk_move, focusing, park, placing, untags};
use crate::home::{active_among, actives_of, law_home_follows_user, law_home_is_active, Home, Spot};
use crate::hypr::{
    app_instance, app_tags_upto, desk_number, focus_of, instance_tag, rect_of, tag_of, top_text, ws_list, Client,
};
use crate::laws::select::in_order;
use crate::laws::windows::{lemma_joined, lemma_push};
use crate::layout::{all_sorted, lemma_nest_put};
use crate::raise::desk_of;
use crate::rect::PxRect;
use crate::restore::{
    among_upto, awaiting_from, awaits, besides, coming_from, describing_upto, first_record_from, focusing_opt, given,
    going_home, instance_exprs, instance_number, matched, members_of, raise_step_of, record_rects_from, retagging,
    started_from, starting_upto, tags_on, ws_tags_of, RaiseStep,
};
use crate::state::{RestoreEntryView, RestoreState, StateView};
use crate::table::{lemma_del_get, nest_get, nest_put, tab_del, tab_get, tab_sorted};
use crate::text::{has_prefix, lemma_lt_irreflexive, str_lt, trim_end_of, Str};
use crate::windows::{instances, instances_upto, law_least_free};

verus! {

proof fn lemma_among(s: Seq<Str>, others: Seq<Str>, wanted: bool, n: int)
    requires
        0 <= n <= s.len(),
    ensures
        forall|x: Str| #[trigger]
            among_upto(s, others, wanted, n).contains(x) <==> others.contains(x) == wanted && exists|i: int|
                0 <= i < n && #[trigger] s[i] == x,
    decreases n,
{
    if n > 0 {
        lemma_among(s, others, wanted, n - 1);
        let a = among_upto(s, others, wanted, n - 1);
        let b = among_upto(s, others, wanted, n);
        assert forall|x: Str| #[trigger] b.contains(x) <==> others.contains(x) == wanted && exists|i: int|
            0 <= i < n && #[trigger] s[i] == x by {
            lemma_push(a, b, s[n - 1], x);
            if a.contains(x) {
                let i = choose|i: int| 0 <= i < n - 1 && #[trigger] s[i] == x;
                assert(s[i] == x);
            }
            if exists|i: int| 0 <= i < n && #[trigger] s[i] == x {
                let i = choose|i: int| 0 <= i < n && #[trigger] s[i] == x;
                assert(i < n - 1 || x == s[n - 1]);
            }
        }
    }
}

proof fn lemma_besides(s: Seq<Str>, others: Seq<Str>)
    ensures
        forall|x: Str| #[trigger] besides(s, others).contains(x) <==> s.contains(x) && !others.contains(x),
{
    lemma_among(s, others, false, s.len() as int);
    assert forall|x: Str| #[trigger] besides(s, others).contains(x) <==> s.contains(x) && !others.contains(x) by {
        if s.contains(x) {
            let i = choose|i: int| 0 <= i < s.len() && s[i] == x;
            assert(s[i] == x);
        }
    }
}

proof fn lemma_describing(cfg: ConfigView, list: Seq<Str>, app: Str, n: int)
    requires
        0 <= n <= list.len(),
    ensures
        forall|w: Str| #[trigger]
            describing_upto(cfg, list, app, n).contains(w) <==> cfg.ws_has_app(w, app) && exists|i: int|
                0 <= i < n && #[trigger] list[i] == w,
    decreases n,
{
    if n > 0 {
        lemma_describing(cfg, list, app, n - 1);
        let a = describing_upto(cfg, list, app, n - 1);
        let b = describing_upto(cfg, list, app, n);
        assert forall|w: Str| #[trigger] b.contains(w) <==> cfg.ws_has_app(w, app) && exists|i: int|
            0 <= i < n && #[trigger] list[i] == w by {
            lemma_push(a, b, list[n - 1], w);
            if a.contains(w) {
                let i = choose|i: int| 0 <= i < n - 1 && #[trigger] list[i] == w;
                assert(list[i] == w);
            }
            if exists|i: int| 0 <= i < n && #[trigger] list[i] == w {
                let i = choose|i: int| 0 <= i < n && #[trigger] list[i] == w;
                assert(i < n - 1 || w == list[n - 1]);
            }
        }
    }
}

/// The workspaces that the window of a record can belong to: those of the record that describe its application.
pub proof fn law_record_members(cfg: ConfigView, e: RestoreEntryView)
    ensures
        forall|w: Str| #[trigger] members_of(cfg, e).contains(w) <==> e.workspaces.contains(w) && cfg.ws_has_app(w, e.app),
{
    lemma_describing(cfg, e.workspaces, e.app, e.workspaces.len() as int);
    assert forall|w: Str| #[trigger] members_of(cfg, e).contains(w) <==> e.workspaces.contains(w) && cfg.ws_has_app(
        w,
        e.app,
    ) by {
        if e.workspaces.contains(w) {
            let i = choose|i: int| 0 <= i < e.workspaces.len() && e.workspaces[i] == w;
            assert(e.workspaces[i] == w);
        }
    }
}

proof fn lemma_trimmed(s: Str, c: char)
    ensures
        trim_end_of(s, c).len() <= s.len(),
        trim_end_of(s, c) == s.take(trim_end_of(s, c).len() as int),
        forall|k: int| 0 <= k < s.len() && s[k] != c ==> k < trim_end_of(s, c).len(),
    decreases s.len(),
{
    if s.len() > 0 && s.last() == c {
        let d = s.drop_last();
        lemma_trimmed(d, c);
        let n = trim_end_of(d, c).len() as int;
        assert(s.take(n) =~= d.take(n));
        assert forall|k: int| 0 <= k < s.len() && s[k] != c implies k < trim_end_of(s, c).len() by {
            assert(d[k] == s[k]);
        }
    } else {
        assert(s.take(s.len() as int) =~= s);
    }
}

proof fn lemma_app_tags(tags: Seq<String>, n: int)
    requires
        0 <= n <= tags.len(),
    ensures
        forall|i: int|
            0 <= i < app_tags_upto(tags, n).len() ==> (#[trigger] app_tags_upto(tags, n)[i]).len() > 0 && app_tags_upto(
                tags,
                n,
            )[i][0] == 'a',
    decreases n,
{
    if n > 0 {
        lemma_app_tags(tags, n - 1);
        let t = tags[n - 1]@;
        if has_prefix(t, "app:"@) {
            reveal_strlit("app:");
            assert(t.take(4)[0] == "app:"@[0]);
            lemma_trimmed(t, '*');
            assert(t[0] == 'a');
            assert(0 < trim_end_of(t, '*').len());
            assert(trim_end_of(t, '*')[0] == t.take(trim_end_of(t, '*').len() as int)[0]);
            let a = app_tags_upto(tags, n - 1);
            let b = app_tags_upto(tags, n);
            assert forall|i: int| 0 <= i < b.len() implies (#[trigger] b[i]).len() > 0 && b[i][0] == 'a' by {
                if i < a.len() {
                    assert(b[i] == a[i]);
                }
            }
        }
    }
}

pub proof fn lemma_ws_offs(addr: Str, s: Seq<Str>, w: Str)
    ensures
        untags(addr, ws_tags_of(s)).contains(leaving(addr, w)) <==> s.contains(w),
        !untags(addr, ws_tags_of(s)).contains(entering(addr, w)),
        tags_on(addr, ws_tags_of(s)).contains(entering(addr, w)) <==> s.contains(w),
        !tags_on(addr, ws_tags_of(s)).contains(leaving(addr, w)),
{
    reveal(entering);
    reveal(leaving);
    reveal_strlit("-");
    reveal_strlit("ws:");
    reveal_strlit("-ws:");
    let off = untags(addr, ws_tags_of(s));
    let on = tags_on(addr, ws_tags_of(s));
    assert forall|i: int| 0 <= i < s.len() implies #[trigger] off[i] == leaving(addr, s[i]) && on[i] == entering(addr, s[i]) by {
        assert("-"@ + ("ws:"@ + s[i]) =~= "-ws:"@ + s[i]);
    }
    assert forall|v: Str| leaving(addr, v) == leaving(addr, w) implies #[trigger] seq![v] == seq![w] by {
        lemma_tag_same(addr, "-ws:"@ + v, "-ws:"@ + w);
        assert(("-ws:"@ + v).skip(4) =~= v);
        assert(("-ws:"@ + w).skip(4) =~= w);
    }
    assert forall|v: Str| entering(addr, v) == entering(addr, w) implies #[trigger] seq![v] == seq![w] by {
        lemma_tag_same(addr, "ws:"@ + v, "ws:"@ + w);
        assert(("ws:"@ + v).skip(3) =~= v);
        assert(("ws:"@ + w).skip(3) =~= w);
    }
    if off.contains(leaving(addr, w)) {
        let i = choose|i: int| 0 <= i < off.len() && off[i] == leaving(addr, w);
        assert(off[i] == leaving(addr, s[i]));
        assert(seq![s[i]] == seq![w]);
        assert(seq![s[i]][0] == seq![w][0]);
    }
    if on.contains(entering(addr, w)) {
        let i = choose|i: int| 0 <= i < on.len() && on[i] == entering(addr, w);
        assert(off[i] == leaving(addr, s[i]) && on[i] == entering(addr, s[i]));
        assert(seq![s[i]] == seq![w]);
        assert(seq![s[i]][0] == seq![w][0]);
    }
    if s.contains(w) {
        let i = choose|i: int| 0 <= i < s.len() && s[i] == w;
        assert(off[i] == leaving(addr, s[i]) && on[i] == entering(addr, s[i]));
    }
    if off.contains(entering(addr, w)) {
        let i = choose|i: int| 0 <= i < off.len() && off[i] == entering(addr, w);
        assert(off[i] == leaving(addr, s[i]));
        lemma_entering_apart(addr, w, addr, s[i]);
    }
    if on.contains(leaving(addr, w)) {
        let i = choose|i: int| 0 <= i < on.len() && on[i] == leaving(addr, w);
        assert(off[i] == leaving(addr, s[i]) && on[i] == entering(addr, s[i]));
        lemma_entering_apart(addr, s[i], addr, w);
    }
}

pub proof fn lemma_retagging_quiet(c: Client, app: Str, num: nat, w: Str)
    ensures
        !retagging(c, app, num).contains(entering(c.address@, w)),
        !retagging(c, app, num).contains(leaving(c.address@, w)),
{
    reveal(entering);
    reveal(leaving);
    reveal_strlit("-");
    reveal_strlit("ws:");
    reveal_strlit("-ws:");
    reveal_strlit("app:");
    let addr = c.address@;
    let ex = retagging(c, app, num);
    let tags = app_tags_of(c);
    lemma_app_tags(c.tags@, c.tags@.len() as int);
    assert forall|i: int| 0 <= i < ex.len() implies #[trigger] ex[i] != entering(addr, w) && ex[i] != leaving(addr, w) by {
        if i < tags.len() {
            let t = tags[i];
            assert(ex[i] == tag_of(addr, "-"@ + t));
            assert(t[0] == 'a');
            if ex[i] == entering(addr, w) {
                lemma_tag_same(addr, "-"@ + t, "ws:"@ + w);
                assert(("-"@ + t)[0] == ("ws:"@ + w)[0]);
            }
            if ex[i] == leaving(addr, w) {
                lemma_tag_same(addr, "-"@ + t, "-ws:"@ + w);
                assert(("-"@ + t)[1] == ("-ws:"@ + w)[1]);
            }
        } else {
            let t = instance_tag(app, num);
            assert(ex[i] == tag_of(addr, t));
            assert(t[0] == "app:"@[0]);
            if ex[i] == entering(addr, w) {
                lemma_tag_same(addr, t, "ws:"@ + w);
                assert(t[0] == ("ws:"@ + w)[0]);
            }
            if ex[i] == leaving(addr, w) {
                lemma_tag_same(addr, t, "-ws:"@ + w);
                assert(t[0] == ("-ws:"@ + w)[0]);
            }
        }
    }
}

pub proof fn lemma_quiet(ex: Seq<Str>, addr: Str, w: Str)
    requires
        forall|i: int| 0 <= i < ex.len() ==> no_tag(#[trigger] ex[i]),
    ensures
        !ex.contains(entering(addr, w)),
        !ex.contains(leaving(addr, w)),
{
    if ex.contains(entering(addr, w)) {
        let i = choose|i: int| 0 <= i < ex.len() && ex[i] == entering(addr, w);
        lemma_no_tag(ex[i], addr, w);
    }
    if ex.contains(leaving(addr, w)) {
        let i = choose|i: int| 0 <= i < ex.len() && ex[i] == leaving(addr, w);
        lemma_no_tag(ex[i], addr, w);
    }
}

/// The window of a record belongs, once the expressions are carried out, to exactly those workspaces of the record
/// that describe its application. No workspace is both entered and left. It bears the tag of the instance
/// where it is retagged, goes to its home, and takes the rectangle given for it there.
pub proof fn law_window_comes_back(
    cfg: ConfigView,
    c: Client,
    e: RestoreEntryView,
    retag: bool,
    num: nat,
    home: Home,
    rect: Option<PxRect>,
)
    ensures
        ({
            let ex = instance_exprs(c, e, members_of(cfg, e), retag, num, home, rect);
            let addr = c.address@;
            &&& forall|w: Str| #[trigger]
                belongs_after(c, w, ex) <==> e.workspaces.contains(w) && cfg.ws_has_app(w, e.app)
            &&& forall|w: Str| !(#[trigger] ex.contains(entering(addr, w)) && ex.contains(leaving(addr, w)))
            &&& retag ==> ex.contains(tag_of(addr, instance_tag(e.app, num)))
            &&& home matches Home::Desktop(k) ==> {
                &&& desk_of(c) == Some(k) || ex.contains(desk_move(addr, k))
                &&& rect matches Some(r) ==> runs(ex, placing(addr, r))
            }
            &&& home == Home::Pool ==> ex.contains(park(addr))
        }),
{
    let addr = c.address@;
    let list = ws_list(c);
    let m = members_of(cfg, e);
    let a = if retag {
        retagging(c, e.app, num)
    } else {
        Seq::empty()
    };
    let b = untags(addr, ws_tags_of(besides(list, m)));
    let d = tags_on(addr, ws_tags_of(besides(m, list)));
    let h = going_home(c, home, rect);
    let ex = instance_exprs(c, e, m, retag, num, home, rect);
    assert(ex == a + b + d + h);
    law_ws_list(c);
    law_record_members(cfg, e);
    lemma_besides(list, m);
    lemma_besides(m, list);
    lemma_no_tags(addr);
    assert forall|i: int| 0 <= i < h.len() implies no_tag(#[trigger] h[i]) by {}
    assert forall|w: Str|
        (#[trigger] belongs_after(c, w, ex) <==> e.workspaces.contains(w) && cfg.ws_has_app(w, e.app)) && !(ex.contains(
            entering(addr, w),
        ) && ex.contains(leaving(addr, w))) by {
        lemma_quiet(h, addr, w);
        if retag {
            lemma_retagging_quiet(c, e.app, num, w);
        }
        lemma_ws_offs(addr, besides(list, m), w);
        lemma_ws_offs(addr, besides(m, list), w);
        lemma_after_more(c, w, Seq::empty(), a);
        assert(Seq::<Str>::empty() + a =~= a);
        lemma_after_more(c, w, a, b);
        lemma_after_more(c, w, a + b, d);
        lemma_after_more(c, w, a + b + d, h);
        lemma_joined(a, b, d, h, entering(addr, w));
        lemma_joined(a, b, d, h, leaving(addr, w));
    }
    assert forall|w: Str| !(#[trigger] ex.contains(entering(addr, w)) && ex.contains(leaving(addr, w))) by {
        let z = belongs_after(c, w, ex);
        assert(z || !z);
    }
    if retag {
        assert(a[a.len() - 1] == tag_of(addr, instance_tag(e.app, num)));
        lemma_joined(a, b, d, h, tag_of(addr, instance_tag(e.app, num)));
    }
    if let Home::Desktop(k) = home {
        if desk_of(c) != Some(k) {
            assert(h[0] == desk_move(addr, k));
            lemma_joined(a, b, d, h, desk_move(addr, k));
        }
        if let Some(r) = rect {
            let lead = if desk_of(c) != Some(k) {
                seq![desk_move(addr, k)]
            } else {
                Seq::empty()
            };
            assert(h =~= lead + placing(addr, r));
            lemma_runs_more(lead, placing(addr, r), placing(addr, r));
            lemma_runs_more(a + b + d, h, placing(addr, r));
            lemma_runs_more(placing(addr, r), Seq::empty(), placing(addr, r));
        }
    }
    if home == Home::Pool {
        assert(h[0] == park(addr));
        lemma_joined(a, b, d, h, park(addr));
    }
}

// ---- Where a window comes back to -------------------------------------------------------

/// A window of the saved session goes to a desktop where a workspace of it is active, that of the user first, into
/// the rectangle of the record for that workspace, else to the place of its application there; it is parked
/// where none is active. A window of no workspace goes to its own desktop with its own rectangle; a parked
/// one is parked, and one of no desktop comes to the user.
pub proof fn law_restored_place(st: StateView, cfg: ConfigView, e: RestoreEntryView, active: Map<u8, Str>, current: u8)
    ensures
        ({
            let (home, rect) = st.restored(cfg, e, active, current);
            let own = |w: Str| e.workspaces.contains(w) && cfg.ws_has_app(w, e.app);
            let any = exists|w: Str| #[trigger] own(w);
            let on = |k: u8| active.contains_key(k) && own(active[k]);
            &&& any ==> match home {
                Home::Desktop(k) => {
                    &&& on(k)
                    &&& on(current) ==> k == current
                    &&& rect == match tab_get(e.rects, active[k]) {
                        Some(r) => Some(r),
                        None => st.built(cfg, active[k]).place(cfg, active[k], e.app),
                    }
                },
                Home::Pool => rect is None && forall|k: u8| !#[trigger] on(k),
                Home::Keep => false,
            }
            &&& !any ==> match desk_number(e.desktop) {
                Some(k) => home == Home::Desktop(k) && rect == Some(e.rect),
                None => if e.desktop == "pool"@ {
                    home == Home::Pool && rect is None
                } else {
                    home == Home::Desktop(current) && rect == Some(e.rect)
                },
            }
        }),
{
    let m = members_of(cfg, e);
    let own = |w: Str| e.workspaces.contains(w) && cfg.ws_has_app(w, e.app);
    let on = |k: u8| active.contains_key(k) && own(active[k]);
    law_record_members(cfg, e);
    if m.len() > 0 {
        assert(m.contains(m[0]));
        assert(own(m[0]));
        law_home_is_active(m, active, current, Spot::Pool);
        law_home_follows_user(m, active, current, Spot::Pool);
        assert forall|k: u8| #[trigger] on(k) == active_among(m, active, k) by {}
    } else if exists|w: Str| #[trigger] own(w) {
        let w = choose|w: Str| #[trigger] own(w);
        assert(m.contains(w));
    }
}

pub proof fn lemma_instances(clients: Seq<Client>, app: Str, n: int)
    requires
        0 <= n <= clients.len(),
    ensures
        forall|k: nat| #[trigger]
            instances_upto(clients, app, n).contains(k) <==> exists|i: int|
                0 <= i < n && app_instance(#[trigger] clients[i]) == Some((app, k)),
    decreases n,
{
    if n > 0 {
        lemma_instances(clients, app, n - 1);
        let a = instances_upto(clients, app, n - 1);
        let b = instances_upto(clients, app, n);
        assert forall|k: nat| #[trigger] b.contains(k) <==> exists|i: int|
            0 <= i < n && app_instance(#[trigger] clients[i]) == Some((app, k)) by {
            if let Some((_, x)) = app_instance(clients[n - 1]) {
                lemma_push(a, b, x, k);
            }
            if a.contains(k) {
                let i = choose|i: int| 0 <= i < n - 1 && app_instance(#[trigger] clients[i]) == Some((app, k));
                assert(app_instance(clients[i]) == Some((app, k)));
            }
            if exists|i: int| 0 <= i < n && app_instance(#[trigger] clients[i]) == Some((app, k)) {
                let i = choose|i: int| 0 <= i < n && app_instance(#[trigger] clients[i]) == Some((app, k));
                if i < n - 1 {
                    assert(a.contains(k));
                }
            }
        }
    }
}

/// A window of the saved session that is retagged gets the number of its record where no window bears it, else the
/// least number that no window of the application bears. One that is not retagged keeps its number.
pub proof fn law_instance_number(c: Client, clients: Seq<Client>, e: RestoreEntryView, retag: bool)
    ensures
        ({
            let n = instance_number(c, clients, e, retag);
            let borne = |k: nat| exists|i: int|
                0 <= i < clients.len() && app_instance(#[trigger] clients[i]) == Some((e.app, k));
            &&& retag ==> !borne(n)
            &&& retag && !borne(e.instance as nat) ==> n == e.instance
            &&& retag && n != e.instance ==> 1 <= n && forall|k: nat| 1 <= k < n ==> #[trigger] borne(k)
            &&& !retag ==> (app_instance(c) matches Some((_, k)) ==> n == k)
        }),
{
    let used = instances(clients, e.app);
    lemma_instances(clients, e.app, clients.len() as int);
    law_least_free(used);
    let borne = |k: nat| exists|i: int|
        0 <= i < clients.len() && app_instance(#[trigger] clients[i]) == Some((e.app, k));
    assert forall|k: nat| #[trigger] borne(k) == used.contains(k) by {}
}

proof fn lemma_rects(g: Seq<(Str, Seq<(Str, PxRect)>)>, rects: Seq<(Str, PxRect)>, m: Seq<Str>, addr: Str, i: int)
    requires
        all_sorted(g),
        0 <= i <= rects.len(),
    ensures
        ({
            let r = record_rects_from(g, rects, m, addr, i);
            &&& all_sorted(r)
            &&& forall|x: Str, y: Str| #[trigger]
                nest_get(r, x, y) == nest_get(g, x, y) || (y == addr && m.contains(x) && exists|k: int|
                    i <= k < rects.len() && #[trigger] rects[k].0 == x && nest_get(r, x, y) == Some(rects[k].1))
            &&& tab_sorted(rects) ==> forall|k: int|
                i <= k < rects.len() && m.contains((#[trigger] rects[k]).0) ==> nest_get(r, rects[k].0, addr) == Some(
                    rects[k].1,
                )
        }),
    decreases rects.len() - i,
{
    if i < rects.len() {
        let (w, q) = rects[i];
        if m.contains(w) {
            let g2 = nest_put(g, w, addr, q);
            lemma_nest_put(g, w, addr, q);
            lemma_rects(g2, rects, m, addr, i + 1);
            let r = record_rects_from(g, rects, m, addr, i);
            assert forall|x: Str, y: Str| #[trigger]
                nest_get(r, x, y) == nest_get(g, x, y) || (y == addr && m.contains(x) && exists|k: int|
                    i <= k < rects.len() && #[trigger] rects[k].0 == x && nest_get(r, x, y) == Some(rects[k].1)) by {
                assert(nest_get(g2, x, y) == if x == w && y == addr {
                    Some(q)
                } else {
                    nest_get(g, x, y)
                });
                if nest_get(r, x, y) == nest_get(g2, x, y) {
                    if x == w && y == addr {
                        assert(rects[i].0 == x);
                    }
                } else {
                    let k = choose|k: int|
                        i + 1 <= k < rects.len() && #[trigger] rects[k].0 == x && nest_get(r, x, y) == Some(rects[k].1);
                    assert(rects[k].0 == x);
                }
            }
            if tab_sorted(rects) {
                assert forall|k: int| i <= k < rects.len() && m.contains((#[trigger] rects[k]).0) implies nest_get(
                    r,
                    rects[k].0,
                    addr,
                ) == Some(rects[k].1) by {
                    if k == i {
                        assert(nest_get(g2, w, addr) == Some(q));
                        if nest_get(r, w, addr) != nest_get(g2, w, addr) {
                            let j = choose|j: int|
                                i + 1 <= j < rects.len() && #[trigger] rects[j].0 == w && nest_get(r, w, addr) == Some(
                                    rects[j].1,
                                );
                            assert(str_lt(rects[i].0, rects[j].0));
                            lemma_lt_irreflexive(w);
                        }
                    }
                }
            }
        } else {
            lemma_rects(g, rects, m, addr, i + 1);
            let r = record_rects_from(g, rects, m, addr, i);
            assert forall|x: Str, y: Str| #[trigger]
                nest_get(r, x, y) == nest_get(g, x, y) || (y == addr && m.contains(x) && exists|k: int|
                    i <= k < rects.len() && #[trigger] rects[k].0 == x && nest_get(r, x, y) == Some(rects[k].1)) by {
                if nest_get(r, x, y) != nest_get(g, x, y) {
                    let k = choose|k: int|
                        i + 1 <= k < rects.len() && #[trigger] rects[k].0 == x && nest_get(r, x, y) == Some(rects[k].1);
                    assert(rects[k].0 == x);
                }
            }
        }
    }
}

/// The rectangles of a record are kept for the window in the workspaces that it belongs to, and in no other.
pub proof fn law_record_rects(
    g: Seq<(Str, Seq<(Str, PxRect)>)>,
    cfg: ConfigView,
    e: RestoreEntryView,
    addr: Str,
)
    requires
        all_sorted(g),
        tab_sorted(e.rects),
    ensures
        ({
            let r = record_rects_from(g, e.rects, members_of(cfg, e), addr, 0);
            &&& forall|k: int|
                0 <= k < e.rects.len() && e.workspaces.contains((#[trigger] e.rects[k]).0) && cfg.ws_has_app(
                    e.rects[k].0,
                    e.app,
                ) ==> nest_get(r, e.rects[k].0, addr) == Some(e.rects[k].1)
            &&& forall|x: Str, y: Str|
                y != addr || !e.workspaces.contains(x) || !cfg.ws_has_app(x, e.app) ==> #[trigger] nest_get(r, x, y)
                    == nest_get(g, x, y)
        }),
{
    let m = members_of(cfg, e);
    law_record_members(cfg, e);
    lemma_rects(g, e.rects, m, addr, 0);
    let r = record_rects_from(g, e.rects, m, addr, 0);
    assert forall|x: Str, y: Str|
        y != addr || !e.workspaces.contains(x) || !cfg.ws_has_app(x, e.app) implies #[trigger] nest_get(r, x, y) == nest_get(
        g,
        x,
        y,
    ) by {
        assert(m.contains(x) <==> e.workspaces.contains(x) && cfg.ws_has_app(x, e.app));
    }
}

// ---- Which record a window fulfils --------------------------------------------------------

pub proof fn lemma_first_record(s: Seq<RestoreEntryView>, app: Str, i: int, best: Option<int>)
    requires
        0 <= i <= s.len(),
        best matches Some(b) ==> 0 <= b < i && s[b].app == app && forall|j: int|
            0 <= j < i && (#[trigger] s[j]).app == app ==> s[b].instance <= s[j].instance,
        best is None ==> forall|j: int| 0 <= j < i ==> (#[trigger] s[j]).app != app,
    ensures
        match first_record_from(s, app, i, best) {
            Some(b) => 0 <= b < s.len() && s[b].app == app && forall|j: int|
                0 <= j < s.len() && (#[trigger] s[j]).app == app ==> s[b].instance <= s[j].instance,
            None => forall|j: int| 0 <= j < s.len() ==> (#[trigger] s[j]).app != app,
        },
    decreases s.len() - i,
{
    if i < s.len() {
        if s[i].app == app && (best matches Some(b) ==> s[i].instance < s[b].instance) {
            lemma_first_record(s, app, i + 1, Some(i));
        } else {
            lemma_first_record(s, app, i + 1, best);
        }
    }
}

proof fn lemma_coming(cfg: ConfigView, s: Seq<RestoreEntryView>, app: Str, ws: Str, i: int)
    requires
        0 <= i <= s.len(),
    ensures
        coming_from(cfg, s, app, ws, i) <==> exists|k: int|
            i <= k < s.len() && (#[trigger] s[k]).state is Launched && cfg.app_is(s[k].app, app) && s[k].workspaces.contains(
                ws,
            ),
    decreases s.len() - i,
{
    if i < s.len() {
        lemma_coming(cfg, s, app, ws, i + 1);
        if coming_from(cfg, s, app, ws, i) {
            if coming_from(cfg, s, app, ws, i + 1) {
                let k = choose|k: int|
                    i + 1 <= k < s.len() && (#[trigger] s[k]).state is Launched && cfg.app_is(s[k].app, app)
                        && s[k].workspaces.contains(ws);
                assert(s[k].state is Launched);
            } else {
                assert(s[i].state is Launched);
            }
        }
    }
}

/// What the saved session changes about raising an application. With windows in the workspace it changes nothing.
/// Where the record of the application with the least number waits without a command and belongs to the
/// workspace, the application is started for it. Else, where a record of the application in the workspace was
/// started by its own command, its window is awaited; and else the application is started as ever.
pub proof fn law_raise_step(cfg: ConfigView, s: Seq<RestoreEntryView>, app: Str, ws: Str, has_windows: bool)
    ensures
        ({
            let step = raise_step_of(cfg, s, app, ws, has_windows);
            let started = exists|k: int|
                0 <= k < s.len() && (#[trigger] s[k]).state is Launched && cfg.app_is(s[k].app, app) && s[k].workspaces.contains(
                    ws,
                );
            let waits = |e: RestoreEntryView|
                e.app == app && e.state == RestoreState::Waiting && e.cmd.len() == 0 && e.workspaces.contains(ws);
            &&& has_windows ==> step == RaiseStep::Normal
            &&& step == RaiseStep::Wait ==> !has_windows && started
            &&& step == RaiseStep::LaunchFirst ==> !has_windows && exists|k: int|
                0 <= k < s.len() && waits(#[trigger] s[k]) && forall|j: int|
                    0 <= j < s.len() && (#[trigger] s[j]).app == app ==> s[k].instance <= s[j].instance
            &&& step == RaiseStep::Normal && !has_windows ==> !started
            &&& !has_windows && (forall|j: int| 0 <= j < s.len() && (#[trigger] s[j]).app == app ==> waits(s[j])) && (
            exists|j: int| 0 <= j < s.len() && waits(#[trigger] s[j])) ==> step == RaiseStep::LaunchFirst
        }),
{
    lemma_first_record(s, app, 0, None);
    lemma_coming(cfg, s, app, ws, 0);
    let waits = |e: RestoreEntryView|
        e.app == app && e.state == RestoreState::Waiting && e.cmd.len() == 0 && e.workspaces.contains(ws);
    if let Some(k) = first_record_from(s, app, 0, None) {
        assert(s[k].app == app);
    } else if exists|j: int| 0 <= j < s.len() && waits(#[trigger] s[j]) {
        let j = choose|j: int| 0 <= j < s.len() && waits(#[trigger] s[j]);
        assert(s[j].app != app);
    }
}

proof fn lemma_started(s: Seq<RestoreEntryView>, pids: Seq<i32>, i: int)
    requires
        0 <= i <= s.len(),
    ensures
        i <= started_from(s, pids, i) <= s.len(),
        started_from(s, pids, i) < s.len() ==> is_started(s[started_from(s, pids, i)], pids),
        forall|k: int| i <= k < started_from(s, pids, i) ==> !is_started(#[trigger] s[k], pids),
    decreases s.len() - i,
{
    if i < s.len() && !is_started(s[i], pids) {
        lemma_started(s, pids, i + 1);
    }
}

/// One of the processes was started for the record.
pub open spec fn is_started(e: RestoreEntryView, pids: Seq<i32>) -> bool {
    e.state matches RestoreState::Launched(pid) && pids.contains(pid as i32)
}

proof fn lemma_awaiting(s: Seq<RestoreEntryView>, app: Str, ws: Option<Str>, i: int, best: Option<int>)
    requires
        0 <= i <= s.len(),
        best matches Some(b) ==> 0 <= b < i && awaits(s[b], app, ws) && forall|j: int|
            0 <= j < i && awaits(#[trigger] s[j], app, ws) ==> s[b].instance <= s[j].instance,
        best is None ==> forall|j: int| 0 <= j < i ==> !awaits(#[trigger] s[j], app, ws),
    ensures
        match awaiting_from(s, app, ws, i, best) {
            Some(b) => 0 <= b < s.len() && awaits(s[b], app, ws) && forall|j: int|
                0 <= j < s.len() && awaits(#[trigger] s[j], app, ws) ==> s[b].instance <= s[j].instance,
            None => forall|j: int| 0 <= j < s.len() ==> !awaits(#[trigger] s[j], app, ws),
        },
    decreases s.len() - i,
{
    if i < s.len() {
        if awaits(s[i], app, ws) && (best matches Some(b) ==> s[i].instance < s[b].instance) {
            lemma_awaiting(s, app, ws, i + 1, Some(i));
        } else {
            lemma_awaiting(s, app, ws, i + 1, best);
        }
    }
}

/// The record waits for a window that its application opens by itself.
pub open spec fn waits_for(e: RestoreEntryView, app: Str) -> bool {
    e.state == RestoreState::Waiting && e.cmd.len() == 0 && e.app == app
}

/// A window fulfils a record for which a process of it was started, whatever application it shows. Without such
/// a record it fulfils one of its application that waits for a window: of the workspace where there is one, and
/// the one with the least number. It fulfils none exactly where there is none of either kind.
pub proof fn law_matched(s: Seq<RestoreEntryView>, app: Option<Str>, pids: Seq<i32>, ws: Option<Str>)
    ensures
        ({
            let own = exists|k: int| 0 <= k < s.len() && is_started(#[trigger] s[k], pids);
            match matched(s, app, pids, ws) {
                Some(k) => 0 <= k < s.len() && if own {
                    is_started(s[k], pids)
                } else {
                    &&& app is Some && waits_for(s[k], app->0)
                    &&& ws matches Some(w) ==> {
                        let there = exists|j: int|
                            0 <= j < s.len() && waits_for(#[trigger] s[j], app->0) && s[j].workspaces.contains(w);
                        there ==> s[k].workspaces.contains(w)
                    }
                    &&& forall|j: int|
                        0 <= j < s.len() && waits_for(#[trigger] s[j], app->0) && (ws matches Some(w)
                            && s[k].workspaces.contains(w) ==> s[j].workspaces.contains(ws->0)) ==> s[k].instance
                            <= s[j].instance
                },
                None => !own && (app matches Some(a) ==> forall|j: int|
                    0 <= j < s.len() ==> !waits_for(#[trigger] s[j], a)),
            }
        }),
{
    lemma_started(s, pids, 0);
    let i = started_from(s, pids, 0);
    if i < s.len() {
        assert(is_started(s[i], pids));
    } else {
        if let Some(a) = app {
            lemma_awaiting(s, a, None, 0, None);
            assert forall|j: int| 0 <= j < s.len() implies (awaits(#[trigger] s[j], a, None) == waits_for(s[j], a)) by {}
            if let Some(w) = ws {
                lemma_awaiting(s, a, Some(w), 0, None);
                assert forall|j: int| 0 <= j < s.len() implies (awaits(#[trigger] s[j], a, Some(w)) == (waits_for(s[j], a)
                    && s[j].workspaces.contains(w))) by {}
            }
        }
    }
}

proof fn lemma_starting(s: Seq<RestoreEntryView>, ws: Str, n: int)
    requires
        0 <= n <= s.len(),
    ensures
        forall|k: int| #[trigger]
            starting_upto(s, ws, n).contains(k) <==> 0 <= k < n && s[k].state == RestoreState::Waiting && s[k].cmd.len() > 0
                && s[k].workspaces.contains(ws),
    decreases n,
{
    if n > 0 {
        lemma_starting(s, ws, n - 1);
        let a = starting_upto(s, ws, n - 1);
        let b = starting_upto(s, ws, n);
        assert forall|k: int| #[trigger] b.contains(k) <==> 0 <= k < n && s[k].state == RestoreState::Waiting
            && s[k].cmd.len() > 0 && s[k].workspaces.contains(ws) by {
            lemma_push(a, b, n - 1, k);
        }
    }
}

/// With a workspace those records are started that wait, have a command and belong to it: each of them, and no other.
pub proof fn law_to_start(s: Seq<RestoreEntryView>, ws: Str)
    ensures
        forall|k: int| #[trigger]
            starting_upto(s, ws, s.len() as int).contains(k) <==> 0 <= k < s.len() && s[k].state == RestoreState::Waiting
                && s[k].cmd.len() > 0 && s[k].workspaces.contains(ws),
{
    lemma_starting(s, ws, s.len() as int);
}

/// Giving up the wait ends it for exactly these records: all of them; or those of an application that wait without
/// a command of their own; or those that were started, and those without a command whose application was started
/// for them. Every other record stays as it was.
pub proof fn law_given_up(s: Seq<RestoreEntryView>, apps: Set<Str>, app: Option<Str>, all: bool, i: int)
    requires
        0 <= i < s.len(),
        s[i].state != RestoreState::Done,
    ensures
        ({
            let t = given(s[i], apps, app, all);
            let bare = s[i].cmd.len() == 0;
            &&& t == (RestoreEntryView { state: t.state, ..s[i] })
            &&& t.state == RestoreState::Done || t.state == s[i].state
            &&& t.state == RestoreState::Done <==> {
                ||| all
                ||| app is Some && s[i].app == app->0 && bare
                ||| app is None && (s[i].state is Launched || bare && apps.contains(s[i].app))
            }
        }),
{
}

// ---- Fulfilling a record ------------------------------------------------------------------

/// A window that fulfils a record ends the wait of that record and of no other, gets the number and the expressions of the
/// record, and has the focus at the end exactly where that was asked for.
pub proof fn law_fulfils(
    cfg: ConfigView,
    st: StateView,
    c: Client,
    clients: Seq<Client>,
    k: int,
    app: Str,
    focus: bool,
    current: u8,
)
    requires
        0 <= k < st.restore.len(),
    ensures
        ({
            let e = st.restore[k];
            let r = settle_record(cfg, st, c, clients, k, app, focus, current);
            let (home, rect) = st.restored(cfg, e, actives_of(st.desktops), current);
            let own = instance_exprs(c, e, members_of(cfg, e), true, r.num, home, rect);
            &&& r.restored == Some(e.app) && r.cfg == cfg
            &&& r.num == instance_number(c, clients, e, true)
            &&& r.st.restore.len() == st.restore.len()
            &&& r.st.restore[k] == (RestoreEntryView { state: RestoreState::Done, ..e })
            &&& forall|j: int| 0 <= j < st.restore.len() && j != k ==> #[trigger] r.st.restore[j] == st.restore[j]
            &&& begins_with(r.ex, own)
            &&& focus ==> r.ex == own + seq![focus_of(c.address@), top_text()]
        }),
{
    let e = st.restore[k];
    let one = with_done(st, k);
    let (home, rect) = one.restored(cfg, e, actives_of(one.desktops), current);
    let num = instance_number(c, clients, e, true);
    let own = instance_exprs(c, e, members_of(cfg, e), true, num, home, rect);
    let two = one.with_instance(cfg, c, e, current);
    assert(two.restore == one.restore);
    let tail = if focus {
        focusing(c.address@)
    } else {
        focusing_opt(two.main_back(cfg, home, app, clients, current))
    };
    lemma_begins(own, tail, own);
    assert(focusing(c.address@) =~= seq![focus_of(c.address@), top_text()]);
}

/// A window that became the instance of a record is no longer one of no application. Where it came to a desktop with one
/// of its workspaces active, the rectangle that it has there is kept for it: that of its place, or its own.
pub proof fn law_instance_kept(st: StateView, cfg: ConfigView, c: Client, e: RestoreEntryView, current: u8)
    requires
        in_order(st),
        tab_sorted(st.foreign),
    ensures
        ({
            let t = st.with_instance(cfg, c, e, current);
            let active = actives_of(st.desktops);
            let (home, rect) = st.restored(cfg, e, active, current);
            &&& tab_get(t.foreign, c.address@) is None
            &&& forall|a: Str| a != c.address@ ==> #[trigger] tab_get(t.foreign, a) == tab_get(st.foreign, a)
            &&& home matches Home::Desktop(k) ==> (active.contains_key(k) && e.workspaces.contains(active[k]) && cfg.ws_has_app(
                active[k],
                e.app,
            ) ==> nest_get(t.geom, active[k], c.address@) == Some(
                if rect is Some {
                    rect->0
                } else {
                    rect_of(c)
                },
            ))
        }),
{
    let active = actives_of(st.desktops);
    let m = members_of(cfg, e);
    let (home, rect) = st.restored(cfg, e, active, current);
    let one = st.after_restored(cfg, e, active, current);
    let g = record_rects_from(one.geom, e.rects, m, c.address@, 0);
    law_record_members(cfg, e);
    assert(one.geom == st.geom && one.foreign == st.foreign);
    lemma_rects(one.geom, e.rects, m, c.address@, 0);
    assert forall|a: Str| a != c.address@ implies #[trigger] tab_get(tab_del(st.foreign, c.address@), a) == tab_get(st.foreign, a) by {
        lemma_del_get(st.foreign, c.address@, a);
    }
    lemma_del_get(st.foreign, c.address@, c.address@);
    if let Home::Desktop(k) = home {
        if active.contains_key(k) {
            let r = match rect {
                Some(r) => r,
                None => rect_of(c),
            };
            lemma_nest_put(g, active[k], c.address@, r);
        }
    }
}

// ---- The end of a wait --------------------------------------------------------------------

/// When a wait ends for an application, that one is no longer waited for and all others are; without a name, or when all
/// end, none is. No record is lost but when all end, and each keeps what it is about.
pub proof fn law_wait_ends(st: StateView, app: Option<Str>, all: bool)
    ensures
        ({
            let t = st.wait_ended(app, all);
            &&& t == (StateView { restore: t.restore, restore_apps: t.restore_apps, ..st })
            &&& forall|a: Str| #[trigger] t.restore_apps.contains(a) <==> st.restore_apps.contains(a) && !all && app is Some && app->0 != a
            &&& all ==> t.restore.len() == 0
            &&& !all ==> t.restore.len() == st.restore.len()
            &&& !all ==> forall|i: int|
                #![trigger t.restore[i]]
                0 <= i < st.restore.len() ==> {
                    &&& t.restore[i] == (RestoreEntryView { state: t.restore[i].state, ..st.restore[i] })
                    &&& t.restore[i].state == st.restore[i].state || t.restore[i].state == RestoreState::Done
                    &&& app is Some && app->0 != st.restore[i].app ==> t.restore[i] == st.restore[i]
                }
        }),
{
}

proof fn lemma_waits_end(st: StateView, apps: Seq<Str>, i: int)
    requires
        0 <= i <= apps.len(),
    ensures
        ({
            let t = all_waits_ended(st, apps, i);
            &&& t == (StateView { restore: t.restore, restore_apps: t.restore_apps, ..st })
            &&& t.restore.len() == st.restore.len()
            &&& forall|a: Str| #[trigger]
                t.restore_apps.contains(a) <==> st.restore_apps.contains(a) && forall|k: int| i <= k < apps.len() ==> #[trigger] apps[k] != a
            &&& forall|j: int|
                #![trigger t.restore[j]]
                0 <= j < st.restore.len() && (forall|k: int| i <= k < apps.len() ==> #[trigger] apps[k] != st.restore[j].app)
                    ==> t.restore[j] == st.restore[j]
        }),
    decreases apps.len() - i,
{
    if i < apps.len() {
        let one = st.wait_ended(Some(apps[i]), false);
        law_wait_ends(st, Some(apps[i]), false);
        lemma_waits_end(one, apps, i + 1);
        let t = all_waits_ended(st, apps, i);
        assert forall|a: Str| #[trigger]
            t.restore_apps.contains(a) <==> st.restore_apps.contains(a) && forall|k: int| i <= k < apps.len() ==> #[trigger] apps[k] != a by {
            assert(one.restore_apps.contains(a) <==> st.restore_apps.contains(a) && apps[i] != a);
        }
        assert forall|j: int|
            #![trigger t.restore[j]]
            0 <= j < st.restore.len() && (forall|k: int| i <= k < apps.len() ==> #[trigger] apps[k] != st.restore[j].app)
                implies t.restore[j] == st.restore[j] by {
            assert(apps[i] != st.restore[j].app);
            assert(one.restore[j] == st.restore[j]);
        }
    }
}

/// The wait ends for exactly the applications that are named; records of others stay as they are.
pub proof fn law_waits_end(st: StateView, apps: Seq<Str>)
    ensures
        ({
            let t = all_waits_ended(st, apps, 0);
            &&& t == (StateView { restore: t.restore, restore_apps: t.restore_apps, ..st })
            &&& t.restore.len() == st.restore.len()
            &&& forall|a: Str| #[trigger] t.restore_apps.contains(a) <==> st.restore_apps.contains(a) && !apps.contains(a)
            &&& forall|j: int|
                #![trigger t.restore[j]]
                0 <= j < st.restore.len() && !apps.contains(st.restore[j].app) ==> t.restore[j] == st.restore[j]
        }),
{
    lemma_waits_end(st, apps, 0);
    let t = all_waits_ended(st, apps, 0);
    assert forall|a: Str| #[trigger] t.restore_apps.contains(a) <==> st.restore_apps.contains(a) && !apps.contains(a) by {
        if apps.contains(a) {
            let k = choose|k: int| 0 <= k < apps.len() && apps[k] == a;
            assert(apps[k] == a);
        }
    }
}

} // verus!
