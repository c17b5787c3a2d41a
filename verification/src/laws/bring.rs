//! Opening and pulling applications.
use vstd::prelude::*;

use crate::adopt::{free_rect, not_foreign};
use crate::area::centered;
use crate::config::ConfigView;
use crate::cycle::{brought, of_ws, shown, taken, BringView};
use crate::desks::at_desk;
use crate::effects::{
    belongs_after, entering, leaving, lemma_after_more, lemma_entering_apart, lemma_no_tag, lemma_no_tags,
    lemma_runs_more, no_tag, runs,
};
use crate::exprs::{desk_move, placing};
use crate::extra::{merged, record_for};
use crate::home::actives_of;
use crate::hypr::{in_ws, on_hidden, tag_of, Client};
use crate::laws::windows::{law_members, law_shown, lemma_in_sum, lemma_three_parts, three_parts};
use crate::pending::Target;
use crate::raise::desk_of;
use crate::rect::PxRect;
use crate::state::StateView;
use crate::text::Str;
use crate::windows::{law_windows_in_order, shows, windows_of};

verus! {

/// The window is to be brought into a workspace: it is a window of the application and not hidden, and where the
/// application is opened rather than pulled, it belongs to the workspace or no such window does.
pub open spec fn to_bring(cfg: ConfigView, clients: Seq<Client>, ws: Str, app: Str, pull: bool, c: Client) -> bool {
    &&& clients.contains(c)
    &&& shows(cfg, c, app)
    &&& !on_hidden(c)
    &&& pull || in_ws(c, ws) || forall|o: Client| #[trigger]
        clients.contains(o) && shows(cfg, o, app) && !on_hidden(o) ==> !in_ws(o, ws)
}

/// The windows that are brought into a workspace are those that are to be brought, each of them and no other.
pub proof fn law_taken(cfg: ConfigView, clients: Seq<Client>, ws: Str, app: Str, pull: bool)
    ensures
        forall|c: Client| #[trigger]
            taken(cfg, clients, ws, app, pull).contains(c) <==> to_bring(cfg, clients, ws, app, pull, c),
{
    let own = shown(windows_of(cfg, clients, app));
    law_windows_in_order(cfg, clients, app);
    law_shown(windows_of(cfg, clients, app));
    law_members(own, ws);
    assert(of_ws(own, ws).len() == 0 <==> forall|o: Client| #[trigger]
        clients.contains(o) && shows(cfg, o, app) && !on_hidden(o) ==> !in_ws(o, ws)) by {
        if of_ws(own, ws).len() > 0 {
            let o = of_ws(own, ws)[0];
            assert(of_ws(own, ws).contains(o));
            assert(clients.contains(o));
        } else {
            assert forall|o: Client| #[trigger]
                clients.contains(o) && shows(cfg, o, app) && !on_hidden(o) implies !in_ws(o, ws) by {
                assert(own.contains(o));
                assert(!of_ws(own, ws).contains(o));
            }
        }
    }
}

/// What the expressions do with a window that is brought into a workspace on desktop `n`.
pub open spec fn is_brought(c: Client, ws: Str, n: u8, rect: PxRect, ex: Seq<Str>) -> bool {
    &&& belongs_after(c, ws, ex)
    &&& desk_of(c) == Some(n) || ex.contains(desk_move(c.address@, n))
    &&& runs(ex, placing(c.address@, rect))
}

/// The expression is one of those that bring a window into a workspace.
pub open spec fn brings(e: Str, c: Client, ws: Str, n: u8, rect: PxRect) -> bool {
    ||| e == entering(c.address@, ws) && !in_ws(c, ws)
    ||| e == desk_move(c.address@, n) && desk_of(c) != Some(n)
    ||| placing(c.address@, rect).contains(e)
}

/// The list holds no expression by which a window leaves a workspace.
pub open spec fn none_leaves(ex: Seq<Str>) -> bool {
    forall|a: Str, w: Str| !#[trigger] ex.contains(leaving(a, w))
}

proof fn lemma_after_kept(c: Client, ws: Str, a: Seq<Str>, b: Seq<Str>)
    requires
        none_leaves(b),
        belongs_after(c, ws, a),
    ensures
        belongs_after(c, ws, a + b),
{
    lemma_after_more(c, ws, a, b);
    assert(!b.contains(leaving(c.address@, ws)));
}

/// The expressions that bring one window into a workspace.
pub open spec fn bringing(c: Client, ws: Str, n: u8, rect: PxRect) -> Seq<Str> {
    three_parts(
        if in_ws(c, ws) {
            None
        } else {
            Some(entering(c.address@, ws))
        },
        if desk_of(c) != Some(n) {
            Some(desk_move(c.address@, n))
        } else {
            None
        },
        placing(c.address@, rect),
    )
}

proof fn lemma_placing_quiet(addr: Str, n: u8, rect: PxRect, e: Str)
    requires
        e == desk_move(addr, n) || placing(addr, rect).contains(e),
    ensures
        no_tag(e),
{
    lemma_no_tags(addr);
    if placing(addr, rect).contains(e) {
        let i = choose|i: int| 0 <= i < placing(addr, rect).len() && placing(addr, rect)[i] == e;
        if i == 0 {
            assert(e == crate::hypr::resize_of(addr, rect));
        } else {
            assert(e == crate::hypr::position_of(addr, rect));
        }
    }
}

proof fn lemma_bringing(c: Client, ws: Str, n: u8, rect: PxRect)
    ensures
        none_leaves(bringing(c, ws, n, rect)),
        desk_of(c) == Some(n) || bringing(c, ws, n, rect).contains(desk_move(c.address@, n)),
        runs(bringing(c, ws, n, rect), placing(c.address@, rect)),
        in_ws(c, ws) || bringing(c, ws, n, rect).contains(entering(c.address@, ws)),
        forall|e: Str| #[trigger] bringing(c, ws, n, rect).contains(e) ==> brings(e, c, ws, n, rect),
{
    let addr = c.address@;
    let x = bringing(c, ws, n, rect);
    lemma_three_parts(
        if in_ws(c, ws) {
            None
        } else {
            Some(entering(addr, ws))
        },
        if desk_of(c) != Some(n) {
            Some(desk_move(addr, n))
        } else {
            None
        },
        placing(addr, rect),
    );
    assert forall|v: Str, w: Str| !#[trigger] x.contains(leaving(v, w)) by {
        let e = leaving(v, w);
        if x.contains(e) {
            lemma_entering_apart(addr, ws, v, w);
            lemma_placing_quiet(addr, n, rect, e);
            lemma_no_tag(e, v, w);
        }
    }
}

/// The expressions bring these windows and touch no other.
#[verifier::opaque]
spec fn so_far(done: Seq<Client>, ws: Str, n: u8, rect: PxRect, ex: Seq<Str>) -> bool {
    &&& none_leaves(ex)
    &&& forall|k: int| 0 <= k < done.len() ==> is_brought(#[trigger] done[k], ws, n, rect, ex)
    &&& forall|e: Str| #[trigger]
        ex.contains(e) ==> exists|k: int| 0 <= k < done.len() && brings(e, #[trigger] done[k], ws, n, rect)
}

proof fn lemma_brought_one(done: Seq<Client>, c: Client, ws: Str, n: u8, rect: PxRect, ex: Seq<Str>)
    requires
        so_far(done, ws, n, rect, ex),
    ensures
        so_far(done.push(c), ws, n, rect, ex + bringing(c, ws, n, rect)),
{
    reveal(so_far);
    let x = bringing(c, ws, n, rect);
    let next = ex + x;
    let all = done.push(c);
    lemma_bringing(c, ws, n, rect);
    assert forall|v: Str, w: Str| !#[trigger] next.contains(leaving(v, w)) by {
        lemma_in_sum(ex, x, leaving(v, w));
    }
    assert forall|k: int| 0 <= k < all.len() implies is_brought(#[trigger] all[k], ws, n, rect, next) by {
        let o = all[k];
        lemma_in_sum(ex, x, desk_move(o.address@, n));
        lemma_runs_more(ex, x, placing(o.address@, rect));
        if k < done.len() {
            assert(o == done[k]);
            lemma_after_kept(o, ws, ex, x);
        } else {
            assert(!x.contains(leaving(c.address@, ws)));
            lemma_after_more(c, ws, ex, x);
            if in_ws(c, ws) {
                lemma_never_left(c, ws, next);
            }
        }
    }
    assert forall|e: Str| #[trigger] next.contains(e) implies exists|k: int|
        0 <= k < all.len() && brings(e, #[trigger] all[k], ws, n, rect) by {
        lemma_in_sum(ex, x, e);
        if ex.contains(e) {
            let k = choose|k: int| 0 <= k < done.len() && brings(e, #[trigger] done[k], ws, n, rect);
            assert(all[k] == done[k]);
        } else {
            assert(all[done.len() as int] == c);
        }
    }
}

/// The list with the expressions that bring one more window.
spec fn brought_step(ws: Str, c: Client, rect: PxRect, n: u8, ex: Seq<Str>) -> Seq<Str> {
    let ex1 = if in_ws(c, ws) {
        ex
    } else {
        ex.push(tag_of(c.address@, "ws:"@ + ws))
    };
    let ex2 = if desk_of(c) != Some(n) {
        ex1.push(desk_move(c.address@, n))
    } else {
        ex1
    };
    ex2 + placing(c.address@, rect)
}

proof fn lemma_brought(
    st: StateView,
    cfg: ConfigView,
    ws: Str,
    before: Map<u8, Str>,
    take: Seq<Client>,
    rect: PxRect,
    clients: Seq<Client>,
    n: u8,
    i: int,
    ex: Seq<Str>,
)
    requires
        0 <= i <= take.len(),
        so_far(take.take(i), ws, n, rect, ex),
    ensures
        so_far(take, ws, n, rect, st.brought_from(cfg, ws, before, take, rect, clients, n, i, ex).1),
    decreases take.len() - i,
{
    if i < take.len() {
        let c = take[i];
        let next = brought_step(ws, c, rect, n, ex);
        assert(next =~= ex + bringing(c, ws, n, rect)) by {
            reveal(entering);
        }
        lemma_brought_one(take.take(i), c, ws, n, rect, ex);
        assert(take.take(i + 1) =~= take.take(i).push(c));
        let one = if desk_of(c) != Some(n) {
            match desk_of(c) {
                Some(k) => match at_desk(before, k) {
                    Some(v) => if v != ws && in_ws(c, v) {
                        st.absorbed(cfg, v, k, clients)
                    } else {
                        st
                    },
                    None => st,
                },
                None => st,
            }
        } else {
            st
        };
        let two = StateView { geom: crate::table::nest_put(one.geom, ws, c.address@, rect), ..one };
        lemma_brought(not_foreign(two, c.address@), cfg, ws, before, take, rect, clients, n, i + 1, next);
    } else {
        assert(take.take(i) =~= take);
    }
}

proof fn lemma_never_left(c: Client, ws: Str, ex: Seq<Str>)
    requires
        none_leaves(ex),
        in_ws(c, ws),
    ensures
        belongs_after(c, ws, ex),
{
    lemma_after_more(c, ws, Seq::empty(), ex);
    assert(Seq::<Str>::empty() + ex =~= ex);
    assert(!ex.contains(leaving(c.address@, ws)));
}

/// The expressions bring each window that is to be brought, and touch no other window.
pub open spec fn brings_all(
    cfg: ConfigView,
    clients: Seq<Client>,
    ws: Str,
    app: Str,
    pull: bool,
    n: u8,
    rect: PxRect,
    ex: Seq<Str>,
) -> bool {
    &&& none_leaves(ex)
    &&& forall|c: Client| #[trigger] to_bring(cfg, clients, ws, app, pull, c) ==> is_brought(c, ws, n, rect, ex)
    &&& forall|e: Str| #[trigger]
        ex.contains(e) ==> exists|c: Client| #[trigger] to_bring(cfg, clients, ws, app, pull, c) && brings(e, c, ws, n, rect)
}

/// Bringing an application into a workspace starts it exactly where it has no window that is not hidden. Else each
/// window that is to be brought belongs to the workspace afterwards, is moved to the desktop where it stands
/// elsewhere, and is placed: on the place of the application, else in the middle of the screen. No other
/// window is touched, and none leaves a workspace. It fails only where the workspace does not describe the
/// application.
pub proof fn law_brought(
    cfg: ConfigView,
    file: ConfigView,
    st: StateView,
    ws: Str,
    app: Str,
    pull: bool,
    clients: Seq<Client>,
    n: u8,
    mon: (i32, i32),
)
    ensures
        ({
            let open = exists|c: Client| #[trigger] clients.contains(c) && shows(cfg, c, app) && !on_hidden(c);
            let place = st.open_place(cfg, Some(ws), app);
            match brought(cfg, file, st, ws, app, pull, clients, n, mon).2 {
                BringView::Launch(t) => !open && t == Target::Free(place),
                BringView::Windows(ex) => open && exists|c: Client| #[trigger]
                    to_bring(cfg, clients, ws, app, pull, c) && brings_all(
                        cfg,
                        clients,
                        ws,
                        app,
                        pull,
                        n,
                        match place {
                            Some(r) => r,
                            None => centered(c.size, mon),
                        },
                        ex,
                    ),
                BringView::Fault(_) => open && !cfg.ws_has_app(ws, app),
            }
        }),
{
    let take = taken(cfg, clients, ws, app, pull);
    law_taken(cfg, clients, ws, app, pull);
    let r = brought(cfg, file, st, ws, app, pull, clients, n, mon).2;
    let open = exists|c: Client| #[trigger] clients.contains(c) && shows(cfg, c, app) && !on_hidden(c);
    if open {
        let c = choose|c: Client| #[trigger] clients.contains(c) && shows(cfg, c, app) && !on_hidden(c);
        if !to_bring(cfg, clients, ws, app, pull, c) {
            let o = choose|o: Client| !(#[trigger]
            clients.contains(o) && shows(cfg, o, app) && !on_hidden(o) ==> !in_ws(o, ws));
            assert(to_bring(cfg, clients, ws, app, pull, o));
            assert(take.contains(o));
        } else {
            assert(take.contains(c));
        }
    }
    if take.len() > 0 {
        let first = take[0];
        assert(take.contains(first));
        assert(to_bring(cfg, clients, ws, app, pull, first));
        assert(clients.contains(first));
        let rect = free_rect(st.open_place(cfg, Some(ws), app), first, mon);
        let one = st.opened(cfg, Some(ws));
        assert(so_far(take.take(0), ws, n, rect, Seq::empty())) by {
            reveal(so_far);
        }
        if cfg.ws_has_app(ws, app) {
            lemma_brought(one, cfg, ws, actives_of(one.desktops), take, rect, clients, n, 0, Seq::empty());
            lemma_taken_brought(cfg, clients, ws, app, pull, n, rect, r->Windows_0);
        } else if let Some(e) = record_for(file, one.extra, app, rect) {
            let two = StateView { extra: crate::table::nest_put(one.extra, ws, app, e), ..one };
            let cfg2 = merged(file, two.extra).0;
            let three = two.rebuilt(file);
            lemma_brought(three, cfg2, ws, actives_of(three.desktops), take, rect, clients, n, 0, Seq::empty());
            lemma_taken_brought(cfg, clients, ws, app, pull, n, rect, r->Windows_0);
        }
    }
}

proof fn lemma_taken_brought(
    cfg: ConfigView,
    clients: Seq<Client>,
    ws: Str,
    app: Str,
    pull: bool,
    n: u8,
    rect: PxRect,
    ex: Seq<Str>,
)
    requires
        so_far(taken(cfg, clients, ws, app, pull), ws, n, rect, ex),
    ensures
        brings_all(cfg, clients, ws, app, pull, n, rect, ex),
{
    reveal(so_far);
    let take = taken(cfg, clients, ws, app, pull);
    law_taken(cfg, clients, ws, app, pull);
    assert forall|c: Client| #[trigger] to_bring(cfg, clients, ws, app, pull, c) implies is_brought(c, ws, n, rect, ex) by {
        assert(take.contains(c));
        let k = choose|k: int| 0 <= k < take.len() && take[k] == c;
        assert(is_brought(take[k], ws, n, rect, ex));
    }
    assert forall|e: Str| #[trigger] ex.contains(e) implies exists|c: Client| #[trigger]
        to_bring(cfg, clients, ws, app, pull, c) && brings(e, c, ws, n, rect) by {
        let k = choose|k: int| 0 <= k < take.len() && brings(e, #[trigger] take[k], ws, n, rect);
        assert(take.contains(take[k]));
        assert(to_bring(cfg, clients, ws, app, pull, take[k]));
    }
}

} // verus!
