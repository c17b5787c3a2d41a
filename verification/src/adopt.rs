//! Windows become windows of applications and of workspaces, and cease to be.
use vstd::prelude::*;

use crate::area::{center_rect, centered};
use crate::config::{Config, ConfigView};
use crate::exprs::{
    app_tags_of, desk_move, focusing, park, placing, placing_opt, push_all, push_desk_move, push_focus, push_park,
    push_place, push_place_opt, push_untags, untags,
};
use crate::extra::{
    detach_of, detach_step, drop_extra_app, merged, rebuild_cfg, record_for, remember_extra, share_record, DetachStep,
    DetachStepView, Join, JoinView,
};
use crate::home::{absorb_into, actives, actives_of, Home};
use crate::hypr::{
    app_tag, close_of, d_close, d_tag, d_untag, instance_tag, parse_ws_tag, rect_of, tag_of, ws_tag, ws_tag_of,
    Client,
};
use crate::layout::{claim_owner, drop_moved, open_rect, pairs_view};
use crate::lookup::ws_has_app;
use crate::member::{
    addr_from, all_derived_upto, all_wrong_upto, derive_membership, find_addr, shares_view, stale_ws_tags, Capture,
    CaptureView,
};
use crate::pending::{Pending, PendingView, Target};
use crate::raise::{desk_of, send_to};
use crate::rect::PxRect;
use crate::restore::{
    focus_main_ex, focusing_opt, instance_ex, instance_exprs, instance_number, match_restore, matched, members_of,
    retagging,
};
use crate::state::{
    place_only, ExtraApp, ExtraAppView, Foreign, ForeignView, RestoreEntryView, RestoreState, State, StateView,
};
use crate::table::{nest_at, nest_del, nest_put, tab_del, tab_put, Dup, Table};
use crate::text::{copy_all, has_prefix, holds, opt_str, oview, same, starts, views, Str};
use crate::windows::{
    entry_exprs, entry_tags, first_of, first_window, free_instance, instances, least_free, odref, windows_of,
};

verus! {

broadcast use crate::text::group_views;

// ---- Tags of the windows at hand ------------------------------------------------

/// Two records of a window differ in nothing but the tags.
pub open spec fn same_window(a: Client, b: Client) -> bool {
    &&& a.address == b.address
    &&& a.class == b.class
    &&& a.title == b.title
    &&& a.workspace == b.workspace
    &&& a.pid == b.pid
    &&& a.at == b.at
    &&& a.size == b.size
    &&& a.floating == b.floating
    &&& a.mapped == b.mapped
    &&& a.fullscreen == b.fullscreen
    &&& a.stable_id == b.stable_id
}

/// The list differs from another only in the tags of one window.
pub open spec fn retagged_at(old_list: Seq<Client>, new_list: Seq<Client>, i: int, tags: Seq<Str>) -> bool {
    &&& new_list.len() == old_list.len()
    &&& same_window(old_list[i], new_list[i])
    &&& views(new_list[i].tags@) == tags
    &&& forall|k: int| 0 <= k < old_list.len() && k != i ==> #[trigger] new_list[k] == old_list[k]
}

/// Those of the first `n` tags that are not instance tags.
pub open spec fn no_app_tags(tags: Seq<Str>, n: int) -> Seq<Str>
    decreases n,
{
    if n <= 0 {
        Seq::empty()
    } else if has_prefix(tags[n - 1], "app:"@) {
        no_app_tags(tags, n - 1)
    } else {
        no_app_tags(tags, n - 1).push(tags[n - 1])
    }
}

/// Those of the first `n` tags that are not the tag of a workspace.
pub open spec fn no_ws_tag(tags: Seq<Str>, ws: Str, n: int) -> Seq<Str>
    decreases n,
{
    if n <= 0 {
        Seq::empty()
    } else if ws_tag_of(tags[n - 1]) == Some(ws) {
        no_ws_tag(tags, ws, n - 1)
    } else {
        no_ws_tag(tags, ws, n - 1).push(tags[n - 1])
    }
}

fn drop_app_tags(tags: &[String]) -> (r: Vec<String>)
    ensures
        views(r@) == no_app_tags(views(tags@), tags.len() as int),
{
    let ghost s = views(tags@);
    let mut out: Vec<String> = Vec::new();
    let mut i: usize = 0;
    while i < tags.len()
        invariant
            i <= tags.len(),
            s == views(tags@),
            views(out@) == no_app_tags(s, i as int),
        decreases tags.len() - i,
    {
        if !starts(tags[i].as_str(), "app:") {
            out.push(tags[i].clone());
        }
        i = i + 1;
    }
    out
}

fn drop_ws_tag(tags: &[String], ws: &str) -> (r: Vec<String>)
    ensures
        views(r@) == no_ws_tag(views(tags@), ws@, tags.len() as int),
{
    let ghost s = views(tags@);
    let mut out: Vec<String> = Vec::new();
    let mut i: usize = 0;
    while i < tags.len()
        invariant
            i <= tags.len(),
            s == views(tags@),
            views(out@) == no_ws_tag(s, ws@, i as int),
        decreases tags.len() - i,
    {
        let named = match parse_ws_tag(tags[i].as_str()) {
            Some(w) => same(w.as_str(), ws),
            None => false,
        };
        if !named {
            out.push(tags[i].clone());
        }
        i = i + 1;
    }
    out
}

fn set_tags(clients: &mut Vec<Client>, i: usize, tags: Vec<String>)
    requires
        i < old(clients).len(),
    ensures
        retagged_at(old(clients)@, final(clients)@, i as int, views(tags@)),
{
    let ghost t = views(tags@);
    let mut c = clients[i].clone();
    c.tags = tags;
    clients.set(i, c);
}

/// The tags of a window after it was captured.
pub open spec fn captured_tags(tags: Seq<Str>, cap: CaptureView, ws: Option<Str>) -> Seq<Str> {
    let one = if cap.retag {
        no_app_tags(tags, tags.len() as int).push(instance_tag(cap.app, cap.num))
    } else {
        tags
    };
    match ws {
        Some(w) => one.push("ws:"@ + w),
        None => one,
    }
}

/// The expressions by which a window is captured.
pub open spec fn capturing(c: Client, cap: CaptureView, ws: Option<Str>) -> Seq<Str> {
    (if cap.retag {
        retagging(c, cap.app, cap.num)
    } else {
        Seq::empty()
    }) + match ws {
        Some(w) => seq![tag_of(c.address@, "ws:"@ + w)],
        None => Seq::empty(),
    }
}

/// Capture a window: with `ws` it enters the workspace. The tags change in the list at hand as they do
/// in the compositor. Gives the expressions.
pub fn adopt_untagged(clients: &mut Vec<Client>, cap: &Capture, ws: Option<&str>) -> (r: Vec<String>)
    requires
        cap.idx < old(clients).len(),
    ensures
        views(r@) == capturing(old(clients)@[cap.idx as int], cap@, oview(ws)),
        retagged_at(
            old(clients)@,
            final(clients)@,
            cap.idx as int,
            captured_tags(views(old(clients)@[cap.idx as int].tags@), cap@, oview(ws)),
        ),
{
    let ghost c0 = clients@[cap.idx as int];
    let mut ex: Vec<String> = Vec::new();
    let mut tags: Vec<String> = copy_all(clients[cap.idx].tags.as_slice());
    let addr = clients[cap.idx].address.clone();
    if cap.retag {
        let tag = app_tag(cap.app.as_str(), cap.num);
        push_untags(&mut ex, addr.as_str(), clients[cap.idx].app_tags().as_slice());
        ex.push(d_tag(addr.as_str(), tag.as_str()));
        proof {
            assert(views(ex@) =~= retagging(c0, cap@.app, cap@.num));
        }
        tags = drop_app_tags(clients[cap.idx].tags.as_slice());
        tags.push(tag);
    }
    if let Some(w) = ws {
        let tag = ws_tag(w);
        ex.push(d_tag(addr.as_str(), tag.as_str()));
        tags.push(tag);
    }
    proof {
        assert(views(ex@) =~= capturing(c0, cap@, oview(ws)));
    }
    set_tags(clients, cap.idx, tags);
    ex
}

/// The plan without the applications to skip, from the first to the `n`th window.
pub open spec fn shares_without(plan: Seq<(int, Str)>, skip: Seq<Str>, n: int) -> Seq<(int, Str)>
    decreases n,
{
    if n <= 0 {
        Seq::empty()
    } else if skip.contains(plan[n - 1].1) {
        shares_without(plan, skip, n - 1)
    } else {
        shares_without(plan, skip, n - 1).push(plan[n - 1])
    }
}

/// The expressions by which the first `n` windows of a plan enter a workspace.
pub open spec fn sharing(clients: Seq<Client>, plan: Seq<(int, Str)>, ws: Str, n: int) -> Seq<Str>
    decreases n,
{
    if n <= 0 {
        Seq::empty()
    } else {
        sharing(clients, plan, ws, n - 1).push(tag_of(clients[plan[n - 1].0].address@, "ws:"@ + ws))
    }
}

/// How many of the first `n` windows of a plan are this one.
pub open spec fn times(plan: Seq<(int, Str)>, i: int, n: int) -> nat
    decreases n,
{
    if n <= 0 {
        0
    } else if plan[n - 1].0 == i {
        times(plan, i, n - 1) + 1
    } else {
        times(plan, i, n - 1)
    }
}

/// Tags with a tag put at the end `n` times.
pub open spec fn with_tag(tags: Seq<Str>, tag: Str, n: nat) -> Seq<Str>
    decreases n,
{
    if n == 0 {
        tags
    } else {
        with_tag(tags, tag, (n - 1) as nat).push(tag)
    }
}

/// The list differs from another only in the tag of a workspace that the windows of a plan got.
pub open spec fn shared_with(old_list: Seq<Client>, new_list: Seq<Client>, plan: Seq<(int, Str)>, ws: Str, n: int) -> bool {
    &&& new_list.len() == old_list.len()
    &&& forall|i: int|
        0 <= i < old_list.len() ==> {
            &&& same_window(old_list[i], #[trigger] new_list[i])
            &&& views(new_list[i].tags@) == with_tag(views(old_list[i].tags@), "ws:"@ + ws, times(plan, i, n))
        }
}

fn kept_shares(plan: &[(usize, String)], skip: &[String]) -> (r: Vec<(usize, String)>)
    ensures
        shares_view(r@) == shares_without(shares_view(plan@), views(skip@), plan.len() as int),
        forall|k: int| 0 <= k < r.len() ==> exists|j: int| 0 <= j < plan.len() && (#[trigger] r@[k]).0 == plan@[j].0,
{
    let ghost p = shares_view(plan@);
    let mut out: Vec<(usize, String)> = Vec::new();
    let mut i: usize = 0;
    proof {
        assert(shares_view(out@) =~= Seq::empty());
    }
    while i < plan.len()
        invariant
            i <= plan.len(),
            p == shares_view(plan@),
            shares_view(out@) == shares_without(p, views(skip@), i as int),
            forall|k: int|
                0 <= k < out.len() ==> exists|j: int| 0 <= j < plan.len() && (#[trigger] out@[k]).0 == plan@[j].0,
        decreases plan.len() - i,
    {
        assert(p[i as int] == (plan@[i as int].0 as int, plan@[i as int].1@));
        if !holds(skip, plan[i].1.as_str()) {
            let ghost was = out@;
            out.push((plan[i].0, plan[i].1.clone()));
            proof {
                assert(shares_view(out@) =~= shares_view(was).push(p[i as int]));
                assert(out@[out@.len() - 1].0 == plan@[i as int].0);
            }
        }
        i = i + 1;
    }
    out
}

/// Let windows of other workspaces enter a workspace, but for those of applications to skip. The tags
/// change in the list at hand as they do in the compositor. Gives the expressions.
pub fn share_windows(clients: &mut Vec<Client>, plan: &[(usize, String)], ws: &str, skip: &[String]) -> (r: Vec<String>)
    requires
        forall|k: int| 0 <= k < plan.len() ==> (#[trigger] plan@[k]).0 < old(clients).len(),
    ensures
        ({
            let p = shares_without(shares_view(plan@), views(skip@), plan.len() as int);
            &&& views(r@) == sharing(old(clients)@, p, ws@, p.len() as int)
            &&& shared_with(old(clients)@, final(clients)@, p, ws@, p.len() as int)
        }),
{
    let kept = kept_shares(plan, skip);
    let ghost p = shares_view(kept@);
    let mut ex: Vec<String> = Vec::new();
    let mut i: usize = 0;
    while i < kept.len()
        invariant
            i <= kept.len(),
            p == shares_view(kept@),
            clients.len() == old(clients).len(),
            forall|k: int| 0 <= k < plan.len() ==> (#[trigger] plan@[k]).0 < clients.len(),
            forall|k: int|
                0 <= k < kept.len() ==> exists|j: int| 0 <= j < plan.len() && (#[trigger] kept@[k]).0 == plan@[j].0,
            views(ex@) == sharing(old(clients)@, p, ws@, i as int),
            shared_with(old(clients)@, clients@, p, ws@, i as int),
        decreases kept.len() - i,
    {
        let at: usize = kept[i].0;
        assert(p[i as int].0 == at as int);
        assert(at < clients.len()) by {
            assert(kept@[i as int].0 == at);
            let j = choose|j: int| 0 <= j < plan.len() && kept@[i as int].0 == plan@[j].0;
            assert(plan@[j].0 < clients.len());
        }
        let tag = ws_tag(ws);
        let ghost before = clients@;
        assert(same_window(old(clients)@[at as int], before[at as int]));
        ex.push(d_tag(clients[at].address.as_str(), tag.as_str()));
        let mut tags = copy_all(clients[at].tags.as_slice());
        tags.push(tag);
        set_tags(clients, at, tags);
        proof {
            assert forall|x: int| 0 <= x < old(clients)@.len() implies {
                &&& same_window(old(clients)@[x], #[trigger] clients@[x])
                &&& views(clients@[x].tags@) == with_tag(
                    views(old(clients)@[x].tags@),
                    "ws:"@ + ws@,
                    times(p, x, i + 1),
                )
            } by {
                assert(same_window(old(clients)@[x], before[x]));
                if x != at as int {
                    assert(clients@[x] == before[x]);
                }
            }
        }
        i = i + 1;
    }
    ex
}

// ---- The window of an application that was started -------------------------------

/// The state with a record done.
pub open spec fn with_done(st: StateView, k: int) -> StateView {
    StateView {
        restore: st.restore.update(k, RestoreEntryView { state: RestoreState::Done, ..st.restore[k] }),
        ..st
    }
}

/// A record was fulfilled or given up.
pub fn mark_done(st: &mut State, k: usize)
    requires
        k < old(st)@.restore.len(),
    ensures
        final(st)@ == with_done(old(st)@, k as int),
{
    let mut e = st.restore[k].dup();
    e.state = RestoreState::Done;
    st.restore.set(k, e);
    proof {
        assert(views(st.restore@) =~= with_done(old(st)@, k as int).restore);
    }
}

/// What came of settling a window: the expressions, the number of the instance, and the application whose
/// record of the saved session it fulfilled.
#[derive(Debug)]
pub struct Settled {
    pub ex: Vec<String>,
    pub num: u32,
    pub restored: Option<String>,
}

/// What it says, with the configuration and the state after it.
pub struct SettledView {
    pub cfg: ConfigView,
    pub st: StateView,
    pub ex: Seq<Str>,
    pub num: nat,
    pub restored: Option<Str>,
}

/// A window fulfils a record of the saved session: number, workspaces and place are those of the record.
/// The focus goes to the window if it was asked for, else back to the main window.
pub open spec fn settle_record(
    cfg: ConfigView,
    st: StateView,
    c: Client,
    clients: Seq<Client>,
    k: int,
    app: Str,
    focus: bool,
    current: u8,
) -> SettledView {
    let e = st.restore[k];
    let one = with_done(st, k);
    let (home, rect) = one.restored(cfg, e, actives_of(one.desktops), current);
    let two = one.with_instance(cfg, c, e, current);
    let num = instance_number(c, clients, e, true);
    let ex = instance_exprs(c, e, members_of(cfg, e), true, num, home, rect);
    SettledView {
        cfg,
        st: if focus {
            two
        } else {
            two.looked_main(cfg, home, current)
        },
        ex: ex + if focus {
            focusing(c.address@)
        } else {
            focusing_opt(two.main_back(cfg, home, app, clients, current))
        },
        num,
        restored: Some(e.app),
    }
}

/// Let a window fulfil a record of the saved session.
pub fn restore_new(
    cfg: &Config,
    st: &mut State,
    c: &Client,
    clients: &[Client],
    k: usize,
    app: &str,
    focus: bool,
    current: u8,
) -> (r: Settled)
    requires
        k < old(st)@.restore.len(),
        clients.len() < u32::MAX,
    ensures
        settle_record(cfg@, old(st)@, *c, clients@, k as int, app@, focus, current) == (SettledView {
            cfg: cfg@,
            st: final(st)@,
            ex: views(r.ex@),
            num: r.num as nat,
            restored: oview(r.restored),
        }),
{
    let e = st.restore[k].dup();
    assert(e@ == st@.restore[k as int]);
    mark_done(st, k);
    let (mut ex, home, num) = instance_ex(cfg, st, c, clients, &e, true, current);
    if focus {
        push_focus(&mut ex, c.address.as_str());
    } else {
        let back = focus_main_ex(cfg, st, home, app, clients, current);
        push_all(&mut ex, back);
    }
    Settled { ex, num, restored: Some(e.app) }
}

/// The workspace that takes the application in with its window: the application was started for it, and it
/// does not describe the application.
pub open spec fn joining(cfg: ConfigView, p: PendingView) -> Option<Str> {
    match p.workspace {
        Some(w) => if cfg.ws_has_app(w, p.app) {
            None
        } else {
            Some(w)
        },
        None => None,
    }
}

/// The expressions that move a window to a desktop, where it is not there.
pub open spec fn moving_to(c: Client, n: u8) -> Seq<Str> {
    if desk_of(c) != Some(n) {
        seq![desk_move(c.address@, n)]
    } else {
        Seq::empty()
    }
}

/// The place of a free window: the one given, else the middle of the screen.
pub open spec fn free_rect(rect: Option<PxRect>, c: Client, mon: (i32, i32)) -> PxRect {
    match rect {
        Some(r) => r,
        None => centered(c.size, mon),
    }
}

/// The configuration and the state after the window of an application took its place.
pub open spec fn settled_state(
    cfg: ConfigView,
    file: ConfigView,
    st: StateView,
    c: Client,
    p: PendingView,
    cmd: Seq<Str>,
    cwd: Option<Str>,
    mon: (i32, i32),
) -> (ConfigView, StateView) {
    match p.target {
        Target::Pool => (cfg, st),
        Target::Place(r) => match p.workspace {
            Some(w) => (
                cfg,
                StateView { geom: nest_put(st.geom, w, c.address@, r), ..st }.claimed(cfg, w, p.app, c.address@),
            ),
            None => (cfg, st),
        },
        Target::Free(rect) => {
            let r = free_rect(rect, c, mon);
            match joining(cfg, p) {
                Some(w) => match record_for(file, st.extra, p.app, r) {
                    Some(e) => {
                        let one = StateView { extra: nest_put(st.extra, w, p.app, e), ..st };
                        (merged(file, one.extra).0, one.rebuilt(file))
                    },
                    None => (cfg, st),
                },
                None => (
                    cfg,
                    StateView { foreign: tab_put(st.foreign, c.address@, ForeignView { rect: r, cmd, cwd }), ..st },
                ),
            }
        },
    }
}

/// The expressions by which the window of an application takes its place.
pub open spec fn settling(c: Client, p: PendingView, mon: (i32, i32)) -> Seq<Str> {
    match p.target {
        Target::Pool => seq![park(c.address@)],
        Target::Place(r) => moving_to(c, p.desktop) + placing(c.address@, r),
        Target::Free(rect) => moving_to(c, p.desktop) + placing(c.address@, free_rect(rect, c, mon)),
    }
}

/// The window that gets the focus after the window of an application took its place: that window if it was
/// asked for, else the first of the main application of its workspace, where that stands on the desktop of
/// the user.
pub open spec fn settled_focus(
    cfg: ConfigView,
    st: StateView,
    c: Client,
    clients: Seq<Client>,
    p: PendingView,
    current: u8,
) -> Option<Str> {
    if p.focus {
        Some(c.address@)
    } else {
        match p.workspace {
            Some(w) => if p.desktop == current {
                match st.built(cfg, w).main_in(cfg, w) {
                    Some(m) => if m == p.app {
                        None
                    } else {
                        match first_of(windows_of(cfg, clients, m)) {
                            Some(x) => if desk_of(x) == Some(p.desktop) {
                                Some(x.address@)
                            } else {
                                None
                            },
                            None => None,
                        }
                    },
                    None => None,
                }
            } else {
                None
            },
            None => None,
        }
    }
}

/// What comes of the window of an application that was started: it fulfils a record of the saved session if
/// one waits for it, else it gets the least free number, the workspace it was started for, and its place.
pub open spec fn settled(
    cfg: ConfigView,
    file: ConfigView,
    st: StateView,
    c: Client,
    clients: Seq<Client>,
    p: PendingView,
    cmd: Seq<Str>,
    cwd: Option<Str>,
    current: u8,
    mon: (i32, i32),
) -> SettledView {
    match matched(st.restore, Some(p.app), Seq::empty(), p.workspace) {
        Some(k) => settle_record(cfg, st, c, clients, k, p.app, p.focus, current),
        None => {
            let num = least_free(instances(clients, p.app));
            let (cfg2, one) = settled_state(cfg, file, st, c, p, cmd, cwd, mon);
            SettledView {
                cfg: cfg2,
                st: if !p.focus && p.desktop == current {
                    match p.workspace {
                        Some(w) => one.built(cfg2, w),
                        None => one,
                    }
                } else {
                    one
                },
                ex: entry_exprs(c.address@, p.app, num, p.workspace) + settling(c, p, mon) + focusing_opt(
                    settled_focus(cfg2, one, c, clients, p, current),
                ),
                num,
                restored: None,
            }
        },
    }
}

fn push_moving(ex: &mut Vec<String>, c: &Client, n: u8)
    ensures
        views(final(ex)@) == views(old(ex)@) + moving_to(*c, n),
{
    let ghost was = views(ex@);
    if c.desktop() != Some(n) {
        push_desk_move(ex, c.address.as_str(), n);
    }
    proof {
        assert(views(ex@) =~= was + moving_to(*c, n));
    }
}

fn settle(
    cfg: &mut Config,
    file: &Config,
    st: &mut State,
    c: &Client,
    p: &Pending,
    cmd: Vec<String>,
    cwd: Option<String>,
    mon: (i32, i32),
    ex: &mut Vec<String>,
)
    ensures
        settled_state(old(cfg)@, file@, old(st)@, *c, p@, views(cmd@), oview(cwd), mon) == (final(cfg)@, final(st)@),
        views(final(ex)@) == views(old(ex)@) + settling(*c, p@, mon),
{
    let ghost was = views(ex@);
    match p.target {
        Target::Pool => {
            push_park(ex, c.address.as_str());
        },
        Target::Place(r) => {
            push_moving(ex, c, p.desktop);
            push_place(ex, c.address.as_str(), r);
            if let Some(w) = &p.workspace {
                st.geom.put_nested(w.as_str(), c.address.clone(), r);
                claim_owner(st, cfg, w.as_str(), p.app.as_str(), c.address.as_str());
            }
        },
        Target::Free(rect) => {
            push_moving(ex, c, p.desktop);
            let r = match rect {
                Some(r) => r,
                None => center_rect(c, mon),
            };
            push_place(ex, c.address.as_str(), r);
            let joins = match &p.workspace {
                Some(w) => !ws_has_app(cfg, w.as_str(), p.app.as_str()),
                None => false,
            };
            if joins {
                if let Some(w) = &p.workspace {
                    if let Some(e) = share_record(file, &st.extra, p.app.as_str(), r) {
                        *cfg = remember_extra(file, st, w.as_str(), p.app.as_str(), e);
                    }
                }
            } else {
                st.foreign.insert(c.address.clone(), Foreign { rect: r, cmd, cwd });
            }
        },
    }
    proof {
        assert(views(ex@) =~= was + settling(*c, p@, mon));
    }
}

/// The window of an application that was started. `cmd` and `cwd` are what its process says, `mon` is the
/// size of the screen. An application that its workspace does not describe makes a record there, and the
/// effective configuration changes with it.
pub fn adopt(
    cfg: &mut Config,
    file: &Config,
    st: &mut State,
    c: &Client,
    clients: &[Client],
    p: &Pending,
    cmd: Vec<String>,
    cwd: Option<String>,
    current: u8,
    mon: (i32, i32),
) -> (r: Settled)
    requires
        clients.len() < u32::MAX,
    ensures
        settled(
            old(cfg)@,
            file@,
            old(st)@,
            *c,
            clients@,
            p@,
            views(cmd@),
            oview(cwd),
            current,
            mon,
        ) == (SettledView {
            cfg: final(cfg)@,
            st: final(st)@,
            ex: views(r.ex@),
            num: r.num as nat,
            restored: oview(r.restored),
        }),
{
    let none: Vec<i32> = Vec::new();
    proof {
        assert(none@ =~= Seq::<i32>::empty());
    }
    let fits = match_restore(st.restore.as_slice(), Some(p.app.as_str()), none.as_slice(), opt_str(&p.workspace));
    if let Some(k) = fits {
        return restore_new(cfg, st, c, clients, k, p.app.as_str(), p.focus, current);
    }
    let num: u32 = free_instance(clients, p.app.as_str());
    let mut ex = entry_tags(c.address.as_str(), p.app.as_str(), num, opt_str(&p.workspace));
    settle(cfg, file, st, c, p, cmd, cwd, mon, &mut ex);
    let ghost one = st@;
    let ghost mid = views(ex@);
    if p.focus {
        push_focus(&mut ex, c.address.as_str());
    } else if let Some(w) = &p.workspace {
        if p.desktop == current {
            if let Some(m) = st.main_app(cfg, w.as_str()) {
                if !same(m.as_str(), p.app.as_str()) {
                    if let Some(x) = first_window(cfg, clients, m.as_str()) {
                        if x.desktop() == Some(p.desktop) {
                            push_focus(&mut ex, x.address.as_str());
                        }
                    }
                }
            }
        }
    }
    proof {
        assert(views(ex@) =~= mid + focusing_opt(settled_focus(cfg@, one, *c, clients@, p@, current)));
    }
    Settled { ex, num, restored: None }
}

// ---- A window that its application opened by itself --------------------------------

impl StateView {
    /// The place of a window that an application opened: the one given, else, on a desktop, the one that
    /// the workspace or the application has for it.
    pub open spec fn capture_place(
        self,
        cfg: ConfigView,
        c: Client,
        app: Str,
        place: Option<PxRect>,
        ws: Option<Str>,
    ) -> Option<PxRect> {
        match place {
            Some(r) => Some(r),
            None => if desk_of(c) is Some {
                self.open_place(cfg, ws, app)
            } else {
                None
            },
        }
    }

    /// The state after it: the rectangle of the window in the workspace is kept.
    pub open spec fn captured(
        self,
        cfg: ConfigView,
        c: Client,
        app: Str,
        place: Option<PxRect>,
        ws: Option<Str>,
    ) -> StateView {
        let one = if place is None && desk_of(c) is Some {
            self.opened(cfg, ws)
        } else {
            self
        };
        match ws {
            Some(w) => if desk_of(c) is Some {
                StateView {
                    geom: nest_put(
                        one.geom,
                        w,
                        c.address@,
                        match self.capture_place(cfg, c, app, place, ws) {
                            Some(r) => r,
                            None => rect_of(c),
                        },
                    ),
                    ..one
                }.claimed(cfg, w, app, c.address@)
            } else {
                one
            },
            None => one,
        }
    }
}

/// The expressions by which a window becomes one of an application and takes its place.
pub open spec fn capture_exprs(
    st: StateView,
    cfg: ConfigView,
    c: Client,
    clients: Seq<Client>,
    app: Str,
    place: Option<PxRect>,
    ws: Option<Str>,
) -> Seq<Str> {
    entry_exprs(c.address@, app, least_free(instances(clients, app)), ws) + placing_opt(
        c.address@,
        st.capture_place(cfg, c, app, place, ws),
    )
}

/// A window that its application opened by itself: a tag, the workspace active on its desktop, and the
/// place of the application, over its other windows. The focus stays: the compositor gave it to the window.
pub fn capture_new(
    cfg: &Config,
    st: &mut State,
    c: &Client,
    app: &str,
    clients: &[Client],
    place: Option<PxRect>,
    ws: Option<&str>,
) -> (r: Vec<String>)
    requires
        clients.len() < u32::MAX,
    ensures
        final(st)@ == old(st)@.captured(cfg@, *c, app@, place, oview(ws)),
        views(r@) == capture_exprs(old(st)@, cfg@, *c, clients@, app@, place, oview(ws)),
{
    let num: u32 = free_instance(clients, app);
    let mut ex = entry_tags(c.address.as_str(), app, num, ws);
    let on_desk = c.desktop().is_some();
    let rect = match place {
        Some(r) => Some(r),
        None => if on_desk {
            open_rect(st, cfg, ws, app)
        } else {
            None
        },
    };
    push_place_opt(&mut ex, c.address.as_str(), rect);
    if let Some(w) = ws {
        if on_desk {
            let r = match rect {
                Some(r) => r,
                None => c.rect(),
            };
            st.geom.put_nested(w, c.address.clone(), r);
            claim_owner(st, cfg, w, app, c.address.as_str());
        }
    }
    ex
}

// ---- Taking a window in ---------------------------------------------------------

/// The state without a window of no application.
pub open spec fn not_foreign(st: StateView, addr: Str) -> StateView {
    StateView { foreign: tab_del(st.foreign, addr), ..st }
}

/// A text or nothing.
pub open spec fn or_empty(o: Option<Str>) -> Str {
    match o {
        Some(t) => t,
        None => Seq::empty(),
    }
}

/// The configuration, the state and the expressions after it was decided what to do with a new window.
pub open spec fn joined_in(
    cfg: ConfigView,
    file: ConfigView,
    st: StateView,
    c: Client,
    clients: Seq<Client>,
    ws: Option<Str>,
    join: JoinView,
    cmd: Seq<Str>,
    cwd: Option<Str>,
    mon: (i32, i32),
) -> (ConfigView, StateView, Seq<Str>) {
    let w = or_empty(ws);
    match join {
        JoinView::App(app) => {
            let one = not_foreign(st, c.address@);
            (cfg, one.captured(cfg, c, app, None, ws), capture_exprs(one, cfg, c, clients, app, None, ws))
        },
        JoinView::AppPlace(app) => {
            let rect = free_rect(st.open_place(cfg, Some(w), app), c, mon);
            let one = st.opened(cfg, Some(w));
            let two = StateView { extra: nest_put(one.extra, w, app, place_only(rect)), ..one };
            let cfg2 = merged(file, two.extra).0;
            let three = not_foreign(two.rebuilt(file), c.address@);
            (
                cfg2,
                three.captured(cfg2, c, app, Some(rect), Some(w)),
                capture_exprs(three, cfg2, c, clients, app, Some(rect), Some(w)),
            )
        },
        JoinView::Extra(name) => {
            let rect = centered(c.size, mon);
            let e = ExtraAppView { class: Some(c.class@), cmd, cwd, rect };
            let two = StateView { extra: nest_put(st.extra, w, name, e), ..st };
            let cfg2 = merged(file, two.extra).0;
            let three = not_foreign(two.rebuilt(file), c.address@);
            (
                cfg2,
                three.captured(cfg2, c, name, Some(rect), Some(w)),
                capture_exprs(three, cfg2, c, clients, name, Some(rect), Some(w)),
            )
        },
        JoinView::Free(_) => (
            cfg,
            StateView { foreign: tab_put(st.foreign, c.address@, ForeignView { rect: rect_of(c), cmd, cwd }), ..st },
            Seq::empty(),
        ),
    }
}

/// Do what was decided about a new window. `cmd` and `cwd` are what its process says, `mon` is the size of
/// the screen.
pub fn join(
    cfg: &mut Config,
    file: &Config,
    st: &mut State,
    c: &Client,
    clients: &[Client],
    ws: Option<&str>,
    what: Join,
    cmd: Vec<String>,
    cwd: Option<String>,
    mon: (i32, i32),
) -> (r: Vec<String>)
    requires
        clients.len() < u32::MAX,
    ensures
        joined_in(
            old(cfg)@,
            file@,
            old(st)@,
            *c,
            clients@,
            oview(ws),
            what@,
            views(cmd@),
            oview(cwd),
            mon,
        ) == (final(cfg)@, final(st)@, views(r@)),
{
    let w = match ws {
        Some(w) => w,
        None => "",
    };
    proof {
        reveal_strlit("");
        assert(w@ =~= or_empty(oview(ws)));
    }
    match what {
        Join::App(app) => {
            st.foreign.remove(c.address.as_str());
            capture_new(cfg, st, c, app.as_str(), clients, None, ws)
        },
        Join::AppPlace(app) => {
            let rect = match open_rect(st, cfg, Some(w), app.as_str()) {
                Some(r) => r,
                None => center_rect(c, mon),
            };
            let mut e = ExtraApp::default();
            e.rect = rect;
            *cfg = remember_extra(file, st, w, app.as_str(), e);
            st.foreign.remove(c.address.as_str());
            capture_new(cfg, st, c, app.as_str(), clients, Some(rect), Some(w))
        },
        Join::Extra(name) => {
            let rect = center_rect(c, mon);
            let e = ExtraApp { class: Some(c.class.clone()), cmd, cwd, rect };
            *cfg = remember_extra(file, st, w, name.as_str(), e);
            st.foreign.remove(c.address.as_str());
            capture_new(cfg, st, c, name.as_str(), clients, Some(rect), Some(w))
        },
        Join::Free(_) => {
            st.foreign.insert(c.address.clone(), Foreign { rect: c.rect(), cmd, cwd });
            let none: Vec<String> = Vec::new();
            none
        },
    }
}

// ---- Letting a window go --------------------------------------------------------

/// The list after a window left a workspace: the first record of the window lost the tag.
pub open spec fn left_workspace(old_list: Seq<Client>, new_list: Seq<Client>, addr: Str, ws: Str) -> bool {
    let i = addr_from(old_list, addr, 0);
    if i < old_list.len() {
        let t = views(old_list[i].tags@);
        retagged_at(old_list, new_list, i, no_ws_tag(t, ws, t.len() as int))
    } else {
        new_list == old_list
    }
}

fn leave_workspace(clients: &mut Vec<Client>, addr: &str, ws: &str)
    ensures
        left_workspace(old(clients)@, final(clients)@, addr@, ws@),
{
    let i: usize = find_addr(clients.as_slice(), addr);
    if i < clients.len() {
        let tags = drop_ws_tag(clients[i].tags.as_slice(), ws);
        assert(views(clients@[i as int].tags@).len() == clients@[i as int].tags.len());
        set_tags(clients, i, tags);
    }
}

/// The configuration and the state after the record of an application went with its last window.
pub open spec fn extra_dropped(
    cfg: ConfigView,
    file: ConfigView,
    st: StateView,
    ws: Str,
    app: Str,
    drop_extra: bool,
    last: bool,
) -> (ConfigView, StateView) {
    if drop_extra {
        let one = st.without_app_from(st.dropping(ws, app, last), app, 0).pruned();
        (merged(file, one.extra).0, one.rebuilt(file))
    } else {
        (cfg, st)
    }
}

/// The configuration and the state after a window was detached from a workspace: `after` are the windows
/// once it left.
pub open spec fn detached_state(
    cfg: ConfigView,
    file: ConfigView,
    st: StateView,
    c: Client,
    ws: Str,
    app: Str,
    drop_extra: bool,
    last: bool,
    after: Seq<Client>,
) -> (ConfigView, StateView) {
    let (cfg2, one) = extra_dropped(cfg, file, st, ws, app, drop_extra, last);
    let two = StateView { geom: nest_del(one.geom, ws, c.address@), ..one };
    (cfg2, two.released(cfg2, c.address@, after).0)
}

/// The state, the configuration and the expressions of detaching the active window of desktop `n`.
pub open spec fn detached(
    cfg: ConfigView,
    file: ConfigView,
    st: StateView,
    active: Option<Client>,
    n: u8,
    clients: Seq<Client>,
    after: Seq<Client>,
) -> (ConfigView, StateView, Seq<Str>) {
    match (active, st.active_on(n)) {
        (Some(c), Some(w)) => {
            let desks = actives_of(st.desktops);
            let step = detach_of(cfg, clients, Some(w), nest_at(st.extra, w), active, desks, n);
            let one = st.absorbed(cfg, w, n, clients);
            let untag = seq![tag_of(c.address@, "-"@ + ("ws:"@ + w))];
            match step {
                DetachStepView::Skip(_) => (cfg, one, Seq::empty()),
                DetachStepView::Close { app, drop_extra, last } => {
                    let (cfg2, two) = detached_state(cfg, file, one, c, w, app, drop_extra, last, after);
                    (cfg2, two, untag.push(close_of(c.address@)))
                },
                DetachStepView::Leave { app, home, drop_extra } => {
                    let (cfg2, two) = detached_state(cfg, file, one, c, w, app, drop_extra, false, after);
                    match home {
                        Home::Desktop(k) => if k != n {
                            (cfg2, two.sent(cfg2, c, k, desks), untag + two.sending(cfg2, c, k, desks))
                        } else {
                            (cfg2, two, untag)
                        },
                        Home::Pool => (cfg2, two, untag.push(park(c.address@))),
                        Home::Keep => (cfg2, two, untag),
                    }
                },
            }
        },
        _ => (cfg, st, Seq::empty()),
    }
}

/// The windows after the active window of desktop `n` was detached.
pub open spec fn detached_list(
    cfg: ConfigView,
    st: StateView,
    active: Option<Client>,
    n: u8,
    clients: Seq<Client>,
    after: Seq<Client>,
) -> bool {
    match (active, st.active_on(n)) {
        (Some(c), Some(w)) => {
            let step = detach_of(cfg, clients, Some(w), nest_at(st.extra, w), active, actives_of(st.desktops), n);
            if step is Skip {
                after == clients
            } else {
                left_workspace(clients, after, c.address@, w)
            }
        },
        _ => after == clients,
    }
}

fn forget_in(
    cfg: &mut Config,
    file: &Config,
    st: &mut State,
    c: &Client,
    ws: &str,
    app: &str,
    drop_extra: bool,
    last: bool,
    after: &[Client],
)
    ensures
        detached_state(old(cfg)@, file@, old(st)@, *c, ws@, app@, drop_extra, last, after@) == (
            final(cfg)@,
            final(st)@,
        ),
{
    if drop_extra {
        let _ = drop_extra_app(st, ws, app, last);
        let (fresh, _) = rebuild_cfg(file, st);
        *cfg = fresh;
    }
    st.geom.remove_nested(ws, c.address.as_str());
    let _ = drop_moved(st, cfg, c.address.as_str(), after);
}

/// Detach the active window of desktop `n`, the one of the user, from the workspace active there: it loses
/// the tag of the workspace. A window of other workspaces too goes home; another is closed. `clients`
/// become the windows after it. Gives the expressions.
pub fn detach(
    cfg: &mut Config,
    file: &Config,
    st: &mut State,
    active: Option<&Client>,
    n: u8,
    clients: &mut Vec<Client>,
) -> (r: Vec<String>)
    ensures
        detached(old(cfg)@, file@, old(st)@, odref(active), n, old(clients)@, final(clients)@) == (
            final(cfg)@,
            final(st)@,
            views(r@),
        ),
        detached_list(old(cfg)@, old(st)@, odref(active), n, old(clients)@, final(clients)@),
{
    let mut ex: Vec<String> = Vec::new();
    let (c, w) = match (active, st.active_on(n)) {
        (Some(c), Some(w)) => (c, w),
        _ => return ex,
    };
    let desks = actives(st);
    let none: Table<ExtraApp> = Table::new();
    let extra = match st.extra.get(w.as_str()) {
        Some(t) => t,
        None => &none,
    };
    assert(extra@ == nest_at(st@.extra, w@));
    let step = detach_step(cfg, clients.as_slice(), Some(w.as_str()), extra, active, &desks, n);
    absorb_into(cfg, st, w.as_str(), n, clients.as_slice());
    match step {
        DetachStep::Skip(_) => ex,
        DetachStep::Close { app, drop_extra, last } => {
            leave_workspace(clients, c.address.as_str(), w.as_str());
            forget_in(cfg, file, st, c, w.as_str(), app.as_str(), drop_extra, last, clients.as_slice());
            ex.push(d_untag(c.address.as_str(), ws_tag(w.as_str()).as_str()));
            ex.push(d_close(c.address.as_str()));
            proof {
                assert(views(ex@) =~= seq![tag_of(c.address@, "-"@ + ("ws:"@ + w@))].push(close_of(c.address@)));
            }
            ex
        },
        DetachStep::Leave { app, home, drop_extra } => {
            leave_workspace(clients, c.address.as_str(), w.as_str());
            forget_in(cfg, file, st, c, w.as_str(), app.as_str(), drop_extra, false, clients.as_slice());
            ex.push(d_untag(c.address.as_str(), ws_tag(w.as_str()).as_str()));
            proof {
                assert(views(ex@) =~= seq![tag_of(c.address@, "-"@ + ("ws:"@ + w@))]);
            }
            match home {
                Home::Desktop(k) => {
                    if k != n {
                        send_to(st, cfg, c, k, &desks, &mut ex);
                    }
                },
                Home::Pool => {
                    push_park(&mut ex, c.address.as_str());
                },
                Home::Keep => {},
            }
            ex
        },
    }
}

// ---- Membership and the configuration ----------------------------------------------

/// The lists that come one after the other as the windows of `stale` leave their workspaces.
pub open spec fn left_all(lists: Seq<Seq<Client>>, stale: Seq<(Str, Str)>) -> bool {
    &&& lists.len() == stale.len() + 1
    &&& forall|i: int|
        0 <= i < stale.len() ==> left_workspace(#[trigger] lists[i], lists[i + 1], stale[i].0, stale[i].1)
}

/// The list after every window of `stale` left its workspace.
pub open spec fn after_stale(old_list: Seq<Client>, new_list: Seq<Client>, stale: Seq<(Str, Str)>) -> bool {
    exists|lists: Seq<Seq<Client>>| #[trigger]
        left_all(lists, stale) && lists[0] == old_list && lists[stale.len() as int] == new_list
}

/// The state after the windows from `i` on gave up the changed places read from them.
pub open spec fn released_all_from(
    st: StateView,
    cfg: ConfigView,
    stale: Seq<(Str, Str)>,
    after: Seq<Client>,
    i: int,
) -> StateView
    decreases stale.len() - i,
{
    if i >= stale.len() {
        st
    } else {
        released_all_from(st.released(cfg, stale[i].0, after).0, cfg, stale, after, i + 1)
    }
}

/// The expressions that take the tags of workspaces off windows.
pub open spec fn unsharing(stale: Seq<(Str, Str)>) -> Seq<Str> {
    stale.map_values(|e: (Str, Str)| tag_of(e.0, "-"@ + ("ws:"@ + e.1)))
}

/// The expressions that put the tags of workspaces on windows.
pub open spec fn giving(given: Seq<(Str, Str)>) -> Seq<Str> {
    given.map_values(|e: (Str, Str)| tag_of(e.0, "ws:"@ + e.1))
}

fn push_pairs(ex: &mut Vec<String>, pairs: &[(String, String)], off: bool)
    ensures
        views(final(ex)@) == views(old(ex)@) + if off {
            unsharing(pairs_view(pairs@))
        } else {
            giving(pairs_view(pairs@))
        },
{
    let ghost was = views(ex@);
    let ghost p = pairs_view(pairs@);
    let ghost u = if off {
        unsharing(p)
    } else {
        giving(p)
    };
    let mut i: usize = 0;
    proof {
        assert(was + u.take(0) =~= was);
    }
    while i < pairs.len()
        invariant
            i <= pairs.len(),
            p == pairs_view(pairs@),
            u == if off {
                unsharing(p)
            } else {
                giving(p)
            },
            views(ex@) == was + u.take(i as int),
        decreases pairs.len() - i,
    {
        assert(p[i as int] == (pairs@[i as int].0@, pairs@[i as int].1@));
        let tag = ws_tag(pairs[i].1.as_str());
        if off {
            ex.push(d_untag(pairs[i].0.as_str(), tag.as_str()));
        } else {
            ex.push(d_tag(pairs[i].0.as_str(), tag.as_str()));
        }
        proof {
            assert(was + u.take(i + 1) =~= (was + u.take(i as int)).push(u[i as int]));
        }
        i = i + 1;
    }
    proof {
        assert(u.take(u.len() as int) =~= u);
    }
}

/// Bring the membership of windows in line with the configuration: a tag of a workspace goes where the
/// workspace does not describe the application of the window, and with it the changed places read from the
/// window. With `derive`, windows that are tagged with an application but belong to no workspace get
/// theirs. `clients` become the windows without the tags that went. Gives the expressions.
pub fn sync_membership(cfg: &Config, st: &mut State, clients: &mut Vec<Client>, derive: bool) -> (r: Vec<String>)
    ensures
        ({
            let stale = all_wrong_upto(cfg@, old(clients)@, old(clients)@.len() as int);
            let given = if derive {
                all_derived_upto(cfg@, old(st)@, old(clients)@, old(clients)@.len() as int)
            } else {
                Seq::empty()
            };
            &&& after_stale(old(clients)@, final(clients)@, stale)
            &&& final(st)@ == released_all_from(old(st)@, cfg@, stale, final(clients)@, 0)
            &&& views(r@) == unsharing(stale) + giving(given)
        }),
{
    let stale = stale_ws_tags(cfg, clients.as_slice());
    let given = if derive {
        derive_membership(cfg, st, clients.as_slice())
    } else {
        let none: Vec<(String, String)> = Vec::new();
        proof {
            assert(pairs_view(none@) =~= Seq::empty());
        }
        none
    };
    let ghost s = pairs_view(stale@);
    let ghost mut lists: Seq<Seq<Client>> = seq![clients@];
    let mut i: usize = 0;
    while i < stale.len()
        invariant
            i <= stale.len(),
            s == pairs_view(stale@),
            lists.len() == i + 1,
            lists[0] == old(clients)@,
            lists[i as int] == clients@,
            forall|k: int| 0 <= k < i ==> left_workspace(#[trigger] lists[k], lists[k + 1], s[k].0, s[k].1),
        decreases stale.len() - i,
    {
        assert(s[i as int] == (stale@[i as int].0@, stale@[i as int].1@));
        leave_workspace(clients, stale[i].0.as_str(), stale[i].1.as_str());
        proof {
            let longer = lists.push(clients@);
            assert forall|k: int| 0 <= k < i + 1 implies left_workspace(
                #[trigger] longer[k],
                longer[k + 1],
                s[k].0,
                s[k].1,
            ) by {
                if k < i {
                    assert(longer[k] == lists[k] && longer[k + 1] == lists[k + 1]);
                } else {
                    assert(longer[k] == lists[i as int]);
                }
            }
            lists = longer;
        }
        i = i + 1;
    }
    proof {
        assert(left_all(lists, s));
    }
    let mut k: usize = 0;
    while k < stale.len()
        invariant
            k <= stale.len(),
            s == pairs_view(stale@),
            released_all_from(old(st)@, cfg@, s, clients@, 0) == released_all_from(
                st@,
                cfg@,
                s,
                clients@,
                k as int,
            ),
        decreases stale.len() - k,
    {
        assert(s[k as int] == (stale@[k as int].0@, stale@[k as int].1@));
        let _ = drop_moved(st, cfg, stale[k].0.as_str(), clients.as_slice());
        k = k + 1;
    }
    let mut ex: Vec<String> = Vec::new();
    push_pairs(&mut ex, stale.as_slice(), true);
    push_pairs(&mut ex, given.as_slice(), false);
    proof {
        assert(views(ex@) =~= unsharing(s) + giving(pairs_view(given@)));
    }
    ex
}

/// Set a window free whose tag names an unknown application: the expressions that take its instance tags
/// off.
pub fn free_stale_tagged(c: &Client) -> (r: Vec<String>)
    ensures
        views(r@) == untags(c.address@, app_tags_of(*c)),
{
    let mut ex: Vec<String> = Vec::new();
    push_untags(&mut ex, c.address.as_str(), c.app_tags().as_slice());
    proof {
        assert(views(ex@) =~= untags(c.address@, app_tags_of(*c)));
    }
    ex
}

/// Put a window down as one of no application, with its rectangle and what its process says.
pub fn add_foreign(st: &mut State, c: &Client, rect: PxRect, cmd: Vec<String>, cwd: Option<String>)
    ensures
        final(st)@ == (StateView {
            foreign: tab_put(
                old(st)@.foreign,
                c.address@,
                ForeignView { rect, cmd: views(cmd@), cwd: oview(cwd) },
            ),
            ..old(st)@
        }),
{
    st.foreign.insert(c.address.clone(), Foreign { rect, cmd, cwd });
}

} // verus!
