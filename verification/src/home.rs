//! Where windows belong: the rule of placement, layouts read from the screen, windows that follow the
//! user.
use std::collections::BTreeMap;
use vstd::prelude::*;

use crate::config::{Config, ConfigView};
use crate::desks::{desk_get, desk_put, mviews};
use crate::hypr::{derefs, desk_number, in_ws, on_hidden, rect_of, Client};
use crate::rect::PxRect;
use crate::state::{DesktopView, Moved, MovedView, State, StateView};
use crate::table::{nest_del, nest_get, nest_open, nest_put, tab_pruned, Dup};
use crate::text::{holds, oview, same, views, Str};
use crate::windows::{entry_of, members, placed, placed_windows, ws_app_of, ws_windows};

verus! {

broadcast use {crate::text::group_views, crate::hypr::group_derefs};

/// The active workspaces by desktop.
pub open spec fn actives_of(desktops: Map<u8, DesktopView>) -> Map<u8, Str> {
    Map::new(
        |n: u8| desktops.contains_key(n) && desktops[n].active is Some,
        |n: u8| desktops[n].active->0,
    )
}

/// The active workspaces by desktop.
pub fn actives(st: &State) -> (r: BTreeMap<u8, String>)
    ensures
        mviews(r@) == actives_of(st@.desktops),
{
    let mut out: BTreeMap<u8, String> = BTreeMap::new();
    let mut k: u16 = 0;
    while k < 256
        invariant
            k <= 256,
            forall|n: u8| #[trigger]
                out@.contains_key(n) <==> actives_of(st@.desktops).contains_key(n) && n < k,
            forall|n: u8| #[trigger] out@.contains_key(n) ==> out@[n]@ == actives_of(st@.desktops)[n],
        decreases 256 - k,
    {
        let n: u8 = k as u8;
        if let Some(d) = desk_get(&st.desktops, n) {
            if let Some(a) = &d.active {
                desk_put(&mut out, n, a.clone());
            }
        }
        k = k + 1;
    }
    assert(mviews(out@) =~= actives_of(st@.desktops));
    out
}

/// Where a window stands: on a desktop, in the pool (or another special place) or among the hidden ones.
#[derive(Debug, Clone, Copy, PartialEq, Eq, Structural)]
pub enum Spot {
    Desktop(u8),
    Pool,
    Hidden,
}

/// Where a window stands.
pub open spec fn spot_of(c: Client) -> Spot {
    if on_hidden(c) {
        Spot::Hidden
    } else {
        match desk_number(c.workspace.name@) {
            Some(n) => Spot::Desktop(n),
            None => Spot::Pool,
        }
    }
}

impl Spot {
    /// Where a window stands.
    pub fn of(c: &Client) -> (r: Spot)
        ensures
            r == spot_of(*c),
    {
        if c.on_hidden() {
            Spot::Hidden
        } else {
            match c.desktop() {
                Some(n) => Spot::Desktop(n),
                None => Spot::Pool,
            }
        }
    }
}

/// Where a window of a workspace has to stand.
#[derive(Debug, Clone, Copy, PartialEq, Eq, Structural)]
pub enum Home {
    Desktop(u8),
    Pool,
    /// The user hid the window; it stays where it is.
    Keep,
}

/// The active workspace of a desktop is one of these.
pub open spec fn active_among(members: Seq<Str>, active: Map<u8, Str>, n: u8) -> bool {
    active.contains_key(n) && members.contains(active[n])
}

/// The least desktop from `n` on whose active workspace is one of these.
pub open spec fn least_home(members: Seq<Str>, active: Map<u8, Str>, n: int) -> Home
    decreases 256 - n,
{
    if !(0 <= n < 256) {
        Home::Pool
    } else if active_among(members, active, n as u8) {
        Home::Desktop(n as u8)
    } else {
        least_home(members, active, n + 1)
    }
}

/// The rule of placement for a window of these workspaces: the desktop of the compositor where the
/// workspace that is active there holds the window; else the desktop of the window on the same
/// condition; else the least desktop where one of its workspaces is active; else the pool. A hidden
/// window stays.
pub open spec fn home_of(members: Seq<Str>, active: Map<u8, Str>, current: u8, at: Spot) -> Home {
    if at == Spot::Hidden {
        Home::Keep
    } else if active_among(members, active, current) {
        Home::Desktop(current)
    } else if at matches Spot::Desktop(d) && active_among(members, active, d) {
        Home::Desktop(at->Desktop_0)
    } else {
        least_home(members, active, 0)
    }
}

fn active_holds(members: &[String], active: &BTreeMap<u8, String>, n: u8) -> (r: bool)
    ensures
        r == active_among(views(members@), mviews(active@), n),
{
    match desk_get(active, n) {
        Some(w) => holds(members, w.as_str()),
        None => false,
    }
}

/// The rule of placement for a window of these workspaces.
pub fn window_home(members: &[String], active: &BTreeMap<u8, String>, current: u8, at: Spot) -> (r: Home)
    ensures
        r == home_of(views(members@), mviews(active@), current, at),
{
    if let Spot::Hidden = at {
        return Home::Keep;
    }
    if active_holds(members, active, current) {
        return Home::Desktop(current);
    }
    if let Spot::Desktop(d) = at {
        if active_holds(members, active, d) {
            return Home::Desktop(d);
        }
    }
    let mut k: u16 = 0;
    while k < 256
        invariant
            k <= 256,
            at != Spot::Hidden,
            !active_among(views(members@), mviews(active@), current),
            at matches Spot::Desktop(d) ==> !active_among(views(members@), mviews(active@), d),
            least_home(views(members@), mviews(active@), 0) == least_home(
                views(members@),
                mviews(active@),
                k as int,
            ),
        decreases 256 - k,
    {
        if active_holds(members, active, k as u8) {
            return Home::Desktop(k as u8);
        }
        k = k + 1;
    }
    Home::Pool
}

proof fn lemma_least_home(members: Seq<Str>, active: Map<u8, Str>, n: int)
    requires
        0 <= n <= 256,
    ensures
        match least_home(members, active, n) {
            Home::Desktop(d) => n <= d && active_among(members, active, d) && forall|k: u8|
                n <= k < d ==> !active_among(members, active, k),
            Home::Pool => forall|k: u8| n <= k ==> !active_among(members, active, k),
            Home::Keep => false,
        },
    decreases 256 - n,
{
    if n < 256 && !active_among(members, active, n as u8) {
        lemma_least_home(members, active, n + 1);
    }
}

/// A window that is not hidden goes to a desktop exactly where one of its workspaces is active, and to
/// one where that is so; it goes to the pool where none of its workspaces is active.
pub proof fn law_home_is_active(members: Seq<Str>, active: Map<u8, Str>, current: u8, at: Spot)
    requires
        at != Spot::Hidden,
    ensures
        match home_of(members, active, current, at) {
            Home::Desktop(d) => active_among(members, active, d),
            Home::Pool => forall|k: u8| !active_among(members, active, k),
            Home::Keep => false,
        },
{
    lemma_least_home(members, active, 0);
}

/// Where the user is, a window of the active workspace comes; where the user is not, a window does not
/// leave a desktop on which its workspace is active.
pub proof fn law_home_follows_user(members: Seq<Str>, active: Map<u8, Str>, current: u8, at: Spot)
    requires
        at != Spot::Hidden,
    ensures
        active_among(members, active, current) ==> home_of(members, active, current, at) == Home::Desktop(current),
        at matches Spot::Desktop(d) && !active_among(members, active, current) && active_among(members, active, d)
            ==> home_of(members, active, current, at) == Home::Desktop(at->Desktop_0),
{
}

/// A window of the workspace comes to the desktop when the workspace is raised there: it stands
/// elsewhere, or it stands there as a window of the workspace that was active.
pub open spec fn arrives_at(c: Client, n: u8, before: Map<u8, Str>, ws: Str) -> bool {
    desk_number(c.workspace.name@) != Some(n) || before.contains_key(n) && before[n] != ws && in_ws(c, before[n])
}

/// A window of the workspace comes to the desktop when the workspace is raised there.
pub fn arrives(c: &Client, n: u8, before: &BTreeMap<u8, String>, ws: &str) -> (r: bool)
    ensures
        r == arrives_at(*c, n, mviews(before@), ws@),
{
    if c.desktop() != Some(n) {
        return true;
    }
    match desk_get(before, n) {
        Some(old) => !same(old.as_str(), ws) && c.in_ws(old.as_str()),
        None => false,
    }
}

/// Where raising a workspace puts a window of it: one that travels with the workspace stays where it
/// was, one that comes takes the rectangle kept for it or else the place of its application, one that
/// stands there already is not moved.
pub open spec fn target_of(
    carried: bool,
    moving: bool,
    kept: Option<PxRect>,
    place: Option<PxRect>,
    current: PxRect,
) -> Option<PxRect> {
    if carried {
        Some(current)
    } else if moving {
        match kept {
            Some(r) => Some(r),
            None => place,
        }
    } else {
        None
    }
}

/// Where raising a workspace puts a window of it.
pub fn raise_target(
    carried: bool,
    moving: bool,
    kept: Option<PxRect>,
    place: Option<PxRect>,
    current: PxRect,
) -> (r: Option<PxRect>)
    ensures
        r == target_of(carried, moving, kept, place, current),
{
    if carried {
        Some(current)
    } else if moving {
        match kept {
            Some(r) => Some(r),
            None => place,
        }
    } else {
        None
    }
}

/// The place from `i` on of a text in a list, or the length of the list.
pub open spec fn find_in(s: Seq<Str>, t: Str, i: int) -> int
    decreases s.len() - i,
{
    if i >= s.len() {
        s.len() as int
    } else if s[i] == t {
        i
    } else {
        find_in(s, t, i + 1)
    }
}

/// The place of a text in a list, or the length of the list.
pub fn position(v: &[String], t: &str) -> (r: usize)
    ensures
        r == find_in(views(v@), t@, 0),
        r <= v.len(),
        r < v.len() ==> v@[r as int]@ == t@,
{
    let mut i: usize = 0;
    while i < v.len()
        invariant
            i <= v.len(),
            find_in(views(v@), t@, 0) == find_in(views(v@), t@, i as int),
        decreases v.len() - i,
    {
        if same(v[i].as_str(), t) {
            return i;
        }
        i = i + 1;
    }
    i
}

/// The order in which windows are brought to the top, from the lowest up: as they lie, with the main
/// window last where it is to be on top.
pub open spec fn depth_of(order: Seq<Str>, main: Option<Str>, main_on_top: bool) -> Seq<Str> {
    match main {
        Some(m) => {
            let i = find_in(order, m, 0);
            if main_on_top && 0 <= i < order.len() {
                order.remove(i).push(order[i])
            } else {
                order
            }
        },
        None => order,
    }
}

/// The order in which windows are brought to the top, from the lowest up.
pub fn depth_plan(order: &[String], main: Option<&str>, main_on_top: bool) -> (r: Vec<String>)
    ensures
        views(r@) == depth_of(views(order@), oview(main), main_on_top),
{
    let mut plan = crate::text::copy_all(order);
    if main_on_top {
        if let Some(m) = main {
            let i: usize = position(order, m);
            if i < order.len() {
                let ghost s = views(plan@);
                let top = plan.remove(i);
                let ghost t = top@;
                plan.push(top);
                proof {
                    assert(views(plan@) =~= s.remove(i as int).push(t));
                }
            }
        }
    }
    plan
}

proof fn lemma_find_in(s: Seq<Str>, t: Str, i: int)
    requires
        0 <= i <= s.len(),
    ensures
        i <= find_in(s, t, i) <= s.len(),
        find_in(s, t, i) < s.len() ==> s[find_in(s, t, i)] == t,
        find_in(s, t, i) == s.len() ==> forall|k: int| i <= k < s.len() ==> #[trigger] s[k] != t,
    decreases s.len() - i,
{
    if i < s.len() && s[i] != t {
        lemma_find_in(s, t, i + 1);
    }
}

/// Bringing the windows of a workspace to the top loses none and adds none, and the main window ends up
/// last where it is among them and is to be on top.
pub proof fn law_depth_plan(order: Seq<Str>, main: Option<Str>, main_on_top: bool)
    ensures
        depth_of(order, main, main_on_top).to_multiset() == order.to_multiset(),
        main matches Some(m) && main_on_top && order.contains(m) ==> depth_of(order, main, main_on_top).last()
            == main->0,
        !main_on_top ==> depth_of(order, main, main_on_top) == order,
{
    broadcast use vstd::seq_lib::group_to_multiset_ensures;

    if let Some(m) = main {
        lemma_find_in(order, m, 0);
        let i = find_in(order, m, 0);
        if order.contains(m) {
            let k = choose|k: int| 0 <= k < order.len() && order[k] == m;
            assert(order[k] == m);
        }
        if main_on_top && i < order.len() {
            assert(order.remove(i).push(order[i]).to_multiset() =~= order.to_multiset());
        }
    }
}

// ---- Layouts read from the screen ---------------------------------------------

/// The layout of a workspace as it stands on the screen.
#[derive(Debug, PartialEq)]
pub struct Absorb {
    /// An entry and its changed place; none where the window stands exactly on the place described.
    pub moved: Vec<(String, Option<Moved>)>,
    /// A window and the rectangle that is kept for it.
    pub geom: Vec<(String, PxRect)>,
}

/// What such a layout says.
pub struct AbsorbView {
    pub moved: Seq<(Str, Option<MovedView>)>,
    pub geom: Seq<(Str, PxRect)>,
}

/// What a list of changed places says.
pub open spec fn moved_view(s: Seq<(String, Option<Moved>)>) -> Seq<(Str, Option<MovedView>)> {
    s.map_values(|e: (String, Option<Moved>)| (e.0@, oview(e.1)))
}

/// What a list of rectangles says.
pub open spec fn geom_view(s: Seq<(String, PxRect)>) -> Seq<(Str, PxRect)> {
    s.map_values(|e: (String, PxRect)| (e.0@, e.1))
}

impl View for Absorb {
    type V = AbsorbView;

    open spec fn view(&self) -> AbsorbView {
        AbsorbView { moved: moved_view(self.moved@), geom: geom_view(self.geom@) }
    }
}

impl Default for Absorb {
    fn default() -> (r: Self)
        ensures
            r@ == (AbsorbView { moved: Seq::empty(), geom: Seq::empty() }),
    {
        let r = Absorb { moved: Vec::new(), geom: Vec::new() };
        proof {
            assert(moved_view(r.moved@) =~= Seq::empty());
            assert(geom_view(r.geom@) =~= Seq::empty());
        }
        r
    }
}

/// The window stands on the desktop, neither hidden nor in full screen.
pub open spec fn stands_on(c: Client, n: u8) -> bool {
    desk_number(c.workspace.name@) == Some(n) && !on_hidden(c) && c.fullscreen == 0
}

fn standing(c: &Client, n: u8) -> (r: bool)
    ensures
        r == stands_on(*c, n),
{
    c.desktop() == Some(n) && !c.on_hidden() && c.fullscreen == 0
}

/// The first window from `i` on that stands on the desktop.
pub open spec fn standing_from(s: Seq<Client>, n: u8, i: int) -> Option<Client>
    decreases s.len() - i,
{
    if i >= s.len() {
        None
    } else if stands_on(s[i], n) {
        Some(s[i])
    } else {
        standing_from(s, n, i + 1)
    }
}

fn first_standing<'a>(wins: &Vec<&'a Client>, n: u8) -> (r: Option<&'a Client>)
    ensures
        crate::windows::odref(r) == standing_from(derefs(wins@), n, 0),
{
    let ghost s = derefs(wins@);
    let mut i: usize = 0;
    while i < wins.len()
        invariant
            i <= wins.len(),
            s == derefs(wins@),
            standing_from(s, n, 0) == standing_from(s, n, i as int),
        decreases wins.len() - i,
    {
        assert(s[i as int] == *wins[i as int]);
        if standing(wins[i], n) {
            return Some(wins[i]);
        }
        i = i + 1;
    }
    None
}

/// What the rectangle of the first window of an entry says about its place.
pub open spec fn change_of(st: StateView, cfg: ConfigView, ws: Str, app: Str, first: Client) -> Option<MovedView> {
    if st.base(cfg, ws, app) == Some(rect_of(first)) {
        None
    } else {
        Some(MovedView { rect: rect_of(first), owner: Some(first.address@) })
    }
}

/// The changed places of the entries from `i` on, after `acc`, and the state with the layout made.
pub open spec fn changes_from(
    cfg: ConfigView,
    st: StateView,
    ws: Str,
    n: u8,
    clients: Seq<Client>,
    apps: Seq<Str>,
    i: int,
    acc: Seq<(Str, Option<MovedView>)>,
) -> (StateView, Seq<(Str, Option<MovedView>)>)
    decreases apps.len() - i,
{
    if i >= apps.len() {
        (st, acc)
    } else {
        match standing_from(placed(cfg, clients, ws, apps, apps[i]), n, 0) {
            None => changes_from(cfg, st, ws, n, clients, apps, i + 1, acc),
            Some(first) => {
                let b = st.built(cfg, ws);
                changes_from(cfg, b, ws, n, clients, apps, i + 1, acc.push((apps[i], change_of(b, cfg, ws, apps[i], first))))
            },
        }
    }
}

/// The rectangles of those of the first `n` windows that stand on the desktop.
pub open spec fn rects_upto(s: Seq<Client>, n: u8, k: int) -> Seq<(Str, PxRect)>
    decreases k,
{
    if k <= 0 {
        Seq::empty()
    } else if stands_on(s[k - 1], n) {
        rects_upto(s, n, k - 1).push((s[k - 1].address@, rect_of(s[k - 1])))
    } else {
        rects_upto(s, n, k - 1)
    }
}

/// The names of the entries of a workspace, in its order.
pub open spec fn entry_names_of(cfg: ConfigView, ws: Str) -> Seq<Str> {
    crate::table::tab_keys(cfg.entries(ws))
}

/// The layout of a workspace as it stands on a desktop: for every entry the rectangle of its first
/// window there, and the rectangles of all its windows there.
pub open spec fn layout_on(cfg: ConfigView, st: StateView, ws: Str, n: u8, clients: Seq<Client>) -> (
    StateView,
    AbsorbView,
) {
    let r = changes_from(cfg, st, ws, n, clients, entry_names_of(cfg, ws), 0, Seq::empty());
    let m = members(clients, ws);
    (r.0, AbsorbView { moved: r.1, geom: rects_upto(m, n, m.len() as int) })
}

/// The layout of a workspace as it stands on a desktop. Windows elsewhere stand there for another
/// workspace and are not counted.
pub fn absorb_plan(cfg: &Config, st: &mut State, ws: &str, n: u8, clients: &[Client]) -> (r: Absorb)
    ensures
        layout_on(cfg@, old(st)@, ws@, n, clients@) == (final(st)@, r@),
{
    let apps = cfg.entry_names(ws);
    let ghost names = views(apps@);
    let mut moved: Vec<(String, Option<Moved>)> = Vec::new();
    let mut i: usize = 0;
    proof {
        assert(moved_view(moved@) =~= Seq::empty());
    }
    while i < apps.len()
        invariant
            i <= apps.len(),
            names == views(apps@),
            changes_from(cfg@, old(st)@, ws@, n, clients@, names, 0, Seq::empty()) == changes_from(
                cfg@,
                st@,
                ws@,
                n,
                clients@,
                names,
                i as int,
                moved_view(moved@),
            ),
        decreases apps.len() - i,
    {
        let app = apps[i].as_str();
        assert(names[i as int] == app@);
        let wins = placed_windows(cfg, clients, ws, apps.as_slice(), app);
        if let Some(first) = first_standing(&wins, n) {
            let rect = first.rect();
            let base = st.base_rect(cfg, ws, app);
            let change = if base == Some(rect) {
                None
            } else {
                Some(Moved { rect, owner: Some(first.address.clone()) })
            };
            let ghost was = moved@;
            moved.push((apps[i].clone(), change));
            proof {
                assert(moved_view(moved@) =~= moved_view(was).push((app@, oview(change))));
            }
        }
        i = i + 1;
    }
    let all = ws_windows(clients, ws);
    let ghost s = derefs(all@);
    let mut geom: Vec<(String, PxRect)> = Vec::new();
    let mut k: usize = 0;
    proof {
        assert(geom_view(geom@) =~= Seq::empty());
    }
    while k < all.len()
        invariant
            k <= all.len(),
            s == derefs(all@),
            geom_view(geom@) == rects_upto(s, n, k as int),
        decreases all.len() - k,
    {
        let c = all[k];
        assert(s[k as int] == *c);
        if standing(c, n) {
            let ghost was = geom@;
            geom.push((c.address.clone(), c.rect()));
            proof {
                assert(geom_view(geom@) =~= geom_view(was).push((c.address@, rect_of(*c))));
            }
        }
        k = k + 1;
    }
    Absorb { moved, geom }
}

/// The changed places with those of a layout put in.
pub open spec fn moved_with(
    m: Seq<(Str, Seq<(Str, MovedView)>)>,
    ws: Str,
    a: Seq<(Str, Option<MovedView>)>,
    n: int,
) -> Seq<(Str, Seq<(Str, MovedView)>)>
    decreases n,
{
    if n <= 0 {
        m
    } else {
        match a[n - 1].1 {
            Some(x) => nest_put(moved_with(m, ws, a, n - 1), ws, a[n - 1].0, x),
            None => nest_del(moved_with(m, ws, a, n - 1), ws, a[n - 1].0),
        }
    }
}

/// The rectangles of windows with those of a list put in.
pub open spec fn geom_with(
    g: Seq<(Str, Seq<(Str, PxRect)>)>,
    ws: Str,
    a: Seq<(Str, PxRect)>,
    n: int,
) -> Seq<(Str, Seq<(Str, PxRect)>)>
    decreases n,
{
    if n <= 0 {
        g
    } else {
        nest_put(geom_with(g, ws, a, n - 1), ws, a[n - 1].0, a[n - 1].1)
    }
}

impl StateView {
    /// The state with the layout of a workspace read from a desktop, where the workspace is active
    /// there.
    pub open spec fn absorbed(self, cfg: ConfigView, ws: Str, n: u8, clients: Seq<Client>) -> StateView {
        if self.active_on(n) != Some(ws) {
            self
        } else {
            let (st, a) = layout_on(cfg, self, ws, n, clients);
            StateView {
                moved: tab_pruned(moved_with(st.moved, ws, a.moved, a.moved.len() as int)),
                geom: geom_with(nest_open(st.geom, ws), ws, a.geom, a.geom.len() as int),
                ..st
            }
        }
    }
}

/// Read the layout of a workspace from a desktop into the state, where the workspace is active there.
pub fn absorb_into(cfg: &Config, st: &mut State, ws: &str, n: u8, clients: &[Client])
    ensures
        final(st)@ == old(st)@.absorbed(cfg@, ws@, n, clients@),
{
    let here = match st.active_on(n) {
        Some(w) => same(w.as_str(), ws),
        None => false,
    };
    if !here {
        return ;
    }
    let a = absorb_plan(cfg, st, ws, n, clients);
    let ghost mid = st@;
    let ghost am = moved_view(a.moved@);
    let ghost ag = geom_view(a.geom@);
    let mut i: usize = 0;
    while i < a.moved.len()
        invariant
            i <= a.moved.len(),
            am == moved_view(a.moved@),
            st@ == (StateView { moved: moved_with(mid.moved, ws@, am, i as int), ..mid }),
        decreases a.moved.len() - i,
    {
        let app = a.moved[i].0.clone();
        assert(am[i as int].0 == app@);
        match &a.moved[i].1 {
            Some(m) => {
                st.moved.put_nested(ws, app, m.dup());
            },
            None => {
                st.moved.remove_nested(ws, app.as_str());
            },
        }
        i = i + 1;
    }
    st.moved.prune();
    st.geom.open_nested(ws);
    let ghost two = st@;
    let mut k: usize = 0;
    while k < a.geom.len()
        invariant
            k <= a.geom.len(),
            ag == geom_view(a.geom@),
            st@ == (StateView { geom: geom_with(two.geom, ws@, ag, k as int), ..two }),
        decreases a.geom.len() - k,
    {
        assert(ag[k as int] == (a.geom@[k as int].0@, a.geom@[k as int].1));
        st.geom.put_nested(ws, a.geom[k].0.clone(), a.geom[k].1);
        k = k + 1;
    }
}

// ---- Windows that follow the user ---------------------------------------------

impl StateView {
    /// The state after the place of a window that comes to a workspace was looked up.
    pub open spec fn arrived(self, cfg: ConfigView, ws: Str, c: Client) -> StateView {
        if entry_of(cfg, ws, entry_names_of(cfg, ws), c) is Some {
            self.built(cfg, ws)
        } else {
            self
        }
    }

    /// The place of a window that comes to a workspace: the rectangle kept for it there, else the place
    /// of its application; none where the window keeps its rectangle.
    pub open spec fn arrival(self, cfg: ConfigView, ws: Str, c: Client) -> Option<PxRect> {
        match nest_get(self.geom, ws, c.address@) {
            Some(r) => Some(r),
            None => match entry_of(cfg, ws, entry_names_of(cfg, ws), c) {
                Some(a) => self.built(cfg, ws).place(cfg, ws, a),
                None => None,
            },
        }
    }
}

/// The place of a window that comes to a workspace.
pub fn arrive_rect(st: &mut State, cfg: &Config, ws: &str, c: &Client) -> (r: Option<PxRect>)
    ensures
        final(st)@ == old(st)@.arrived(cfg@, ws@, *c),
        r == old(st)@.arrival(cfg@, ws@, *c),
{
    let apps = cfg.entry_names(ws);
    let place = match ws_app_of(cfg, ws, apps.as_slice(), c) {
        Some(a) => st.rect_for(cfg, ws, a.as_str()),
        None => None,
    };
    let kept = match st.geom.nested(ws, c.address.as_str()) {
        Some(r) => Some(*r),
        None => None,
    };
    raise_target(false, true, kept, place, c.rect())
}

/// A window that follows the user to a desktop.
#[derive(Debug, PartialEq)]
pub struct Follow {
    pub addr: String,
    /// Its place there; none where the rectangle does not change.
    pub rect: Option<PxRect>,
    /// Its rectangle before.
    pub now: PxRect,
}

/// What a window that follows is.
pub struct FollowView {
    pub addr: Str,
    pub rect: Option<PxRect>,
    pub now: PxRect,
}

impl View for Follow {
    type V = FollowView;

    open spec fn view(&self) -> FollowView {
        FollowView { addr: self.addr@, rect: self.rect, now: self.now }
    }
}

/// Those of the first `k` windows that stand neither among the hidden ones nor on desktop `n`.
pub open spec fn away_upto(s: Seq<Client>, n: u8, k: int) -> Seq<Client>
    decreases k,
{
    if k <= 0 {
        Seq::empty()
    } else if !on_hidden(s[k - 1]) && desk_number(s[k - 1].workspace.name@) != Some(n) {
        away_upto(s, n, k - 1).push(s[k - 1])
    } else {
        away_upto(s, n, k - 1)
    }
}

/// One of the windows leaves desktop `k`, where it stands for the workspace that is active there.
pub open spec fn leaves(s: Seq<Client>, active: Map<u8, Str>, ws: Str, k: u8) -> bool {
    active.contains_key(k) && active[k] != ws && exists|i: int|
        0 <= i < s.len() && desk_number((#[trigger] s[i]).workspace.name@) == Some(k) && in_ws(s[i], active[k])
}

impl StateView {
    /// The state once the layouts of the desktops below `k` that windows leave were read.
    pub open spec fn left_upto(
        self,
        cfg: ConfigView,
        active: Map<u8, Str>,
        away: Seq<Client>,
        clients: Seq<Client>,
        ws: Str,
        k: int,
    ) -> StateView
        decreases k,
    {
        if k <= 0 {
            self
        } else {
            let st = self.left_upto(cfg, active, away, clients, ws, k - 1);
            let d = (k - 1) as u8;
            if leaves(away, active, ws, d) {
                st.absorbed(cfg, active[d], d, clients)
            } else {
                st
            }
        }
    }

    /// The windows from `i` on that come to a workspace, after `acc`, and the state after it.
    pub open spec fn follows_from(
        self,
        cfg: ConfigView,
        ws: Str,
        s: Seq<Client>,
        i: int,
        acc: Seq<FollowView>,
    ) -> (StateView, Seq<FollowView>)
        decreases s.len() - i,
    {
        if i >= s.len() {
            (self, acc)
        } else {
            self.arrived(cfg, ws, s[i]).follows_from(
                cfg,
                ws,
                s,
                i + 1,
                acc.push(
                    FollowView { addr: s[i].address@, rect: self.arrival(cfg, ws, s[i]), now: rect_of(s[i]) },
                ),
            )
        }
    }

    /// The windows that follow the user to desktop `n`, and the state after it.
    pub open spec fn followed(self, cfg: ConfigView, clients: Seq<Client>, n: u8) -> (StateView, Seq<FollowView>) {
        match self.active_on(n) {
            None => (self, Seq::empty()),
            Some(ws) => {
                let m = members(clients, ws);
                let away = away_upto(m, n, m.len() as int);
                self.left_upto(cfg, actives_of(self.desktops), away, clients, ws, 256).follows_from(
                    cfg,
                    ws,
                    away,
                    0,
                    Seq::empty(),
                )
            },
        }
    }
}

fn any_leaves(away: &Vec<&Client>, active: &BTreeMap<u8, String>, ws: &str, k: u8) -> (r: bool)
    ensures
        r == leaves(derefs(away@), mviews(active@), ws@, k),
{
    let v = match desk_get(active, k) {
        Some(v) => v,
        None => return false,
    };
    if same(v.as_str(), ws) {
        return false;
    }
    let ghost s = derefs(away@);
    let mut i: usize = 0;
    while i < away.len()
        invariant
            i <= away.len(),
            s == derefs(away@),
            mviews(active@)[k] == v@,
            mviews(active@).contains_key(k),
            v@ != ws@,
            forall|j: int|
                0 <= j < i ==> !(desk_number((#[trigger] s[j]).workspace.name@) == Some(k) && in_ws(s[j], v@)),
        decreases away.len() - i,
    {
        assert(s[i as int] == *away[i as int]);
        if away[i].desktop() == Some(k) && away[i].in_ws(v.as_str()) {
            return true;
        }
        i = i + 1;
    }
    false
}

fn away_windows<'a>(clients: &'a [Client], ws: &str, n: u8) -> (r: Vec<&'a Client>)
    ensures
        derefs(r@) == away_upto(members(clients@, ws@), n, members(clients@, ws@).len() as int),
{
    let all = ws_windows(clients, ws);
    let ghost s = derefs(all@);
    let mut out: Vec<&'a Client> = Vec::new();
    let mut i: usize = 0;
    while i < all.len()
        invariant
            i <= all.len(),
            s == derefs(all@),
            derefs(out@) == away_upto(s, n, i as int),
        decreases all.len() - i,
    {
        assert(s[i as int] == *all[i as int]);
        if !all[i].on_hidden() && all[i].desktop() != Some(n) {
            out.push(all[i]);
        }
        i = i + 1;
    }
    out
}

/// The windows that follow the user to a desktop: those of its active workspace that stand elsewhere
/// and are not hidden. The layout of a workspace whose desktop a window leaves is read first.
pub fn follow_plan(st: &mut State, cfg: &Config, clients: &[Client], n: u8) -> (r: Vec<Follow>)
    ensures
        old(st)@.followed(cfg@, clients@, n) == (final(st)@, views(r@)),
{
    let ws = match st.active_on(n) {
        Some(w) => w,
        None => {
            let none: Vec<Follow> = Vec::new();
            return none;
        },
    };
    let active = actives(st);
    let away = away_windows(clients, ws.as_str(), n);
    let ghost aw = derefs(away@);
    let mut k: u16 = 0;
    while k < 256
        invariant
            k <= 256,
            aw == derefs(away@),
            mviews(active@) == actives_of(old(st)@.desktops),
            st@ == old(st)@.left_upto(cfg@, mviews(active@), aw, clients@, ws@, k as int),
        decreases 256 - k,
    {
        let d: u8 = k as u8;
        if any_leaves(&away, &active, ws.as_str(), d) {
            let v = desk_get(&active, d).unwrap();
            absorb_into(cfg, st, v.as_str(), d, clients);
        }
        k = k + 1;
    }
    let ghost mid = st@;
    let mut out: Vec<Follow> = Vec::new();
    let mut i: usize = 0;
    while i < away.len()
        invariant
            i <= away.len(),
            aw == derefs(away@),
            mid.follows_from(cfg@, ws@, aw, 0, Seq::empty()) == st@.follows_from(
                cfg@,
                ws@,
                aw,
                i as int,
                views(out@),
            ),
        decreases away.len() - i,
    {
        let c = away[i];
        assert(aw[i as int] == *c);
        let rect = arrive_rect(st, cfg, ws.as_str(), c);
        out.push(Follow { addr: c.address.clone(), rect, now: c.rect() });
        i = i + 1;
    }
    out
}

proof fn lemma_follows(st: StateView, cfg: ConfigView, ws: Str, s: Seq<Client>, i: int, acc: Seq<FollowView>)
    requires
        0 <= i <= s.len(),
    ensures
        ({
            let r = st.follows_from(cfg, ws, s, i, acc).1;
            &&& r.len() == acc.len() + s.len() - i
            &&& forall|k: int| 0 <= k < acc.len() ==> #[trigger] r[k] == acc[k]
            &&& forall|k: int| acc.len() <= k < r.len() ==> (#[trigger] r[k]).addr == s[k - acc.len() + i].address@
        }),
    decreases s.len() - i,
{
    if i < s.len() {
        let next = acc.push(FollowView { addr: s[i].address@, rect: st.arrival(cfg, ws, s[i]), now: rect_of(s[i]) });
        lemma_follows(st.arrived(cfg, ws, s[i]), cfg, ws, s, i + 1, next);
        let r = st.follows_from(cfg, ws, s, i, acc).1;
        assert forall|k: int| acc.len() <= k < r.len() implies (#[trigger] r[k]).addr == s[k - acc.len() + i].address@ by {
            if k == acc.len() {
                assert(r[k] == next[k]);
            }
        }
        assert forall|k: int| 0 <= k < acc.len() implies #[trigger] r[k] == acc[k] by {
            assert(r[k] == next[k]);
        }
    }
}

proof fn lemma_members(s: Seq<Client>, ws: Str, n: int)
    requires
        0 <= n <= s.len(),
    ensures
        forall|c: Client| #[trigger]
            crate::windows::members_upto(s, ws, n).contains(c) <==> in_ws(c, ws) && exists|i: int|
                0 <= i < n && #[trigger] s[i] == c,
    decreases n,
{
    if n > 0 {
        lemma_members(s, ws, n - 1);
        let a = crate::windows::members_upto(s, ws, n - 1);
        let b = crate::windows::members_upto(s, ws, n);
        assert forall|c: Client| #[trigger] b.contains(c) <==> in_ws(c, ws) && exists|i: int| 0 <= i < n && #[trigger] s[i] == c by {
            if b.contains(c) {
                let k = choose|k: int| 0 <= k < b.len() && b[k] == c;
                if k < a.len() {
                    assert(a[k] == c);
                    assert(a.contains(c));
                } else {
                    assert(s[n - 1] == c);
                }
            }
            if in_ws(c, ws) && exists|i: int| 0 <= i < n && #[trigger] s[i] == c {
                if s[n - 1] == c {
                    assert(b[a.len() as int] == c);
                } else {
                    let i = choose|i: int| 0 <= i < n && #[trigger] s[i] == c;
                    assert(i < n - 1);
                    assert(a.contains(c));
                    let k = choose|k: int| 0 <= k < a.len() && a[k] == c;
                    assert(b[k] == c);
                }
            }
        }
    }
}

proof fn lemma_away(s: Seq<Client>, n: u8, k: int)
    requires
        0 <= k <= s.len(),
    ensures
        forall|c: Client| #[trigger]
            away_upto(s, n, k).contains(c) <==> !on_hidden(c) && desk_number(c.workspace.name@) != Some(n) && exists|i: int|
                0 <= i < k && #[trigger] s[i] == c,
    decreases k,
{
    if k > 0 {
        lemma_away(s, n, k - 1);
        let a = away_upto(s, n, k - 1);
        let b = away_upto(s, n, k);
        assert forall|c: Client| #[trigger] b.contains(c) <==> !on_hidden(c) && desk_number(c.workspace.name@) != Some(n)
            && exists|i: int| 0 <= i < k && #[trigger] s[i] == c by {
            if b.contains(c) {
                let j = choose|j: int| 0 <= j < b.len() && b[j] == c;
                if j < a.len() {
                    assert(a[j] == c);
                    assert(a.contains(c));
                } else {
                    assert(s[k - 1] == c);
                }
            }
            if !on_hidden(c) && desk_number(c.workspace.name@) != Some(n) && exists|i: int| 0 <= i < k && #[trigger] s[i] == c {
                if s[k - 1] == c {
                    assert(b[a.len() as int] == c);
                } else {
                    let i = choose|i: int| 0 <= i < k && #[trigger] s[i] == c;
                    assert(i < k - 1);
                    assert(a.contains(c));
                    let j = choose|j: int| 0 <= j < a.len() && a[j] == c;
                    assert(b[j] == c);
                }
            }
        }
    }
}

/// A window comes along: it belongs to the workspace, stands on another place than desktop `n` and is not
/// hidden.
pub open spec fn comes_along(c: Client, ws: Str, n: u8) -> bool {
    in_ws(c, ws) && !on_hidden(c) && desk_number(c.workspace.name@) != Some(n)
}

/// To a desktop follow the windows of its active workspace that stand elsewhere and are not hidden: each
/// of them, and no other.
pub proof fn law_followers(st: StateView, cfg: ConfigView, clients: Seq<Client>, n: u8, ws: Str)
    requires
        st.active_on(n) == Some(ws),
    ensures
        forall|k: int|
            0 <= k < st.followed(cfg, clients, n).1.len() ==> exists|i: int|
                0 <= i < clients.len() && comes_along(#[trigger] clients[i], ws, n) && clients[i].address@ == (
                #[trigger] st.followed(cfg, clients, n).1[k]).addr,
        forall|i: int|
            0 <= i < clients.len() && comes_along(#[trigger] clients[i], ws, n) ==> exists|k: int|
                0 <= k < st.followed(cfg, clients, n).1.len() && (#[trigger] st.followed(cfg, clients, n).1[k]).addr
                    == clients[i].address@,
{
    let m = members(clients, ws);
    let away = away_upto(m, n, m.len() as int);
    let left = st.left_upto(cfg, actives_of(st.desktops), away, clients, ws, 256);
    lemma_follows(left, cfg, ws, away, 0, Seq::empty());
    lemma_members(clients, ws, clients.len() as int);
    lemma_away(m, n, m.len() as int);
    let r = st.followed(cfg, clients, n).1;
    assert forall|k: int| 0 <= k < r.len() implies exists|i: int|
        0 <= i < clients.len() && comes_along(#[trigger] clients[i], ws, n) && clients[i].address@ == (#[trigger] r[k]).addr by {
        let c = away[k];
        assert(away.contains(c));
        let j = choose|j: int| 0 <= j < m.len() && #[trigger] m[j] == c;
        assert(m.contains(c));
        let i = choose|i: int| 0 <= i < clients.len() && #[trigger] clients[i] == c;
        assert(comes_along(clients[i], ws, n));
    }
    assert forall|i: int| 0 <= i < clients.len() && comes_along(#[trigger] clients[i], ws, n) implies exists|k: int|
        0 <= k < r.len() && (#[trigger] r[k]).addr == clients[i].address@ by {
        let c = clients[i];
        assert(m.contains(c));
        let j = choose|j: int| 0 <= j < m.len() && m[j] == c;
        assert(m[j] == c);
        assert(away.contains(c));
        let k = choose|k: int| 0 <= k < away.len() && away[k] == c;
        assert(r[k].addr == c.address@);
    }
}

} // verus!
