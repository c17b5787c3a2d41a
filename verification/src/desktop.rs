//! Lists of workspaces on desktops: who is active, who comes next, who moves where.
use std::collections::BTreeMap;
use vstd::prelude::*;

use crate::desks::{at_desk, desk_get, desk_put, desk_take, mviews};
use crate::home::{find_in, position};
use crate::state::{no_desktop, Desktop, DesktopView, State, StateView};
use crate::text::{copy_opt, holds, opt_is, oview, same, views, Str};

verus! {

broadcast use crate::text::group_views;

/// The first `n` texts of a list without `t`.
pub open spec fn without_upto(s: Seq<Str>, t: Str, n: int) -> Seq<Str>
    decreases n,
{
    if n <= 0 {
        Seq::empty()
    } else if s[n - 1] == t {
        without_upto(s, t, n - 1)
    } else {
        without_upto(s, t, n - 1).push(s[n - 1])
    }
}

/// The list without `t`.
pub open spec fn without(s: Seq<Str>, t: Str) -> Seq<Str> {
    without_upto(s, t, s.len() as int)
}

/// The list without `t`.
pub fn drop_text(v: &[String], t: &str) -> (r: Vec<String>)
    ensures
        views(r@) == without(views(v@), t@),
{
    let mut out: Vec<String> = Vec::new();
    let mut i: usize = 0;
    while i < v.len()
        invariant
            i <= v.len(),
            views(out@) == without_upto(views(v@), t@, i as int),
        decreases v.len() - i,
    {
        if !same(v[i].as_str(), t) {
            out.push(v[i].clone());
        }
        i = i + 1;
    }
    out
}

/// What is left of a list is what was in it, but for `t`.
pub proof fn lemma_without(s: Seq<Str>, t: Str, n: int)
    requires
        0 <= n <= s.len(),
    ensures
        forall|w: Str| #[trigger]
            without_upto(s, t, n).contains(w) <==> w != t && exists|i: int| 0 <= i < n && #[trigger] s[i] == w,
    decreases n,
{
    if n > 0 {
        lemma_without(s, t, n - 1);
        let a = without_upto(s, t, n - 1);
        let b = without_upto(s, t, n);
        assert forall|w: Str| #[trigger] b.contains(w) <==> w != t && exists|i: int| 0 <= i < n && #[trigger] s[i] == w by {
            if b.contains(w) {
                let k = choose|k: int| 0 <= k < b.len() && b[k] == w;
                if k < a.len() {
                    assert(a[k] == w);
                    assert(a.contains(w));
                } else {
                    assert(s[n - 1] == w);
                }
            }
            if w != t && exists|i: int| 0 <= i < n && #[trigger] s[i] == w {
                let i = choose|i: int| 0 <= i < n && #[trigger] s[i] == w;
                if i < n - 1 {
                    assert(a.contains(w));
                    let k = choose|k: int| 0 <= k < a.len() && a[k] == w;
                    assert(b[k] == w);
                } else {
                    assert(b[b.len() - 1] == w);
                }
            }
        }
    }
}

/// The desktop after a workspace left it.
pub open spec fn left_by(d: DesktopView, ws: Str) -> DesktopView {
    DesktopView {
        workspaces: without(d.workspaces, ws),
        active: if d.active == Some(ws) {
            None
        } else {
            d.active
        },
    }
}

/// The desktop after a workspace became active there; it comes last where it was not in the list.
pub open spec fn taken_by(d: DesktopView, ws: Str) -> DesktopView {
    DesktopView {
        workspaces: if d.workspaces.contains(ws) {
            d.workspaces
        } else {
            d.workspaces.push(ws)
        },
        active: Some(ws),
    }
}

/// The desktop, or one without workspaces.
pub open spec fn desk_or_none(m: Map<u8, DesktopView>, n: u8) -> DesktopView {
    match at_desk(m, n) {
        Some(d) => d,
        None => no_desktop(),
    }
}

impl StateView {
    /// The state after a desktop took a workspace: the workspace leaves every other desktop, nobody is to
    /// raise it elsewhere any more, and the workspace that was active before is remembered.
    pub open spec fn assigned(self, ws: Str, n: u8) -> StateView {
        StateView {
            desktops: Map::new(
                |k: u8| self.desktops.contains_key(k) || k == n,
                |k: u8|
                    if k == n {
                        taken_by(desk_or_none(self.desktops, n), ws)
                    } else {
                        left_by(self.desktops[k], ws)
                    },
            ),
            lazy: Map::new(
                |k: u8| self.lazy.contains_key(k) && (k == n || self.lazy[k] != ws),
                |k: u8| self.lazy[k],
            ),
            prev_active: match self.active_on(n) {
                Some(o) => if o == ws {
                    self.prev_active
                } else {
                    self.prev_active.insert(n, o)
                },
                None => self.prev_active,
            },
            ..self
        }
    }
}

fn leave_others(m: &mut BTreeMap<u8, Desktop>, ws: &str, n: u8)
    ensures
        forall|k: u8| #[trigger] final(m)@.contains_key(k) <==> old(m)@.contains_key(k),
        forall|k: u8| #[trigger] final(m)@.contains_key(k) && k != n ==> final(m)@[k]@ == left_by(old(m)@[k]@, ws@),
        old(m)@.contains_key(n) ==> final(m)@[n] == old(m)@[n],
{
    let mut k: u16 = 0;
    while k < 256
        invariant
            k <= 256,
            forall|j: u8| #[trigger] m@.contains_key(j) <==> old(m)@.contains_key(j),
            forall|j: u8| #[trigger] m@.contains_key(j) && j < k && j != n ==> m@[j]@ == left_by(old(m)@[j]@, ws@),
            forall|j: u8| #[trigger] m@.contains_key(j) && (j >= k || j == n) ==> m@[j] == old(m)@[j],
        decreases 256 - k,
    {
        let j: u8 = k as u8;
        if j != n {
            if let Some(d) = desk_get(m, j) {
                let active = if opt_is(&d.active, ws) {
                    None
                } else {
                    copy_opt(&d.active)
                };
                let e = Desktop { workspaces: drop_text(d.workspaces.as_slice(), ws), active };
                desk_put(m, j, e);
            }
        }
        k = k + 1;
    }
    assert(m@.contains_key(n) <==> old(m)@.contains_key(n));
}

fn drop_lazy(m: &mut BTreeMap<u8, String>, ws: &str, n: u8)
    ensures
        mviews(final(m)@) == Map::new(
            |k: u8| mviews(old(m)@).contains_key(k) && (k == n || mviews(old(m)@)[k] != ws@),
            |k: u8| mviews(old(m)@)[k],
        ),
{
    let mut k: u16 = 0;
    while k < 256
        invariant
            k <= 256,
            forall|j: u8| #[trigger]
                m@.contains_key(j) <==> old(m)@.contains_key(j) && (j >= k || j == n || old(m)@[j]@ != ws@),
            forall|j: u8| #[trigger] m@.contains_key(j) ==> m@[j] == old(m)@[j],
        decreases 256 - k,
    {
        let j: u8 = k as u8;
        if j != n {
            let gone = match desk_get(m, j) {
                Some(w) => same(w.as_str(), ws),
                None => false,
            };
            if gone {
                let _ = desk_take(m, j);
            }
        }
        k = k + 1;
    }
    assert(mviews(m@) =~= Map::new(
        |k: u8| mviews(old(m)@).contains_key(k) && (k == n || mviews(old(m)@)[k] != ws@),
        |k: u8| mviews(old(m)@)[k],
    ));
}

/// A desktop takes a workspace.
pub fn assign_desktop(st: &mut State, ws: &str, n: u8)
    ensures
        final(st)@ == old(st)@.assigned(ws@, n),
{
    leave_others(&mut st.desktops, ws, n);
    drop_lazy(&mut st.lazy, ws, n);
    let old_desk = match desk_take(&mut st.desktops, n) {
        Some(d) => d,
        None => Desktop { workspaces: Vec::new(), active: None },
    };
    let Desktop { workspaces, active } = old_desk;
    let mut list = workspaces;
    if !holds(list.as_slice(), ws) {
        list.push(ws.to_owned());
    }
    desk_put(&mut st.desktops, n, Desktop { workspaces: list, active: Some(ws.to_owned()) });
    if let Some(o) = active {
        if !same(o.as_str(), ws) {
            desk_put(&mut st.prev_active, n, o);
        }
    }
    proof {
        assert(st@.desktops =~= old(st)@.assigned(ws@, n).desktops);
        assert(st@.lazy =~= old(st)@.assigned(ws@, n).lazy);
        assert(st@.prev_active =~= old(st)@.assigned(ws@, n).prev_active);
    }
}

/// A workspace that a desktop took stands in the list of that desktop alone and is active only there;
/// every other workspace stays in the lists in which it stood.
pub proof fn law_one_desktop(st: StateView, ws: Str, n: u8)
    ensures
        forall|k: u8| #[trigger]
            st.assigned(ws, n).desktops.contains_key(k) ==> (st.assigned(ws, n).desktops[k].workspaces.contains(ws) <==> k
                == n),
        forall|k: u8| #[trigger]
            st.assigned(ws, n).desktops.contains_key(k) ==> (st.assigned(ws, n).desktops[k].active == Some(ws) <==> k
                == n),
        forall|k: u8, w: Str| #[trigger]
            st.desktops.contains_key(k) && w != ws ==> (#[trigger] st.assigned(ws, n).desktops[k].workspaces.contains(w)
                <==> st.desktops[k].workspaces.contains(w)),
        st.assigned(ws, n).desktops.contains_key(n),
{
    let t = st.assigned(ws, n);
    let d = desk_or_none(st.desktops, n);
    assert(taken_by(d, ws).workspaces.contains(ws)) by {
        if !d.workspaces.contains(ws) {
            let p = d.workspaces.push(ws);
            assert(p[p.len() - 1] == ws);
        }
    }
    assert forall|k: u8| #[trigger] t.desktops.contains_key(k) implies (t.desktops[k].workspaces.contains(ws) <==> k
        == n) by {
        if k != n {
            let s = st.desktops[k].workspaces;
            lemma_without(s, ws, s.len() as int);
            assert(!without(s, ws).contains(ws));
        }
    }
    assert forall|k: u8, w: Str| #[trigger]
        st.desktops.contains_key(k) && w != ws implies (#[trigger] t.desktops[k].workspaces.contains(w)
        <==> st.desktops[k].workspaces.contains(w)) by {
        let s = st.desktops[k].workspaces;
        if k != n {
            lemma_without(s, ws, s.len() as int);
            if s.contains(w) {
                let i = choose|i: int| 0 <= i < s.len() && s[i] == w;
                assert(s[i] == w);
            }
        } else if !s.contains(ws) {
            let p = s.push(ws);
            if p.contains(w) {
                let i = choose|i: int| 0 <= i < p.len() && p[i] == w;
                assert(s[i] == w);
            }
            if s.contains(w) {
                let i = choose|i: int| 0 <= i < s.len() && s[i] == w;
                assert(p[i] == w);
            }
        }
    }
}

/// Who becomes active on a desktop that a workspace leaves: the one that was active before it, where it
/// is still in the list; else the one before it in the list, and for the first one the last.
pub open spec fn successor_of(list: Seq<Str>, moved: Str, prev: Option<Str>) -> Option<Str> {
    if prev matches Some(p) && p != moved && list.contains(p) {
        prev
    } else {
        let rest = without(list, moved);
        let i = find_in(list, moved, 0);
        if rest.len() == 0 {
            None
        } else if 0 < i < list.len() {
            Some(list[i - 1])
        } else {
            Some(rest[rest.len() - 1])
        }
    }
}

/// Who becomes active on a desktop that a workspace leaves.
pub fn successor(list: &[String], moved: &str, prev: Option<&str>) -> (r: Option<String>)
    ensures
        oview(r) == successor_of(views(list@), moved@, oview(prev)),
{
    if let Some(p) = prev {
        if !same(p, moved) && holds(list, p) {
            return Some(p.to_owned());
        }
    }
    let rest = drop_text(list, moved);
    assert(views(rest@).len() == rest.len());
    if rest.len() == 0 {
        return None;
    }
    let i: usize = position(list, moved);
    if 0 < i && i < list.len() {
        Some(list[i - 1].clone())
    } else {
        Some(rest[rest.len() - 1].clone())
    }
}

/// The successor is another workspace of the list, and there is one exactly where the list holds
/// another workspace.
pub proof fn law_successor(list: Seq<Str>, moved: Str, prev: Option<Str>)
    ensures
        successor_of(list, moved, prev) matches Some(w) ==> list.contains(w) && w != moved,
        successor_of(list, moved, prev) is Some <==> exists|w: Str| #[trigger] list.contains(w) && w != moved,
{
    let rest = without(list, moved);
    lemma_without(list, moved, list.len() as int);
    lemma_first(list, moved, 0);
    if rest.len() > 0 {
        let w = rest[rest.len() - 1];
        assert(rest.contains(w));
        assert(list.contains(w));
    }
    if exists|w: Str| #[trigger] list.contains(w) && w != moved {
        let w = choose|w: Str| #[trigger] list.contains(w) && w != moved;
        let i = choose|i: int| 0 <= i < list.len() && list[i] == w;
        assert(list[i] == w);
        assert(rest.contains(w));
    }
    let i = find_in(list, moved, 0);
    if 0 < i < list.len() {
        assert(list.contains(list[i - 1]));
    }
}

proof fn lemma_first(s: Seq<Str>, t: Str, i: int)
    requires
        0 <= i <= s.len(),
    ensures
        i <= find_in(s, t, i) <= s.len(),
        forall|k: int| i <= k < find_in(s, t, i) ==> #[trigger] s[k] != t,
    decreases s.len() - i,
{
    if i < s.len() && s[i] != t {
        lemma_first(s, t, i + 1);
    }
}

/// The workspace that comes after the active one in the list of a desktop, round and round; without an
/// active one the first.
pub open spec fn next_of(d: DesktopView) -> Option<Str> {
    if d.workspaces.len() == 0 {
        None
    } else {
        let i = match d.active {
            Some(a) => find_in(d.workspaces, a, 0),
            None => d.workspaces.len() as int,
        };
        Some(
            d.workspaces[if 0 <= i < d.workspaces.len() {
                (i + 1) % (d.workspaces.len() as int)
            } else {
                0
            }],
        )
    }
}

/// The workspace that comes after the active one in the list of a desktop.
pub fn next_ws(d: &Desktop) -> (r: Option<String>)
    ensures
        oview(r) == next_of(d@),
{
    let n: usize = d.workspaces.len();
    if n == 0 {
        return None;
    }
    let i: usize = match &d.active {
        Some(a) => position(d.workspaces.as_slice(), a.as_str()),
        None => n,
    };
    let k: usize = if i < n {
        (i + 1) % n
    } else {
        0
    };
    Some(d.workspaces[k].clone())
}

/// What moving a workspace to a desktop comes to.
#[derive(Debug, PartialEq, Eq)]
pub enum MoveStep {
    /// Move this workspace there and go there.
    Move(String),
    /// Nothing: the workspace is there.
    Here(String),
    /// Nothing: no workspace is active on the desktop at hand.
    Nothing,
}

/// What moving a workspace to a desktop comes to.
pub fn move_step(current: u8, target: u8, active: Option<&str>) -> (r: MoveStep)
    ensures
        match r {
            MoveStep::Nothing => active is None,
            MoveStep::Here(ws) => oview(active) == Some(ws@) && target == current,
            MoveStep::Move(ws) => oview(active) == Some(ws@) && target != current,
        },
{
    match active {
        None => MoveStep::Nothing,
        Some(ws) => if target == current {
            MoveStep::Here(ws.to_owned())
        } else {
            MoveStep::Move(ws.to_owned())
        },
    }
}

/// The least desktop from `n` on where the workspace is active.
pub open spec fn active_from(m: Map<u8, DesktopView>, ws: Str, n: int) -> Option<u8>
    decreases 256 - n,
{
    if !(0 <= n < 256) {
        None
    } else if m.contains_key(n as u8) && m[n as u8].active == Some(ws) {
        Some(n as u8)
    } else {
        active_from(m, ws, n + 1)
    }
}

/// The desktop on which a workspace is active.
pub fn active_desktop_of(st: &State, ws: &str) -> (r: Option<u8>)
    ensures
        r == active_from(st@.desktops, ws@, 0),
{
    let mut k: u16 = 0;
    while k < 256
        invariant
            k <= 256,
            active_from(st@.desktops, ws@, 0) == active_from(st@.desktops, ws@, k as int),
        decreases 256 - k,
    {
        if let Some(d) = desk_get(&st.desktops, k as u8) {
            if opt_is(&d.active, ws) {
                return Some(k as u8);
            }
        }
        k = k + 1;
    }
    None
}

/// Going on to the next workspace leads through the whole list, each of its workspaces after the one before
/// it, and from the last one to the first.
pub proof fn law_next_goes_round(d: DesktopView, i: int)
    requires
        0 <= i < d.workspaces.len(),
        d.workspaces.no_duplicates(),
        d.active == Some(d.workspaces[i]),
    ensures
        next_of(d) == Some(
            d.workspaces[if i + 1 < d.workspaces.len() {
                i + 1
            } else {
                0
            }],
        ),
{
    let n = d.workspaces.len() as int;
    lemma_find_hits(d.workspaces, d.workspaces[i], i, 0);
    vstd::arithmetic::div_mod::lemma_mod_self_0(n);
    if i + 1 < n {
        vstd::arithmetic::div_mod::lemma_small_mod((i + 1) as nat, n as nat);
    }
}

proof fn lemma_find_hits(s: Seq<Str>, t: Str, i: int, k: int)
    requires
        0 <= k <= i < s.len(),
        s[i] == t,
        s.no_duplicates(),
    ensures
        find_in(s, t, k) == i,
    decreases i - k,
{
    if k < i {
        lemma_find_hits(s, t, i, k + 1);
    }
}

} // verus!
