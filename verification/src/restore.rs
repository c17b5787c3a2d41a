//! Windows of a saved session that come back: which record a window fulfils and where it goes.
use std::collections::BTreeMap;
use vstd::prelude::*;

use crate::config::{Config, ConfigView};
use crate::desks::{at_desk, desk_get, mviews};
use crate::exprs::{
    app_tags_of, desk_move, focusing, park, placing_opt, push_desk_move, push_focus, push_park, push_place_opt,
    push_untags, untags,
};
use crate::home::{actives, actives_of, home_of, window_home, Home, Spot};
use crate::hypr::{
    app_instance, app_tag, d_tag, desk_number, in_ws, instance_tag, parse_desk, rect_of, tag_of, ws_list, ws_tag,
    Client,
};
use crate::layout::claim_owner;
use crate::lookup::ws_has_app;
use crate::names::Names;
use crate::rect::PxRect;
use crate::state::{RestoreEntry, RestoreEntryView, RestoreState, State, StateView};
use crate::table::{nest_put, tab_del, tab_get, tab_has, Dup};
use crate::text::{holds, oview, push_dec, same, views, Str};
use crate::windows::{
    app_for_window, classless, first_of, first_window, fitting_app, has_no_class, instances, least_free, restored_number,
    windows_of,
};

verus! {

broadcast use crate::text::group_views;

// ---- Where a window goes ------------------------------------------------------

/// Those of the first `n` workspaces that describe an application.
pub open spec fn describing_upto(cfg: ConfigView, list: Seq<Str>, app: Str, n: int) -> Seq<Str>
    decreases n,
{
    if n <= 0 {
        Seq::empty()
    } else if cfg.ws_has_app(list[n - 1], app) {
        describing_upto(cfg, list, app, n - 1).push(list[n - 1])
    } else {
        describing_upto(cfg, list, app, n - 1)
    }
}

/// The workspaces of a record that describe its application.
pub open spec fn members_of(cfg: ConfigView, e: RestoreEntryView) -> Seq<Str> {
    describing_upto(cfg, e.workspaces, e.app, e.workspaces.len() as int)
}

/// The workspaces of a record that describe its application: only these can the window belong to.
pub fn entry_members(cfg: &Config, e: &RestoreEntry) -> (r: Vec<String>)
    ensures
        views(r@) == members_of(cfg@, e@),
{
    let ghost s = e@.workspaces;
    let mut out: Vec<String> = Vec::new();
    let mut i: usize = 0;
    while i < e.workspaces.len()
        invariant
            i <= e.workspaces.len(),
            s == views(e.workspaces@),
            views(out@) == describing_upto(cfg@, s, e.app@, i as int),
        decreases e.workspaces.len() - i,
    {
        if ws_has_app(cfg, e.workspaces[i].as_str(), e.app.as_str()) {
            out.push(e.workspaces[i].clone());
        }
        i = i + 1;
    }
    out
}

impl StateView {
    /// Where the window of a record goes and its rectangle there. A window of a workspace goes to its
    /// home as if it were parked, into the rectangle of the record for the workspace that is active there,
    /// else to the place of its application; one of no workspace goes to its own desktop.
    pub open spec fn restored(self, cfg: ConfigView, e: RestoreEntryView, active: Map<u8, Str>, current: u8) -> (
        Home,
        Option<PxRect>,
    ) {
        let members = members_of(cfg, e);
        if members.len() == 0 {
            match desk_number(e.desktop) {
                Some(n) => (Home::Desktop(n), Some(e.rect)),
                None => if e.desktop == "pool"@ {
                    (Home::Pool, None)
                } else {
                    (Home::Desktop(current), Some(e.rect))
                },
            }
        } else {
            match home_of(members, active, current, Spot::Pool) {
                Home::Desktop(k) => match at_desk(active, k) {
                    None => (Home::Desktop(k), None),
                    Some(w) => match tab_get(e.rects, w) {
                        Some(r) => (Home::Desktop(k), Some(r)),
                        None => (Home::Desktop(k), self.built(cfg, w).place(cfg, w, e.app)),
                    },
                },
                h => (h, None),
            }
        }
    }

    /// The state after that was looked up.
    pub open spec fn after_restored(
        self,
        cfg: ConfigView,
        e: RestoreEntryView,
        active: Map<u8, Str>,
        current: u8,
    ) -> StateView {
        let members = members_of(cfg, e);
        if members.len() == 0 {
            self
        } else {
            match home_of(members, active, current, Spot::Pool) {
                Home::Desktop(k) => match at_desk(active, k) {
                    None => self,
                    Some(w) => if tab_has(e.rects, w) {
                        self
                    } else {
                        self.built(cfg, w)
                    },
                },
                _ => self,
            }
        }
    }
}

/// Where the window of a record goes and its rectangle there.
pub fn restore_place(
    st: &mut State,
    cfg: &Config,
    e: &RestoreEntry,
    actives: &BTreeMap<u8, String>,
    current: u8,
) -> (r: (Home, Option<PxRect>))
    ensures
        r == old(st)@.restored(cfg@, e@, mviews(actives@), current),
        final(st)@ == old(st)@.after_restored(cfg@, e@, mviews(actives@), current),
{
    let members = entry_members(cfg, e);
    assert(views(members@).len() == members.len());
    if members.len() == 0 {
        return match parse_desk(e.desktop.as_str()) {
            Some(n) => (Home::Desktop(n), Some(e.rect)),
            None => if same(e.desktop.as_str(), "pool") {
                (Home::Pool, None)
            } else {
                (Home::Desktop(current), Some(e.rect))
            },
        };
    }
    match window_home(members.as_slice(), actives, current, Spot::Pool) {
        Home::Desktop(k) => match desk_get(actives, k) {
            None => (Home::Desktop(k), None),
            Some(w) => match e.rects.get(w.as_str()) {
                Some(r) => (Home::Desktop(k), Some(*r)),
                None => (Home::Desktop(k), st.rect_for(cfg, w.as_str(), e.app.as_str())),
            },
        },
        h => (h, None),
    }
}

// ---- Which record a window fulfils ---------------------------------------------

/// The first record from `i` on for which one of the processes was started; their number where there is
/// none.
pub open spec fn started_from(s: Seq<RestoreEntryView>, pids: Seq<i32>, i: int) -> int
    decreases s.len() - i,
{
    if i >= s.len() {
        s.len() as int
    } else if s[i].state matches RestoreState::Launched(pid) && pids.contains(pid as i32) {
        i
    } else {
        started_from(s, pids, i + 1)
    }
}

/// A record waits for a window that the application opens by itself; with `ws` one of that workspace.
pub open spec fn awaits(e: RestoreEntryView, app: Str, ws: Option<Str>) -> bool {
    &&& e.state == RestoreState::Waiting
    &&& e.cmd.len() == 0
    &&& e.app == app
    &&& ws matches Some(w) ==> e.workspaces.contains(w)
}

/// The record with the least number among `best` and those from `i` on that wait; the earlier of two with
/// the same number.
pub open spec fn awaiting_from(
    s: Seq<RestoreEntryView>,
    app: Str,
    ws: Option<Str>,
    i: int,
    best: Option<int>,
) -> Option<int>
    decreases s.len() - i,
{
    if i >= s.len() {
        best
    } else if awaits(s[i], app, ws) && (best matches Some(b) ==> s[i].instance < s[b].instance) {
        awaiting_from(s, app, ws, i + 1, Some(i))
    } else {
        awaiting_from(s, app, ws, i + 1, best)
    }
}

/// The record that a window fulfils: one for which a process of the window was started; else, of those of
/// the application that wait for a window, the one with the least number among those of the workspace,
/// and without such the least of all.
pub open spec fn matched(s: Seq<RestoreEntryView>, app: Option<Str>, pids: Seq<i32>, ws: Option<Str>) -> Option<int> {
    let i = started_from(s, pids, 0);
    if i < s.len() {
        Some(i)
    } else {
        match app {
            None => None,
            Some(a) => match ws {
                None => awaiting_from(s, a, None, 0, None),
                Some(w) => match awaiting_from(s, a, Some(w), 0, None) {
                    Some(k) => Some(k),
                    None => awaiting_from(s, a, None, 0, None),
                },
            },
        }
    }
}

fn has_pid(pids: &[i32], p: i32) -> (r: bool)
    ensures
        r == pids@.contains(p),
{
    let mut i: usize = 0;
    while i < pids.len()
        invariant
            i <= pids.len(),
            forall|k: int| 0 <= k < i ==> #[trigger] pids@[k] != p,
        decreases pids.len() - i,
    {
        if pids[i] == p {
            return true;
        }
        i = i + 1;
    }
    false
}

fn awaiting(entries: &[RestoreEntry], app: &str, ws: Option<&str>) -> (r: Option<usize>)
    ensures
        match r {
            Some(k) => k < entries.len() && awaiting_from(views(entries@), app@, oview(ws), 0, None) == Some(k as int),
            None => awaiting_from(views(entries@), app@, oview(ws), 0, None) is None,
        },
{
    let ghost s = views(entries@);
    let mut best: Option<usize> = None;
    let mut i: usize = 0;
    while i < entries.len()
        invariant
            i <= entries.len(),
            s == views(entries@),
            best matches Some(b) ==> b < entries.len(),
            awaiting_from(s, app@, oview(ws), 0, None) == awaiting_from(
                s,
                app@,
                oview(ws),
                i as int,
                match best {
                    Some(b) => Some(b as int),
                    None => None,
                },
            ),
        decreases entries.len() - i,
    {
        let e = &entries[i];
        assert(s[i as int] == e@);
        assert(e@.cmd.len() == e.cmd.len());
        let in_ws = match ws {
            Some(w) => holds(e.workspaces.as_slice(), w),
            None => true,
        };
        let waits = match e.state {
            RestoreState::Waiting => true,
            _ => false,
        };
        if waits && e.cmd.len() == 0 && same(e.app.as_str(), app) && in_ws {
            match best {
                None => {
                    best = Some(i);
                },
                Some(b) => {
                    assert(s[b as int] == entries@[b as int]@);
                    if e.instance < entries[b].instance {
                        best = Some(i);
                    }
                },
            }
        }
        i = i + 1;
    }
    best
}

/// The record that a window fulfils. `ancestors` are the process of the window and those above it, `app`
/// is its application and `workspace` the one that the application was started for.
pub fn match_restore(
    entries: &[RestoreEntry],
    app: Option<&str>,
    ancestors: &[i32],
    workspace: Option<&str>,
) -> (r: Option<usize>)
    ensures
        match r {
            Some(k) => k < entries.len() && matched(views(entries@), oview(app), ancestors@, oview(workspace)) == Some(
                k as int,
            ),
            None => matched(views(entries@), oview(app), ancestors@, oview(workspace)) is None,
        },
{
    let ghost s = views(entries@);
    let mut i: usize = 0;
    while i < entries.len()
        invariant
            i <= entries.len(),
            s == views(entries@),
            started_from(s, ancestors@, 0) == started_from(s, ancestors@, i as int),
        decreases entries.len() - i,
    {
        assert(s[i as int] == entries@[i as int]@);
        if let RestoreState::Launched(pid) = entries[i].state {
            if has_pid(ancestors, pid as i32) {
                return Some(i);
            }
        }
        i = i + 1;
    }
    match app {
        None => None,
        Some(a) => match workspace {
            None => awaiting(entries, a, None),
            Some(w) => match awaiting(entries, a, Some(w)) {
                Some(k) => Some(k),
                None => awaiting(entries, a, None),
            },
        },
    }
}

// ---- Raising a workspace -------------------------------------------------------

/// What raising a workspace does for an application without windows in it.
#[derive(Debug, Clone, Copy, PartialEq, Eq, Structural)]
pub enum RaiseStep {
    /// Share windows of other workspaces, else start the application.
    Normal,
    /// The first instance of the saved session belongs to the workspace and is not back: start the
    /// application and share nothing.
    LaunchFirst,
    /// The window of an instance that was started by its own command is not there yet: neither.
    Wait,
}

/// The record with the least number among `best` and those of an application from `i` on.
pub open spec fn first_record_from(s: Seq<RestoreEntryView>, app: Str, i: int, best: Option<int>) -> Option<int>
    decreases s.len() - i,
{
    if i >= s.len() {
        best
    } else if s[i].app == app && (best matches Some(b) ==> s[i].instance < s[b].instance) {
        first_record_from(s, app, i + 1, Some(i))
    } else {
        first_record_from(s, app, i + 1, best)
    }
}

/// One of the records from `i` on was started for the application and belongs to the workspace.
pub open spec fn coming_from(cfg: ConfigView, s: Seq<RestoreEntryView>, app: Str, ws: Str, i: int) -> bool
    decreases s.len() - i,
{
    if i >= s.len() {
        false
    } else {
        (s[i].state is Launched && cfg.app_is(s[i].app, app) && s[i].workspaces.contains(ws))
            || coming_from(cfg, s, app, ws, i + 1)
    }
}

/// What raising a workspace does for an application.
pub open spec fn raise_step_of(
    cfg: ConfigView,
    s: Seq<RestoreEntryView>,
    app: Str,
    ws: Str,
    has_windows: bool,
) -> RaiseStep {
    if has_windows {
        RaiseStep::Normal
    } else if first_record_from(s, app, 0, None) matches Some(k) && s[k].state == RestoreState::Waiting
        && s[k].cmd.len() == 0 && s[k].workspaces.contains(ws) {
        RaiseStep::LaunchFirst
    } else if coming_from(cfg, s, app, ws, 0) {
        RaiseStep::Wait
    } else {
        RaiseStep::Normal
    }
}

fn first_record(entries: &[RestoreEntry], app: &str) -> (r: Option<usize>)
    ensures
        match r {
            Some(k) => k < entries.len() && first_record_from(views(entries@), app@, 0, None) == Some(k as int),
            None => first_record_from(views(entries@), app@, 0, None) is None,
        },
{
    let ghost s = views(entries@);
    let mut best: Option<usize> = None;
    let mut i: usize = 0;
    while i < entries.len()
        invariant
            i <= entries.len(),
            s == views(entries@),
            best matches Some(b) ==> b < entries.len(),
            first_record_from(s, app@, 0, None) == first_record_from(
                s,
                app@,
                i as int,
                match best {
                    Some(b) => Some(b as int),
                    None => None,
                },
            ),
        decreases entries.len() - i,
    {
        let e = &entries[i];
        assert(s[i as int] == e@);
        if same(e.app.as_str(), app) {
            match best {
                None => {
                    best = Some(i);
                },
                Some(b) => {
                    assert(s[b as int] == entries@[b as int]@);
                    if e.instance < entries[b].instance {
                        best = Some(i);
                    }
                },
            }
        }
        i = i + 1;
    }
    best
}

/// What raising a workspace does for an application. With windows in the workspace the saved session
/// changes nothing.
pub fn raise_restore_step(cfg: &Config, entries: &[RestoreEntry], app: &str, ws: &str, has_windows: bool) -> (r:
    RaiseStep)
    ensures
        r == raise_step_of(cfg@, views(entries@), app@, ws@, has_windows),
{
    if has_windows {
        return RaiseStep::Normal;
    }
    let ghost s = views(entries@);
    if let Some(k) = first_record(entries, app) {
        let e = &entries[k];
        assert(s[k as int] == e@);
        assert(e@.cmd.len() == e.cmd.len());
        let waits = match e.state {
            RestoreState::Waiting => true,
            _ => false,
        };
        if waits && e.cmd.len() == 0 && holds(e.workspaces.as_slice(), ws) {
            return RaiseStep::LaunchFirst;
        }
    }
    let ghost first = first_record_from(s, app@, 0, None);
    let mut i: usize = 0;
    while i < entries.len()
        invariant
            i <= entries.len(),
            s == views(entries@),
            first == first_record_from(s, app@, 0, None),
            !has_windows,
            !(first matches Some(k) && s[k].state == RestoreState::Waiting && s[k].cmd.len() == 0
                && s[k].workspaces.contains(ws@)),
            coming_from(cfg@, s, app@, ws@, 0) == coming_from(cfg@, s, app@, ws@, i as int),
        decreases entries.len() - i,
    {
        let e = &entries[i];
        assert(s[i as int] == e@);
        let started = match e.state {
            RestoreState::Launched(_) => true,
            _ => false,
        };
        if started && cfg.app_is(e.app.as_str(), app) && holds(e.workspaces.as_slice(), ws) {
            return RaiseStep::Wait;
        }
        i = i + 1;
    }
    RaiseStep::Normal
}

/// A record is to be started when its workspace is raised: it waits, has a command and belongs to it.
pub open spec fn starts_with(e: RestoreEntryView, ws: Str) -> bool {
    e.state == RestoreState::Waiting && e.cmd.len() > 0 && e.workspaces.contains(ws)
}

/// Those of the first `n` records that are to be started with a workspace.
pub open spec fn starting_upto(s: Seq<RestoreEntryView>, ws: Str, n: int) -> Seq<int>
    decreases n,
{
    if n <= 0 {
        Seq::empty()
    } else if starts_with(s[n - 1], ws) {
        starting_upto(s, ws, n - 1).push(n - 1)
    } else {
        starting_upto(s, ws, n - 1)
    }
}

/// What a list of numbers says.
pub open spec fn indexes(s: Seq<usize>) -> Seq<int> {
    s.map_values(|n: usize| n as int)
}

/// The records to start when a workspace is raised.
pub fn to_start(entries: &[RestoreEntry], ws: &str) -> (r: Vec<usize>)
    ensures
        indexes(r@) == starting_upto(views(entries@), ws@, entries.len() as int),
{
    let ghost s = views(entries@);
    let mut out: Vec<usize> = Vec::new();
    let mut i: usize = 0;
    proof {
        assert(indexes(out@) =~= Seq::empty());
    }
    while i < entries.len()
        invariant
            i <= entries.len(),
            s == views(entries@),
            indexes(out@) == starting_upto(s, ws@, i as int),
        decreases entries.len() - i,
    {
        let e = &entries[i];
        assert(s[i as int] == e@);
        assert(e@.cmd.len() == e.cmd.len());
        let waits = match e.state {
            RestoreState::Waiting => true,
            _ => false,
        };
        if waits && e.cmd.len() > 0 && holds(e.workspaces.as_slice(), ws) {
            let ghost was = out@;
            out.push(i);
            proof {
                assert(indexes(out@) =~= indexes(was).push(i as int));
            }
        }
        i = i + 1;
    }
    out
}

// ---- The end of waiting --------------------------------------------------------

/// A record is given up: all are, or those of the application without a command, or those whose window
/// is awaited.
pub open spec fn given_up(e: RestoreEntryView, apps: Set<Str>, app: Option<Str>, all: bool) -> bool {
    e.is_open() && (all || match app {
        Some(a) => e.app == a && e.cmd.len() == 0,
        None => e.state is Launched || (e.cmd.len() == 0 && apps.contains(e.app)),
    })
}

/// A record after it: done where it was given up.
pub open spec fn given(e: RestoreEntryView, apps: Set<Str>, app: Option<Str>, all: bool) -> RestoreEntryView {
    if given_up(e, apps, app, all) {
        RestoreEntryView { state: RestoreState::Done, ..e }
    } else {
        e
    }
}

/// A record in words: the application and the number.
pub open spec fn record_name(e: RestoreEntryView) -> Str {
    e.app + "#"@ + crate::text::dec(e.instance as nat)
}

/// Those of the first `n` records that are given up, in words.
pub open spec fn given_names(s: Seq<RestoreEntryView>, apps: Set<Str>, app: Option<Str>, all: bool, n: int) -> Seq<Str>
    decreases n,
{
    if n <= 0 {
        Seq::empty()
    } else if given_up(s[n - 1], apps, app, all) {
        given_names(s, apps, app, all, n - 1).push(record_name(s[n - 1]))
    } else {
        given_names(s, apps, app, all, n - 1)
    }
}

fn name_record(e: &RestoreEntry) -> (r: String)
    ensures
        r@ == record_name(e@),
{
    let mut s = e.app.clone();
    s.append("#");
    push_dec(&mut s, e.instance as u64);
    s
}

/// Give up waiting for windows of the saved session. With `all` everything is given up; with `app` the
/// windows that this application opens by itself; else all windows that are awaited: those of processes
/// that were started and those of the applications in `restore_apps`. Gives the records in words.
pub fn end_wait(entries: &mut Vec<RestoreEntry>, restore_apps: &Names, app: Option<&str>, all: bool) -> (r: Vec<String>)
    ensures
        views(final(entries)@) == views(old(entries)@).map_values(
            |e: RestoreEntryView| given(e, restore_apps@, oview(app), all),
        ),
        views(r@) == given_names(
            views(old(entries)@),
            restore_apps@,
            oview(app),
            all,
            old(entries).len() as int,
        ),
{
    let ghost s = views(entries@);
    let ghost f = |e: RestoreEntryView| given(e, restore_apps@, oview(app), all);
    let mut out: Vec<String> = Vec::new();
    let mut i: usize = 0;
    while i < entries.len()
        invariant
            i <= entries.len(),
            s == views(old(entries)@),
            entries.len() == old(entries).len(),
            f == (|e: RestoreEntryView| given(e, restore_apps@, oview(app), all)),
            forall|k: int| 0 <= k < i ==> (#[trigger] entries@[k])@ == f(s[k]),
            forall|k: int| i <= k < entries.len() ==> #[trigger] entries@[k] == old(entries)@[k],
            views(out@) == given_names(s, restore_apps@, oview(app), all, i as int),
        decreases entries.len() - i,
    {
        let e = &entries[i];
        assert(s[i as int] == e@);
        assert(e@.cmd.len() == e.cmd.len());
        let hit = e.open() && (all || match app {
            Some(a) => same(e.app.as_str(), a) && e.cmd.len() == 0,
            None => match e.state {
                RestoreState::Launched(_) => true,
                _ => e.cmd.len() == 0 && restore_apps.contains(e.app.as_str()),
            },
        });
        if hit {
            out.push(name_record(e));
            let mut done = e.dup();
            done.state = RestoreState::Done;
            entries.set(i, done);
        }
        i = i + 1;
    }
    proof {
        assert(views(entries@) =~= s.map_values(f));
    }
    out
}

/// With `all` nothing is waited for any more, and whatever is given up, no record is lost and no record
/// that is done comes back.
pub proof fn law_end_wait(s: Seq<RestoreEntryView>, apps: Set<Str>, app: Option<Str>, all: bool)
    ensures
        ({
            let t = s.map_values(|e: RestoreEntryView| given(e, apps, app, all));
            &&& t.len() == s.len()
            &&& all ==> forall|i: int| 0 <= i < t.len() ==> !(#[trigger] t[i]).is_open()
            &&& forall|i: int| 0 <= i < t.len() && (#[trigger] t[i]).is_open() ==> t[i] == s[i]
        }),
{
}

impl StateView {
    /// The state after waiting was given up.
    pub open spec fn wait_ended(self, app: Option<Str>, all: bool) -> StateView {
        StateView {
            restore: if all {
                Seq::empty()
            } else {
                self.restore.map_values(|e: RestoreEntryView| given(e, self.restore_apps, app, all))
            },
            restore_apps: match app {
                Some(a) => if all {
                    Set::empty()
                } else {
                    self.restore_apps.remove(a)
                },
                None => Set::empty(),
            },
            ..self
        }
    }
}

/// Give up waiting for windows of the saved session: for those of an application, for all that are
/// awaited, or the whole plan. Gives the records in words.
pub fn end_restore_wait(st: &mut State, app: Option<&str>, all: bool) -> (r: Vec<String>)
    ensures
        final(st)@ == old(st)@.wait_ended(oview(app), all),
        views(r@) == given_names(
            old(st)@.restore,
            old(st)@.restore_apps,
            oview(app),
            all,
            old(st)@.restore.len() as int,
        ),
{
    let dropped = end_wait(&mut st.restore, &st.restore_apps, app, all);
    if all {
        st.restore_apps.clear();
        st.restore = Vec::new();
        proof {
            assert(views(st.restore@) =~= Seq::empty());
        }
    } else {
        match app {
            Some(a) => {
                let _ = st.restore_apps.remove(a);
            },
            None => {
                st.restore_apps.clear();
            },
        }
    }
    dropped
}

/// One of the records of an application from `i` on is open.
pub open spec fn open_from(s: Seq<RestoreEntryView>, app: Str, i: int) -> bool
    decreases s.len() - i,
{
    if i >= s.len() {
        false
    } else {
        (s[i].app == app && s[i].is_open()) || open_from(s, app, i + 1)
    }
}

/// A window came back: once all records of its application are done, no windows of it are awaited.
pub fn restore_progress(st: &mut State, app: &str)
    ensures
        final(st)@ == (if open_from(old(st)@.restore, app@, 0) {
            old(st)@
        } else {
            StateView { restore_apps: old(st)@.restore_apps.remove(app@), ..old(st)@ }
        }),
{
    let ghost s = views(st.restore@);
    let mut i: usize = 0;
    while i < st.restore.len()
        invariant
            i <= st.restore.len(),
            st@ == old(st)@,
            s == views(st.restore@),
            open_from(s, app@, 0) == open_from(s, app@, i as int),
        decreases st.restore.len() - i,
    {
        assert(s[i as int] == st.restore@[i as int]@);
        if same(st.restore[i].app.as_str(), app) && st.restore[i].open() {
            return ;
        }
        i = i + 1;
    }
    let _ = st.restore_apps.remove(app);
}

/// The number of the record that a window fulfils which its application opened by itself: the
/// application was started for the saved session, and the window is not a dialog.
pub open spec fn awaited_by(cfg: ConfigView, st: StateView, c: Client) -> Option<int> {
    if has_no_class(c) || cfg.ignored_class(c.class@) {
        None
    } else {
        match fitting_app(cfg, c) {
            None => None,
            Some(app) => if !st.restore_apps.contains(app) || (tab_get(cfg.apps, app) matches Some(a) && a.is_dialog(
                c.title@,
            )) {
                None
            } else {
                matched(st.restore, Some(app), Seq::empty(), None)
            },
        }
    }
}

/// The number of the record that a window fulfils which its application opened by itself.
pub fn awaited_entry(cfg: &Config, st: &State, c: &Client) -> (r: Option<usize>)
    ensures
        match r {
            Some(k) => k < st@.restore.len() && awaited_by(cfg@, st@, *c) == Some(k as int),
            None => awaited_by(cfg@, st@, *c) is None,
        },
{
    if classless(c) || cfg.ignored_class(c.class.as_str()) {
        return None;
    }
    let app = match app_for_window(cfg, c) {
        Some(a) => a,
        None => return None,
    };
    if !st.restore_apps.contains(app.as_str()) {
        return None;
    }
    let dialog = match cfg.apps.get(app.as_str()) {
        Some(a) => a.is_dialog(c.title.as_str()),
        None => false,
    };
    if dialog {
        return None;
    }
    let none: Vec<i32> = Vec::new();
    proof {
        assert(none@ =~= Seq::<i32>::empty());
    }
    match_restore(st.restore.as_slice(), Some(app.as_str()), none.as_slice(), None)
}

// ---- A window becomes an instance ----------------------------------------------

/// Those of the first `n` texts that are, or are not, among others.
pub open spec fn among_upto(s: Seq<Str>, others: Seq<Str>, wanted: bool, n: int) -> Seq<Str>
    decreases n,
{
    if n <= 0 {
        Seq::empty()
    } else if others.contains(s[n - 1]) == wanted {
        among_upto(s, others, wanted, n - 1).push(s[n - 1])
    } else {
        among_upto(s, others, wanted, n - 1)
    }
}

/// Those texts that are not among others.
pub open spec fn besides(s: Seq<Str>, others: Seq<Str>) -> Seq<Str> {
    among_upto(s, others, false, s.len() as int)
}

fn pick_besides(s: &[String], others: &[String]) -> (r: Vec<String>)
    ensures
        views(r@) == besides(views(s@), views(others@)),
{
    let ghost t = views(s@);
    let mut out: Vec<String> = Vec::new();
    let mut i: usize = 0;
    while i < s.len()
        invariant
            i <= s.len(),
            t == views(s@),
            views(out@) == among_upto(t, views(others@), false, i as int),
        decreases s.len() - i,
    {
        if !holds(others, s[i].as_str()) {
            out.push(s[i].clone());
        }
        i = i + 1;
    }
    out
}

/// The tags of workspaces.
pub open spec fn ws_tags_of(list: Seq<Str>) -> Seq<Str> {
    list.map_values(|w: Str| "ws:"@ + w)
}

/// The expressions that put tags on a window.
pub open spec fn tags_on(addr: Str, tags: Seq<Str>) -> Seq<Str> {
    tags.map_values(|t: Str| tag_of(addr, t))
}

fn make_ws_tags(list: &[String]) -> (r: Vec<String>)
    ensures
        views(r@) == ws_tags_of(views(list@)),
{
    let ghost t = ws_tags_of(views(list@));
    let mut out: Vec<String> = Vec::new();
    let mut i: usize = 0;
    proof {
        assert(t.take(0) =~= Seq::empty());
    }
    while i < list.len()
        invariant
            i <= list.len(),
            t == ws_tags_of(views(list@)),
            views(out@) == t.take(i as int),
        decreases list.len() - i,
    {
        out.push(ws_tag(list[i].as_str()));
        proof {
            assert(t[i as int] == "ws:"@ + list@[i as int]@);
            assert(t.take(i + 1) =~= t.take(i as int).push(t[i as int]));
        }
        i = i + 1;
    }
    proof {
        assert(t.take(t.len() as int) =~= t);
    }
    out
}

fn push_tags(ex: &mut Vec<String>, addr: &str, tags: &[String])
    ensures
        views(final(ex)@) == views(old(ex)@) + tags_on(addr@, views(tags@)),
{
    let ghost was = views(ex@);
    let ghost u = tags_on(addr@, views(tags@));
    let mut i: usize = 0;
    proof {
        assert(was + u.take(0) =~= was);
    }
    while i < tags.len()
        invariant
            i <= tags.len(),
            u == tags_on(addr@, views(tags@)),
            views(ex@) == was + u.take(i as int),
        decreases tags.len() - i,
    {
        ex.push(d_tag(addr, tags[i].as_str()));
        proof {
            assert(u[i as int] == tag_of(addr@, tags@[i as int]@));
            assert(was + u.take(i + 1) =~= (was + u.take(i as int)).push(u[i as int]));
        }
        i = i + 1;
    }
    proof {
        assert(u.take(u.len() as int) =~= u);
    }
}

/// The number that the window of a record gets: with `retag` that of the record where it is free, else
/// the one it bears.
pub open spec fn instance_number(c: Client, clients: Seq<Client>, e: RestoreEntryView, retag: bool) -> nat {
    if retag {
        if instances(clients, e.app).contains(e.instance as nat) {
            least_free(instances(clients, e.app))
        } else {
            e.instance as nat
        }
    } else {
        match app_instance(c) {
            Some((_, n)) => n,
            None => e.instance as nat,
        }
    }
}

/// The expressions that retag a window as an instance.
pub open spec fn retagging(c: Client, app: Str, num: nat) -> Seq<Str> {
    untags(c.address@, app_tags_of(c)).push(tag_of(c.address@, instance_tag(app, num)))
}

/// The expressions that bring a window home.
pub open spec fn going_home(c: Client, home: Home, rect: Option<PxRect>) -> Seq<Str> {
    match home {
        Home::Desktop(k) => (if desk_number(c.workspace.name@) != Some(k) {
            seq![desk_move(c.address@, k)]
        } else {
            Seq::empty()
        }) + placing_opt(c.address@, rect),
        Home::Pool => seq![park(c.address@)],
        Home::Keep => Seq::empty(),
    }
}

/// The expressions by which a window becomes an instance of a record: a tag, exactly the workspaces of the
/// record that describe its application, and its place.
pub open spec fn instance_exprs(
    c: Client,
    e: RestoreEntryView,
    members: Seq<Str>,
    retag: bool,
    num: nat,
    home: Home,
    rect: Option<PxRect>,
) -> Seq<Str> {
    let addr = c.address@;
    let list = ws_list(c);
    (if retag {
        retagging(c, e.app, num)
    } else {
        Seq::empty()
    }) + untags(addr, ws_tags_of(besides(list, members))) + tags_on(addr, ws_tags_of(besides(members, list)))
        + going_home(c, home, rect)
}

/// The kept rectangles with those of a record from `i` on put in, as far as the window belongs to the
/// workspace.
pub open spec fn record_rects_from(
    g: Seq<(Str, Seq<(Str, PxRect)>)>,
    rects: Seq<(Str, PxRect)>,
    members: Seq<Str>,
    addr: Str,
    i: int,
) -> Seq<(Str, Seq<(Str, PxRect)>)>
    decreases rects.len() - i,
{
    if i >= rects.len() {
        g
    } else if members.contains(rects[i].0) {
        record_rects_from(nest_put(g, rects[i].0, addr, rects[i].1), rects, members, addr, i + 1)
    } else {
        record_rects_from(g, rects, members, addr, i + 1)
    }
}

impl StateView {
    /// The state after a window became the instance of a record.
    pub open spec fn with_instance(self, cfg: ConfigView, c: Client, e: RestoreEntryView, current: u8) -> StateView {
        let act = actives_of(self.desktops);
        let members = members_of(cfg, e);
        let (home, rect) = self.restored(cfg, e, act, current);
        let one = self.after_restored(cfg, e, act, current);
        let two = StateView { geom: record_rects_from(one.geom, e.rects, members, c.address@, 0), ..one };
        let three = match home {
            Home::Desktop(k) => match at_desk(act, k) {
                Some(w) => if members.contains(w) {
                    StateView {
                        geom: nest_put(
                            two.geom,
                            w,
                            c.address@,
                            match rect {
                                Some(r) => r,
                                None => rect_of(c),
                            },
                        ),
                        ..two
                    }.claimed(cfg, w, e.app, c.address@)
                } else {
                    two
                },
                None => two,
            },
            _ => two,
        };
        StateView { foreign: tab_del(three.foreign, c.address@), ..three }
    }
}

fn push_home(ex: &mut Vec<String>, c: &Client, home: Home, rect: Option<PxRect>)
    ensures
        views(final(ex)@) == views(old(ex)@) + going_home(*c, home, rect),
{
    let ghost was = views(ex@);
    match home {
        Home::Desktop(k) => {
            if c.desktop() != Some(k) {
                push_desk_move(ex, c.address.as_str(), k);
            }
            let ghost mid = views(ex@);
            push_place_opt(ex, c.address.as_str(), rect);
            proof {
                assert(views(ex@) =~= was + going_home(*c, home, rect));
            }
        },
        Home::Pool => {
            push_park(ex, c.address.as_str());
            proof {
                assert(views(ex@) =~= was + going_home(*c, home, rect));
            }
        },
        Home::Keep => {
            proof {
                assert(was =~= was + Seq::<Str>::empty());
            }
        },
    }
}

/// Make a window the instance of a record: a tag with the number of the record where it is free (with
/// `retag`; else the window keeps its number), exactly the workspaces of the record that describe its
/// application, and its place. Gives the expressions, where the window goes and its number.
pub fn instance_ex(
    cfg: &Config,
    st: &mut State,
    c: &Client,
    clients: &[Client],
    e: &RestoreEntry,
    retag: bool,
    current: u8,
) -> (r: (Vec<String>, Home, u32))
    requires
        clients.len() < u32::MAX,
    ensures
        final(st)@ == old(st)@.with_instance(cfg@, *c, e@, current),
        r.2 as nat == instance_number(*c, clients@, e@, retag),
        r.1 == old(st)@.restored(cfg@, e@, actives_of(old(st)@.desktops), current).0,
        views(r.0@) == instance_exprs(
            *c,
            e@,
            members_of(cfg@, e@),
            retag,
            r.2 as nat,
            r.1,
            old(st)@.restored(cfg@, e@, actives_of(old(st)@.desktops), current).1,
        ),
{
    let addr = c.address.as_str();
    let num: u32 = if retag {
        restored_number(clients, e.app.as_str(), e.instance)
    } else {
        match c.app_instance() {
            Some((_, n)) => n,
            None => e.instance,
        }
    };
    let mut ex: Vec<String> = Vec::new();
    if retag {
        push_untags(&mut ex, addr, c.app_tags().as_slice());
        ex.push(d_tag(addr, app_tag(e.app.as_str(), num).as_str()));
        proof {
            assert(views(ex@) =~= retagging(*c, e@.app, num as nat));
        }
    }
    let members = entry_members(cfg, e);
    let list = c.workspaces();
    let off = pick_besides(list.as_slice(), members.as_slice());
    push_untags(&mut ex, addr, make_ws_tags(off.as_slice()).as_slice());
    let on = pick_besides(members.as_slice(), list.as_slice());
    push_tags(&mut ex, addr, make_ws_tags(on.as_slice()).as_slice());
    let act = actives(st);
    let (home, rect) = restore_place(st, cfg, e, &act, current);
    push_home(&mut ex, c, home, rect);
    let ghost one = st@;
    let n: usize = e.rects.len();
    let mut i: usize = 0;
    while i < n
        invariant
            i <= n,
            n == e@.rects.len(),
            addr@ == c.address@,
            st@ == (StateView { geom: st@.geom, ..one }),
            record_rects_from(one.geom, e@.rects, views(members@), addr@, 0) == record_rects_from(
                st@.geom,
                e@.rects,
                views(members@),
                addr@,
                i as int,
            ),
        decreases n - i,
    {
        let w = e.rects.key(i);
        if holds(members.as_slice(), w.as_str()) {
            st.geom.put_nested(w.as_str(), addr.to_owned(), *e.rects.at(i));
        }
        i = i + 1;
    }
    if let Home::Desktop(k) = home {
        if let Some(w) = desk_get(&act, k) {
            if holds(members.as_slice(), w.as_str()) {
                let r = match rect {
                    Some(r) => r,
                    None => c.rect(),
                };
                st.geom.put_nested(w.as_str(), addr.to_owned(), r);
                claim_owner(st, cfg, w.as_str(), e.app.as_str(), addr);
            }
        }
    }
    st.foreign.remove(addr);
    (ex, home, num)
}

impl StateView {
    /// The state after the main window of a desktop was looked up.
    pub open spec fn looked_main(self, cfg: ConfigView, home: Home, current: u8) -> StateView {
        match home {
            Home::Desktop(k) => if k == current {
                match self.active_on(k) {
                    Some(w) => self.built(cfg, w),
                    None => self,
                }
            } else {
                self
            },
            _ => self,
        }
    }

    /// The window to give the focus back to after a window came to its home: the first of the main
    /// application there, where that is the desktop of the user and the window is not of the main
    /// application.
    pub open spec fn main_back(self, cfg: ConfigView, home: Home, app: Str, clients: Seq<Client>, current: u8) -> Option<
        Str,
    > {
        match home {
            Home::Desktop(k) => if k == current {
                match self.active_on(k) {
                    Some(w) => match self.built(cfg, w).main_in(cfg, w) {
                        Some(m) => if m == app {
                            None
                        } else {
                            match first_of(windows_of(cfg, clients, m)) {
                                Some(c) => if desk_number(c.workspace.name@) == Some(k) {
                                    Some(c.address@)
                                } else {
                                    None
                                },
                                None => None,
                            }
                        },
                        None => None,
                    },
                    None => None,
                }
            } else {
                None
            },
            _ => None,
        }
    }
}

/// The expressions that focus a window, where there is one.
pub open spec fn focusing_opt(addr: Option<Str>) -> Seq<Str> {
    match addr {
        Some(a) => focusing(a),
        None => Seq::empty(),
    }
}

/// The expressions that give the focus back to the main window of the desktop: a new window takes it, and
/// a window that comes back must not.
pub fn focus_main_ex(cfg: &Config, st: &mut State, home: Home, app: &str, clients: &[Client], current: u8) -> (r: Vec<
    String,
>)
    ensures
        final(st)@ == old(st)@.looked_main(cfg@, home, current),
        views(r@) == focusing_opt(old(st)@.main_back(cfg@, home, app@, clients@, current)),
{
    let mut ex: Vec<String> = Vec::new();
    if let Home::Desktop(k) = home {
        if k == current {
            if let Some(w) = st.active_on(k) {
                if let Some(m) = st.main_app(cfg, w.as_str()) {
                    if !same(m.as_str(), app) {
                        if let Some(c) = first_window(cfg, clients, m.as_str()) {
                            if c.desktop() == Some(k) {
                                push_focus(&mut ex, c.address.as_str());
                                proof {
                                    assert(views(ex@) =~= focusing(c.address@));
                                }
                            }
                        }
                    }
                }
            }
        }
    }
    ex
}

// ---- Windows of no workspace ---------------------------------------------------

/// A record of no workspace that is to come back: one that was hidden is not.
pub open spec fn is_free_record(cfg: ConfigView, e: RestoreEntryView) -> bool {
    e.state == RestoreState::Waiting && members_of(cfg, e).len() == 0 && e.desktop != "hidden"@
}

/// Those of the first `n` records that belong to no workspace and are to come back.
pub open spec fn free_records_upto(cfg: ConfigView, s: Seq<RestoreEntryView>, n: int) -> Seq<int>
    decreases n,
{
    if n <= 0 {
        Seq::empty()
    } else if is_free_record(cfg, s[n - 1]) {
        free_records_upto(cfg, s, n - 1).push(n - 1)
    } else {
        free_records_upto(cfg, s, n - 1)
    }
}

/// The records of no workspace that are to come back.
pub fn free_entries(cfg: &Config, entries: &[RestoreEntry]) -> (r: Vec<usize>)
    ensures
        indexes(r@) == free_records_upto(cfg@, views(entries@), entries.len() as int),
{
    let ghost s = views(entries@);
    let mut out: Vec<usize> = Vec::new();
    let mut i: usize = 0;
    proof {
        assert(indexes(out@) =~= Seq::empty());
    }
    while i < entries.len()
        invariant
            i <= entries.len(),
            s == views(entries@),
            indexes(out@) == free_records_upto(cfg@, s, i as int),
        decreases entries.len() - i,
    {
        let e = &entries[i];
        assert(s[i as int] == e@);
        let waits = match e.state {
            RestoreState::Waiting => true,
            _ => false,
        };
        let members = entry_members(cfg, e);
        assert(views(members@).len() == members.len());
        if waits && members.len() == 0 && !same(e.desktop.as_str(), "hidden") {
            let ghost was = out@;
            out.push(i);
            proof {
                assert(indexes(out@) =~= indexes(was).push(i as int));
            }
        }
        i = i + 1;
    }
    out
}

/// The least number among the records of an application is that of a record.
pub open spec fn is_first_record(s: Seq<RestoreEntryView>, k: int) -> bool {
    first_record_from(s, s[k].app, 0, None) matches Some(f) && s[f].instance == s[k].instance
}

/// The record has the least number of its application in the saved session.
pub fn first_of_app(entries: &[RestoreEntry], k: usize) -> (r: bool)
    requires
        k < entries.len(),
    ensures
        r == is_first_record(views(entries@), k as int),
{
    let ghost s = views(entries@);
    assert(s[k as int] == entries@[k as int]@);
    match first_record(entries, entries[k].app.as_str()) {
        Some(f) => {
            assert(s[f as int] == entries@[f as int]@);
            entries[f].instance == entries[k].instance
        },
        None => false,
    }
}

} // verus!
