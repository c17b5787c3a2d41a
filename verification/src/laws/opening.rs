//! What a window that opens is, and what a process that ends was.
use vstd::prelude::*;

use crate::config::{AppView, ConfigView};
use crate::effects::{lemma_runs_more, runs};
use crate::exprs::{desk_move, park, placing};
use crate::home::Home;
use crate::hypr::{app_of, Client};
use crate::laws::restore::{is_started, law_matched, law_record_members, lemma_first_record, waits_for};
use crate::laws::windows::lemma_push;
use crate::lookup::law_plain_text_stays;
use crate::pending::{
    by_pid_from, command_of, exit_of, expected_exprs, expected_from, expected_pid_from, fitting_from, free_fit_from,
    free_step_of, known_upto, launched_from, of_app_from, opened_by_look, opened_by_pid, pending_pid_from, refreshed,
    Exit, ExpectedForeignView, FreeStep, Opened, PendingView, Target,
};
use crate::raise::desk_of;
use crate::rect::fits;
use crate::restore::{awaited_by, free_records_upto, is_free_record, members_of, open_from, started_from};
use crate::state::{RestoreEntryView, RestoreState, StateView};
use crate::table::{tab_get, tab_has};
use crate::text::{parsed, Str};
use crate::windows::{class_like, first_of, fits_matcher, fitting_app, has_no_class, windows_of};

verus! {

proof fn lemma_by_pid(s: Seq<PendingView>, pids: Seq<i32>, i: int)
    requires
        0 <= i <= s.len(),
    ensures
        i <= by_pid_from(s, pids, i) <= s.len(),
        by_pid_from(s, pids, i) < s.len() ==> pids.contains(s[by_pid_from(s, pids, i)].pid as i32),
        forall|k: int| i <= k < by_pid_from(s, pids, i) ==> !pids.contains((#[trigger] s[k]).pid as i32),
    decreases s.len() - i,
{
    if i < s.len() && !pids.contains(s[i].pid as i32) {
        lemma_by_pid(s, pids, i + 1);
    }
}

proof fn lemma_started_first(s: Seq<RestoreEntryView>, pids: Seq<i32>, i: int)
    requires
        0 <= i <= s.len(),
    ensures
        i <= started_from(s, pids, i) <= s.len(),
        started_from(s, pids, i) < s.len() ==> is_started(s[started_from(s, pids, i)], pids),
        forall|k: int| i <= k < started_from(s, pids, i) ==> !is_started(#[trigger] s[k], pids),
    decreases s.len() - i,
{
    if i < s.len() && !is_started(s[i], pids) {
        lemma_started_first(s, pids, i + 1);
    }
}

/// By its process alone a window is the first application that was started as one of its processes; else it fulfils the
/// first record for which one of them was started; and it is nothing where neither is there, or it has no class.
pub proof fn law_opened_by_pid(
    pending: Seq<PendingView>,
    restore: Seq<RestoreEntryView>,
    c: Client,
    pids: Seq<i32>,
)
    requires
        pending.len() <= usize::MAX,
        restore.len() <= usize::MAX,
    ensures
        ({
            let ours = |p: PendingView| pids.contains(p.pid as i32);
            match opened_by_pid(pending, restore, c, pids) {
                Some(Opened::Pending(i)) => !has_no_class(c) && i < pending.len() && ours(pending[i as int]) && forall|k: int|
                    0 <= k < i ==> !ours(#[trigger] pending[k]),
                Some(Opened::Restored(i)) => !has_no_class(c) && i < restore.len() && is_started(restore[i as int], pids) && (
                forall|k: int| 0 <= k < i ==> !is_started(#[trigger] restore[k], pids)) && forall|k: int|
                    0 <= k < pending.len() ==> !ours(#[trigger] pending[k]),
                Some(_) => false,
                None => has_no_class(c) || (forall|k: int| 0 <= k < pending.len() ==> !ours(#[trigger] pending[k])) && forall|k: int|
                    0 <= k < restore.len() ==> !is_started(#[trigger] restore[k], pids),
            }
        }),
{
    lemma_by_pid(pending, pids, 0);
    lemma_started_first(restore, pids, 0);
}

proof fn lemma_fitting(s: Seq<PendingView>, c: Client, pids: Seq<i32>, exe: Option<Str>, i: int)
    requires
        0 <= i <= s.len(),
    ensures
        i <= fitting_from(s, c, pids, exe, i) <= s.len(),
        fitting_from(s, c, pids, exe, i) < s.len() ==> s[fitting_from(s, c, pids, exe, i)].awaits(c, pids, exe),
        forall|k: int| i <= k < fitting_from(s, c, pids, exe, i) ==> !(#[trigger] s[k]).awaits(c, pids, exe),
    decreases s.len() - i,
{
    if i < s.len() && !s[i].awaits(c, pids, exe) {
        lemma_fitting(s, c, pids, exe, i + 1);
    }
}

proof fn lemma_expected(s: Seq<ExpectedForeignView>, cmd: Seq<Str>, cwd: Option<Str>, i: int)
    requires
        0 <= i <= s.len(),
    ensures
        ({
            let r = expected_from(s, cmd, cwd, i);
            &&& i <= r <= s.len()
            &&& r < s.len() ==> s[r].cmd == cmd && s[r].cwd == cwd
            &&& forall|k: int| i <= k < r ==> !((#[trigger] s[k]).cmd == cmd && s[k].cwd == cwd)
        }),
    decreases s.len() - i,
{
    if i < s.len() && !(s[i].cmd == cmd && s[i].cwd == cwd) {
        lemma_expected(s, cmd, cwd, i + 1);
    }
}

/// By its looks a window is first the one of no application that the saved session expects with its command and
/// directory; else that of the first application started which awaits it; else it fulfils the record that its
/// application opened it for; and else it is new.
pub proof fn law_opened_by_look(
    cfg: ConfigView,
    st: StateView,
    pending: Seq<PendingView>,
    expected: Seq<ExpectedForeignView>,
    c: Client,
    pids: Seq<i32>,
    exe: Option<Str>,
    cmd: Seq<Str>,
    cwd: Option<Str>,
)
    requires
        pending.len() <= usize::MAX,
        expected.len() <= usize::MAX,
        st.restore.len() <= usize::MAX,
    ensures
        ({
            let named = |e: ExpectedForeignView| e.cmd == cmd && e.cwd == cwd;
            let any = exists|k: int| 0 <= k < expected.len() && named(#[trigger] expected[k]);
            let fits = exists|k: int| 0 <= k < pending.len() && (#[trigger] pending[k]).awaits(c, pids, exe);
            match opened_by_look(cfg, st, pending, expected, c, pids, exe, cmd, cwd) {
                Opened::Expected(i) => i < expected.len() && named(expected[i as int]) && forall|k: int|
                    0 <= k < i ==> !named(#[trigger] expected[k]),
                Opened::Pending(i) => !any && i < pending.len() && pending[i as int].awaits(c, pids, exe) && forall|k: int|
                    0 <= k < i ==> !(#[trigger] pending[k]).awaits(c, pids, exe),
                Opened::Awaited(k) => !any && !fits && awaited_by(cfg, st, c) == Some(k as int),
                Opened::New => !any && !fits && awaited_by(cfg, st, c) is None,
                Opened::Restored(_) => false,
            }
        }),
{
    lemma_expected(expected, cmd, cwd, 0);
    lemma_fitting(pending, c, pids, exe, 0);
    if awaited_by(cfg, st, c) is Some {
        law_matched(st.restore, fitting_app(cfg, c), Seq::empty(), None);
    }
}

/// A window without a class is never the one that is awaited. One with a class is where it is of the process, fits the
/// expressions, runs the same program, or has a class like the name of the command; and only then.
pub proof fn law_awaits(p: PendingView, c: Client, pids: Seq<i32>, exe: Option<Str>)
    ensures
        has_no_class(c) ==> !p.awaits(c, pids, exe),
        !has_no_class(c) && pids.contains(p.pid as i32) ==> p.awaits(c, pids, exe),
        !has_no_class(c) && fits_matcher(p.class_re, p.title_re, c) ==> p.awaits(c, pids, exe),
        !has_no_class(c) && p.exe is Some && exe == p.exe ==> p.awaits(c, pids, exe),
        !has_no_class(c) && class_like(c.class@, p.cmd_base) ==> p.awaits(c, pids, exe),
        p.awaits(c, pids, exe) && !pids.contains(p.pid as i32) && !fits_matcher(p.class_re, p.title_re, c) && !class_like(
            c.class@,
            p.cmd_base,
        ) ==> p.exe is Some && p.exe == exe,
{
}

/// A window that an application opened by itself fulfils a record only of the application that it fits, started for the
/// saved session, as no dialog and of no class to be ignored; and then one that waits for a window of it, with the
/// least number.
pub proof fn law_awaited(cfg: ConfigView, st: StateView, c: Client)
    ensures
        match awaited_by(cfg, st, c) {
            Some(k) => {
                let app = fitting_app(cfg, c);
                &&& !has_no_class(c) && !cfg.ignored_class(c.class@)
                &&& app is Some && st.restore_apps.contains(app->0)
                &&& tab_get(cfg.apps, app->0) matches Some(a) ==> !a.is_dialog(c.title@)
                &&& 0 <= k < st.restore.len() && waits_for(st.restore[k], app->0)
                &&& forall|j: int|
                    0 <= j < st.restore.len() && waits_for(#[trigger] st.restore[j], app->0) ==> st.restore[k].instance
                        <= st.restore[j].instance
            },
            None => {
                let app = fitting_app(cfg, c);
                ||| has_no_class(c)
                ||| cfg.ignored_class(c.class@)
                ||| app is None
                ||| !st.restore_apps.contains(app->0)
                ||| (tab_get(cfg.apps, app->0) is Some && tab_get(cfg.apps, app->0)->0.is_dialog(c.title@))
                ||| forall|j: int| 0 <= j < st.restore.len() ==> !waits_for(#[trigger] st.restore[j], app->0)
            },
        },
{
    if let Some(app) = fitting_app(cfg, c) {
        law_matched(st.restore, Some(app), Seq::empty(), None);
        assert forall|k: int| 0 <= k < st.restore.len() implies !is_started(#[trigger] st.restore[k], Seq::empty()) by {}
    }
}

proof fn lemma_exits(
    restore: Seq<RestoreEntryView>,
    expected: Seq<ExpectedForeignView>,
    pending: Seq<PendingView>,
    pid: u32,
    i: int,
)
    requires
        0 <= i,
    ensures
        i <= restore.len() ==> {
            let k = launched_from(restore, pid, i);
            &&& i <= k <= restore.len()
            &&& k < restore.len() ==> restore[k].state == RestoreState::Launched(pid)
            &&& forall|j: int| i <= j < k ==> (#[trigger] restore[j]).state != RestoreState::Launched(pid)
        },
        i <= expected.len() ==> {
            let k = expected_pid_from(expected, pid, i);
            &&& i <= k <= expected.len()
            &&& k < expected.len() ==> expected[k].pid == pid
            &&& forall|j: int| i <= j < k ==> (#[trigger] expected[j]).pid != pid
        },
        i <= pending.len() ==> {
            let k = pending_pid_from(pending, pid, i);
            &&& i <= k <= pending.len()
            &&& k < pending.len() ==> pending[k].pid == pid
            &&& forall|j: int| i <= j < k ==> (#[trigger] pending[j]).pid != pid
        },
    decreases restore.len() + expected.len() + pending.len() - i,
{
    if i < restore.len() + expected.len() + pending.len() {
        lemma_exits(restore, expected, pending, pid, i + 1);
    }
}

/// A process that ended was started for the first record that was started as it; else for a window of no application
/// that is expected from it; else for an application; and for nothing that is awaited only where none of these is.
pub proof fn law_exit(
    restore: Seq<RestoreEntryView>,
    expected: Seq<ExpectedForeignView>,
    pending: Seq<PendingView>,
    pid: u32,
)
    requires
        pending.len() <= usize::MAX,
        expected.len() <= usize::MAX,
        restore.len() <= usize::MAX,
    ensures
        ({
            let recorded = exists|k: int| 0 <= k < restore.len() && (#[trigger] restore[k]).state == RestoreState::Launched(pid);
            let awaited = exists|k: int| 0 <= k < expected.len() && (#[trigger] expected[k]).pid == pid;
            match exit_of(restore, expected, pending, pid) {
                Exit::Restored(k) => k < restore.len() && restore[k as int].state == RestoreState::Launched(pid),
                Exit::Expected(k) => !recorded && k < expected.len() && expected[k as int].pid == pid,
                Exit::Pending(k) => !recorded && !awaited && k < pending.len() && pending[k as int].pid == pid,
                Exit::Unknown => !recorded && !awaited && forall|k: int|
                    0 <= k < pending.len() ==> (#[trigger] pending[k]).pid != pid,
            }
        }),
{
    lemma_exits(restore, expected, pending, pid, 0);
}

proof fn lemma_free_fit(p: PendingView, clients: Seq<Client>, exes: Seq<Option<Str>>, i: int)
    requires
        0 <= i <= clients.len(),
    ensures
        ({
            let r = free_fit_from(p, clients, exes, i);
            &&& i <= r <= clients.len()
            &&& r < clients.len() ==> app_of(clients[r]) is None && p.awaits(clients[r], Seq::empty(), exes[r])
            &&& forall|k: int|
                i <= k < r ==> app_of(#[trigger] clients[k]) is Some || !p.awaits(clients[k], Seq::empty(), exes[k])
        }),
    decreases clients.len() - i,
{
    if i < clients.len() && !(app_of(clients[i]) is None && p.awaits(clients[i], Seq::empty(), exes[i])) {
        lemma_free_fit(p, clients, exes, i + 1);
    }
}

/// The free window of an application that was started is the first window of no application that it awaits.
pub proof fn law_free_window(p: PendingView, clients: Seq<Client>, exes: Seq<Option<Str>>)
    ensures
        ({
            let r = free_fit_from(p, clients, exes, 0);
            &&& 0 <= r <= clients.len()
            &&& r < clients.len() ==> app_of(clients[r]) is None && p.awaits(clients[r], Seq::empty(), exes[r])
            &&& forall|k: int|
                0 <= k < r ==> app_of(#[trigger] clients[k]) is Some || !p.awaits(clients[k], Seq::empty(), exes[k])
        }),
{
    lemma_free_fit(p, clients, exes, 0);
}

proof fn lemma_known(cfg: ConfigView, s: Seq<PendingView>, n: int)
    requires
        0 <= n <= s.len(),
    ensures
        forall|p: PendingView| #[trigger]
            known_upto(cfg, s, n).contains(p) <==> tab_has(cfg.apps, p.app) && exists|k: int| 0 <= k < n && #[trigger] s[k] == p,
    decreases n,
{
    if n > 0 {
        lemma_known(cfg, s, n - 1);
        let a = known_upto(cfg, s, n - 1);
        let b = known_upto(cfg, s, n);
        assert forall|p: PendingView| #[trigger] b.contains(p) <==> tab_has(cfg.apps, p.app) && exists|k: int|
            0 <= k < n && #[trigger] s[k] == p by {
            lemma_push(a, b, s[n - 1], p);
            if a.contains(p) {
                let k = choose|k: int| 0 <= k < n - 1 && #[trigger] s[k] == p;
                assert(s[k] == p);
            }
            if exists|k: int| 0 <= k < n && #[trigger] s[k] == p {
                let k = choose|k: int| 0 <= k < n && #[trigger] s[k] == p;
                assert(k < n - 1 || p == s[n - 1]);
            }
        }
    }
}

/// Waiting goes on for exactly the applications that the configuration has.
pub proof fn law_known(cfg: ConfigView, s: Seq<PendingView>)
    ensures
        forall|p: PendingView| #[trigger]
            known_upto(cfg, s, s.len() as int).contains(p) <==> tab_has(cfg.apps, p.app) && s.contains(p),
{
    lemma_known(cfg, s, s.len() as int);
    assert forall|p: PendingView| #[trigger] known_upto(cfg, s, s.len() as int).contains(p) <==> tab_has(cfg.apps, p.app)
        && s.contains(p) by {
        if s.contains(p) {
            let k = choose|k: int| 0 <= k < s.len() && s[k] == p;
            assert(s[k] == p);
        }
    }
}

/// An expected window of no application comes to its desktop, into its rectangle, and is parked where it had none.
pub proof fn law_expected_comes(c: Client, e: ExpectedForeignView)
    ensures
        ({
            let ex = expected_exprs(c, e);
            &&& e.desktop is None ==> ex == seq![park(c.address@)]
            &&& e.desktop matches Some(n) ==> runs(ex, placing(c.address@, e.rect)) && (desk_of(c) == Some(n) || ex[0] == desk_move(
                c.address@,
                n,
            ))
        }),
{
    if let Some(n) = e.desktop {
        let head = if desk_of(c) != Some(n) {
            seq![desk_move(c.address@, n)]
        } else {
            Seq::empty()
        };
        let p = placing(c.address@, e.rect);
        assert(expected_exprs(c, e) == head + p);
        lemma_runs_more(head, p, p);
    }
}

/// A record of no workspace with a command comes back by it. Another one comes back with its application where that has
/// no window, and only by the record of the application with the least number: to its desktop and rectangle, or to
/// the pool where it names no desktop.
pub proof fn law_free_step(s: Seq<RestoreEntryView>, k: int, live: bool, current: u8)
    requires
        0 <= k < s.len(),
    ensures
        ({
            let least = forall|j: int| 0 <= j < s.len() && (#[trigger] s[j]).app == s[k].app ==> s[k].instance <= s[j].instance;
            let step = free_step_of(s, k, live, current);
            &&& s[k].cmd.len() > 0 <==> step == FreeStep::Own
            &&& s[k].cmd.len() == 0 && (live || !least) ==> step == FreeStep::Skip
            &&& s[k].cmd.len() == 0 && !live && least ==> step == match parsed(s[k].desktop, 255) {
                Some(n) => FreeStep::Launch { desktop: n as u8, target: Target::Free(Some(s[k].rect)) },
                None => FreeStep::Launch { desktop: current, target: Target::Pool },
            }
        }),
{
    lemma_first_record(s, s[k].app, 0, None);
    assert(s[k].app == s[k].app);
}

proof fn lemma_free_records(cfg: ConfigView, s: Seq<RestoreEntryView>, n: int)
    requires
        0 <= n <= s.len(),
    ensures
        forall|k: int| #[trigger] free_records_upto(cfg, s, n).contains(k) <==> 0 <= k < n && is_free_record(cfg, s[k]),
    decreases n,
{
    if n > 0 {
        lemma_free_records(cfg, s, n - 1);
        let a = free_records_upto(cfg, s, n - 1);
        let b = free_records_upto(cfg, s, n);
        assert forall|k: int| #[trigger] b.contains(k) <==> 0 <= k < n && is_free_record(cfg, s[k]) by {
            lemma_push(a, b, n - 1, k);
        }
    }
}

/// The records that come back outside workspaces are those that wait, were not hidden, and of whose workspaces none
/// describes the application any more.
pub proof fn law_free_records(cfg: ConfigView, s: Seq<RestoreEntryView>)
    ensures
        forall|k: int| #[trigger]
            free_records_upto(cfg, s, s.len() as int).contains(k) <==> 0 <= k < s.len() && s[k].state == RestoreState::Waiting
                && s[k].desktop != "hidden"@ && forall|w: Str| #[trigger]
                s[k].workspaces.contains(w) ==> !cfg.ws_has_app(w, s[k].app),
{
    lemma_free_records(cfg, s, s.len() as int);
    assert forall|k: int| #[trigger] free_records_upto(cfg, s, s.len() as int).contains(k) <==> 0 <= k < s.len() && s[k].state
        == RestoreState::Waiting && s[k].desktop != "hidden"@ && forall|w: Str| #[trigger]
        s[k].workspaces.contains(w) ==> !cfg.ws_has_app(w, s[k].app) by {
        if 0 <= k < s.len() {
            let m = members_of(cfg, s[k]);
            law_record_members(cfg, s[k]);
            if m.len() > 0 {
                assert(m.contains(m[0]));
            }
            if exists|w: Str| #[trigger] s[k].workspaces.contains(w) && cfg.ws_has_app(w, s[k].app) {
                let w = choose|w: Str| #[trigger] s[k].workspaces.contains(w) && cfg.ws_has_app(w, s[k].app);
                assert(m.contains(w));
            }
        }
    }
}

/// An application of the saved session without a desktop is started for the pool, where the user is; one with a desktop
/// is started there, at its place in the workspace where it has one.
pub proof fn law_session_start(st: StateView, cfg: ConfigView, app: Str, ws: Option<Str>, desktop: Option<u8>, current: u8)
    ensures
        ({
            let (t, (n, target)) = st.session_start(cfg, app, ws, desktop, current);
            &&& desktop is None ==> n == current && target == Target::Pool
            &&& desktop is Some ==> n == desktop->0 && target == (if ws is Some && t.place(cfg, ws->0, app) is Some {
                Target::Place(t.place(cfg, ws->0, app)->0)
            } else {
                Target::Free(None)
            })
        }),
{
}

/// After a window of the saved session came back, the focus goes only to a window of the main application of the workspace
/// active on the desktop of the user: where the window came to that desktop, is not of the main application, and
/// that window, the first one of it, stands there.
pub proof fn law_focus_back(st: StateView, cfg: ConfigView, home: Home, app: Str, clients: Seq<Client>, current: u8)
    ensures
        ({
            let ws = st.active_on(current)->0;
            let main = st.built(cfg, ws).main_in(cfg, ws);
            let first = first_of(windows_of(cfg, clients, main->0));
            let owed = home == Home::Desktop(current) && st.active_on(current) is Some && main is Some && main->0 != app && first is Some
                && desk_of(first->0) == Some(current);
            &&& st.main_back(cfg, home, app, clients, current) is Some <==> owed
            &&& owed ==> st.main_back(cfg, home, app, clients, current) == Some(first->0.address@)
        }),
{
}

proof fn lemma_open(s: Seq<RestoreEntryView>, app: Str, i: int)
    requires
        0 <= i <= s.len(),
    ensures
        open_from(s, app, i) <==> exists|k: int| i <= k < s.len() && (#[trigger] s[k]).app == app && s[k].is_open(),
    decreases s.len() - i,
{
    if i < s.len() {
        lemma_open(s, app, i + 1);
        if s[i].app == app && s[i].is_open() {
            assert(s[i].app == app);
        } else if open_from(s, app, i + 1) {
            let k = choose|k: int| i + 1 <= k < s.len() && (#[trigger] s[k]).app == app && s[k].is_open();
            assert(s[k].app == app);
        }
    }
}

/// Windows of an application are awaited as long as one of its records is waiting or started.
pub proof fn law_progress(s: Seq<RestoreEntryView>, app: Str)
    ensures
        open_from(s, app, 0) <==> exists|k: int|
            0 <= k < s.len() && (#[trigger] s[k]).app == app && s[k].state != RestoreState::Done,
{
    lemma_open(s, app, 0);
    if exists|k: int| 0 <= k < s.len() && (#[trigger] s[k]).app == app && s[k].state != RestoreState::Done {
        let k = choose|k: int| 0 <= k < s.len() && (#[trigger] s[k]).app == app && s[k].state != RestoreState::Done;
        assert(s[k].is_open());
    }
}

// ---- Those awaited ------------------------------------------------------------------------

proof fn lemma_pending_of(s: Seq<PendingView>, app: Str, i: int)
    requires
        0 <= i <= s.len(),
    ensures
        i <= of_app_from(s, app, i) <= s.len(),
        of_app_from(s, app, i) < s.len() ==> s[of_app_from(s, app, i)].app == app,
        forall|k: int| i <= k < of_app_from(s, app, i) ==> (#[trigger] s[k]).app != app,
    decreases s.len() - i,
{
    if i < s.len() && s[i].app != app {
        lemma_pending_of(s, app, i + 1);
    }
}

/// The start found for an application is one of it, and no earlier one is.
pub proof fn law_pending_of(s: Seq<PendingView>, app: Str)
    ensures
        0 <= of_app_from(s, app, 0) <= s.len(),
        of_app_from(s, app, 0) < s.len() ==> s[of_app_from(s, app, 0)].app == app,
        forall|k: int| 0 <= k < of_app_from(s, app, 0) ==> (#[trigger] s[k]).app != app,
{
    lemma_pending_of(s, app, 0);
}

/// The file of a program is read anew only while its process runs, and is never lost; nothing else changes.
pub proof fn law_refreshed(p: PendingView, exe: Option<Str>)
    ensures
        refreshed(p, exe) == (PendingView { exe: refreshed(p, exe).exe, ..p }),
        exe is None || p.exited ==> refreshed(p, exe).exe == p.exe,
        exe is Some && !p.exited ==> refreshed(p, exe).exe == exe,
{
}

/// An application can be started exactly where it has a command. Texts without marks go into the command as they are, each
/// argument at its place, and the environment is the one of the application in the workspace.
pub proof fn law_command(cfg: ConfigView, a: AppView, ws: Option<Str>, outer: Seq<(Str, Str)>)
    ensures
        command_of(cfg, a, ws, outer) is Some <==> a.cmd is Some,
        command_of(cfg, a, ws, outer) matches Some((cmd, args, cwd, env)) ==> {
            &&& is_plain(a.cmd->0) ==> cmd == a.cmd->0
            &&& args.len() == a.args.len()
            &&& forall|i: int| 0 <= i < args.len() && is_plain(a.args[i]) ==> #[trigger] args[i] == a.args[i]
            &&& cwd is Some <==> a.cwd is Some
            &&& a.cwd is Some && is_plain(a.cwd->0) ==> cwd == a.cwd
            &&& env == cfg.app_env(
                if ws is Some {
                    tab_get(cfg.workspaces, ws->0)
                } else {
                    None
                },
                a,
                outer,
            )
        },
{
    if let Some((cmd, args, cwd, env)) = command_of(cfg, a, ws, outer) {
        if is_plain(a.cmd->0) {
            law_plain_text_stays(a.cmd->0, env, outer);
        }
        if a.cwd is Some && is_plain(a.cwd->0) {
            law_plain_text_stays(a.cwd->0, env, outer);
        }
        assert forall|i: int| 0 <= i < args.len() && is_plain(a.args[i]) implies #[trigger] args[i] == a.args[i] by {
            law_plain_text_stays(a.args[i], env, outer);
        }
    }
}

/// The text has no mark: no `$`, and no `~` at its beginning.
pub open spec fn is_plain(s: Str) -> bool {
    &&& !s.contains('$')
    &&& s.len() == 0 || s[0] != '~'
}

} // verus!
