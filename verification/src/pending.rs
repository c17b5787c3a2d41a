//! Windows that are awaited: of applications that were started, and of processes of a saved session.
use vstd::prelude::*;

use crate::config::{AppView, Config, ConfigView};
use crate::exprs::{desk_move, park, placing, push_desk_move, push_park, push_place};
use crate::hypr::{app_of, desk_number, Client};
use crate::lookup::{expanded, AppCommand};
use crate::pattern::Pattern;
use crate::rect::PxRect;
use crate::restore::{awaited_by, awaited_entry, first_of_app, is_first_record, match_restore, started_from};
use crate::state::{RestoreEntry, RestoreEntryView, RestoreState, State, StateView};
use crate::table::{alike_all, dup_opt, tab_get, tab_has, Dup, Table};
use crate::text::{copy_all, copy_opt, opt_str, oview, parse_num, parsed, same, same_opt, views, Str};
use crate::windows::{class_like, class_matches, classless, fits_matcher, has_no_class, matcher_fits};

verus! {

broadcast use crate::text::group_views;

/// Where a window goes once it appears.
#[derive(Debug, Clone, Copy, PartialEq, Eq, Structural)]
pub enum Target {
    /// The place of its application on the desktop.
    Place(PxRect),
    /// Outside the places of a workspace: the place of its application by itself, else the middle of the
    /// screen.
    Free(Option<PxRect>),
    /// Parked.
    Pool,
}

/// An application that was started and whose window is not there yet. It waits without a deadline: only
/// events end it, a window or the end of the process.
#[derive(Debug)]
pub struct Pending {
    pub app: String,
    pub workspace: Option<String>,
    pub desktop: u8,
    pub pid: u32,
    /// The file of the program, as far as it is known.
    pub exe: Option<String>,
    /// The name of the command; the class of a window may look like it.
    pub cmd_base: String,
    /// What the class of its windows looks like.
    pub class_re: Option<Pattern>,
    /// What the title of its windows looks like.
    pub title_re: Option<Pattern>,
    /// The process ended and there was no window.
    pub exited: bool,
    pub target: Target,
    /// The window gets the focus.
    pub focus: bool,
}

/// What it says.
pub struct PendingView {
    pub app: Str,
    pub workspace: Option<Str>,
    pub desktop: u8,
    pub pid: u32,
    pub exe: Option<Str>,
    pub cmd_base: Str,
    pub class_re: Option<Str>,
    pub title_re: Option<Str>,
    pub exited: bool,
    pub target: Target,
    pub focus: bool,
}

impl View for Pending {
    type V = PendingView;

    open spec fn view(&self) -> PendingView {
        PendingView {
            app: self.app@,
            workspace: oview(self.workspace),
            desktop: self.desktop,
            pid: self.pid,
            exe: oview(self.exe),
            cmd_base: self.cmd_base@,
            class_re: oview(self.class_re),
            title_re: oview(self.title_re),
            exited: self.exited,
            target: self.target,
            focus: self.focus,
        }
    }
}

impl Dup for Pending {
    fn dup(&self) -> (r: Self) {
        Pending {
            app: self.app.clone(),
            workspace: copy_opt(&self.workspace),
            desktop: self.desktop,
            pid: self.pid,
            exe: copy_opt(&self.exe),
            cmd_base: self.cmd_base.clone(),
            class_re: dup_opt(&self.class_re),
            title_re: dup_opt(&self.title_re),
            exited: self.exited,
            target: self.target,
            focus: self.focus,
        }
    }
}

/// A window of no application that was started for a saved session.
#[derive(Debug)]
pub struct ExpectedForeign {
    pub cmd: Vec<String>,
    pub cwd: Option<String>,
    pub desktop: Option<u8>,
    pub rect: PxRect,
    /// The process that was started for it.
    pub pid: u32,
}

/// What it says.
pub struct ExpectedForeignView {
    pub cmd: Seq<Str>,
    pub cwd: Option<Str>,
    pub desktop: Option<u8>,
    pub rect: PxRect,
    pub pid: u32,
}

impl View for ExpectedForeign {
    type V = ExpectedForeignView;

    open spec fn view(&self) -> ExpectedForeignView {
        ExpectedForeignView {
            cmd: views(self.cmd@),
            cwd: oview(self.cwd),
            desktop: self.desktop,
            rect: self.rect,
            pid: self.pid,
        }
    }
}

impl Dup for ExpectedForeign {
    fn dup(&self) -> (r: Self) {
        ExpectedForeign {
            cmd: copy_all(self.cmd.as_slice()),
            cwd: copy_opt(&self.cwd),
            desktop: self.desktop,
            rect: self.rect,
            pid: self.pid,
        }
    }
}

// ---- Which window it is -------------------------------------------------------

impl PendingView {
    /// The window looks like the one that is awaited: it has a class, and it is of the process that was
    /// started, looks like the windows of the application, is of the same program, or its class looks like
    /// the name of the command. `exe` is the file that the process of the window runs.
    pub open spec fn awaits(self, c: Client, pids: Seq<i32>, exe: Option<Str>) -> bool {
        &&& !has_no_class(c)
        &&& pids.contains(self.pid as i32) || fits_matcher(self.class_re, self.title_re, c) || (self.exe is Some
            && self.exe == exe) || class_like(c.class@, self.cmd_base)
    }
}

fn has_pid(pids: &[i32], p: i32) -> (r: bool)
    ensures
        r == pids@.contains(p),
{
    let mut i: usize = 0;
    while i < pids.len()
        invariant
            i <= pids.len(),
            forall|k: int| 0 <= k < i ==> #[trigger] pids@[k] != p,
        decreases pids.len() - i,
    {
        if pids[i] == p {
            return true;
        }
        i = i + 1;
    }
    false
}

fn pattern_ref(o: &Option<Pattern>) -> (r: Option<&Pattern>)
    ensures
        oview(r) == oview(*o),
{
    match o {
        Some(p) => Some(p),
        None => None,
    }
}

impl Pending {
    /// The window looks like the one that is awaited. `ancestors` are its process and those above it,
    /// `exe` is the file that its process runs.
    pub fn matches(&self, c: &Client, ancestors: &[i32], exe: Option<&str>) -> (r: bool)
        ensures
            r == self@.awaits(*c, ancestors@, oview(exe)),
    {
        if classless(c) {
            return false;
        }
        if has_pid(ancestors, self.pid as i32) {
            return true;
        }
        if matcher_fits(pattern_ref(&self.class_re), pattern_ref(&self.title_re), c) {
            return true;
        }
        if self.exe.is_some() && same_opt(opt_str(&self.exe), exe) {
            return true;
        }
        class_matches(c.class.as_str(), self.cmd_base.as_str())
    }
}

/// The first from `i` on whose process is one of these; their number where there is none.
pub open spec fn by_pid_from(s: Seq<PendingView>, pids: Seq<i32>, i: int) -> int
    decreases s.len() - i,
{
    if i >= s.len() {
        s.len() as int
    } else if pids.contains(s[i].pid as i32) {
        i
    } else {
        by_pid_from(s, pids, i + 1)
    }
}

fn by_pid(pending: &[Pending], ancestors: &[i32]) -> (r: usize)
    ensures
        r == by_pid_from(views(pending@), ancestors@, 0),
        r <= pending.len(),
{
    let ghost s = views(pending@);
    let mut i: usize = 0;
    while i < pending.len()
        invariant
            i <= pending.len(),
            s == views(pending@),
            by_pid_from(s, ancestors@, 0) == by_pid_from(s, ancestors@, i as int),
        decreases pending.len() - i,
    {
        assert(s[i as int] == pending@[i as int]@);
        if has_pid(ancestors, pending[i].pid as i32) {
            return i;
        }
        i = i + 1;
    }
    i
}

/// The first from `i` on that awaits this window; their number where there is none.
pub open spec fn fitting_from(s: Seq<PendingView>, c: Client, pids: Seq<i32>, exe: Option<Str>, i: int) -> int
    decreases s.len() - i,
{
    if i >= s.len() {
        s.len() as int
    } else if s[i].awaits(c, pids, exe) {
        i
    } else {
        fitting_from(s, c, pids, exe, i + 1)
    }
}

fn fitting(pending: &[Pending], c: &Client, ancestors: &[i32], exe: Option<&str>) -> (r: usize)
    ensures
        r == fitting_from(views(pending@), *c, ancestors@, oview(exe), 0),
        r <= pending.len(),
{
    let ghost s = views(pending@);
    let mut i: usize = 0;
    while i < pending.len()
        invariant
            i <= pending.len(),
            s == views(pending@),
            fitting_from(s, *c, ancestors@, oview(exe), 0) == fitting_from(
                s,
                *c,
                ancestors@,
                oview(exe),
                i as int,
            ),
        decreases pending.len() - i,
    {
        assert(s[i as int] == pending@[i as int]@);
        if pending[i].matches(c, ancestors, exe) {
            return i;
        }
        i = i + 1;
    }
    i
}

/// The first from `i` on with this command and directory; their number where there is none.
pub open spec fn expected_from(s: Seq<ExpectedForeignView>, cmd: Seq<Str>, cwd: Option<Str>, i: int) -> int
    decreases s.len() - i,
{
    if i >= s.len() {
        s.len() as int
    } else if s[i].cmd == cmd && s[i].cwd == cwd {
        i
    } else {
        expected_from(s, cmd, cwd, i + 1)
    }
}

fn expected_at(expected: &[ExpectedForeign], cmd: &[String], cwd: Option<&str>) -> (r: usize)
    ensures
        r == expected_from(views(expected@), views(cmd@), oview(cwd), 0),
        r <= expected.len(),
{
    let ghost s = views(expected@);
    let mut i: usize = 0;
    while i < expected.len()
        invariant
            i <= expected.len(),
            s == views(expected@),
            expected_from(s, views(cmd@), oview(cwd), 0) == expected_from(s, views(cmd@), oview(cwd), i as int),
        decreases expected.len() - i,
    {
        assert(s[i as int] == expected@[i as int]@);
        if alike_all(expected[i].cmd.as_slice(), cmd) && same_opt(opt_str(&expected[i].cwd), cwd) {
            return i;
        }
        i = i + 1;
    }
    i
}

/// What a window that has just opened is.
#[derive(Debug, Clone, Copy, PartialEq, Eq, Structural)]
pub enum Opened {
    /// The window of the application that was started, by its number.
    Pending(usize),
    /// It fulfils a record of the saved session: its process was started for it.
    Restored(usize),
    /// A window of no application of the saved session.
    Expected(usize),
    /// It fulfils a record: its application, started for the saved session, opened it.
    Awaited(usize),
    /// None of these: it may be taken into a workspace.
    New,
}

/// What a window is by its process alone; a window without a class is nothing.
pub open spec fn opened_by_pid(
    pending: Seq<PendingView>,
    restore: Seq<RestoreEntryView>,
    c: Client,
    pids: Seq<i32>,
) -> Option<Opened> {
    let i = by_pid_from(pending, pids, 0);
    let k = started_from(restore, pids, 0);
    if has_no_class(c) {
        None
    } else if i < pending.len() {
        Some(Opened::Pending(i as usize))
    } else if k < restore.len() {
        Some(Opened::Restored(k as usize))
    } else {
        None
    }
}

/// What a window is by its process alone. This comes before all else: otherwise the window of a process of
/// the saved session would go to an application whose windows look like it.
pub fn open_by_pid(pending: &[Pending], restore: &[RestoreEntry], c: &Client, ancestors: &[i32]) -> (r: Option<Opened>)
    ensures
        r == opened_by_pid(views(pending@), views(restore@), *c, ancestors@),
{
    if classless(c) {
        return None;
    }
    let i: usize = by_pid(pending, ancestors);
    assert(views(pending@).len() == pending.len());
    assert(views(restore@).len() == restore.len());
    if i < pending.len() {
        return Some(Opened::Pending(i));
    }
    match match_restore(restore, None, ancestors, None) {
        Some(k) => Some(Opened::Restored(k)),
        None => None,
    }
}

/// What a window is by all else: its command, its looks, its application.
pub open spec fn opened_by_look(
    cfg: ConfigView,
    st: StateView,
    pending: Seq<PendingView>,
    expected: Seq<ExpectedForeignView>,
    c: Client,
    pids: Seq<i32>,
    exe: Option<Str>,
    cmd: Seq<Str>,
    cwd: Option<Str>,
) -> Opened {
    let e = expected_from(expected, cmd, cwd, 0);
    let i = fitting_from(pending, c, pids, exe, 0);
    if e < expected.len() {
        Opened::Expected(e as usize)
    } else if i < pending.len() {
        Opened::Pending(i as usize)
    } else {
        match awaited_by(cfg, st, c) {
            Some(k) => Opened::Awaited(k as usize),
            None => Opened::New,
        }
    }
}

/// What a window is whose process alone did not tell. `exe`, `cmd` and `cwd` are what its process says.
pub fn open_by_look(
    cfg: &Config,
    st: &State,
    pending: &[Pending],
    expected: &[ExpectedForeign],
    c: &Client,
    ancestors: &[i32],
    exe: Option<&str>,
    cmd: &[String],
    cwd: Option<&str>,
) -> (r: Opened)
    ensures
        r == opened_by_look(
            cfg@,
            st@,
            views(pending@),
            views(expected@),
            *c,
            ancestors@,
            oview(exe),
            views(cmd@),
            oview(cwd),
        ),
{
    let e: usize = expected_at(expected, cmd, cwd);
    assert(views(pending@).len() == pending.len());
    assert(views(expected@).len() == expected.len());
    if e < expected.len() {
        return Opened::Expected(e);
    }
    let i: usize = fitting(pending, c, ancestors, exe);
    if i < pending.len() {
        return Opened::Pending(i);
    }
    match awaited_entry(cfg, st, c) {
        Some(k) => Opened::Awaited(k),
        None => Opened::New,
    }
}

/// The expressions that put a window of no application where the saved session had it.
pub open spec fn expected_exprs(c: Client, e: ExpectedForeignView) -> Seq<Str> {
    match e.desktop {
        Some(n) => (if desk_number(c.workspace.name@) != Some(n) {
            seq![desk_move(c.address@, n)]
        } else {
            Seq::empty()
        }) + placing(c.address@, e.rect),
        None => seq![park(c.address@)],
    }
}

/// The expressions that put a window of no application where the saved session had it.
pub fn expected_ex(c: &Client, e: &ExpectedForeign) -> (r: Vec<String>)
    ensures
        views(r@) == expected_exprs(*c, e@),
{
    let mut ex: Vec<String> = Vec::new();
    match e.desktop {
        Some(n) => {
            if c.desktop() != Some(n) {
                push_desk_move(&mut ex, c.address.as_str(), n);
            }
            push_place(&mut ex, c.address.as_str(), e.rect);
            proof {
                assert(views(ex@) =~= expected_exprs(*c, e@));
            }
        },
        None => {
            push_park(&mut ex, c.address.as_str());
            proof {
                assert(views(ex@) =~= expected_exprs(*c, e@));
            }
        },
    }
    ex
}

// ---- What becomes of waiting --------------------------------------------------

/// What to do with an application that was started.
#[derive(Debug, Clone, Copy, PartialEq, Eq, Structural)]
pub enum PendingStep {
    /// It is being started: wait for the window, start no second instance.
    Wait,
    /// Take the window that is there.
    Adopt,
    /// Remember that the process ended, and wait for the first window that fits.
    MarkExited,
    /// Give up and start the application again.
    Restart,
}

/// What to do with an application that was started. `exited`: its process ended; `window`: there is a free
/// window that fits; `key`: its key was pressed, else its process has just ended. Nothing has a deadline,
/// and a key is never left without an answer once the process ended.
pub fn pending_step(exited: bool, window: bool, key: bool) -> (r: PendingStep)
    ensures
        r == if !key {
            if window {
                PendingStep::Adopt
            } else {
                PendingStep::MarkExited
            }
        } else if !exited {
            PendingStep::Wait
        } else if window {
            PendingStep::Adopt
        } else {
            PendingStep::Restart
        },
{
    match (key, exited, window) {
        (false, _, true) => PendingStep::Adopt,
        (false, _, false) => PendingStep::MarkExited,
        (true, false, _) => PendingStep::Wait,
        (true, true, true) => PendingStep::Adopt,
        (true, true, false) => PendingStep::Restart,
    }
}

/// The first from `i` on of an application; their number where there is none.
pub open spec fn of_app_from(s: Seq<PendingView>, app: Str, i: int) -> int
    decreases s.len() - i,
{
    if i >= s.len() {
        s.len() as int
    } else if s[i].app == app {
        i
    } else {
        of_app_from(s, app, i + 1)
    }
}

/// The first one of an application; their number where there is none.
pub fn pending_of(pending: &[Pending], app: &str) -> (r: usize)
    ensures
        r == of_app_from(views(pending@), app@, 0),
        r <= pending.len(),
{
    let ghost s = views(pending@);
    let mut i: usize = 0;
    while i < pending.len()
        invariant
            i <= pending.len(),
            s == views(pending@),
            of_app_from(s, app@, 0) == of_app_from(s, app@, i as int),
        decreases pending.len() - i,
    {
        assert(s[i as int] == pending@[i as int]@);
        if same(pending[i].app.as_str(), app) {
            return i;
        }
        i = i + 1;
    }
    i
}

/// The first window from `i` on of no application that is awaited; their number where there is none.
/// `exes` are the files that the processes of the windows run.
pub open spec fn free_fit_from(p: PendingView, clients: Seq<Client>, exes: Seq<Option<Str>>, i: int) -> int
    decreases clients.len() - i,
{
    if i >= clients.len() {
        clients.len() as int
    } else if app_of(clients[i]) is None && p.awaits(clients[i], Seq::empty(), exes[i]) {
        i
    } else {
        free_fit_from(p, clients, exes, i + 1)
    }
}

/// What a list of optional texts says.
pub open spec fn oviews(s: Seq<Option<String>>) -> Seq<Option<Str>> {
    s.map_values(|o: Option<String>| oview(o))
}

/// The first window of no application that is awaited; their number where there is none. `exes` are the
/// files that the processes of the windows run.
pub fn free_window_for(p: &Pending, clients: &[Client], exes: &[Option<String>]) -> (r: usize)
    requires
        exes.len() == clients.len(),
    ensures
        r == free_fit_from(p@, clients@, oviews(exes@), 0),
        r <= clients.len(),
{
    let none: Vec<i32> = Vec::new();
    proof {
        assert(none@ =~= Seq::<i32>::empty());
    }
    let ghost e = oviews(exes@);
    let mut i: usize = 0;
    while i < clients.len()
        invariant
            i <= clients.len(),
            exes.len() == clients.len(),
            e == oviews(exes@),
            none@ == Seq::<i32>::empty(),
            free_fit_from(p@, clients@, e, 0) == free_fit_from(p@, clients@, e, i as int),
        decreases clients.len() - i,
    {
        assert(e[i as int] == oview(exes@[i as int]));
        if clients[i].app().is_none() && p.matches(&clients[i], none.as_slice(), opt_str(&exes[i])) {
            return i;
        }
        i = i + 1;
    }
    i
}

/// Those of the first `n` whose application the configuration has.
pub open spec fn known_upto(cfg: ConfigView, s: Seq<PendingView>, n: int) -> Seq<PendingView>
    decreases n,
{
    if n <= 0 {
        Seq::empty()
    } else if tab_has(cfg.apps, s[n - 1].app) {
        known_upto(cfg, s, n - 1).push(s[n - 1])
    } else {
        known_upto(cfg, s, n - 1)
    }
}

/// Give up waiting for windows of applications that the configuration does not have.
pub fn drop_stale_pending(cfg: &Config, pending: Vec<Pending>) -> (r: Vec<Pending>)
    ensures
        views(r@) == known_upto(cfg@, views(pending@), pending.len() as int),
{
    let ghost s = views(pending@);
    let mut out: Vec<Pending> = Vec::new();
    let mut i: usize = 0;
    while i < pending.len()
        invariant
            i <= pending.len(),
            s == views(pending@),
            views(out@) == known_upto(cfg@, s, i as int),
        decreases pending.len() - i,
    {
        if cfg.apps.contains_key(pending[i].app.as_str()) {
            out.push(pending[i].dup());
        }
        i = i + 1;
    }
    out
}

/// One with the file of its program read anew: a script may have started the program itself by then.
pub open spec fn refreshed(p: PendingView, exe: Option<Str>) -> PendingView {
    if p.exited || exe is None {
        p
    } else {
        PendingView { exe, ..p }
    }
}

/// Note the files that the processes run, as far as they run. `exes` are those files.
pub fn refresh_exes(pending: &mut Vec<Pending>, exes: &[Option<String>])
    requires
        exes.len() == old(pending).len(),
    ensures
        views(final(pending)@) == Seq::new(
            old(pending)@.len(),
            |i: int| refreshed(views(old(pending)@)[i], oviews(exes@)[i]),
        ),
{
    let ghost s = views(pending@);
    let ghost e = oviews(exes@);
    let mut i: usize = 0;
    while i < pending.len()
        invariant
            i <= pending.len(),
            pending.len() == old(pending).len(),
            exes.len() == pending.len(),
            s == views(old(pending)@),
            e == oviews(exes@),
            forall|k: int| 0 <= k < i ==> (#[trigger] pending@[k])@ == refreshed(s[k], e[k]),
            forall|k: int| i <= k < pending.len() ==> #[trigger] pending@[k] == old(pending)@[k],
        decreases pending.len() - i,
    {
        assert(s[i as int] == pending@[i as int]@);
        assert(e[i as int] == oview(exes@[i as int]));
        if !pending[i].exited && exes[i].is_some() {
            let mut p = pending[i].dup();
            p.exe = copy_opt(&exes[i]);
            pending.set(i, p);
        }
        i = i + 1;
    }
    proof {
        assert(views(pending@) =~= Seq::new(s.len(), |k: int| refreshed(s[k], e[k])));
    }
}

/// What the process that ended was started for.
#[derive(Debug, Clone, Copy, PartialEq, Eq, Structural)]
pub enum Exit {
    /// A record of the saved session, by its number: the record is given up.
    Restored(usize),
    /// A window of no application of the saved session: it is given up.
    Expected(usize),
    /// An application.
    Pending(usize),
    /// Nothing that is awaited.
    Unknown,
}

/// The first record from `i` on for which this process was started; their number where there is none.
pub open spec fn launched_from(s: Seq<RestoreEntryView>, pid: u32, i: int) -> int
    decreases s.len() - i,
{
    if i >= s.len() {
        s.len() as int
    } else if s[i].state == RestoreState::Launched(pid) {
        i
    } else {
        launched_from(s, pid, i + 1)
    }
}

/// The first from `i` on for which this process was started; their number where there is none.
pub open spec fn expected_pid_from(s: Seq<ExpectedForeignView>, pid: u32, i: int) -> int
    decreases s.len() - i,
{
    if i >= s.len() {
        s.len() as int
    } else if s[i].pid == pid {
        i
    } else {
        expected_pid_from(s, pid, i + 1)
    }
}

/// The first from `i` on for which this process was started; their number where there is none.
pub open spec fn pending_pid_from(s: Seq<PendingView>, pid: u32, i: int) -> int
    decreases s.len() - i,
{
    if i >= s.len() {
        s.len() as int
    } else if s[i].pid == pid {
        i
    } else {
        pending_pid_from(s, pid, i + 1)
    }
}

/// What the process that ended was started for.
pub open spec fn exit_of(
    restore: Seq<RestoreEntryView>,
    expected: Seq<ExpectedForeignView>,
    pending: Seq<PendingView>,
    pid: u32,
) -> Exit {
    let a = launched_from(restore, pid, 0);
    let b = expected_pid_from(expected, pid, 0);
    let c = pending_pid_from(pending, pid, 0);
    if a < restore.len() {
        Exit::Restored(a as usize)
    } else if b < expected.len() {
        Exit::Expected(b as usize)
    } else if c < pending.len() {
        Exit::Pending(c as usize)
    } else {
        Exit::Unknown
    }
}

/// What the process that ended was started for.
pub fn on_child_exit(restore: &[RestoreEntry], expected: &[ExpectedForeign], pending: &[Pending], pid: u32) -> (r: Exit)
    ensures
        r == exit_of(views(restore@), views(expected@), views(pending@), pid),
{
    let ghost rs = views(restore@);
    let ghost es = views(expected@);
    let ghost ps = views(pending@);
    let mut i: usize = 0;
    while i < restore.len()
        invariant
            i <= restore.len(),
            rs == views(restore@),
            launched_from(rs, pid, 0) == launched_from(rs, pid, i as int),
        decreases restore.len() - i,
    {
        assert(rs[i as int] == restore@[i as int]@);
        if let RestoreState::Launched(p) = restore[i].state {
            if p == pid {
                return Exit::Restored(i);
            }
        }
        i = i + 1;
    }
    let mut j: usize = 0;
    while j < expected.len()
        invariant
            j <= expected.len(),
            rs == views(restore@),
            es == views(expected@),
            launched_from(rs, pid, 0) == restore.len(),
            expected_pid_from(es, pid, 0) == expected_pid_from(es, pid, j as int),
        decreases expected.len() - j,
    {
        assert(es[j as int] == expected@[j as int]@);
        if expected[j].pid == pid {
            return Exit::Expected(j);
        }
        j = j + 1;
    }
    let mut k: usize = 0;
    while k < pending.len()
        invariant
            k <= pending.len(),
            rs == views(restore@),
            es == views(expected@),
            ps == views(pending@),
            launched_from(rs, pid, 0) == restore.len(),
            expected_pid_from(es, pid, 0) == expected.len(),
            pending_pid_from(ps, pid, 0) == pending_pid_from(ps, pid, k as int),
        decreases pending.len() - k,
    {
        assert(ps[k as int] == pending@[k as int]@);
        if pending[k].pid == pid {
            return Exit::Pending(k);
        }
        k = k + 1;
    }
    Exit::Unknown
}

// ---- Starting -----------------------------------------------------------------

/// How to start an application: program, arguments, directory, environment.
pub open spec fn command_of(cfg: ConfigView, a: AppView, ws: Option<Str>, outer: Seq<(Str, Str)>) -> Option<
    (Str, Seq<Str>, Option<Str>, Seq<(Str, Str)>),
> {
    let w = match ws {
        Some(w) => tab_get(cfg.workspaces, w),
        None => None,
    };
    let env = cfg.app_env(w, a, outer);
    match a.cmd {
        None => None,
        Some(cmd) => Some(
            (
                expanded(cmd, env, outer),
                a.args.map_values(|x: Str| expanded(x, env, outer)),
                match a.cwd {
                    Some(d) => Some(expanded(d, env, outer)),
                    None => None,
                },
                env,
            ),
        ),
    }
}

/// The fault of starting an application that the configuration does not have.
pub open spec fn not_described(app: Str) -> Str {
    "приложение "@ + app + " не описано"@
}

/// The fault of starting an application that the configuration does not have.
pub fn make_not_described(app: &str) -> (r: String)
    ensures
        r@ == not_described(app@),
{
    let mut s = "приложение ".to_owned();
    s.append(app);
    s.append(" не описано");
    s
}

/// What a command says.
pub open spec fn command_view(c: AppCommand) -> (Str, Seq<Str>, Option<Str>, Seq<(Str, Str)>) {
    (c.0@, views(c.1@), oview(c.2), c.3@)
}

/// How to start an application in a workspace; none for one without a command, whose windows are only
/// gathered. `outer` is the environment of the daemon.
pub fn spawn_command(cfg: &Config, app: &str, workspace: Option<&str>, outer: &Table<String>) -> (r: Result<
    Option<AppCommand>,
    String,
>)
    ensures
        match r {
            Ok(c) => tab_get(cfg@.apps, app@) matches Some(a) && (match c {
                Some(c) => Some(command_view(c)),
                None => None,
            }) == command_of(cfg@, a, oview(workspace), outer@),
            Err(e) => tab_get(cfg@.apps, app@) is None && e@ == not_described(app@),
        },
{
    let a = match cfg.apps.get(app) {
        Some(a) => a,
        None => return Err(make_not_described(app)),
    };
    let ws = match workspace {
        Some(w) => cfg.workspaces.get(w),
        None => None,
    };
    Ok(cfg.app_command(ws, a, outer))
}

/// What is awaited after an application was started; the fault of its expressions where they have one.
/// `exe` is the file of its program, `cmd_base` the name of its command.
pub fn new_pending(
    cfg: &Config,
    app: &str,
    workspace: Option<&str>,
    desktop: u8,
    pid: u32,
    exe: Option<String>,
    cmd_base: String,
    target: Target,
    focus: bool,
) -> (r: Result<Pending, String>)
    ensures
        match tab_get(cfg@.apps, app@) {
            None => r matches Err(e) && e@ == not_described(app@),
            Some(a) => match a.matchers() {
                Err(e) => r matches Err(x) && x@ == e,
                Ok(m) => r matches Ok(p) && p@ == (PendingView {
                    app: app@,
                    workspace: oview(workspace),
                    desktop,
                    pid,
                    exe: oview(exe),
                    cmd_base: cmd_base@,
                    class_re: match m {
                        Some((c, _)) => Some(c),
                        None => None,
                    },
                    title_re: match m {
                        Some((_, t)) => t,
                        None => None,
                    },
                    exited: false,
                    target,
                    focus,
                }),
            },
        },
{
    let a = match cfg.apps.get(app) {
        Some(a) => a,
        None => return Err(make_not_described(app)),
    };
    let (class_re, title_re) = match a.matchers() {
        Ok(Some((c, t))) => (Some(c), t),
        Ok(None) => (None, None),
        Err(e) => return Err(e),
    };
    let workspace = match workspace {
        Some(w) => Some(w.to_owned()),
        None => None,
    };
    Ok(
        Pending {
            app: app.to_owned(),
            workspace,
            desktop,
            pid,
            exe,
            cmd_base,
            class_re,
            title_re,
            exited: false,
            target,
            focus,
        },
    )
}

/// How a window of a saved session that belongs to no workspace comes back.
#[derive(Debug, Clone, Copy, PartialEq, Eq, Structural)]
pub enum FreeStep {
    /// By its own command.
    Own,
    /// Its application is started; its window goes to this desktop.
    Launch { desktop: u8, target: Target },
    /// Not now: the application has windows, or another record comes first.
    Skip,
}

/// How a window of a saved session that belongs to no workspace comes back. `live` says that its application
/// has windows, `current` is the desktop of the user.
pub open spec fn free_step_of(s: Seq<RestoreEntryView>, k: int, live: bool, current: u8) -> FreeStep {
    if s[k].cmd.len() > 0 {
        FreeStep::Own
    } else if live || !is_first_record(s, k) {
        FreeStep::Skip
    } else {
        match parsed(s[k].desktop, 255) {
            Some(n) => FreeStep::Launch { desktop: n as u8, target: Target::Free(Some(s[k].rect)) },
            None => FreeStep::Launch { desktop: current, target: Target::Pool },
        }
    }
}

/// How record `k`, which belongs to no workspace, comes back. `live` says that its application has windows,
/// `current` is the desktop of the user.
pub fn free_step(entries: &[RestoreEntry], k: usize, live: bool, current: u8) -> (r: FreeStep)
    requires
        k < entries.len(),
    ensures
        r == free_step_of(views(entries@), k as int, live, current),
{
    let e = &entries[k];
    assert(views(entries@)[k as int] == e@);
    assert(e@.cmd.len() == e.cmd.len());
    if e.cmd.len() > 0 {
        FreeStep::Own
    } else if live || !first_of_app(entries, k) {
        FreeStep::Skip
    } else {
        match parse_num(e.desktop.as_str(), 255) {
            Some(n) => FreeStep::Launch { desktop: n as u8, target: Target::Free(Some(e.rect)) },
            None => FreeStep::Launch { desktop: current, target: Target::Pool },
        }
    }
}

impl StateView {
    /// Where an application of a saved session is started and its window goes: on the desktop of the record,
    /// at its place in the workspace; parked where the record names no desktop.
    pub open spec fn session_start(self, cfg: ConfigView, app: Str, ws: Option<Str>, desktop: Option<u8>, current: u8) -> (
        StateView,
        (u8, Target),
    ) {
        match (desktop, ws) {
            (None, _) => (self, (current, Target::Pool)),
            (Some(n), None) => (self, (n, Target::Free(None))),
            (Some(n), Some(w)) => {
                let st = self.built(cfg, w);
                (
                    st,
                    (
                        n,
                        match st.place(cfg, w, app) {
                            Some(r) => Target::Place(r),
                            None => Target::Free(None),
                        },
                    ),
                )
            },
        }
    }
}

/// Where an application of a saved session is started, and where its window goes. `current` is the desktop of
/// the user.
pub fn session_target(
    cfg: &Config,
    st: &mut State,
    app: &str,
    workspace: Option<&str>,
    desktop: Option<u8>,
    current: u8,
) -> (r: (u8, Target))
    ensures
        old(st)@.session_start(cfg@, app@, oview(workspace), desktop, current) == (final(st)@, r),
{
    let n: u8 = match desktop {
        Some(n) => n,
        None => return (current, Target::Pool),
    };
    match workspace {
        None => (n, Target::Free(None)),
        Some(w) => match st.rect_for(cfg, w, app) {
            Some(r) => (n, Target::Place(r)),
            None => (n, Target::Free(None)),
        },
    }
}

} // verus!
