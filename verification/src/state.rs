//! The state of the daemon: the desktops, the layouts of workspaces and the plan of a restored session.
use std::collections::BTreeMap;
use vstd::prelude::*;

use crate::config::{app_at, count_apps, App, AppView, Config, ConfigView, Placement, PlacementView, WsAppView};
use crate::desks::{at_desk, desk_get, mviews};
use crate::names::Names;
use crate::pattern::{escape, escaped};
use crate::rect::PxRect;
use crate::table::{nest_at, nest_get, tab_del, tab_get, tab_has, tab_put, Dup, Table};
use crate::text::{copy_all, copy_opt, oview, same, views, Str};

verus! {

broadcast use crate::text::group_views;


/// A desktop: the workspaces in its list and the one that is active there.
#[derive(Debug, PartialEq)]
pub struct Desktop {
    pub workspaces: Vec<String>,
    pub active: Option<String>,
}

/// What a desktop is.
pub struct DesktopView {
    pub workspaces: Seq<Str>,
    pub active: Option<Str>,
}

impl View for Desktop {
    type V = DesktopView;

    open spec fn view(&self) -> DesktopView {
        DesktopView {
            workspaces: views(self.workspaces@),
            active: oview(self.active),
        }
    }
}

impl Dup for Desktop {
    fn dup(&self) -> (r: Self) {
        Desktop {
            workspaces: copy_all(self.workspaces.as_slice()),
            active: copy_opt(&self.active),
        }
    }
}

impl Clone for Desktop {
    fn clone(&self) -> (r: Self)
        ensures
            r@ == self@,
    {
        self.dup()
    }
}

impl Default for Desktop {
    fn default() -> (r: Self)
        ensures
            r@ == no_desktop(),
    {
        Desktop { workspaces: Vec::new(), active: None }
    }
}

/// A desktop without workspaces.
pub open spec fn no_desktop() -> DesktopView {
    DesktopView { workspaces: Seq::empty(), active: None }
}


/// A window that belongs to no application: where it stood and how its process was started.
#[derive(Debug, PartialEq)]
pub struct Foreign {
    pub rect: PxRect,
    pub cmd: Vec<String>,
    pub cwd: Option<String>,
}

/// What is known of such a window.
pub struct ForeignView {
    pub rect: PxRect,
    pub cmd: Seq<Str>,
    pub cwd: Option<Str>,
}

impl View for Foreign {
    type V = ForeignView;

    open spec fn view(&self) -> ForeignView {
        ForeignView {
            rect: self.rect,
            cmd: views(self.cmd@),
            cwd: oview(self.cwd),
        }
    }
}

impl Dup for Foreign {
    fn dup(&self) -> (r: Self) {
        Foreign {
            rect: self.rect,
            cmd: copy_all(self.cmd.as_slice()),
            cwd: copy_opt(&self.cwd),
        }
    }
}

impl Clone for Foreign {
    fn clone(&self) -> (r: Self)
        ensures
            r@ == self@,
    {
        self.dup()
    }
}

/// An application that the session added to a workspace. With a command it describes the application and
/// its place; without one it only gives a place to an application of the configuration.
#[derive(Debug, PartialEq)]
pub struct ExtraApp {
    pub class: Option<String>,
    pub cmd: Vec<String>,
    pub cwd: Option<String>,
    pub rect: PxRect,
}

/// What an added application says.
pub struct ExtraAppView {
    pub class: Option<Str>,
    pub cmd: Seq<Str>,
    pub cwd: Option<Str>,
    pub rect: PxRect,
}

impl View for ExtraApp {
    type V = ExtraAppView;

    open spec fn view(&self) -> ExtraAppView {
        ExtraAppView {
            class: oview(self.class),
            cmd: views(self.cmd@),
            cwd: oview(self.cwd),
            rect: self.rect,
        }
    }
}

impl Dup for ExtraApp {
    fn dup(&self) -> (r: Self) {
        ExtraApp {
            class: copy_opt(&self.class),
            cmd: copy_all(self.cmd.as_slice()),
            cwd: copy_opt(&self.cwd),
            rect: self.rect,
        }
    }
}

impl Clone for ExtraApp {
    fn clone(&self) -> (r: Self)
        ensures
            r@ == self@,
    {
        self.dup()
    }
}

impl Default for ExtraApp {
    fn default() -> (r: Self)
        ensures
            r@ == place_only(PxRect { x: 0, y: 0, w: 0, h: 0 }),
    {
        ExtraApp { class: None, cmd: Vec::new(), cwd: None, rect: PxRect { x: 0, y: 0, w: 0, h: 0 } }
    }
}

/// An added application that only gives a place.
pub open spec fn place_only(rect: PxRect) -> ExtraAppView {
    ExtraAppView { class: None, cmd: Seq::empty(), cwd: None, rect }
}

impl ExtraAppView {
    /// The application that a record with a command describes: its windows have exactly this class.
    pub open spec fn as_app(self) -> AppView {
        AppView {
            cmd: if self.cmd.len() > 0 {
                Some(self.cmd[0])
            } else {
                None
            },
            args: if self.cmd.len() > 0 {
                self.cmd.skip(1)
            } else {
                Seq::empty()
            },
            cwd: self.cwd,
            env: Seq::empty(),
            chain: None,
            class: match self.class {
                Some(c) => Some(exact_class(c)),
                None => None,
            },
            title: None,
            family: None,
            rect: None,
            dialog_title: None,
        }
    }
}

/// The expression that fits exactly this class.
pub open spec fn exact_class(class: Str) -> Str {
    "^"@ + escaped(class) + "$"@
}

/// The expression that fits exactly this class.
pub fn class_text(class: &str) -> (r: String)
    ensures
        r@ == exact_class(class@),
{
    let mut s = "^".to_owned();
    s.append(escape(class).as_str());
    s.append("$");
    s
}

impl ExtraApp {
    /// The application that a record with a command describes.
    pub fn to_app(&self) -> (r: App)
        ensures
            r@ == self@.as_app(),
    {
        let mut args: Vec<String> = Vec::new();
        let ghost tail = views(self.cmd@).skip(1);
        let mut i: usize = 1;
        while i < self.cmd.len()
            invariant
                1 <= i,
                i <= self.cmd.len() || self.cmd.len() == 0 && i == 1,
                tail == views(self.cmd@).skip(1),
                views(args@) == tail.take(i - 1),
            decreases self.cmd.len() - i,
        {
            args.push(self.cmd[i].clone());
            proof {
                assert(tail.take(i as int) =~= tail.take(i - 1).push(tail[i - 1]));
            }
            i = i + 1;
        }
        proof {
            if self.cmd.len() > 0 {
                assert(tail.take(i - 1) =~= tail);
            } else {
                assert(views(args@) =~= Seq::<Str>::empty());
            }
        }
        let cmd = if self.cmd.len() > 0 {
            Some(self.cmd[0].clone())
        } else {
            None
        };
        let class = match &self.class {
            Some(c) => Some(class_text(c.as_str())),
            None => None,
        };
        App {
            cmd,
            args,
            cwd: copy_opt(&self.cwd),
            env: Table::new(),
            chain: None,
            class,
            title: None,
            family: None,
            rect: None,
            dialog_title: None,
        }
    }
}

/// The place of an application in the layout of a workspace: a cell of the template or a rectangle.
#[derive(Debug, PartialEq)]
pub enum Place {
    Cell(String),
    Rect { rect: PxRect },
}

/// What a place is.
pub enum PlaceView {
    Cell(Str),
    Rect { rect: PxRect },
}

impl View for Place {
    type V = PlaceView;

    open spec fn view(&self) -> PlaceView {
        match *self {
            Place::Cell(c) => PlaceView::Cell(c@),
            Place::Rect { rect } => PlaceView::Rect { rect },
        }
    }
}

impl Dup for Place {
    fn dup(&self) -> (r: Self) {
        match self {
            Place::Cell(c) => Place::Cell(c.clone()),
            Place::Rect { rect } => Place::Rect { rect: *rect },
        }
    }
}

impl Clone for Place {
    fn clone(&self) -> (r: Self)
        ensures
            r@ == self@,
    {
        self.dup()
    }
}


/// The rectangle that the user gave to an application in a workspace, and the window it was read from;
/// a place out of a session has no such window yet.
#[derive(Debug, PartialEq)]
pub struct Moved {
    pub rect: PxRect,
    pub owner: Option<String>,
}

/// What a changed place is.
pub struct MovedView {
    pub rect: PxRect,
    pub owner: Option<Str>,
}

impl View for Moved {
    type V = MovedView;

    open spec fn view(&self) -> MovedView {
        MovedView {
            rect: self.rect,
            owner: oview(self.owner),
        }
    }
}

impl Dup for Moved {
    fn dup(&self) -> (r: Self) {
        Moved {
            rect: self.rect,
            owner: copy_opt(&self.owner),
        }
    }
}

impl Clone for Moved {
    fn clone(&self) -> (r: Self)
        ensures
            r@ == self@,
    {
        self.dup()
    }
}

/// The walk over the windows of an application that its key began: the application and the window to go
/// back to.
#[derive(Debug, PartialEq)]
pub struct Cycle {
    pub app: String,
    pub back: Option<String>,
}

/// What a walk is.
pub struct CycleView {
    pub app: Str,
    pub back: Option<Str>,
}

impl View for Cycle {
    type V = CycleView;

    open spec fn view(&self) -> CycleView {
        CycleView {
            app: self.app@,
            back: oview(self.back),
        }
    }
}

impl Dup for Cycle {
    fn dup(&self) -> (r: Self) {
        Cycle {
            app: self.app.clone(),
            back: copy_opt(&self.back),
        }
    }
}

impl Clone for Cycle {
    fn clone(&self) -> (r: Self)
        ensures
            r@ == self@,
    {
        self.dup()
    }
}

/// How far the record of a restored window has come.
#[derive(Debug, Clone, Copy, PartialEq, Eq, Structural)]
pub enum RestoreState {
    /// It waits for its workspace to be raised or for a window of its application.
    Waiting,
    /// This process was started for it.
    Launched(u32),
    Done,
}


/// A window of a saved session that is to come back.
#[derive(Debug, PartialEq)]
pub struct RestoreEntry {
    pub app: String,
    pub instance: u32,
    pub workspaces: Vec<String>,
    /// A desktop, `pool` or `hidden`.
    pub desktop: String,
    pub rect: PxRect,
    /// The rectangle of the window in each workspace.
    pub rects: Table<PxRect>,
    pub cmd: Vec<String>,
    pub cwd: Option<String>,
    pub state: RestoreState,
}

/// What such a window is.
pub struct RestoreEntryView {
    pub app: Str,
    pub instance: u32,
    pub workspaces: Seq<Str>,
    pub desktop: Str,
    pub rect: PxRect,
    pub rects: Seq<(Str, PxRect)>,
    pub cmd: Seq<Str>,
    pub cwd: Option<Str>,
    pub state: RestoreState,
}

impl View for RestoreEntry {
    type V = RestoreEntryView;

    open spec fn view(&self) -> RestoreEntryView {
        RestoreEntryView {
            app: self.app@,
            instance: self.instance,
            workspaces: views(self.workspaces@),
            desktop: self.desktop@,
            rect: self.rect,
            rects: self.rects@,
            cmd: views(self.cmd@),
            cwd: oview(self.cwd),
            state: self.state,
        }
    }
}

impl Dup for RestoreEntry {
    fn dup(&self) -> (r: Self) {
        RestoreEntry {
            app: self.app.clone(),
            instance: self.instance,
            workspaces: copy_all(self.workspaces.as_slice()),
            desktop: self.desktop.clone(),
            rect: self.rect,
            rects: self.rects.dup(),
            cmd: copy_all(self.cmd.as_slice()),
            cwd: copy_opt(&self.cwd),
            state: self.state,
        }
    }
}

impl Clone for RestoreEntry {
    fn clone(&self) -> (r: Self)
        ensures
            r@ == self@,
    {
        self.dup()
    }
}

impl RestoreEntryView {
    /// The window has not come back yet.
    pub open spec fn is_open(self) -> bool {
        self.state != RestoreState::Done
    }
}

impl RestoreEntry {
    /// The window has not come back yet.
    pub fn open(&self) -> (r: bool)
        ensures
            r == self@.is_open(),
    {
        match self.state {
            RestoreState::Done => false,
            _ => true,
        }
    }
}

/// The state of the daemon.
#[derive(Debug)]
pub struct State {
    pub desktops: BTreeMap<u8, Desktop>,
    /// Windows of no application, by address.
    pub foreign: Table<Foreign>,
    /// Applications that the session added, by workspace and name.
    pub extra: Table<Table<ExtraApp>>,
    /// The places of applications, by workspace and name of the entry; made when first needed.
    pub cells: Table<Table<Place>>,
    /// Places that the user changed, by workspace and name of the entry.
    pub moved: Table<Table<Moved>>,
    /// The main application of a workspace.
    pub main: Table<String>,
    /// The rectangle of a window in a workspace, by workspace and address.
    pub geom: Table<Table<PxRect>>,
    /// The window of a workspace that had the focus last.
    pub focus: Table<String>,
    pub cycle: Table<Cycle>,
    /// Workspaces to raise when the user comes to their desktop.
    pub lazy: BTreeMap<u8, String>,
    /// The workspace that was active on a desktop before the one that is.
    pub prev_active: BTreeMap<u8, String>,
    pub restore: Vec<RestoreEntry>,
    /// Applications that were started to bring windows of the session back.
    pub restore_apps: Names,
}

/// What the state is.
pub struct StateView {
    pub desktops: Map<u8, DesktopView>,
    pub foreign: Seq<(Str, ForeignView)>,
    pub extra: Seq<(Str, Seq<(Str, ExtraAppView)>)>,
    pub cells: Seq<(Str, Seq<(Str, PlaceView)>)>,
    pub moved: Seq<(Str, Seq<(Str, MovedView)>)>,
    pub main: Seq<(Str, Str)>,
    pub geom: Seq<(Str, Seq<(Str, PxRect)>)>,
    pub focus: Seq<(Str, Str)>,
    pub cycle: Seq<(Str, CycleView)>,
    pub lazy: Map<u8, Str>,
    pub prev_active: Map<u8, Str>,
    pub restore: Seq<RestoreEntryView>,
    pub restore_apps: Set<Str>,
}

impl View for State {
    type V = StateView;

    open spec fn view(&self) -> StateView {
        StateView {
            desktops: mviews(self.desktops@),
            foreign: self.foreign@,
            extra: self.extra@,
            cells: self.cells@,
            moved: self.moved@,
            main: self.main@,
            geom: self.geom@,
            focus: self.focus@,
            cycle: self.cycle@,
            lazy: mviews(self.lazy@),
            prev_active: mviews(self.prev_active@),
            restore: views(self.restore@),
            restore_apps: self.restore_apps@,
        }
    }
}

impl StateView {
    /// Nothing is known yet.
    pub open spec fn fresh() -> StateView {
        StateView {
            desktops: Map::empty(),
            foreign: Seq::empty(),
            extra: Seq::empty(),
            cells: Seq::empty(),
            moved: Seq::empty(),
            main: Seq::empty(),
            geom: Seq::empty(),
            focus: Seq::empty(),
            cycle: Seq::empty(),
            lazy: Map::empty(),
            prev_active: Map::empty(),
            restore: Seq::empty(),
            restore_apps: Set::empty(),
        }
    }
}

impl Default for State {
    fn default() -> (r: Self)
        ensures
            r@ == StateView::fresh(),
    {
        let desktops: BTreeMap<u8, Desktop> = BTreeMap::new();
        let lazy: BTreeMap<u8, String> = BTreeMap::new();
        let prev_active: BTreeMap<u8, String> = BTreeMap::new();
        proof {
            assert(mviews(desktops@) =~= Map::empty());
            assert(mviews(lazy@) =~= Map::empty());
        }
        State {
            desktops,
            foreign: Table::new(),
            extra: Table::new(),
            cells: Table::new(),
            moved: Table::new(),
            main: Table::new(),
            geom: Table::new(),
            focus: Table::new(),
            cycle: Table::new(),
            lazy,
            prev_active,
            restore: Vec::new(),
            restore_apps: Names::new(),
        }
    }
}

// ---- Layouts ------------------------------------------------------------------

/// The place that an entry of a workspace gives.
pub open spec fn place_of(p: PlacementView) -> PlaceView {
    match p {
        PlacementView::Cell(c) => PlaceView::Cell(c),
        PlacementView::Rect { rect } => PlaceView::Rect { rect: rect.px() },
    }
}

/// The places that the first `n` entries of a workspace give.
pub open spec fn places_upto(s: Seq<(Str, WsAppView)>, n: int) -> Seq<(Str, PlaceView)>
    decreases n,
{
    if n <= 0 {
        Seq::empty()
    } else {
        tab_put(places_upto(s, n - 1), s[n - 1].0, place_of(s[n - 1].1.place))
    }
}

/// The rectangle of a place in a workspace: that of the cell of its template, or its own.
pub open spec fn rect_at(cfg: ConfigView, ws: Str, p: PlaceView) -> Option<PxRect> {
    match p {
        PlaceView::Rect { rect } => Some(rect),
        PlaceView::Cell(c) => match tab_get(cfg.workspaces, ws) {
            None => None,
            Some(w) => match tab_get(cfg.templates, w.template) {
                None => None,
                Some(t) => match tab_get(t.cells, c) {
                    None => None,
                    Some(r) => Some(r.px()),
                },
            },
        },
    }
}

/// The place that an application has wherever no workspace says more.
pub open spec fn own_rect(cfg: ConfigView, app: Str) -> Option<PxRect> {
    match tab_get(cfg.apps, app) {
        None => None,
        Some(a) => match a.rect {
            None => None,
            Some(r) => Some(r.px()),
        },
    }
}

/// The first entry from `i` on that stands in this cell.
pub open spec fn in_cell_from(s: Seq<(Str, PlaceView)>, cell: Str, i: int) -> Option<Str>
    decreases s.len() - i,
{
    if i >= s.len() {
        None
    } else if s[i].1 == PlaceView::Cell(cell) {
        Some(s[i].0)
    } else {
        in_cell_from(s, cell, i + 1)
    }
}

impl StateView {
    /// The state once the layout of a workspace has been made out of the configuration.
    pub open spec fn built(self, cfg: ConfigView, ws: Str) -> StateView {
        if tab_has(self.cells, ws) || !tab_has(cfg.workspaces, ws) {
            self
        } else {
            let e = cfg.entries(ws);
            StateView { cells: tab_put(self.cells, ws, places_upto(e, e.len() as int)), ..self }
        }
    }

    /// The place of an entry in the layout of a workspace as it is described.
    pub open spec fn entry_rect(self, cfg: ConfigView, ws: Str, entry: Str) -> Option<PxRect> {
        match nest_get(self.cells, ws, entry) {
            None => None,
            Some(p) => rect_at(cfg, ws, p),
        }
    }

    /// The place of an application in a layout that was made: as described for the application itself,
    /// else for its family.
    pub open spec fn base(self, cfg: ConfigView, ws: Str, app: Str) -> Option<PxRect> {
        match self.entry_rect(cfg, ws, app) {
            Some(r) => Some(r),
            None => match cfg.family_of(app) {
                Some(f) => self.entry_rect(cfg, ws, f),
                None => None,
            },
        }
    }

    /// The place of an entry in a layout that was made: the rectangle that the user gave it, else the one
    /// described.
    pub open spec fn entry_now(self, cfg: ConfigView, ws: Str, entry: Str) -> Option<PxRect> {
        match nest_get(self.moved, ws, entry) {
            Some(m) => Some(m.rect),
            None => self.entry_rect(cfg, ws, entry),
        }
    }

    /// The place of an application in a layout that was made: its own, else that of its family, else the
    /// place it has wherever no workspace says more.
    pub open spec fn place(self, cfg: ConfigView, ws: Str, app: Str) -> Option<PxRect> {
        match self.entry_now(cfg, ws, app) {
            Some(r) => Some(r),
            None => match (match cfg.family_of(app) {
                Some(f) => self.entry_now(cfg, ws, f),
                None => None,
            }) {
                Some(r) => Some(r),
                None => own_rect(cfg, app),
            },
        }
    }

    /// The main application in a layout that was made: the one that took the main place, else the one
    /// that the configuration names, else the one in the main cell of the template.
    pub open spec fn main_in(self, cfg: ConfigView, ws: Str) -> Option<Str> {
        match tab_get(self.main, ws) {
            Some(m) => Some(m),
            None => match tab_get(cfg.workspaces, ws) {
                None => None,
                Some(w) => match w.main {
                    Some(m) => Some(m),
                    None => match tab_get(cfg.templates, w.template) {
                        None => None,
                        Some(t) => in_cell_from(nest_at(self.cells, ws), t.main, 0),
                    },
                },
            },
        }
    }

    /// The workspace that is active on a desktop.
    pub open spec fn active_on(self, n: u8) -> Option<Str> {
        match at_desk(self.desktops, n) {
            Some(d) => d.active,
            None => None,
        }
    }
}

fn in_cell(cells: &Table<Place>, cell: &str) -> (r: Option<String>)
    ensures
        oview(r) == in_cell_from(cells@, cell@, 0),
{
    let n: usize = cells.len();
    let mut i: usize = 0;
    while i < n
        invariant
            i <= n,
            n == cells@.len(),
            in_cell_from(cells@, cell@, 0) == in_cell_from(cells@, cell@, i as int),
        decreases n - i,
    {
        if let Place::Cell(c) = cells.at(i) {
            if same(c.as_str(), cell) {
                return Some(cells.key(i).clone());
            }
        }
        i = i + 1;
    }
    None
}

impl State {
    /// Make the layout of a workspace out of the configuration, where it has not been made; gives a copy
    /// of it.
    pub fn cells_of(&mut self, cfg: &Config, ws: &str) -> (r: Table<Place>)
        ensures
            final(self)@ == old(self)@.built(cfg@, ws@),
            r@ == nest_at(final(self)@.cells, ws@),
    {
        self.build(cfg, ws);
        match self.cells.get(ws) {
            Some(t) => t.dup(),
            None => Table::new(),
        }
    }

    fn build(&mut self, cfg: &Config, ws: &str)
        ensures
            final(self)@ == old(self)@.built(cfg@, ws@),
    {
        if self.cells.contains_key(ws) {
            return ;
        }
        if let Some(w) = cfg.workspaces.get(ws) {
            let mut t: Table<Place> = Table::new();
            let n: usize = count_apps(&w.apps);
            let mut i: usize = 0;
            while i < n
                invariant
                    i <= n,
                    n == w@.apps.len(),
                    t@ == places_upto(w@.apps, i as int),
                decreases n - i,
            {
                let (k, e) = app_at(&w.apps, i);
                let p = match &e.place {
                    Placement::Cell(c) => Place::Cell(c.clone()),
                    Placement::Rect { rect } => Place::Rect { rect: rect.resolve() },
                };
                t.insert(k.clone(), p);
                i = i + 1;
            }
            self.cells.insert(ws.to_owned(), t);
        }
    }

    fn entry_rect(&self, cfg: &Config, ws: &str, entry: &str) -> (r: Option<PxRect>)
        ensures
            r == self@.entry_rect(cfg@, ws@, entry@),
    {
        match self.cells.nested(ws, entry) {
            None => None,
            Some(Place::Rect { rect }) => Some(*rect),
            Some(Place::Cell(c)) => match cfg.workspaces.get(ws) {
                None => None,
                Some(w) => match cfg.templates.get(w.template.as_str()) {
                    None => None,
                    Some(t) => match t.cells.get(c.as_str()) {
                        None => None,
                        Some(r) => Some(r.resolve()),
                    },
                },
            },
        }
    }

    fn entry_now(&self, cfg: &Config, ws: &str, entry: &str) -> (r: Option<PxRect>)
        ensures
            r == self@.entry_now(cfg@, ws@, entry@),
    {
        match self.moved.nested(ws, entry) {
            Some(m) => Some(m.rect),
            None => self.entry_rect(cfg, ws, entry),
        }
    }

    /// The place of an application in a workspace as it is described.
    pub fn base_rect(&mut self, cfg: &Config, ws: &str, app: &str) -> (r: Option<PxRect>)
        ensures
            final(self)@ == old(self)@.built(cfg@, ws@),
            r == final(self)@.base(cfg@, ws@, app@),
    {
        self.build(cfg, ws);
        match self.entry_rect(cfg, ws, app) {
            Some(r) => Some(r),
            None => match cfg.family_of(app) {
                Some(f) => self.entry_rect(cfg, ws, f),
                None => None,
            },
        }
    }

    /// The place of an application wherever no workspace says more.
    pub fn app_rect(cfg: &Config, app: &str) -> (r: Option<PxRect>)
        ensures
            r == own_rect(cfg@, app@),
    {
        match cfg.apps.get(app) {
            None => None,
            Some(a) => match &a.rect {
                None => None,
                Some(r) => Some(r.resolve()),
            },
        }
    }

    /// The place of an application in a workspace as it is now.
    pub fn rect_for(&mut self, cfg: &Config, ws: &str, app: &str) -> (r: Option<PxRect>)
        ensures
            final(self)@ == old(self)@.built(cfg@, ws@),
            r == final(self)@.place(cfg@, ws@, app@),
    {
        self.build(cfg, ws);
        if let Some(r) = self.entry_now(cfg, ws, app) {
            return Some(r);
        }
        if let Some(f) = cfg.family_of(app) {
            if let Some(r) = self.entry_now(cfg, ws, f) {
                return Some(r);
            }
        }
        State::app_rect(cfg, app)
    }

    /// The main application of a workspace.
    pub fn main_app(&mut self, cfg: &Config, ws: &str) -> (r: Option<String>)
        ensures
            final(self)@ == old(self)@.built(cfg@, ws@),
            oview(r) == final(self)@.main_in(cfg@, ws@),
    {
        self.build(cfg, ws);
        if let Some(m) = self.main.get(ws) {
            return Some(m.clone());
        }
        let w = match cfg.workspaces.get(ws) {
            Some(w) => w,
            None => return None,
        };
        if let Some(m) = &w.main {
            return Some(m.clone());
        }
        let t = match cfg.templates.get(w.template.as_str()) {
            Some(t) => t,
            None => return None,
        };
        match self.cells.get(ws) {
            None => None,
            Some(cells) => in_cell(cells, t.main.as_str()),
        }
    }

    /// The workspace that is active on a desktop.
    pub fn active_on(&self, n: u8) -> (r: Option<String>)
        ensures
            oview(r) == self@.active_on(n),
    {
        match desk_get(&self.desktops, n) {
            Some(d) => copy_opt(&d.active),
            None => None,
        }
    }

    /// Forget the layout of a workspace: the places, the main application, what the user changed and the
    /// rectangles of windows.
    pub fn reset_layout(&mut self, ws: &str)
        ensures
            final(self)@ == (StateView {
                cells: tab_del(old(self)@.cells, ws@),
                moved: tab_del(old(self)@.moved, ws@),
                main: tab_del(old(self)@.main, ws@),
                geom: tab_del(old(self)@.geom, ws@),
                ..old(self)@
            }),
    {
        self.cells.remove(ws);
        self.moved.remove(ws);
        self.main.remove(ws);
        self.geom.remove(ws);
    }
}

} // verus!
