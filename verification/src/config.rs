//! The configuration: applications, workspaces, templates and keys, and its checks.
use indexmap::IndexMap;
use vstd::prelude::*;

use crate::rect::Rect;
use crate::table::{dup_all, dup_opt, tab_get, tab_has, tab_keys, Alike, Dup, Table};
use crate::text::{copy_all, copy_opt, opt_str, oview, same, same_opt, trimmed, views, Str};

verus! {

broadcast use crate::text::group_views;


/// A template of places: named cells and the main one.
#[derive(Debug, PartialEq)]
pub struct Template {
    pub main: String,
    pub cells: Table<Rect>,
}

/// What a template says.
pub struct TemplateView {
    pub main: Str,
    pub cells: Seq<(Str, Rect)>,
}

impl View for Template {
    type V = TemplateView;

    open spec fn view(&self) -> TemplateView {
        TemplateView {
            main: self.main@,
            cells: self.cells@,
        }
    }
}

impl Dup for Template {
    fn dup(&self) -> (r: Self) {
        Template {
            main: self.main.clone(),
            cells: self.cells.dup(),
        }
    }
}

/// An application: how to start it and how to know its windows. A variant names its family; an
/// application without `cmd` opens no windows and only gathers those that fit its class.
#[derive(Debug, PartialEq)]
pub struct App {
    pub cmd: Option<String>,
    pub args: Vec<String>,
    pub cwd: Option<String>,
    pub env: Table<String>,
    /// The chain of keys that calls the application.
    pub chain: Option<String>,
    /// The class of its windows; the whole class has to fit.
    pub class: Option<String>,
    /// The title of its windows, as written.
    pub title: Option<String>,
    /// The family that this application is a variant of.
    pub family: Option<String>,
    /// The place of its window where the active workspace says nothing of it.
    pub rect: Option<Rect>,
    /// The title of its dialogs: such a window is not taken into a workspace.
    pub dialog_title: Option<String>,
}

/// What an application says.
pub struct AppView {
    pub cmd: Option<Str>,
    pub args: Seq<Str>,
    pub cwd: Option<Str>,
    pub env: Seq<(Str, Str)>,
    pub chain: Option<Str>,
    pub class: Option<Str>,
    pub title: Option<Str>,
    pub family: Option<Str>,
    pub rect: Option<Rect>,
    pub dialog_title: Option<Str>,
}

impl View for App {
    type V = AppView;

    open spec fn view(&self) -> AppView {
        AppView {
            cmd: oview(self.cmd),
            args: views(self.args@),
            cwd: oview(self.cwd),
            env: self.env@,
            chain: oview(self.chain),
            class: oview(self.class),
            title: oview(self.title),
            family: oview(self.family),
            rect: oview(self.rect),
            dialog_title: oview(self.dialog_title),
        }
    }
}

impl Dup for App {
    fn dup(&self) -> (r: Self) {
        App {
            cmd: copy_opt(&self.cmd),
            args: copy_all(self.args.as_slice()),
            cwd: copy_opt(&self.cwd),
            env: self.env.dup(),
            chain: copy_opt(&self.chain),
            class: copy_opt(&self.class),
            title: copy_opt(&self.title),
            family: copy_opt(&self.family),
            rect: dup_opt(&self.rect),
            dialog_title: copy_opt(&self.dialog_title),
        }
    }
}

impl Clone for App {
    fn clone(&self) -> (r: Self)
        ensures
            r@ == self@,
    {
        self.dup()
    }
}

/// The workspace that is raised when the daemon starts.
#[derive(Debug, PartialEq)]
pub struct Startup {
    pub workspace: String,
    pub desktop: u8,
}

/// What the startup says.
pub struct StartupView {
    pub workspace: Str,
    pub desktop: u8,
}

impl View for Startup {
    type V = StartupView;

    open spec fn view(&self) -> StartupView {
        StartupView {
            workspace: self.workspace@,
            desktop: self.desktop,
        }
    }
}

impl Dup for Startup {
    fn dup(&self) -> (r: Self) {
        Startup {
            workspace: self.workspace.clone(),
            desktop: self.desktop,
        }
    }
}

/// The place of an application in a workspace: a cell of the template or a rectangle of its own.
#[derive(Debug, PartialEq)]
pub enum Placement {
    Cell(String),
    Rect { rect: Rect },
}

/// What a place says.
pub enum PlacementView {
    Cell(Str),
    Rect { rect: Rect },
}

impl View for Placement {
    type V = PlacementView;

    open spec fn view(&self) -> PlacementView {
        match *self {
            Placement::Cell(c) => PlacementView::Cell(c@),
            Placement::Rect { rect } => PlacementView::Rect { rect },
        }
    }
}

impl Dup for Placement {
    fn dup(&self) -> (r: Self) {
        match self {
            Placement::Cell(c) => Placement::Cell(c.clone()),
            Placement::Rect { rect } => Placement::Rect { rect: *rect },
        }
    }
}

impl Alike for Placement {
    fn alike(&self, other: &Self) -> (r: bool) {
        match (self, other) {
            (Placement::Cell(a), Placement::Cell(b)) => same(a.as_str(), b.as_str()),
            (Placement::Rect { rect: a }, Placement::Rect { rect: b }) => *a == *b,
            _ => false,
        }
    }
}


/// The entry of an application in a workspace.
#[derive(Debug, PartialEq)]
pub struct WsApp {
    pub place: Placement,
    /// The key of the application in this workspace.
    pub chain: Option<String>,
    /// The mode of the application in this workspace.
    pub mode: Option<String>,
}

/// What an entry of a workspace says.
pub struct WsAppView {
    pub place: PlacementView,
    pub chain: Option<Str>,
    pub mode: Option<Str>,
}

impl View for WsApp {
    type V = WsAppView;

    open spec fn view(&self) -> WsAppView {
        WsAppView {
            place: self.place@,
            chain: oview(self.chain),
            mode: oview(self.mode),
        }
    }
}

impl Dup for WsApp {
    fn dup(&self) -> (r: Self) {
        WsApp {
            place: self.place.dup(),
            chain: copy_opt(&self.chain),
            mode: copy_opt(&self.mode),
        }
    }
}

impl Alike for WsApp {
    fn alike(&self, other: &Self) -> (r: bool) {
        self.place.alike(&other.place)
            && same_opt(opt_str(&self.chain), opt_str(&other.chain))
            && same_opt(opt_str(&self.mode), opt_str(&other.mode))
    }
}

impl Clone for WsApp {
    fn clone(&self) -> (r: Self)
        ensures
            r@ == self@,
    {
        self.dup()
    }
}

impl WsApp {
    /// An entry that only gives a place.
    pub fn at(place: Placement) -> (r: WsApp)
        ensures
            r@ == (WsAppView { place: place@, chain: None, mode: None }),
    {
        WsApp { place, chain: None, mode: None }
    }
}

// ---- The applications of a workspace ------------------------------------------

/// A map that keeps the order in which its keys came (`indexmap::IndexMap`).
#[verifier::external_type_specification]
#[verifier::external_body]
#[verifier::reject_recursive_types(K)]
#[verifier::reject_recursive_types(V)]
#[verifier::reject_recursive_types(S)]
pub struct ExIndexMap<K, V, S>(indexmap::IndexMap<K, V, S>);

/// The entries of such a map, in its order.
pub uninterp spec fn entries_of(m: IndexMap<String, WsApp>) -> Seq<(Seq<char>, WsAppView)>;

/// `IndexMap::new`: a map without entries.
#[verifier::external_body]
fn apps_new() -> (r: IndexMap<String, WsApp>)
    ensures
        entries_of(r) == Seq::<(Seq<char>, WsAppView)>::empty(),
{
    IndexMap::new()
}

/// `IndexMap::len`: the number of entries.
#[verifier::external_body]
fn apps_len(m: &IndexMap<String, WsApp>) -> (r: usize)
    ensures
        r == entries_of(*m).len(),
{
    m.len()
}

/// `IndexMap::get_index`: the entry at a place, in the order of the map.
#[verifier::external_body]
fn apps_get_index(m: &IndexMap<String, WsApp>, i: usize) -> (r: Option<(&String, &WsApp)>)
    ensures
        r is Some <==> i < entries_of(*m).len(),
        r matches Some((k, v)) ==> entries_of(*m)[i as int] == (k@, v@),
{
    m.get_index(i)
}

/// `IndexMap::get_index_of`: the place of a key; no two entries have the same key.
#[verifier::external_body]
fn apps_get_index_of(m: &IndexMap<String, WsApp>, k: &str) -> (r: Option<usize>)
    ensures
        match r {
            Some(i) => i < entries_of(*m).len() && entries_of(*m)[i as int].0 == k@ && forall|j: int|
                0 <= j < entries_of(*m).len() && j != i ==> #[trigger] entries_of(*m)[j].0 != k@,
            None => forall|j: int| 0 <= j < entries_of(*m).len() ==> #[trigger] entries_of(*m)[j].0 != k@,
        },
{
    m.get_index_of(k)
}

/// The entries after a key got a value: at its own place where it was there, else at the end.
pub open spec fn entries_put(s: Seq<(Str, WsAppView)>, k: Str, v: WsAppView) -> Seq<(Str, WsAppView)> {
    let i = crate::table::tab_find(s, k, 0);
    if 0 <= i < s.len() {
        s.update(i, (k, v))
    } else {
        s.push((k, v))
    }
}

/// `IndexMap::insert`: a key that is there keeps its place and gets the new value, another one comes
/// last.
#[verifier::external_body]
fn apps_insert(m: &mut IndexMap<String, WsApp>, k: String, v: WsApp)
    ensures
        entries_of(*final(m)) == entries_put(entries_of(*old(m)), k@, v@),
{
    m.insert(k, v);
}

/// The applications of a workspace, in the order of the file.
pub fn new_apps() -> (r: IndexMap<String, WsApp>)
    ensures
        entries_of(r) == Seq::<(Str, WsAppView)>::empty(),
{
    apps_new()
}

/// The number of applications of a workspace.
pub fn count_apps(m: &IndexMap<String, WsApp>) -> (r: usize)
    ensures
        r == entries_of(*m).len(),
{
    apps_len(m)
}

/// The entry of an application of a workspace.
pub fn find_app<'a>(m: &'a IndexMap<String, WsApp>, k: &str) -> (r: Option<&'a WsApp>)
    ensures
        oview(r) == tab_get(entries_of(*m), k@),
        r is Some == tab_has(entries_of(*m), k@),
{
    let ghost s = entries_of(*m);
    proof {
        crate::table::lemma_find(s, k@, 0);
    }
    match apps_get_index_of(m, k) {
        Some(i) => match apps_get_index(m, i) {
            Some((_, v)) => Some(v),
            None => None,
        },
        None => None,
    }
}

/// The application of a workspace at a place.
pub fn app_at(m: &IndexMap<String, WsApp>, i: usize) -> (r: (&String, &WsApp))
    requires
        i < entries_of(*m).len(),
    ensures
        r.0@ == entries_of(*m)[i as int].0,
        r.1@ == entries_of(*m)[i as int].1,
{
    apps_get_index(m, i).unwrap()
}

/// Put an application into a workspace.
pub fn put_app(m: &mut IndexMap<String, WsApp>, k: String, v: WsApp)
    ensures
        entries_of(*final(m)) == entries_put(entries_of(*old(m)), k@, v@),
{
    apps_insert(m, k, v)
}

/// A copy of the applications of a workspace.
pub fn dup_apps(m: &IndexMap<String, WsApp>) -> (r: IndexMap<String, WsApp>)
    ensures
        entries_of(r) == entries_of(*m),
{
    let mut out = new_apps();
    let n: usize = count_apps(m);
    let mut i: usize = 0;
    while i < n
        invariant
            i <= n,
            n == entries_of(*m).len(),
            entries_of(out) == entries_of(*m).take(i as int),
        decreases n - i,
    {
        let (k, v) = app_at(m, i);
        let place = apps_get_index_of(m, k.as_str());
        proof {
            let s = entries_of(*m);
            assert(place == Some(i)) by {
                assert(s[i as int].0 == k@);
            }
            crate::table::lemma_find(s.take(i as int), k@, 0);
            let f = crate::table::tab_find(s.take(i as int), k@, 0);
            if f < i {
                assert(s.take(i as int)[f].0 == k@);
                assert(s[f].0 == k@);
            }
            assert(s.take(i + 1) =~= s.take(i as int).push(s[i as int]));
        }
        put_app(&mut out, k.clone(), v.dup());
        i = i + 1;
    }
    proof {
        assert(entries_of(*m).take(i as int) =~= entries_of(*m));
    }
    out
}

/// Two workspaces hold the same entries, in whatever order.
pub open spec fn same_entries(a: Seq<(Str, WsAppView)>, b: Seq<(Str, WsAppView)>) -> bool {
    a.len() == b.len() && forall|i: int| 0 <= i < a.len() ==> tab_get(b, (#[trigger] a[i]).0) == Some(a[i].1)
}

/// Two workspaces hold the same entries, in whatever order.
pub fn same_apps(a: &IndexMap<String, WsApp>, b: &IndexMap<String, WsApp>) -> (r: bool)
    ensures
        r == same_entries(entries_of(*a), entries_of(*b)),
{
    let n: usize = count_apps(a);
    if n != count_apps(b) {
        return false;
    }
    let mut i: usize = 0;
    while i < n
        invariant
            i <= n,
            n == entries_of(*a).len(),
            n == entries_of(*b).len(),
            forall|k: int|
                0 <= k < i ==> tab_get(entries_of(*b), (#[trigger] entries_of(*a)[k]).0) == Some(
                    entries_of(*a)[k].1,
                ),
        decreases n - i,
    {
        let (k, v) = app_at(a, i);
        let ghost e = entries_of(*a)[i as int];
        match find_app(b, k.as_str()) {
            Some(w) => {
                if !v.alike(w) {
                    return false;
                }
            },
            None => {
                return false;
            },
        }
        i = i + 1;
    }
    true
}

/// The names of the applications of a workspace, in the order of the file.
pub fn app_names(m: &IndexMap<String, WsApp>) -> (r: Vec<String>)
    ensures
        views(r@) == tab_keys(entries_of(*m)),
{
    let mut out: Vec<String> = Vec::new();
    let n: usize = count_apps(m);
    let mut i: usize = 0;
    while i < n
        invariant
            i <= n,
            n == entries_of(*m).len(),
            views(out@) == tab_keys(entries_of(*m)).take(i as int),
        decreases n - i,
    {
        out.push(app_at(m, i).0.clone());
        proof {
            let s = tab_keys(entries_of(*m));
            assert(s.take(i + 1) =~= s.take(i as int).push(s[i as int]));
        }
        i = i + 1;
    }
    proof {
        let s = tab_keys(entries_of(*m));
        assert(s.take(i as int) =~= s);
    }
    out
}

// ---- Workspaces ---------------------------------------------------------------

/// What the key of an application does in a workspace.
#[derive(Debug, Clone, Copy, PartialEq, Eq, Structural)]
pub enum Mode {
    /// The windows of the application take the main place, the former main one takes theirs.
    Swap,
    /// The windows stay where they are; only the depth and the focus change.
    Stack,
}

/// A workspace: a template, applications by places, the main one, an icon, a chain.
#[derive(Debug, PartialEq)]
pub struct Workspace {
    pub template: String,
    pub main: Option<String>,
    pub icon: Option<String>,
    pub chain: Option<String>,
    pub env: Table<String>,
    /// What the key of an application does: `swap` or `stack`.
    pub mode: String,
    /// The applications in the order of the file.
    pub apps: IndexMap<String, WsApp>,
}

/// What a workspace says.
pub struct WorkspaceView {
    pub template: Str,
    pub main: Option<Str>,
    pub icon: Option<Str>,
    pub chain: Option<Str>,
    pub env: Seq<(Str, Str)>,
    pub mode: Str,
    pub apps: Seq<(Str, WsAppView)>,
}

impl View for Workspace {
    type V = WorkspaceView;

    open spec fn view(&self) -> WorkspaceView {
        WorkspaceView {
            template: self.template@,
            main: oview(self.main),
            icon: oview(self.icon),
            chain: oview(self.chain),
            env: self.env@,
            mode: self.mode@,
            apps: entries_of(self.apps),
        }
    }
}

impl Dup for Workspace {
    fn dup(&self) -> (r: Self) {
        Workspace {
            template: self.template.clone(),
            main: copy_opt(&self.main),
            icon: copy_opt(&self.icon),
            chain: copy_opt(&self.chain),
            env: self.env.dup(),
            mode: self.mode.clone(),
            apps: dup_apps(&self.apps),
        }
    }
}

/// What a mode is called.
pub open spec fn mode_of(name: Str) -> Mode {
    if name == "stack"@ {
        Mode::Stack
    } else {
        Mode::Swap
    }
}

pub(crate) fn read_mode(name: &str) -> (r: Mode)
    ensures
        r == mode_of(name@),
{
    if same(name, "stack") {
        Mode::Stack
    } else {
        Mode::Swap
    }
}

/// Two sections of a workspace say the same; the order of the applications does not count.
pub open spec fn same_section(a: WorkspaceView, b: WorkspaceView) -> bool {
    &&& a.template == b.template
    &&& a.main == b.main
    &&& a.icon == b.icon
    &&& a.chain == b.chain
    &&& a.env == b.env
    &&& a.mode == b.mode
    &&& same_entries(a.apps, b.apps)
}

impl Workspace {
    /// The mode of the workspace.
    pub fn mode(&self) -> (r: Mode)
        ensures
            r == mode_of(self@.mode),
    {
        read_mode(self.mode.as_str())
    }

    /// The section says the same as another one.
    pub fn same_as(&self, other: &Workspace) -> (r: bool)
        ensures
            r == same_section(self@, other@),
    {
        same(self.template.as_str(), other.template.as_str()) && same_opt(opt_str(&self.main), opt_str(&other.main))
            && same_opt(opt_str(&self.icon), opt_str(&other.icon)) && same_opt(opt_str(&self.chain), opt_str(&other.chain))
            && self.env.alike(&other.env) && same(self.mode.as_str(), other.mode.as_str()) && same_apps(
            &self.apps,
            &other.apps,
        )
    }
}

// ---- Keys ---------------------------------------------------------------------

/// Chains of the service commands and combinations that no binding may take.
#[derive(Debug, PartialEq)]
pub struct Keys {
    pub save_session: Option<String>,
    pub save_workspace: Option<String>,
    pub sessions: Option<String>,
    pub next_workspace: Option<String>,
    pub reserved: Vec<String>,
    pub reserved_desc: Table<String>,
}

/// What the keys say.
pub struct KeysView {
    pub save_session: Option<Str>,
    pub save_workspace: Option<Str>,
    pub sessions: Option<Str>,
    pub next_workspace: Option<Str>,
    pub reserved: Seq<Str>,
    pub reserved_desc: Seq<(Str, Str)>,
}

impl View for Keys {
    type V = KeysView;

    open spec fn view(&self) -> KeysView {
        KeysView {
            save_session: oview(self.save_session),
            save_workspace: oview(self.save_workspace),
            sessions: oview(self.sessions),
            next_workspace: oview(self.next_workspace),
            reserved: views(self.reserved@),
            reserved_desc: self.reserved_desc@,
        }
    }
}

impl Dup for Keys {
    fn dup(&self) -> (r: Self) {
        Keys {
            save_session: copy_opt(&self.save_session),
            save_workspace: copy_opt(&self.save_workspace),
            sessions: copy_opt(&self.sessions),
            next_workspace: copy_opt(&self.next_workspace),
            reserved: copy_all(self.reserved.as_slice()),
            reserved_desc: self.reserved_desc.dup(),
        }
    }
}

/// A half of the work area.
#[derive(Debug, PartialEq)]
pub struct HalfAction {
    pub half: String,
}

/// What such an action says.
pub struct HalfActionView {
    pub half: Str,
}

impl View for HalfAction {
    type V = HalfActionView;

    open spec fn view(&self) -> HalfActionView {
        HalfActionView {
            half: self.half@,
        }
    }
}

impl Dup for HalfAction {
    fn dup(&self) -> (r: Self) {
        HalfAction {
            half: self.half.clone(),
        }
    }
}

/// A place of a window on the work area.
#[derive(Debug, PartialEq)]
pub struct PlaceAction {
    pub place: String,
}

/// What such an action says.
pub struct PlaceActionView {
    pub place: Str,
}

impl View for PlaceAction {
    type V = PlaceActionView;

    open spec fn view(&self) -> PlaceActionView {
        PlaceActionView {
            place: self.place@,
        }
    }
}

impl Dup for PlaceAction {
    fn dup(&self) -> (r: Self) {
        PlaceAction {
            place: self.place.clone(),
        }
    }
}

/// The number of a desktop in an action: a number, or a text that holds `$n`.
#[derive(Debug, PartialEq)]
pub enum Desk {
    Num(i64),
    Str(String),
}

/// What the number of a desktop is written as.
pub enum DeskView {
    Num(i64),
    Str(Str),
}

impl View for Desk {
    type V = DeskView;

    open spec fn view(&self) -> DeskView {
        match *self {
            Desk::Num(n) => DeskView::Num(n),
            Desk::Str(s) => DeskView::Str(s@),
        }
    }
}

impl Dup for Desk {
    fn dup(&self) -> (r: Self) {
        match self {
            Desk::Num(n) => Desk::Num(*n),
            Desk::Str(s) => Desk::Str(s.clone()),
        }
    }
}

impl DeskView {
    /// The text of the number.
    pub open spec fn text(self) -> Str {
        match self {
            DeskView::Num(n) => crate::text::dec_int(n as int),
            DeskView::Str(s) => s,
        }
    }

    /// The desktop from 1 to 8.
    pub open spec fn number(self) -> Option<u8> {
        crate::hypr::desk_number(trimmed(self.text()))
    }
}

impl Desk {
    /// The text of the number.
    pub fn text(&self) -> (r: String)
        ensures
            r@ == self@.text(),
    {
        match self {
            Desk::Num(n) => crate::text::int_text(*n),
            Desk::Str(s) => s.clone(),
        }
    }

    /// The desktop from 1 to 8; `None` where the text is no number or outside of that range.
    pub fn number(&self) -> (r: Option<u8>)
        ensures
            r == self@.number(),
    {
        crate::hypr::parse_desk(crate::text::trim(self.text().as_str()))
    }
}

/// Move the active workspace of the current desktop to another one.
#[derive(Debug, PartialEq)]
pub struct MoveAction {
    pub desktop: Desk,
}

/// What such an action says.
pub struct MoveActionView {
    pub desktop: DeskView,
}

impl View for MoveAction {
    type V = MoveActionView;

    open spec fn view(&self) -> MoveActionView {
        MoveActionView {
            desktop: self.desktop@,
        }
    }
}

impl Dup for MoveAction {
    fn dup(&self) -> (r: Self) {
        MoveAction {
            desktop: self.desktop.dup(),
        }
    }
}

/// A desktop, a workspace and an application.
#[derive(Debug, PartialEq)]
pub struct TargetAction {
    pub desktop: Option<u8>,
    pub workspace: Option<String>,
    pub app: Option<String>,
    pub pull: Option<bool>,
    pub new: Option<bool>,
}

/// What such an action says.
pub struct TargetActionView {
    pub desktop: Option<u8>,
    pub workspace: Option<Str>,
    pub app: Option<Str>,
    pub pull: Option<bool>,
    pub new: Option<bool>,
}

impl View for TargetAction {
    type V = TargetActionView;

    open spec fn view(&self) -> TargetActionView {
        TargetActionView {
            desktop: self.desktop,
            workspace: oview(self.workspace),
            app: oview(self.app),
            pull: self.pull,
            new: self.new,
        }
    }
}

impl Dup for TargetAction {
    fn dup(&self) -> (r: Self) {
        TargetAction {
            desktop: self.desktop,
            workspace: copy_opt(&self.workspace),
            app: copy_opt(&self.app),
            pull: self.pull,
            new: self.new,
        }
    }
}

/// An action of the daemon.
#[derive(Debug, PartialEq)]
pub enum Action {
    Named(String),
    Half(HalfAction),
    Place(PlaceAction),
    Move(MoveAction),
    Target(TargetAction),
}

/// What an action says.
pub enum ActionView {
    Named(Str),
    Half(HalfActionView),
    Place(PlaceActionView),
    Move(MoveActionView),
    Target(TargetActionView),
}

impl View for Action {
    type V = ActionView;

    open spec fn view(&self) -> ActionView {
        match *self {
            Action::Named(n) => ActionView::Named(n@),
            Action::Half(a) => ActionView::Half(a@),
            Action::Place(a) => ActionView::Place(a@),
            Action::Move(a) => ActionView::Move(a@),
            Action::Target(a) => ActionView::Target(a@),
        }
    }
}

impl Dup for Action {
    fn dup(&self) -> (r: Self) {
        match self {
            Action::Named(n) => Action::Named(n.clone()),
            Action::Half(a) => Action::Half(a.dup()),
            Action::Place(a) => Action::Place(a.dup()),
            Action::Move(a) => Action::Move(a.dup()),
            Action::Target(a) => Action::Target(a.dup()),
        }
    }
}

/// A dispatcher of the compositor: one expression or several in order.
#[derive(Debug, PartialEq)]
pub enum Dispatch {
    One(String),
    Many(Vec<String>),
}

/// What a dispatcher says.
pub enum DispatchView {
    One(Str),
    Many(Seq<Str>),
}

impl View for Dispatch {
    type V = DispatchView;

    open spec fn view(&self) -> DispatchView {
        match *self {
            Dispatch::One(s) => DispatchView::One(s@),
            Dispatch::Many(v) => DispatchView::Many(views(v@)),
        }
    }
}

impl Dup for Dispatch {
    fn dup(&self) -> (r: Self) {
        match self {
            Dispatch::One(s) => Dispatch::One(s.clone()),
            Dispatch::Many(v) => Dispatch::Many(copy_all(v.as_slice())),
        }
    }
}

impl DispatchView {
    /// The expressions in order.
    pub open spec fn exprs(self) -> Seq<Str> {
        match self {
            DispatchView::One(s) => seq![s],
            DispatchView::Many(v) => v,
        }
    }
}

impl Dispatch {
    /// The expressions in order.
    pub fn exprs(&self) -> (r: Vec<String>)
        ensures
            views(r@) == self@.exprs(),
    {
        match self {
            Dispatch::One(s) => {
                let mut v: Vec<String> = Vec::new();
                v.push(s.clone());
                proof {
                    assert(views(v@) =~= seq![s@]);
                }
                v
            },
            Dispatch::Many(v) => copy_all(v.as_slice()),
        }
    }
}

/// A binding: a chain, exactly one action, flags and a range.
#[derive(Debug, PartialEq)]
pub struct Bind {
    pub chain: String,
    pub action: Option<Action>,
    /// A command for the compositor to run (`exec`).
    pub run: Option<String>,
    pub dispatch: Option<Dispatch>,
    pub lua: Option<String>,
    /// From and to: the binding stands for a series, with `$n` replaced by each number.
    pub range: Option<(i64, i64)>,
    pub locked: bool,
    pub repeating: bool,
    pub mouse: bool,
    pub release: bool,
    pub desc: Option<String>,
    pub group: Option<String>,
}

/// What a binding says.
pub struct BindView {
    pub chain: Str,
    pub action: Option<ActionView>,
    pub run: Option<Str>,
    pub dispatch: Option<DispatchView>,
    pub lua: Option<Str>,
    pub range: Option<(i64, i64)>,
    pub locked: bool,
    pub repeating: bool,
    pub mouse: bool,
    pub release: bool,
    pub desc: Option<Str>,
    pub group: Option<Str>,
}

impl View for Bind {
    type V = BindView;

    open spec fn view(&self) -> BindView {
        BindView {
            chain: self.chain@,
            action: oview(self.action),
            run: oview(self.run),
            dispatch: oview(self.dispatch),
            lua: oview(self.lua),
            range: self.range,
            locked: self.locked,
            repeating: self.repeating,
            mouse: self.mouse,
            release: self.release,
            desc: oview(self.desc),
            group: oview(self.group),
        }
    }
}

impl Dup for Bind {
    fn dup(&self) -> (r: Self) {
        Bind {
            chain: self.chain.clone(),
            action: dup_opt(&self.action),
            run: copy_opt(&self.run),
            dispatch: dup_opt(&self.dispatch),
            lua: copy_opt(&self.lua),
            range: self.range,
            locked: self.locked,
            repeating: self.repeating,
            mouse: self.mouse,
            release: self.release,
            desc: copy_opt(&self.desc),
            group: copy_opt(&self.group),
        }
    }
}

impl BindView {
    /// The names of the fields of the action that are set.
    pub open spec fn action_fields(self) -> Seq<Str> {
        let a = if self.action is Some {
            seq!["action"@]
        } else {
            Seq::<Str>::empty()
        };
        let b = if self.run is Some {
            a.push("exec"@)
        } else {
            a
        };
        let c = if self.dispatch is Some {
            b.push("dispatch"@)
        } else {
            b
        };
        if self.lua is Some {
            c.push("lua"@)
        } else {
            c
        }
    }
}

impl Bind {
    /// The names of the fields of the action that are set.
    pub fn action_fields(&self) -> (r: Vec<&'static str>)
        ensures
            views(r@) == self@.action_fields(),
    {
        let mut v: Vec<&'static str> = Vec::new();
        if self.action.is_some() {
            v.push("action");
            proof {
                assert(views(v@) =~= seq!["action"@]);
            }
        }
        if self.run.is_some() {
            v.push("exec");
        }
        if self.dispatch.is_some() {
            v.push("dispatch");
        }
        if self.lua.is_some() {
            v.push("lua");
        }
        v
    }
}

/// A key of a state of a mode: what it does, or the state that it leads to.
#[derive(Debug, PartialEq)]
pub struct StickyKey {
    pub action: Option<Action>,
    /// A command for the compositor to run (`exec`).
    pub run: Option<String>,
    pub dispatch: Option<Dispatch>,
    pub lua: Option<String>,
    /// The state that the key leads to.
    pub state: Option<String>,
    /// The action also leaves the mode.
    pub exit: bool,
    pub desc: Option<String>,
}

/// What such a key says.
pub struct StickyKeyView {
    pub action: Option<ActionView>,
    pub run: Option<Str>,
    pub dispatch: Option<DispatchView>,
    pub lua: Option<Str>,
    pub state: Option<Str>,
    pub exit: bool,
    pub desc: Option<Str>,
}

impl View for StickyKey {
    type V = StickyKeyView;

    open spec fn view(&self) -> StickyKeyView {
        StickyKeyView {
            action: oview(self.action),
            run: oview(self.run),
            dispatch: oview(self.dispatch),
            lua: oview(self.lua),
            state: oview(self.state),
            exit: self.exit,
            desc: oview(self.desc),
        }
    }
}

impl Dup for StickyKey {
    fn dup(&self) -> (r: Self) {
        StickyKey {
            action: dup_opt(&self.action),
            run: copy_opt(&self.run),
            dispatch: dup_opt(&self.dispatch),
            lua: copy_opt(&self.lua),
            state: copy_opt(&self.state),
            exit: self.exit,
            desc: copy_opt(&self.desc),
        }
    }
}

impl StickyKeyView {
    /// The key as a binding of this chain.
    pub open spec fn as_bind(self, chain: Str) -> BindView {
        BindView {
            chain,
            action: self.action,
            run: self.run,
            dispatch: self.dispatch,
            lua: self.lua,
            range: None,
            locked: false,
            repeating: false,
            mouse: false,
            release: false,
            desc: self.desc,
            group: None,
        }
    }
}

impl StickyKey {
    /// The key as a binding of this chain.
    pub fn as_bind(&self, chain: &str) -> (r: Bind)
        ensures
            r@ == self@.as_bind(chain@),
    {
        Bind {
            chain: chain.to_owned(),
            action: dup_opt(&self.action),
            run: copy_opt(&self.run),
            dispatch: dup_opt(&self.dispatch),
            lua: copy_opt(&self.lua),
            range: None,
            locked: false,
            repeating: false,
            mouse: false,
            release: false,
            desc: copy_opt(&self.desc),
            group: None,
        }
    }
}

/// A state of a mode: its keys and the states below it.
#[derive(Debug, PartialEq)]
pub struct StickyState {
    /// The combination that opens the mode; only the root has it.
    pub enter: Option<String>,
    pub title: Option<String>,
    /// Keys of the applications that the state takes over: `raise` or `spawn`.
    pub apps: Option<String>,
    pub keys: Vec<(String, StickyKey)>,
    pub states: Vec<(String, StickyState)>,
}

/// What a state says.
pub struct StickyStateView {
    pub enter: Option<Str>,
    pub title: Option<Str>,
    pub apps: Option<Str>,
    pub keys: Seq<(Str, StickyKeyView)>,
    pub states: Seq<(Str, StickyStateView)>,
}

/// What the states say.
pub open spec fn states_view(s: Seq<(String, StickyState)>) -> Seq<(Str, StickyStateView)>
    decreases s,
{
    Seq::new(
        s.len(),
        |i: int|
            if 0 <= i < s.len() {
                (s[i].0@, state_view(s[i].1))
            } else {
                arbitrary()
            },
    )
}

/// What a state says.
pub open spec fn state_view(s: StickyState) -> StickyStateView
    decreases s,
{
    StickyStateView {
        enter: oview(s.enter),
        title: oview(s.title),
        apps: oview(s.apps),
        keys: s.keys@.map_values(|e: (String, StickyKey)| (e.0@, e.1@)),
        states: states_view(s.states@),
    }
}

impl View for StickyState {
    type V = StickyStateView;

    open spec fn view(&self) -> StickyStateView {
        state_view(*self)
    }
}

fn dup_keys(v: &Vec<(String, StickyKey)>) -> (r: Vec<(String, StickyKey)>)
    ensures
        r@.map_values(|e: (String, StickyKey)| (e.0@, e.1@)) == v@.map_values(|e: (String, StickyKey)| (e.0@, e.1@)),
{
    let mut out: Vec<(String, StickyKey)> = Vec::new();
    let mut i: usize = 0;
    while i < v.len()
        invariant
            i <= v.len(),
            out.len() == i,
            forall|k: int| 0 <= k < i ==> (#[trigger] out@[k]).0@ == v@[k].0@ && out@[k].1@ == v@[k].1@,
        decreases v.len() - i,
    {
        out.push((v[i].0.clone(), v[i].1.dup()));
        i = i + 1;
    }
    proof {
        assert(out@.map_values(|e: (String, StickyKey)| (e.0@, e.1@)) =~= v@.map_values(
            |e: (String, StickyKey)| (e.0@, e.1@),
        ));
    }
    out
}

fn dup_states(v: &Vec<(String, StickyState)>) -> (r: Vec<(String, StickyState)>)
    ensures
        states_view(r@) == states_view(v@),
    decreases v,
{
    let mut out: Vec<(String, StickyState)> = Vec::new();
    let mut i: usize = 0;
    while i < v.len()
        invariant
            i <= v.len(),
            out.len() == i,
            forall|k: int| 0 <= k < i ==> (#[trigger] out@[k]).0@ == v@[k].0@ && state_view(out@[k].1) == state_view(v@[k].1),
        decreases v.len() - i,
    {
        let s = &v[i].1;
        let c = StickyState {
            enter: copy_opt(&s.enter),
            title: copy_opt(&s.title),
            apps: copy_opt(&s.apps),
            keys: dup_keys(&s.keys),
            states: dup_states(&s.states),
        };
        out.push((v[i].0.clone(), c));
        i = i + 1;
    }
    proof {
        assert(states_view(out@) =~= states_view(v@));
    }
    out
}

/// The configuration.
#[derive(Debug, PartialEq)]
pub struct Config {
    pub env: Table<String>,
    pub keys: Keys,
    /// The gap of the commands `half`, `place` and `maximize`.
    pub gap: i32,
    pub templates: Table<Template>,
    pub apps: Table<App>,
    /// Classes of windows that are never taken into a workspace; the whole class has to fit.
    pub ignore_classes: Vec<String>,
    pub workspaces: Table<Workspace>,
    pub binds: Vec<Bind>,
    pub startup: Option<Startup>,
    /// Modes, in the order of the file.
    pub sticky: Vec<(String, StickyState)>,
}

/// What the configuration says.
pub struct ConfigView {
    pub env: Seq<(Str, Str)>,
    pub keys: KeysView,
    pub gap: i32,
    pub templates: Seq<(Str, TemplateView)>,
    pub apps: Seq<(Str, AppView)>,
    pub ignore_classes: Seq<Str>,
    pub workspaces: Seq<(Str, WorkspaceView)>,
    pub binds: Seq<BindView>,
    pub startup: Option<StartupView>,
    pub sticky: Seq<(Str, StickyStateView)>,
}

impl View for Config {
    type V = ConfigView;

    open spec fn view(&self) -> ConfigView {
        ConfigView {
            env: self.env@,
            keys: self.keys@,
            gap: self.gap,
            templates: self.templates@,
            apps: self.apps@,
            ignore_classes: views(self.ignore_classes@),
            workspaces: self.workspaces@,
            binds: views(self.binds@),
            startup: oview(self.startup),
            sticky: states_view(self.sticky@),
        }
    }
}

impl Dup for Config {
    fn dup(&self) -> (r: Self) {
        Config {
            env: self.env.dup(),
            keys: self.keys.dup(),
            gap: self.gap,
            templates: self.templates.dup(),
            apps: self.apps.dup(),
            ignore_classes: copy_all(self.ignore_classes.as_slice()),
            workspaces: self.workspaces.dup(),
            binds: dup_all(self.binds.as_slice()),
            startup: dup_opt(&self.startup),
            sticky: dup_states(&self.sticky),
        }
    }
}
} // verus!
