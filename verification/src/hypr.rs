//! The compositor: windows and their tags, events, and the expressions that move windows.
use vstd::prelude::*;

use crate::rect::{fits, PxRect};
use crate::text::{
    add_name, ascending, last_index, name_put, oview, parse_num, parsed, pieces, push_dec, push_int, same, split,
    split_text, strip, to_lower, trim, trim_end, trim_end_of, trimmed, views, Str,
};

verus! {

broadcast use crate::text::group_views;

/// A workspace of the compositor: a desktop or a special place.
#[derive(Debug)]
pub struct WsRef {
    pub id: i64,
    pub name: String,
}

/// A window as the compositor reports it.
#[derive(Debug)]
pub struct Client {
    pub address: String,
    pub class: String,
    pub title: String,
    pub workspace: WsRef,
    pub pid: i32,
    pub tags: Vec<String>,
    pub at: (i32, i32),
    pub size: (i32, i32),
    pub floating: bool,
    pub mapped: bool,
    /// Full screen: 0 is off, 1 maximized, 2 full screen.
    pub fullscreen: i32,
    /// The number of the window: the smaller, the earlier the window appeared.
    pub stable_id: String,
}

impl Clone for Client {
    fn clone(&self) -> (r: Self)
        ensures
            r.address == self.address,
            r.class == self.class,
            r.title == self.title,
            r.workspace == self.workspace,
            r.pid == self.pid,
            r.tags@ == self.tags@,
            r.at == self.at,
            r.size == self.size,
            r.floating == self.floating,
            r.mapped == self.mapped,
            r.fullscreen == self.fullscreen,
            r.stable_id == self.stable_id,
    {
        Client {
            address: self.address.clone(),
            class: self.class.clone(),
            title: self.title.clone(),
            workspace: WsRef { id: self.workspace.id, name: self.workspace.name.clone() },
            pid: self.pid,
            tags: crate::text::copy_all(self.tags.as_slice()),
            at: self.at,
            size: self.size,
            floating: self.floating,
            mapped: self.mapped,
            fullscreen: self.fullscreen,
            stable_id: self.stable_id.clone(),
        }
    }
}

/// What an instance tag says: the name after `app:`, without the stars at the end; where the last
/// `#` is followed by a number and has something before it, the name ends there and the number is
/// that of the instance.
pub open spec fn app_tag_of(tag: Str) -> Option<(Str, Option<nat>)> {
    if !crate::text::has_prefix(tag, "app:"@) {
        None
    } else {
        let rest = trim_end_of(tag.skip("app:"@.len() as int), '*');
        let i = last_index(rest, '#');
        if rest.len() == 0 {
            None
        } else if i > 0 && parsed(rest.skip(i + 1), u32::MAX as nat) is Some {
            Some((rest.take(i), parsed(rest.skip(i + 1), u32::MAX as nat)))
        } else {
            Some((rest, None))
        }
    }
}

/// Read a tag `app:<name>#<number>`: the name of the application and the number of the instance.
pub fn parse_app_tag(tag: &str) -> (r: Option<(String, Option<u32>)>)
    ensures
        r is Some == app_tag_of(tag@) is Some,
        r matches Some((name, num)) ==> app_tag_of(tag@) == Some(
            (
                name@,
                match num {
                    Some(n) => Some(n as nat),
                    None => None::<nat>,
                },
            ),
        ),
{
    let rest = match strip(tag, "app:") {
        Some(t) => trim_end(t, '*'),
        None => return None,
    };
    if rest.is_empty() {
        return None;
    }
    match crate::text::rsplit_at(rest, '#') {
        Some((name, num)) => {
            if !name.is_empty() {
                if let Some(n) = parse_num(num, u32::MAX as u64) {
                    return Some((name.to_owned(), Some(n as u32)));
                }
            }
            Some((rest.to_owned(), None))
        },
        None => Some((rest.to_owned(), None)),
    }
}

/// What a membership tag says: the name after `ws:`, without the stars at the end.
pub open spec fn ws_tag_of(tag: Str) -> Option<Str> {
    if !crate::text::has_prefix(tag, "ws:"@) {
        None
    } else {
        let rest = trim_end_of(tag.skip("ws:"@.len() as int), '*');
        if rest.len() == 0 {
            None
        } else {
            Some(rest)
        }
    }
}

/// Read a tag `ws:<name>`: the name of the workspace that the window belongs to.
pub fn parse_ws_tag(tag: &str) -> (r: Option<String>)
    ensures
        oview(r) == ws_tag_of(tag@),
{
    let rest = match strip(tag, "ws:") {
        Some(t) => trim_end(t, '*'),
        None => return None,
    };
    if rest.is_empty() {
        None
    } else {
        Some(rest.to_owned())
    }
}

/// The membership tag of a workspace.
pub fn ws_tag(ws: &str) -> (r: String)
    ensures
        r@ == "ws:"@ + ws@,
{
    let mut s = "ws:".to_owned();
    s.append(ws);
    s
}

/// The instance tag of an application.
pub open spec fn instance_tag(app: Str, num: nat) -> Str {
    "app:"@ + app + "#"@ + crate::text::dec(num)
}

/// The instance tag of an application.
pub fn app_tag(app: &str, num: u32) -> (r: String)
    ensures
        r@ == instance_tag(app@, num as nat),
{
    let mut s = "app:".to_owned();
    s.append(app);
    s.append("#");
    push_dec(&mut s, num as u64);
    s
}

/// The tag that a window gets as an instance names the application and the number when it is read back.
pub proof fn law_instance_tag(app: Str, num: u32)
    requires
        app.len() > 0,
    ensures
        app_tag_of(instance_tag(app, num as nat)) == Some((app, Some(num as nat))),
{
    reveal_strlit("app:");
    reveal_strlit("#");
    let d = crate::text::dec(num as nat);
    crate::text::lemma_dec(num as nat);
    let tag = instance_tag(app, num as nat);
    let rest = app + "#"@ + d;
    assert(tag.take(4) =~= "app:"@);
    assert(tag.skip(4) =~= rest);
    assert(rest.last() == d.last());
    assert(crate::text::is_digit(d[d.len() - 1]));
    lemma_last_index(app, d);
    assert(rest.take(app.len() as int) =~= app);
    assert(rest.skip(app.len() as int + 1) =~= d);
    assert(crate::text::is_digit(d[0]));
}

proof fn lemma_last_index(app: Str, d: Str)
    requires
        crate::text::all_digits(d),
    ensures
        last_index(app + "#"@ + d, '#') == app.len(),
    decreases d.len(),
{
    reveal_strlit("#");
    let s = app + "#"@ + d;
    if d.len() == 0 {
        assert(s.last() == '#');
    } else {
        assert(crate::text::is_digit(d[d.len() - 1]));
        assert(s.drop_last() =~= app + "#"@ + d.drop_last());
        assert(s.last() == d.last());
        assert forall|i: int| 0 <= i < d.drop_last().len() implies crate::text::is_digit(
            #[trigger] d.drop_last()[i],
        ) by {
            assert(crate::text::is_digit(d[i]));
        }
        lemma_last_index(app, d.drop_last());
    }
}

/// The tag of a workspace names the workspace when it is read back.
pub proof fn law_ws_tag(ws: Str)
    requires
        ws.len() > 0,
        ws.last() != '*',
    ensures
        ws_tag_of("ws:"@ + ws) == Some(ws),
{
    reveal_strlit("ws:");
    assert(("ws:"@ + ws).take(3) =~= "ws:"@);
    assert(("ws:"@ + ws).skip(3) =~= ws);
}

/// The first instance that the tags from `i` on name.
pub open spec fn tags_instance(tags: Seq<String>, i: int) -> Option<(Str, nat)>
    decreases tags.len() - i,
{
    if i >= tags.len() {
        None
    } else {
        match app_tag_of(tags[i]@) {
            Some((a, Some(n))) => Some((a, n)),
            Some((a, None)) => Some((a, 1)),
            None => tags_instance(tags, i + 1),
        }
    }
}

/// The window belongs to the workspace: one of its membership tags names it.
pub open spec fn in_ws(c: Client, ws: Str) -> bool {
    exists|i: int| 0 <= i < c.tags.len() && ws_tag_of(#[trigger] c.tags@[i]@) == Some(ws)
}

/// The window belongs to some workspace.
pub open spec fn has_ws(c: Client) -> bool {
    exists|i: int| 0 <= i < c.tags.len() && ws_tag_of(#[trigger] c.tags@[i]@) is Some
}

/// The workspaces that the first `n` tags name, in ascending order, each once.
pub open spec fn ws_list_upto(tags: Seq<String>, n: int) -> Seq<Str>
    decreases n,
{
    if n <= 0 {
        Seq::empty()
    } else {
        match ws_tag_of(tags[n - 1]@) {
            Some(w) => name_put(ws_list_upto(tags, n - 1), w),
            None => ws_list_upto(tags, n - 1),
        }
    }
}

/// The workspaces that a window belongs to, in ascending order, each once.
pub open spec fn ws_list(c: Client) -> Seq<Str> {
    ws_list_upto(c.tags@, c.tags@.len() as int)
}

/// The application and the number of the instance that a window shows.
pub open spec fn app_instance(c: Client) -> Option<(Str, nat)> {
    tags_instance(c.tags@, 0)
}

/// The application that a window shows.
pub open spec fn app_of(c: Client) -> Option<Str> {
    match app_instance(c) {
        Some((a, _)) => Some(a),
        None => None,
    }
}

/// The tags of the first `n` that begin with `app:`, without the stars at their ends.
pub open spec fn app_tags_upto(tags: Seq<String>, n: int) -> Seq<Str>
    decreases n,
{
    if n <= 0 {
        Seq::empty()
    } else if crate::text::has_prefix(tags[n - 1]@, "app:"@) {
        app_tags_upto(tags, n - 1).push(trim_end_of(tags[n - 1]@, '*'))
    } else {
        app_tags_upto(tags, n - 1)
    }
}

/// A desktop: a number from 1 to 8.
pub open spec fn desk_number(name: Str) -> Option<u8> {
    match parsed(name, u8::MAX as nat) {
        Some(n) => if 1 <= n <= 8 {
            Some(n as u8)
        } else {
            None
        },
        None => None,
    }
}

/// The desktop that a text names.
pub fn parse_desk(name: &str) -> (r: Option<u8>)
    ensures
        r == desk_number(name@),
{
    match parse_num(name, u8::MAX as u64) {
        Some(n) => if 1 <= n && n <= 8 {
            Some(n as u8)
        } else {
            None
        },
        None => None,
    }
}

/// The window stands among the hidden ones.
pub open spec fn on_hidden(c: Client) -> bool {
    c.workspace.name@ == "special:hidden"@
}

/// The window stands in the pool.
pub open spec fn on_pool(c: Client) -> bool {
    c.workspace.name@ == "special:pool"@
}

/// The place of a window in the order of appearance; one without a number comes last.
pub open spec fn stable_of(c: Client) -> u64 {
    match parsed(c.stable_id@, u64::MAX as nat) {
        Some(n) => n as u64,
        None => u64::MAX,
    }
}

/// The rectangle of a window.
pub open spec fn rect_of(c: Client) -> PxRect {
    PxRect { x: c.at.0, y: c.at.1, w: c.size.0, h: c.size.1 }
}

impl Client {
    /// The workspaces that the window belongs to, in ascending order, each once.
    pub fn workspaces(&self) -> (r: Vec<String>)
        ensures
            views(r@) == ws_list(*self),
            ascending(views(r@)),
            forall|w: Str| #[trigger] views(r@).contains(w) <==> in_ws(*self, w),
    {
        let mut v: Vec<String> = Vec::new();
        let mut i: usize = 0;
        while i < self.tags.len()
            invariant
                i <= self.tags.len(),
                views(v@) == ws_list_upto(self.tags@, i as int),
                ascending(views(v@)),
                forall|w: Str| #[trigger]
                    views(v@).contains(w) <==> exists|k: int|
                        0 <= k < i && ws_tag_of(#[trigger] self.tags@[k]@) == Some(w),
            decreases self.tags.len() - i,
        {
            let ghost before = views(v@);
            match parse_ws_tag(self.tags[i].as_str()) {
                Some(w) => {
                    let ghost name = w@;
                    add_name(&mut v, w);
                    proof {
                        assert(ws_tag_of(self.tags@[i as int]@) == Some(name));
                        assert forall|w: Str| #[trigger] views(v@).contains(w) <==> exists|k: int|
                            0 <= k < i + 1 && ws_tag_of(#[trigger] self.tags@[k]@) == Some(w) by {
                            if exists|k: int| 0 <= k < i + 1 && ws_tag_of(#[trigger] self.tags@[k]@) == Some(w) {
                                let k = choose|k: int|
                                    0 <= k < i + 1 && ws_tag_of(#[trigger] self.tags@[k]@) == Some(w);
                                if k < i {
                                    assert(before.contains(w));
                                }
                            }
                            if before.contains(w) {
                                let k = choose|k: int|
                                    0 <= k < i && ws_tag_of(#[trigger] self.tags@[k]@) == Some(w);
                                assert(ws_tag_of(self.tags@[k]@) == Some(w));
                            }
                        }
                    }
                },
                None => {
                    proof {
                        assert forall|w: Str| #[trigger] views(v@).contains(w) <==> exists|k: int|
                            0 <= k < i + 1 && ws_tag_of(#[trigger] self.tags@[k]@) == Some(w) by {
                            if exists|k: int| 0 <= k < i + 1 && ws_tag_of(#[trigger] self.tags@[k]@) == Some(w) {
                                let k = choose|k: int|
                                    0 <= k < i + 1 && ws_tag_of(#[trigger] self.tags@[k]@) == Some(w);
                                assert(k < i);
                            }
                        }
                    }
                },
            }
            i = i + 1;
        }
        v
    }

    /// The window belongs to the workspace.
    pub fn in_ws(&self, ws: &str) -> (r: bool)
        ensures
            r == in_ws(*self, ws@),
    {
        let mut i: usize = 0;
        while i < self.tags.len()
            invariant
                i <= self.tags.len(),
                forall|k: int| 0 <= k < i ==> ws_tag_of(#[trigger] self.tags@[k]@) != Some(ws@),
            decreases self.tags.len() - i,
        {
            if let Some(w) = parse_ws_tag(self.tags[i].as_str()) {
                if same(w.as_str(), ws) {
                    assert(ws_tag_of(self.tags@[i as int]@) == Some(ws@));
                    return true;
                }
            }
            i = i + 1;
        }
        false
    }

    /// The window belongs to some workspace.
    pub fn has_ws(&self) -> (r: bool)
        ensures
            r == has_ws(*self),
    {
        let mut i: usize = 0;
        while i < self.tags.len()
            invariant
                i <= self.tags.len(),
                forall|k: int| 0 <= k < i ==> ws_tag_of(#[trigger] self.tags@[k]@) is None,
            decreases self.tags.len() - i,
        {
            if parse_ws_tag(self.tags[i].as_str()).is_some() {
                assert(ws_tag_of(self.tags@[i as int]@) is Some);
                return true;
            }
            i = i + 1;
        }
        false
    }

    /// The application of the instance tag.
    pub fn app(&self) -> (r: Option<String>)
        ensures
            oview(r) == app_of(*self),
    {
        match self.app_instance() {
            Some((a, _)) => Some(a),
            None => None,
        }
    }

    /// The application and the number of the instance; a tag without a number is instance 1.
    pub fn app_instance(&self) -> (r: Option<(String, u32)>)
        ensures
            r is Some == app_instance(*self) is Some,
            r matches Some((a, n)) ==> app_instance(*self) == Some((a@, n as nat)),
    {
        let mut i: usize = 0;
        while i < self.tags.len()
            invariant
                i <= self.tags.len(),
                tags_instance(self.tags@, 0) == tags_instance(self.tags@, i as int),
            decreases self.tags.len() - i,
        {
            match parse_app_tag(self.tags[i].as_str()) {
                Some((a, n)) => {
                    let num: u32 = match n {
                        Some(n) => n,
                        None => 1,
                    };
                    return Some((a, num));
                },
                None => {},
            }
            i = i + 1;
        }
        None
    }

    /// The application tags as they are written on the window, without the stars at their ends.
    pub fn app_tags(&self) -> (r: Vec<String>)
        ensures
            views(r@) == app_tags_upto(self.tags@, self.tags.len() as int),
    {
        let mut out: Vec<String> = Vec::new();
        let mut i: usize = 0;
        while i < self.tags.len()
            invariant
                i <= self.tags.len(),
                views(out@) == app_tags_upto(self.tags@, i as int),
            decreases self.tags.len() - i,
        {
            if crate::text::starts(self.tags[i].as_str(), "app:") {
                out.push(trim_end(self.tags[i].as_str(), '*').to_owned());
            }
            i = i + 1;
        }
        out
    }

    /// The rectangle of the window.
    pub fn rect(&self) -> (r: PxRect)
        ensures
            r == rect_of(*self),
    {
        PxRect { x: self.at.0, y: self.at.1, w: self.size.0, h: self.size.1 }
    }

    /// The desktop from 1 to 8 that the window stands on.
    pub fn desktop(&self) -> (r: Option<u8>)
        ensures
            r == desk_number(self.workspace.name@),
    {
        parse_desk(self.workspace.name.as_str())
    }

    /// The window is hidden.
    pub fn on_hidden(&self) -> (r: bool)
        ensures
            r == on_hidden(*self),
    {
        same(self.workspace.name.as_str(), "special:hidden")
    }

    /// The window stands in the pool.
    pub fn on_pool(&self) -> (r: bool)
        ensures
            r == on_pool(*self),
    {
        same(self.workspace.name.as_str(), "special:pool")
    }

    /// The place of the window in the order of appearance.
    pub fn stable(&self) -> (r: u64)
        ensures
            r == stable_of(*self),
    {
        match parse_num(self.stable_id.as_str(), u64::MAX) {
            Some(n) => n,
            None => u64::MAX,
        }
    }
}

/// A monitor.
#[derive(Debug)]
pub struct Monitor {
    pub name: String,
    pub x: i32,
    pub y: i32,
    pub width: i32,
    pub height: i32,
    /// Zones that panels keep for themselves: left, top, right, bottom.
    pub reserved: Vec<i32>,
    pub focused: bool,
}

impl Monitor {
    /// The width of a reserved zone; zero where it is not given.
    pub open spec fn zone(self, i: int) -> int {
        if i < self.reserved.len() {
            self.reserved@[i] as int
        } else {
            0
        }
    }

    /// The sums that `work_area` makes fit.
    pub open spec fn area_fits(self) -> bool {
        &&& fits(self.x + self.zone(0))
        &&& fits(self.y + self.zone(1))
        &&& fits(self.width - self.zone(0))
        &&& fits(self.width - self.zone(0) - self.zone(2))
        &&& fits(self.height - self.zone(1))
        &&& fits(self.height - self.zone(1) - self.zone(3))
    }

    fn reserved_at(&self, i: usize) -> (r: i32)
        ensures
            r == self.zone(i as int),
    {
        if i < self.reserved.len() {
            self.reserved[i]
        } else {
            0
        }
    }

    /// The work area: the monitor without the reserved zones.
    pub fn work_area(&self) -> (r: PxRect)
        requires
            self.area_fits(),
        ensures
            r.x == self.x + self.zone(0),
            r.y == self.y + self.zone(1),
            r.w == self.width - self.zone(0) - self.zone(2),
            r.h == self.height - self.zone(1) - self.zone(3),
    {
        PxRect {
            x: self.x + self.reserved_at(0),
            y: self.y + self.reserved_at(1),
            w: self.width - self.reserved_at(0) - self.reserved_at(2),
            h: self.height - self.reserved_at(1) - self.reserved_at(3),
        }
    }
}

/// The active monitor: the first one with the focus, else the first one.
pub fn active_monitor(mons: &[Monitor]) -> (r: Option<usize>)
    ensures
        r is None <==> mons.len() == 0,
        r matches Some(i) ==> i < mons.len() && (mons@[i as int].focused || i == 0) && forall|k: int|
            0 <= k < mons.len() && #[trigger] mons@[k].focused ==> mons@[i as int].focused && i <= k,
{
    let mut i: usize = 0;
    while i < mons.len()
        invariant
            i <= mons.len(),
            forall|k: int| 0 <= k < i ==> !#[trigger] mons@[k].focused,
        decreases mons.len() - i,
    {
        if mons[i].focused {
            return Some(i);
        }
        i = i + 1;
    }
    if mons.len() == 0 {
        None
    } else {
        Some(0)
    }
}

/// The desktop that the compositor shows, as it is reported.
#[derive(Debug)]
pub struct ActiveWorkspace {
    pub name: String,
}

// ---- Events -------------------------------------------------------------------

/// An event of the compositor.
#[derive(Debug)]
pub enum Event {
    OpenWindow { addr: String, workspace: String },
    CloseWindow { addr: String },
    MoveWindow { addr: String, workspace: String },
    Workspace { name: String },
    ActiveWindow { addr: String },
    Other(String),
}

/// What an event says.
pub enum EventView {
    OpenWindow { addr: Str, workspace: Str },
    CloseWindow { addr: Str },
    MoveWindow { addr: Str, workspace: Str },
    Workspace { name: Str },
    ActiveWindow { addr: Str },
    Other(Str),
}

impl View for Event {
    type V = EventView;

    open spec fn view(&self) -> EventView {
        match *self {
            Event::OpenWindow { addr, workspace } => EventView::OpenWindow { addr: addr@, workspace: workspace@ },
            Event::CloseWindow { addr } => EventView::CloseWindow { addr: addr@ },
            Event::MoveWindow { addr, workspace } => EventView::MoveWindow { addr: addr@, workspace: workspace@ },
            Event::Workspace { name } => EventView::Workspace { name: name@ },
            Event::ActiveWindow { addr } => EventView::ActiveWindow { addr: addr@ },
            Event::Other(s) => EventView::Other(s@),
        }
    }
}

/// An address in the form `0x…` with small letters.
pub open spec fn norm_addr_of(a: Str) -> Str {
    let t = crate::text::lower(trimmed(a));
    if crate::text::has_prefix(t, "0x"@) {
        t
    } else {
        "0x"@ + t
    }
}

/// An address in the form `0x…` with small letters.
pub fn norm_addr(a: &str) -> (r: String)
    ensures
        r@ == norm_addr_of(a@),
{
    let t = to_lower(trim(a));
    if crate::text::starts(t.as_str(), "0x") {
        t
    } else {
        let mut s = "0x".to_owned();
        s.append(t.as_str());
        s
    }
}

/// A part of the data of an event; empty where it is missing.
pub open spec fn part(parts: Seq<Str>, i: int) -> Str {
    if i < parts.len() {
        parts[i]
    } else {
        Seq::empty()
    }
}

/// The event that a line `name>>a,b,…` reports.
pub open spec fn event_of(line: Str) -> Option<EventView> {
    if !crate::text::has_text(line, ">>"@) {
        None
    } else {
        let i = crate::text::text_from(line, ">>"@, 0);
        let name = line.take(i);
        let parts = pieces(line.skip(i + ">>"@.len()), ',', 0);
        Some(
            if name == "openwindow"@ {
                EventView::OpenWindow { addr: norm_addr_of(part(parts, 0)), workspace: part(parts, 1) }
            } else if name == "closewindow"@ {
                EventView::CloseWindow { addr: norm_addr_of(part(parts, 0)) }
            } else if name == "movewindowv2"@ {
                EventView::MoveWindow { addr: norm_addr_of(part(parts, 0)), workspace: part(parts, 2) }
            } else if name == "workspacev2"@ {
                EventView::Workspace { name: part(parts, 1) }
            } else if name == "activewindowv2"@ {
                EventView::ActiveWindow { addr: norm_addr_of(part(parts, 0)) }
            } else {
                EventView::Other(name)
            },
        )
    }
}

fn part_at(parts: &Vec<String>, i: usize) -> (r: String)
    ensures
        r@ == part(views(parts@), i as int),
{
    if i < parts.len() {
        parts[i].clone()
    } else {
        String::new()
    }
}

/// Read a line of the event socket; `None` for a line that is not an event.
pub fn parse_event(line: &str) -> (r: Option<Event>)
    ensures
        oview(r) == event_of(line@),
{
    match split_text(line, ">>") {
        None => None,
        Some((name, data)) => {
            let parts = split(data, ',');
            let addr = norm_addr(part_at(&parts, 0).as_str());
            Some(
                if same(name, "openwindow") {
                    Event::OpenWindow { addr, workspace: part_at(&parts, 1) }
                } else if same(name, "closewindow") {
                    Event::CloseWindow { addr }
                } else if same(name, "movewindowv2") {
                    Event::MoveWindow { addr, workspace: part_at(&parts, 2) }
                } else if same(name, "workspacev2") {
                    Event::Workspace { name: part_at(&parts, 1) }
                } else if same(name, "activewindowv2") {
                    Event::ActiveWindow { addr }
                } else {
                    Event::Other(name.to_owned())
                },
            )
        },
    }
}

// ---- Expressions --------------------------------------------------------------

/// The part of an expression that picks a window.
pub open spec fn win_of(addr: Str) -> Str {
    "window = \"address:"@ + addr + "\""@
}

fn push_win(s: &mut String, addr: &str)
    ensures
        final(s)@ == old(s)@ + "window = \"address:"@ + addr@ + "\""@,
{
    s.append("window = \"address:");
    s.append(addr);
    s.append("\"");
}

/// The expression that moves a window to a desktop or a special place.
pub open spec fn move_of(addr: Str, workspace: Str) -> Str {
    "hl.dsp.window.move({ workspace = \""@ + workspace + "\", follow = false, "@ + win_of(addr) + " })"@
}

/// Move a window to a desktop or a special place without following it.
pub fn d_move_to(addr: &str, workspace: &str) -> (r: String)
    ensures
        r@ == move_of(addr@, workspace@),
{
    let mut s = "hl.dsp.window.move({ workspace = \"".to_owned();
    s.append(workspace);
    s.append("\", follow = false, ");
    let ghost head = s@;
    push_win(&mut s, addr);
    assert(s@ =~= head + win_of(addr@));
    s.append(" })");
    s
}

/// The expression that gives a window its size.
pub open spec fn resize_of(addr: Str, r: PxRect) -> Str {
    "hl.dsp.window.resize({ x = "@ + crate::text::dec_int(r.w as int) + ", y = "@ + crate::text::dec_int(r.h as int)
        + ", relative = false, "@ + win_of(addr) + " })"@
}

/// The expression that gives a window its position.
pub open spec fn position_of(addr: Str, r: PxRect) -> Str {
    "hl.dsp.window.move({ x = "@ + crate::text::dec_int(r.x as int) + ", y = "@ + crate::text::dec_int(r.y as int)
        + ", relative = false, "@ + win_of(addr) + " })"@
}

/// Give a window a rectangle: first the size, then the position.
pub fn d_place(addr: &str, r: PxRect) -> (e: [String; 2])
    ensures
        e@[0]@ == resize_of(addr@, r),
        e@[1]@ == position_of(addr@, r),
{
    let mut a = "hl.dsp.window.resize({ x = ".to_owned();
    push_int(&mut a, r.w as i64);
    a.append(", y = ");
    push_int(&mut a, r.h as i64);
    a.append(", relative = false, ");
    let ghost head = a@;
    push_win(&mut a, addr);
    assert(a@ =~= head + win_of(addr@));
    a.append(" })");
    let mut b = "hl.dsp.window.move({ x = ".to_owned();
    push_int(&mut b, r.x as i64);
    b.append(", y = ");
    push_int(&mut b, r.y as i64);
    b.append(", relative = false, ");
    let ghost tail = b@;
    push_win(&mut b, addr);
    assert(b@ =~= tail + win_of(addr@));
    b.append(" })");
    [a, b]
}

/// Take the full screen mode off the active window: `mode` is "fullscreen" or "maximized".
pub fn d_fullscreen_unset(mode: &str) -> (r: String)
    ensures
        r@ == "hl.dsp.window.fullscreen({ mode = \""@ + mode@ + "\", action = \"unset\" })"@,
{
    let mut s = "hl.dsp.window.fullscreen({ mode = \"".to_owned();
    s.append(mode);
    s.append("\", action = \"unset\" })");
    s
}

/// An expression about one window: what stands before and after the part that picks it.
pub open spec fn about(before: Str, addr: Str, after: Str) -> Str {
    before + win_of(addr) + after
}

fn about_window(before: &str, addr: &str, after: &str) -> (r: String)
    ensures
        r@ == about(before@, addr@, after@),
{
    let mut s = before.to_owned();
    push_win(&mut s, addr);
    assert(s@ =~= before@ + win_of(addr@));
    s.append(after);
    s
}

/// The expression that lets a window float.
pub open spec fn float_of(addr: Str) -> Str {
    about("hl.dsp.window.float({ action = \"on\", "@, addr, " })"@)
}

/// Let a window float.
pub fn d_float_on(addr: &str) -> (r: String)
    ensures
        r@ == float_of(addr@),
{
    about_window("hl.dsp.window.float({ action = \"on\", ", addr, " })")
}

/// The expression that gives a window the focus.
pub open spec fn focus_of(addr: Str) -> Str {
    about("hl.dsp.focus({ "@, addr, " })"@)
}

/// Give a window the focus.
pub fn d_focus_window(addr: &str) -> (r: String)
    ensures
        r@ == focus_of(addr@),
{
    about_window("hl.dsp.focus({ ", addr, " })")
}

/// The expression that raises the active window above the others.
pub open spec fn top_text() -> Str {
    "hl.dsp.window.bring_to_top()"@
}

/// Raise the active window above the others.
pub fn d_bring_to_top() -> (r: String)
    ensures
        r@ == top_text(),
{
    "hl.dsp.window.bring_to_top()".to_owned()
}

/// The expression that raises a window above the others.
pub open spec fn raise_of(addr: Str) -> Str {
    about("hl.dsp.window.alter_zorder({ mode = \"top\", "@, addr, " })"@)
}

/// Raise a window above the others without changing the focus.
pub fn d_raise(addr: &str) -> (r: String)
    ensures
        r@ == raise_of(addr@),
{
    about_window("hl.dsp.window.alter_zorder({ mode = \"top\", ", addr, " })")
}

/// The expression that goes to a desktop.
pub open spec fn desk_focus_of(n: u8) -> Str {
    "hl.dsp.focus({ workspace = "@ + crate::text::dec(n as nat) + " })"@
}

/// Go to a desktop.
pub fn d_focus_desktop(n: u8) -> (r: String)
    ensures
        r@ == desk_focus_of(n),
{
    let mut s = "hl.dsp.focus({ workspace = ".to_owned();
    push_dec(&mut s, n as u64);
    s.append(" })");
    s
}

/// The expression that puts a tag on a window.
pub open spec fn tag_of(addr: Str, tag: Str) -> Str {
    about("hl.dsp.window.tag({ tag = \""@ + tag + "\", "@, addr, " })"@)
}

/// Put a tag on a window.
pub fn d_tag(addr: &str, tag: &str) -> (r: String)
    ensures
        r@ == tag_of(addr@, tag@),
{
    let mut s = "hl.dsp.window.tag({ tag = \"".to_owned();
    s.append(tag);
    s.append("\", ");
    about_window(s.as_str(), addr, " })")
}

/// Take a tag off a window: a minus before the tag takes it off.
pub fn d_untag(addr: &str, tag: &str) -> (r: String)
    ensures
        r@ == tag_of(addr@, "-"@ + tag@),
{
    let mut s = "-".to_owned();
    s.append(tag);
    d_tag(addr, s.as_str())
}

/// The expression that closes a window.
pub open spec fn close_of(addr: Str) -> Str {
    about("hl.dsp.window.close({ "@, addr, " })"@)
}

/// Close a window.
pub fn d_close(addr: &str) -> (r: String)
    ensures
        r@ == close_of(addr@),
{
    about_window("hl.dsp.window.close({ ", addr, " })")
}

/// The calls of the first `n` expressions, one after the other.
pub open spec fn calls_upto(exprs: Seq<Str>, n: int) -> Str
    decreases n,
{
    if n <= 0 {
        Seq::empty()
    } else {
        calls_upto(exprs, n - 1) + "hl.dispatch("@ + exprs[n - 1] + "); "@
    }
}

/// One expression that runs all of them in order: itself where there is one, else a function that
/// calls all but the last and returns the last.
pub open spec fn batch_of(exprs: Seq<Str>) -> Option<Str> {
    if exprs.len() == 0 {
        None
    } else if exprs.len() == 1 {
        Some(exprs[0])
    } else {
        Some(
            "(function() "@ + calls_upto(exprs, exprs.len() - 1) + "return "@ + exprs[exprs.len() - 1] + " end)()"@,
        )
    }
}

/// One expression that runs all of them in order; `None` where there is nothing to run.
pub fn dispatch_all(exprs: &[String]) -> (r: Option<String>)
    ensures
        oview(r) == batch_of(views(exprs@)),
{
    let n: usize = exprs.len();
    if n == 0 {
        return None;
    }
    if n == 1 {
        return Some(exprs[0].clone());
    }
    let mut s = "(function() ".to_owned();
    let ghost head = s@;
    let mut i: usize = 0;
    proof {
        assert(head + calls_upto(views(exprs@), 0) =~= head);
    }
    while i < n - 1
        invariant
            i <= n - 1,
            n == exprs.len(),
            s@ == head + calls_upto(views(exprs@), i as int),
        decreases n - i,
    {
        let ghost before = s@;
        s.append("hl.dispatch(");
        s.append(exprs[i].as_str());
        s.append("); ");
        proof {
            let e = views(exprs@);
            assert(s@ =~= head + (calls_upto(e, i as int) + "hl.dispatch("@ + e[i as int] + "); "@));
        }
        i = i + 1;
    }
    s.append("return ");
    s.append(exprs[n - 1].as_str());
    s.append(" end)()");
    Some(s)
}

/// The request that runs an expression.
pub fn dispatch(expr: &str) -> (r: String)
    ensures
        r@ == "dispatch "@ + expr@,
{
    let mut s = "dispatch ".to_owned();
    s.append(expr);
    s
}

/// The compositor took the expression: it answered "ok".
pub fn dispatch_accepted(reply: &str) -> (r: bool)
    ensures
        r == (trimmed(reply@) == "ok"@),
{
    same(trim(reply), "ok")
}

// ---- References to windows ----------------------------------------------------

/// The windows that references stand for.
pub open spec fn derefs(s: Seq<&Client>) -> Seq<Client> {
    s.map_values(|c: &Client| *c)
}

pub broadcast proof fn lemma_derefs_push(s: Seq<&Client>, c: &Client)
    ensures
        #[trigger] derefs(s.push(c)) == derefs(s).push(*c),
{
    assert(derefs(s.push(c)) =~= derefs(s).push(*c));
}

pub broadcast proof fn lemma_derefs_empty(s: Seq<&Client>)
    requires
        s.len() == 0,
    ensures
        #[trigger] derefs(s) == Seq::<Client>::empty(),
{
    assert(derefs(s) =~= Seq::<Client>::empty());
}

pub broadcast group group_derefs {
    lemma_derefs_push,
    lemma_derefs_empty,
}

} // verus!
