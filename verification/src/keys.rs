//! Bindings: what every chain of the configuration does.
use vstd::prelude::*;

use crate::chain::{rview, Chain, Combo, ComboView};
use crate::config::{
    Action, ActionView, Bind, BindView, Desk, DeskView, Dispatch, DispatchView, MoveAction, MoveActionView,
    TargetActionView,
};
use crate::pattern::{quote, quoted};
use crate::table::{dup_all, dup_opt, Dup};
use crate::text::{
    contains, copy_all, copy_opt, dec, dec_int, has_prefix, has_text, int_text, join, joined, oview, pieces,
    push_dec, replace, replaced, same, split, strip, trim, trimmed, views, Str,
};

verus! {

broadcast use crate::text::group_views;

/// What a binding does.
#[derive(Debug, PartialEq)]
pub enum Act {
    /// A command of the daemon (`workspaced raise dots`).
    Daemon(String),
    /// A command for the compositor to run.
    Exec(String),
    /// Expressions of dispatchers without the prefix `hl.dsp.`.
    Dispatch(Vec<String>),
    /// The body of a function of a script.
    Lua(String),
    /// Open the mode of this name.
    Sticky(String),
}

/// What an action is.
pub enum ActView {
    Daemon(Str),
    Exec(Str),
    Dispatch(Seq<Str>),
    Lua(Str),
    Sticky(Str),
}

impl View for Act {
    type V = ActView;

    open spec fn view(&self) -> ActView {
        match *self {
            Act::Daemon(s) => ActView::Daemon(s@),
            Act::Exec(s) => ActView::Exec(s@),
            Act::Dispatch(v) => ActView::Dispatch(views(v@)),
            Act::Lua(s) => ActView::Lua(s@),
            Act::Sticky(s) => ActView::Sticky(s@),
        }
    }
}

impl Dup for Act {
    fn dup(&self) -> (r: Self) {
        match self {
            Act::Daemon(s) => Act::Daemon(s.clone()),
            Act::Exec(s) => Act::Exec(s.clone()),
            Act::Dispatch(v) => Act::Dispatch(copy_all(v.as_slice())),
            Act::Lua(s) => Act::Lua(s.clone()),
            Act::Sticky(s) => Act::Sticky(s.clone()),
        }
    }
}

// ---- Lines of a text ----------------------------------------------------------

/// A line without the carriage return at its end.
pub open spec fn without_return(s: Str) -> Str {
    if s.len() > 0 && s.last() == '\r' {
        s.drop_last()
    } else {
        s
    }
}

/// The first `n` lines of a text that was cut at its line feeds.
pub open spec fn lines_upto(p: Seq<Str>, n: int) -> Seq<Str>
    decreases n,
{
    if n <= 0 {
        Seq::empty()
    } else if n < p.len() {
        lines_upto(p, n - 1).push(without_return(p[n - 1]))
    } else if p[n - 1].len() == 0 {
        lines_upto(p, n - 1)
    } else {
        lines_upto(p, n - 1).push(p[n - 1])
    }
}

/// The lines of a text.
pub open spec fn lines_of(s: Str) -> Seq<Str> {
    let p = pieces(s, '\n', 0);
    lines_upto(p, p.len() as int)
}

/// The lines of a text (`str::lines`).
pub fn lines(s: &str) -> (r: Vec<String>)
    ensures
        views(r@) == lines_of(s@),
{
    let p = split(s, '\n');
    let mut out: Vec<String> = Vec::new();
    let mut i: usize = 0;
    while i < p.len()
        invariant
            i <= p.len(),
            views(p@) == pieces(s@, '\n', 0),
            views(out@) == lines_upto(views(p@), i as int),
        decreases p.len() - i,
    {
        let t = p[i].as_str();
        let n: usize = t.unicode_len();
        if i + 1 < p.len() {
            if n > 0 && t.get_char(n - 1) == '\r' {
                proof {
                    assert(t@.subrange(0, n - 1) =~= t@.drop_last());
                }
                out.push(t.substring_char(0, n - 1).to_owned());
            } else {
                out.push(p[i].clone());
            }
        } else if n > 0 {
            out.push(p[i].clone());
        }
        i = i + 1;
    }
    out
}

/// The first text from `i` on that is not empty once white space at its ends is gone.
pub open spec fn first_line_from(p: Seq<Str>, i: int) -> Str
    decreases p.len() - i,
{
    if i >= p.len() {
        Seq::empty()
    } else if trimmed(p[i]).len() > 0 {
        trimmed(p[i])
    } else {
        first_line_from(p, i + 1)
    }
}

fn first_line(s: &str) -> (r: String)
    ensures
        r@ == first_line_from(lines_of(s@), 0),
{
    let p = lines(s);
    let mut i: usize = 0;
    while i < p.len()
        invariant
            i <= p.len(),
            views(p@) == lines_of(s@),
            first_line_from(lines_of(s@), 0) == first_line_from(lines_of(s@), i as int),
        decreases p.len() - i,
    {
        let t = trim(p[i].as_str());
        if !t.is_empty() {
            return t.to_owned();
        }
        i = i + 1;
    }
    String::new()
}

// ---- Descriptions -------------------------------------------------------------

/// What stands in single quotes of a shell; `None` where the text is not in such quotes.
pub open spec fn unquoted(s: Str) -> Option<Str> {
    if s.len() >= 2 && s[0] == '\'' && s.last() == '\'' {
        Some(replaced(s.subrange(1, s.len() - 1), "'\\''"@, "'"@, 0))
    } else {
        None
    }
}

/// The text in single quotes of a shell.
pub open spec fn shell_quoted(s: Str) -> Str {
    "'"@ + replaced(s, "'"@, "'\\''"@, 0) + "'"@
}

/// A command of the daemon without the name of the program.
pub open spec fn bare_command(cmd: Str) -> Str {
    if has_prefix(cmd, "workspaced "@) {
        cmd.skip("workspaced "@.len() as int)
    } else {
        cmd
    }
}

/// A command of the daemon without the name of the program.
pub fn bare<'a>(cmd: &'a str) -> (r: &'a str)
    ensures
        r@ == bare_command(cmd@),
{
    match strip(cmd, "workspaced ") {
        Some(t) => t,
        None => cmd,
    }
}

fn unquote(s: &str) -> (r: Option<String>)
    ensures
        oview(r) == unquoted(s@),
{
    let n: usize = s.unicode_len();
    if n >= 2 && s.get_char(0) == '\'' && s.get_char(n - 1) == '\'' {
        proof {
            reveal_strlit("'\\''");
        }
        Some(replace(s.substring_char(1, n - 1), "'\\''", "'"))
    } else {
        None
    }
}

/// The chain of a key command without the quotes of the shell, for a head of the command.
pub open spec fn bare_key(cmd: Str, head: Str) -> Option<Str> {
    if has_prefix(cmd, head) {
        match unquoted(cmd.skip(head.len() as int)) {
            Some(c) => Some(head + c),
            None => None,
        }
    } else {
        None
    }
}

fn strip_key(cmd: &str, head: &str) -> (r: Option<String>)
    ensures
        oview(r) == bare_key(cmd@, head@),
{
    match strip(cmd, head) {
        Some(t) => match unquote(t) {
            Some(c) => {
                let mut s = head.to_owned();
                s.append(c.as_str());
                Some(s)
            },
            None => None,
        },
        None => None,
    }
}

impl ActView {
    /// The action in a list: `raise dots`, `exec wezterm-gui`, `dispatch window.close()`.
    pub open spec fn describe(self) -> Str {
        match self {
            ActView::Daemon(c) => {
                let cmd = bare_command(c);
                match bare_key(cmd, "key --new "@) {
                    Some(s) => s,
                    None => match bare_key(cmd, "key "@) {
                        Some(s) => s,
                        None => cmd,
                    },
                }
            },
            ActView::Exec(c) => "exec "@ + c,
            ActView::Dispatch(v) => "dispatch "@ + joined(v, "; "@),
            ActView::Lua(body) => "lua "@ + first_line_from(lines_of(body), 0) + if has_text(trimmed(body), "\n"@) {
                " …"@
            } else {
                ""@
            },
            ActView::Sticky(n) => "sticky "@ + n,
        }
    }
}

impl Act {
    /// The action in a list: `raise dots`, `exec wezterm-gui`, `dispatch window.close()`.
    pub fn describe(&self) -> (r: String)
        ensures
            r@ == self@.describe(),
    {
        match self {
            Act::Daemon(c) => {
                let cmd = bare(c.as_str());
                if let Some(s) = strip_key(cmd, "key --new ") {
                    return s;
                }
                if let Some(s) = strip_key(cmd, "key ") {
                    return s;
                }
                cmd.to_owned()
            },
            Act::Exec(c) => {
                let mut s = "exec ".to_owned();
                s.append(c.as_str());
                s
            },
            Act::Dispatch(v) => {
                let mut s = "dispatch ".to_owned();
                s.append(join(v.as_slice(), "; ").as_str());
                s
            },
            Act::Lua(body) => {
                let mut s = "lua ".to_owned();
                s.append(first_line(body.as_str()).as_str());
                s.append(
                    if contains(trim(body.as_str()), "\n") {
                        " …"
                    } else {
                        ""
                    },
                );
                s
            },
            Act::Sticky(n) => {
                let mut s = "sticky ".to_owned();
                s.append(n.as_str());
                s
            },
        }
    }
}

// ---- Flags --------------------------------------------------------------------

/// The flags of a binding.
#[derive(Debug, Clone, Copy, PartialEq, Eq, Structural)]
pub struct Flags {
    pub locked: bool,
    pub repeating: bool,
    pub mouse: bool,
    pub release: bool,
}

impl Flags {
    /// No flag is set.
    pub open spec fn unset() -> Flags {
        Flags { locked: false, repeating: false, mouse: false, release: false }
    }

    /// The names of the flags that are set.
    pub open spec fn set_names(self) -> Seq<Str> {
        let a = if self.locked {
            Seq::<Str>::empty().push("locked"@)
        } else {
            Seq::<Str>::empty()
        };
        let b = if self.repeating {
            a.push("repeating"@)
        } else {
            a
        };
        let c = if self.mouse {
            b.push("mouse"@)
        } else {
            b
        };
        if self.release {
            c.push("release"@)
        } else {
            c
        }
    }

    /// The names of the flags that are set.
    pub fn names(&self) -> (r: Vec<String>)
        ensures
            views(r@) == self.set_names(),
    {
        let mut v: Vec<String> = Vec::new();
        if self.locked {
            v.push("locked".to_owned());
        }
        if self.repeating {
            v.push("repeating".to_owned());
        }
        if self.mouse {
            v.push("mouse".to_owned());
        }
        if self.release {
            v.push("release".to_owned());
        }
        v
    }
}

impl Default for Flags {
    fn default() -> (r: Self)
        ensures
            r == Flags::unset(),
    {
        Flags { locked: false, repeating: false, mouse: false, release: false }
    }
}

impl View for Flags {
    type V = Flags;

    open spec fn view(&self) -> Flags {
        *self
    }
}

// ---- Bindings -----------------------------------------------------------------

/// A binding: a chain, an action, flags and where it comes from. `origin` is the number of the
/// binding of the configuration that it was made of.
#[derive(Debug, PartialEq)]
pub struct Binding {
    pub chain: Vec<Combo>,
    pub source: String,
    pub act: Act,
    pub flags: Flags,
    pub origin: Option<usize>,
}

/// What a binding is.
pub struct BindingView {
    pub chain: Seq<ComboView>,
    pub source: Str,
    pub act: ActView,
    pub flags: Flags,
    pub origin: Option<usize>,
}

impl View for Binding {
    type V = BindingView;

    open spec fn view(&self) -> BindingView {
        BindingView {
            chain: views(self.chain@),
            source: self.source@,
            act: self.act@,
            flags: self.flags,
            origin: self.origin,
        }
    }
}

impl Dup for Binding {
    fn dup(&self) -> (r: Self) {
        Binding {
            chain: dup_all(self.chain.as_slice()),
            source: self.source.clone(),
            act: self.act.dup(),
            flags: self.flags,
            origin: self.origin,
        }
    }
}

/// A binding without flags that runs a command of the daemon.
pub open spec fn plain_of(chain: Seq<ComboView>, source: Str, command: Str) -> BindingView {
    BindingView { chain, source, act: ActView::Daemon(command), flags: Flags::unset(), origin: None }
}

pub(crate) fn plain(chain: Chain, source: String, command: String) -> (r: Binding)
    ensures
        r@ == plain_of(views(chain@), source@, command@),
{
    Binding { chain, source, act: Act::Daemon(command), flags: Flags::default(), origin: None }
}

// ---- Series -------------------------------------------------------------------

/// The text with `n` in the place of `$n`.
pub open spec fn with_n(s: Str, n: Str) -> Str {
    replaced(s, "$n"@, n, 0)
}

fn put_n(s: &str, n: &str) -> (r: String)
    ensures
        r@ == with_n(s@, n@),
{
    proof {
        reveal_strlit("$n");
    }
    replace(s, "$n", n)
}

fn put_n_opt(s: &Option<String>, n: &str) -> (r: Option<String>)
    ensures
        oview(r) == match oview(*s) {
            Some(t) => Some(with_n(t, n@)),
            None => None::<Str>,
        },
{
    match s {
        Some(t) => Some(put_n(t.as_str(), n)),
        None => None,
    }
}

impl BindView {
    /// The binding with `n` in the place of `$n`, without its range.
    pub open spec fn substitute(self, n: Str) -> BindView {
        BindView {
            chain: with_n(self.chain, n),
            run: match self.run {
                Some(t) => Some(with_n(t, n)),
                None => None,
            },
            desc: match self.desc {
                Some(t) => Some(with_n(t, n)),
                None => None,
            },
            action: match self.action {
                Some(ActionView::Move(m)) => Some(
                    ActionView::Move(MoveActionView { desktop: DeskView::Str(with_n(m.desktop.text(), n)) }),
                ),
                other => other,
            },
            dispatch: match self.dispatch {
                Some(DispatchView::One(t)) => Some(DispatchView::One(with_n(t, n))),
                Some(DispatchView::Many(v)) => Some(DispatchView::Many(v.map_values(|t: Str| with_n(t, n)))),
                None => None,
            },
            range: None,
            ..self
        }
    }

    /// The first `k` bindings of the series that begins at `from`.
    pub open spec fn series_upto(self, from: int, k: int) -> Seq<BindView>
        decreases k,
    {
        if k <= 0 {
            Seq::empty()
        } else {
            self.series_upto(from, k - 1).push(self.substitute(dec_int(from + k - 1)))
        }
    }

    /// The bindings that this one stands for.
    pub open spec fn expand_range(self) -> Seq<BindView> {
        match self.range {
            Some((from, to)) => self.series_upto(from as int, to - from + 1),
            None => seq![self],
        }
    }
}

/// The binding with `n` in the place of `$n`, without its range.
pub fn substitute(b: &Bind, n: &str) -> (r: Bind)
    ensures
        r@ == b@.substitute(n@),
{
    let dispatch = match &b.dispatch {
        Some(Dispatch::One(t)) => Some(Dispatch::One(put_n(t.as_str(), n))),
        Some(Dispatch::Many(v)) => {
            let ghost t = views(v@).map_values(|t: Str| with_n(t, n@));
            let mut w: Vec<String> = Vec::new();
            let mut i: usize = 0;
            while i < v.len()
                invariant
                    i <= v.len(),
                    t == views(v@).map_values(|t: Str| with_n(t, n@)),
                    views(w@) == t.take(i as int),
                decreases v.len() - i,
            {
                w.push(put_n(v[i].as_str(), n));
                proof {
                    assert(t.take(i + 1) =~= t.take(i as int).push(t[i as int]));
                }
                i = i + 1;
            }
            proof {
                assert(t.take(i as int) =~= t);
            }
            Some(Dispatch::Many(w))
        },
        None => None,
    };
    let action = match &b.action {
        Some(Action::Move(m)) => Some(
            Action::Move(MoveAction { desktop: Desk::Str(put_n(m.desktop.text().as_str(), n)) }),
        ),
        other => dup_opt(other),
    };
    Bind {
        chain: put_n(b.chain.as_str(), n),
        action,
        run: put_n_opt(&b.run, n),
        dispatch,
        lua: copy_opt(&b.lua),
        range: None,
        locked: b.locked,
        repeating: b.repeating,
        mouse: b.mouse,
        release: b.release,
        desc: put_n_opt(&b.desc, n),
        group: copy_opt(&b.group),
    }
}

/// The bindings that one of the configuration stands for: itself, or its series.
pub fn expand_range(b: &Bind) -> (r: Vec<Bind>)
    ensures
        views(r@) == b@.expand_range(),
{
    let mut out: Vec<Bind> = Vec::new();
    match b.range {
        None => {
            out.push(b.dup());
            proof {
                assert(views(out@) =~= seq![b@]);
            }
        },
        Some((from, to)) => {
            if from <= to {
                let mut n: i64 = from;
                loop
                    invariant_except_break
                        from <= n <= to,
                        views(out@) == b@.series_upto(from as int, n - from),
                    ensures
                        views(out@) == b@.series_upto(from as int, to - from + 1),
                    decreases to - n,
                {
                    out.push(substitute(b, int_text(n).as_str()));
                    if n == to {
                        break;
                    }
                    n = n + 1;
                }
            }
        },
    }
    out
}

// ---- Actions ------------------------------------------------------------------

/// A fault of a binding: its chain and what is wrong.
pub open spec fn bind_fault(chain: Str, what: Str) -> Str {
    "привязка "@ + quoted(chain) + ": "@ + what
}

/// A fault of a binding: its chain and what is wrong.
pub fn make_bind_fault(chain: &str, what: &str) -> (r: String)
    ensures
        r@ == bind_fault(chain@, what@),
{
    let mut s = "привязка ".to_owned();
    s.append(quote(chain).as_str());
    s.append(": ");
    s.append(what);
    s
}

/// The command of a named action.
pub open spec fn named_command(n: Str) -> Option<Str> {
    if n == "sessions"@ {
        Some("workspaced sessions"@)
    } else if n == "save-session"@ {
        Some("workspaced save-session"@)
    } else if n == "save-workspace"@ {
        Some("workspaced save-workspace"@)
    } else if n == "next-workspace"@ {
        Some("workspaced next"@)
    } else if n == "maximize"@ {
        Some("workspaced maximize"@)
    } else if n == "arrange"@ {
        Some("workspaced arrange"@)
    } else if n == "detach"@ {
        Some("workspaced detach"@)
    } else {
        None
    }
}

/// The command of a named action.
pub fn named(n: &str) -> (r: Option<&'static str>)
    ensures
        oview(r) == named_command(n@),
        r is Some == named_command(n@) is Some,
{
    if same(n, "sessions") {
        Some("workspaced sessions")
    } else if same(n, "save-session") {
        Some("workspaced save-session")
    } else if same(n, "save-workspace") {
        Some("workspaced save-workspace")
    } else if same(n, "next-workspace") {
        Some("workspaced next")
    } else if same(n, "maximize") {
        Some("workspaced maximize")
    } else if same(n, "arrange") {
        Some("workspaced arrange")
    } else if same(n, "detach") {
        Some("workspaced detach")
    } else {
        None
    }
}

/// The command of an action on a desktop, a workspace and an application; `None` where neither a
/// workspace nor an application is given.
pub open spec fn target_command(t: TargetActionView) -> Option<Str> {
    if t.workspace is None && t.app is None {
        None
    } else {
        let a = match t.app {
            Some(a) => "workspaced app "@ + a,
            None => "workspaced raise "@ + t.workspace->0,
        };
        let b = if t.workspace is Some && t.app is Some {
            a + " --workspace "@ + t.workspace->0
        } else {
            a
        };
        let c = match t.desktop {
            Some(d) => b + " --desktop "@ + dec(d as nat),
            None => b,
        };
        let d = if t.pull == Some(true) {
            c + " --pull"@
        } else {
            c
        };
        Some(
            if t.new == Some(true) {
                d + " --new"@
            } else {
                d
            },
        )
    }
}

fn is_true(o: Option<bool>) -> (r: bool)
    ensures
        r == (o == Some(true)),
{
    match o {
        Some(b) => b,
        None => false,
    }
}

/// The command of an action on a desktop, a workspace and an application.
pub fn target(t: &crate::config::TargetAction) -> (r: Option<String>)
    ensures
        oview(r) == target_command(t@),
{
    let mut s = match (&t.workspace, &t.app) {
        (_, Some(a)) => {
            let mut s = "workspaced app ".to_owned();
            s.append(a.as_str());
            s
        },
        (Some(w), None) => {
            let mut s = "workspaced raise ".to_owned();
            s.append(w.as_str());
            s
        },
        (None, None) => return None,
    };
    if let (Some(w), Some(_)) = (&t.workspace, &t.app) {
        s.append(" --workspace ");
        s.append(w.as_str());
    }
    if let Some(d) = t.desktop {
        s.append(" --desktop ");
        push_dec(&mut s, d as u64);
    }
    if is_true(t.pull) {
        s.append(" --pull");
    }
    if is_true(t.new) {
        s.append(" --new");
    }
    Some(s)
}

impl BindView {
    /// What the binding does. With `strict` the desktop of a move has to be a number from 1 to 8; else
    /// its text stands in the command as it is.
    pub open spec fn act(self, strict: bool) -> Result<ActView, Str> {
        match self.action {
            Some(ActionView::Named(n)) => match named_command(n) {
                Some(c) => Ok(ActView::Daemon(c)),
                None => Err(bind_fault(self.chain, "неизвестное действие "@ + quoted(n))),
            },
            Some(ActionView::Half(a)) => Ok(ActView::Daemon("workspaced half "@ + a.half)),
            Some(ActionView::Place(a)) => Ok(ActView::Daemon("workspaced place "@ + a.place)),
            Some(ActionView::Move(m)) => match m.desktop.number() {
                Some(n) => Ok(ActView::Daemon("workspaced move-desktop "@ + dec(n as nat))),
                None => if strict {
                    Err(
                        bind_fault(
                            self.chain,
                            "move должен быть номером стола от 1 до 8, получено "@ + quoted(m.desktop.text()),
                        ),
                    )
                } else {
                    Ok(ActView::Daemon("workspaced move-desktop "@ + m.desktop.text()))
                },
            },
            Some(ActionView::Target(t)) => match target_command(t) {
                Some(c) => Ok(ActView::Daemon(c)),
                None => Err(bind_fault(self.chain, "в action нужен workspace или app"@)),
            },
            None => match self.run {
                Some(c) => Ok(ActView::Exec(c)),
                None => match self.dispatch {
                    Some(d) => Ok(ActView::Dispatch(d.exprs())),
                    None => match self.lua {
                        Some(b) => Ok(ActView::Lua(b)),
                        None => Err(bind_fault(self.chain, "нет действия"@)),
                    },
                },
            },
        }
    }
}

/// What a binding does.
pub fn bind_act(b: &Bind, strict: bool) -> (r: Result<Act, String>)
    ensures
        rview(r) == b@.act(strict),
{
    match &b.action {
        Some(Action::Named(n)) => match named(n.as_str()) {
            Some(c) => Ok(Act::Daemon(c.to_owned())),
            None => {
                let mut s = "неизвестное действие ".to_owned();
                s.append(quote(n.as_str()).as_str());
                Err(make_bind_fault(b.chain.as_str(), s.as_str()))
            },
        },
        Some(Action::Half(a)) => {
            let mut s = "workspaced half ".to_owned();
            s.append(a.half.as_str());
            Ok(Act::Daemon(s))
        },
        Some(Action::Place(a)) => {
            let mut s = "workspaced place ".to_owned();
            s.append(a.place.as_str());
            Ok(Act::Daemon(s))
        },
        Some(Action::Move(m)) => match m.desktop.number() {
            Some(n) => {
                let mut s = "workspaced move-desktop ".to_owned();
                push_dec(&mut s, n as u64);
                Ok(Act::Daemon(s))
            },
            None => {
                if strict {
                    let mut s = "move должен быть номером стола от 1 до 8, получено ".to_owned();
                    s.append(quote(m.desktop.text().as_str()).as_str());
                    Err(make_bind_fault(b.chain.as_str(), s.as_str()))
                } else {
                    let mut s = "workspaced move-desktop ".to_owned();
                    s.append(m.desktop.text().as_str());
                    Ok(Act::Daemon(s))
                }
            },
        },
        Some(Action::Target(t)) => match target(t) {
            Some(c) => Ok(Act::Daemon(c)),
            None => Err(make_bind_fault(b.chain.as_str(), "в action нужен workspace или app")),
        },
        None => match &b.run {
            Some(c) => Ok(Act::Exec(c.clone())),
            None => match &b.dispatch {
                Some(d) => Ok(Act::Dispatch(d.exprs())),
                None => match &b.lua {
                    Some(body) => Ok(Act::Lua(body.clone())),
                    None => Err(make_bind_fault(b.chain.as_str(), "нет действия")),
                },
            },
        },
    }
}

/// The text in single quotes of a shell.
pub fn shell_quote(s: &str) -> (r: String)
    ensures
        r@ == shell_quoted(s@),
{
    let mut t = "'".to_owned();
    proof {
        reveal_strlit("'");
    }
    t.append(replace(s, "'", "'\\''").as_str());
    t.append("'");
    t
}
proof fn lemma_unquoted(s: Str, i: int)
    requires
        0 <= i <= s.len(),
    ensures
        replaced(replaced(s, "'"@, "'\\''"@, i), "'\\''"@, "'"@, 0) == s.skip(i),
    decreases s.len() - i,
{
    reveal_strlit("'");
    reveal_strlit("'\\''");
    let one = "'"@;
    let four = "'\\''"@;
    assert(one =~= seq!['\'']);
    assert(four =~= seq!['\'', '\\', '\'', '\'']);
    let q = replaced(s, one, four, i);
    if i < s.len() {
        lemma_unquoted(s, i + 1);
        let t = s.skip(i);
        assert(t[0] == s[i]);
        if s[i] == '\'' {
            assert(t.take(1) =~= one);
            assert(has_prefix(t, one));
            let rest = replaced(s, one, four, i + 1);
            assert(q == four + rest);
            assert(q.skip(0) =~= q);
            assert(q.take(4) =~= four);
            crate::text::lemma_replaced_shift(four, rest, four, one, 0);
        } else {
            assert(!has_prefix(t, one)) by {
                if has_prefix(t, one) {
                    assert(t.take(1)[0] == one[0]);
                }
            }
            let rest = replaced(s, one, four, i + 1);
            let head = seq![s[i]];
            assert(q == head + rest);
            assert(!has_prefix(q.skip(0), four)) by {
                assert(q.skip(0) =~= q);
                if has_prefix(q, four) {
                    assert(q.take(4)[0] == four[0]);
                }
            }
            crate::text::lemma_replaced_shift(head, rest, four, one, 0);
        }
        assert(seq![s[i]] + s.skip(i + 1) =~= s.skip(i));
    } else {
        assert(q =~= Seq::empty());
        assert(s.skip(i) =~= Seq::empty());
    }
}

/// What was put in single quotes of a shell comes out of them unchanged.
pub proof fn law_quotes_come_off(s: Str)
    ensures
        unquoted(shell_quoted(s)) == Some(s),
{
    lemma_unquoted(s, 0);
    reveal_strlit("'");
    let q = replaced(s, "'"@, "'\\''"@, 0);
    let all = shell_quoted(s);
    assert(all[0] == '\'');
    assert(all.last() == '\'');
    assert(all.subrange(1, all.len() - 1) =~= q);
    assert(s.skip(0) =~= s);
}

} // verus!
