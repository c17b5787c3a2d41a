//! The key help of the panel: every binding with a label, a description and a group.
use vstd::prelude::*;

use crate::chain::{
    chain_compact, chain_of, combo_of, compact_of, parse_chain, parse_combo, rviews, Combo, ComboView,
};
use crate::collect::collect;
use crate::config::{Action, ActionView, Bind, BindView, Config, ConfigView, TargetAction, TargetActionView};
use crate::keys::{bare, bare_command, bind_act, substitute, Act, ActView, Binding, BindingView};
use crate::labels::{chain_label, chain_label_of, combo_label, combo_label_of};
use crate::modes::check_chains;
use crate::table::{Dup, Table};
use crate::text::{
    contains, dec, dec_int, has_prefix, has_text, holds, join, joined, oview, pieces, push_dec, push_int, same, split,
    split_words, starts, strip, views, words, Str,
};

verus! {

broadcast use crate::text::group_views;

/// The groups in the order in which they are shown. A group of the configuration that is not among
/// them comes after them.
pub const GROUPS: [&'static str; 9] = [
    "Workspace",
    "Столы",
    "Приложения",
    "Окна",
    "Уведомления",
    "Звук и яркость",
    "Снимки экрана",
    "Раскладка",
    "Сессия и прочее",
];

/// A line of the key help.
#[derive(Debug, PartialEq)]
pub struct Entry {
    /// The chain as in the list of bindings.
    pub chain: String,
    /// The chain for people: `Ctrl+Super+S Ctrl+Super+W`.
    pub label: String,
    pub desc: String,
    pub group: String,
    /// The action as in the list of bindings.
    pub action: String,
    /// Where the binding comes from: `apps.chrome`, `binds[3]`, `keys.reserved`.
    pub source: String,
}

/// What a line of the key help says.
pub struct EntryView {
    pub chain: Str,
    pub label: Str,
    pub desc: Str,
    pub group: Str,
    pub action: Str,
    pub source: Str,
}

impl View for Entry {
    type V = EntryView;

    open spec fn view(&self) -> EntryView {
        EntryView {
            chain: self.chain@,
            label: self.label@,
            desc: self.desc@,
            group: self.group@,
            action: self.action@,
            source: self.source@,
        }
    }
}

impl Dup for Entry {
    fn dup(&self) -> (r: Self) {
        Entry {
            chain: self.chain.clone(),
            label: self.label.clone(),
            desc: self.desc.clone(),
            group: self.group.clone(),
            action: self.action.clone(),
            source: self.source.clone(),
        }
    }
}

// ---- Descriptions -------------------------------------------------------------

/// The description of a half of the desktop.
pub open spec fn half_desc_of(side: Str) -> Option<Str> {
    if side == "left"@ {
        Some("Окно в левую половину"@)
    } else if side == "right"@ {
        Some("Окно в правую половину"@)
    } else if side == "up"@ {
        Some("Окно в верхнюю половину"@)
    } else if side == "down"@ {
        Some("Окно в нижнюю половину"@)
    } else {
        None
    }
}

/// The description of a place of the desktop.
pub open spec fn place_desc_of(pos: Str) -> Option<Str> {
    if pos == "top-left"@ {
        Some("Окно в верхний левый угол"@)
    } else if pos == "top-center"@ {
        Some("Окно вверх по центру"@)
    } else if pos == "top-right"@ {
        Some("Окно в верхний правый угол"@)
    } else if pos == "bottom-left"@ {
        Some("Окно в нижний левый угол"@)
    } else if pos == "bottom-center"@ {
        Some("Окно вниз по центру"@)
    } else if pos == "bottom-right"@ {
        Some("Окно в нижний правый угол"@)
    } else if pos == "center"@ {
        Some("Окно по центру во всю высоту"@)
    } else if pos == "full"@ {
        Some("Окно на всю рабочую область"@)
    } else {
        None
    }
}

/// The description of a command of the daemon by its first two words.
pub open spec fn command_desc_of(head: Str, arg: Str) -> Option<Str> {
    if head == "save-session"@ {
        Some("Записать снимок сессии"@)
    } else if head == "save-workspace"@ {
        Some("Записать workspace в конфиг"@)
    } else if head == "sessions"@ {
        Some("Окно выбора сессии"@)
    } else if head == "next"@ {
        Some("Следующий workspace стола"@)
    } else if head == "maximize"@ {
        Some("Развернуть окно; повторно — вернуть прежнюю геометрию"@)
    } else if head == "arrange"@ {
        Some("Расставить окна стола по активному workspace"@)
    } else if head == "detach"@ {
        Some("Отделить окно от workspace и закрыть"@)
    } else if head == "move-desktop"@ {
        Some("Перенести workspace на стол "@ + arg + " и перейти туда"@)
    } else if head == "half"@ {
        half_desc_of(arg)
    } else if head == "place"@ {
        place_desc_of(arg)
    } else {
        None
    }
}

/// The description of a command of the daemon without the name of the program.
pub open spec fn daemon_desc_of(cmd: Str) -> Option<Str> {
    let w = words(cmd, 0);
    if w.len() == 0 {
        None
    } else {
        command_desc_of(
            w[0],
            if w.len() > 1 {
                w[1]
            } else {
                ""@
            },
        )
    }
}

fn half_desc(side: &str) -> (r: Option<String>)
    ensures
        oview(r) == half_desc_of(side@),
{
    if same(side, "left") {
        Some("Окно в левую половину".to_owned())
    } else if same(side, "right") {
        Some("Окно в правую половину".to_owned())
    } else if same(side, "up") {
        Some("Окно в верхнюю половину".to_owned())
    } else if same(side, "down") {
        Some("Окно в нижнюю половину".to_owned())
    } else {
        None
    }
}

fn place_desc(pos: &str) -> (r: Option<String>)
    ensures
        oview(r) == place_desc_of(pos@),
{
    if same(pos, "top-left") {
        Some("Окно в верхний левый угол".to_owned())
    } else if same(pos, "top-center") {
        Some("Окно вверх по центру".to_owned())
    } else if same(pos, "top-right") {
        Some("Окно в верхний правый угол".to_owned())
    } else if same(pos, "bottom-left") {
        Some("Окно в нижний левый угол".to_owned())
    } else if same(pos, "bottom-center") {
        Some("Окно вниз по центру".to_owned())
    } else if same(pos, "bottom-right") {
        Some("Окно в нижний правый угол".to_owned())
    } else if same(pos, "center") {
        Some("Окно по центру во всю высоту".to_owned())
    } else if same(pos, "full") {
        Some("Окно на всю рабочую область".to_owned())
    } else {
        None
    }
}

/// The description of a command of the daemon without the name of the program.
pub fn daemon_desc(cmd: &str) -> (r: Option<String>)
    ensures
        oview(r) == daemon_desc_of(cmd@),
{
    let w = split_words(cmd);
    if w.len() == 0 {
        return None;
    }
    let head = w[0].as_str();
    assert(views(w@)[0] == head@);
    let arg = if w.len() > 1 {
        w[1].as_str()
    } else {
        ""
    };
    if same(head, "save-session") {
        Some("Записать снимок сессии".to_owned())
    } else if same(head, "save-workspace") {
        Some("Записать workspace в конфиг".to_owned())
    } else if same(head, "sessions") {
        Some("Окно выбора сессии".to_owned())
    } else if same(head, "next") {
        Some("Следующий workspace стола".to_owned())
    } else if same(head, "maximize") {
        Some("Развернуть окно; повторно — вернуть прежнюю геометрию".to_owned())
    } else if same(head, "arrange") {
        Some("Расставить окна стола по активному workspace".to_owned())
    } else if same(head, "detach") {
        Some("Отделить окно от workspace и закрыть".to_owned())
    } else if same(head, "move-desktop") {
        let mut s = "Перенести workspace на стол ".to_owned();
        s.append(arg);
        s.append(" и перейти туда");
        Some(s)
    } else if same(head, "half") {
        half_desc(arg)
    } else if same(head, "place") {
        place_desc(arg)
    } else {
        None
    }
}

/// The description of an action on a desktop, a workspace and an application.
pub open spec fn target_desc_of(t: TargetActionView) -> Str {
    let a = match (t.workspace, t.app) {
        (Some(w), Some(a)) => "Приложение "@ + a + " в workspace "@ + w,
        (None, Some(a)) => "Приложение "@ + a,
        (Some(w), None) => "Поднять workspace "@ + w,
        (None, None) => ""@,
    };
    let b = match t.desktop {
        Some(d) => a + " на столе "@ + dec(d as nat),
        None => a,
    };
    if t.pull == Some(true) {
        b + " с переносом в активный workspace"@
    } else {
        b
    }
}

/// The description of an action on a desktop, a workspace and an application.
pub fn target_desc(t: &TargetAction) -> (r: String)
    ensures
        r@ == target_desc_of(t@),
{
    let mut s = match (&t.workspace, &t.app) {
        (Some(w), Some(a)) => {
            let mut s = "Приложение ".to_owned();
            s.append(a.as_str());
            s.append(" в workspace ");
            s.append(w.as_str());
            s
        },
        (None, Some(a)) => {
            let mut s = "Приложение ".to_owned();
            s.append(a.as_str());
            s
        },
        (Some(w), None) => {
            let mut s = "Поднять workspace ".to_owned();
            s.append(w.as_str());
            s
        },
        (None, None) => "".to_owned(),
    };
    if let Some(d) = t.desktop {
        s.append(" на столе ");
        push_dec(&mut s, d as u64);
    }
    if let Some(true) = t.pull {
        s.append(" с переносом в активный workspace");
    }
    s
}

/// The description of the key of an application by one source: `apps.herdr` or
/// `workspaces.surf.apps.chrome`.
pub open spec fn source_desc_of(s: Str) -> Str {
    let p = pieces(s, '.', 0);
    if p.len() == 2 && p[0] == "apps"@ {
        "Приложение "@ + p[1]
    } else if p.len() == 4 && p[0] == "workspaces"@ && p[2] == "apps"@ {
        p[3] + " в workspace "@ + p[1]
    } else {
        s
    }
}

/// The descriptions of the first `n` sources.
pub open spec fn source_descs_upto(s: Seq<Str>, n: int) -> Seq<Str>
    decreases n,
{
    if n <= 0 {
        Seq::empty()
    } else {
        source_descs_upto(s, n - 1).push(source_desc_of(s[n - 1]))
    }
}

/// The description of the key of an application by its sources.
pub open spec fn app_key_desc_of(source: Str) -> Str {
    let p = pieces(source, ',', 0);
    joined(source_descs_upto(p, p.len() as int), "; "@)
}

fn source_desc(s: &str) -> (r: String)
    ensures
        r@ == source_desc_of(s@),
{
    let p = split(s, '.');
    let ghost v = views(p@);
    assert(v.len() == p.len());
    assert(forall|k: int| 0 <= k < p.len() ==> #[trigger] v[k] == p[k]@);
    if p.len() == 2 && same(p[0].as_str(), "apps") {
        let mut t = "Приложение ".to_owned();
        t.append(p[1].as_str());
        return t;
    }
    if p.len() == 4 && same(p[0].as_str(), "workspaces") && same(p[2].as_str(), "apps") {
        let mut t = p[3].clone();
        t.append(" в workspace ");
        t.append(p[1].as_str());
        return t;
    }
    s.to_owned()
}

/// The description of the key of an application by its sources.
pub fn app_key_desc(source: &str) -> (r: String)
    ensures
        r@ == app_key_desc_of(source@),
{
    let p = split(source, ',');
    let mut out: Vec<String> = Vec::new();
    let mut i: usize = 0;
    while i < p.len()
        invariant
            i <= p.len(),
            views(out@) == source_descs_upto(views(p@), i as int),
        decreases p.len() - i,
    {
        out.push(source_desc(p[i].as_str()));
        i = i + 1;
    }
    join(out.as_slice(), "; ")
}

// ---- Groups -------------------------------------------------------------------

/// The group of a command of the daemon by its first word.
pub open spec fn command_group(head: Str) -> Str {
    if head == "half"@ || head == "place"@ || head == "maximize"@ || head == "detach"@ {
        "Окна"@
    } else if head == "move-desktop"@ {
        "Столы"@
    } else if head == "app"@ {
        "Приложения"@
    } else {
        "Workspace"@
    }
}

/// The group of a binding by what it does.
pub open spec fn group_of(b: BindView, act: ActView) -> Str {
    match act {
        ActView::Daemon(c) => {
            let w = words(bare_command(c), 0);
            command_group(
                if w.len() > 0 {
                    w[0]
                } else {
                    ""@
                },
            )
        },
        ActView::Dispatch(exprs) => {
            let text = joined(exprs, "; "@);
            if has_text(text, "exit()"@) {
                "Сессия и прочее"@
            } else if has_text(text, "workspace = "@) && !has_text(text, "special:"@) {
                "Столы"@
            } else {
                "Окна"@
            }
        },
        ActView::Exec(c) => if has_text(c, "ipc call notifications"@) {
            "Уведомления"@
        } else if has_text(c, "screenshot"@) {
            "Снимки экрана"@
        } else if has_text(c, "change-volume"@) || has_text(c, "change-brightness"@) || has_text(c, "playerctl"@)
            || has_text(b.chain, "XF86Audio"@) || has_text(b.chain, "XF86MonBrightness"@) {
            "Звук и яркость"@
        } else {
            "Сессия и прочее"@
        },
        ActView::Lua(_) => "Сессия и прочее"@,
        ActView::Sticky(_) => "Сессия и прочее"@,
    }
}

/// The group of a binding by what it does.
pub fn default_group(b: &Bind, act: &Act) -> (r: &'static str)
    ensures
        r@ == group_of(b@, act@),
{
    match act {
        Act::Daemon(c) => {
            let w = split_words(bare(c.as_str()));
            assert(views(w@).len() == w.len());
            let head = if w.len() > 0 {
                w[0].as_str()
            } else {
                ""
            };
            if same(head, "half") || same(head, "place") || same(head, "maximize") || same(head, "detach") {
                "Окна"
            } else if same(head, "move-desktop") {
                "Столы"
            } else if same(head, "app") {
                "Приложения"
            } else {
                "Workspace"
            }
        },
        Act::Dispatch(exprs) => {
            let text = join(exprs.as_slice(), "; ");
            let t = text.as_str();
            if contains(t, "exit()") {
                "Сессия и прочее"
            } else if contains(t, "workspace = ") && !contains(t, "special:") {
                "Столы"
            } else {
                "Окна"
            }
        },
        Act::Exec(c) => {
            let t = c.as_str();
            let k = b.chain.as_str();
            if contains(t, "ipc call notifications") {
                "Уведомления"
            } else if contains(t, "screenshot") {
                "Снимки экрана"
            } else if contains(t, "change-volume") || contains(t, "change-brightness") || contains(t, "playerctl")
                || contains(k, "XF86Audio") || contains(k, "XF86MonBrightness") {
                "Звук и яркость"
            } else {
                "Сессия и прочее"
            }
        },
        Act::Lua(_) => "Сессия и прочее",
        Act::Sticky(_) => "Сессия и прочее",
    }
}

/// The description of a binding by what it does.
pub open spec fn desc_of(b: BindView, act: ActView) -> Str {
    match b.action {
        Some(ActionView::Target(t)) => target_desc_of(t),
        _ => act_desc(act),
    }
}

/// The description of an action: that of a command of the daemon where there is one, else the action
/// as in the list.
pub open spec fn act_desc(act: ActView) -> Str {
    match act {
        ActView::Daemon(c) => match daemon_desc_of(bare_command(c)) {
            Some(d) => d,
            None => act.describe(),
        },
        _ => act.describe(),
    }
}

fn describe_act(act: &Act) -> (r: String)
    ensures
        r@ == act_desc(act@),
{
    if let Act::Daemon(c) = act {
        if let Some(d) = daemon_desc(bare(c.as_str())) {
            return d;
        }
    }
    act.describe()
}

/// The description of a binding by what it does.
pub fn default_desc(b: &Bind, act: &Act) -> (r: String)
    ensures
        r@ == desc_of(b@, act@),
{
    match &b.action {
        Some(Action::Target(t)) => target_desc(t),
        _ => describe_act(act),
    }
}

// ---- Lines --------------------------------------------------------------------

/// The line of a key of the section of keys, an application, a workspace or a mode.
pub open spec fn section_entry(b: BindingView) -> EntryView {
    let cmd = match b.act {
        ActView::Daemon(c) => bare_command(c),
        _ => ""@,
    };
    EntryView {
        chain: compact_of(b.chain),
        label: chain_label_of(b.chain),
        desc: if has_prefix(cmd, "key "@) {
            app_key_desc_of(b.source)
        } else if has_prefix(cmd, "raise "@) {
            "Поднять workspace "@ + cmd.skip("raise "@.len() as int)
        } else {
            act_desc(b.act)
        },
        group: if has_prefix(cmd, "key "@) {
            "Приложения"@
        } else {
            "Workspace"@
        },
        action: b.act.describe(),
        source: b.source,
    }
}

/// The lines of those among the first `n` bindings that no binding of the configuration gave.
pub open spec fn section_entries(binds: Seq<BindingView>, n: int) -> Seq<EntryView>
    decreases n,
{
    if n <= 0 {
        Seq::empty()
    } else if binds[n - 1].origin is None {
        section_entries(binds, n - 1).push(section_entry(binds[n - 1]))
    } else {
        section_entries(binds, n - 1)
    }
}

/// A binding as the help shows it: a series is one line with the range for its number.
pub open spec fn shown(b: BindView) -> BindView {
    match b.range {
        Some((from, to)) => b.substitute(dec_int(from as int) + "…"@ + dec_int(to as int)),
        None => b,
    }
}

/// The line of binding `i` of the configuration.
pub open spec fn bind_entry(b: BindView, act: ActView, chain: Seq<ComboView>, i: int) -> EntryView {
    EntryView {
        chain: compact_of(chain),
        label: chain_label_of(chain),
        desc: match b.desc {
            Some(d) => d,
            None => desc_of(b, act),
        },
        group: match b.group {
            Some(g) => g,
            None => group_of(b, act),
        },
        action: act.describe(),
        source: "binds["@ + dec(i as nat) + "]"@,
    }
}

/// The lines of the bindings of the configuration from `i` on, after `acc`.
pub open spec fn bind_entries_from(s: Seq<BindView>, i: int, acc: Seq<EntryView>) -> Result<Seq<EntryView>, Str>
    decreases s.len() - i,
{
    if i >= s.len() {
        Ok(acc)
    } else {
        let b = shown(s[i]);
        match b.act(false) {
            Err(e) => Err(e),
            Ok(act) => match chain_of(b.chain) {
                Err(e) => Err(e),
                Ok(chain) => bind_entries_from(s, i + 1, acc.push(bind_entry(b, act, chain, i))),
            },
        }
    }
}

/// The description of a reserved combination from entry `i` of the descriptions on.
pub open spec fn reserved_desc_from(descs: Seq<(Str, Str)>, c: ComboView, i: int) -> Str
    decreases descs.len() - i,
{
    if i >= descs.len() {
        "Зарезервировано"@
    } else if combo_of(descs[i].0) matches Ok(k) && k.match_key() == c.match_key() {
        descs[i].1
    } else {
        reserved_desc_from(descs, c, i + 1)
    }
}

/// The line of a reserved combination.
pub open spec fn reserved_entry(descs: Seq<(Str, Str)>, c: ComboView) -> EntryView {
    EntryView {
        chain: c.compact(),
        label: combo_label_of(c),
        desc: reserved_desc_from(descs, c, 0),
        group: "Раскладка"@,
        action: "xkb"@,
        source: "keys.reserved"@,
    }
}

/// The lines of the reserved combinations from `i` on, after `acc`.
pub open spec fn reserved_entries_from(
    s: Seq<Str>,
    descs: Seq<(Str, Str)>,
    i: int,
    acc: Seq<EntryView>,
) -> Result<Seq<EntryView>, Str>
    decreases s.len() - i,
{
    if i >= s.len() {
        Ok(acc)
    } else {
        match combo_of(s[i]) {
            Err(e) => Err(e),
            Ok(c) => reserved_entries_from(s, descs, i + 1, acc.push(reserved_entry(descs, c))),
        }
    }
}

/// The group names that are shown first.
pub open spec fn first_groups() -> Seq<Str> {
    GROUPS@.map_values(|g: &'static str| g@)
}

/// The group names after the first `n` lines: those shown first, then others as they come up.
pub open spec fn groups_upto(s: Seq<EntryView>, n: int) -> Seq<Str>
    decreases n,
{
    if n <= 0 {
        first_groups()
    } else if groups_upto(s, n - 1).contains(s[n - 1].group) {
        groups_upto(s, n - 1)
    } else {
        groups_upto(s, n - 1).push(s[n - 1].group)
    }
}

/// Those of the first `n` lines that belong to a group.
pub open spec fn group_rows(s: Seq<EntryView>, group: Str, n: int) -> Seq<EntryView>
    decreases n,
{
    if n <= 0 {
        Seq::empty()
    } else if s[n - 1].group == group {
        group_rows(s, group, n - 1).push(s[n - 1])
    } else {
        group_rows(s, group, n - 1)
    }
}

/// The first `n` groups with their lines, without groups that have none.
pub open spec fn grouped_upto(s: Seq<EntryView>, names: Seq<Str>, n: int) -> Seq<(Str, Seq<EntryView>)>
    decreases n,
{
    if n <= 0 {
        Seq::empty()
    } else {
        let rows = group_rows(s, names[n - 1], s.len() as int);
        if rows.len() == 0 {
            grouped_upto(s, names, n - 1)
        } else {
            grouped_upto(s, names, n - 1).push((names[n - 1], rows))
        }
    }
}

impl ConfigView {
    /// The lines of the key help in the order of the configuration.
    pub open spec fn help(self) -> Result<Seq<EntryView>, Str> {
        match self.chains_fault() {
            Some(e) => Err(e),
            None => match self.collect() {
                Err(e) => Err(e),
                Ok(binds) => match bind_entries_from(self.binds, 0, section_entries(binds, binds.len() as int)) {
                    Err(e) => Err(e),
                    Ok(acc) => reserved_entries_from(self.keys.reserved, self.keys.reserved_desc, 0, acc),
                },
            },
        }
    }

    /// The lines of the key help by groups.
    pub open spec fn grouped_help(self) -> Result<Seq<(Str, Seq<EntryView>)>, Str> {
        match self.help() {
            Err(e) => Err(e),
            Ok(s) => {
                let names = groups_upto(s, s.len() as int);
                Ok(grouped_upto(s, names, names.len() as int))
            },
        }
    }
}

fn section_lines(binds: &[Binding]) -> (r: Vec<Entry>)
    ensures
        views(r@) == section_entries(views(binds@), binds@.len() as int),
{
    let mut out: Vec<Entry> = Vec::new();
    let mut i: usize = 0;
    while i < binds.len()
        invariant
            i <= binds.len(),
            views(out@) == section_entries(views(binds@), i as int),
        decreases binds.len() - i,
    {
        let b = &binds[i];
        if b.origin.is_none() {
            let cmd = match &b.act {
                Act::Daemon(c) => bare(c.as_str()),
                _ => "",
            };
            let (desc, group) = if starts(cmd, "key ") {
                (app_key_desc(b.source.as_str()), "Приложения")
            } else if let Some(w) = strip(cmd, "raise ") {
                let mut s = "Поднять workspace ".to_owned();
                s.append(w);
                (s, "Workspace")
            } else {
                (describe_act(&b.act), "Workspace")
            };
            out.push(
                Entry {
                    chain: chain_compact(&b.chain),
                    label: chain_label(&b.chain),
                    desc,
                    group: group.to_owned(),
                    action: b.act.describe(),
                    source: b.source.clone(),
                },
            );
        }
        i = i + 1;
    }
    out
}

fn show(b: &Bind) -> (r: Bind)
    ensures
        r@ == shown(b@),
{
    match b.range {
        Some((from, to)) => {
            let mut s = crate::text::int_text(from);
            s.append("…");
            push_int(&mut s, to);
            substitute(b, s.as_str())
        },
        None => b.dup(),
    }
}

fn bind_lines(cfg: &Config, out: Vec<Entry>) -> (r: Result<Vec<Entry>, String>)
    ensures
        rviews(r) == bind_entries_from(cfg@.binds, 0, views(out@)),
{
    let mut acc = out;
    let ghost first = views(acc@);
    let mut i: usize = 0;
    while i < cfg.binds.len()
        invariant
            i <= cfg.binds.len(),
            first == views(out@),
            bind_entries_from(cfg@.binds, 0, first) == bind_entries_from(cfg@.binds, i as int, views(acc@)),
        decreases cfg.binds.len() - i,
    {
        let b = show(&cfg.binds[i]);
        let act = match bind_act(&b, false) {
            Ok(a) => a,
            Err(e) => return Err(e),
        };
        let chain = match parse_chain(b.chain.as_str()) {
            Ok(c) => c,
            Err(e) => return Err(e),
        };
        let desc = match &b.desc {
            Some(d) => d.clone(),
            None => default_desc(&b, &act),
        };
        let group = match &b.group {
            Some(g) => g.clone(),
            None => default_group(&b, &act).to_owned(),
        };
        let mut source = "binds[".to_owned();
        push_dec(&mut source, i as u64);
        source.append("]");
        acc.push(
            Entry { chain: chain_compact(&chain), label: chain_label(&chain), desc, group, action: act.describe(), source },
        );
        i = i + 1;
    }
    Ok(acc)
}

fn reserved_desc(descs: &Table<String>, c: &Combo) -> (r: String)
    ensures
        r@ == reserved_desc_from(descs@, c@, 0),
{
    let n: usize = descs.len();
    let mut i: usize = 0;
    while i < n
        invariant
            i <= n,
            n == descs@.len(),
            reserved_desc_from(descs@, c@, 0) == reserved_desc_from(descs@, c@, i as int),
        decreases n - i,
    {
        if let Ok(k) = parse_combo(descs.key(i).as_str()) {
            if k.same_key(c) {
                return descs.at(i).clone();
            }
        }
        i = i + 1;
    }
    "Зарезервировано".to_owned()
}

fn reserved_lines(cfg: &Config, out: Vec<Entry>) -> (r: Result<Vec<Entry>, String>)
    ensures
        rviews(r) == reserved_entries_from(cfg@.keys.reserved, cfg@.keys.reserved_desc, 0, views(out@)),
{
    let mut acc = out;
    let ghost first = views(acc@);
    let mut i: usize = 0;
    while i < cfg.keys.reserved.len()
        invariant
            i <= cfg.keys.reserved.len(),
            first == views(out@),
            reserved_entries_from(cfg@.keys.reserved, cfg@.keys.reserved_desc, 0, first) == reserved_entries_from(
                cfg@.keys.reserved,
                cfg@.keys.reserved_desc,
                i as int,
                views(acc@),
            ),
        decreases cfg.keys.reserved.len() - i,
    {
        let c = match parse_combo(cfg.keys.reserved[i].as_str()) {
            Ok(c) => c,
            Err(e) => return Err(e),
        };
        acc.push(
            Entry {
                chain: c.compact(),
                label: combo_label(&c),
                desc: reserved_desc(&cfg.keys.reserved_desc, &c),
                group: "Раскладка".to_owned(),
                action: "xkb".to_owned(),
                source: "keys.reserved".to_owned(),
            },
        );
        i = i + 1;
    }
    Ok(acc)
}

/// The lines of the key help in the order of the configuration.
pub fn entries(cfg: &Config) -> (r: Result<Vec<Entry>, String>)
    ensures
        rviews(r) == cfg@.help(),
{
    if let Err(e) = check_chains(cfg) {
        return Err(e);
    }
    let binds = match collect(cfg) {
        Ok(b) => b,
        Err(e) => return Err(e),
    };
    match bind_lines(cfg, section_lines(binds.as_slice())) {
        Ok(acc) => reserved_lines(cfg, acc),
        Err(e) => Err(e),
    }
}

/// What a group and its lines say.
pub open spec fn group_view(g: (String, Vec<Entry>)) -> (Str, Seq<EntryView>) {
    (g.0@, views(g.1@))
}

/// What groups and their lines say.
pub open spec fn groups_view(r: Result<Vec<(String, Vec<Entry>)>, String>) -> Result<Seq<(Str, Seq<EntryView>)>, Str> {
    match r {
        Ok(v) => Ok(v@.map_values(|g: (String, Vec<Entry>)| group_view(g))),
        Err(e) => Err(e@),
    }
}

fn group_names(list: &[Entry]) -> (r: Vec<String>)
    ensures
        views(r@) == groups_upto(views(list@), list@.len() as int),
{
    let mut names: Vec<String> = Vec::new();
    let mut i: usize = 0;
    while i < 9
        invariant
            i <= 9,
            GROUPS@.len() == 9,
            views(names@) == first_groups().take(i as int),
        decreases 9 - i,
    {
        names.push(GROUPS[i].to_owned());
        proof {
            assert(first_groups().take(i + 1) =~= first_groups().take(i as int).push(first_groups()[i as int]));
        }
        i = i + 1;
    }
    proof {
        assert(first_groups().take(9) =~= first_groups());
    }
    let mut k: usize = 0;
    while k < list.len()
        invariant
            k <= list.len(),
            views(names@) == groups_upto(views(list@), k as int),
        decreases list.len() - k,
    {
        if !holds(names.as_slice(), list[k].group.as_str()) {
            names.push(list[k].group.clone());
        }
        k = k + 1;
    }
    names
}

fn rows_of(list: &[Entry], group: &str) -> (r: Vec<Entry>)
    ensures
        views(r@) == group_rows(views(list@), group@, list@.len() as int),
{
    let mut out: Vec<Entry> = Vec::new();
    let mut i: usize = 0;
    while i < list.len()
        invariant
            i <= list.len(),
            views(out@) == group_rows(views(list@), group@, i as int),
        decreases list.len() - i,
    {
        if same(list[i].group.as_str(), group) {
            out.push(list[i].dup());
        }
        i = i + 1;
    }
    out
}

/// The lines of the key help by groups: the groups that are shown first in their order, then those of
/// the configuration as they come up; groups without lines are left out.
pub fn grouped(cfg: &Config) -> (r: Result<Vec<(String, Vec<Entry>)>, String>)
    ensures
        groups_view(r) == cfg@.grouped_help(),
{
    let list = match entries(cfg) {
        Ok(v) => v,
        Err(e) => return Err(e),
    };
    let names = group_names(list.as_slice());
    let mut out: Vec<(String, Vec<Entry>)> = Vec::new();
    let mut i: usize = 0;
    proof {
        assert(out@.map_values(|g: (String, Vec<Entry>)| group_view(g)) =~= Seq::empty());
    }
    while i < names.len()
        invariant
            i <= names.len(),
            out@.map_values(|g: (String, Vec<Entry>)| group_view(g)) == grouped_upto(
                views(list@),
                views(names@),
                i as int,
            ),
        decreases names.len() - i,
    {
        let rows = rows_of(list.as_slice(), names[i].as_str());
        assert(views(rows@).len() == rows.len());
        if rows.len() > 0 {
            let ghost before = out@;
            out.push((names[i].clone(), rows));
            proof {
                let f = |g: (String, Vec<Entry>)| group_view(g);
                assert(out@.map_values(f) =~= before.map_values(f).push(group_view(out@.last())));
            }
        }
        i = i + 1;
    }
    Ok(out)
}

proof fn lemma_group_named(s: Seq<EntryView>, n: int)
    requires
        0 <= n <= s.len(),
    ensures
        forall|i: int| 0 <= i < n ==> groups_upto(s, n).contains((#[trigger] s[i]).group),
    decreases n,
{
    if n > 0 {
        lemma_group_named(s, n - 1);
        let a = groups_upto(s, n - 1);
        let b = groups_upto(s, n);
        assert forall|i: int| 0 <= i < n implies b.contains((#[trigger] s[i]).group) by {
            if i == n - 1 {
                if !a.contains(s[i].group) {
                    assert(b[a.len() as int] == s[i].group);
                }
            } else {
                let k = choose|k: int| 0 <= k < a.len() && a[k] == s[i].group;
                assert(b[k] == s[i].group);
            }
        }
    }
}

proof fn lemma_group_rows(s: Seq<EntryView>, group: Str, n: int)
    requires
        0 <= n <= s.len(),
    ensures
        forall|e: EntryView| #[trigger]
            group_rows(s, group, n).contains(e) <==> e.group == group && exists|i: int| 0 <= i < n && #[trigger] s[i] == e,
    decreases n,
{
    if n > 0 {
        lemma_group_rows(s, group, n - 1);
        let a = group_rows(s, group, n - 1);
        let b = group_rows(s, group, n);
        assert forall|e: EntryView| #[trigger] b.contains(e) <==> e.group == group && exists|i: int|
            0 <= i < n && #[trigger] s[i] == e by {
            if b.contains(e) {
                let k = choose|k: int| 0 <= k < b.len() && b[k] == e;
                if k < a.len() {
                    assert(a[k] == e);
                    assert(a.contains(e));
                } else {
                    assert(s[n - 1] == e);
                }
            }
            if e.group == group && exists|i: int| 0 <= i < n && #[trigger] s[i] == e {
                if s[n - 1] == e {
                    assert(b[a.len() as int] == e);
                } else {
                    let i = choose|i: int| 0 <= i < n && #[trigger] s[i] == e;
                    assert(i < n - 1);
                    assert(a.contains(e));
                    let k = choose|k: int| 0 <= k < a.len() && a[k] == e;
                    assert(b[k] == e);
                }
            }
        }
    }
}

proof fn lemma_grouped(s: Seq<EntryView>, names: Seq<Str>, n: int)
    requires
        0 <= n <= names.len(),
    ensures
        ({
            let g = grouped_upto(s, names, n);
            &&& forall|k: int|
                0 <= k < g.len() ==> (#[trigger] g[k]).1 == group_rows(s, g[k].0, s.len() as int) && g[k].1.len() > 0
            &&& forall|i: int|
                0 <= i < n && group_rows(s, names[i], s.len() as int).len() > 0 ==> exists|k: int|
                    0 <= k < g.len() && (#[trigger] g[k]).0 == #[trigger] names[i]
        }),
    decreases n,
{
    if n > 0 {
        lemma_grouped(s, names, n - 1);
        let a = grouped_upto(s, names, n - 1);
        let b = grouped_upto(s, names, n);
        assert forall|i: int| 0 <= i < n && group_rows(s, names[i], s.len() as int).len() > 0 implies exists|k: int|
            0 <= k < b.len() && (#[trigger] b[k]).0 == #[trigger] names[i] by {
            if i == n - 1 {
                assert(b[a.len() as int].0 == names[i]);
            } else {
                let k = choose|k: int| 0 <= k < a.len() && (#[trigger] a[k]).0 == names[i];
                assert(b[k].0 == names[i]);
            }
        }
    }
}

/// Each line of the help stands in a group of its own name, and what stands in a group are lines of the help
/// with that name: no line is lost and none is shown under another name.
pub proof fn law_help_loses_nothing(s: Seq<EntryView>)
    ensures
        ({
            let names = groups_upto(s, s.len() as int);
            let g = grouped_upto(s, names, names.len() as int);
            &&& forall|i: int|
                0 <= i < s.len() ==> exists|k: int|
                    0 <= k < g.len() && (#[trigger] g[k]).0 == (#[trigger] s[i]).group && g[k].1.contains(s[i])
            &&& forall|k: int, e: EntryView|
                0 <= k < g.len() && #[trigger] g[k].1.contains(e) ==> e.group == g[k].0 && s.contains(e)
        }),
{
    let names = groups_upto(s, s.len() as int);
    let g = grouped_upto(s, names, names.len() as int);
    lemma_group_named(s, s.len() as int);
    lemma_grouped(s, names, names.len() as int);
    assert forall|i: int| 0 <= i < s.len() implies exists|k: int|
        0 <= k < g.len() && (#[trigger] g[k]).0 == (#[trigger] s[i]).group && g[k].1.contains(s[i]) by {
        let group = s[i].group;
        lemma_group_rows(s, group, s.len() as int);
        assert(group_rows(s, group, s.len() as int).contains(s[i]));
        let x = choose|x: int| 0 <= x < names.len() && names[x] == group;
        let k = choose|k: int| 0 <= k < g.len() && (#[trigger] g[k]).0 == names[x];
        assert(g[k].1.contains(s[i]));
    }
    assert forall|k: int, e: EntryView| 0 <= k < g.len() && #[trigger] g[k].1.contains(e) implies e.group == g[k].0
        && s.contains(e) by {
        lemma_group_rows(s, g[k].0, s.len() as int);
        assert(group_rows(s, g[k].0, s.len() as int).contains(e));
    }
}

} // verus!
