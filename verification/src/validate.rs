//! Checks of the whole configuration.
use vstd::prelude::*;

use crate::config::{
    app_at, count_apps, find_app, App, AppView, Bind, BindView, Config, ConfigView, Placement, PlacementView,
    Template, TemplateView, Workspace, WorkspaceView, WsAppView,
};
use crate::keys::{bind_fault, make_bind_fault};
use crate::modes::check_chains;
use crate::pattern::{quote, quoted, regex_fault, whole, whole_text, Pattern};
use crate::table::{tab_get, tab_has, Table};
use crate::text::{
    chars_of, contains, dec, dec_int, digit, has_text, is_digit, is_letter, join, joined, letter, oview, push_dec,
    push_int, same, views, Str,
};

verus! {

broadcast use crate::text::group_views;

/// A name that is safe in a command line and in a tag: letters, digits, `_`, `-` and `.`.
pub open spec fn is_valid_name(s: Str) -> bool {
    s.len() > 0 && forall|i: int| 0 <= i < s.len() ==> is_name_char(#[trigger] s[i])
}

/// A character of a name.
pub open spec fn is_name_char(c: char) -> bool {
    is_letter(c) || is_digit(c) || c == '_' || c == '-' || c == '.'
}

/// A name that is safe in a command line and in a tag.
pub fn valid_name(s: &str) -> (r: bool)
    ensures
        r == is_valid_name(s@),
{
    let v = chars_of(s);
    if v.len() == 0 {
        return false;
    }
    let mut i: usize = 0;
    while i < v.len()
        invariant
            i <= v.len(),
            v@ == s@,
            forall|k: int| 0 <= k < i ==> is_name_char(#[trigger] s@[k]),
        decreases v.len() - i,
    {
        let c = v[i];
        if !(letter(c) || digit(c) || c == '_' || c == '-' || c == '.') {
            assert(!is_name_char(s@[i as int]));
            return false;
        }
        i = i + 1;
    }
    true
}

/// The first name from `i` on that may not be used.
pub open spec fn bad_name_from<T>(s: Seq<(Str, T)>, i: int) -> Option<Str>
    decreases s.len() - i,
{
    if i >= s.len() {
        None
    } else if !is_valid_name(s[i].0) {
        Some(
            "недопустимое имя "@ + quoted(s[i].0)
                + ": разрешены буквы, цифры, «_», «-», «.»; двоеточие и «#» отделяют части тега экземпляра"@,
        )
    } else {
        bad_name_from(s, i + 1)
    }
}

fn bad_name<V: View>(t: &Table<V>) -> (r: Option<String>)
    ensures
        oview(r) == bad_name_from(t@, 0),
{
    let n: usize = t.len();
    let mut i: usize = 0;
    while i < n
        invariant
            i <= n,
            n == t@.len(),
            bad_name_from(t@, 0) == bad_name_from(t@, i as int),
        decreases n - i,
    {
        let k = t.key(i).as_str();
        if !valid_name(k) {
            let mut s = "недопустимое имя ".to_owned();
            s.append(quote(k).as_str());
            s.append(": разрешены буквы, цифры, «_», «-», «.»; двоеточие и «#» отделяют части тега экземпляра");
            return Some(s);
        }
        i = i + 1;
    }
    None
}

/// The first template from `i` on whose main cell is not among its cells.
pub open spec fn template_fault_from(s: Seq<(Str, TemplateView)>, i: int) -> Option<Str>
    decreases s.len() - i,
{
    if i >= s.len() {
        None
    } else if !tab_has(s[i].1.cells, s[i].1.main) {
        Some("шаблон "@ + s[i].0 + ": главная ячейка "@ + quoted(s[i].1.main) + " не объявлена в cells"@)
    } else {
        template_fault_from(s, i + 1)
    }
}

fn template_fault(t: &Table<Template>) -> (r: Option<String>)
    ensures
        oview(r) == template_fault_from(t@, 0),
{
    let n: usize = t.len();
    let mut i: usize = 0;
    while i < n
        invariant
            i <= n,
            n == t@.len(),
            template_fault_from(t@, 0) == template_fault_from(t@, i as int),
        decreases n - i,
    {
        let x = t.at(i);
        if !x.cells.contains_key(x.main.as_str()) {
            let mut s = "шаблон ".to_owned();
            s.append(t.key(i).as_str());
            s.append(": главная ячейка ");
            s.append(quote(x.main.as_str()).as_str());
            s.append(" не объявлена в cells");
            return Some(s);
        }
        i = i + 1;
    }
    None
}

/// What is wrong with the family of an application: it is itself, is not described, or is a variant.
pub open spec fn family_fault(cfg: ConfigView, name: Str, family: Option<Str>) -> Option<Str> {
    match family {
        None => None,
        Some(f) => if f == name {
            Some("поле family называет само приложение"@)
        } else {
            match tab_get(cfg.apps, f) {
                None => Some("семейство "@ + quoted(f) + " не описано в [apps]"@),
                Some(p) => match p.family {
                    Some(g) => Some(
                        "семейство "@ + quoted(f) + " само вариант семейства "@ + quoted(g) + ", а уровней ровно два"@,
                    ),
                    None => None,
                },
            }
        },
    }
}

/// What is wrong with an application.
pub open spec fn app_fault(cfg: ConfigView, name: Str, a: AppView) -> Option<Str> {
    if a.cmd is None && a.class is None {
        Some(
            "нужно хотя бы одно из полей cmd и class: без cmd приложение не открывает окон, без class его окно не узнать"@,
        )
    } else if a.title is Some && a.class is None {
        Some("поле title без class не имеет смысла"@)
    } else if a.dialog_title is Some && a.class is None {
        Some("поле dialog_title без class не имеет смысла: окно приложения узнаётся по class"@)
    } else {
        match a.matchers() {
            Err(e) => Some(e),
            Ok(_) => match a.dialog_matcher() {
                Err(e) => Some(e),
                Ok(_) => family_fault(cfg, name, a.family),
            },
        }
    }
}

/// The first application from `i` on with a fault.
pub open spec fn apps_fault_from(cfg: ConfigView, i: int) -> Option<Str>
    decreases cfg.apps.len() - i,
{
    if i >= cfg.apps.len() {
        None
    } else {
        match app_fault(cfg, cfg.apps[i].0, cfg.apps[i].1) {
            Some(e) => Some("приложение "@ + cfg.apps[i].0 + ": "@ + e),
            None => apps_fault_from(cfg, i + 1),
        }
    }
}

fn check_app(cfg: &Config, name: &str, a: &App) -> (r: Option<String>)
    ensures
        oview(r) == app_fault(cfg@, name@, a@),
{
    if a.cmd.is_none() && a.class.is_none() {
        return Some(
            "нужно хотя бы одно из полей cmd и class: без cmd приложение не открывает окон, без class его окно не узнать".to_owned(),
        );
    }
    if a.title.is_some() && a.class.is_none() {
        return Some("поле title без class не имеет смысла".to_owned());
    }
    if a.dialog_title.is_some() && a.class.is_none() {
        return Some(
            "поле dialog_title без class не имеет смысла: окно приложения узнаётся по class".to_owned(),
        );
    }
    if let Err(e) = a.matchers() {
        return Some(e);
    }
    if let Err(e) = a.dialog_matcher() {
        return Some(e);
    }
    match &a.family {
        None => None,
        Some(f) => {
            if same(f.as_str(), name) {
                return Some("поле family называет само приложение".to_owned());
            }
            match cfg.apps.get(f.as_str()) {
                None => {
                    let mut s = "семейство ".to_owned();
                    s.append(quote(f.as_str()).as_str());
                    s.append(" не описано в [apps]");
                    Some(s)
                },
                Some(p) => match &p.family {
                    Some(g) => {
                        let mut s = "семейство ".to_owned();
                        s.append(quote(f.as_str()).as_str());
                        s.append(" само вариант семейства ");
                        s.append(quote(g.as_str()).as_str());
                        s.append(", а уровней ровно два");
                        Some(s)
                    },
                    None => None,
                },
            }
        },
    }
}

fn apps_fault(cfg: &Config) -> (r: Option<String>)
    ensures
        oview(r) == apps_fault_from(cfg@, 0),
{
    let n: usize = cfg.apps.len();
    let mut i: usize = 0;
    while i < n
        invariant
            i <= n,
            n == cfg@.apps.len(),
            apps_fault_from(cfg@, 0) == apps_fault_from(cfg@, i as int),
        decreases n - i,
    {
        let name = cfg.apps.key(i).as_str();
        if let Some(e) = check_app(cfg, name, cfg.apps.at(i)) {
            let mut s = "приложение ".to_owned();
            s.append(name);
            s.append(": ");
            s.append(e.as_str());
            return Some(s);
        }
        i = i + 1;
    }
    None
}

/// The first class from `i` on that is no expression.
pub open spec fn ignore_fault_from(s: Seq<Str>, i: int) -> Option<Str>
    decreases s.len() - i,
{
    if i >= s.len() {
        None
    } else {
        match regex_fault(whole(s[i])) {
            Some(e) => Some("ignore_classes: выражение "@ + quoted(s[i]) + ": "@ + e),
            None => ignore_fault_from(s, i + 1),
        }
    }
}

fn ignore_fault(v: &Vec<String>) -> (r: Option<String>)
    ensures
        oview(r) == ignore_fault_from(views(v@), 0),
{
    let mut i: usize = 0;
    while i < v.len()
        invariant
            i <= v.len(),
            ignore_fault_from(views(v@), 0) == ignore_fault_from(views(v@), i as int),
        decreases v.len() - i,
    {
        if let Err(e) = Pattern::new(whole_text(v[i].as_str()).as_str()) {
            let mut s = "ignore_classes: выражение ".to_owned();
            s.append(quote(v[i].as_str()).as_str());
            s.append(": ");
            s.append(e.as_str());
            return Some(s);
        }
        i = i + 1;
    }
    None
}

/// What is wrong with the startup.
pub open spec fn startup_fault(cfg: ConfigView) -> Option<Str> {
    match cfg.startup {
        None => None,
        Some(st) => if !tab_has(cfg.workspaces, st.workspace) {
            Some("startup: workspace "@ + quoted(st.workspace) + " не описан в [workspaces]"@)
        } else if !(1 <= st.desktop <= 8) {
            Some("startup: стол должен быть 1…8, получено "@ + dec(st.desktop as nat))
        } else {
            None
        },
    }
}

fn check_startup(cfg: &Config) -> (r: Option<String>)
    ensures
        oview(r) == startup_fault(cfg@),
{
    match &cfg.startup {
        None => None,
        Some(st) => {
            if !cfg.workspaces.contains_key(st.workspace.as_str()) {
                let mut s = "startup: workspace ".to_owned();
                s.append(quote(st.workspace.as_str()).as_str());
                s.append(" не описан в [workspaces]");
                return Some(s);
            }
            if st.desktop < 1 || st.desktop > 8 {
                let mut s = "startup: стол должен быть 1…8, получено ".to_owned();
                push_dec(&mut s, st.desktop as u64);
                return Some(s);
            }
            None
        },
    }
}

/// A mode that there is.
pub open spec fn is_mode(m: Str) -> bool {
    m == "swap"@ || m == "stack"@
}

fn mode_name(m: &str) -> (r: bool)
    ensures
        r == is_mode(m@),
{
    same(m, "swap") || same(m, "stack")
}

/// What is wrong with the entry of an application in a workspace with this template.
pub open spec fn entry_fault(cfg: ConfigView, w: WorkspaceView, t: TemplateView, app: Str, e: WsAppView) -> Option<Str> {
    if !tab_has(cfg.apps, app) {
        Some("приложение "@ + quoted(app) + " не описано в [apps]"@)
    } else if e.place matches PlacementView::Cell(c) && !tab_has(t.cells, c) {
        Some(
            "приложение "@ + app + " ссылается на ячейку "@ + quoted(e.place->Cell_0) + ", которой нет в шаблоне "@
                + w.template,
        )
    } else if e.mode matches Some(m) && !is_mode(m) {
        Some("приложение "@ + app + ": mode должен быть одним из swap, stack, получено "@ + quoted(e.mode->0))
    } else {
        None
    }
}

/// The first fault of the entries of a workspace from `i` on.
pub open spec fn entries_fault_from(cfg: ConfigView, w: WorkspaceView, t: TemplateView, i: int) -> Option<Str>
    decreases w.apps.len() - i,
{
    if i >= w.apps.len() {
        None
    } else {
        match entry_fault(cfg, w, t, w.apps[i].0, w.apps[i].1) {
            Some(e) => Some(e),
            None => entries_fault_from(cfg, w, t, i + 1),
        }
    }
}

/// What is wrong with a workspace.
pub open spec fn workspace_fault(cfg: ConfigView, w: WorkspaceView) -> Option<Str> {
    match tab_get(cfg.templates, w.template) {
        None => Some("шаблон "@ + quoted(w.template) + " не найден"@),
        Some(t) => if !is_mode(w.mode) {
            Some("mode должен быть одним из swap, stack, получено "@ + quoted(w.mode))
        } else {
            match entries_fault_from(cfg, w, t, 0) {
                Some(e) => Some(e),
                None => if w.main matches Some(m) && !tab_has(w.apps, m) {
                    Some("главное приложение "@ + quoted(w.main->0) + " не входит в apps"@)
                } else {
                    None
                },
            }
        },
    }
}

/// The first workspace from `i` on with a fault.
pub open spec fn workspaces_fault_from(cfg: ConfigView, i: int) -> Option<Str>
    decreases cfg.workspaces.len() - i,
{
    if i >= cfg.workspaces.len() {
        None
    } else {
        match workspace_fault(cfg, cfg.workspaces[i].1) {
            Some(e) => Some("workspace "@ + cfg.workspaces[i].0 + ": "@ + e),
            None => workspaces_fault_from(cfg, i + 1),
        }
    }
}

fn check_entry(cfg: &Config, w: &Workspace, t: &Template, app: &str, e: &crate::config::WsApp) -> (r: Option<String>)
    ensures
        oview(r) == entry_fault(cfg@, w@, t@, app@, e@),
{
    if !cfg.apps.contains_key(app) {
        let mut s = "приложение ".to_owned();
        s.append(quote(app).as_str());
        s.append(" не описано в [apps]");
        return Some(s);
    }
    if let Placement::Cell(c) = &e.place {
        if !t.cells.contains_key(c.as_str()) {
            let mut s = "приложение ".to_owned();
            s.append(app);
            s.append(" ссылается на ячейку ");
            s.append(quote(c.as_str()).as_str());
            s.append(", которой нет в шаблоне ");
            s.append(w.template.as_str());
            return Some(s);
        }
    }
    if let Some(m) = &e.mode {
        if !mode_name(m.as_str()) {
            let mut s = "приложение ".to_owned();
            s.append(app);
            s.append(": mode должен быть одним из swap, stack, получено ");
            s.append(quote(m.as_str()).as_str());
            return Some(s);
        }
    }
    None
}

fn check_workspace(cfg: &Config, w: &Workspace) -> (r: Option<String>)
    ensures
        oview(r) == workspace_fault(cfg@, w@),
{
    let t = match cfg.templates.get(w.template.as_str()) {
        Some(t) => t,
        None => {
            let mut s = "шаблон ".to_owned();
            s.append(quote(w.template.as_str()).as_str());
            s.append(" не найден");
            return Some(s);
        },
    };
    if !mode_name(w.mode.as_str()) {
        let mut s = "mode должен быть одним из swap, stack, получено ".to_owned();
        s.append(quote(w.mode.as_str()).as_str());
        return Some(s);
    }
    let n: usize = count_apps(&w.apps);
    let mut i: usize = 0;
    while i < n
        invariant
            i <= n,
            n == w@.apps.len(),
            tab_get(cfg@.templates, w@.template) == Some(t@),
            is_mode(w@.mode),
            entries_fault_from(cfg@, w@, t@, 0) == entries_fault_from(cfg@, w@, t@, i as int),
        decreases n - i,
    {
        let (app, e) = app_at(&w.apps, i);
        if let Some(f) = check_entry(cfg, w, t, app.as_str(), e) {
            return Some(f);
        }
        i = i + 1;
    }
    if let Some(m) = &w.main {
        if find_app(&w.apps, m.as_str()).is_none() {
            let mut s = "главное приложение ".to_owned();
            s.append(quote(m.as_str()).as_str());
            s.append(" не входит в apps");
            return Some(s);
        }
    }
    None
}

fn workspaces_fault(cfg: &Config) -> (r: Option<String>)
    ensures
        oview(r) == workspaces_fault_from(cfg@, 0),
{
    let n: usize = cfg.workspaces.len();
    let mut i: usize = 0;
    while i < n
        invariant
            i <= n,
            n == cfg@.workspaces.len(),
            workspaces_fault_from(cfg@, 0) == workspaces_fault_from(cfg@, i as int),
        decreases n - i,
    {
        if let Some(e) = check_workspace(cfg, cfg.workspaces.at(i)) {
            let mut s = "workspace ".to_owned();
            s.append(cfg.workspaces.key(i).as_str());
            s.append(": ");
            s.append(e.as_str());
            return Some(s);
        }
        i = i + 1;
    }
    None
}

/// The range of a binding as it is written.
pub open spec fn range_text(from: int, to: int) -> Str {
    "range = ["@ + dec_int(from) + ", "@ + dec_int(to) + "]"@
}

fn make_range(from: i64, to: i64) -> (r: String)
    ensures
        r@ == range_text(from as int, to as int),
{
    let mut s = "range = [".to_owned();
    push_int(&mut s, from);
    s.append(", ");
    push_int(&mut s, to);
    s.append("]");
    s
}

/// What is wrong with a binding besides its action.
pub open spec fn form_fault(b: BindView) -> Option<Str> {
    let fields = b.action_fields();
    if fields.len() == 0 {
        Some("нужно одно из полей action, exec, dispatch, lua"@)
    } else if fields.len() != 1 {
        Some("задано несколько действий ("@ + joined(fields, ", "@) + "), допустимо одно"@)
    } else {
        match b.range {
            None => None,
            Some((from, to)) => if from > to {
                Some(range_text(from as int, to as int) + " — начало больше конца"@)
            } else if to - from > 100 {
                Some(range_text(from as int, to as int) + " слишком велик (не более 100 значений)"@)
            } else if !has_text(b.chain, "$n"@) {
                Some("range задан, но в chain нет подстановки $n"@)
            } else {
                None
            },
        }
    }
}

/// The first binding from `i` on with a fault.
pub open spec fn binds_fault_from(cfg: ConfigView, i: int) -> Option<Str>
    decreases cfg.binds.len() - i,
{
    if i >= cfg.binds.len() {
        None
    } else {
        match form_fault(cfg.binds[i]) {
            Some(e) => Some(bind_fault(cfg.binds[i].chain, e)),
            None => match cfg.action_fault(cfg.binds[i]) {
                Some(e) => Some(e),
                None => binds_fault_from(cfg, i + 1),
            },
        }
    }
}

fn check_form(b: &Bind) -> (r: Option<String>)
    ensures
        oview(r) == form_fault(b@),
{
    let found = b.action_fields();
    if found.len() == 0 {
        return Some("нужно одно из полей action, exec, dispatch, lua".to_owned());
    }
    if found.len() != 1 {
        let mut fields: Vec<String> = Vec::new();
        let mut i: usize = 0;
        while i < found.len()
            invariant
                i <= found.len(),
                views(fields@) == views(found@).take(i as int),
            decreases found.len() - i,
        {
            fields.push(found[i].to_owned());
            proof {
                assert(views(found@).take(i + 1) =~= views(found@).take(i as int).push(views(found@)[i as int]));
            }
            i = i + 1;
        }
        proof {
            assert(views(found@).take(i as int) =~= views(found@));
        }
        let mut s = "задано несколько действий (".to_owned();
        s.append(join(fields.as_slice(), ", ").as_str());
        s.append("), допустимо одно");
        return Some(s);
    }
    if let Some((from, to)) = b.range {
        if from > to {
            let mut s = make_range(from, to);
            s.append(" — начало больше конца");
            return Some(s);
        }
        if (to as i128) - (from as i128) > 100 {
            let mut s = make_range(from, to);
            s.append(" слишком велик (не более 100 значений)");
            return Some(s);
        }
        if !contains(b.chain.as_str(), "$n") {
            return Some("range задан, но в chain нет подстановки $n".to_owned());
        }
    }
    None
}

fn binds_fault(cfg: &Config) -> (r: Option<String>)
    ensures
        oview(r) == binds_fault_from(cfg@, 0),
{
    let n: usize = cfg.binds.len();
    let mut i: usize = 0;
    while i < n
        invariant
            i <= n,
            n == cfg.binds.len(),
            binds_fault_from(cfg@, 0) == binds_fault_from(cfg@, i as int),
        decreases n - i,
    {
        let b = &cfg.binds[i];
        if let Some(e) = check_form(b) {
            return Some(make_bind_fault(b.chain.as_str(), e.as_str()));
        }
        if let Err(e) = cfg.check_action(b) {
            return Some(e);
        }
        i = i + 1;
    }
    None
}

/// The first of two faults.
pub open spec fn or_fault(a: Option<Str>, b: Option<Str>) -> Option<Str> {
    match a {
        Some(e) => Some(e),
        None => b,
    }
}

impl ConfigView {
    /// The first fault of the sections, without the chains.
    pub open spec fn sections_fault(self) -> Option<Str> {
        or_fault(
            bad_name_from(self.templates, 0),
            or_fault(
                bad_name_from(self.apps, 0),
                or_fault(
                    bad_name_from(self.workspaces, 0),
                    or_fault(
                        template_fault_from(self.templates, 0),
                        or_fault(
                            apps_fault_from(self, 0),
                            or_fault(
                                ignore_fault_from(self.ignore_classes, 0),
                                or_fault(
                                    startup_fault(self),
                                    or_fault(workspaces_fault_from(self, 0), binds_fault_from(self, 0)),
                                ),
                            ),
                        ),
                    ),
                ),
            ),
        )
    }

    /// The first fault of the configuration: names, templates, applications, classes, startup,
    /// workspaces, bindings, chains.
    pub open spec fn fault(self) -> Option<Str> {
        or_fault(self.sections_fault(), self.chains_fault())
    }
}

impl Config {
    /// Check the configuration: names, references to templates, cells and applications, bindings, chains.
    pub fn validate(&self) -> (r: Result<(), String>)
        ensures
            match r {
                Ok(_) => self@.fault() is None,
                Err(e) => self@.fault() == Some(e@),
            },
    {
        if let Some(e) = bad_name(&self.templates) {
            return Err(e);
        }
        if let Some(e) = bad_name(&self.apps) {
            return Err(e);
        }
        if let Some(e) = bad_name(&self.workspaces) {
            return Err(e);
        }
        if let Some(e) = template_fault(&self.templates) {
            return Err(e);
        }
        if let Some(e) = apps_fault(self) {
            return Err(e);
        }
        if let Some(e) = ignore_fault(&self.ignore_classes) {
            return Err(e);
        }
        if let Some(e) = check_startup(self) {
            return Err(e);
        }
        if let Some(e) = workspaces_fault(self) {
            return Err(e);
        }
        if let Some(e) = binds_fault(self) {
            return Err(e);
        }
        check_chains(self)
    }
}

impl ConfigView {
    /// The templates are in order: their names are valid, and the main cell of each is one of its cells.
    pub open spec fn templates_sound(self) -> bool {
        forall|i: int|
            0 <= i < self.templates.len() ==> {
                let (name, t) = #[trigger] self.templates[i];
                is_valid_name(name) && tab_has(t.cells, t.main)
            }
    }

    /// The applications are in order: their names are valid; each can be started or known by its class; its
    /// expressions are ones; a family is another application and no variant itself.
    pub open spec fn apps_sound(self) -> bool {
        forall|i: int|
            0 <= i < self.apps.len() ==> {
                let (name, a) = #[trigger] self.apps[i];
                &&& is_valid_name(name)
                &&& a.cmd is Some || a.class is Some
                &&& a.title is Some || a.dialog_title is Some ==> a.class is Some
                &&& a.matchers() is Ok
                &&& a.dialog_matcher() is Ok
                &&& a.family matches Some(f) ==> {
                    &&& f != name
                    &&& tab_get(self.apps, f) matches Some(p) && p.family is None
                }
            }
    }

    /// A workspace is in order: its template is described, its mode is one, each of its applications is
    /// described and stands in a cell of the template or in a rectangle, and the main one is among them.
    pub open spec fn workspace_sound(self, w: WorkspaceView) -> bool {
        &&& tab_has(self.templates, w.template)
        &&& is_mode(w.mode)
        &&& forall|k: int|
            0 <= k < w.apps.len() ==> {
                let (app, e) = #[trigger] w.apps[k];
                &&& tab_has(self.apps, app)
                &&& e.place matches PlacementView::Cell(c) ==> tab_get(self.templates, w.template) matches Some(t)
                    && tab_has(t.cells, c)
                &&& e.mode matches Some(m) ==> is_mode(m)
            }
        &&& w.main matches Some(m) ==> tab_has(w.apps, m)
    }

    /// The workspaces are in order, and so is the one that the daemon starts with.
    pub open spec fn workspaces_sound(self) -> bool {
        &&& forall|i: int|
            0 <= i < self.workspaces.len() ==> is_valid_name((#[trigger] self.workspaces[i]).0) && self.workspace_sound(
                self.workspaces[i].1,
            )
        &&& self.startup matches Some(s) ==> tab_has(self.workspaces, s.workspace) && 1 <= s.desktop <= 8
    }

    /// The bindings are in order: each does one thing, and a series is neither empty nor too long.
    pub open spec fn binds_sound(self) -> bool {
        forall|i: int|
            0 <= i < self.binds.len() ==> {
                let b = #[trigger] self.binds[i];
                &&& b.action_fields().len() == 1
                &&& b.range matches Some((from, to)) ==> from <= to <= from + 100 && has_text(b.chain, "$n"@)
                &&& self.action_fault(b) is None
            }
    }

    /// The classes to ignore are expressions.
    pub open spec fn ignored_sound(self) -> bool {
        forall|i: int| 0 <= i < self.ignore_classes.len() ==> regex_fault(whole(#[trigger] self.ignore_classes[i])) is None
    }
}

proof fn lemma_names<T>(s: Seq<(Str, T)>, i: int)
    requires
        0 <= i <= s.len(),
    ensures
        bad_name_from(s, i) is None <==> forall|k: int| i <= k < s.len() ==> is_valid_name((#[trigger] s[k]).0),
    decreases s.len() - i,
{
    if i < s.len() {
        lemma_names(s, i + 1);
    }
}

proof fn lemma_templates(s: Seq<(Str, TemplateView)>, i: int)
    requires
        0 <= i <= s.len(),
    ensures
        template_fault_from(s, i) is None <==> forall|k: int|
            i <= k < s.len() ==> tab_has((#[trigger] s[k]).1.cells, s[k].1.main),
    decreases s.len() - i,
{
    if i < s.len() {
        lemma_templates(s, i + 1);
    }
}

proof fn lemma_apps(cfg: ConfigView, i: int)
    requires
        0 <= i <= cfg.apps.len(),
    ensures
        apps_fault_from(cfg, i) is None <==> forall|k: int|
            i <= k < cfg.apps.len() ==> app_fault(cfg, (#[trigger] cfg.apps[k]).0, cfg.apps[k].1) is None,
    decreases cfg.apps.len() - i,
{
    if i < cfg.apps.len() {
        lemma_apps(cfg, i + 1);
    }
}

proof fn lemma_ignored(s: Seq<Str>, i: int)
    requires
        0 <= i <= s.len(),
    ensures
        ignore_fault_from(s, i) is None <==> forall|k: int|
            i <= k < s.len() ==> regex_fault(whole(#[trigger] s[k])) is None,
    decreases s.len() - i,
{
    if i < s.len() {
        lemma_ignored(s, i + 1);
    }
}

proof fn lemma_entries(cfg: ConfigView, w: WorkspaceView, t: TemplateView, i: int)
    requires
        0 <= i <= w.apps.len(),
    ensures
        entries_fault_from(cfg, w, t, i) is None <==> forall|k: int|
            i <= k < w.apps.len() ==> entry_fault(cfg, w, t, (#[trigger] w.apps[k]).0, w.apps[k].1) is None,
    decreases w.apps.len() - i,
{
    if i < w.apps.len() {
        lemma_entries(cfg, w, t, i + 1);
    }
}

proof fn lemma_workspace(cfg: ConfigView, w: WorkspaceView)
    ensures
        workspace_fault(cfg, w) is None <==> cfg.workspace_sound(w),
{
    crate::table::lemma_find(cfg.templates, w.template, 0);
    if let Some(t) = tab_get(cfg.templates, w.template) {
        lemma_entries(cfg, w, t, 0);
        assert(workspace_fault(cfg, w) is None ==> entries_fault_from(cfg, w, t, 0) is None);
        assert forall|k: int| 0 <= k < w.apps.len() && cfg.workspace_sound(w) implies entry_fault(
            cfg,
            w,
            t,
            (#[trigger] w.apps[k]).0,
            w.apps[k].1,
        ) is None by {
            let (app, e) = w.apps[k];
            assert(tab_has(cfg.apps, app));
        }
        if workspace_fault(cfg, w) is None {
            assert forall|k: int| 0 <= k < w.apps.len() implies ({
                let (app, e) = #[trigger] w.apps[k];
                &&& tab_has(cfg.apps, app)
                &&& e.place matches PlacementView::Cell(c) ==> tab_get(cfg.templates, w.template) matches Some(t)
                    && tab_has(t.cells, c)
                &&& e.mode matches Some(m) ==> is_mode(m)
            }) by {
                assert(entry_fault(cfg, w, t, w.apps[k].0, w.apps[k].1) is None);
            }
        }
    }
}

proof fn lemma_workspaces(cfg: ConfigView, i: int)
    requires
        0 <= i <= cfg.workspaces.len(),
    ensures
        workspaces_fault_from(cfg, i) is None <==> forall|k: int|
            i <= k < cfg.workspaces.len() ==> cfg.workspace_sound((#[trigger] cfg.workspaces[k]).1),
    decreases cfg.workspaces.len() - i,
{
    if i < cfg.workspaces.len() {
        lemma_workspace(cfg, cfg.workspaces[i].1);
        lemma_workspaces(cfg, i + 1);
    }
}

proof fn lemma_binds(cfg: ConfigView, i: int)
    requires
        0 <= i <= cfg.binds.len(),
    ensures
        binds_fault_from(cfg, i) is None <==> forall|k: int|
            i <= k < cfg.binds.len() ==> form_fault(#[trigger] cfg.binds[k]) is None && cfg.action_fault(cfg.binds[k]) is None,
    decreases cfg.binds.len() - i,
{
    if i < cfg.binds.len() {
        lemma_binds(cfg, i + 1);
    }
}

/// A configuration is accepted exactly where its templates, applications, classes to ignore, workspaces and
/// bindings are in order and its chains have no fault.
pub proof fn law_accepted_is_sound(cfg: ConfigView)
    ensures
        cfg.fault() is None <==> {
            &&& cfg.templates_sound()
            &&& cfg.apps_sound()
            &&& cfg.ignored_sound()
            &&& cfg.workspaces_sound()
            &&& cfg.binds_sound()
            &&& cfg.chains_fault() is None
        },
{
    lemma_names(cfg.templates, 0);
    lemma_names(cfg.apps, 0);
    lemma_names(cfg.workspaces, 0);
    lemma_templates(cfg.templates, 0);
    lemma_apps(cfg, 0);
    lemma_ignored(cfg.ignore_classes, 0);
    lemma_workspaces(cfg, 0);
    lemma_binds(cfg, 0);
    assert(cfg.templates_sound() <==> bad_name_from(cfg.templates, 0) is None && template_fault_from(cfg.templates, 0) is None);
    assert(cfg.apps_sound() <==> bad_name_from(cfg.apps, 0) is None && apps_fault_from(cfg, 0) is None);
    assert(cfg.workspaces_sound() <==> bad_name_from(cfg.workspaces, 0) is None && workspaces_fault_from(cfg, 0) is None
        && startup_fault(cfg) is None);
    assert(cfg.binds_sound() <==> binds_fault_from(cfg, 0) is None);
}

} // verus!
