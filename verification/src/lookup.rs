//! What the configuration says of applications, families, keys and commands.
use vstd::prelude::*;

use crate::chain::{same_chain, same_chain_of};
use crate::config::{
    app_at, app_names, count_apps, find_app, mode_of, App, AppView, Config, ConfigView, Mode, Workspace, WorkspaceView,
    WsApp, WsAppView,
};
use crate::pattern::{quote, quoted, regex_fault, regex_matches, whole, whole_text, Pattern};
use crate::table::{tab_get, tab_put, Table};
use crate::text::{
    chars_of, digit, find_char, from_chars, index_from, is_digit, is_letter, letter, opt_is, opt_str, oview, push_char,
    same, views, Str,
};

verus! {

broadcast use crate::text::group_views;

// ---- Expressions of an application --------------------------------------------

/// A fault of an expression in a field: the field, the expression and what is wrong with it.
pub open spec fn field_fault(field: Str, p: Str, e: Str) -> Str {
    "поле "@ + field + " "@ + quoted(p) + ": "@ + e
}

fn make_field_fault(field: &str, p: &str, e: &str) -> (r: String)
    ensures
        r@ == field_fault(field@, p@, e@),
{
    let mut s = "поле ".to_owned();
    s.append(field);
    s.append(" ");
    s.append(quote(p).as_str());
    s.append(": ");
    s.append(e);
    s
}

impl AppView {
    /// The expressions that know the windows of the application: the whole class and the title as
    /// written; none without a class, and a fault where one of them has one.
    pub open spec fn matchers(self) -> Result<Option<(Str, Option<Str>)>, Str> {
        match self.class {
            None => Ok(None),
            Some(c) => match regex_fault(whole(c)) {
                Some(e) => Err(field_fault("class"@, c, e)),
                None => match self.title {
                    None => Ok(Some((whole(c), None))),
                    Some(t) => match regex_fault(t) {
                        Some(e) => Err(field_fault("title"@, t, e)),
                        None => Ok(Some((whole(c), Some(t)))),
                    },
                },
            },
        }
    }

    /// The expression of the titles of dialogs.
    pub open spec fn dialog_matcher(self) -> Result<Option<Str>, Str> {
        match self.dialog_title {
            None => Ok(None),
            Some(t) => match regex_fault(t) {
                Some(e) => Err(field_fault("dialog_title"@, t, e)),
                None => Ok(Some(t)),
            },
        }
    }

    /// A window of the application with this title is a dialog.
    pub open spec fn is_dialog(self, title: Str) -> bool {
        self.dialog_matcher() matches Ok(Some(t)) && regex_matches(t, title)
    }
}

impl App {
    /// The expressions that know the windows of the application.
    pub fn matchers(&self) -> (r: Result<Option<(Pattern, Option<Pattern>)>, String>)
        ensures
            match r {
                Ok(None) => self@.matchers() == Ok::<Option<(Str, Option<Str>)>, Str>(None),
                Ok(Some((c, t))) => self@.matchers() == Ok::<Option<(Str, Option<Str>)>, Str>(Some((c@, oview(t)))),
                Err(e) => self@.matchers() == Err::<Option<(Str, Option<Str>)>, Str>(e@),
            },
    {
        let class = match &self.class {
            Some(c) => c,
            None => return Ok(None),
        };
        let class_re = match Pattern::new(whole_text(class.as_str()).as_str()) {
            Ok(p) => p,
            Err(e) => return Err(make_field_fault("class", class.as_str(), e.as_str())),
        };
        match &self.title {
            None => Ok(Some((class_re, None))),
            Some(t) => match Pattern::new(t.as_str()) {
                Ok(p) => Ok(Some((class_re, Some(p)))),
                Err(e) => Err(make_field_fault("title", t.as_str(), e.as_str())),
            },
        }
    }

    /// The expression of the titles of dialogs.
    pub fn dialog_matcher(&self) -> (r: Result<Option<Pattern>, String>)
        ensures
            match r {
                Ok(p) => self@.dialog_matcher() == Ok::<Option<Str>, Str>(oview(p)),
                Err(e) => self@.dialog_matcher() == Err::<Option<Str>, Str>(e@),
            },
    {
        match &self.dialog_title {
            None => Ok(None),
            Some(t) => match Pattern::new(t.as_str()) {
                Ok(p) => Ok(Some(p)),
                Err(e) => Err(make_field_fault("dialog_title", t.as_str(), e.as_str())),
            },
        }
    }

    /// A window of the application with this title is a dialog.
    pub fn is_dialog(&self, title: &str) -> (r: bool)
        ensures
            r == self@.is_dialog(title@),
    {
        match self.dialog_matcher() {
            Ok(Some(p)) => p.is_match(title),
            _ => false,
        }
    }
}

// ---- Families -----------------------------------------------------------------

impl ConfigView {
    /// The family of an application that is a variant.
    pub open spec fn family_of(self, app: Str) -> Option<Str> {
        match tab_get(self.apps, app) {
            Some(a) => a.family,
            None => None,
        }
    }

    /// A window of the application `name` belongs to `target`: to itself or to its family.
    pub open spec fn app_is(self, name: Str, target: Str) -> bool {
        name == target || self.family_of(name) == Some(target)
    }

    /// The class is one of those that are never taken into a workspace.
    pub open spec fn ignored_class(self, class: Str) -> bool {
        exists|i: int|
            0 <= i < self.ignore_classes.len() && regex_matches(whole(#[trigger] self.ignore_classes[i]), class)
    }

    /// The variants of a family among the first `n` applications.
    pub open spec fn variants_upto(self, family: Str, n: int) -> Seq<Str>
        decreases n,
    {
        if n <= 0 {
            Seq::empty()
        } else if self.apps[n - 1].1.family == Some(family) {
            self.variants_upto(family, n - 1).push(self.apps[n - 1].0)
        } else {
            self.variants_upto(family, n - 1)
        }
    }

    /// The workspace describes an application from its entry `i` on: itself or its family.
    pub open spec fn described_from(self, apps: Seq<(Str, WsAppView)>, app: Str, i: int) -> bool
        decreases apps.len() - i,
    {
        if i >= apps.len() {
            false
        } else {
            self.app_is(app, apps[i].0) || self.described_from(apps, app, i + 1)
        }
    }

    /// The workspace describes the application: itself or its family.
    pub open spec fn ws_has_app(self, ws: Str, app: Str) -> bool {
        match tab_get(self.workspaces, ws) {
            Some(w) => self.described_from(w.apps, app, 0),
            None => false,
        }
    }

    /// The entries of a workspace; none where it is not in the configuration.
    pub open spec fn entries(self, ws: Str) -> Seq<(Str, WsAppView)> {
        match tab_get(self.workspaces, ws) {
            Some(w) => w.apps,
            None => Seq::empty(),
        }
    }

    /// The entry that places an application in a workspace: its own, else that of its family.
    pub open spec fn ws_entry(self, ws: Str, app: Str) -> Option<(Str, WsAppView)> {
        match tab_get(self.entries(ws), app) {
            Some(e) => Some((app, e)),
            None => match self.family_of(app) {
                Some(f) => match tab_get(self.entries(ws), f) {
                    Some(e) => Some((f, e)),
                    None => None,
                },
                None => None,
            },
        }
    }

    /// The own key of an application.
    pub open spec fn own_key(self, app: Str) -> Option<Str> {
        match tab_get(self.apps, app) {
            Some(a) => a.chain,
            None => None,
        }
    }

    /// The key that the own entry of an application in a workspace gives it.
    pub open spec fn entry_key(self, ws: Str, app: Str) -> Option<Str> {
        match tab_get(self.entries(ws), app) {
            Some(e) => e.chain,
            None => None,
        }
    }

    /// The entry of the application in the workspace gives it another key than its own.
    pub open spec fn overrides_key(self, ws: Str, app: Str) -> bool {
        match self.entry_key(ws, app) {
            Some(c) => match self.own_key(app) {
                Some(own) => !same_chain_of(c, own),
                None => true,
            },
            None => false,
        }
    }

    /// The key of an application in a workspace: that of its entry where it is another one, else its own.
    pub open spec fn app_key(self, ws: Str, app: Str) -> Option<Str> {
        if self.overrides_key(ws, app) {
            self.entry_key(ws, app)
        } else {
            self.own_key(app)
        }
    }

    /// The first application of the entries from `i` on whose key in the workspace is this chain.
    pub open spec fn responds_from(self, ws: Str, chain: Str, i: int) -> Option<Str>
        decreases self.entries(ws).len() - i,
    {
        if i >= self.entries(ws).len() {
            None
        } else {
            let a = self.entries(ws)[i].0;
            match self.app_key(ws, a) {
                Some(k) => if same_chain_of(k, chain) {
                    Some(a)
                } else {
                    self.responds_from(ws, chain, i + 1)
                },
                None => self.responds_from(ws, chain, i + 1),
            }
        }
    }

    /// The application of a workspace whose key there is this chain.
    pub open spec fn responds(self, ws: Str, chain: Str) -> Option<Str> {
        self.responds_from(ws, chain, 0)
    }

    /// The chain is the own key of the application.
    pub open spec fn owns(self, app: Str, chain: Str) -> bool {
        self.own_key(app) matches Some(c) && same_chain_of(c, chain)
    }

    /// One of the workspaces from `i` on gives the application this chain as another key than its own.
    pub open spec fn assigned_from(self, app: Str, chain: Str, i: int) -> bool
        decreases self.workspaces.len() - i,
    {
        if i >= self.workspaces.len() {
            false
        } else {
            let w = self.workspaces[i].0;
            ||| (self.entry_key(w, app) matches Some(c) && same_chain_of(c, chain) && self.overrides_key(w, app))
            ||| self.assigned_from(app, chain, i + 1)
        }
    }

    /// Some workspace gives the application this chain as another key than its own.
    pub open spec fn assigned(self, app: Str, chain: Str) -> bool {
        self.assigned_from(app, chain, 0)
    }

    /// Those of the first `n` applications that this chain may call.
    pub open spec fn candidates_upto(self, chain: Str, n: int) -> Seq<Str>
        decreases n,
    {
        if n <= 0 {
            Seq::empty()
        } else {
            let a = self.apps[n - 1].0;
            if self.owns(a, chain) || self.assigned(a, chain) {
                self.candidates_upto(chain, n - 1).push(a)
            } else {
                self.candidates_upto(chain, n - 1)
            }
        }
    }

    /// The applications that this chain may call, by name.
    pub open spec fn key_candidates(self, chain: Str) -> Seq<Str> {
        self.candidates_upto(chain, self.apps.len() as int)
    }

    /// The mode of the key of an application in a workspace: that of its entry, else that of the
    /// workspace.
    pub open spec fn app_mode(self, ws: Str, app: Str) -> Mode {
        match tab_get(self.workspaces, ws) {
            None => Mode::Swap,
            Some(w) => match self.ws_entry(ws, app) {
                Some((_, e)) => match e.mode {
                    Some(m) => mode_of(m),
                    None => mode_of(w.mode),
                },
                None => mode_of(w.mode),
            },
        }
    }
}

impl Config {
    /// The family of an application that is a variant.
    pub fn family_of(&self, app: &str) -> (r: Option<&str>)
        ensures
            oview(r) == self@.family_of(app@),
            r is Some == self@.family_of(app@) is Some,
    {
        match self.apps.get(app) {
            Some(a) => opt_str(&a.family),
            None => None,
        }
    }

    /// A window of the application `name` belongs to `target`: to itself or to its family.
    pub fn app_is(&self, name: &str, target: &str) -> (r: bool)
        ensures
            r == self@.app_is(name@, target@),
    {
        if same(name, target) {
            return true;
        }
        match self.family_of(name) {
            Some(f) => same(f, target),
            None => false,
        }
    }

    /// The class is one of those that are never taken into a workspace.
    pub fn ignored_class(&self, class: &str) -> (r: bool)
        ensures
            r == self@.ignored_class(class@),
    {
        let mut i: usize = 0;
        while i < self.ignore_classes.len()
            invariant
                i <= self.ignore_classes.len(),
                forall|k: int|
                    0 <= k < i ==> !regex_matches(whole(#[trigger] self@.ignore_classes[k]), class@),
            decreases self.ignore_classes.len() - i,
        {
            let p = Pattern { text: whole_text(self.ignore_classes[i].as_str()) };
            if p.is_match(class) {
                assert(regex_matches(whole(self@.ignore_classes[i as int]), class@));
                return true;
            }
            i = i + 1;
        }
        false
    }

    /// The variants of a family, by name.
    pub fn variants_of(&self, family: &str) -> (r: Vec<String>)
        ensures
            views(r@) == self@.variants_upto(family@, self@.apps.len() as int),
    {
        let mut out: Vec<String> = Vec::new();
        let n: usize = self.apps.len();
        let mut i: usize = 0;
        while i < n
            invariant
                i <= n,
                n == self@.apps.len(),
                views(out@) == self@.variants_upto(family@, i as int),
            decreases n - i,
        {
            if opt_is(&self.apps.at(i).family, family) {
                out.push(self.apps.key(i).clone());
            }
            i = i + 1;
        }
        out
    }

    /// The names of the applications of a workspace, in the order of the file.
    pub fn entry_names(&self, ws: &str) -> (r: Vec<String>)
        ensures
            views(r@) == crate::table::tab_keys(self@.entries(ws@)),
    {
        match self.workspaces.get(ws) {
            Some(w) => app_names(&w.apps),
            None => {
                let v: Vec<String> = Vec::new();
                proof {
                    assert(views(v@) =~= crate::table::tab_keys(self@.entries(ws@)));
                }
                v
            },
        }
    }

    /// The entry that places an application in a workspace: its own, else that of its family.
    pub fn ws_entry(&self, ws: &str, app: &str) -> (r: Option<(String, &WsApp)>)
        ensures
            match r {
                Some((n, e)) => self@.ws_entry(ws@, app@) == Some((n@, e@)),
                None => self@.ws_entry(ws@, app@) is None,
            },
    {
        let w = match self.workspaces.get(ws) {
            Some(w) => w,
            None => return None,
        };
        match find_app(&w.apps, app) {
            Some(e) => Some((app.to_owned(), e)),
            None => match self.family_of(app) {
                Some(f) => match find_app(&w.apps, f) {
                    Some(e) => Some((f.to_owned(), e)),
                    None => None,
                },
                None => None,
            },
        }
    }

    fn own_key(&self, app: &str) -> (r: Option<&str>)
        ensures
            oview(r) == self@.own_key(app@),
            r is Some == self@.own_key(app@) is Some,
    {
        match self.apps.get(app) {
            Some(a) => opt_str(&a.chain),
            None => None,
        }
    }

    fn entry_key(&self, ws: &str, app: &str) -> (r: Option<&str>)
        ensures
            oview(r) == self@.entry_key(ws@, app@),
            r is Some == self@.entry_key(ws@, app@) is Some,
    {
        match self.workspaces.get(ws) {
            Some(w) => match find_app(&w.apps, app) {
                Some(e) => opt_str(&e.chain),
                None => None,
            },
            None => None,
        }
    }

    /// The entry of the application in the workspace gives it another key than its own.
    pub fn overrides_key(&self, ws: &str, app: &str) -> (r: bool)
        ensures
            r == self@.overrides_key(ws@, app@),
    {
        match self.entry_key(ws, app) {
            Some(c) => match self.own_key(app) {
                Some(own) => !same_chain(c, own),
                None => true,
            },
            None => false,
        }
    }

    /// The key of an application in a workspace: that of its entry where it is another one, else its own.
    pub fn app_key(&self, ws: &str, app: &str) -> (r: Option<&str>)
        ensures
            oview(r) == self@.app_key(ws@, app@),
            r is Some == self@.app_key(ws@, app@) is Some,
    {
        if self.overrides_key(ws, app) {
            self.entry_key(ws, app)
        } else {
            self.own_key(app)
        }
    }

    /// The application of a workspace whose key there is this chain.
    pub fn responds(&self, ws: &str, chain: &str) -> (r: Option<String>)
        ensures
            oview(r) == self@.responds(ws@, chain@),
    {
        let w = match self.workspaces.get(ws) {
            Some(w) => w,
            None => return None,
        };
        let n: usize = count_apps(&w.apps);
        let mut i: usize = 0;
        while i < n
            invariant
                i <= n,
                n == self@.entries(ws@).len(),
                self@.entries(ws@) == w@.apps,
                self@.responds_from(ws@, chain@, 0) == self@.responds_from(ws@, chain@, i as int),
            decreases n - i,
        {
            let name = app_at(&w.apps, i).0;
            if let Some(k) = self.app_key(ws, name.as_str()) {
                if same_chain(k, chain) {
                    return Some(name.clone());
                }
            }
            i = i + 1;
        }
        None
    }

    /// The chain is the own key of the application.
    pub fn owns(&self, app: &str, chain: &str) -> (r: bool)
        ensures
            r == self@.owns(app@, chain@),
    {
        match self.own_key(app) {
            Some(c) => same_chain(c, chain),
            None => false,
        }
    }

    /// Some workspace gives the application this chain as another key than its own.
    pub fn assigned(&self, app: &str, chain: &str) -> (r: bool)
        ensures
            r == self@.assigned(app@, chain@),
    {
        let n: usize = self.workspaces.len();
        let mut i: usize = 0;
        while i < n
            invariant
                i <= n,
                n == self@.workspaces.len(),
                self@.assigned_from(app@, chain@, 0) == self@.assigned_from(app@, chain@, i as int),
            decreases n - i,
        {
            let w = self.workspaces.key(i);
            if let Some(c) = self.entry_key(w.as_str(), app) {
                if same_chain(c, chain) && self.overrides_key(w.as_str(), app) {
                    return true;
                }
            }
            i = i + 1;
        }
        false
    }

    /// The applications that this chain may call, by name.
    pub fn key_candidates(&self, chain: &str) -> (r: Vec<String>)
        ensures
            views(r@) == self@.key_candidates(chain@),
    {
        let mut out: Vec<String> = Vec::new();
        let n: usize = self.apps.len();
        let mut i: usize = 0;
        while i < n
            invariant
                i <= n,
                n == self@.apps.len(),
                views(out@) == self@.candidates_upto(chain@, i as int),
            decreases n - i,
        {
            let a = self.apps.key(i);
            if self.owns(a.as_str(), chain) || self.assigned(a.as_str(), chain) {
                out.push(a.clone());
            }
            i = i + 1;
        }
        out
    }

    /// The mode of the key of an application in a workspace.
    pub fn app_mode(&self, ws: &str, app: &str) -> (r: Mode)
        ensures
            r == self@.app_mode(ws@, app@),
    {
        match self.workspaces.get(ws) {
            None => Mode::Swap,
            Some(w) => match self.ws_entry(ws, app) {
                Some((_, e)) => match &e.mode {
                    Some(m) => crate::config::read_mode(m.as_str()),
                    None => w.mode(),
                },
                None => w.mode(),
            },
        }
    }
}

/// The workspace describes the application: itself or its family.
pub fn ws_has_app(cfg: &Config, ws: &str, app: &str) -> (r: bool)
    ensures
        r == cfg@.ws_has_app(ws@, app@),
{
    let w = match cfg.workspaces.get(ws) {
        Some(w) => w,
        None => return false,
    };
    let n: usize = count_apps(&w.apps);
    let mut i: usize = 0;
    while i < n
        invariant
            i <= n,
            n == w@.apps.len(),
            tab_get(cfg@.workspaces, ws@) == Some(w@),
            cfg@.described_from(w@.apps, app@, 0) == cfg@.described_from(w@.apps, app@, i as int),
        decreases n - i,
    {
        if cfg.app_is(app, app_at(&w.apps, i).0.as_str()) {
            return true;
        }
        i = i + 1;
    }
    false
}

// ---- Environment and commands -------------------------------------------------

/// The value of a name: from the environment built so far, then from the outer one, else nothing.
pub open spec fn value_of(name: Str, env: Seq<(Str, Str)>, outer: Seq<(Str, Str)>) -> Str {
    match tab_get(env, name) {
        Some(v) => v,
        None => match tab_get(outer, name) {
            Some(v) => v,
            None => Seq::empty(),
        },
    }
}

fn lookup(name: &str, env: &Table<String>, outer: &Table<String>) -> (r: String)
    ensures
        r@ == value_of(name@, env@, outer@),
{
    match env.get(name) {
        Some(v) => v.clone(),
        None => match outer.get(name) {
            Some(v) => v.clone(),
            None => String::new(),
        },
    }
}

/// The end of a name that begins at `i`: letters, digits and underscores.
pub open spec fn name_end(s: Str, i: int) -> int
    decreases s.len() - i,
{
    if i < s.len() && (is_letter(s[i]) || is_digit(s[i]) || s[i] == '_') {
        name_end(s, i + 1)
    } else {
        i
    }
}

proof fn lemma_name_end(s: Str, i: int)
    requires
        0 <= i <= s.len(),
    ensures
        i <= name_end(s, i) <= s.len(),
    decreases s.len() - i,
{
    if i < s.len() {
        lemma_name_end(s, i + 1);
    }
}

proof fn lemma_index_from(s: Str, c: char, i: int)
    requires
        0 <= i,
    ensures
        index_from(s, c, i) <= s.len(),
        i <= s.len() ==> i <= index_from(s, c, i),
    decreases s.len() - i,
{
    if i < s.len() {
        lemma_index_from(s, c, i + 1);
    }
}

/// The text from `i` on with `$NAME` and `${NAME}` replaced by their values.
pub open spec fn expanded_from(s: Str, i: int, env: Seq<(Str, Str)>, outer: Seq<(Str, Str)>) -> Str
    decreases s.len() - i,
    when 0 <= i
{
    if i >= s.len() {
        Seq::empty()
    } else if s[i] == '$' && i + 1 < s.len() && s[i + 1] == '{' && i < index_from(s, '}', i + 2) < s.len() {
        let j = index_from(s, '}', i + 2);
        value_of(s.subrange(i + 2, j), env, outer) + expanded_from(s, j + 1, env, outer)
    } else if s[i] == '$' && i + 1 < s.len() && (is_letter(s[i + 1]) || s[i + 1] == '_') && i < name_end(s, i + 1) <= s.len() {
        let j = name_end(s, i + 1);
        value_of(s.subrange(i + 1, j), env, outer) + expanded_from(s, j, env, outer)
    } else {
        seq![s[i]] + expanded_from(s, i + 1, env, outer)
    }
}

/// A text with `~` at its beginning, `$NAME` and `${NAME}` replaced.
pub open spec fn expanded(s: Str, env: Seq<(Str, Str)>, outer: Seq<(Str, Str)>) -> Str {
    if s.len() > 0 && s[0] == '~' && (s.len() == 1 || s[1] == '/') {
        value_of("HOME"@, env, outer) + expanded_from(s.skip(1), 0, env, outer)
    } else {
        expanded_from(s, 0, env, outer)
    }
}

/// Replace `~` at the beginning of a text and `$NAME`, `${NAME}` anywhere in it: by the environment
/// built so far, then by the outer one, else by nothing.
pub fn expand(s: &str, env: &Table<String>, outer: &Table<String>) -> (r: String)
    ensures
        r@ == expanded(s@, env@, outer@),
{
    let all = chars_of(s);
    let n: usize = all.len();
    let mut out = String::new();
    let tilde: bool = n > 0 && all[0] == '~' && (n == 1 || all[1] == '/');
    if tilde {
        out.append(lookup("HOME", env, outer).as_str());
    }
    let first: usize = if tilde {
        1
    } else {
        0
    };
    let src = crate::text::chars_of(s.substring_char(first, n));
    let ghost t = src@;
    let ghost head = out@;
    proof {
        assert(s@.skip(1) =~= s@.subrange(1, s@.len() as int) || n == 0);
        assert(s@.subrange(0, s@.len() as int) =~= s@);
        assert(Seq::<char>::empty() + value_of("HOME"@, env@, outer@) =~= value_of("HOME"@, env@, outer@));
        assert(Seq::<char>::empty() + expanded_from(t, 0, env@, outer@) =~= expanded_from(t, 0, env@, outer@));
        assert(expanded(s@, env@, outer@) =~= head + expanded_from(t, 0, env@, outer@));
    }
    let mut i: usize = 0;
    while i < src.len()
        invariant
            t == src@,
            i <= src.len(),
            out@ + expanded_from(t, i as int, env@, outer@) == head + expanded_from(t, 0, env@, outer@),
        decreases src.len() - i,
    {
        let c = src[i];
        let ghost before = out@;
        if c == '$' && i + 1 < src.len() {
            if src[i + 1] == '{' {
                let end: usize = if i + 2 <= src.len() {
                    find_char(&src, '}', i + 2)
                } else {
                    src.len()
                };
                if end < src.len() {
                    let v = lookup(from_chars(&src, i + 2, end).as_str(), env, outer);
                    out.append(v.as_str());
                    proof {
                        assert(before + (v@ + expanded_from(t, end + 1, env@, outer@)) =~= out@ + expanded_from(
                            t,
                            end + 1,
                            env@,
                            outer@,
                        ));
                    }
                    i = end + 1;
                    continue;
                }
            } else if letter(src[i + 1]) || src[i + 1] == '_' {
                let mut j: usize = i + 1;
                while j < src.len() && (letter(src[j]) || digit(src[j]) || src[j] == '_')
                    invariant
                        t == src@,
                        i < j <= src.len(),
                        name_end(t, i + 1) == name_end(t, j as int),
                    decreases src.len() - j,
                {
                    j = j + 1;
                }
                proof {
                    lemma_name_end(t, i + 1);
                }
                let v = lookup(from_chars(&src, i + 1, j).as_str(), env, outer);
                out.append(v.as_str());
                proof {
                    assert(before + (v@ + expanded_from(t, j as int, env@, outer@)) =~= out@ + expanded_from(
                        t,
                        j as int,
                        env@,
                        outer@,
                    ));
                }
                i = j;
                continue;
            }
        }
        push_char(&mut out, c);
        proof {
            lemma_name_end(t, i + 1);
            lemma_index_from(t, '}', i + 2);
            assert(before + (seq![c] + expanded_from(t, i + 1, env@, outer@)) =~= out@ + expanded_from(
                t,
                i + 1,
                env@,
                outer@,
            ));
        }
        i = i + 1;
    }
    proof {
        assert(out@ + expanded_from(t, i as int, env@, outer@) =~= out@);
    }
    out
}

/// An environment with the first `n` names of a layer put in, each value with its names replaced.
pub open spec fn layered(env: Seq<(Str, Str)>, layer: Seq<(Str, Str)>, outer: Seq<(Str, Str)>, n: int) -> Seq<
    (Str, Str),
>
    decreases n,
{
    if n <= 0 {
        env
    } else {
        let e = layered(env, layer, outer, n - 1);
        tab_put(e, layer[n - 1].0, expanded(layer[n - 1].1, e, outer))
    }
}

fn put_layer(env: &mut Table<String>, layer: &Table<String>, outer: &Table<String>)
    ensures
        final(env)@ == layered(old(env)@, layer@, outer@, layer@.len() as int),
{
    let n: usize = layer.len();
    let mut i: usize = 0;
    while i < n
        invariant
            i <= n,
            n == layer@.len(),
            env@ == layered(old(env)@, layer@, outer@, i as int),
        decreases n - i,
    {
        let v = expand(layer.at(i).as_str(), env, outer);
        env.insert(layer.key(i).clone(), v);
        i = i + 1;
    }
}

impl ConfigView {
    /// The environment of an application: that of the configuration, of the workspace and its own, one
    /// over the other.
    pub open spec fn app_env(self, ws: Option<WorkspaceView>, app: AppView, outer: Seq<(Str, Str)>) -> Seq<(Str, Str)> {
        let a = layered(Seq::empty(), self.env, outer, self.env.len() as int);
        let b = match ws {
            Some(w) => layered(a, w.env, outer, w.env.len() as int),
            None => a,
        };
        layered(b, app.env, outer, app.env.len() as int)
    }
}

/// How to start an application: program, arguments, directory, environment.
pub type AppCommand = (String, Vec<String>, Option<String>, Table<String>);

impl Config {
    /// The environment of an application in a workspace; `outer` is that of the daemon.
    pub fn app_env(&self, workspace: Option<&Workspace>, app: &App, outer: &Table<String>) -> (r: Table<String>)
        ensures
            r@ == self@.app_env(oview(workspace), app@, outer@),
    {
        let mut env: Table<String> = Table::new();
        put_layer(&mut env, &self.env, outer);
        if let Some(w) = workspace {
            put_layer(&mut env, &w.env, outer);
        }
        put_layer(&mut env, &app.env, outer);
        env
    }

    /// How to start an application in a workspace; `None` for an application without a command.
    pub fn app_command(&self, workspace: Option<&Workspace>, app: &App, outer: &Table<String>) -> (r: Option<AppCommand>)
        ensures
            r is Some == app@.cmd is Some,
            r matches Some((cmd, args, cwd, env)) ==> {
                let e = self@.app_env(oview(workspace), app@, outer@);
                &&& env@ == e
                &&& cmd@ == expanded(app@.cmd->0, e, outer@)
                &&& views(args@) == app@.args.map_values(|a: Str| expanded(a, e, outer@))
                &&& oview(cwd) == match app@.cwd {
                    Some(c) => Some(expanded(c, e, outer@)),
                    None => None::<Str>,
                }
            },
    {
        let env = self.app_env(workspace, app, outer);
        let cmd = match &app.cmd {
            Some(c) => expand(c.as_str(), &env, outer),
            None => return None,
        };
        let ghost e = env@;
        let ghost t = app@.args.map_values(|a: Str| expanded(a, e, outer@));
        let mut args: Vec<String> = Vec::new();
        let mut i: usize = 0;
        while i < app.args.len()
            invariant
                i <= app.args.len(),
                e == env@,
                t == app@.args.map_values(|a: Str| expanded(a, e, outer@)),
                views(args@) == t.take(i as int),
            decreases app.args.len() - i,
        {
            args.push(expand(app.args[i].as_str(), &env, outer));
            proof {
                assert(t.take(i + 1) =~= t.take(i as int).push(t[i as int]));
            }
            i = i + 1;
        }
        proof {
            assert(t.take(i as int) =~= t);
        }
        let cwd = match &app.cwd {
            Some(c) => Some(expand(c.as_str(), &env, outer)),
            None => None,
        };
        Some((cmd, args, cwd, env))
    }
}

proof fn lemma_plain_from(s: Str, i: int, env: Seq<(Str, Str)>, outer: Seq<(Str, Str)>)
    requires
        0 <= i <= s.len(),
        !s.contains('$'),
    ensures
        expanded_from(s, i, env, outer) == s.skip(i),
    decreases s.len() - i,
{
    if i < s.len() {
        assert(s[i] != '$');
        lemma_plain_from(s, i + 1, env, outer);
        assert(seq![s[i]] + s.skip(i + 1) =~= s.skip(i));
    } else {
        assert(s.skip(i) =~= Seq::empty());
    }
}

/// A text that begins with no `~` and holds no `$` stays as it is, whatever the environment.
pub proof fn law_plain_text_stays(s: Str, env: Seq<(Str, Str)>, outer: Seq<(Str, Str)>)
    requires
        !s.contains('$'),
        s.len() == 0 || s[0] != '~',
    ensures
        expanded(s, env, outer) == s,
{
    lemma_plain_from(s, 0, env, outer);
    assert(s.skip(0) =~= s);
}

} // verus!
