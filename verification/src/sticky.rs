//! Modes: their states, the keys of every state and where each key leads.
use vstd::prelude::*;

use crate::chain::{chain_compact, compact_of, copy_chain, rviews, Chain, Combo, ComboView};
use crate::config::{
    state_view, states_view, Bind, BindView, Config, ConfigView, StickyKey, StickyKeyView, StickyState, StickyStateView,
};
use crate::keys::{bind_act, shell_quote, shell_quoted, Act, ActView, Binding, BindingView, Flags};
use crate::pattern::{quote, quoted};
use crate::table::{dup_all, dup_opt, Dup};
use crate::text::{
    any_space, contains, copy_all, copy_opt, has_prefix, has_space, has_text, join, joined, lower, oview, same,
    starts, to_lower, trim, trimmed, views, Str,
};

verus! {

broadcast use crate::text::group_views;

/// Where a key of a state leads.
#[derive(Debug, PartialEq)]
pub enum StickyGo {
    /// To the state of this name below.
    State(String),
    /// It does something.
    Act(Act),
}

/// Where a key of a state leads.
pub enum StickyGoView {
    State(Str),
    Act(ActView),
}

impl View for StickyGo {
    type V = StickyGoView;

    open spec fn view(&self) -> StickyGoView {
        match *self {
            StickyGo::State(s) => StickyGoView::State(s@),
            StickyGo::Act(a) => StickyGoView::Act(a@),
        }
    }
}

impl Dup for StickyGo {
    fn dup(&self) -> (r: Self) {
        match self {
            StickyGo::State(s) => StickyGo::State(s.clone()),
            StickyGo::Act(a) => StickyGo::Act(a.dup()),
        }
    }
}

/// A key of a state, after keys were taken over and completed.
#[derive(Debug, PartialEq)]
pub struct StickyBind {
    pub key: String,
    /// The modifiers; a key without them is bound with any.
    pub mods: Vec<String>,
    pub flags: Flags,
    pub go: StickyGo,
    pub exit: bool,
    pub desc: Option<String>,
    /// The source of the key of an application that was taken over.
    pub inherited: Option<String>,
    /// The binding of a key with an action of its own.
    pub explicit: Option<Bind>,
    /// The binding whose last combination this key is.
    pub binding: Option<Binding>,
}

/// What such a key is.
pub struct StickyBindView {
    pub key: Str,
    pub mods: Seq<Str>,
    pub flags: Flags,
    pub go: StickyGoView,
    pub exit: bool,
    pub desc: Option<Str>,
    pub inherited: Option<Str>,
    pub explicit: Option<BindView>,
    pub binding: Option<BindingView>,
}

impl View for StickyBind {
    type V = StickyBindView;

    open spec fn view(&self) -> StickyBindView {
        StickyBindView {
            key: self.key@,
            mods: views(self.mods@),
            flags: self.flags,
            go: self.go@,
            exit: self.exit,
            desc: oview(self.desc),
            inherited: oview(self.inherited),
            explicit: oview(self.explicit),
            binding: oview(self.binding),
        }
    }
}

impl Dup for StickyBind {
    fn dup(&self) -> (r: Self) {
        StickyBind {
            key: self.key.clone(),
            mods: copy_all(self.mods.as_slice()),
            flags: self.flags,
            go: self.go.dup(),
            exit: self.exit,
            desc: copy_opt(&self.desc),
            inherited: copy_opt(&self.inherited),
            explicit: dup_opt(&self.explicit),
            binding: dup_opt(&self.binding),
        }
    }
}

/// A state of a mode in the flat list of all states.
#[derive(Debug, PartialEq)]
pub struct StickyNode {
    /// The name of the mode.
    pub chain: String,
    /// The names of the states below the root.
    pub names: Vec<String>,
    /// The titles from the root to this state.
    pub titles: Vec<String>,
    pub submap: String,
    /// The submap of the state above; the root has none.
    pub parent: Option<String>,
    /// The combination that opens the mode, and the keys down to this state.
    pub prefix: Vec<Combo>,
    pub source: String,
    pub keys: Vec<StickyBind>,
    /// The mode was made of chains of several combinations.
    pub auto: bool,
}

/// What such a state is.
pub struct StickyNodeView {
    pub chain: Str,
    pub names: Seq<Str>,
    pub titles: Seq<Str>,
    pub submap: Str,
    pub parent: Option<Str>,
    pub prefix: Seq<ComboView>,
    pub source: Str,
    pub keys: Seq<StickyBindView>,
    pub auto: bool,
}

impl View for StickyNode {
    type V = StickyNodeView;

    open spec fn view(&self) -> StickyNodeView {
        StickyNodeView {
            chain: self.chain@,
            names: views(self.names@),
            titles: views(self.titles@),
            submap: self.submap@,
            parent: oview(self.parent),
            prefix: views(self.prefix@),
            source: self.source@,
            keys: views(self.keys@),
            auto: self.auto,
        }
    }
}

impl Dup for StickyNode {
    fn dup(&self) -> (r: Self) {
        StickyNode {
            chain: self.chain.clone(),
            names: copy_all(self.names.as_slice()),
            titles: copy_all(self.titles.as_slice()),
            submap: self.submap.clone(),
            parent: copy_opt(&self.parent),
            prefix: dup_all(self.prefix.as_slice()),
            source: self.source.clone(),
            keys: dup_all(self.keys.as_slice()),
            auto: self.auto,
        }
    }
}

impl StickyBindView {
    /// The combination of the key.
    pub open spec fn combo(self) -> ComboView {
        ComboView { mods: self.mods, key: self.key }
    }
}

impl StickyBind {
    /// The combination of the key.
    pub fn combo(&self) -> (r: Combo)
        ensures
            r@ == self@.combo(),
    {
        Combo { mods: copy_all(self.mods.as_slice()), key: self.key.clone() }
    }
}

impl StickyNode {
    /// The chain of a key of the state: what opens the state and the key itself.
    pub fn key_chain(&self, k: &StickyBind) -> (r: Chain)
        ensures
            views(r@) == self@.prefix.push(k@.combo()),
    {
        let mut c = copy_chain(&self.prefix);
        c.push(k.combo());
        c
    }
}

/// The name of the submap of a state.
pub open spec fn submap_of(chain: Str, names: Seq<Str>) -> Str {
    if names.len() == 0 {
        "ws-sticky:"@ + chain
    } else {
        "ws-sticky:"@ + chain + "/"@ + joined(names, "/"@)
    }
}

/// The name of the submap of a state.
pub fn submap_name(chain: &str, names: &[String]) -> (r: String)
    ensures
        r@ == submap_of(chain@, views(names@)),
{
    let mut s = "ws-sticky:".to_owned();
    s.append(chain);
    if names.len() > 0 {
        s.append("/");
        s.append(join(names, "/").as_str());
    }
    s
}

/// The name of a mode or a state: small letters, digits and hyphens.
pub open spec fn is_sticky_name(s: Str) -> bool {
    s.len() > 0 && forall|i: int|
        0 <= i < s.len() ==> ('a' <= #[trigger] s[i] <= 'z') || crate::text::is_digit(s[i]) || s[i] == '-'
}

pub(crate) fn sticky_name(s: &str) -> (r: bool)
    ensures
        r == is_sticky_name(s@),
{
    let v = crate::text::chars_of(s);
    if v.len() == 0 {
        return false;
    }
    let mut i: usize = 0;
    while i < v.len()
        invariant
            i <= v.len(),
            v@ == s@,
            forall|k: int|
                0 <= k < i ==> ('a' <= #[trigger] s@[k] <= 'z') || crate::text::is_digit(s@[k]) || s@[k] == '-',
        decreases v.len() - i,
    {
        let c = v[i];
        if !(('a' <= c && c <= 'z') || crate::text::digit(c) || c == '-') {
            assert(s@[i as int] == c);
            return false;
        }
        i = i + 1;
    }
    true
}

// ---- Keys of applications -----------------------------------------------------

/// A key of an application that a state can take over: the key in small letters, its chain and its
/// source.
#[derive(Debug, PartialEq)]
pub struct AppKey {
    pub key: String,
    pub chain: Vec<Combo>,
    pub source: String,
}

/// What such a key is.
pub struct AppKeyView {
    pub key: Str,
    pub chain: Seq<ComboView>,
    pub source: Str,
}

impl View for AppKey {
    type V = AppKeyView;

    open spec fn view(&self) -> AppKeyView {
        AppKeyView {
            key: self.key@,
            chain: views(self.chain@),
            source: self.source@,
        }
    }
}

impl Dup for AppKey {
    fn dup(&self) -> (r: Self) {
        AppKey {
            key: self.key.clone(),
            chain: dup_all(self.chain.as_slice()),
            source: self.source.clone(),
        }
    }
}

/// The binding is a key of applications: one combination with the modifier Super alone.
pub open spec fn is_app_key(b: BindingView) -> bool {
    &&& b.origin is None
    &&& b.chain.len() == 1
    &&& b.chain[0].mods == seq!["SUPER"@]
    &&& b.act matches ActView::Daemon(c) && has_prefix(c, "workspaced key "@)
}

/// The keys of applications among the first `n` bindings.
pub open spec fn app_keys_upto(s: Seq<BindingView>, n: int) -> Seq<AppKeyView>
    decreases n,
{
    if n <= 0 {
        Seq::empty()
    } else if is_app_key(s[n - 1]) {
        app_keys_upto(s, n - 1).push(
            AppKeyView { key: lower(s[n - 1].chain[0].key), chain: s[n - 1].chain, source: s[n - 1].source },
        )
    } else {
        app_keys_upto(s, n - 1)
    }
}

fn app_key_binding(b: &Binding) -> (r: bool)
    ensures
        r == is_app_key(b@),
{
    if b.origin.is_some() || b.chain.len() != 1 {
        return false;
    }
    let m = &b.chain[0].mods;
    if m.len() != 1 || !same(m[0].as_str(), "SUPER") {
        proof {
            if views(m@) == seq!["SUPER"@] {
                assert(views(m@).len() == 1);
                assert(views(m@)[0] == "SUPER"@);
            }
        }
        return false;
    }
    proof {
        assert(views(m@) =~= seq!["SUPER"@]);
    }
    match &b.act {
        Act::Daemon(c) => starts(c.as_str(), "workspaced key "),
        _ => false,
    }
}

pub(crate) fn app_keys(binds: &[Binding]) -> (r: Vec<AppKey>)
    ensures
        views(r@) == app_keys_upto(views(binds@), binds.len() as int),
{
    let mut out: Vec<AppKey> = Vec::new();
    let mut i: usize = 0;
    while i < binds.len()
        invariant
            i <= binds.len(),
            views(out@) == app_keys_upto(views(binds@), i as int),
        decreases binds.len() - i,
    {
        let b = &binds[i];
        if app_key_binding(b) {
            out.push(
                AppKey {
                    key: to_lower(b.chain[0].key.as_str()),
                    chain: copy_chain(&b.chain),
                    source: b.source.clone(),
                },
            );
        }
        i = i + 1;
    }
    out
}

/// The keys that a state takes over: the first `n` keys of applications with this command.
pub open spec fn inherited_upto(s: Seq<AppKeyView>, head: Str, n: int) -> Seq<StickyBindView>
    decreases n,
{
    if n <= 0 {
        Seq::empty()
    } else {
        inherited_upto(s, head, n - 1).push(
            StickyBindView {
                key: s[n - 1].key,
                mods: Seq::empty(),
                flags: Flags::unset(),
                go: StickyGoView::Act(ActView::Daemon(head + shell_quoted(compact_of(s[n - 1].chain)))),
                exit: false,
                desc: None,
                inherited: Some(s[n - 1].source),
                explicit: None,
                binding: None,
            },
        )
    }
}

fn take_over(keys: &[AppKey], head: &str) -> (r: Vec<StickyBind>)
    ensures
        views(r@) == inherited_upto(views(keys@), head@, keys.len() as int),
{
    let mut out: Vec<StickyBind> = Vec::new();
    let mut i: usize = 0;
    while i < keys.len()
        invariant
            i <= keys.len(),
            views(out@) == inherited_upto(views(keys@), head@, i as int),
        decreases keys.len() - i,
    {
        let k = &keys[i];
        let mut cmd = head.to_owned();
        cmd.append(shell_quote(chain_compact(&k.chain).as_str()).as_str());
        out.push(
            StickyBind {
                key: k.key.clone(),
                mods: Vec::new(),
                flags: Flags::default(),
                go: StickyGo::Act(Act::Daemon(cmd)),
                exit: false,
                desc: None,
                inherited: Some(k.source.clone()),
                explicit: None,
                binding: None,
            },
        );
        i = i + 1;
    }
    out
}

// ---- Keys of a state ----------------------------------------------------------

/// What a fault calls a state.
pub open spec fn state_label(chain: Str, names: Seq<Str>) -> Str {
    "sticky."@ + chain + ", "@ + if names.len() == 0 {
        "корневое состояние"@
    } else {
        "состояние "@ + names[names.len() - 1]
    }
}

fn label(chain: &str, names: &[String]) -> (r: String)
    ensures
        r@ == state_label(chain@, views(names@)),
{
    let mut s = "sticky.".to_owned();
    s.append(chain);
    s.append(", ");
    let ghost head = s@;
    if names.len() == 0 {
        s.append("корневое состояние");
    } else {
        let mut t = "состояние ".to_owned();
        t.append(names[names.len() - 1].as_str());
        s.append(t.as_str());
    }
    s
}

/// A key that a state cannot have: it needs the name of one key without modifiers, and some are taken.
pub open spec fn is_bad_key(key: Str) -> bool {
    trimmed(key).len() == 0 || has_text(key, "+"@) || has_space(key) || has_prefix(lower(key), "mouse"@) || lower(key)
        == "escape"@ || lower(key) == "backspace"@
}

fn bad_key(key: &str) -> (r: bool)
    ensures
        r == is_bad_key(key@),
{
    let low = to_lower(key);
    trim(key).is_empty() || contains(key, "+") || any_space(key) || starts(low.as_str(), "mouse") || same(
        low.as_str(),
        "escape",
    ) || same(low.as_str(), "backspace")
}

/// One of the keys from `i` on is this one, whatever the case of its letters.
pub open spec fn key_taken_from(s: Seq<StickyBindView>, key: Str, i: int) -> bool
    decreases s.len() - i,
{
    if i >= s.len() {
        false
    } else {
        lower(s[i].key) == lower(key) || key_taken_from(s, key, i + 1)
    }
}

fn key_taken(v: &[StickyBind], key: &str) -> (r: bool)
    ensures
        r == key_taken_from(views(v@), key@, 0),
{
    let low = to_lower(key);
    let mut i: usize = 0;
    while i < v.len()
        invariant
            i <= v.len(),
            low@ == lower(key@),
            key_taken_from(views(v@), key@, 0) == key_taken_from(views(v@), key@, i as int),
        decreases v.len() - i,
    {
        if same(to_lower(v[i].key.as_str()).as_str(), low.as_str()) {
            return true;
        }
        i = i + 1;
    }
    false
}

/// The place from `i` on of the key written exactly so, or the number of keys.
pub open spec fn exact_key_from(s: Seq<StickyBindView>, key: Str, i: int) -> int
    decreases s.len() - i,
{
    if i >= s.len() {
        s.len() as int
    } else if s[i].key == key {
        i
    } else {
        exact_key_from(s, key, i + 1)
    }
}

fn exact_key(v: &[StickyBind], key: &str) -> (r: usize)
    ensures
        r == exact_key_from(views(v@), key@, 0),
        r <= v.len(),
{
    let mut i: usize = 0;
    while i < v.len()
        invariant
            i <= v.len(),
            exact_key_from(views(v@), key@, 0) == exact_key_from(views(v@), key@, i as int),
        decreases v.len() - i,
    {
        if same(v[i].key.as_str(), key) {
            return i;
        }
        i = i + 1;
    }
    i
}

/// The first `n` keys without those written exactly so.
pub open spec fn without_key(s: Seq<StickyBindView>, key: Str, n: int) -> Seq<StickyBindView>
    decreases n,
{
    if n <= 0 {
        Seq::empty()
    } else if s[n - 1].key == key {
        without_key(s, key, n - 1)
    } else {
        without_key(s, key, n - 1).push(s[n - 1])
    }
}

fn drop_key(v: &[StickyBind], key: &str) -> (r: Vec<StickyBind>)
    ensures
        views(r@) == without_key(views(v@), key@, v.len() as int),
{
    let mut out: Vec<StickyBind> = Vec::new();
    let mut i: usize = 0;
    while i < v.len()
        invariant
            i <= v.len(),
            views(out@) == without_key(views(v@), key@, i as int),
        decreases v.len() - i,
    {
        if !same(v[i].key.as_str(), key) {
            out.push(v[i].dup());
        }
        i = i + 1;
    }
    out
}

/// The place of a state from `i` on, or the number of states.
pub open spec fn state_find(s: Seq<(Str, StickyStateView)>, name: Str, i: int) -> int
    decreases s.len() - i,
{
    if i >= s.len() {
        s.len() as int
    } else if s[i].0 == name {
        i
    } else {
        state_find(s, name, i + 1)
    }
}

fn has_state(v: &Vec<(String, StickyState)>, name: &str) -> (r: bool)
    ensures
        r == (state_find(states_view(v@), name@, 0) < states_view(v@).len()),
{
    let ghost s = states_view(v@);
    let mut i: usize = 0;
    while i < v.len()
        invariant
            i <= v.len(),
            s == states_view(v@),
            state_find(s, name@, 0) == state_find(s, name@, i as int),
        decreases v.len() - i,
    {
        proof {
            assert(s[i as int].0 == v@[i as int].0@);
        }
        if same(v[i].0.as_str(), name) {
            return true;
        }
        i = i + 1;
    }
    false
}

/// The names of the fields of a key that say what it does.
pub open spec fn key_fields(v: StickyKeyView) -> Seq<Str> {
    let f = v.as_bind(""@).action_fields();
    if v.state is Some {
        f.push("state"@)
    } else {
        f
    }
}

/// The keys of a state with one more, and those of the keys taken over that are left; or a fault.
pub open spec fn key_step(
    cfg: ConfigView,
    at: Str,
    prefix: Seq<ComboView>,
    states: Seq<(Str, StickyStateView)>,
    key: Str,
    v: StickyKeyView,
    keys: Seq<StickyBindView>,
    rest: Seq<StickyBindView>,
) -> Result<(Seq<StickyBindView>, Seq<StickyBindView>), Str> {
    let fields = key_fields(v);
    let low = lower(key);
    let path = compact_of(prefix.push(ComboView { mods: Seq::empty(), key }));
    let b = v.as_bind(path);
    let plain = StickyBindView {
        key,
        mods: Seq::empty(),
        flags: Flags::unset(),
        go: StickyGoView::State(Seq::empty()),
        exit: false,
        desc: v.desc,
        inherited: None,
        explicit: None,
        binding: None,
    };
    if is_bad_key(key) {
        Err(
            at + ": клавиша "@ + quoted(key)
                + " недопустима: нужно имя одной клавиши без модификаторов; Escape, BackSpace и кнопки мыши заняты"@,
        )
    } else if key_taken_from(keys, key, 0) {
        Err(at + ": клавиша "@ + quoted(key) + " задана дважды"@)
    } else if fields.len() > 1 {
        Err(
            at + ": клавиша "@ + quoted(key) + ": задано несколько действий ("@ + joined(fields, ", "@)
                + "), допустимо одно"@,
        )
    } else if v.state is Some {
        let target = v.state->0;
        if v.exit {
            Err(at + ": клавиша "@ + quoted(key) + ": exit не сочетается с переходом state"@)
        } else if state_find(states, target, 0) >= states.len() {
            Err(
                at + ": клавиша "@ + quoted(key) + " ведёт в состояние "@ + quoted(target)
                    + ", которого нет среди дочерних состояний этого состояния"@,
            )
        } else {
            Ok((keys.push(StickyBindView { go: StickyGoView::State(target), ..plain }), rest))
        }
    } else if fields.len() == 0 {
        let i = exact_key_from(rest, low, 0);
        if i >= rest.len() {
            Err(
                at + ": клавиша "@ + quoted(key)
                    + " без действия: такой клавиши нет среди унаследованных клавиш приложений"@,
            )
        } else {
            Ok((keys.push(StickyBindView { exit: v.exit, desc: v.desc, ..rest[i] }), rest.remove(i)))
        }
    } else if cfg.action_fault(b) is Some {
        Err(cfg.action_fault(b)->0)
    } else {
        match b.act(true) {
            Err(e) => Err(e),
            Ok(act) => Ok(
                (
                    keys.push(
                        StickyBindView { go: StickyGoView::Act(act), exit: v.exit, explicit: Some(b), ..plain },
                    ),
                    without_key(rest, low, rest.len() as int),
                ),
            ),
        }
    }
}

/// The keys of a state from `i` on, after those already read, with the keys taken over that are left.
pub open spec fn keys_from(
    cfg: ConfigView,
    at: Str,
    prefix: Seq<ComboView>,
    st: StickyStateView,
    i: int,
    keys: Seq<StickyBindView>,
    rest: Seq<StickyBindView>,
) -> Result<Seq<StickyBindView>, Str>
    decreases st.keys.len() - i,
{
    if i >= st.keys.len() {
        Ok(keys + rest)
    } else {
        match key_step(cfg, at, prefix, st.states, st.keys[i].0, st.keys[i].1, keys, rest) {
            Err(e) => Err(e),
            Ok((k, r)) => keys_from(cfg, at, prefix, st, i + 1, k, r),
        }
    }
}

/// One of the keys from `i` on leads to the state.
pub open spec fn leads_from(s: Seq<StickyBindView>, name: Str, i: int) -> int
    decreases s.len() - i,
{
    if i >= s.len() {
        s.len() as int
    } else if s[i].go == StickyGoView::State(name) {
        i
    } else {
        leads_from(s, name, i + 1)
    }
}

/// The first fault of the states from `i` on: their names, and that some key leads to each.
pub open spec fn states_fault_from(at: Str, states: Seq<(Str, StickyStateView)>, keys: Seq<StickyBindView>, i: int) -> Option<
    Str,
>
    decreases states.len() - i,
{
    if i >= states.len() {
        None
    } else if !is_sticky_name(states[i].0) {
        Some(
            at + ": имя состояния "@ + quoted(states[i].0)
                + " должно состоять из латинских строчных букв, цифр и дефиса"@,
        )
    } else if leads_from(keys, states[i].0, 0) >= keys.len() {
        Some(at + ": в состояние "@ + states[i].0 + " не ведёт ни одна клавиша"@)
    } else {
        states_fault_from(at, states, keys, i + 1)
    }
}

/// The keys that a state takes over; or a fault in what it asks for.
pub open spec fn taken_over(at: Str, apps: Option<Str>, inh: Seq<AppKeyView>) -> Result<Seq<StickyBindView>, Str> {
    match apps {
        None => Ok(Seq::empty()),
        Some(a) => if a == "raise"@ {
            Ok(inherited_upto(inh, "workspaced key "@, inh.len() as int))
        } else if a == "spawn"@ {
            Ok(inherited_upto(inh, "workspaced key --new "@, inh.len() as int))
        } else {
            Err(at + ": apps должно быть одним из raise, spawn, получено "@ + quoted(a))
        },
    }
}

/// A state of the flat list without the states below it; or its first fault.
pub open spec fn state_node(
    cfg: ConfigView,
    inh: Seq<AppKeyView>,
    chain: Str,
    st: StickyStateView,
    names: Seq<Str>,
    titles: Seq<Str>,
    prefix: Seq<ComboView>,
    parent: Option<Str>,
) -> Result<StickyNodeView, Str> {
    let at = state_label(chain, names);
    if names.len() > 0 && st.enter is Some {
        Err(at + ": поле enter допустимо только у корня цепочки"@)
    } else {
        match taken_over(at, st.apps, inh) {
            Err(e) => Err(e),
            Ok(rest) => match keys_from(cfg, at, prefix, st, 0, Seq::empty(), rest) {
                Err(e) => Err(e),
                Ok(keys) => if keys.len() == 0 {
                    Err(at + ": в состоянии нет ни одной клавиши"@)
                } else {
                    match states_fault_from(at, st.states, keys, 0) {
                        Some(e) => Err(e),
                        None => Ok(
                            StickyNodeView {
                                chain,
                                names,
                                titles: titles.push(
                                    match st.title {
                                        Some(t) => t,
                                        None => if names.len() == 0 {
                                            chain
                                        } else {
                                            names[names.len() - 1]
                                        },
                                    },
                                ),
                                submap: submap_of(chain, names),
                                parent,
                                prefix,
                                source: joined(seq!["sticky."@ + chain] + names, "."@),
                                keys,
                                auto: false,
                            },
                        ),
                    }
                },
            },
        }
    }
}

/// The states of a mode from this one down, after those already listed: the state itself, then those
/// below it in order, each with all that is below it.
pub open spec fn state_nodes(
    cfg: ConfigView,
    inh: Seq<AppKeyView>,
    chain: Str,
    st: StickyStateView,
    names: Seq<Str>,
    titles: Seq<Str>,
    prefix: Seq<ComboView>,
    parent: Option<Str>,
    acc: Seq<StickyNodeView>,
) -> Result<Seq<StickyNodeView>, Str>
    decreases st, 0int,
{
    match state_node(cfg, inh, chain, st, names, titles, prefix, parent) {
        Err(e) => Err(e),
        Ok(node) => below_from(cfg, inh, node, st.states, 0, acc.push(node)),
    }
}

/// The states below a state from the `i`-th on, after those already listed.
pub open spec fn below_from(
    cfg: ConfigView,
    inh: Seq<AppKeyView>,
    node: StickyNodeView,
    states: Seq<(Str, StickyStateView)>,
    i: int,
    acc: Seq<StickyNodeView>,
) -> Result<Seq<StickyNodeView>, Str>
    decreases states, states.len() - i,
    when 0 <= i
{
    if i >= states.len() {
        Ok(acc)
    } else {
        let k = leads_from(node.keys, states[i].0, 0);
        if 0 <= k < node.keys.len() {
            match state_nodes(
                cfg,
                inh,
                node.chain,
                states[i].1,
                node.names.push(states[i].0),
                node.titles,
                node.prefix.push(node.keys[k].combo()),
                Some(node.submap),
                acc,
            ) {
                Err(e) => Err(e),
                Ok(a) => below_from(cfg, inh, node, states, i + 1, a),
            }
        } else {
            below_from(cfg, inh, node, states, i + 1, acc)
        }
    }
}

// ---- Reading a state ----------------------------------------------------------

fn key_fault(at: &str, key: &str, what: &str) -> (r: String)
    ensures
        r@ == at@ + ": клавиша "@ + quoted(key@) + what@,
{
    let mut s = at.to_owned();
    s.append(": клавиша ");
    s.append(quote(key).as_str());
    s.append(what);
    s
}

fn read_key(
    cfg: &Config,
    at: &str,
    prefix: &Chain,
    states: &Vec<(String, StickyState)>,
    key: &String,
    v: &StickyKey,
    keys: &mut Vec<StickyBind>,
    rest: &mut Vec<StickyBind>,
) -> (r: Result<(), String>)
    ensures
        match r {
            Ok(_) => key_step(
                cfg@,
                at@,
                views(prefix@),
                states_view(states@),
                key@,
                v@,
                views(old(keys)@),
                views(old(rest)@),
            ) == Ok::<(Seq<StickyBindView>, Seq<StickyBindView>), Str>((views(final(keys)@), views(final(rest)@))),
            Err(e) => key_step(
                cfg@,
                at@,
                views(prefix@),
                states_view(states@),
                key@,
                v@,
                views(old(keys)@),
                views(old(rest)@),
            ) == Err::<(Seq<StickyBindView>, Seq<StickyBindView>), Str>(e@),
        },
{
    let k = key.as_str();
    if bad_key(k) {
        return Err(
            key_fault(
                at,
                k,
                " недопустима: нужно имя одной клавиши без модификаторов; Escape, BackSpace и кнопки мыши заняты",
            ),
        );
    }
    if key_taken(keys.as_slice(), k) {
        return Err(key_fault(at, k, " задана дважды"));
    }
    let mut fields: Vec<String> = Vec::new();
    let found = v.as_bind("").action_fields();
    let mut i: usize = 0;
    while i < found.len()
        invariant
            i <= found.len(),
            views(fields@) == views(found@).take(i as int),
        decreases found.len() - i,
    {
        fields.push(found[i].to_owned());
        proof {
            assert(views(found@).take(i + 1) =~= views(found@).take(i as int).push(views(found@)[i as int]));
        }
        i = i + 1;
    }
    proof {
        assert(views(found@).take(i as int) =~= views(found@));
    }
    if v.state.is_some() {
        fields.push("state".to_owned());
    }
    if fields.len() > 1 {
        let mut s = key_fault(at, k, ": задано несколько действий (");
        s.append(join(fields.as_slice(), ", ").as_str());
        s.append("), допустимо одно");
        return Err(s);
    }
    let low = to_lower(k);
    if let Some(target) = &v.state {
        if v.exit {
            return Err(key_fault(at, k, ": exit не сочетается с переходом state"));
        }
        if !has_state(states, target.as_str()) {
            let mut s = key_fault(at, k, " ведёт в состояние ");
            s.append(quote(target.as_str()).as_str());
            s.append(", которого нет среди дочерних состояний этого состояния");
            return Err(s);
        }
        keys.push(
            StickyBind {
                key: key.clone(),
                mods: Vec::new(),
                flags: Flags::default(),
                go: StickyGo::State(target.clone()),
                exit: false,
                desc: copy_opt(&v.desc),
                inherited: None,
                explicit: None,
                binding: None,
            },
        );
        return Ok(());
    }
    if fields.len() == 0 {
        let i: usize = exact_key(rest.as_slice(), low.as_str());
        if i >= rest.len() {
            return Err(
                key_fault(at, k, " без действия: такой клавиши нет среди унаследованных клавиш приложений"),
            );
        }
        let ghost before = rest@;
        let mut e = rest.remove(i);
        proof {
            assert(views(rest@) =~= views(before).remove(i as int));
        }
        e.exit = v.exit;
        e.desc = copy_opt(&v.desc);
        keys.push(e);
        return Ok(());
    }
    let mut path = copy_chain(prefix);
    let no_mods: Vec<String> = Vec::new();
    path.push(Combo { mods: no_mods, key: key.clone() });
    let b = v.as_bind(chain_compact(&path).as_str());
    if let Err(e) = cfg.check_action(&b) {
        return Err(e);
    }
    let act = match bind_act(&b, true) {
        Ok(a) => a,
        Err(e) => return Err(e),
    };
    let left = drop_key(rest.as_slice(), low.as_str());
    *rest = left;
    keys.push(
        StickyBind {
            key: key.clone(),
            mods: Vec::new(),
            flags: Flags::default(),
            go: StickyGo::Act(act),
            exit: v.exit,
            desc: copy_opt(&v.desc),
            inherited: None,
            explicit: Some(b),
            binding: None,
        },
    );
    Ok(())
}

fn leads(v: &[StickyBind], name: &str) -> (r: usize)
    ensures
        r == leads_from(views(v@), name@, 0),
        r <= v.len(),
{
    let mut i: usize = 0;
    while i < v.len()
        invariant
            i <= v.len(),
            leads_from(views(v@), name@, 0) == leads_from(views(v@), name@, i as int),
        decreases v.len() - i,
    {
        if let StickyGo::State(s) = &v[i].go {
            if same(s.as_str(), name) {
                return i;
            }
        }
        i = i + 1;
    }
    i
}

fn read_keys(cfg: &Config, at: &str, prefix: &Chain, st: &StickyState, rest: Vec<StickyBind>) -> (r: Result<
    Vec<StickyBind>,
    String,
>)
    ensures
        rviews(r) == keys_from(cfg@, at@, views(prefix@), st@, 0, Seq::empty(), views(rest@)),
{
    let ghost first = views(rest@);
    let mut left = rest;
    let mut keys: Vec<StickyBind> = Vec::new();
    let mut i: usize = 0;
    while i < st.keys.len()
        invariant
            i <= st.keys.len(),
            first == views(rest@),
            st@ == state_view(*st),
            keys_from(cfg@, at@, views(prefix@), st@, 0, Seq::empty(), first) == keys_from(
                cfg@,
                at@,
                views(prefix@),
                st@,
                i as int,
                views(keys@),
                views(left@),
            ),
        decreases st.keys.len() - i,
    {
        proof {
            assert(st@.keys[i as int] == (st.keys@[i as int].0@, st.keys@[i as int].1@));
        }
        if let Err(e) = read_key(cfg, at, prefix, &st.states, &st.keys[i].0, &st.keys[i].1, &mut keys, &mut left) {
            return Err(e);
        }
        i = i + 1;
    }
    let ghost a = keys@;
    let ghost b = left@;
    keys.append(&mut left);
    proof {
        assert(views(keys@) =~= views(a) + views(b));
    }
    Ok(keys)
}

fn states_fault(at: &str, states: &Vec<(String, StickyState)>, keys: &[StickyBind]) -> (r: Option<String>)
    ensures
        oview(r) == states_fault_from(at@, states_view(states@), views(keys@), 0),
{
    let ghost s = states_view(states@);
    let mut i: usize = 0;
    while i < states.len()
        invariant
            i <= states.len(),
            s == states_view(states@),
            states_fault_from(at@, s, views(keys@), 0) == states_fault_from(at@, s, views(keys@), i as int),
        decreases states.len() - i,
    {
        proof {
            assert(s[i as int].0 == states@[i as int].0@);
        }
        let name = states[i].0.as_str();
        if !sticky_name(name) {
            let mut t = at.to_owned();
            t.append(": имя состояния ");
            t.append(quote(name).as_str());
            t.append(" должно состоять из латинских строчных букв, цифр и дефиса");
            return Some(t);
        }
        if leads(keys, name) >= keys.len() {
            let mut t = at.to_owned();
            t.append(": в состояние ");
            t.append(name);
            t.append(" не ведёт ни одна клавиша");
            return Some(t);
        }
        i = i + 1;
    }
    None
}

fn read_state(
    cfg: &Config,
    inh: &[AppKey],
    chain: &str,
    st: &StickyState,
    names: &Vec<String>,
    titles: &Vec<String>,
    prefix: &Chain,
    parent: &Option<String>,
) -> (r: Result<StickyNode, String>)
    ensures
        crate::chain::rview(r) == state_node(
            cfg@,
            views(inh@),
            chain@,
            st@,
            views(names@),
            views(titles@),
            views(prefix@),
            oview(*parent),
        ),
{
    let at = label(chain, names.as_slice());
    if names.len() > 0 && st.enter.is_some() {
        let mut s = at;
        s.append(": поле enter допустимо только у корня цепочки");
        return Err(s);
    }
    let rest: Vec<StickyBind> = match &st.apps {
        None => Vec::new(),
        Some(a) => {
            if same(a.as_str(), "raise") {
                take_over(inh, "workspaced key ")
            } else if same(a.as_str(), "spawn") {
                take_over(inh, "workspaced key --new ")
            } else {
                let mut s = at;
                s.append(": apps должно быть одним из raise, spawn, получено ");
                s.append(quote(a.as_str()).as_str());
                return Err(s);
            }
        },
    };
    let keys = match read_keys(cfg, at.as_str(), prefix, st, rest) {
        Ok(k) => k,
        Err(e) => return Err(e),
    };
    if keys.len() == 0 {
        let mut s = at;
        s.append(": в состоянии нет ни одной клавиши");
        return Err(s);
    }
    if let Some(e) = states_fault(at.as_str(), &st.states, keys.as_slice()) {
        return Err(e);
    }
    let title = match &st.title {
        Some(t) => t.clone(),
        None => {
            if names.len() == 0 {
                chain.to_owned()
            } else {
                names[names.len() - 1].clone()
            }
        },
    };
    let mut all = copy_all(titles.as_slice());
    all.push(title);
    let mut head = "sticky.".to_owned();
    head.append(chain);
    let mut parts: Vec<String> = Vec::new();
    parts.push(head);
    let mut more = copy_all(names.as_slice());
    let ghost a = parts@;
    let ghost b = more@;
    parts.append(&mut more);
    proof {
        assert(views(parts@) =~= seq!["sticky."@ + chain@] + views(names@));
    }
    Ok(
        StickyNode {
            chain: chain.to_owned(),
            names: copy_all(names.as_slice()),
            titles: all,
            submap: submap_name(chain, names.as_slice()),
            parent: copy_opt(parent),
            prefix: copy_chain(prefix),
            source: join(parts.as_slice(), "."),
            keys,
            auto: false,
        },
    )
}

/// List a state of a mode and all states below it.
pub fn sticky_state(
    cfg: &Config,
    inh: &[AppKey],
    chain: &str,
    st: &StickyState,
    names: &Vec<String>,
    titles: &Vec<String>,
    prefix: &Chain,
    parent: &Option<String>,
    out: Vec<StickyNode>,
) -> (r: Result<Vec<StickyNode>, String>)
    ensures
        rviews(r) == state_nodes(
            cfg@,
            views(inh@),
            chain@,
            st@,
            views(names@),
            views(titles@),
            views(prefix@),
            oview(*parent),
            views(out@),
        ),
    decreases st,
{
    let node = match read_state(cfg, inh, chain, st, names, titles, prefix, parent) {
        Ok(n) => n,
        Err(e) => return Err(e),
    };
    let ghost nv = node@;
    let mut acc = out;
    acc.push(node.dup());
    let ghost first = views(acc@);
    let ghost whole = state_nodes(
        cfg@,
        views(inh@),
        chain@,
        st@,
        views(names@),
        views(titles@),
        views(prefix@),
        oview(*parent),
        views(out@),
    );
    let ghost s = states_view(st.states@);
    let mut i: usize = 0;
    proof {
        assert(st@.states == s);
        assert(whole == below_from(cfg@, views(inh@), nv, s, 0, first));
    }
    while i < st.states.len()
        invariant
            i <= st.states.len(),
            nv == node@,
            s == states_view(st.states@),
            whole == state_nodes(
                cfg@,
                views(inh@),
                chain@,
                st@,
                views(names@),
                views(titles@),
                views(prefix@),
                oview(*parent),
                views(out@),
            ),
            whole == below_from(cfg@, views(inh@), nv, s, i as int, views(acc@)),
            nv.chain == chain@,
        decreases st.states.len() - i,
    {
        let name = &st.states[i].0;
        let child = &st.states[i].1;
        proof {
            assert(s[i as int] == (name@, child@));
        }
        let k: usize = leads(node.keys.as_slice(), name.as_str());
        if k < node.keys.len() {
            let mut sub = copy_all(node.names.as_slice());
            sub.push(name.clone());
            let path = node.key_chain(&node.keys[k]);
            let up = Some(node.submap.clone());
            match sticky_state(cfg, inh, chain, child, &sub, &node.titles, &path, &up, acc) {
                Ok(a) => {
                    acc = a;
                },
                Err(e) => {
                    return Err(e);
                },
            }
        }
        i = i + 1;
    }
    Ok(acc)
}
} // verus!
