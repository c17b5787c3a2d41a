//! The bindings of a configuration, gathered from all its sections.
use vstd::prelude::*;

use crate::chain::{
    chain_compact, chain_less, chain_lt, chain_of, compact_of, copy_chain, key_of, parse_chain, rviews, same_keys,
    Chain, ComboView,
};
use crate::config::{app_at, count_apps, BindView, Config, ConfigView, WsAppView};
use crate::keys::{
    bind_act, expand_range, plain_of, shell_quote, shell_quoted, Act, ActView, Binding, BindingView, Flags,
};
use crate::pattern::{quote, quoted};
use crate::text::{dec, join, joined, oview, push_dec, views, Str};

verus! {

broadcast use crate::text::group_views;

/// A chain that calls applications, and the sections that gave it to them.
#[derive(Debug)]
pub struct Reply {
    pub chain: Chain,
    pub sources: Vec<String>,
}

/// What such a chain is.
pub struct ReplyView {
    pub chain: Seq<ComboView>,
    pub sources: Seq<Str>,
}

impl View for Reply {
    type V = ReplyView;

    open spec fn view(&self) -> ReplyView {
        ReplyView { chain: views(self.chain@), sources: views(self.sources@) }
    }
}

/// The place from `i` on of the chain that means the same, or the number of chains.
pub open spec fn reply_find(s: Seq<ReplyView>, c: Seq<ComboView>, i: int) -> int
    decreases s.len() - i,
{
    if i >= s.len() {
        s.len() as int
    } else if key_of(s[i].chain) == key_of(c) {
        i
    } else {
        reply_find(s, c, i + 1)
    }
}

/// The chains with one more source: at the chain that means the same, else at a new one.
pub open spec fn reply_put(s: Seq<ReplyView>, c: Seq<ComboView>, source: Str) -> Seq<ReplyView> {
    let i = reply_find(s, c, 0);
    if 0 <= i < s.len() {
        s.update(i, ReplyView { chain: s[i].chain, sources: s[i].sources.push(source) })
    } else {
        s.push(ReplyView { chain: c, sources: Seq::empty().push(source) })
    }
}

fn respond(v: &mut Vec<Reply>, chain: Chain, source: String)
    ensures
        views(final(v)@) == reply_put(views(old(v)@), views(chain@), source@),
{
    let ghost s = views(v@);
    let mut i: usize = 0;
    while i < v.len()
        invariant
            i <= v.len(),
            s == views(v@),
            v@ == old(v)@,
            reply_find(s, views(chain@), 0) == reply_find(s, views(chain@), i as int),
        decreases v.len() - i,
    {
        if same_keys(&v[i].chain, &chain) {
            let mut e = v.remove(i);
            e.sources.push(source);
            v.insert(i, e);
            proof {
                assert(views(v@) =~= reply_put(s, views(chain@), source@));
            }
            return ;
        }
        i = i + 1;
    }
    let mut sources: Vec<String> = Vec::new();
    sources.push(source);
    v.push(Reply { chain, sources });
}

/// The name of the section of an application.
pub open spec fn app_source(name: Str) -> Str {
    "apps."@ + name
}

/// The name of the entry of an application in a workspace.
pub open spec fn entry_source(ws: Str, app: Str) -> Str {
    "workspaces."@ + ws + ".apps."@ + app
}

impl ConfigView {
    /// The own keys of the applications from `i` on, after the chains already gathered.
    pub open spec fn own_replies_from(self, i: int, acc: Seq<ReplyView>) -> Result<Seq<ReplyView>, Str>
        decreases self.apps.len() - i,
    {
        if i >= self.apps.len() {
            Ok(acc)
        } else {
            match self.apps[i].1.chain {
                None => self.own_replies_from(i + 1, acc),
                Some(c) => match chain_of(c) {
                    Ok(ch) => self.own_replies_from(i + 1, reply_put(acc, ch, app_source(self.apps[i].0))),
                    Err(e) => Err(e),
                },
            }
        }
    }

    /// The keys that the entries of a workspace from `j` on give to their applications, where they are
    /// others than the own ones.
    pub open spec fn entry_replies_from(self, ws: Str, apps: Seq<(Str, WsAppView)>, j: int, acc: Seq<ReplyView>) -> Result<
        Seq<ReplyView>,
        Str,
    >
        decreases apps.len() - j,
    {
        if j >= apps.len() {
            Ok(acc)
        } else if apps[j].1.chain is Some && self.overrides_key(ws, apps[j].0) {
            match chain_of(apps[j].1.chain->0) {
                Ok(ch) => self.entry_replies_from(ws, apps, j + 1, reply_put(acc, ch, entry_source(ws, apps[j].0))),
                Err(e) => Err(e),
            }
        } else {
            self.entry_replies_from(ws, apps, j + 1, acc)
        }
    }

    /// The keys that the workspaces from `i` on give to their applications.
    pub open spec fn ws_replies_from(self, i: int, acc: Seq<ReplyView>) -> Result<Seq<ReplyView>, Str>
        decreases self.workspaces.len() - i,
    {
        if i >= self.workspaces.len() {
            Ok(acc)
        } else {
            match self.entry_replies_from(self.workspaces[i].0, self.workspaces[i].1.apps, 0, acc) {
                Ok(a) => self.ws_replies_from(i + 1, a),
                Err(e) => Err(e),
            }
        }
    }

    /// The application among those before `k` that has this key in the workspace.
    pub open spec fn key_holder_from(self, ws: Str, apps: Seq<(Str, WsAppView)>, key: Seq<ComboView>, j: int, k: int) -> Option<
        Str,
    >
        decreases k - j,
    {
        if j >= k {
            None
        } else {
            match self.app_key(ws, apps[j].0) {
                Some(c) => match chain_of(c) {
                    Ok(ch) => if key_of(ch) == key_of(key) {
                        Some(apps[j].0)
                    } else {
                        self.key_holder_from(ws, apps, key, j + 1, k)
                    },
                    Err(_) => self.key_holder_from(ws, apps, key, j + 1, k),
                },
                None => self.key_holder_from(ws, apps, key, j + 1, k),
            }
        }
    }

    /// The first fault in the keys of a workspace from its entry `k` on: a key that cannot be read, or
    /// two applications with one key.
    pub open spec fn clash_in_from(self, ws: Str, apps: Seq<(Str, WsAppView)>, k: int) -> Option<Str>
        decreases apps.len() - k,
    {
        if k >= apps.len() {
            None
        } else {
            match self.app_key(ws, apps[k].0) {
                None => self.clash_in_from(ws, apps, k + 1),
                Some(c) => match chain_of(c) {
                    Err(e) => Some(e),
                    Ok(ch) => match self.key_holder_from(ws, apps, ch, 0, k) {
                        Some(other) => Some(clash_fault(ws, other, apps[k].0, ch)),
                        None => self.clash_in_from(ws, apps, k + 1),
                    },
                },
            }
        }
    }

    /// The first fault in the keys of the workspaces from `i` on.
    pub open spec fn clash_from(self, i: int) -> Option<Str>
        decreases self.workspaces.len() - i,
    {
        if i >= self.workspaces.len() {
            None
        } else {
            match self.clash_in_from(self.workspaces[i].0, self.workspaces[i].1.apps, 0) {
                Some(e) => Some(e),
                None => self.clash_from(i + 1),
            }
        }
    }

    /// The bindings that raise the workspaces from `i` on, after those already gathered.
    pub open spec fn raises_from(self, i: int, acc: Seq<BindingView>) -> Result<Seq<BindingView>, Str>
        decreases self.workspaces.len() - i,
    {
        if i >= self.workspaces.len() {
            Ok(acc)
        } else {
            let name = self.workspaces[i].0;
            match self.workspaces[i].1.chain {
                None => self.raises_from(i + 1, acc),
                Some(c) => match chain_of(c) {
                    Ok(ch) => self.raises_from(
                        i + 1,
                        acc.push(plain_of(ch, "workspaces."@ + name, "workspaced raise "@ + name)),
                    ),
                    Err(e) => Err(e),
                },
            }
        }
    }

    /// The bindings of the binding sections from `i` on, after those already gathered.
    pub open spec fn series_from(self, i: int, acc: Seq<BindingView>) -> Result<Seq<BindingView>, Str>
        decreases self.binds.len() - i,
    {
        if i >= self.binds.len() {
            Ok(acc)
        } else {
            match bindings_from(self.binds[i].expand_range(), i, 0, acc) {
                Ok(a) => self.series_from(i + 1, a),
                Err(e) => Err(e),
            }
        }
    }

    /// The bindings that open the modes from `i` on, after those already gathered.
    pub open spec fn modes_from(self, i: int, acc: Seq<BindingView>) -> Result<Seq<BindingView>, Str>
        decreases self.sticky.len() - i,
    {
        if i >= self.sticky.len() {
            Ok(acc)
        } else {
            let name = self.sticky[i].0;
            match self.sticky[i].1.enter {
                None => Err("sticky."@ + name + ": нужно поле enter — сочетание входа"@),
                Some(enter) => match chain_of(enter) {
                    Err(e) => Err(e),
                    Ok(ch) => if ch.len() != 1 {
                        Err(
                            "sticky."@ + name + ": enter "@ + quoted(enter)
                                + " должно быть одним сочетанием, вход звеном многозвенной цепочки не допускается"@,
                        )
                    } else {
                        self.modes_from(
                            i + 1,
                            acc.push(
                                BindingView {
                                    chain: ch,
                                    source: "sticky."@ + name,
                                    act: ActView::Sticky(name),
                                    flags: Flags::unset(),
                                    origin: None,
                                },
                            ),
                        )
                    },
                },
            }
        }
    }

    /// The bindings of the service commands.
    pub open spec fn named_bindings(self) -> Result<Seq<BindingView>, Str> {
        let a = named_put(
            Ok(Seq::empty()),
            self.keys.save_session,
            "keys.save_session"@,
            "workspaced save-session"@,
        );
        let b = named_put(a, self.keys.save_workspace, "keys.save_workspace"@, "workspaced save-workspace"@);
        let c = named_put(b, self.keys.sessions, "keys.sessions"@, "workspaced sessions"@);
        named_put(c, self.keys.next_workspace, "keys.next_workspace"@, "workspaced next"@)
    }

    /// The chains that call applications.
    pub open spec fn replies(self) -> Result<Seq<ReplyView>, Str> {
        match self.own_replies_from(0, Seq::empty()) {
            Err(e) => Err(e),
            Ok(a) => self.ws_replies_from(0, a),
        }
    }

    /// All bindings in order: service commands, applications, workspaces, binding sections, modes.
    pub open spec fn collect(self) -> Result<Seq<BindingView>, Str> {
        match self.named_bindings() {
            Err(e) => Err(e),
            Ok(named) => match self.replies() {
                Err(e) => Err(e),
                Ok(replies) => match self.clash_from(0) {
                    Some(e) => Err(e),
                    None => {
                        let sorted = sorted_upto(replies, replies.len() as int);
                        match self.raises_from(0, named + called_upto(sorted, sorted.len() as int)) {
                            Err(e) => Err(e),
                            Ok(a) => match self.series_from(0, a) {
                                Err(e) => Err(e),
                                Ok(b) => self.modes_from(0, b),
                            },
                        }
                    },
                },
            },
        }
    }
}

/// Two applications of a workspace have one key.
pub open spec fn clash_fault(ws: Str, other: Str, app: Str, chain: Seq<ComboView>) -> Str {
    "workspace "@ + ws + ": приложения "@ + other + " и "@ + app + " имеют одну цепочку "@ + quoted(compact_of(chain))
}

/// The bindings with that of a service command, where its chain is given.
pub open spec fn named_put(acc: Result<Seq<BindingView>, Str>, chain: Option<Str>, source: Str, command: Str) -> Result<
    Seq<BindingView>,
    Str,
> {
    match acc {
        Err(e) => Err(e),
        Ok(a) => match chain {
            None => Ok(a),
            Some(c) => match chain_of(c) {
                Ok(ch) => Ok(a.push(plain_of(ch, source, command))),
                Err(e) => Err(e),
            },
        },
    }
}

/// Where a chain belongs among ordered ones, looked for from `i` on.
pub open spec fn reply_place(s: Seq<ReplyView>, c: Seq<ComboView>, i: int) -> int
    decreases s.len() - i,
{
    if i < s.len() && !chain_lt(c, s[i].chain) {
        reply_place(s, c, i + 1)
    } else {
        i
    }
}

/// The first `n` chains in order.
pub open spec fn sorted_upto(s: Seq<ReplyView>, n: int) -> Seq<ReplyView>
    decreases n,
{
    if n <= 0 {
        Seq::empty()
    } else {
        let t = sorted_upto(s, n - 1);
        t.insert(reply_place(t, s[n - 1].chain, 0), s[n - 1])
    }
}

/// The binding of a chain that calls applications: one command, whatever applications it calls.
pub open spec fn called(r: ReplyView) -> BindingView {
    plain_of(r.chain, joined(r.sources, ","@), "workspaced key "@ + shell_quoted(compact_of(r.chain)))
}

/// The bindings of the first `n` chains.
pub open spec fn called_upto(s: Seq<ReplyView>, n: int) -> Seq<BindingView>
    decreases n,
{
    if n <= 0 {
        Seq::empty()
    } else {
        called_upto(s, n - 1).push(called(s[n - 1]))
    }
}

/// The flags of a binding section.
pub open spec fn flags_of(b: BindView) -> Flags {
    Flags { locked: b.locked, repeating: b.repeating, mouse: b.mouse, release: b.release }
}

/// The bindings of a series from `j` on, which stands for the section `origin`.
pub open spec fn bindings_from(s: Seq<BindView>, origin: int, j: int, acc: Seq<BindingView>) -> Result<
    Seq<BindingView>,
    Str,
>
    decreases s.len() - j,
{
    if j >= s.len() {
        Ok(acc)
    } else {
        let b = s[j];
        match b.act(true) {
            Err(e) => Err(e),
            Ok(act) => match chain_of(b.chain) {
                Err(e) => Err(e),
                Ok(chain) => bindings_from(
                    s,
                    origin,
                    j + 1,
                    acc.push(
                        BindingView {
                            chain,
                            source: "binds["@ + dec(origin as nat) + "] "@ + quoted(b.chain),
                            act,
                            flags: flags_of(b),
                            origin: Some(origin as usize),
                        },
                    ),
                ),
            },
        }
    }
}

// ---- Gathering ----------------------------------------------------------------

fn prefixed(a: &str, b: &str) -> (r: String)
    ensures
        r@ == a@ + b@,
{
    let mut s = a.to_owned();
    s.append(b);
    s
}

fn put_named(out: &mut Vec<Binding>, chain: &Option<String>, source: &str, command: &str) -> (r: Result<(), String>)
    ensures
        match r {
            Ok(_) => named_put(Ok(views(old(out)@)), oview(*chain), source@, command@) == Ok::<Seq<BindingView>, Str>(
                views(final(out)@),
            ),
            Err(e) => named_put(Ok(views(old(out)@)), oview(*chain), source@, command@) == Err::<
                Seq<BindingView>,
                Str,
            >(e@),
        },
{
    match chain {
        None => Ok(()),
        Some(c) => match parse_chain(c.as_str()) {
            Ok(ch) => {
                out.push(crate::keys::plain(ch, source.to_owned(), command.to_owned()));
                Ok(())
            },
            Err(e) => Err(e),
        },
    }
}

fn named_bindings(cfg: &Config) -> (r: Result<Vec<Binding>, String>)
    ensures
        rviews(r) == cfg@.named_bindings(),
{
    let mut out: Vec<Binding> = Vec::new();
    if let Err(e) = put_named(&mut out, &cfg.keys.save_session, "keys.save_session", "workspaced save-session") {
        return Err(e);
    }
    if let Err(e) = put_named(&mut out, &cfg.keys.save_workspace, "keys.save_workspace", "workspaced save-workspace") {
        return Err(e);
    }
    if let Err(e) = put_named(&mut out, &cfg.keys.sessions, "keys.sessions", "workspaced sessions") {
        return Err(e);
    }
    if let Err(e) = put_named(&mut out, &cfg.keys.next_workspace, "keys.next_workspace", "workspaced next") {
        return Err(e);
    }
    Ok(out)
}

fn replies(cfg: &Config) -> (r: Result<Vec<Reply>, String>)
    ensures
        rviews(r) == cfg@.replies(),
{
    let mut out: Vec<Reply> = Vec::new();
    let n: usize = cfg.apps.len();
    let mut i: usize = 0;
    while i < n
        invariant
            i <= n,
            n == cfg@.apps.len(),
            cfg@.own_replies_from(0, Seq::empty()) == cfg@.own_replies_from(i as int, views(out@)),
        decreases n - i,
    {
        let name = cfg.apps.key(i);
        if let Some(c) = &cfg.apps.at(i).chain {
            match parse_chain(c.as_str()) {
                Ok(ch) => {
                    respond(&mut out, ch, prefixed("apps.", name.as_str()));
                },
                Err(e) => {
                    return Err(e);
                },
            }
        }
        i = i + 1;
    }
    let ghost own = views(out@);
    let m: usize = cfg.workspaces.len();
    let mut w: usize = 0;
    while w < m
        invariant
            w <= m,
            m == cfg@.workspaces.len(),
            cfg@.own_replies_from(0, Seq::empty()) == Ok::<Seq<ReplyView>, Str>(own),
            cfg@.ws_replies_from(0, own) == cfg@.ws_replies_from(w as int, views(out@)),
        decreases m - w,
    {
        let wname = cfg.workspaces.key(w);
        let ws = cfg.workspaces.at(w);
        let k: usize = count_apps(&ws.apps);
        let mut j: usize = 0;
        let ghost before = views(out@);
        while j < k
            invariant
                j <= k,
                w < m,
                m == cfg@.workspaces.len(),
                wname@ == cfg@.workspaces[w as int].0,
                ws@ == cfg@.workspaces[w as int].1,
                k == ws@.apps.len(),
                cfg@.own_replies_from(0, Seq::empty()) == Ok::<Seq<ReplyView>, Str>(own),
                cfg@.ws_replies_from(0, own) == cfg@.ws_replies_from(w as int, before),
                cfg@.entry_replies_from(wname@, ws@.apps, 0, before) == cfg@.entry_replies_from(
                    wname@,
                    ws@.apps,
                    j as int,
                    views(out@),
                ),
            decreases k - j,
        {
            let (aname, e) = app_at(&ws.apps, j);
            if let Some(c) = &e.chain {
                if cfg.overrides_key(wname.as_str(), aname.as_str()) {
                    match parse_chain(c.as_str()) {
                        Ok(ch) => {
                            let mut s = prefixed("workspaces.", wname.as_str());
                            s.append(".apps.");
                            s.append(aname.as_str());
                            respond(&mut out, ch, s);
                        },
                        Err(e) => {
                            return Err(e);
                        },
                    }
                }
            }
            j = j + 1;
        }
        w = w + 1;
    }
    Ok(out)
}

fn key_holder(cfg: &Config, ws: &str, apps: &indexmap::IndexMap<String, crate::config::WsApp>, key: &Chain, k: usize) -> (r:
    Option<String>)
    requires
        k <= crate::config::entries_of(*apps).len(),
    ensures
        oview(r) == cfg@.key_holder_from(ws@, crate::config::entries_of(*apps), views(key@), 0, k as int),
{
    let ghost s = crate::config::entries_of(*apps);
    let mut j: usize = 0;
    while j < k
        invariant
            j <= k,
            k <= s.len(),
            s == crate::config::entries_of(*apps),
            cfg@.key_holder_from(ws@, s, views(key@), 0, k as int) == cfg@.key_holder_from(
                ws@,
                s,
                views(key@),
                j as int,
                k as int,
            ),
        decreases k - j,
    {
        let name = app_at(apps, j).0;
        if let Some(c) = cfg.app_key(ws, name.as_str()) {
            if let Ok(ch) = parse_chain(c) {
                if same_keys(&ch, key) {
                    return Some(name.clone());
                }
            }
        }
        j = j + 1;
    }
    None
}

fn clash(cfg: &Config) -> (r: Option<String>)
    ensures
        oview(r) == cfg@.clash_from(0),
{
    let m: usize = cfg.workspaces.len();
    let mut w: usize = 0;
    while w < m
        invariant
            w <= m,
            m == cfg@.workspaces.len(),
            cfg@.clash_from(0) == cfg@.clash_from(w as int),
        decreases m - w,
    {
        let wname = cfg.workspaces.key(w);
        let ws = cfg.workspaces.at(w);
        let n: usize = count_apps(&ws.apps);
        let mut k: usize = 0;
        while k < n
            invariant
                k <= n,
                w < m,
                m == cfg@.workspaces.len(),
                wname@ == cfg@.workspaces[w as int].0,
                ws@ == cfg@.workspaces[w as int].1,
                n == ws@.apps.len(),
                cfg@.clash_from(0) == cfg@.clash_from(w as int),
                cfg@.clash_in_from(wname@, ws@.apps, 0) == cfg@.clash_in_from(wname@, ws@.apps, k as int),
            decreases n - k,
        {
            let aname = app_at(&ws.apps, k).0;
            if let Some(c) = cfg.app_key(wname.as_str(), aname.as_str()) {
                match parse_chain(c) {
                    Err(e) => {
                        return Some(e);
                    },
                    Ok(ch) => {
                        if let Some(other) = key_holder(cfg, wname.as_str(), &ws.apps, &ch, k) {
                            let mut s = prefixed("workspace ", wname.as_str());
                            s.append(": приложения ");
                            s.append(other.as_str());
                            s.append(" и ");
                            s.append(aname.as_str());
                            s.append(" имеют одну цепочку ");
                            s.append(quote(chain_compact(&ch).as_str()).as_str());
                            return Some(s);
                        }
                    },
                }
            }
            k = k + 1;
        }
        w = w + 1;
    }
    None
}

fn dup_reply(r: &Reply) -> (q: Reply)
    ensures
        q@ == r@,
{
    Reply { chain: copy_chain(&r.chain), sources: crate::text::copy_all(r.sources.as_slice()) }
}

fn sorted(v: &Vec<Reply>) -> (r: Vec<Reply>)
    ensures
        views(r@) == sorted_upto(views(v@), v.len() as int),
{
    let mut out: Vec<Reply> = Vec::new();
    let mut i: usize = 0;
    while i < v.len()
        invariant
            i <= v.len(),
            views(out@) == sorted_upto(views(v@), i as int),
        decreases v.len() - i,
    {
        let ghost t = views(out@);
        let e = dup_reply(&v[i]);
        let mut k: usize = 0;
        while k < out.len() && !chain_less(&e.chain, &out[k].chain)
            invariant
                k <= out.len(),
                t == views(out@),
                reply_place(t, e@.chain, 0) == reply_place(t, e@.chain, k as int),
            decreases out.len() - k,
        {
            k = k + 1;
        }
        out.insert(k, e);
        proof {
            assert(views(out@) =~= t.insert(k as int, e@));
        }
        i = i + 1;
    }
    out
}

fn push_called(out: &mut Vec<Binding>, v: &Vec<Reply>)
    ensures
        views(final(out)@) == views(old(out)@) + called_upto(views(v@), v.len() as int),
{
    let ghost head = views(out@);
    let mut i: usize = 0;
    proof {
        assert(head + called_upto(views(v@), 0) =~= head);
    }
    while i < v.len()
        invariant
            i <= v.len(),
            views(out@) == head + called_upto(views(v@), i as int),
        decreases v.len() - i,
    {
        let r = &v[i];
        let command = prefixed("workspaced key ", shell_quote(chain_compact(&r.chain).as_str()).as_str());
        let b = crate::keys::plain(copy_chain(&r.chain), join(r.sources.as_slice(), ","), command);
        out.push(b);
        proof {
            assert((head + called_upto(views(v@), i as int)).push(called(r@)) =~= head + called_upto(
                views(v@),
                i as int,
            ).push(called(r@)));
        }
        i = i + 1;
    }
}

fn raises(cfg: &Config, acc: Vec<Binding>) -> (r: Result<Vec<Binding>, String>)
    ensures
        rviews(r) == cfg@.raises_from(0, views(acc@)),
{
    let ghost first = views(acc@);
    let mut out = acc;
    let n: usize = cfg.workspaces.len();
    let mut i: usize = 0;
    while i < n
        invariant
            i <= n,
            n == cfg@.workspaces.len(),
            first == views(acc@),
            cfg@.raises_from(0, first) == cfg@.raises_from(i as int, views(out@)),
        decreases n - i,
    {
        let name = cfg.workspaces.key(i);
        if let Some(c) = &cfg.workspaces.at(i).chain {
            match parse_chain(c.as_str()) {
                Ok(ch) => {
                    out.push(
                        crate::keys::plain(
                            ch,
                            prefixed("workspaces.", name.as_str()),
                            prefixed("workspaced raise ", name.as_str()),
                        ),
                    );
                },
                Err(e) => {
                    return Err(e);
                },
            }
        }
        i = i + 1;
    }
    Ok(out)
}

fn series(cfg: &Config, acc: Vec<Binding>) -> (r: Result<Vec<Binding>, String>)
    ensures
        rviews(r) == cfg@.series_from(0, views(acc@)),
{
    let ghost first = views(acc@);
    let mut out = acc;
    let n: usize = cfg.binds.len();
    let mut i: usize = 0;
    while i < n
        invariant
            i <= n,
            n == cfg.binds.len(),
            first == views(acc@),
            cfg@.series_from(0, first) == cfg@.series_from(i as int, views(out@)),
        decreases n - i,
    {
        let list = expand_range(&cfg.binds[i]);
        let ghost before = views(out@);
        let mut j: usize = 0;
        while j < list.len()
            invariant
                j <= list.len(),
                i < n,
                n == cfg.binds.len(),
                views(list@) == cfg@.binds[i as int].expand_range(),
                first == views(acc@),
                cfg@.series_from(0, first) == cfg@.series_from(i as int, before),
                bindings_from(views(list@), i as int, 0, before) == bindings_from(
                    views(list@),
                    i as int,
                    j as int,
                    views(out@),
                ),
            decreases list.len() - j,
        {
            let b = &list[j];
            let act = match bind_act(b, true) {
                Ok(a) => a,
                Err(e) => return Err(e),
            };
            let chain = match parse_chain(b.chain.as_str()) {
                Ok(c) => c,
                Err(e) => return Err(e),
            };
            let mut source = "binds[".to_owned();
            push_dec(&mut source, i as u64);
            source.append("] ");
            source.append(quote(b.chain.as_str()).as_str());
            let flags = Flags { locked: b.locked, repeating: b.repeating, mouse: b.mouse, release: b.release };
            out.push(Binding { chain, source, act, flags, origin: Some(i) });
            j = j + 1;
        }
        i = i + 1;
    }
    Ok(out)
}

fn modes(cfg: &Config, acc: Vec<Binding>) -> (r: Result<Vec<Binding>, String>)
    ensures
        rviews(r) == cfg@.modes_from(0, views(acc@)),
{
    let ghost first = views(acc@);
    let mut out = acc;
    let n: usize = cfg.sticky.len();
    let mut i: usize = 0;
    while i < n
        invariant
            i <= n,
            n == cfg.sticky.len(),
            first == views(acc@),
            cfg@.modes_from(0, first) == cfg@.modes_from(i as int, views(out@)),
        decreases n - i,
    {
        let name = &cfg.sticky[i].0;
        let root = &cfg.sticky[i].1;
        proof {
            assert(cfg@.sticky[i as int] == (name@, root@));
        }
        let source = prefixed("sticky.", name.as_str());
        let enter = match &root.enter {
            Some(e) => e,
            None => {
                let mut s = source;
                s.append(": нужно поле enter — сочетание входа");
                return Err(s);
            },
        };
        let chain = match parse_chain(enter.as_str()) {
            Ok(c) => c,
            Err(e) => return Err(e),
        };
        if chain.len() != 1 {
            let mut s = source;
            s.append(": enter ");
            s.append(quote(enter.as_str()).as_str());
            s.append(" должно быть одним сочетанием, вход звеном многозвенной цепочки не допускается");
            return Err(s);
        }
        out.push(Binding { chain, source, act: Act::Sticky(name.clone()), flags: Flags::default(), origin: None });
        i = i + 1;
    }
    Ok(out)
}

/// All bindings of a configuration in order: service commands, applications, workspaces, binding
/// sections, modes. All applications that one chain calls share one binding.
pub fn collect(cfg: &Config) -> (r: Result<Vec<Binding>, String>)
    ensures
        rviews(r) == cfg@.collect(),
{
    let mut out = match named_bindings(cfg) {
        Ok(v) => v,
        Err(e) => return Err(e),
    };
    let list = match replies(cfg) {
        Ok(v) => v,
        Err(e) => return Err(e),
    };
    if let Some(e) = clash(cfg) {
        return Err(e);
    }
    let list = sorted(&list);
    push_called(&mut out, &list);
    let out = match raises(cfg, out) {
        Ok(v) => v,
        Err(e) => return Err(e),
    };
    let out = match series(cfg, out) {
        Ok(v) => v,
        Err(e) => return Err(e),
    };
    modes(cfg, out)
}

} // verus!
