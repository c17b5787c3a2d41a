//! The bindings of a configuration, and the environment of its applications.
use vstd::prelude::*;

use crate::chain::{chain_lt, chain_of, compact_of, key_of, ComboView};
use crate::collect::{
    app_source, bindings_from, called, called_upto, entry_source, flags_of, reply_find, reply_place, reply_put,
    sorted_upto, ReplyView,
};
use crate::config::{AppView, BindView, ConfigView, WorkspaceView, WsAppView};
use crate::cycle::of_ws;
use crate::keys::{plain_of, shell_quoted, ActView, BindingView, Flags};
use crate::lookup::{expanded, expanded_from, law_plain_text_stays, layered, value_of};
use crate::pattern::quoted;
use crate::table::{lemma_find, lemma_put_get, lemma_put_sorted, tab_find, tab_get, tab_sorted};
use crate::text::{dec, index_from, lemma_lt_irreflexive, str_lt, Str};

verus! {

// ---- Bindings -----------------------------------------------------------------------------

/// One of the chains means these keys.
pub open spec fn has_reply(s: Seq<ReplyView>, c: Seq<ComboView>) -> bool {
    exists|i: int| 0 <= i < s.len() && key_of((#[trigger] s[i]).chain) == key_of(c)
}

proof fn lemma_reply_put(s: Seq<ReplyView>, c: Seq<ComboView>, source: Str)
    ensures
        has_reply(reply_put(s, c, source), c),
        forall|d: Seq<ComboView>| #[trigger] has_reply(s, d) ==> has_reply(reply_put(s, c, source), d),
{
    let r = reply_put(s, c, source);
    lemma_reply_find(s, c, 0);
    let i = reply_find(s, c, 0);
    if i < s.len() {
        assert(key_of(r[i].chain) == key_of(c));
    } else {
        assert(r[s.len() as int].chain == c);
    }
    assert forall|d: Seq<ComboView>| #[trigger] has_reply(s, d) implies has_reply(r, d) by {
        let k = choose|k: int| 0 <= k < s.len() && key_of((#[trigger] s[k]).chain) == key_of(d);
        assert(r[k].chain == s[k].chain);
    }
}

proof fn lemma_reply_find(s: Seq<ReplyView>, c: Seq<ComboView>, i: int)
    requires
        0 <= i <= s.len(),
    ensures
        i <= reply_find(s, c, i) <= s.len(),
        reply_find(s, c, i) < s.len() ==> key_of(s[reply_find(s, c, i)].chain) == key_of(c),
    decreases s.len() - i,
{
    if i < s.len() && key_of(s[i].chain) != key_of(c) {
        lemma_reply_find(s, c, i + 1);
    }
}

/// The chain of the text is among these.
pub open spec fn answered(s: Seq<ReplyView>, text: Str) -> bool {
    chain_of(text) matches Ok(c) && has_reply(s, c)
}

proof fn lemma_own_replies(cfg: ConfigView, i: int, acc: Seq<ReplyView>)
    requires
        0 <= i <= cfg.apps.len(),
    ensures
        cfg.own_replies_from(i, acc) matches Ok(r) ==> {
            &&& forall|d: Seq<ComboView>| #[trigger] has_reply(acc, d) ==> has_reply(r, d)
            &&& forall|k: int|
                i <= k < cfg.apps.len() && (#[trigger] cfg.apps[k]).1.chain is Some ==> answered(r, cfg.apps[k].1.chain->0)
        },
    decreases cfg.apps.len() - i,
{
    if i < cfg.apps.len() {
        match cfg.apps[i].1.chain {
            None => {
                lemma_own_replies(cfg, i + 1, acc);
            },
            Some(c) => {
                if let Ok(ch) = chain_of(c) {
                    let more = reply_put(acc, ch, app_source(cfg.apps[i].0));
                    lemma_reply_put(acc, ch, app_source(cfg.apps[i].0));
                    lemma_own_replies(cfg, i + 1, more);
                    assert(has_reply(more, ch));
                }
            },
        }
    }
}

proof fn lemma_entry_replies(cfg: ConfigView, ws: Str, apps: Seq<(Str, WsAppView)>, j: int, acc: Seq<ReplyView>)
    requires
        0 <= j <= apps.len(),
    ensures
        cfg.entry_replies_from(ws, apps, j, acc) matches Ok(r) ==> {
            &&& forall|d: Seq<ComboView>| #[trigger] has_reply(acc, d) ==> has_reply(r, d)
            &&& forall|k: int|
                j <= k < apps.len() && (#[trigger] apps[k]).1.chain is Some && cfg.overrides_key(ws, apps[k].0) ==> answered(
                    r,
                    apps[k].1.chain->0,
                )
        },
    decreases apps.len() - j,
{
    if j < apps.len() {
        if apps[j].1.chain is Some && cfg.overrides_key(ws, apps[j].0) {
            if let Ok(ch) = chain_of(apps[j].1.chain->0) {
                let more = reply_put(acc, ch, entry_source(ws, apps[j].0));
                lemma_reply_put(acc, ch, entry_source(ws, apps[j].0));
                lemma_entry_replies(cfg, ws, apps, j + 1, more);
                assert(has_reply(more, ch));
            }
        } else {
            lemma_entry_replies(cfg, ws, apps, j + 1, acc);
        }
    }
}

proof fn lemma_ws_replies(cfg: ConfigView, i: int, acc: Seq<ReplyView>)
    requires
        0 <= i <= cfg.workspaces.len(),
    ensures
        cfg.ws_replies_from(i, acc) matches Ok(r) ==> {
            &&& forall|d: Seq<ComboView>| #[trigger] has_reply(acc, d) ==> has_reply(r, d)
            &&& forall|w: int, k: int|
                #![trigger cfg.workspaces[w].1.apps[k]]
                i <= w < cfg.workspaces.len() && 0 <= k < cfg.workspaces[w].1.apps.len() && cfg.workspaces[w].1.apps[k].1.chain is Some
                    && cfg.overrides_key(cfg.workspaces[w].0, cfg.workspaces[w].1.apps[k].0) ==> answered(
                    r,
                    cfg.workspaces[w].1.apps[k].1.chain->0,
                )
        },
    decreases cfg.workspaces.len() - i,
{
    if i < cfg.workspaces.len() {
        let (ws, w) = cfg.workspaces[i];
        lemma_entry_replies(cfg, ws, w.apps, 0, acc);
        if let Ok(a) = cfg.entry_replies_from(ws, w.apps, 0, acc) {
            lemma_ws_replies(cfg, i + 1, a);
        }
    }
}

proof fn lemma_reply_place(s: Seq<ReplyView>, c: Seq<ComboView>, i: int)
    requires
        0 <= i <= s.len(),
    ensures
        i <= reply_place(s, c, i) <= s.len(),
    decreases s.len() - i,
{
    if i < s.len() && !chain_lt(c, s[i].chain) {
        lemma_reply_place(s, c, i + 1);
    }
}

proof fn lemma_sorted(s: Seq<ReplyView>, n: int)
    requires
        0 <= n <= s.len(),
    ensures
        sorted_upto(s, n).len() == n,
        forall|k: int| 0 <= k < n ==> sorted_upto(s, n).contains(#[trigger] s[k]),
    decreases n,
{
    if n > 0 {
        lemma_sorted(s, n - 1);
        let t = sorted_upto(s, n - 1);
        let x = s[n - 1];
        let p = reply_place(t, x.chain, 0);
        lemma_reply_place(t, x.chain, 0);
        let r = t.insert(p, x);
        assert(r[p] == x);
        assert forall|k: int| 0 <= k < n implies r.contains(#[trigger] s[k]) by {
            if k < n - 1 {
                assert(t.contains(s[k]));
                let j = choose|j: int| 0 <= j < t.len() && t[j] == s[k];
                if j < p {
                    assert(r[j] == s[k]);
                } else {
                    assert(r[j + 1] == s[k]);
                }
            }
        }
    }
}

proof fn lemma_called(s: Seq<ReplyView>, n: int)
    requires
        0 <= n <= s.len(),
    ensures
        called_upto(s, n).len() == n,
        forall|k: int| 0 <= k < n ==> #[trigger] called_upto(s, n)[k] == called(s[k]),
    decreases n,
{
    if n > 0 {
        lemma_called(s, n - 1);
    }
}

/// One of the bindings has these keys and hands them to the daemon as the key of applications.
pub open spec fn calls(b: Seq<BindingView>, c: Seq<ComboView>) -> bool {
    exists|k: int|
        0 <= k < b.len() && key_of((#[trigger] b[k]).chain) == key_of(c) && b[k].act == ActView::Daemon(
            "workspaced key "@ + shell_quoted(compact_of(b[k].chain)),
        )
}

proof fn lemma_calls(replies: Seq<ReplyView>, named: Seq<BindingView>, c: Seq<ComboView>)
    requires
        has_reply(replies, c),
    ensures
        ({
            let sorted = sorted_upto(replies, replies.len() as int);
            calls(named + called_upto(sorted, sorted.len() as int), c)
        }),
{
    let sorted = sorted_upto(replies, replies.len() as int);
    let all = called_upto(sorted, sorted.len() as int);
    lemma_sorted(replies, replies.len() as int);
    lemma_called(sorted, sorted.len() as int);
    let i = choose|i: int| 0 <= i < replies.len() && key_of((#[trigger] replies[i]).chain) == key_of(c);
    assert(sorted.contains(replies[i]));
    let k = choose|k: int| 0 <= k < sorted.len() && sorted[k] == replies[i];
    let b = named + all;
    assert(all[k] == called(sorted[k]));
    assert(b[named.len() + k] == all[k]);
}

/// The first bindings of a list are those of another.
pub open spec fn goes_on_from(a: Seq<BindingView>, b: Seq<BindingView>) -> bool {
    a.len() <= b.len() && forall|k: int| 0 <= k < a.len() ==> #[trigger] b[k] == a[k]
}

/// The binding that raises a workspace.
pub open spec fn raising_of(name: Str, chain: Seq<ComboView>) -> BindingView {
    plain_of(chain, "workspaces."@ + name, "workspaced raise "@ + name)
}

proof fn lemma_raises(cfg: ConfigView, i: int, acc: Seq<BindingView>)
    requires
        0 <= i <= cfg.workspaces.len(),
    ensures
        cfg.raises_from(i, acc) matches Ok(r) ==> {
            &&& goes_on_from(acc, r)
            &&& forall|k: int|
                i <= k < cfg.workspaces.len() && (#[trigger] cfg.workspaces[k]).1.chain is Some ==> chain_of(
                    cfg.workspaces[k].1.chain->0,
                ) is Ok && r.contains(raising_of(cfg.workspaces[k].0, chain_of(cfg.workspaces[k].1.chain->0)->Ok_0))
        },
    decreases cfg.workspaces.len() - i,
{
    if i < cfg.workspaces.len() {
        match cfg.workspaces[i].1.chain {
            None => {
                lemma_raises(cfg, i + 1, acc);
            },
            Some(c) => {
                if let Ok(ch) = chain_of(c) {
                    let x = raising_of(cfg.workspaces[i].0, ch);
                    let more = acc.push(x);
                    lemma_raises(cfg, i + 1, more);
                    if let Ok(r) = cfg.raises_from(i, acc) {
                        assert(r[acc.len() as int] == more[acc.len() as int]);
                        assert forall|k: int| 0 <= k < acc.len() implies #[trigger] r[k] == acc[k] by {
                            assert(r[k] == more[k]);
                        }
                    }
                }
            },
        }
    }
}

proof fn lemma_bindings(s: Seq<BindView>, origin: int, j: int, acc: Seq<BindingView>)
    requires
        0 <= j <= s.len(),
    ensures
        bindings_from(s, origin, j, acc) matches Ok(r) ==> {
            &&& goes_on_from(acc, r)
            &&& forall|k: int|
                j <= k < s.len() ==> stands_for_section(r, #[trigger] s[k])
        },
    decreases s.len() - j,
{
    if j < s.len() {
        let b = s[j];
        if let Ok(act) = b.act(true) {
            if let Ok(chain) = chain_of(b.chain) {
                let x = BindingView {
                    chain,
                    source: "binds["@ + dec(origin as nat) + "] "@ + quoted(b.chain),
                    act,
                    flags: flags_of(b),
                    origin: Some(origin as usize),
                };
                let more = acc.push(x);
                lemma_bindings(s, origin, j + 1, more);
                if let Ok(r) = bindings_from(s, origin, j, acc) {
                    assert(r[acc.len() as int] == more[acc.len() as int]);
                    assert forall|k: int| 0 <= k < acc.len() implies #[trigger] r[k] == acc[k] by {
                        assert(r[k] == more[k]);
                    }
                    assert(stands_for_section(r, b));
                }
            }
        }
    }
}

/// One of the bindings is that of the section: its chain, its action and its flags.
pub open spec fn stands_for_section(r: Seq<BindingView>, b: BindView) -> bool {
    exists|k: int|
        0 <= k < r.len() && chain_of(b.chain) == Ok::<Seq<ComboView>, Str>((#[trigger] r[k]).chain) && b.act(true) == Ok::<
            ActView,
            Str,
        >(r[k].act) && r[k].flags == (Flags { locked: b.locked, repeating: b.repeating, mouse: b.mouse, release: b.release })
}

proof fn lemma_section_stays(a: Seq<BindingView>, r: Seq<BindingView>, b: BindView)
    requires
        goes_on_from(a, r),
        stands_for_section(a, b),
    ensures
        stands_for_section(r, b),
{
    let k = choose|k: int|
        0 <= k < a.len() && chain_of(b.chain) == Ok::<Seq<ComboView>, Str>((#[trigger] a[k]).chain) && b.act(true) == Ok::<
            ActView,
            Str,
        >(a[k].act) && a[k].flags == (Flags { locked: b.locked, repeating: b.repeating, mouse: b.mouse, release: b.release });
    assert(r[k] == a[k]);
}

proof fn lemma_series(cfg: ConfigView, i: int, acc: Seq<BindingView>)
    requires
        0 <= i <= cfg.binds.len(),
    ensures
        cfg.series_from(i, acc) matches Ok(r) ==> {
            &&& goes_on_from(acc, r)
            &&& forall|n: int, k: int|
                #![trigger cfg.binds[n].expand_range()[k]]
                i <= n < cfg.binds.len() && 0 <= k < cfg.binds[n].expand_range().len() ==> stands_for_section(
                    r,
                    cfg.binds[n].expand_range()[k],
                )
        },
    decreases cfg.binds.len() - i,
{
    if i < cfg.binds.len() {
        let s = cfg.binds[i].expand_range();
        lemma_bindings(s, i, 0, acc);
        if let Ok(a) = bindings_from(s, i, 0, acc) {
            lemma_series(cfg, i + 1, a);
            if let Ok(r) = cfg.series_from(i, acc) {
                assert forall|k: int| 0 <= k < acc.len() implies #[trigger] r[k] == acc[k] by {
                    assert(a[k] == acc[k]);
                    assert(r[k] == a[k]);
                }
                assert forall|n: int, k: int|
                    #![trigger cfg.binds[n].expand_range()[k]]
                    i <= n < cfg.binds.len() && 0 <= k < cfg.binds[n].expand_range().len() implies stands_for_section(
                    r,
                    cfg.binds[n].expand_range()[k],
                ) by {
                    if n == i {
                        lemma_section_stays(a, r, s[k]);
                    }
                }
            }
        }
    }
}

/// The binding that opens a mode.
pub open spec fn opening_of(name: Str, chain: Seq<ComboView>) -> BindingView {
    BindingView { chain, source: "sticky."@ + name, act: ActView::Sticky(name), flags: Flags::unset(), origin: None }
}

proof fn lemma_modes(cfg: ConfigView, i: int, acc: Seq<BindingView>)
    requires
        0 <= i <= cfg.sticky.len(),
    ensures
        cfg.modes_from(i, acc) matches Ok(r) ==> {
            &&& goes_on_from(acc, r)
            &&& forall|k: int|
                i <= k < cfg.sticky.len() ==> (#[trigger] cfg.sticky[k]).1.enter is Some && chain_of(cfg.sticky[k].1.enter->0) is Ok
                    && chain_of(cfg.sticky[k].1.enter->0)->Ok_0.len() == 1 && r.contains(
                    opening_of(cfg.sticky[k].0, chain_of(cfg.sticky[k].1.enter->0)->Ok_0),
                )
        },
    decreases cfg.sticky.len() - i,
{
    if i < cfg.sticky.len() {
        if let Some(enter) = cfg.sticky[i].1.enter {
            if let Ok(ch) = chain_of(enter) {
                if ch.len() == 1 {
                    let more = acc.push(opening_of(cfg.sticky[i].0, ch));
                    lemma_modes(cfg, i + 1, more);
                    if let Ok(r) = cfg.modes_from(i, acc) {
                        assert(r[acc.len() as int] == more[acc.len() as int]);
                        assert forall|k: int| 0 <= k < acc.len() implies #[trigger] r[k] == acc[k] by {
                            assert(r[k] == more[k]);
                        }
                    }
                }
            }
        }
    }
}

/// Two applications of the workspace have one key there.
pub open spec fn clashes(cfg: ConfigView, ws: Str, a: Str, b: Str) -> bool {
    &&& cfg.app_key(ws, a) is Some && cfg.app_key(ws, b) is Some
    &&& chain_of(cfg.app_key(ws, a)->0) matches Ok(x) && (chain_of(cfg.app_key(ws, b)->0) matches Ok(y) && key_of(x) == key_of(y))
}

proof fn lemma_key_holder(cfg: ConfigView, ws: Str, apps: Seq<(Str, WsAppView)>, key: Seq<ComboView>, j: int, k: int)
    requires
        0 <= j,
    ensures
        cfg.key_holder_from(ws, apps, key, j, k) is None ==> forall|i: int|
            j <= i < k ==> (cfg.app_key(ws, (#[trigger] apps[i]).0) is Some ==> (chain_of(cfg.app_key(ws, apps[i].0)->0) matches Ok(
                x,
            ) ==> key_of(x) != key_of(key))),
    decreases k - j,
{
    if j < k {
        lemma_key_holder(cfg, ws, apps, key, j + 1, k);
    }
}

proof fn lemma_clash_in(cfg: ConfigView, ws: Str, apps: Seq<(Str, WsAppView)>, k: int)
    requires
        0 <= k <= apps.len(),
    ensures
        cfg.clash_in_from(ws, apps, k) is None ==> forall|i: int, j: int|
            0 <= i < j < apps.len() && k <= j ==> !clashes(cfg, ws, (#[trigger] apps[i]).0, (#[trigger] apps[j]).0),
    decreases apps.len() - k,
{
    if k < apps.len() && cfg.clash_in_from(ws, apps, k) is None {
        lemma_clash_in(cfg, ws, apps, k + 1);
        if let Some(c) = cfg.app_key(ws, apps[k].0) {
            if let Ok(ch) = chain_of(c) {
                lemma_key_holder(cfg, ws, apps, ch, 0, k);
            }
        }
    }
}

proof fn lemma_clash(cfg: ConfigView, i: int)
    requires
        0 <= i <= cfg.workspaces.len(),
    ensures
        cfg.clash_from(i) is None ==> forall|w: int|
            i <= w < cfg.workspaces.len() ==> cfg.clash_in_from(
                (#[trigger] cfg.workspaces[w]).0,
                cfg.workspaces[w].1.apps,
                0,
            ) is None,
    decreases cfg.workspaces.len() - i,
{
    if i < cfg.workspaces.len() {
        lemma_clash(cfg, i + 1);
    }
}

/// In a configuration whose bindings can be gathered no two applications of a workspace have one key there.
pub proof fn law_no_clash(cfg: ConfigView, w: int, i: int, j: int)
    requires
        cfg.collect() is Ok,
        0 <= w < cfg.workspaces.len(),
        0 <= i < j < cfg.workspaces[w].1.apps.len(),
    ensures
        !clashes(cfg, cfg.workspaces[w].0, cfg.workspaces[w].1.apps[i].0, cfg.workspaces[w].1.apps[j].0),
{
    lemma_clash(cfg, 0);
    assert(cfg.clash_in_from(cfg.workspaces[w].0, cfg.workspaces[w].1.apps, 0) is None);
    lemma_clash_in(cfg, cfg.workspaces[w].0, cfg.workspaces[w].1.apps, 0);
}

/// The bindings of a configuration lack nothing: every own key of an application and every other key that a workspace
/// gives one calls applications; every workspace with a key is raised by it; every binding of a section, with the
/// whole of its series, is there with its action and its flags; and every mode is opened by its one combination.
pub proof fn law_all_bound(cfg: ConfigView)
    ensures
        cfg.collect() matches Ok(b) ==> {
            &&& forall|k: int|
                0 <= k < cfg.apps.len() && (#[trigger] cfg.apps[k]).1.chain is Some ==> (chain_of(cfg.apps[k].1.chain->0) matches Ok(
                    c,
                ) && calls(b, c))
            &&& forall|w: int, k: int|
                #![trigger cfg.workspaces[w].1.apps[k]]
                0 <= w < cfg.workspaces.len() && 0 <= k < cfg.workspaces[w].1.apps.len() && cfg.workspaces[w].1.apps[k].1.chain is Some
                    && cfg.overrides_key(cfg.workspaces[w].0, cfg.workspaces[w].1.apps[k].0) ==> (chain_of(
                    cfg.workspaces[w].1.apps[k].1.chain->0,
                ) matches Ok(c) && calls(b, c))
            &&& forall|k: int|
                0 <= k < cfg.workspaces.len() && (#[trigger] cfg.workspaces[k]).1.chain is Some ==> (chain_of(
                    cfg.workspaces[k].1.chain->0,
                ) matches Ok(c) && b.contains(raising_of(cfg.workspaces[k].0, c)))
            &&& forall|n: int, k: int|
                #![trigger cfg.binds[n].expand_range()[k]]
                0 <= n < cfg.binds.len() && 0 <= k < cfg.binds[n].expand_range().len() ==> stands_for_section(
                    b,
                    cfg.binds[n].expand_range()[k],
                )
            &&& forall|k: int|
                0 <= k < cfg.sticky.len() ==> (#[trigger] cfg.sticky[k]).1.enter is Some && (chain_of(cfg.sticky[k].1.enter->0) matches Ok(
                    c,
                ) && c.len() == 1 && b.contains(opening_of(cfg.sticky[k].0, c)))
        },
{
    if let Ok(b) = cfg.collect() {
        let named = cfg.named_bindings()->Ok_0;
        let replies = cfg.replies()->Ok_0;
        let own = cfg.own_replies_from(0, Seq::empty())->Ok_0;
        let sorted = sorted_upto(replies, replies.len() as int);
        let first = named + called_upto(sorted, sorted.len() as int);
        let a = cfg.raises_from(0, first)->Ok_0;
        let s = cfg.series_from(0, a)->Ok_0;
        lemma_own_replies(cfg, 0, Seq::empty());
        lemma_ws_replies(cfg, 0, own);
        lemma_raises(cfg, 0, first);
        lemma_series(cfg, 0, a);
        lemma_modes(cfg, 0, s);
        assert(goes_on_from(first, b)) by {
            assert forall|k: int| 0 <= k < first.len() implies #[trigger] b[k] == first[k] by {
                assert(a[k] == first[k]);
                assert(s[k] == a[k]);
                assert(b[k] == s[k]);
            }
        }
        assert(goes_on_from(a, b)) by {
            assert forall|k: int| 0 <= k < a.len() implies #[trigger] b[k] == a[k] by {
                assert(s[k] == a[k]);
                assert(b[k] == s[k]);
            }
        }
        assert forall|c: Seq<ComboView>| #[trigger] has_reply(replies, c) implies calls(b, c) by {
            lemma_calls(replies, named, c);
            let k = choose|k: int|
                0 <= k < first.len() && key_of((#[trigger] first[k]).chain) == key_of(c) && first[k].act == ActView::Daemon(
                    "workspaced key "@ + shell_quoted(compact_of(first[k].chain)),
                );
            assert(b[k] == first[k]);
        }
        assert forall|k: int| 0 <= k < cfg.workspaces.len() && (#[trigger] cfg.workspaces[k]).1.chain is Some implies (chain_of(
            cfg.workspaces[k].1.chain->0,
        ) matches Ok(c) && b.contains(raising_of(cfg.workspaces[k].0, c))) by {
            let x = raising_of(cfg.workspaces[k].0, chain_of(cfg.workspaces[k].1.chain->0)->Ok_0);
            assert(a.contains(x));
            let i = choose|i: int| 0 <= i < a.len() && a[i] == x;
            assert(b[i] == x);
        }
        assert forall|n: int, k: int|
            #![trigger cfg.binds[n].expand_range()[k]]
            0 <= n < cfg.binds.len() && 0 <= k < cfg.binds[n].expand_range().len() implies stands_for_section(
            b,
            cfg.binds[n].expand_range()[k],
        ) by {
            lemma_section_stays(s, b, cfg.binds[n].expand_range()[k]);
        }
    }
}

// ---- The environment ----------------------------------------------------------------------

proof fn lemma_layered(env: Seq<(Str, Str)>, layer: Seq<(Str, Str)>, outer: Seq<(Str, Str)>, n: int, q: Str, f: int)
    requires
        0 <= n <= layer.len(),
        tab_sorted(env),
        forall|i: int| 0 <= i < layer.len() && i != f ==> (#[trigger] layer[i]).0 != q,
        0 <= f < layer.len() ==> layer[f].0 == q,
    ensures
        tab_sorted(layered(env, layer, outer, n)),
        !(0 <= f < n) ==> tab_get(layered(env, layer, outer, n), q) == tab_get(env, q),
        0 <= f < n && is_plain(layer[f].1) ==> tab_get(layered(env, layer, outer, n), q) == Some(layer[f].1),
    decreases n,
{
    if n > 0 {
        lemma_layered(env, layer, outer, n - 1, q, f);
        let e = layered(env, layer, outer, n - 1);
        let (k, v) = (layer[n - 1].0, expanded(layer[n - 1].1, e, outer));
        lemma_put_sorted(e, k, v);
        lemma_put_get(e, k, v, q);
        if f == n - 1 && is_plain(layer[f].1) {
            law_plain_text_stays(layer[f].1, e, outer);
        }
    }
}

/// The text holds nothing that the environment replaces.
pub open spec fn is_plain(s: Str) -> bool {
    !s.contains('$') && (s.len() == 0 || s[0] != '~')
}

/// The environment of an application: a value that it sets itself holds over that of the workspace, and that over the one
/// of the configuration; and it has no name that none of them sets.
pub proof fn law_env_layers(cfg: ConfigView, w: WorkspaceView, app: AppView, outer: Seq<(Str, Str)>, q: Str)
    requires
        tab_sorted(cfg.env),
        tab_sorted(w.env),
        tab_sorted(app.env),
    ensures
        ({
            let env = cfg.app_env(Some(w), app, outer);
            let (own, of_ws, of_cfg) = (tab_get(app.env, q), tab_get(w.env, q), tab_get(cfg.env, q));
            &&& own is Some && is_plain(own->0) ==> tab_get(env, q) == own
            &&& own is None && of_ws is Some && is_plain(of_ws->0) ==> tab_get(env, q) == of_ws
            &&& own is None && of_ws is None && of_cfg is Some && is_plain(of_cfg->0) ==> tab_get(env, q) == of_cfg
            &&& own is None && of_ws is None && of_cfg is None ==> tab_get(env, q) is None
        }),
{
    let none = Seq::<(Str, Str)>::empty();
    let a = layered(none, cfg.env, outer, cfg.env.len() as int);
    let b = layered(a, w.env, outer, w.env.len() as int);
    lemma_layer(none, cfg.env, outer, q);
    lemma_layer(a, w.env, outer, q);
    lemma_layer(b, app.env, outer, q);
}

proof fn lemma_layer(env: Seq<(Str, Str)>, layer: Seq<(Str, Str)>, outer: Seq<(Str, Str)>, q: Str)
    requires
        tab_sorted(env),
        tab_sorted(layer),
    ensures
        ({
            let r = layered(env, layer, outer, layer.len() as int);
            &&& tab_sorted(r)
            &&& tab_get(layer, q) is None ==> tab_get(r, q) == tab_get(env, q)
            &&& tab_get(layer, q) is Some && is_plain(tab_get(layer, q)->0) ==> tab_get(r, q) == tab_get(layer, q)
        }),
{
    lemma_find(layer, q, 0);
    let f = tab_find(layer, q, 0);
    assert forall|i: int| 0 <= i < layer.len() && i != f implies (#[trigger] layer[i]).0 != q by {
        if f < i {
            assert(str_lt(layer[f].0, layer[i].0));
            lemma_lt_irreflexive(q);
        }
    }
    lemma_layered(env, layer, outer, layer.len() as int, q, f);
}

/// A name is looked up in the environment first and then in the outer one; a name that neither has stands for nothing.
pub proof fn law_value(name: Str, env: Seq<(Str, Str)>, outer: Seq<(Str, Str)>)
    ensures
        tab_get(env, name) is Some ==> value_of(name, env, outer) == tab_get(env, name)->0,
        tab_get(env, name) is None && tab_get(outer, name) is Some ==> value_of(name, env, outer) == tab_get(outer, name)->0,
        tab_get(env, name) is None && tab_get(outer, name) is None ==> value_of(name, env, outer).len() == 0,
{
}

proof fn lemma_braced_end(a: Str, b: Str, i: int)
    requires
        0 <= i <= a.len(),
        !a.contains('}'),
    ensures
        index_from(a + seq!['}'] + b, '}', i) == a.len(),
    decreases a.len() - i,
{
    let s = a + seq!['}'] + b;
    if i < a.len() {
        assert(s[i] == a[i]);
        assert(a.contains(a[i]));
        lemma_braced_end(a, b, i + 1);
    } else {
        assert(s[i] == '}');
    }
}

/// A text that is a name in braces after a dollar sign stands for the value of the name.
pub proof fn law_braced_name(name: Str, env: Seq<(Str, Str)>, outer: Seq<(Str, Str)>)
    requires
        !name.contains('}'),
    ensures
        expanded(seq!['$', '{'] + name + seq!['}'], env, outer) == value_of(name, env, outer),
{
    let a = seq!['$', '{'] + name;
    let s = a + seq!['}'];
    let none = Seq::<char>::empty();
    assert(s =~= a + seq!['}'] + none);
    assert(!a.contains('}')) by {
        if a.contains('}') {
            let i = choose|i: int| 0 <= i < a.len() && a[i] == '}';
            if i >= 2 {
                assert(a[i] == name[i - 2]);
                assert(name.contains(name[i - 2]));
            }
        }
    }
    lemma_braced_end(a, none, 2);
    assert(s.subrange(2, a.len() as int) =~= name);
    assert(expanded_from(s, s.len() as int, env, outer) =~= none);
    assert(expanded_from(s, 0, env, outer) =~= value_of(name, env, outer));
}

} // verus!
