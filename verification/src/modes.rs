//! All modes: those of the configuration and those made of chains of several combinations.
use vstd::prelude::*;

use crate::chain::{
    chain_compact, combo_of, compact_of, copy_chain, key_of, parse_combo, rviews, Chain, Combo, ComboView,
};
use crate::collect::collect;
use crate::config::{Config, ConfigView};
use crate::keys::{Act, ActView, Binding, BindingView, Flags};
use crate::labels::{combo_label, combo_label_of};
use crate::pattern::{quote, quoted};
use crate::sticky::{
    app_keys, app_keys_upto, is_sticky_name, state_nodes, sticky_name, sticky_state, submap_name, submap_of,
    StickyBind, StickyBindView, StickyGo, StickyGoView, StickyNode, StickyNodeView,
};
use crate::table::Dup;
use crate::text::{
    chars_of, copy_all, find_char, from_chars, holds, index_from, join, joined, lower, oview, same, to_lower, views, Str,
};

verus! {

broadcast use crate::text::group_views;

// ---- The tree of chains -------------------------------------------------------

/// A tree of chains: combinations that mean the same are one node, in the order in which they came.
#[derive(Debug)]
pub struct Trie {
    pub combo: Combo,
    pub children: Vec<Trie>,
    pub leaf: Option<Binding>,
}

/// What a tree of chains is.
pub struct TrieView {
    pub combo: ComboView,
    pub children: Seq<TrieView>,
    pub leaf: Option<BindingView>,
}

/// What trees of chains are.
pub open spec fn tries_view(s: Seq<Trie>) -> Seq<TrieView>
    decreases s,
{
    Seq::new(
        s.len(),
        |i: int|
            if 0 <= i < s.len() {
                trie_view(s[i])
            } else {
                arbitrary()
            },
    )
}

/// What a tree of chains is.
pub open spec fn trie_view(t: Trie) -> TrieView
    decreases t,
{
    TrieView { combo: t.combo@, children: tries_view(t.children@), leaf: oview(t.leaf) }
}

/// The place from `i` on of the combination that means the same, or the number of nodes.
pub open spec fn trie_find(s: Seq<TrieView>, c: ComboView, i: int) -> int
    decreases s.len() - i,
{
    if i >= s.len() {
        s.len() as int
    } else if s[i].combo.match_key() == c.match_key() {
        i
    } else {
        trie_find(s, c, i + 1)
    }
}

/// The node with what is left of a chain put below it, from its combination `k` on.
pub open spec fn trie_grow(t: TrieView, chain: Seq<ComboView>, k: int, b: BindingView) -> TrieView
    decreases chain.len() - k, 1int,
{
    if k >= chain.len() {
        TrieView { leaf: Some(b), ..t }
    } else {
        TrieView { children: trie_put(t.children, chain, k, b), ..t }
    }
}

/// The trees with a chain put in, from its combination `k` on; its last combination holds the binding.
pub open spec fn trie_put(s: Seq<TrieView>, chain: Seq<ComboView>, k: int, b: BindingView) -> Seq<TrieView>
    decreases chain.len() - k, 0int,
{
    if k >= chain.len() {
        s
    } else {
        let i = trie_find(s, chain[k], 0);
        if 0 <= i < s.len() {
            s.update(i, trie_grow(s[i], chain, k + 1, b))
        } else {
            s.push(
                trie_grow(TrieView { combo: chain[k], children: Seq::empty(), leaf: None }, chain, k + 1, b),
            )
        }
    }
}

fn trie_insert(list: Vec<Trie>, chain: &Chain, k: usize, b: &Binding) -> (r: Vec<Trie>)
    requires
        k < chain.len(),
    ensures
        tries_view(r@) == trie_put(tries_view(list@), views(chain@), k as int, b@),
    decreases chain.len() - k,
{
    let ghost s = tries_view(list@);
    let mut list = list;
    let mut i: usize = 0;
    while i < list.len() && !list[i].combo.same_key(&chain[k])
        invariant
            i <= list.len(),
            k < chain.len(),
            s == tries_view(list@),
            trie_find(s, views(chain@)[k as int], 0) == trie_find(s, views(chain@)[k as int], i as int),
        decreases list.len() - i,
    {
        proof {
            assert(s[i as int].combo == list@[i as int].combo@);
        }
        i = i + 1;
    }
    let found: bool = i < list.len();
    proof {
        if found {
            assert(s[i as int].combo == list@[i as int].combo@);
        }
        assert(trie_find(s, views(chain@)[k as int], 0) == i);
    }
    let ghost before = list@;
    let mut t = if found {
        list.remove(i)
    } else {
        Trie { combo: chain[k].dup(), children: Vec::new(), leaf: None }
    };
    let ghost tv = trie_view(t);
    proof {
        if found {
            assert(tv == s[i as int]);
        } else {
            assert(tv.children =~= Seq::<TrieView>::empty());
        }
    }
    if k + 1 == chain.len() {
        t.leaf = Some(b.dup());
    } else {
        let children = t.children;
        t.children = trie_insert(children, chain, k + 1, b);
    }
    proof {
        assert(trie_view(t) == trie_grow(tv, views(chain@), k + 1, b@));
    }
    list.insert(i, t);
    proof {
        let w = tries_view(list@);
        if found {
            assert(w =~= s.update(i as int, trie_view(t)));
        } else {
            assert(w =~= s.push(trie_view(t)));
        }
    }
    list
}

/// The first word of a source.
pub open spec fn first_word(s: Str) -> Str {
    s.take(index_from(s, ' ', 0))
}

/// The first word of a source.
pub fn head_word(s: &str) -> (r: String)
    ensures
        r@ == first_word(s@),
{
    let v = chars_of(s);
    let n: usize = find_char(&v, ' ', 0);
    proof {
        assert(s@.take(n as int) =~= s@.subrange(0, n as int));
    }
    from_chars(&v, 0, n)
}

/// The list with a text put in, where it is not there yet.
pub open spec fn add_once(s: Seq<Str>, t: Str) -> Seq<Str> {
    if s.contains(t) {
        s
    } else {
        s.push(t)
    }
}

/// The sources of all bindings in a tree, each once, after those already listed.
pub open spec fn tree_sources(t: TrieView, acc: Seq<Str>) -> Seq<Str>
    decreases t, 0int,
{
    let a = match t.leaf {
        Some(b) => add_once(acc, first_word(b.source)),
        None => acc,
    };
    list_sources(t.children, 0, a)
}

/// The sources of all bindings in the trees from `i` on, each once, after those already listed.
pub open spec fn list_sources(s: Seq<TrieView>, i: int, acc: Seq<Str>) -> Seq<Str>
    decreases s, s.len() - i,
    when 0 <= i
{
    if i >= s.len() {
        acc
    } else {
        list_sources(s, i + 1, tree_sources(s[i], acc))
    }
}

fn trie_sources(t: &Trie, acc: Vec<String>) -> (r: Vec<String>)
    ensures
        views(r@) == tree_sources(trie_view(*t), views(acc@)),
    decreases t,
{
    let ghost first = views(acc@);
    let mut out = acc;
    if let Some(b) = &t.leaf {
        let s = head_word(b.source.as_str());
        if !holds(out.as_slice(), s.as_str()) {
            out.push(s);
        }
    }
    let ghost start = views(out@);
    let ghost tv = trie_view(*t);
    let mut i: usize = 0;
    proof {
        assert(tree_sources(tv, first) == list_sources(tv.children, 0, start));
    }
    while i < t.children.len()
        invariant
            i <= t.children.len(),
            tv == trie_view(*t),
            first == views(acc@),
            tree_sources(tv, first) == list_sources(tv.children, i as int, views(out@)),
        decreases t.children.len() - i,
    {
        proof {
            assert(tv.children[i as int] == trie_view(t.children@[i as int]));
        }
        out = trie_sources(&t.children[i], out);
        i = i + 1;
    }
    out
}

// ---- Modes made of chains -----------------------------------------------------

/// The keys of a state: the nodes of the tree from `i` on, after those already read; or a fault.
pub open spec fn links_from(
    here: Str,
    prefix: Seq<ComboView>,
    sources: Str,
    s: Seq<TrieView>,
    i: int,
    acc: Seq<StickyBindView>,
) -> Result<Seq<StickyBindView>, Str>
    decreases s.len() - i,
{
    if i >= s.len() {
        Ok(acc)
    } else {
        let c = s[i];
        let low = lower(c.combo.key);
        let rival = rival_from(acc, c.combo, 0);
        if low == "escape"@ || low == "backspace"@ {
            Err(
                "цепочка "@ + compact_of(prefix.push(c.combo)) + " ("@ + sources + "): звено "@ + quoted(
                    c.combo.compact(),
                ) + " недопустимо: Escape и BackSpace в режиме цепочки закрывают режим и возвращают назад"@,
            )
        } else if rival < acc.len() {
            Err(
                "цепочки "@ + quoted(compact_of(prefix.push(acc[rival].combo()))) + " и "@ + quoted(
                    compact_of(prefix.push(c.combo)),
                ) + " в режиме "@ + quoted(here)
                    + " неразличимы: звено без модификаторов срабатывает при любых модификаторах"@,
            )
        } else {
            links_from(here, prefix, sources, s, i + 1, acc.push(link_of(c)))
        }
    }
}

/// The place from `i` on of a key that cannot be told apart from a combination: the same key where one
/// of the two has no modifiers; or the number of keys.
pub open spec fn rival_from(s: Seq<StickyBindView>, c: ComboView, i: int) -> int
    decreases s.len() - i,
{
    if i >= s.len() {
        s.len() as int
    } else if lower(s[i].key) == lower(c.key) && (s[i].mods.len() == 0 || c.mods.len() == 0) {
        i
    } else {
        rival_from(s, c, i + 1)
    }
}

/// The key of a node: at the end of a chain it runs the binding and leaves the mode, else it leads on.
pub open spec fn link_of(c: TrieView) -> StickyBindView {
    if c.children.len() == 0 && c.leaf is Some {
        let b = c.leaf->0;
        StickyBindView {
            key: c.combo.key,
            mods: c.combo.mods,
            flags: b.flags,
            go: StickyGoView::Act(b.act),
            exit: true,
            desc: None,
            inherited: None,
            explicit: None,
            binding: Some(b),
        }
    } else {
        StickyBindView {
            key: c.combo.key,
            mods: c.combo.mods,
            flags: Flags::unset(),
            go: StickyGoView::State(c.combo.compact()),
            exit: false,
            desc: None,
            inherited: None,
            explicit: None,
            binding: None,
        }
    }
}

/// A state made of a node of the tree, without the states below it; or its first fault.
pub open spec fn tree_node(
    t: TrieView,
    chain: Str,
    names: Seq<Str>,
    titles: Seq<Str>,
    prefix: Seq<ComboView>,
    parent: Option<Str>,
) -> Result<StickyNodeView, Str> {
    let here = compact_of(prefix);
    match t.leaf {
        Some(b) => Err("цепочка "@ + quoted(here) + " ("@ + b.source + ") является началом другой цепочки"@),
        None => {
            let source = joined(tree_sources(t, Seq::empty()), ","@);
            match links_from(here, prefix, source, t.children, 0, Seq::empty()) {
                Err(e) => Err(e),
                Ok(keys) => Ok(
                    StickyNodeView {
                        chain,
                        names,
                        titles: titles.push(combo_label_of(t.combo)),
                        submap: submap_of(chain, names),
                        parent,
                        prefix,
                        source,
                        keys,
                        auto: true,
                    },
                ),
            }
        },
    }
}

/// The states of a mode made of chains from this node down, after those already listed.
pub open spec fn tree_nodes(
    t: TrieView,
    chain: Str,
    names: Seq<Str>,
    titles: Seq<Str>,
    prefix: Seq<ComboView>,
    parent: Option<Str>,
    acc: Seq<StickyNodeView>,
) -> Result<Seq<StickyNodeView>, Str>
    decreases t, 0int,
{
    match tree_node(t, chain, names, titles, prefix, parent) {
        Err(e) => Err(e),
        Ok(node) => tree_below_from(node, t.children, 0, acc.push(node)),
    }
}

/// The states below a state from the `i`-th node on that leads on, after those already listed.
pub open spec fn tree_below_from(node: StickyNodeView, s: Seq<TrieView>, i: int, acc: Seq<StickyNodeView>) -> Result<
    Seq<StickyNodeView>,
    Str,
>
    decreases s, s.len() - i,
    when 0 <= i
{
    if i >= s.len() {
        Ok(acc)
    } else if s[i].children.len() == 0 {
        tree_below_from(node, s, i + 1, acc)
    } else {
        match tree_nodes(
            s[i],
            node.chain,
            node.names.push(s[i].combo.compact()),
            node.titles,
            node.prefix.push(s[i].combo),
            Some(node.submap),
            acc,
        ) {
            Err(e) => Err(e),
            Ok(a) => tree_below_from(node, s, i + 1, a),
        }
    }
}

/// The tree of the chains of several combinations among the first `n` bindings.
pub open spec fn tree_upto(binds: Seq<BindingView>, n: int) -> Seq<TrieView>
    decreases n,
{
    if n <= 0 {
        Seq::empty()
    } else if binds[n - 1].chain.len() > 1 {
        trie_put(tree_upto(binds, n - 1), binds[n - 1].chain, 0, binds[n - 1])
    } else {
        tree_upto(binds, n - 1)
    }
}

/// The modes of the trees from `i` on, after the states already listed.
pub open spec fn roots_from(s: Seq<TrieView>, i: int, acc: Seq<StickyNodeView>) -> Result<Seq<StickyNodeView>, Str>
    decreases s.len() - i,
{
    if i >= s.len() {
        Ok(acc)
    } else {
        match tree_nodes(
            s[i],
            s[i].combo.compact(),
            Seq::empty(),
            Seq::empty(),
            Seq::empty().push(s[i].combo),
            None,
            acc,
        ) {
            Err(e) => Err(e),
            Ok(a) => roots_from(s, i + 1, a),
        }
    }
}

/// The modes made of the chains of several combinations.
pub open spec fn auto_nodes_of(binds: Seq<BindingView>) -> Result<Seq<StickyNodeView>, Str> {
    roots_from(tree_upto(binds, binds.len() as int), 0, Seq::empty())
}

fn rival(v: &[StickyBind], c: &Combo) -> (r: usize)
    ensures
        r == rival_from(views(v@), c@, 0),
        r <= v.len(),
{
    let low = to_lower(c.key.as_str());
    let mut i: usize = 0;
    while i < v.len()
        invariant
            i <= v.len(),
            low@ == lower(c@.key),
            rival_from(views(v@), c@, 0) == rival_from(views(v@), c@, i as int),
        decreases v.len() - i,
    {
        if same(to_lower(v[i].key.as_str()).as_str(), low.as_str()) && (v[i].mods.len() == 0 || c.mods.len() == 0) {
            return i;
        }
        i = i + 1;
    }
    i
}

fn link(c: &Trie) -> (r: StickyBind)
    ensures
        r@ == link_of(trie_view(*c)),
{
    if c.children.len() == 0 {
        if let Some(b) = &c.leaf {
            return StickyBind {
                key: c.combo.key.clone(),
                mods: copy_all(c.combo.mods.as_slice()),
                flags: b.flags,
                go: StickyGo::Act(b.act.dup()),
                exit: true,
                desc: None,
                inherited: None,
                explicit: None,
                binding: Some(b.dup()),
            };
        }
    }
    StickyBind {
        key: c.combo.key.clone(),
        mods: copy_all(c.combo.mods.as_slice()),
        flags: Flags::default(),
        go: StickyGo::State(c.combo.compact()),
        exit: false,
        desc: None,
        inherited: None,
        explicit: None,
        binding: None,
    }
}

fn extended(prefix: &Chain, c: &Combo) -> (r: Chain)
    ensures
        views(r@) == views(prefix@).push(c@),
{
    let mut v = copy_chain(prefix);
    v.push(c.dup());
    v
}

fn links(here: &str, prefix: &Chain, sources: &str, s: &Vec<Trie>) -> (r: Result<Vec<StickyBind>, String>)
    ensures
        rviews(r) == links_from(here@, views(prefix@), sources@, tries_view(s@), 0, Seq::empty()),
{
    let ghost t = tries_view(s@);
    let mut out: Vec<StickyBind> = Vec::new();
    let mut i: usize = 0;
    while i < s.len()
        invariant
            i <= s.len(),
            t == tries_view(s@),
            links_from(here@, views(prefix@), sources@, t, 0, Seq::empty()) == links_from(
                here@,
                views(prefix@),
                sources@,
                t,
                i as int,
                views(out@),
            ),
        decreases s.len() - i,
    {
        let c = &s[i];
        proof {
            assert(t[i as int] == trie_view(*c));
        }
        let low = to_lower(c.combo.key.as_str());
        if same(low.as_str(), "escape") || same(low.as_str(), "backspace") {
            let mut e = "цепочка ".to_owned();
            e.append(chain_compact(&extended(prefix, &c.combo)).as_str());
            e.append(" (");
            e.append(sources);
            e.append("): звено ");
            e.append(quote(c.combo.compact().as_str()).as_str());
            e.append(" недопустимо: Escape и BackSpace в режиме цепочки закрывают режим и возвращают назад");
            return Err(e);
        }
        let k: usize = rival(out.as_slice(), &c.combo);
        if k < out.len() {
            let mut e = "цепочки ".to_owned();
            e.append(quote(chain_compact(&extended(prefix, &out[k].combo())).as_str()).as_str());
            e.append(" и ");
            e.append(quote(chain_compact(&extended(prefix, &c.combo)).as_str()).as_str());
            e.append(" в режиме ");
            e.append(quote(here).as_str());
            e.append(" неразличимы: звено без модификаторов срабатывает при любых модификаторах");
            return Err(e);
        }
        out.push(link(c));
        i = i + 1;
    }
    Ok(out)
}

fn read_tree(t: &Trie, chain: &str, names: &Vec<String>, titles: &Vec<String>, prefix: &Chain, parent: &Option<String>) -> (r:
    Result<StickyNode, String>)
    ensures
        crate::chain::rview(r) == tree_node(
            trie_view(*t),
            chain@,
            views(names@),
            views(titles@),
            views(prefix@),
            oview(*parent),
        ),
{
    let here = chain_compact(prefix);
    if let Some(b) = &t.leaf {
        let mut e = "цепочка ".to_owned();
        e.append(quote(here.as_str()).as_str());
        e.append(" (");
        e.append(b.source.as_str());
        e.append(") является началом другой цепочки");
        return Err(e);
    }
    let list = trie_sources(t, Vec::new());
    let source = join(list.as_slice(), ",");
    let keys = match links(here.as_str(), prefix, source.as_str(), &t.children) {
        Ok(k) => k,
        Err(e) => return Err(e),
    };
    let mut all = copy_all(titles.as_slice());
    all.push(combo_label(&t.combo));
    Ok(
        StickyNode {
            chain: chain.to_owned(),
            names: copy_all(names.as_slice()),
            titles: all,
            submap: submap_name(chain, names.as_slice()),
            parent: crate::text::copy_opt(parent),
            prefix: copy_chain(prefix),
            source,
            keys,
            auto: true,
        },
    )
}

/// List the state of a node of the tree and all states below it.
pub fn auto_state(
    t: &Trie,
    chain: &str,
    names: &Vec<String>,
    titles: &Vec<String>,
    prefix: &Chain,
    parent: &Option<String>,
    out: Vec<StickyNode>,
) -> (r: Result<Vec<StickyNode>, String>)
    ensures
        rviews(r) == tree_nodes(
            trie_view(*t),
            chain@,
            views(names@),
            views(titles@),
            views(prefix@),
            oview(*parent),
            views(out@),
        ),
    decreases t,
{
    let node = match read_tree(t, chain, names, titles, prefix, parent) {
        Ok(n) => n,
        Err(e) => return Err(e),
    };
    let mut acc = out;
    acc.push(node.dup());
    let ghost whole = tree_nodes(
        trie_view(*t),
        chain@,
        views(names@),
        views(titles@),
        views(prefix@),
        oview(*parent),
        views(out@),
    );
    let ghost s = tries_view(t.children@);
    proof {
        assert(trie_view(*t).children == s);
        assert(whole == tree_below_from(node@, s, 0, views(acc@)));
    }
    let mut i: usize = 0;
    while i < t.children.len()
        invariant
            i <= t.children.len(),
            s == tries_view(t.children@),
            whole == tree_nodes(
                trie_view(*t),
                chain@,
                views(names@),
                views(titles@),
                views(prefix@),
                oview(*parent),
                views(out@),
            ),
            whole == tree_below_from(node@, s, i as int, views(acc@)),
            node@.chain == chain@,
        decreases t.children.len() - i,
    {
        let c = &t.children[i];
        proof {
            assert(s[i as int] == trie_view(*c));
        }
        if c.children.len() > 0 {
            let mut sub = copy_all(node.names.as_slice());
            sub.push(c.combo.compact());
            let path = extended(&node.prefix, &c.combo);
            let up = Some(node.submap.clone());
            match auto_state(c, chain, &sub, &node.titles, &path, &up, acc) {
                Ok(a) => {
                    acc = a;
                },
                Err(e) => {
                    return Err(e);
                },
            }
        }
        i = i + 1;
    }
    Ok(acc)
}

/// The modes made of the chains of several combinations: chains with a common first combination are one
/// mode, common combinations on the way are its states, and the last ones its keys.
pub fn auto_nodes(binds: &[Binding]) -> (r: Result<Vec<StickyNode>, String>)
    ensures
        rviews(r) == auto_nodes_of(views(binds@)),
{
    let mut roots: Vec<Trie> = Vec::new();
    proof {
        assert(tries_view(roots@) =~= Seq::<TrieView>::empty());
    }
    let mut i: usize = 0;
    while i < binds.len()
        invariant
            i <= binds.len(),
            tries_view(roots@) == tree_upto(views(binds@), i as int),
        decreases binds.len() - i,
    {
        if binds[i].chain.len() > 1 {
            roots = trie_insert(roots, &binds[i].chain, 0, &binds[i]);
        }
        i = i + 1;
    }
    let ghost s = tries_view(roots@);
    let mut out: Vec<StickyNode> = Vec::new();
    let mut k: usize = 0;
    while k < roots.len()
        invariant
            k <= roots.len(),
            s == tries_view(roots@),
            s == tree_upto(views(binds@), binds.len() as int),
            roots_from(s, 0, Seq::empty()) == roots_from(s, k as int, views(out@)),
        decreases roots.len() - k,
    {
        let t = &roots[k];
        proof {
            assert(s[k as int] == trie_view(*t));
        }
        let no: Vec<String> = Vec::new();
        let nothing: Chain = Vec::new();
        let path = extended(&nothing, &t.combo);
        match auto_state(t, t.combo.compact().as_str(), &no, &no, &path, &None, out) {
            Ok(a) => {
                out = a;
            },
            Err(e) => {
                return Err(e);
            },
        }
        k = k + 1;
    }
    Ok(out)
}

// ---- All modes ----------------------------------------------------------------

/// The combination that opens a mode, looked for among the bindings from `i` on.
pub open spec fn enter_from(binds: Seq<BindingView>, name: Str, i: int) -> Seq<ComboView>
    decreases binds.len() - i,
{
    if i >= binds.len() {
        Seq::empty()
    } else if binds[i].act == ActView::Sticky(name) {
        binds[i].chain
    } else {
        enter_from(binds, name, i + 1)
    }
}

/// One of the states from `i` on has this submap.
pub open spec fn submap_taken(s: Seq<StickyNodeView>, submap: Str, i: int) -> bool
    decreases s.len() - i,
{
    if i >= s.len() {
        false
    } else {
        s[i].submap == submap || submap_taken(s, submap, i + 1)
    }
}

/// The states with those of modes made of chains from `i` on; a submap of the configuration may not
/// be taken again.
pub open spec fn joined_from(user: Seq<StickyNodeView>, auto: Seq<StickyNodeView>, i: int, acc: Seq<StickyNodeView>) -> Result<
    Seq<StickyNodeView>,
    Str,
>
    decreases auto.len() - i,
{
    if i >= auto.len() {
        Ok(acc)
    } else if submap_taken(user, auto[i].submap, 0) {
        Err(
            "режим цепочек "@ + quoted(compact_of(auto[i].prefix)) + " ("@ + auto[i].source
                + ") совпадает по имени подкарты "@ + quoted(auto[i].submap) + " с цепочкой с выходом sticky."@
                + auto[i].chain,
        )
    } else {
        joined_from(user, auto, i + 1, acc.push(auto[i]))
    }
}

impl ConfigView {
    /// The states of the modes of the configuration from `i` on, after those already listed.
    pub open spec fn user_nodes_from(self, binds: Seq<BindingView>, i: int, acc: Seq<StickyNodeView>) -> Result<
        Seq<StickyNodeView>,
        Str,
    >
        decreases self.sticky.len() - i,
    {
        if i >= self.sticky.len() {
            Ok(acc)
        } else {
            let name = self.sticky[i].0;
            if !is_sticky_name(name) {
                Err(
                    "sticky."@ + name
                        + ": имя цепочки должно состоять из латинских строчных букв, цифр и дефиса"@,
                )
            } else {
                match state_nodes(
                    self,
                    app_keys_upto(binds, binds.len() as int),
                    name,
                    self.sticky[i].1,
                    Seq::empty(),
                    Seq::empty(),
                    enter_from(binds, name, 0),
                    None,
                    acc,
                ) {
                    Err(e) => Err(e),
                    Ok(a) => self.user_nodes_from(binds, i + 1, a),
                }
            }
        }
    }

    /// The states of all modes: those of the configuration, then those made of chains.
    pub open spec fn sticky_nodes(self) -> Result<Seq<StickyNodeView>, Str> {
        match self.collect() {
            Err(e) => Err(e),
            Ok(binds) => match self.user_nodes_from(binds, 0, Seq::empty()) {
                Err(e) => Err(e),
                Ok(user) => match auto_nodes_of(binds) {
                    Err(e) => Err(e),
                    Ok(auto) => joined_from(user, auto, 0, user),
                },
            },
        }
    }
}

fn enter_of(binds: &[Binding], name: &str) -> (r: Chain)
    ensures
        views(r@) == enter_from(views(binds@), name@, 0),
{
    let mut i: usize = 0;
    while i < binds.len()
        invariant
            i <= binds.len(),
            enter_from(views(binds@), name@, 0) == enter_from(views(binds@), name@, i as int),
        decreases binds.len() - i,
    {
        if let Act::Sticky(n) = &binds[i].act {
            if same(n.as_str(), name) {
                return copy_chain(&binds[i].chain);
            }
        }
        i = i + 1;
    }
    Vec::new()
}

fn user_nodes(cfg: &Config, binds: &[Binding]) -> (r: Result<Vec<StickyNode>, String>)
    ensures
        rviews(r) == cfg@.user_nodes_from(views(binds@), 0, Seq::empty()),
{
    let inh = app_keys(binds);
    let mut out: Vec<StickyNode> = Vec::new();
    let mut i: usize = 0;
    while i < cfg.sticky.len()
        invariant
            i <= cfg.sticky.len(),
            views(inh@) == app_keys_upto(views(binds@), binds.len() as int),
            cfg@.user_nodes_from(views(binds@), 0, Seq::empty()) == cfg@.user_nodes_from(
                views(binds@),
                i as int,
                views(out@),
            ),
        decreases cfg.sticky.len() - i,
    {
        let name = cfg.sticky[i].0.as_str();
        proof {
            assert(cfg@.sticky[i as int] == (name@, cfg.sticky@[i as int].1@));
        }
        if !sticky_name(name) {
            let mut e = "sticky.".to_owned();
            e.append(name);
            e.append(": имя цепочки должно состоять из латинских строчных букв, цифр и дефиса");
            return Err(e);
        }
        let enter = enter_of(binds, name);
        let no: Vec<String> = Vec::new();
        match sticky_state(cfg, inh.as_slice(), name, &cfg.sticky[i].1, &no, &no, &enter, &None, out) {
            Ok(a) => {
                out = a;
            },
            Err(e) => {
                return Err(e);
            },
        }
        i = i + 1;
    }
    Ok(out)
}

fn taken(v: &[StickyNode], submap: &str) -> (r: bool)
    ensures
        r == submap_taken(views(v@), submap@, 0),
{
    let mut i: usize = 0;
    while i < v.len()
        invariant
            i <= v.len(),
            submap_taken(views(v@), submap@, 0) == submap_taken(views(v@), submap@, i as int),
        decreases v.len() - i,
    {
        if same(v[i].submap.as_str(), submap) {
            return true;
        }
        i = i + 1;
    }
    false
}

/// The states of all modes in the order in which they are walked.
pub fn sticky_nodes(cfg: &Config) -> (r: Result<Vec<StickyNode>, String>)
    ensures
        rviews(r) == cfg@.sticky_nodes(),
{
    let binds = match collect(cfg) {
        Ok(b) => b,
        Err(e) => return Err(e),
    };
    let user = match user_nodes(cfg, binds.as_slice()) {
        Ok(u) => u,
        Err(e) => return Err(e),
    };
    let auto = match auto_nodes(binds.as_slice()) {
        Ok(a) => a,
        Err(e) => return Err(e),
    };
    let mut out = crate::table::dup_all(user.as_slice());
    let mut i: usize = 0;
    while i < auto.len()
        invariant
            i <= auto.len(),
            cfg@.sticky_nodes() == joined_from(views(user@), views(auto@), i as int, views(out@)),
        decreases auto.len() - i,
    {
        let node = &auto[i];
        if taken(user.as_slice(), node.submap.as_str()) {
            let mut e = "режим цепочек ".to_owned();
            e.append(quote(chain_compact(&node.prefix).as_str()).as_str());
            e.append(" (");
            e.append(node.source.as_str());
            e.append(") совпадает по имени подкарты ");
            e.append(quote(node.submap.as_str()).as_str());
            e.append(" с цепочкой с выходом sticky.");
            e.append(node.chain.as_str());
            return Err(e);
        }
        out.push(node.dup());
        i = i + 1;
    }
    Ok(out)
}

// ---- Checks of chains ---------------------------------------------------------

/// The reserved combinations from `i` on, after those already read.
pub open spec fn reserved_from(s: Seq<Str>, i: int, acc: Seq<ComboView>) -> Result<Seq<ComboView>, Str>
    decreases s.len() - i,
{
    if i >= s.len() {
        Ok(acc)
    } else {
        match combo_of(s[i]) {
            Ok(c) => reserved_from(s, i + 1, acc.push(c)),
            Err(e) => Err(e),
        }
    }
}

/// The place from `i` on of the combination that means the same, or the number of combinations.
pub open spec fn combo_find(s: Seq<ComboView>, c: ComboView, i: int) -> int
    decreases s.len() - i,
{
    if i >= s.len() {
        s.len() as int
    } else if s[i].match_key() == c.match_key() {
        i
    } else {
        combo_find(s, c, i + 1)
    }
}

/// A binding takes a reserved combination: the first fault of its chain from `j` on.
pub open spec fn reserved_fault_from(b: BindingView, reserved: Seq<ComboView>, texts: Seq<Str>, j: int) -> Option<Str>
    decreases b.chain.len() - j,
{
    if j >= b.chain.len() {
        None
    } else {
        let k = combo_find(reserved, b.chain[j], 0);
        if 0 <= k < reserved.len() {
            Some(
                "привязка "@ + quoted(compact_of(b.chain)) + " ("@ + b.source + ") занимает зарезервированное сочетание "@
                    + quoted(texts[k]),
            )
        } else {
            reserved_fault_from(b, reserved, texts, j + 1)
        }
    }
}

/// The flag `mouse` stands where it may not: it needs one combination and one expression.
pub open spec fn mouse_fault(b: BindingView) -> Option<Str> {
    if !b.flags.mouse {
        None
    } else if b.chain.len() != 1 {
        Some(
            "привязка "@ + quoted(compact_of(b.chain)) + " ("@ + b.source
                + "): флаг mouse допустим только у одиночного сочетания"@,
        )
    } else if !(b.act matches ActView::Dispatch(v) && v.len() == 1) {
        Some(
            "привязка "@ + quoted(compact_of(b.chain)) + " ("@ + b.source
                + "): флаг mouse требует одного выражения dispatch"@,
        )
    } else {
        None
    }
}

/// The first fault of the bindings from `i` on, each by itself.
pub open spec fn single_fault_from(binds: Seq<BindingView>, reserved: Seq<ComboView>, texts: Seq<Str>, i: int) -> Option<Str>
    decreases binds.len() - i,
{
    if i >= binds.len() {
        None
    } else {
        match reserved_fault_from(binds[i], reserved, texts, 0) {
            Some(e) => Some(e),
            None => match mouse_fault(binds[i]) {
                Some(e) => Some(e),
                None => single_fault_from(binds, reserved, texts, i + 1),
            },
        }
    }
}

/// The chain of one binding is that of another one, or its beginning.
pub open spec fn begins(short: BindingView, long: BindingView) -> bool {
    short.chain.len() <= long.chain.len() && key_of(long.chain).take(short.chain.len() as int) == key_of(short.chain)
}

/// Two bindings clash: one chain is the other or its beginning.
pub open spec fn clash_of(a: BindingView, b: BindingView) -> Option<Str> {
    let (short, long) = if a.chain.len() <= b.chain.len() {
        (a, b)
    } else {
        (b, a)
    };
    if !begins(short, long) {
        None
    } else if short.chain.len() == long.chain.len() {
        Some(
            "цепочка "@ + quoted(compact_of(short.chain)) + " задана дважды: "@ + short.source + " и "@ + long.source,
        )
    } else {
        Some(
            "цепочка "@ + quoted(compact_of(short.chain)) + " ("@ + short.source + ") является началом цепочки "@
                + quoted(compact_of(long.chain)) + " ("@ + long.source + ")"@,
        )
    }
}

/// The first clash of the binding `i` with those from `j` on.
pub open spec fn clash_with_from(binds: Seq<BindingView>, i: int, j: int) -> Option<Str>
    decreases binds.len() - j,
{
    if j >= binds.len() {
        None
    } else {
        match clash_of(binds[i], binds[j]) {
            Some(e) => Some(e),
            None => clash_with_from(binds, i, j + 1),
        }
    }
}

/// The first clash among the bindings from `i` on.
pub open spec fn pair_fault_from(binds: Seq<BindingView>, i: int) -> Option<Str>
    decreases binds.len() - i,
{
    if i >= binds.len() {
        None
    } else {
        match clash_with_from(binds, i, i + 1) {
            Some(e) => Some(e),
            None => pair_fault_from(binds, i + 1),
        }
    }
}

impl ConfigView {
    /// The first fault of the chains of the configuration.
    pub open spec fn chains_fault(self) -> Option<Str> {
        match self.collect() {
            Err(e) => Some(e),
            Ok(binds) => match reserved_from(self.keys.reserved, 0, Seq::empty()) {
                Err(e) => Some(e),
                Ok(reserved) => match single_fault_from(binds, reserved, self.keys.reserved, 0) {
                    Some(e) => Some(e),
                    None => match pair_fault_from(binds, 0) {
                        Some(e) => Some(e),
                        None => match self.sticky_nodes() {
                            Err(e) => Some(e),
                            Ok(_) => None,
                        },
                    },
                },
            },
        }
    }
}

fn read_reserved(v: &Vec<String>) -> (r: Result<Vec<Combo>, String>)
    ensures
        rviews(r) == reserved_from(views(v@), 0, Seq::empty()),
        r matches Ok(c) ==> c.len() == v.len(),
{
    let mut out: Vec<Combo> = Vec::new();
    let mut i: usize = 0;
    while i < v.len()
        invariant
            i <= v.len(),
            out.len() == i,
            reserved_from(views(v@), 0, Seq::empty()) == reserved_from(views(v@), i as int, views(out@)),
        decreases v.len() - i,
    {
        match parse_combo(v[i].as_str()) {
            Ok(c) => {
                out.push(c);
            },
            Err(e) => {
                return Err(e);
            },
        }
        i = i + 1;
    }
    Ok(out)
}

/// The place of the combination that means the same, or the number of combinations.
pub fn find_combo(v: &[Combo], c: &Combo) -> (r: usize)
    ensures
        r == combo_find(views(v@), c@, 0),
        r <= v.len(),
{
    let mut i: usize = 0;
    while i < v.len()
        invariant
            i <= v.len(),
            combo_find(views(v@), c@, 0) == combo_find(views(v@), c@, i as int),
        decreases v.len() - i,
    {
        if v[i].same_key(c) {
            return i;
        }
        i = i + 1;
    }
    i
}

fn about_binding(b: &Binding, what: &str) -> (r: String)
    ensures
        r@ == "привязка "@ + quoted(compact_of(b@.chain)) + " ("@ + b@.source + what@,
{
    let mut e = "привязка ".to_owned();
    e.append(quote(chain_compact(&b.chain).as_str()).as_str());
    e.append(" (");
    e.append(b.source.as_str());
    e.append(what);
    e
}

fn single_fault(binds: &[Binding], reserved: &[Combo], texts: &Vec<String>) -> (r: Option<String>)
    requires
        reserved.len() == texts.len(),
    ensures
        oview(r) == single_fault_from(views(binds@), views(reserved@), views(texts@), 0),
{
    let ghost bs = views(binds@);
    let ghost rs = views(reserved@);
    let ghost ts = views(texts@);
    let mut i: usize = 0;
    while i < binds.len()
        invariant
            i <= binds.len(),
            bs == views(binds@),
            rs == views(reserved@),
            ts == views(texts@),
            reserved.len() == texts.len(),
            single_fault_from(bs, rs, ts, 0) == single_fault_from(bs, rs, ts, i as int),
        decreases binds.len() - i,
    {
        let b = &binds[i];
        let mut j: usize = 0;
        while j < b.chain.len()
            invariant
                j <= b.chain.len(),
                i < binds.len(),
                b@ == bs[i as int],
                rs == views(reserved@),
                ts == views(texts@),
                reserved.len() == texts.len(),
                single_fault_from(bs, rs, ts, 0) == single_fault_from(bs, rs, ts, i as int),
                bs == views(binds@),
                reserved_fault_from(b@, rs, ts, 0) == reserved_fault_from(b@, rs, ts, j as int),
            decreases b.chain.len() - j,
        {
            let k: usize = find_combo(reserved, &b.chain[j]);
            if k < reserved.len() {
                let mut e = about_binding(b, ") занимает зарезервированное сочетание ");
                e.append(quote(texts[k].as_str()).as_str());
                return Some(e);
            }
            j = j + 1;
        }
        if b.flags.mouse {
            if b.chain.len() != 1 {
                return Some(about_binding(b, "): флаг mouse допустим только у одиночного сочетания"));
            }
            let one: bool = match &b.act {
                Act::Dispatch(v) => v.len() == 1,
                _ => false,
            };
            if !one {
                return Some(about_binding(b, "): флаг mouse требует одного выражения dispatch"));
            }
        }
        i = i + 1;
    }
    None
}

fn begins_with(short: &Binding, long: &Binding) -> (r: bool)
    requires
        short.chain.len() <= long.chain.len(),
    ensures
        r == begins(short@, long@),
{
    let ghost x = key_of(short@.chain);
    let ghost y = key_of(long@.chain).take(short@.chain.len() as int);
    let mut i: usize = 0;
    while i < short.chain.len()
        invariant
            i <= short.chain.len() <= long.chain.len(),
            x == key_of(short@.chain),
            y == key_of(long@.chain).take(short@.chain.len() as int),
            forall|k: int| 0 <= k < i ==> #[trigger] x[k] == y[k],
        decreases short.chain.len() - i,
    {
        if !short.chain[i].same_key(&long.chain[i]) {
            assert(x[i as int] != y[i as int]);
            return false;
        }
        i = i + 1;
    }
    assert(x =~= y);
    true
}

fn clash(a: &Binding, b: &Binding) -> (r: Option<String>)
    ensures
        oview(r) == clash_of(a@, b@),
{
    let (short, long) = if a.chain.len() <= b.chain.len() {
        (a, b)
    } else {
        (b, a)
    };
    if !begins_with(short, long) {
        return None;
    }
    let mut e = "цепочка ".to_owned();
    e.append(quote(chain_compact(&short.chain).as_str()).as_str());
    if short.chain.len() == long.chain.len() {
        e.append(" задана дважды: ");
        e.append(short.source.as_str());
        e.append(" и ");
        e.append(long.source.as_str());
        return Some(e);
    }
    e.append(" (");
    e.append(short.source.as_str());
    e.append(") является началом цепочки ");
    e.append(quote(chain_compact(&long.chain).as_str()).as_str());
    e.append(" (");
    e.append(long.source.as_str());
    e.append(")");
    Some(e)
}

fn pair_fault(binds: &[Binding]) -> (r: Option<String>)
    ensures
        oview(r) == pair_fault_from(views(binds@), 0),
{
    let ghost bs = views(binds@);
    let n: usize = binds.len();
    let mut i: usize = 0;
    while i < n
        invariant
            i <= n,
            n == binds.len(),
            bs == views(binds@),
            pair_fault_from(bs, 0) == pair_fault_from(bs, i as int),
        decreases n - i,
    {
        let mut j: usize = i + 1;
        while j < n
            invariant
                i < j <= n,
                n == binds.len(),
                bs == views(binds@),
                pair_fault_from(bs, 0) == pair_fault_from(bs, i as int),
                clash_with_from(bs, i as int, i + 1) == clash_with_from(bs, i as int, j as int),
            decreases n - j,
        {
            if let Some(e) = clash(&binds[i], &binds[j]) {
                return Some(e);
            }
            j = j + 1;
        }
        i = i + 1;
    }
    None
}

/// Check the chains: none is another one or its beginning, none takes a reserved combination, the flag
/// `mouse` stands where it may, and the modes can be made.
pub fn check_chains(cfg: &Config) -> (r: Result<(), String>)
    ensures
        match r {
            Ok(_) => cfg@.chains_fault() is None,
            Err(e) => cfg@.chains_fault() == Some(e@),
        },
{
    let binds = match collect(cfg) {
        Ok(b) => b,
        Err(e) => return Err(e),
    };
    let reserved = match read_reserved(&cfg.keys.reserved) {
        Ok(v) => v,
        Err(e) => return Err(e),
    };
    if let Some(e) = single_fault(binds.as_slice(), reserved.as_slice(), &cfg.keys.reserved) {
        return Err(e);
    }
    if let Some(e) = pair_fault(binds.as_slice()) {
        return Err(e);
    }
    match sticky_nodes(cfg) {
        Ok(_) => Ok(()),
        Err(e) => Err(e),
    }
}

proof fn lemma_no_clash_with(binds: Seq<BindingView>, i: int, j: int, k: int)
    requires
        clash_with_from(binds, i, j) is None,
        0 <= j <= k < binds.len(),
    ensures
        clash_of(binds[i], binds[k]) is None,
    decreases k - j,
{
    if j < k {
        lemma_no_clash_with(binds, i, j + 1, k);
    }
}

proof fn lemma_no_clash(binds: Seq<BindingView>, from: int, i: int, k: int)
    requires
        pair_fault_from(binds, from) is None,
        0 <= from <= i < k < binds.len(),
    ensures
        clash_of(binds[i], binds[k]) is None,
    decreases i - from,
{
    if from < i {
        lemma_no_clash(binds, from + 1, i, k);
    } else {
        lemma_no_clash_with(binds, i, i + 1, k);
    }
}

proof fn lemma_not_found(s: Seq<ComboView>, c: ComboView, i: int, k: int)
    requires
        0 <= i <= k < s.len(),
        combo_find(s, c, i) >= s.len(),
    ensures
        s[k].match_key() != c.match_key(),
    decreases k - i,
{
    if i < k {
        lemma_not_found(s, c, i + 1, k);
    }
}

proof fn lemma_find_range(s: Seq<ComboView>, c: ComboView, i: int)
    requires
        0 <= i <= s.len(),
    ensures
        i <= combo_find(s, c, i) <= s.len(),
    decreases s.len() - i,
{
    if i < s.len() {
        lemma_find_range(s, c, i + 1);
    }
}

proof fn lemma_not_reserved(b: BindingView, reserved: Seq<ComboView>, texts: Seq<Str>, from: int, j: int)
    requires
        reserved_fault_from(b, reserved, texts, from) is None,
        0 <= from <= j < b.chain.len(),
    ensures
        combo_find(reserved, b.chain[j], 0) >= reserved.len(),
    decreases j - from,
{
    lemma_find_range(reserved, b.chain[from], 0);
    if from < j {
        lemma_not_reserved(b, reserved, texts, from + 1, j);
    }
}

proof fn lemma_single(binds: Seq<BindingView>, reserved: Seq<ComboView>, texts: Seq<Str>, from: int, i: int)
    requires
        single_fault_from(binds, reserved, texts, from) is None,
        0 <= from <= i < binds.len(),
    ensures
        reserved_fault_from(binds[i], reserved, texts, 0) is None,
        mouse_fault(binds[i]) is None,
    decreases i - from,
{
    if from < i {
        lemma_single(binds, reserved, texts, from + 1, i);
    }
}

/// Among the bindings of a configuration whose chains have no fault, no chain is that of another binding or
/// its beginning: a press is never taken for two things.
pub proof fn law_no_chain_begins_another(cfg: ConfigView, i: int, k: int)
    requires
        cfg.chains_fault() is None,
        cfg.collect() is Ok,
        0 <= i < cfg.collect()->Ok_0.len(),
        0 <= k < cfg.collect()->Ok_0.len(),
        i != k,
    ensures
        !begins(cfg.collect()->Ok_0[i], cfg.collect()->Ok_0[k]),
{
    let binds = cfg.collect()->Ok_0;
    if i < k {
        lemma_no_clash(binds, 0, i, k);
    } else {
        lemma_no_clash(binds, 0, k, i);
    }
    if begins(binds[i], binds[k]) && binds[i].chain.len() == binds[k].chain.len() {
        let n = binds[i].chain.len() as int;
        assert(key_of(binds[k].chain).take(n) =~= key_of(binds[k].chain));
        assert(key_of(binds[i].chain).take(n) =~= key_of(binds[i].chain));
        assert(begins(binds[k], binds[i]));
    }
}

/// No binding of a configuration whose chains have no fault takes a reserved combination, anywhere in its
/// chain, in whatever letters it is written.
pub proof fn law_reserved_stay_free(cfg: ConfigView, i: int, j: int, k: int)
    requires
        cfg.chains_fault() is None,
        cfg.collect() is Ok,
        reserved_from(cfg.keys.reserved, 0, Seq::empty()) is Ok,
        0 <= i < cfg.collect()->Ok_0.len(),
        0 <= j < cfg.collect()->Ok_0[i].chain.len(),
        0 <= k < reserved_from(cfg.keys.reserved, 0, Seq::empty())->Ok_0.len(),
    ensures
        cfg.collect()->Ok_0[i].chain[j].match_key() != reserved_from(
            cfg.keys.reserved,
            0,
            Seq::empty(),
        )->Ok_0[k].match_key(),
{
    let binds = cfg.collect()->Ok_0;
    let reserved = reserved_from(cfg.keys.reserved, 0, Seq::empty())->Ok_0;
    lemma_single(binds, reserved, cfg.keys.reserved, 0, i);
    lemma_not_reserved(binds[i], reserved, cfg.keys.reserved, 0, j);
    lemma_not_found(reserved, binds[i].chain[j], 0, k);
}

} // verus!
