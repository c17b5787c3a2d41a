//! The list of bindings for people: chain, action, flags and source in columns.
use vstd::prelude::*;

use crate::chain::{chain_compact, compact_of, rview, Chain, ComboView};
use crate::collect::collect;
use crate::config::{Config, ConfigView};
use crate::keys::{Act, ActView, Binding, BindingView};
use crate::modes::{check_chains, first_word, head_word, sticky_nodes};
use crate::sticky::{StickyGo, StickyGoView, StickyNode, StickyNodeView};
use crate::text::{join, joined, pad, padded, same, trim_back, trim_right, views, Str};

verus! {

broadcast use crate::text::group_views;

/// The path of a key of a mode.
#[derive(Debug, PartialEq)]
pub struct StickyRow {
    /// The entry, the steps down and the key.
    pub chain: Chain,
    /// `state raise`, `key SUPER+V`, `exec …`.
    pub action: String,
    pub exit: bool,
    /// The section of the state that the key belongs to.
    pub source: String,
    /// The number of the state among the states of all modes, and the number of the key in it.
    pub node: usize,
    pub key: usize,
}

/// What the path of a key is.
pub struct StickyRowView {
    pub chain: Seq<ComboView>,
    pub action: Str,
    pub exit: bool,
    pub source: Str,
    pub node: int,
    pub key: int,
}

impl View for StickyRow {
    type V = StickyRowView;

    open spec fn view(&self) -> StickyRowView {
        StickyRowView {
            chain: views(self.chain@),
            action: self.action@,
            exit: self.exit,
            source: self.source@,
            node: self.node as int,
            key: self.key as int,
        }
    }
}

/// The path of key `k` of state `n`.
pub open spec fn row_of(node: StickyNodeView, n: int, k: int) -> StickyRowView {
    StickyRowView {
        chain: node.prefix.push(node.keys[k].combo()),
        action: match node.keys[k].go {
            StickyGoView::State(s) => "state "@ + s,
            StickyGoView::Act(a) => a.describe(),
        },
        exit: node.keys[k].exit,
        source: node.source,
        node: n,
        key: k,
    }
}

/// The paths of the first `k` keys of state `n`.
pub open spec fn node_rows_upto(node: StickyNodeView, n: int, k: int) -> Seq<StickyRowView>
    decreases k,
{
    if k <= 0 {
        Seq::empty()
    } else {
        node_rows_upto(node, n, k - 1).push(row_of(node, n, k - 1))
    }
}

/// The paths of the keys of the mode `name` in the first `n` states.
pub open spec fn rows_upto(nodes: Seq<StickyNodeView>, name: Str, n: int) -> Seq<StickyRowView>
    decreases n,
{
    if n <= 0 {
        Seq::empty()
    } else if nodes[n - 1].chain == name {
        rows_upto(nodes, name, n - 1) + node_rows_upto(nodes[n - 1], n - 1, nodes[n - 1].keys.len() as int)
    } else {
        rows_upto(nodes, name, n - 1)
    }
}

/// The paths of the keys of the mode `name`, state by state.
pub fn sticky_rows(nodes: &[StickyNode], name: &str) -> (r: Vec<StickyRow>)
    ensures
        views(r@) == rows_upto(views(nodes@), name@, nodes@.len() as int),
{
    let mut out: Vec<StickyRow> = Vec::new();
    let mut i: usize = 0;
    while i < nodes.len()
        invariant
            i <= nodes.len(),
            views(out@) == rows_upto(views(nodes@), name@, i as int),
        decreases nodes.len() - i,
    {
        let node = &nodes[i];
        if same(node.chain.as_str(), name) {
            let mut k: usize = 0;
            let ghost before = views(out@);
            proof {
                assert(before + Seq::<StickyRowView>::empty() =~= before);
            }
            while k < node.keys.len()
                invariant
                    k <= node.keys.len(),
                    before == rows_upto(views(nodes@), name@, i as int),
                    views(out@) == before + node_rows_upto(node@, i as int, k as int),
                decreases node.keys.len() - k,
            {
                let b = &node.keys[k];
                let action = match &b.go {
                    StickyGo::State(s) => {
                        let mut t = "state ".to_owned();
                        t.append(s.as_str());
                        t
                    },
                    StickyGo::Act(a) => a.describe(),
                };
                let ghost was = views(out@);
                out.push(
                    StickyRow {
                        chain: node.key_chain(b),
                        action,
                        exit: b.exit,
                        source: node.source.clone(),
                        node: i,
                        key: k,
                    },
                );
                proof {
                    let row = row_of(node@, i as int, k as int);
                    assert(views(out@).last() == row);
                    assert(was.push(row) =~= before + node_rows_upto(node@, i as int, k as int).push(row));
                }
                k = k + 1;
            }
        }
        i = i + 1;
    }
    out
}

// ---- The list -----------------------------------------------------------------

/// A line of the list before it is put into columns.
struct Line {
    chain: String,
    act: String,
    flags: String,
    source: String,
}

/// What a line of the list says.
pub struct LineView {
    pub chain: Str,
    pub act: Str,
    pub flags: Str,
    pub source: Str,
}

impl View for Line {
    type V = LineView;

    closed spec fn view(&self) -> LineView {
        LineView { chain: self.chain@, act: self.act@, flags: self.flags@, source: self.source@ }
    }
}

/// The flags of a binding; the last combination of a longer chain leaves its mode.
pub open spec fn flag_words(b: BindingView) -> Seq<Str> {
    if b.chain.len() > 1 {
        b.flags.set_names().push("exit"@)
    } else {
        b.flags.set_names()
    }
}

/// The line of a binding.
pub open spec fn bind_line(b: BindingView) -> LineView {
    LineView {
        chain: compact_of(b.chain),
        act: b.act.describe(),
        flags: joined(flag_words(b), ","@),
        source: first_word(b.source),
    }
}

/// The line of the path of a key.
pub open spec fn row_line(r: StickyRowView) -> LineView {
    LineView {
        chain: compact_of(r.chain),
        act: r.action,
        flags: if r.exit {
            "exit"@
        } else {
            ""@
        },
        source: r.source,
    }
}

/// The lines of the first `n` bindings; the entry into a mode is followed by the paths of its keys.
pub open spec fn lines_upto(binds: Seq<BindingView>, nodes: Seq<StickyNodeView>, n: int) -> Seq<LineView>
    decreases n,
{
    if n <= 0 {
        Seq::empty()
    } else {
        let b = binds[n - 1];
        let acc = lines_upto(binds, nodes, n - 1).push(bind_line(b));
        match b.act {
            ActView::Sticky(name) => acc + rows_upto(nodes, name, nodes.len() as int).map_values(
                |r: StickyRowView| row_line(r),
            ),
            _ => acc,
        }
    }
}

/// The greatest length among the first `n` texts.
pub open spec fn widest(s: Seq<Str>, n: int) -> nat
    decreases n,
{
    if n <= 0 {
        0
    } else if s[n - 1].len() > widest(s, n - 1) {
        s[n - 1].len()
    } else {
        widest(s, n - 1)
    }
}

/// The line in columns of these widths.
pub open spec fn column_line(l: LineView, w0: nat, w1: nat, w2: nat) -> Str {
    trim_back(padded(l.chain, w0) + "  "@ + padded(l.act, w1) + "  "@ + padded(l.flags, w2) + "  "@ + l.source)
}

/// The first `n` lines in columns of these widths.
pub open spec fn table_upto(s: Seq<LineView>, w0: nat, w1: nat, w2: nat, n: int) -> Str
    decreases n,
{
    if n <= 0 {
        Seq::empty()
    } else {
        table_upto(s, w0, w1, w2, n - 1) + column_line(s[n - 1], w0, w1, w2) + "\n"@
    }
}

/// The lines in columns as wide as their widest texts.
pub open spec fn table_of(s: Seq<LineView>) -> Str {
    let n = s.len() as int;
    table_upto(
        s,
        widest(s.map_values(|l: LineView| l.chain), n),
        widest(s.map_values(|l: LineView| l.act), n),
        widest(s.map_values(|l: LineView| l.flags), n),
        n,
    )
}

impl ConfigView {
    /// The list of bindings.
    pub open spec fn list(self) -> Result<Str, Str> {
        match self.collect() {
            Err(e) => Err(e),
            Ok(binds) => match self.chains_fault() {
                Some(e) => Err(e),
                None => match self.sticky_nodes() {
                    Err(e) => Err(e),
                    Ok(nodes) => Ok(table_of(lines_upto(binds, nodes, binds.len() as int))),
                },
            },
        }
    }
}

fn make_lines(binds: &[Binding], nodes: &[StickyNode]) -> (r: Vec<Line>)
    ensures
        views(r@) == lines_upto(views(binds@), views(nodes@), binds@.len() as int),
{
    let mut out: Vec<Line> = Vec::new();
    let mut i: usize = 0;
    while i < binds.len()
        invariant
            i <= binds.len(),
            views(out@) == lines_upto(views(binds@), views(nodes@), i as int),
        decreases binds.len() - i,
    {
        let b = &binds[i];
        let mut flags = b.flags.names();
        if b.chain.len() > 1 {
            flags.push("exit".to_owned());
        }
        out.push(
            Line {
                chain: chain_compact(&b.chain),
                act: b.act.describe(),
                flags: join(flags.as_slice(), ","),
                source: head_word(b.source.as_str()),
            },
        );
        if let Act::Sticky(name) = &b.act {
            let rows = sticky_rows(nodes, name.as_str());
            let ghost before = views(out@);
            let ghost all = views(rows@).map_values(|r: StickyRowView| row_line(r));
            let mut k: usize = 0;
            proof {
                assert(before + all.take(0) =~= before);
            }
            while k < rows.len()
                invariant
                    k <= rows.len(),
                    all == views(rows@).map_values(|r: StickyRowView| row_line(r)),
                    views(out@) == before + all.take(k as int),
                decreases rows.len() - k,
            {
                let r = &rows[k];
                let ghost was = views(out@);
                out.push(
                    Line {
                        chain: chain_compact(&r.chain),
                        act: r.action.clone(),
                        flags: if r.exit {
                            "exit".to_owned()
                        } else {
                            "".to_owned()
                        },
                        source: r.source.clone(),
                    },
                );
                proof {
                    assert(views(rows@)[k as int] == r@);
                    assert(views(out@).last() == row_line(r@));
                    assert(all.take(k + 1) =~= all.take(k as int).push(row_line(r@)));
                    assert(was.push(row_line(r@)) =~= before + all.take(k + 1));
                }
                k = k + 1;
            }
            proof {
                assert(all.take(k as int) =~= all);
            }
        }
        i = i + 1;
    }
    out
}

fn columns(lines: &Vec<Line>) -> (r: String)
    ensures
        r@ == table_of(views(lines@)),
{
    let ghost s = views(lines@);
    let ghost c0 = s.map_values(|l: LineView| l.chain);
    let ghost c1 = s.map_values(|l: LineView| l.act);
    let ghost c2 = s.map_values(|l: LineView| l.flags);
    let mut w0: usize = 0;
    let mut w1: usize = 0;
    let mut w2: usize = 0;
    let mut i: usize = 0;
    while i < lines.len()
        invariant
            i <= lines.len(),
            s == views(lines@),
            c0 == s.map_values(|l: LineView| l.chain),
            c1 == s.map_values(|l: LineView| l.act),
            c2 == s.map_values(|l: LineView| l.flags),
            w0 == widest(c0, i as int),
            w1 == widest(c1, i as int),
            w2 == widest(c2, i as int),
        decreases lines.len() - i,
    {
        let l = &lines[i];
        assert(s[i as int] == l@);
        let a: usize = l.chain.as_str().unicode_len();
        let b: usize = l.act.as_str().unicode_len();
        let c: usize = l.flags.as_str().unicode_len();
        if a > w0 {
            w0 = a;
        }
        if b > w1 {
            w1 = b;
        }
        if c > w2 {
            w2 = c;
        }
        i = i + 1;
    }
    let mut out = String::new();
    let mut k: usize = 0;
    while k < lines.len()
        invariant
            k <= lines.len(),
            s == views(lines@),
            out@ == table_upto(s, w0 as nat, w1 as nat, w2 as nat, k as int),
        decreases lines.len() - k,
    {
        let l = &lines[k];
        assert(s[k as int] == l@);
        let mut t = pad(l.chain.as_str(), w0);
        t.append("  ");
        t.append(pad(l.act.as_str(), w1).as_str());
        t.append("  ");
        t.append(pad(l.flags.as_str(), w2).as_str());
        t.append("  ");
        t.append(l.source.as_str());
        out.append(trim_right(t.as_str()));
        out.append("\n");
        k = k + 1;
    }
    out
}

/// The list of bindings: chain, action, flags, source.
pub fn to_list(cfg: &Config) -> (r: Result<String, String>)
    ensures
        rview(r) == cfg@.list(),
{
    let binds = match collect(cfg) {
        Ok(b) => b,
        Err(e) => return Err(e),
    };
    if let Err(e) = check_chains(cfg) {
        return Err(e);
    }
    let nodes = match sticky_nodes(cfg) {
        Ok(n) => n,
        Err(e) => return Err(e),
    };
    Ok(columns(&make_lines(binds.as_slice(), nodes.as_slice())))
}

} // verus!
