//! The script for the compositor: direct bindings, entries into modes and the submaps of their states.
use vstd::prelude::*;

use crate::chain::{chain_compact, compact_of, Chain, Combo, ComboView};
use crate::collect::collect;
use crate::config::{Config, ConfigView};
use crate::keys::{lines, lines_of, Act, ActView, Binding, BindingView, Flags};
use crate::modes::{check_chains, combo_find, find_combo, sticky_nodes};
use crate::pattern::{quote, quoted};
use crate::sticky::{StickyBind, StickyBindView, StickyGo, StickyGoView, StickyNode, StickyNodeView};
use crate::text::{join, joined, replace, replaced, views, Str};
use crate::table::Dup;

verus! {

broadcast use crate::text::group_views;

/// A text literal of the script.
pub open spec fn lua_text(s: Str) -> Str {
    "\""@ + replaced(
        replaced(replaced(s, "\\"@, "\\\\"@, 0), "\""@, "\\\""@, 0),
        "\n"@,
        "\\n"@,
        0,
    ) + "\""@
}

/// A text literal of the script.
pub fn lua_str(s: &str) -> (r: String)
    ensures
        r@ == lua_text(s@),
{
    proof {
        reveal_strlit("\\");
        reveal_strlit("\"");
        reveal_strlit("\n");
    }
    let a = replace(s, "\\", "\\\\");
    let b = replace(a.as_str(), "\"", "\\\"");
    let c = replace(b.as_str(), "\n", "\\n");
    let mut out = "\"".to_owned();
    out.append(c.as_str());
    out.append("\"");
    out
}

/// Calls of the dispatchers of the first `n` expressions.
pub open spec fn dispatches_upto(s: Seq<Str>, n: int) -> Seq<Str>
    decreases n,
{
    if n <= 0 {
        Seq::empty()
    } else {
        dispatches_upto(s, n - 1).push("hl.dispatch(hl.dsp."@ + s[n - 1] + ")"@)
    }
}

/// The first `n` lines of the body of a function, indented.
pub open spec fn body_upto(s: Seq<Str>, n: int) -> Str
    decreases n,
{
    if n <= 0 {
        Seq::empty()
    } else {
        body_upto(s, n - 1) + "    "@ + s[n - 1] + "\n"@
    }
}

/// The function of a script binding: a failure in it is shown as a notification.
pub open spec fn function_code(body: Str, chain: Seq<ComboView>, reset: bool) -> Str {
    let l = lines_of(body);
    "function()\n  local ok, err = pcall(function()\n"@ + body_upto(l, l.len() as int)
        + "  end)\n  if not ok then hl.notification.create({ text = \"workspaced: привязка "@ + compact_of(chain)
        + ": \" .. tostring(err), timeout = 5000, icon = \"error\" }) end\n"@ + if reset {
        "  hl.dispatch(hl.dsp.submap(\"reset\"))\nend"@
    } else {
        "end"@
    }
}

/// The expression of an action: a dispatcher or a function. `reset` closes the submap after the
/// action.
pub open spec fn action_code(act: ActView, chain: Seq<ComboView>, reset: bool) -> Str {
    match act {
        ActView::Daemon(c) => run_code(c, reset),
        ActView::Exec(c) => run_code(c, reset),
        ActView::Dispatch(exprs) => if exprs.len() == 1 && !reset {
            "hl.dsp."@ + exprs[0]
        } else {
            let calls = dispatches_upto(exprs, exprs.len() as int);
            "function() "@ + joined(
                if reset {
                    calls.push("hl.dispatch(hl.dsp.submap(\"reset\"))"@)
                } else {
                    calls
                },
                "; "@,
            ) + " end"@
        },
        ActView::Lua(body) => function_code(body, chain, reset),
        ActView::Sticky(name) => submap_code("ws-sticky:"@ + name),
    }
}

/// The expression that runs a command.
pub open spec fn run_code(cmd: Str, reset: bool) -> Str {
    if reset {
        "ws_run("@ + lua_text(cmd) + ")"@
    } else {
        "hl.dsp.exec_cmd("@ + lua_text(cmd) + ")"@
    }
}

/// The expression that opens a submap.
pub open spec fn submap_code(submap: Str) -> Str {
    "hl.dsp.submap("@ + lua_text(submap) + ")"@
}

fn run_lua(cmd: &str, reset: bool) -> (r: String)
    ensures
        r@ == run_code(cmd@, reset),
{
    let mut out = if reset {
        "ws_run(".to_owned()
    } else {
        "hl.dsp.exec_cmd(".to_owned()
    };
    out.append(lua_str(cmd).as_str());
    out.append(")");
    out
}

fn submap_lua(submap: &str) -> (r: String)
    ensures
        r@ == submap_code(submap@),
{
    let mut out = "hl.dsp.submap(".to_owned();
    out.append(lua_str(submap).as_str());
    out.append(")");
    out
}

fn function_lua(body: &str, chain: &Chain, reset: bool) -> (r: String)
    ensures
        r@ == function_code(body@, views(chain@), reset),
{
    let l = lines(body);
    let mut text = String::new();
    let mut i: usize = 0;
    while i < l.len()
        invariant
            i <= l.len(),
            text@ == body_upto(views(l@), i as int),
        decreases l.len() - i,
    {
        text.append("    ");
        text.append(l[i].as_str());
        text.append("\n");
        i = i + 1;
    }
    let mut out = "function()\n  local ok, err = pcall(function()\n".to_owned();
    out.append(text.as_str());
    out.append("  end)\n  if not ok then hl.notification.create({ text = \"workspaced: привязка ");
    out.append(chain_compact(chain).as_str());
    out.append(": \" .. tostring(err), timeout = 5000, icon = \"error\" }) end\n");
    out.append(
        if reset {
            "  hl.dispatch(hl.dsp.submap(\"reset\"))\nend"
        } else {
            "end"
        },
    );
    out
}

/// The expression of an action: a dispatcher or a function. `reset` closes the submap after the
/// action.
pub fn action_lua(act: &Act, chain: &Chain, reset: bool) -> (r: String)
    ensures
        r@ == action_code(act@, views(chain@), reset),
{
    match act {
        Act::Daemon(c) => run_lua(c.as_str(), reset),
        Act::Exec(c) => run_lua(c.as_str(), reset),
        Act::Dispatch(exprs) => {
            if exprs.len() == 1 && !reset {
                let mut out = "hl.dsp.".to_owned();
                out.append(exprs[0].as_str());
                return out;
            }
            let mut calls: Vec<String> = Vec::new();
            let mut i: usize = 0;
            while i < exprs.len()
                invariant
                    i <= exprs.len(),
                    views(calls@) == dispatches_upto(views(exprs@), i as int),
                decreases exprs.len() - i,
            {
                let mut s = "hl.dispatch(hl.dsp.".to_owned();
                s.append(exprs[i].as_str());
                s.append(")");
                calls.push(s);
                i = i + 1;
            }
            if reset {
                calls.push("hl.dispatch(hl.dsp.submap(\"reset\"))".to_owned());
            }
            let mut out = "function() ".to_owned();
            out.append(join(calls.as_slice(), "; ").as_str());
            out.append(" end");
            out
        },
        Act::Lua(body) => function_lua(body.as_str(), chain, reset),
        Act::Sticky(name) => {
            let mut s = "ws-sticky:".to_owned();
            s.append(name.as_str());
            submap_lua(s.as_str())
        },
    }
}

// ---- Flags --------------------------------------------------------------------

/// The first `n` flags as fields of a table of the script.
pub open spec fn fields_upto(s: Seq<Str>, n: int) -> Seq<Str>
    decreases n,
{
    if n <= 0 {
        Seq::empty()
    } else {
        fields_upto(s, n - 1).push(s[n - 1] + " = true"@)
    }
}

/// The flags as fields of a table of the script.
pub open spec fn flag_fields(f: Flags) -> Seq<Str> {
    fields_upto(f.set_names(), f.set_names().len() as int)
}

/// The table of the script with these fields.
pub open spec fn fields_code(s: Seq<Str>) -> Str {
    "{ "@ + joined(s, ", "@) + " }"@
}

fn make_fields(f: &Flags) -> (r: Vec<String>)
    ensures
        views(r@) == flag_fields(*f),
{
    let names = f.names();
    let mut out: Vec<String> = Vec::new();
    let mut i: usize = 0;
    while i < names.len()
        invariant
            i <= names.len(),
            views(out@) == fields_upto(views(names@), i as int),
        decreases names.len() - i,
    {
        let mut s = names[i].clone();
        s.append(" = true");
        out.push(s);
        i = i + 1;
    }
    out
}

/// One binding of the script: the combination, the action and the flags that are set.
pub open spec fn bind_code(combo: ComboView, action: Str, fields: Seq<Str>) -> Str {
    if fields.len() == 0 {
        "hl.bind("@ + lua_text(combo.lua()) + ", "@ + action + ")\n"@
    } else {
        "hl.bind("@ + lua_text(combo.lua()) + ", "@ + action + ", "@ + fields_code(fields) + ")\n"@
    }
}

fn bind_lua(combo: &Combo, action: &str, fields: &Vec<String>) -> (r: String)
    ensures
        r@ == bind_code(combo@, action@, views(fields@)),
{
    let mut out = "hl.bind(".to_owned();
    out.append(lua_str(combo.lua().as_str()).as_str());
    out.append(", ");
    out.append(action);
    if fields.len() > 0 {
        out.append(", ");
        let mut t = "{ ".to_owned();
        t.append(join(fields.as_slice(), ", ").as_str());
        t.append(" }");
        out.append(t.as_str());
    }
    out.append(")\n");
    out
}

// ---- States of modes ----------------------------------------------------------

/// The fields of a key of a state. A key without modifiers works with any modifier held.
pub open spec fn key_fields_of(k: StickyBindView) -> Seq<Str> {
    if k.mods.len() == 0 {
        flag_fields(k.flags).push("ignore_mods = true"@)
    } else {
        flag_fields(k.flags)
    }
}

/// The action of a key of a state.
pub open spec fn key_code(node: StickyNodeView, k: StickyBindView) -> Str {
    replaced(
        match k.go {
            StickyGoView::State(s) => submap_code(node.submap + "/"@ + s),
            StickyGoView::Act(act) => action_code(act, node.prefix.push(k.combo()), k.exit),
        },
        "\n"@,
        "\n  "@,
        0,
    )
}

/// The first `n` keys of a state.
pub open spec fn keys_code(node: StickyNodeView, n: int) -> Str
    decreases n,
{
    if n <= 0 {
        Seq::empty()
    } else {
        let k = node.keys[n - 1];
        keys_code(node, n - 1) + "  "@ + bind_code(k.combo(), key_code(node, k), key_fields_of(k))
    }
}

/// The submap of a state: its keys, BackSpace back to the state above (out of the mode from the root),
/// Escape out of the mode, and last a key for all others that does nothing.
pub open spec fn node_code(node: StickyNodeView) -> Str {
    "hl.define_submap("@ + lua_text(node.submap) + ", function()\n"@ + keys_code(node, node.keys.len() as int)
        + "  hl.bind(\"BackSpace\", "@ + submap_code(
        match node.parent {
            Some(p) => p,
            None => "reset"@,
        },
    )
        + ", { ignore_mods = true })\n  hl.bind(\"Escape\", hl.dsp.submap(\"reset\"), { ignore_mods = true })\n  hl.bind(\"catchall\", hl.dsp.no_op(), { ignore_mods = true })\nend)\n"@
}

fn key_lua(node: &StickyNode, k: &StickyBind) -> (r: String)
    ensures
        r@ == key_code(node@, k@),
{
    let action = match &k.go {
        StickyGo::State(s) => {
            let mut t = node.submap.clone();
            t.append("/");
            t.append(s.as_str());
            submap_lua(t.as_str())
        },
        StickyGo::Act(act) => action_lua(act, &node.key_chain(k), k.exit),
    };
    proof {
        reveal_strlit("\n");
    }
    replace(action.as_str(), "\n", "\n  ")
}

/// The submap of a state: its keys, BackSpace back to the state above (out of the mode from the root),
/// Escape out of the mode, and last a key for all others that does nothing.
pub fn emit_sticky(node: &StickyNode) -> (r: String)
    ensures
        r@ == node_code(node@),
{
    let mut keys = String::new();
    let mut i: usize = 0;
    while i < node.keys.len()
        invariant
            i <= node.keys.len(),
            keys@ == keys_code(node@, i as int),
        decreases node.keys.len() - i,
    {
        let k = &node.keys[i];
        let mut fields = make_fields(&k.flags);
        if k.mods.len() == 0 {
            fields.push("ignore_mods = true".to_owned());
        }
        keys.append("  ");
        keys.append(bind_lua(&k.combo(), key_lua(node, k).as_str(), &fields).as_str());
        i = i + 1;
    }
    let mut out = "hl.define_submap(".to_owned();
    out.append(lua_str(node.submap.as_str()).as_str());
    out.append(", function()\n");
    out.append(keys.as_str());
    out.append("  hl.bind(\"BackSpace\", ");
    let back = match &node.parent {
        Some(p) => submap_lua(p.as_str()),
        None => submap_lua("reset"),
    };
    out.append(back.as_str());
    out.append(
        ", { ignore_mods = true })\n  hl.bind(\"Escape\", hl.dsp.submap(\"reset\"), { ignore_mods = true })\n  hl.bind(\"catchall\", hl.dsp.no_op(), { ignore_mods = true })\nend)\n",
    );
    out
}

// ---- The script ---------------------------------------------------------------

/// The place from `i` on of the root of the mode that a combination opens, or the number of states.
pub open spec fn root_find(nodes: Seq<StickyNodeView>, c: ComboView, i: int) -> int
    decreases nodes.len() - i,
{
    if i >= nodes.len() {
        nodes.len() as int
    } else if nodes[i].auto && nodes[i].names.len() == 0 && nodes[i].prefix.len() > 0
        && nodes[i].prefix[0].match_key() == c.match_key() {
        i
    } else {
        root_find(nodes, c, i + 1)
    }
}

/// The direct bindings from `i` on, after `out`, in the order of the configuration. A combination that
/// begins longer chains is bound once, where it comes up first (`entered`): it opens the mode of those
/// chains.
pub open spec fn direct_from(
    binds: Seq<BindingView>,
    nodes: Seq<StickyNodeView>,
    i: int,
    out: Str,
    entered: Seq<ComboView>,
) -> Result<Str, Str>
    decreases binds.len() - i,
{
    if i >= binds.len() {
        Ok(out)
    } else if binds[i].chain.len() == 0 {
        direct_from(binds, nodes, i + 1, out, entered)
    } else {
        let b = binds[i];
        let combo = b.chain[0];
        if b.chain.len() == 1 {
            let line = bind_code(combo, action_code(b.act, b.chain, false), flag_fields(b.flags));
            direct_from(binds, nodes, i + 1, out + line, entered)
        } else if combo_find(entered, combo, 0) < entered.len() {
            direct_from(binds, nodes, i + 1, out, entered)
        } else {
            let k = root_find(nodes, combo, 0);
            if k >= nodes.len() {
                Err("нет режима для цепочки "@ + quoted(compact_of(b.chain)))
            } else {
                direct_from(
                    binds,
                    nodes,
                    i + 1,
                    out + bind_code(combo, submap_code(nodes[k].submap), Seq::empty()),
                    entered.push(combo),
                )
            }
        }
    }
}

/// The submaps of the first `n` states.
pub open spec fn nodes_code(nodes: Seq<StickyNodeView>, n: int) -> Str
    decreases n,
{
    if n <= 0 {
        Seq::empty()
    } else {
        nodes_code(nodes, n - 1) + node_code(nodes[n - 1])
    }
}

/// The names of the submaps of the first `n` states as fields of a table.
pub open spec fn known_code(nodes: Seq<StickyNodeView>, n: int) -> Str
    decreases n,
{
    if n <= 0 {
        Seq::empty()
    } else {
        known_code(nodes, n - 1) + "    ["@ + lua_text(nodes[n - 1].submap) + "] = true,\n"@
    }
}

/// What the script begins with.
pub open spec fn head_code() -> Str {
    "-- Сгенерировано командой `workspaced keys --lua`, не править руками.\n-- Источник: ~/.config/workspaced/config.toml\nlocal function ws_run(cmd)\n  return function()\n    hl.dispatch(hl.dsp.exec_cmd(cmd))\n    hl.dispatch(hl.dsp.submap(\"reset\"))\n  end\nend\n"@
}

/// What closes a submap that was open before the configuration was read again and is no longer in it:
/// without it no combination of the session would work.
pub open spec fn tail_code() -> Str {
    "  }\n  pcall(function()\n    local cur = hl.get_current_submap()\n    if type(cur) == \"string\" and (cur:sub(1, 3) == \"ws:\" or cur:sub(1, 10) == \"ws-sticky:\") and not known[cur] then\n      hl.dispatch(hl.dsp.submap(\"reset\"))\n    end\n  end)\nend\n"@
}

impl ConfigView {
    /// The script of the configuration.
    pub open spec fn script(self) -> Result<Str, Str> {
        match self.collect() {
            Err(e) => Err(e),
            Ok(binds) => match self.chains_fault() {
                Some(e) => Err(e),
                None => match self.sticky_nodes() {
                    Err(e) => Err(e),
                    Ok(nodes) => match direct_from(binds, nodes, 0, head_code(), Seq::empty()) {
                        Err(e) => Err(e),
                        Ok(direct) => Ok(
                            direct + nodes_code(nodes, nodes.len() as int) + "do\n  local known = {\n"@ + known_code(
                                nodes,
                                nodes.len() as int,
                            ) + tail_code(),
                        ),
                    },
                },
            },
        }
    }
}

fn find_root(nodes: &[StickyNode], c: &Combo) -> (r: usize)
    ensures
        r == root_find(views(nodes@), c@, 0),
        r <= nodes.len(),
{
    let mut i: usize = 0;
    while i < nodes.len()
        invariant
            i <= nodes.len(),
            root_find(views(nodes@), c@, 0) == root_find(views(nodes@), c@, i as int),
        decreases nodes.len() - i,
    {
        let n = &nodes[i];
        if n.auto && n.names.len() == 0 && n.prefix.len() > 0 && n.prefix[0].same_key(c) {
            return i;
        }
        i = i + 1;
    }
    i
}

fn direct_lua(binds: &[Binding], nodes: &[StickyNode], head: String) -> (r: Result<String, String>)
    ensures
        crate::chain::rview(r) == direct_from(views(binds@), views(nodes@), 0, head@, Seq::empty()),
{
    let mut out = head;
    let ghost first = out@;
    let mut entered: Vec<Combo> = Vec::new();
    let mut i: usize = 0;
    while i < binds.len()
        invariant
            i <= binds.len(),
            first == head@,
            direct_from(views(binds@), views(nodes@), 0, first, Seq::empty()) == direct_from(
                views(binds@),
                views(nodes@),
                i as int,
                out@,
                views(entered@),
            ),
        decreases binds.len() - i,
    {
        let b = &binds[i];
        if b.chain.len() == 1 {
            let action = action_lua(&b.act, &b.chain, false);
            out.append(bind_lua(&b.chain[0], action.as_str(), &make_fields(&b.flags)).as_str());
        } else if b.chain.len() > 1 {
            let combo = &b.chain[0];
            if find_combo(entered.as_slice(), combo) == entered.len() {
                let k: usize = find_root(nodes, combo);
                if k == nodes.len() {
                    let mut s = "нет режима для цепочки ".to_owned();
                    s.append(quote(chain_compact(&b.chain).as_str()).as_str());
                    return Err(s);
                }
                let none: Vec<String> = Vec::new();
                out.append(bind_lua(combo, submap_lua(nodes[k].submap.as_str()).as_str(), &none).as_str());
                entered.push(combo.dup());
            }
        }
        i = i + 1;
    }
    Ok(out)
}

fn nodes_lua(nodes: &[StickyNode]) -> (r: (String, String))
    ensures
        r.0@ == nodes_code(views(nodes@), nodes@.len() as int),
        r.1@ == known_code(views(nodes@), nodes@.len() as int),
{
    let mut subs = String::new();
    let mut known = String::new();
    let mut i: usize = 0;
    while i < nodes.len()
        invariant
            i <= nodes.len(),
            subs@ == nodes_code(views(nodes@), i as int),
            known@ == known_code(views(nodes@), i as int),
        decreases nodes.len() - i,
    {
        subs.append(emit_sticky(&nodes[i]).as_str());
        known.append("    [");
        known.append(lua_str(nodes[i].submap.as_str()).as_str());
        known.append("] = true,\n");
        i = i + 1;
    }
    (subs, known)
}

/// The script for the compositor: direct bindings of single combinations, entries into modes and the
/// submaps of their states.
pub fn to_lua(cfg: &Config) -> (r: Result<String, String>)
    ensures
        crate::chain::rview(r) == cfg@.script(),
{
    let binds = match collect(cfg) {
        Ok(b) => b,
        Err(e) => return Err(e),
    };
    if let Err(e) = check_chains(cfg) {
        return Err(e);
    }
    let nodes = match sticky_nodes(cfg) {
        Ok(n) => n,
        Err(e) => return Err(e),
    };
    let head = "-- Сгенерировано командой `workspaced keys --lua`, не править руками.\n-- Источник: ~/.config/workspaced/config.toml\nlocal function ws_run(cmd)\n  return function()\n    hl.dispatch(hl.dsp.exec_cmd(cmd))\n    hl.dispatch(hl.dsp.submap(\"reset\"))\n  end\nend\n".to_owned();
    let mut out = match direct_lua(binds.as_slice(), nodes.as_slice(), head) {
        Ok(s) => s,
        Err(e) => return Err(e),
    };
    let (subs, known) = nodes_lua(nodes.as_slice());
    out.append(subs.as_str());
    out.append("do\n  local known = {\n");
    out.append(known.as_str());
    out.append(
        "  }\n  pcall(function()\n    local cur = hl.get_current_submap()\n    if type(cur) == \"string\" and (cur:sub(1, 3) == \"ws:\" or cur:sub(1, 10) == \"ws-sticky:\") and not known[cur] then\n      hl.dispatch(hl.dsp.submap(\"reset\"))\n    end\n  end)\nend\n",
    );
    Ok(out)
}

/// The text that the inside of a literal of the script stands for from `i` on; none where a quote or the end
/// of a line would end the literal, or a backslash says something else.
pub open spec fn literal_from(s: Str, i: int) -> Option<Str>
    decreases s.len() - i,
{
    if i >= s.len() {
        Some(Seq::empty())
    } else if s[i] == '"' || s[i] == '\n' {
        None
    } else if s[i] != '\\' {
        match literal_from(s, i + 1) {
            Some(t) => Some(seq![s[i]] + t),
            None => None,
        }
    } else if i + 1 < s.len() && (s[i + 1] == '\\' || s[i + 1] == '"' || s[i + 1] == 'n') {
        match literal_from(s, i + 2) {
            Some(t) => Some(
                seq![
                    if s[i + 1] == 'n' {
                        '\n'
                    } else {
                        s[i + 1]
                    },
                ] + t,
            ),
            None => None,
        }
    } else {
        None
    }
}

/// A character inside a literal.
pub open spec fn escaped_char(c: char) -> Str {
    if c == '\\' {
        seq!['\\', '\\']
    } else if c == '"' {
        seq!['\\', '"']
    } else if c == '\n' {
        seq!['\\', 'n']
    } else {
        seq![c]
    }
}

/// The inside of the literal of a text.
pub open spec fn inside_of(s: Str) -> Str {
    replaced(replaced(replaced(s, "\\"@, "\\\\"@, 0), "\""@, "\\\""@, 0), "\n"@, "\\n"@, 0)
}

proof fn lemma_inside(s: Str)
    ensures
        s.len() == 0 ==> inside_of(s) == Seq::<char>::empty(),
        s.len() > 0 ==> inside_of(s) == escaped_char(s[0]) + inside_of(s.skip(1)),
{
    reveal_strlit("\\");
    reveal_strlit("\\\\");
    reveal_strlit("\"");
    reveal_strlit("\\\"");
    reveal_strlit("\n");
    reveal_strlit("\\n");
    let (b, bb) = ("\\"@, "\\\\"@);
    let (q, bq) = ("\""@, "\\\""@);
    let (n, bn) = ("\n"@, "\\n"@);
    assert(b =~= seq!['\\'] && bb =~= seq!['\\', '\\']);
    assert(q =~= seq!['"'] && bq =~= seq!['\\', '"']);
    assert(n =~= seq!['\n'] && bn =~= seq!['\\', 'n']);
    if s.len() > 0 {
        let head = seq![s[0]];
        let rest = s.skip(1);
        assert(s =~= head + rest);
        crate::text::lemma_replaced_split(head, rest, '\\', bb);
        let (h1, r1) = (replaced(head, b, bb, 0), replaced(rest, b, bb, 0));
        crate::text::lemma_replaced_split(h1, r1, '"', bq);
        let (h2, r2) = (replaced(h1, q, bq, 0), replaced(r1, q, bq, 0));
        crate::text::lemma_replaced_split(h2, r2, '\n', bn);
        lemma_one(s[0]);
        assert(replaced(h2, n, bn, 0) == inside_of(head));
    }
}

proof fn lemma_one(c: char)
    ensures
        inside_of(seq![c]) == escaped_char(c),
{
    reveal_strlit("\\");
    reveal_strlit("\\\\");
    reveal_strlit("\"");
    reveal_strlit("\\\"");
    reveal_strlit("\n");
    reveal_strlit("\\n");
    let (b, bb) = ("\\"@, "\\\\"@);
    let (q, bq) = ("\""@, "\\\""@);
    let (n, bn) = ("\n"@, "\\n"@);
    assert(b =~= seq!['\\'] && bb =~= seq!['\\'] + seq!['\\']);
    assert(q =~= seq!['"'] && bq =~= seq!['\\'] + seq!['"']);
    assert(n =~= seq!['\n'] && bn =~= seq!['\\'] + seq!['n']);
    crate::text::lemma_replaced_one(c, '\\', bb);
    crate::text::lemma_replaced_one(c, '"', bq);
    crate::text::lemma_replaced_one(c, '\n', bn);
    crate::text::lemma_replaced_one('\\', '"', bq);
    crate::text::lemma_replaced_one('\\', '\n', bn);
    crate::text::lemma_replaced_one('"', '\n', bn);
    if c == '\\' {
        crate::text::lemma_replaced_split(seq!['\\'], seq!['\\'], '"', bq);
        crate::text::lemma_replaced_split(seq!['\\'], seq!['\\'], '\n', bn);
        assert(seq!['\\'] + seq!['\\'] =~= escaped_char(c));
    } else if c == '"' {
        crate::text::lemma_replaced_split(seq!['\\'], seq!['"'], '\n', bn);
        assert(seq!['\\'] + seq!['"'] =~= escaped_char(c));
    } else if c == '\n' {
        assert(bn =~= escaped_char(c));
    }
}

proof fn lemma_literal_shift(a: Str, b: Str, i: int)
    requires
        0 <= i <= b.len(),
    ensures
        literal_from(a + b, a.len() + i) == literal_from(b, i),
    decreases b.len() - i,
{
    if i < b.len() {
        assert((a + b)[a.len() + i] == b[i]);
        lemma_literal_shift(a, b, i + 1);
        if i + 1 < b.len() {
            assert((a + b)[a.len() + i + 1] == b[i + 1]);
            lemma_literal_shift(a, b, i + 2);
        }
    }
}

proof fn lemma_literal(s: Str)
    ensures
        literal_from(inside_of(s), 0) == Some(s),
    decreases s.len(),
{
    lemma_inside(s);
    if s.len() > 0 {
        let rest = s.skip(1);
        lemma_literal(rest);
        let head = escaped_char(s[0]);
        let t = inside_of(rest);
        assert(inside_of(s) == head + t);
        lemma_literal_shift(head, t, 0);
        assert((head + t)[0] == head[0]);
        if head.len() == 2 {
            assert((head + t)[1] == head[1]);
        }
        assert(seq![s[0]] + rest =~= s);
    } else {
        assert(s =~= Seq::empty());
    }
}

/// The literal of a text stands for that text: nothing in the text ends the literal early or is read
/// as something else.
pub proof fn law_literal_stands_for_text(s: Str)
    ensures
        ({
            let all = lua_text(s);
            &&& all.len() >= 2 && all[0] == '"' && all.last() == '"'
            &&& literal_from(all.subrange(1, all.len() - 1), 0) == Some(s)
        }),
{
    lemma_literal(s);
    reveal_strlit("\"");
    let all = lua_text(s);
    assert("\""@ =~= seq!['"']);
    assert(all =~= seq!['"'] + inside_of(s) + seq!['"']);
    assert(all.subrange(1, all.len() - 1) =~= inside_of(s));
}

} // verus!
