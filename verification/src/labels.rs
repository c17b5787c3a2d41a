//! Keys as a reader sees them: `Ctrl+Super+S`.
use vstd::prelude::*;

use crate::chain::{Chain, Combo, ComboView};
use crate::text::{capitals, has_prefix, join, joined, lower, same, strip, to_lower, to_uppercase, views, Str};

verus! {

broadcast use crate::text::group_views;

/// The usual name of a key that has one; the letters are small.
pub open spec fn key_name(k: Str) -> Option<Str> {
    if k == "slash"@ {
        Some("/"@)
    } else if k == "question"@ {
        Some("?"@)
    } else if k == "period"@ {
        Some("."@)
    } else if k == "comma"@ {
        Some(","@)
    } else if k == "minus"@ {
        Some("-"@)
    } else if k == "equal"@ {
        Some("="@)
    } else if k == "space"@ {
        Some("Пробел"@)
    } else if k == "return"@ {
        Some("Enter"@)
    } else if k == "backspace"@ {
        Some("Backspace"@)
    } else if k == "page_up"@ {
        Some("PageUp"@)
    } else if k == "page_down"@ {
        Some("PageDown"@)
    } else if k == "left"@ {
        Some("←"@)
    } else if k == "right"@ {
        Some("→"@)
    } else if k == "up"@ {
        Some("↑"@)
    } else if k == "down"@ {
        Some("↓"@)
    } else if k == "mouse:272"@ {
        Some("ЛКМ"@)
    } else if k == "mouse:273"@ {
        Some("ПКМ"@)
    } else if k == "mouse:274"@ {
        Some("СКМ"@)
    } else if k == "tab"@ {
        Some("Tab"@)
    } else if k == "escape"@ {
        Some("Escape"@)
    } else if k == "delete"@ {
        Some("Delete"@)
    } else if k == "insert"@ {
        Some("Insert"@)
    } else if k == "home"@ {
        Some("Home"@)
    } else if k == "end"@ {
        Some("End"@)
    } else if k == "print"@ {
        Some("Print"@)
    } else if k == "menu"@ {
        Some("Menu"@)
    } else {
        None
    }
}

fn name_of_key(k: &str) -> (r: Option<&'static str>)
    ensures
        crate::text::oview(r) == key_name(k@),
        r is Some == key_name(k@) is Some,
{
    if same(k, "slash") {
        Some("/")
    } else if same(k, "question") {
        Some("?")
    } else if same(k, "period") {
        Some(".")
    } else if same(k, "comma") {
        Some(",")
    } else if same(k, "minus") {
        Some("-")
    } else if same(k, "equal") {
        Some("=")
    } else if same(k, "space") {
        Some("Пробел")
    } else if same(k, "return") {
        Some("Enter")
    } else if same(k, "backspace") {
        Some("Backspace")
    } else if same(k, "page_up") {
        Some("PageUp")
    } else if same(k, "page_down") {
        Some("PageDown")
    } else if same(k, "left") {
        Some("←")
    } else if same(k, "right") {
        Some("→")
    } else if same(k, "up") {
        Some("↑")
    } else if same(k, "down") {
        Some("↓")
    } else if same(k, "mouse:272") {
        Some("ЛКМ")
    } else if same(k, "mouse:273") {
        Some("ПКМ")
    } else if same(k, "mouse:274") {
        Some("СКМ")
    } else if same(k, "tab") {
        Some("Tab")
    } else if same(k, "escape") {
        Some("Escape")
    } else if same(k, "delete") {
        Some("Delete")
    } else if same(k, "insert") {
        Some("Insert")
    } else if same(k, "home") {
        Some("Home")
    } else if same(k, "end") {
        Some("End")
    } else if same(k, "print") {
        Some("Print")
    } else if same(k, "menu") {
        Some("Menu")
    } else {
        None
    }
}

/// The label of a key: its usual name, what follows `XF86`, a single letter in capitals where
/// modifiers stand before it, else the key as written.
pub open spec fn key_label_of(key: Str, with_mods: bool) -> Str {
    match key_name(lower(key)) {
        Some(n) => n,
        None => if has_prefix(key, "XF86"@) {
            key.skip("XF86"@.len() as int)
        } else if key.len() == 1 && with_mods {
            capitals(key)
        } else {
            key
        },
    }
}

/// The label of a key.
pub fn key_label(key: &str, with_mods: bool) -> (r: String)
    ensures
        r@ == key_label_of(key@, with_mods),
{
    if let Some(n) = name_of_key(to_lower(key).as_str()) {
        return n.to_owned();
    }
    if let Some(rest) = strip(key, "XF86") {
        return rest.to_owned();
    }
    if key.unicode_len() == 1 && with_mods {
        return to_uppercase(key);
    }
    key.to_owned()
}

/// The place of a modifier in a label: Ctrl, Alt, Shift, Super, others.
pub open spec fn label_rank(m: Str) -> int {
    if m == "CTRL"@ || m == "CONTROL"@ {
        0
    } else if m == "ALT"@ {
        1
    } else if m == "SHIFT"@ {
        2
    } else if m == "SUPER"@ {
        3
    } else {
        4
    }
}

fn rank(m: &str) -> (r: u8)
    ensures
        r == label_rank(m@),
{
    if same(m, "CTRL") || same(m, "CONTROL") {
        0
    } else if same(m, "ALT") {
        1
    } else if same(m, "SHIFT") {
        2
    } else if same(m, "SUPER") {
        3
    } else {
        4
    }
}

/// The label of a modifier.
pub open spec fn mod_label_of(m: Str) -> Str {
    if m == "CTRL"@ || m == "CONTROL"@ {
        "Ctrl"@
    } else if m == "ALT"@ {
        "Alt"@
    } else if m == "SHIFT"@ {
        "Shift"@
    } else if m == "SUPER"@ {
        "Super"@
    } else {
        m
    }
}

fn mod_label(m: &str) -> (r: String)
    ensures
        r@ == mod_label_of(m@),
{
    if same(m, "CTRL") || same(m, "CONTROL") {
        "Ctrl".to_owned()
    } else if same(m, "ALT") {
        "Alt".to_owned()
    } else if same(m, "SHIFT") {
        "Shift".to_owned()
    } else if same(m, "SUPER") {
        "Super".to_owned()
    } else {
        m.to_owned()
    }
}

/// Where a modifier belongs among ordered ones, after those of the same place.
pub open spec fn label_place(s: Seq<Str>, m: Str, i: int) -> int
    decreases s.len() - i,
{
    if i < s.len() && label_rank(s[i]) <= label_rank(m) {
        label_place(s, m, i + 1)
    } else {
        i
    }
}

/// The first `n` modifiers in the order of labels.
pub open spec fn label_order(s: Seq<Str>, n: int) -> Seq<Str>
    decreases n,
{
    if n <= 0 {
        Seq::empty()
    } else {
        let t = label_order(s, n - 1);
        t.insert(label_place(t, s[n - 1], 0), s[n - 1])
    }
}

/// The label of a combination.
pub open spec fn combo_label_of(c: ComboView) -> Str {
    joined(
        label_order(c.mods, c.mods.len() as int).map_values(|m: Str| mod_label_of(m)).push(
            key_label_of(c.key, c.mods.len() > 0),
        ),
        "+"@,
    )
}

/// The label of a combination: modifiers in the order Ctrl, Alt, Shift, Super, then the key.
pub fn combo_label(c: &Combo) -> (r: String)
    ensures
        r@ == combo_label_of(c@),
{
    let mut order: Vec<String> = Vec::new();
    let n: usize = c.mods.len();
    let mut i: usize = 0;
    while i < n
        invariant
            i <= n,
            n == c.mods.len(),
            views(order@) == label_order(c@.mods, i as int),
        decreases n - i,
    {
        let ghost t = views(order@);
        let mut k: usize = 0;
        while k < order.len() && rank(order[k].as_str()) <= rank(c.mods[i].as_str())
            invariant
                k <= order.len(),
                i < n,
                n == c.mods.len(),
                t == views(order@),
                label_place(t, c@.mods[i as int], 0) == label_place(t, c@.mods[i as int], k as int),
            decreases order.len() - k,
        {
            k = k + 1;
        }
        order.insert(k, c.mods[i].clone());
        proof {
            assert(views(order@) =~= t.insert(k as int, c@.mods[i as int]));
        }
        i = i + 1;
    }
    let ghost t = views(order@).map_values(|m: Str| mod_label_of(m));
    let mut parts: Vec<String> = Vec::new();
    let mut j: usize = 0;
    while j < order.len()
        invariant
            j <= order.len(),
            t == views(order@).map_values(|m: Str| mod_label_of(m)),
            views(parts@) == t.take(j as int),
        decreases order.len() - j,
    {
        parts.push(mod_label(order[j].as_str()));
        proof {
            assert(t.take(j + 1) =~= t.take(j as int).push(t[j as int]));
        }
        j = j + 1;
    }
    proof {
        assert(t.take(j as int) =~= t);
    }
    parts.push(key_label(c.key.as_str(), n > 0));
    join(parts.as_slice(), "+")
}

/// The label of a chain.
pub open spec fn chain_label_of(c: Seq<ComboView>) -> Str {
    joined(c.map_values(|x: ComboView| combo_label_of(x)), " "@)
}

/// The label of a chain.
pub fn chain_label(chain: &Chain) -> (r: String)
    ensures
        r@ == chain_label_of(views(chain@)),
{
    let ghost t = views(chain@).map_values(|x: ComboView| combo_label_of(x));
    let mut v: Vec<String> = Vec::new();
    let mut i: usize = 0;
    while i < chain.len()
        invariant
            i <= chain.len(),
            t == views(chain@).map_values(|x: ComboView| combo_label_of(x)),
            views(v@) == t.take(i as int),
        decreases chain.len() - i,
    {
        v.push(combo_label(&chain[i]));
        proof {
            assert(t.take(i + 1) =~= t.take(i as int).push(t[i as int]));
        }
        i = i + 1;
    }
    proof {
        assert(t.take(i as int) =~= t);
    }
    join(v.as_slice(), " ")
}

} // verus!
