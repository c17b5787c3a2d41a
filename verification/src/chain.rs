//! Chains of keys: how they are read, compared and written.
use vstd::prelude::*;

use crate::pattern::{quote, quoted};
use crate::table::{alike_all, dup_all, Alike, Dup};
use crate::text::{
    copy_all, join, joined, less, lower, pieces, same, split, split_words, str_lt, to_lower, to_upper, trim, trimmed,
    upper, views, words, Str,
};

verus! {

broadcast use crate::text::group_views;

/// One combination: modifiers in a fixed order, the key as written.
#[derive(Debug, PartialEq, Eq, PartialOrd, Ord, Hash)]
pub struct Combo {
    pub mods: Vec<String>,
    pub key: String,
}

/// What a combination says.
pub struct ComboView {
    pub mods: Seq<Str>,
    pub key: Str,
}

impl View for Combo {
    type V = ComboView;

    open spec fn view(&self) -> ComboView {
        ComboView { mods: views(self.mods@), key: self.key@ }
    }
}

impl Dup for Combo {
    fn dup(&self) -> (r: Self) {
        Combo { mods: copy_all(self.mods.as_slice()), key: self.key.clone() }
    }
}

impl Alike for Combo {
    fn alike(&self, other: &Self) -> (r: bool) {
        alike_all(self.mods.as_slice(), other.mods.as_slice()) && same(self.key.as_str(), other.key.as_str())
    }
}

impl ComboView {
    /// The modifiers and the key.
    pub open spec fn parts(self) -> Seq<Str> {
        self.mods.push(self.key)
    }

    /// The combination in a script: `SUPER + SHIFT + left`.
    pub open spec fn lua(self) -> Str {
        joined(self.parts(), " + "@)
    }

    /// The combination in a list: `SUPER+SHIFT+left`.
    pub open spec fn compact(self) -> Str {
        joined(self.parts(), "+"@)
    }

    /// What two combinations are compared by: the compositor does not tell small and capital letters of
    /// a key apart.
    pub open spec fn match_key(self) -> (Seq<Str>, Str) {
        (self.mods, lower(self.key))
    }
}

impl Combo {
    fn parts(&self) -> (r: Vec<String>)
        ensures
            views(r@) == self@.parts(),
    {
        let mut v = copy_all(self.mods.as_slice());
        v.push(self.key.clone());
        v
    }

    /// The combination in a script: `SUPER + SHIFT + left`.
    pub fn lua(&self) -> (r: String)
        ensures
            r@ == self@.lua(),
    {
        join(self.parts().as_slice(), " + ")
    }

    /// The combination in a list: `SUPER+SHIFT+left`.
    pub fn compact(&self) -> (r: String)
        ensures
            r@ == self@.compact(),
    {
        join(self.parts().as_slice(), "+")
    }

    /// The combination means the same as another one.
    pub fn same_key(&self, other: &Combo) -> (r: bool)
        ensures
            r == (self@.match_key() == other@.match_key()),
    {
        alike_all(self.mods.as_slice(), other.mods.as_slice()) && same(
            to_lower(self.key.as_str()).as_str(),
            to_lower(other.key.as_str()).as_str(),
        )
    }
}

/// A chain that was read.
pub type Chain = Vec<Combo>;

/// The place of a modifier among the others.
pub open spec fn mod_rank(m: Str) -> int {
    if m == "SUPER"@ {
        0
    } else if m == "CTRL"@ || m == "CONTROL"@ {
        1
    } else if m == "ALT"@ {
        2
    } else if m == "SHIFT"@ {
        3
    } else {
        4
    }
}

fn rank(m: &str) -> (r: u8)
    ensures
        r == mod_rank(m@),
{
    if same(m, "SUPER") {
        0
    } else if same(m, "CTRL") || same(m, "CONTROL") {
        1
    } else if same(m, "ALT") {
        2
    } else if same(m, "SHIFT") {
        3
    } else {
        4
    }
}

/// One modifier stands before another: by its place, then by its name.
pub open spec fn mod_lt(a: Str, b: Str) -> bool {
    mod_rank(a) < mod_rank(b) || (mod_rank(a) == mod_rank(b) && str_lt(a, b))
}

fn mod_less(a: &str, b: &str) -> (r: bool)
    ensures
        r == mod_lt(a@, b@),
{
    let x: u8 = rank(a);
    let y: u8 = rank(b);
    x < y || (x == y && less(a, b))
}

/// Where a modifier belongs among ordered ones, looked for from `i` on.
pub open spec fn mod_place(s: Seq<Str>, m: Str, i: int) -> int
    decreases s.len() - i,
{
    if i < s.len() && mod_lt(s[i], m) {
        mod_place(s, m, i + 1)
    } else {
        i
    }
}

/// Ordered modifiers with one more, where it is not among them yet.
pub open spec fn mods_put(s: Seq<Str>, m: Str) -> Seq<Str> {
    let i = mod_place(s, m, 0);
    if 0 <= i < s.len() && s[i] == m {
        s
    } else {
        s.insert(i, m)
    }
}

/// The first `n` modifiers in capital letters, in order, each once.
pub open spec fn mods_upto(s: Seq<Str>, n: int) -> Seq<Str>
    decreases n,
{
    if n <= 0 {
        Seq::empty()
    } else {
        mods_put(mods_upto(s, n - 1), upper(s[n - 1]))
    }
}

fn put_mod(v: &mut Vec<String>, m: String)
    ensures
        views(final(v)@) == mods_put(views(old(v)@), m@),
{
    let ghost s = views(v@);
    let mut i: usize = 0;
    while i < v.len() && mod_less(v[i].as_str(), m.as_str())
        invariant
            i <= v.len(),
            s == views(v@),
            v@ == old(v)@,
            mod_place(s, m@, 0) == mod_place(s, m@, i as int),
        decreases v.len() - i,
    {
        i = i + 1;
    }
    if i < v.len() && same(v[i].as_str(), m.as_str()) {
        return ;
    }
    v.insert(i, m);
    proof {
        assert(views(v@) =~= s.insert(i as int, m@));
    }
}

/// The first `n` texts without white space at their ends, those left empty out.
pub open spec fn parts_upto(s: Seq<Str>, n: int) -> Seq<Str>
    decreases n,
{
    if n <= 0 {
        Seq::empty()
    } else if trimmed(s[n - 1]).len() == 0 {
        parts_upto(s, n - 1)
    } else {
        parts_upto(s, n - 1).push(trimmed(s[n - 1]))
    }
}

/// The parts of a combination: what stands between the plus signs, without what is empty.
pub open spec fn combo_parts(s: Str) -> Seq<Str> {
    let p = pieces(s, '+', 0);
    parts_upto(p, p.len() as int)
}

/// The combination that a text writes down: the last part is the key, the others are modifiers.
pub open spec fn combo_of(s: Str) -> Result<ComboView, Str> {
    let p = combo_parts(s);
    if p.len() == 0 {
        Err("пустое сочетание "@ + quoted(s))
    } else {
        Ok(ComboView { mods: mods_upto(p, p.len() - 1), key: p[p.len() - 1] })
    }
}

/// What a function returned, over views.
pub open spec fn rview<T: View>(r: Result<T, String>) -> Result<T::V, Str> {
    match r {
        Ok(t) => Ok(t@),
        Err(e) => Err(e@),
    }
}

/// What a function returned a list of, over views.
pub open spec fn rviews<T: View>(r: Result<Vec<T>, String>) -> Result<Seq<T::V>, Str> {
    match r {
        Ok(t) => Ok(views(t@)),
        Err(e) => Err(e@),
    }
}

/// Read a combination: `shift+super+E` has the modifiers SUPER, SHIFT and the key E.
pub fn parse_combo(s: &str) -> (r: Result<Combo, String>)
    ensures
        rview(r) == combo_of(s@),
{
    let raw = split(s, '+');
    let ghost p = pieces(s@, '+', 0);
    let mut parts: Vec<String> = Vec::new();
    let mut i: usize = 0;
    while i < raw.len()
        invariant
            i <= raw.len(),
            p == views(raw@),
            views(parts@) == parts_upto(p, i as int),
        decreases raw.len() - i,
    {
        let t = trim(raw[i].as_str());
        if !t.is_empty() {
            parts.push(t.to_owned());
        }
        i = i + 1;
    }
    let n: usize = parts.len();
    if n == 0 {
        let mut e = "пустое сочетание ".to_owned();
        e.append(quote(s).as_str());
        return Err(e);
    }
    let mut mods: Vec<String> = Vec::new();
    let mut k: usize = 0;
    while k < n - 1
        invariant
            k <= n - 1,
            n == parts.len(),
            views(mods@) == mods_upto(views(parts@), k as int),
        decreases n - k,
    {
        put_mod(&mut mods, to_upper(parts[k].as_str()));
        k = k + 1;
    }
    Ok(Combo { mods, key: parts[n - 1].clone() })
}

/// The combinations of the words from `i` on, after those already read.
pub open spec fn combos_from(w: Seq<Str>, i: int, acc: Seq<ComboView>) -> Result<Seq<ComboView>, Str>
    decreases w.len() - i,
{
    if i >= w.len() {
        Ok(acc)
    } else {
        match combo_of(w[i]) {
            Ok(c) => combos_from(w, i + 1, acc.push(c)),
            Err(e) => Err(e),
        }
    }
}

/// The chain that a text writes down: the combinations between white space.
pub open spec fn chain_of(s: Str) -> Result<Seq<ComboView>, Str> {
    match combos_from(words(s, 0), 0, Seq::empty()) {
        Ok(c) => if c.len() == 0 {
            Err("пустая цепочка "@ + quoted(s))
        } else {
            Ok(c)
        },
        Err(e) => Err(e),
    }
}

/// Read a chain: `SUPER+W 3 f` has three combinations.
pub fn parse_chain(s: &str) -> (r: Result<Chain, String>)
    ensures
        rviews(r) == chain_of(s@),
        r matches Ok(c) ==> c.len() > 0,
{
    let w = split_words(s);
    let mut out: Vec<Combo> = Vec::new();
    let mut i: usize = 0;
    while i < w.len()
        invariant
            i <= w.len(),
            views(w@) == words(s@, 0),
            combos_from(words(s@, 0), 0, Seq::empty()) == combos_from(words(s@, 0), i as int, views(out@)),
        decreases w.len() - i,
    {
        match parse_combo(w[i].as_str()) {
            Ok(c) => {
                out.push(c);
            },
            Err(e) => {
                return Err(e);
            },
        }
        i = i + 1;
    }
    if out.len() == 0 {
        let mut e = "пустая цепочка ".to_owned();
        e.append(quote(s).as_str());
        return Err(e);
    }
    Ok(out)
}

/// What chains are compared by.
pub type ChainKey = Vec<(Vec<String>, String)>;

/// What chains are compared by.
pub open spec fn key_of(c: Seq<ComboView>) -> Seq<(Seq<Str>, Str)> {
    c.map_values(|x: ComboView| x.match_key())
}

/// What chains are compared by.
pub fn chain_key(chain: &Chain) -> (r: ChainKey)
    ensures
        r@.map_values(|e: (Vec<String>, String)| (views(e.0@), e.1@)) == key_of(views(chain@)),
{
    let mut out: ChainKey = Vec::new();
    let mut i: usize = 0;
    while i < chain.len()
        invariant
            i <= chain.len(),
            out.len() == i,
            forall|k: int|
                0 <= k < i ==> (views((#[trigger] out@[k]).0@), out@[k].1@) == views(chain@)[k].match_key(),
        decreases chain.len() - i,
    {
        out.push((copy_all(chain[i].mods.as_slice()), to_lower(chain[i].key.as_str())));
        i = i + 1;
    }
    proof {
        assert(out@.map_values(|e: (Vec<String>, String)| (views(e.0@), e.1@)) =~= key_of(views(chain@)));
    }
    out
}

/// Two chains that were read mean the same.
pub fn same_keys(a: &Chain, b: &Chain) -> (r: bool)
    ensures
        r == (key_of(views(a@)) == key_of(views(b@))),
{
    let ghost x = key_of(views(a@));
    let ghost y = key_of(views(b@));
    if a.len() != b.len() {
        assert(x.len() != y.len());
        return false;
    }
    let mut i: usize = 0;
    while i < a.len()
        invariant
            i <= a.len(),
            a.len() == b.len(),
            x == key_of(views(a@)),
            y == key_of(views(b@)),
            forall|k: int| 0 <= k < i ==> #[trigger] x[k] == y[k],
        decreases a.len() - i,
    {
        if !a[i].same_key(&b[i]) {
            assert(x[i as int] != y[i as int]);
            return false;
        }
        i = i + 1;
    }
    assert(x =~= y);
    true
}

/// Two texts write down the same chain; a text with a fault means no chain.
pub open spec fn same_chain_of(a: Str, b: Str) -> bool {
    match (chain_of(a), chain_of(b)) {
        (Ok(x), Ok(y)) => key_of(x) == key_of(y),
        _ => false,
    }
}

/// Two texts write down the same chain; a text with a fault means no chain.
pub fn same_chain(a: &str, b: &str) -> (r: bool)
    ensures
        r == same_chain_of(a@, b@),
{
    match (parse_chain(a), parse_chain(b)) {
        (Ok(x), Ok(y)) => same_keys(&x, &y),
        _ => false,
    }
}

/// A chain in a list: its combinations with spaces between them.
pub open spec fn compact_of(c: Seq<ComboView>) -> Str {
    joined(c.map_values(|x: ComboView| x.compact()), " "@)
}

/// A chain in a list: its combinations with spaces between them.
pub fn chain_compact(chain: &Chain) -> (r: String)
    ensures
        r@ == compact_of(views(chain@)),
{
    let mut v: Vec<String> = Vec::new();
    let mut i: usize = 0;
    let ghost t = views(chain@).map_values(|x: ComboView| x.compact());
    while i < chain.len()
        invariant
            i <= chain.len(),
            t == views(chain@).map_values(|x: ComboView| x.compact()),
            views(v@) == t.take(i as int),
        decreases chain.len() - i,
    {
        v.push(chain[i].compact());
        proof {
            assert(t.take(i + 1) =~= t.take(i as int).push(t[i as int]));
        }
        i = i + 1;
    }
    proof {
        assert(t.take(i as int) =~= t);
    }
    join(v.as_slice(), " ")
}

/// A copy of a chain.
pub fn copy_chain(chain: &Chain) -> (r: Chain)
    ensures
        views(r@) == views(chain@),
{
    dup_all(chain.as_slice())
}

// ---- Order --------------------------------------------------------------------

/// The order of lists of texts: by the first in which they differ, a prefix first.
pub open spec fn list_lt(a: Seq<Str>, b: Seq<Str>) -> bool
    decreases a.len(),
{
    if b.len() == 0 {
        false
    } else if a.len() == 0 {
        true
    } else if a[0] != b[0] {
        str_lt(a[0], b[0])
    } else {
        list_lt(a.skip(1), b.skip(1))
    }
}

fn list_less(a: &[String], b: &[String]) -> (r: bool)
    ensures
        r == list_lt(views(a@), views(b@)),
{
    let ghost x = views(a@);
    let ghost y = views(b@);
    let mut i: usize = 0;
    proof {
        assert(x.skip(0) =~= x);
        assert(y.skip(0) =~= y);
    }
    loop
        invariant
            i <= a.len(),
            i <= b.len(),
            x == views(a@),
            y == views(b@),
            list_lt(x, y) == list_lt(x.skip(i as int), y.skip(i as int)),
        decreases a.len() - i,
    {
        if i == b.len() {
            return false;
        }
        if i == a.len() {
            return true;
        }
        if !same(a[i].as_str(), b[i].as_str()) {
            return less(a[i].as_str(), b[i].as_str());
        }
        proof {
            assert(x.skip(i as int).skip(1) =~= x.skip(i + 1));
            assert(y.skip(i as int).skip(1) =~= y.skip(i + 1));
        }
        i = i + 1;
    }
}

/// The order of combinations: by the modifiers, then by the key.
pub open spec fn combo_lt(a: ComboView, b: ComboView) -> bool {
    if a.mods != b.mods {
        list_lt(a.mods, b.mods)
    } else {
        str_lt(a.key, b.key)
    }
}

fn combo_less(a: &Combo, b: &Combo) -> (r: bool)
    ensures
        r == combo_lt(a@, b@),
{
    if !alike_all(a.mods.as_slice(), b.mods.as_slice()) {
        list_less(a.mods.as_slice(), b.mods.as_slice())
    } else {
        less(a.key.as_str(), b.key.as_str())
    }
}

/// The order of chains: by the first combination in which they differ, a prefix first.
pub open spec fn chain_lt(a: Seq<ComboView>, b: Seq<ComboView>) -> bool
    decreases a.len(),
{
    if b.len() == 0 {
        false
    } else if a.len() == 0 {
        true
    } else if a[0] != b[0] {
        combo_lt(a[0], b[0])
    } else {
        chain_lt(a.skip(1), b.skip(1))
    }
}

/// A chain stands before another one.
pub fn chain_less(a: &Chain, b: &Chain) -> (r: bool)
    ensures
        r == chain_lt(views(a@), views(b@)),
{
    let ghost x = views(a@);
    let ghost y = views(b@);
    let mut i: usize = 0;
    proof {
        assert(x.skip(0) =~= x);
        assert(y.skip(0) =~= y);
    }
    loop
        invariant
            i <= a.len(),
            i <= b.len(),
            x == views(a@),
            y == views(b@),
            chain_lt(x, y) == chain_lt(x.skip(i as int), y.skip(i as int)),
        decreases a.len() - i,
    {
        if i == b.len() {
            return false;
        }
        if i == a.len() {
            return true;
        }
        if !a[i].alike(&b[i]) {
            return combo_less(&a[i], &b[i]);
        }
        proof {
            assert(x.skip(i as int).skip(1) =~= x.skip(i + 1));
            assert(y.skip(i as int).skip(1) =~= y.skip(i + 1));
        }
        i = i + 1;
    }
}

// ---- Laws ---------------------------------------------------------------------

/// Whether two texts mean the same chain does not depend on which comes first.
pub proof fn law_same_chain_symmetric(a: Str, b: Str)
    ensures
        same_chain_of(a, b) == same_chain_of(b, a),
{
}

/// Texts that both mean the same chain as a third one mean the same chain.
pub proof fn law_same_chain_transitive(a: Str, b: Str, c: Str)
    requires
        same_chain_of(a, b),
        same_chain_of(b, c),
    ensures
        same_chain_of(a, c),
{
}

} // verus!
