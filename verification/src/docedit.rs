//! Editing the text of a configuration file in place: comments and order stay as far as `toml_edit` keeps them.
use vstd::prelude::*;

use crate::text::{views, Str};

verus! {

broadcast use crate::text::group_views;

// ---- What a document holds ------------------------------------------------------

/// What stands at a path of a document.
pub enum Part {
    /// A table, with a header or with dotted keys.
    Table,
    /// An inline table, `{ .. }`.
    Inline,
    /// A text.
    Text(Str),
    /// An integer.
    Number(i64),
    /// A list of texts.
    List(Seq<Str>),
    /// Anything else: a value of another kind, an array of tables, an empty item.
    Other,
}

/// The parts of a document or of an item, by their paths from it on. Tables and inline tables have parts of
/// their own.
pub type Parts = Map<Seq<Str>, Part>;

/// What stands before keys and headers, comments among it, by the paths: before the key of a value that stands
/// in a table, before the header of a table.
pub type Notes = Map<Seq<Str>, Str>;

/// Which tables are written with dotted keys, `a.b = ..`, by their paths.
pub type Dots = Map<Seq<Str>, ()>;

/// The parts of an item (`toml_edit::Item`): its tree, whatever its formatting.
pub uninterp spec fn item_parts(t: toml_edit::Item) -> Map<Seq<Seq<char>>, Part>;

/// What stands before the keys and headers of an item (`toml_edit::Item`): of each value in a table the prefix
/// of the decor of its key, of each table that is not dotted the prefix of its own decor, where they are set,
/// without carriage returns: a document is printed without them.
pub uninterp spec fn item_notes(t: toml_edit::Item) -> Map<Seq<Seq<char>>, Seq<char>>;

/// The tables of an item (`toml_edit::Item`) that are dotted (`toml_edit::Table::is_dotted`), the item itself and
/// those that stand in tables.
pub uninterp spec fn item_dots(t: toml_edit::Item) -> Map<Seq<Seq<char>>, ()>;

/// An item that can come from the functions here that make items, and from `set_item` and `insert_item` on such
/// items: it has no formatting of its own.
pub uninterp spec fn item_fresh(t: toml_edit::Item) -> bool;

/// The second item can come from the first by `entry_item`, `set_item` and `insert_item`, on it or at most `n`
/// tables below it, with nothing put there that is deeper than `deepest`, and with no dotted table on the way
/// but in dotted tables.
pub uninterp spec fn item_edited(a: toml_edit::Item, b: toml_edit::Item, n: nat) -> bool;

/// The same, but for the item at the root, in which dotted tables may stand.
pub uninterp spec fn root_edited(a: toml_edit::Item, b: toml_edit::Item, n: nat) -> bool;

/// The parts of a document (`toml_edit::DocumentMut`): those of the item at its root.
pub uninterp spec fn document_parts(d: toml_edit::DocumentMut) -> Map<Seq<Seq<char>>, Part>;

/// What stands before the keys and headers of a document (`toml_edit::DocumentMut`).
pub uninterp spec fn document_notes(d: toml_edit::DocumentMut) -> Map<Seq<Seq<char>>, Seq<char>>;

/// The dotted tables of a document (`toml_edit::DocumentMut`).
pub uninterp spec fn document_dots(d: toml_edit::DocumentMut) -> Map<Seq<Seq<char>>, ()>;

/// A document that can come from reading a text and from edits of its root as `root_edited` has them, at most
/// `deepest` tables below it.
pub uninterp spec fn document_kept(d: toml_edit::DocumentMut) -> bool;

/// The text of a document (`toml_edit::DocumentMut::to_string`).
pub uninterp spec fn document_text(d: toml_edit::DocumentMut) -> Seq<char>;

/// The parts that a text reads as, what stands before its keys and headers, and its dotted tables; or the fault
/// of the text (`toml_edit::DocumentMut::from_str`).
pub uninterp spec fn toml_read(text: Seq<char>) -> Result<
    (Map<Seq<Seq<char>>, Part>, Map<Seq<Seq<char>>, Seq<char>>, Map<Seq<Seq<char>>, ()>),
    Seq<char>,
>;

/// `toml_edit::Item`: a part of a document.
#[verifier::external_type_specification]
#[verifier::external_body]
pub struct ExItem(toml_edit::Item);

/// `toml_edit::DocumentMut`: a document that can be edited.
#[verifier::external_type_specification]
#[verifier::external_body]
pub struct ExDocumentMut(toml_edit::DocumentMut);

/// One part alone.
pub open spec fn only(p: Part) -> Parts {
    Map::empty().insert(Seq::empty(), p)
}

/// What stands under a key.
pub open spec fn sub_map<V>(m: Map<Seq<Str>, V>, k: Str) -> Map<Seq<Str>, V> {
    Map::new(|p: Seq<Str>| m.contains_key(seq![k] + p), |p: Seq<Str>| m[seq![k] + p])
}

/// The map with what stands under a key replaced.
pub open spec fn with_sub<V>(m: Map<Seq<Str>, V>, k: Str, c: Map<Seq<Str>, V>) -> Map<Seq<Str>, V> {
    Map::new(
        |p: Seq<Str>|
            if p.len() > 0 && p[0] == k {
                c.contains_key(p.skip(1))
            } else {
                m.contains_key(p)
            },
        |p: Seq<Str>|
            if p.len() > 0 && p[0] == k {
                c[p.skip(1)]
            } else {
                m[p]
            },
    )
}

/// How deep edits go here. `toml_edit` reads no text whose headers or values are more than 80 deep.
pub open spec fn deepest() -> nat {
    32
}

/// No part is deeper than this.
pub open spec fn within(m: Parts, n: nat) -> bool {
    forall|q: Seq<Str>| #[trigger] m.contains_key(q) ==> q.len() <= n
}

/// The item itself is of a kind.
pub open spec fn is_part(m: Parts, p: Part) -> bool {
    m.contains_key(Seq::empty()) && m[Seq::empty()] == p
}

/// A table stands at the path.
pub open spec fn table_at(m: Parts, q: Seq<Str>) -> bool {
    m.contains_key(q) && m[q] == Part::Table
}

/// The item itself is a value.
pub open spec fn is_value(m: Parts) -> bool {
    m.contains_key(Seq::empty()) && match m[Seq::empty()] {
        Part::Inline => true,
        Part::Text(_) => true,
        Part::Number(_) => true,
        Part::List(_) => true,
        _ => false,
    }
}

/// The item itself is a dotted table.
pub open spec fn is_dotted(t: toml_edit::Item) -> bool {
    item_dots(t).contains_key(Seq::empty())
}

/// It is a tree: what stands under a name stands in a table or an inline table.
pub open spec fn is_tree(m: Parts) -> bool {
    &&& m.contains_key(Seq::empty())
    &&& forall|p: Seq<Str>| #[trigger]
        m.contains_key(p) && p.len() > 0 ==> {
            let q = p.drop_last();
            m.contains_key(q) && (m[q] == Part::Table || m[q] == Part::Inline)
        }
}

/// All that stands before keys and headers in the first stands so in the second.
pub open spec fn notes_stay(a: Notes, b: Notes) -> bool {
    forall|q: Seq<Str>| #[trigger] a.contains_key(q) ==> b.contains_key(q) && b[q] == a[q]
}

/// The text reads as these parts, and these notes stand in it.
pub open spec fn reads_as(text: Str, m: Parts, k: Notes) -> bool {
    toml_read(text) matches Ok((n, l, _)) && n == m && notes_stay(k, l)
}

/// The text is that of a document with these parts, and these notes stand in it.
pub open spec fn prints_as(text: Str, m: Parts, k: Notes) -> bool {
    exists|d: toml_edit::DocumentMut| #[trigger]
        document_text(d) == text && document_parts(d) == m && notes_stay(k, document_notes(d))
}

// ---- Calls of `toml_edit` ---------------------------------------------------------

/// `toml_edit::DocumentMut::from_str`. The same text always gives the same parts, notes and dotted tables, or
/// the same fault. A document that was read is a tree with a table at its root.
#[verifier::external_body]
pub(crate) fn read_document(text: &str) -> (r: Result<toml_edit::DocumentMut, String>)
    ensures
        match r {
            Ok(d) => {
                &&& toml_read(text@) matches Ok((m, k, s)) && m == document_parts(d) && k == document_notes(d) && s
                    == document_dots(d)
                &&& is_tree(document_parts(d))
                &&& is_part(document_parts(d), Part::Table)
                &&& document_kept(d)
            },
            Err(e) => toml_read(text@) matches Err(f) && f == e@,
        },
{
    text.parse::<toml_edit::DocumentMut>().map_err(|e| e.to_string())
}

/// `toml_edit::DocumentMut::to_string`, which needs a table at the root. The text of a document that was read and
/// edited here reads as its parts, and what stands before its keys and headers stands so in the text. Nothing
/// is said of a document that was edited in a dotted table that stands in a table with a header: a new header
/// can then come before the dotted keys, and such a text does not read.
#[verifier::external_body]
pub(crate) fn print_document(d: &toml_edit::DocumentMut) -> (r: String)
    requires
        is_part(document_parts(*d), Part::Table),
    ensures
        r@ == document_text(*d),
        document_kept(*d) ==> reads_as(r@, document_parts(*d), document_notes(*d)),
{
    d.to_string()
}

/// `toml_edit::DocumentMut::as_item_mut`: the item at the root. What becomes of the item becomes of the document.
#[verifier::external_body]
fn root_item(d: &mut toml_edit::DocumentMut) -> (r: &mut toml_edit::Item)
    ensures
        item_parts(*r) == document_parts(*old(d)),
        item_notes(*r) == document_notes(*old(d)),
        document_parts(*final(d)) == item_parts(*final(r)),
        document_notes(*final(d)) == item_notes(*final(r)),
        item_dots(*r) == document_dots(*old(d)),
        document_dots(*final(d)) == item_dots(*final(r)),
        document_kept(*old(d)) && *final(r) == *r ==> document_kept(*final(d)),
        forall|n: nat|
            document_kept(*old(d)) && n <= deepest() && #[trigger] root_edited(*r, *final(r), n) ==> document_kept(
                *final(d),
            ),
{
    d.as_item_mut()
}

/// `toml_edit::Item::is_table`: true of a dotted table too.
#[verifier::external_body]
fn is_table(t: &toml_edit::Item) -> (r: bool)
    ensures
        r == is_part(item_parts(*t), Part::Table),
{
    t.is_table()
}

/// `toml_edit::Table::entry` and `Entry::or_insert` of an empty table: the item under a key of a table. What
/// stands around the key stays, and what becomes of the item is what becomes of that part of the table.
#[verifier::external_body]
fn entry_item<'a>(t: &'a mut toml_edit::Item, key: &str) -> (r: &'a mut toml_edit::Item)
    requires
        is_part(item_parts(*old(t)), Part::Table),
    ensures
        item_parts(*r) == if item_parts(*old(t)).contains_key(seq![key@]) {
            sub_map(item_parts(*old(t)), key@)
        } else {
            only(Part::Table)
        },
        item_parts(*final(t)) == with_sub(item_parts(*old(t)), key@, item_parts(*final(r))),
        is_part(item_parts(*r), Part::Table) ==> item_notes(*r) == sub_map(item_notes(*old(t)), key@),
        is_part(item_parts(*r), Part::Table) && is_part(item_parts(*final(r)), Part::Table) ==> item_notes(*final(t))
            == with_sub(item_notes(*old(t)), key@, item_notes(*final(r))),
        item_dots(*r) == sub_map(item_dots(*old(t)), key@),
        item_dots(*final(t)) == with_sub(item_dots(*old(t)), key@, item_dots(*final(r))),
        forall|n: nat| *final(r) == *r ==> #[trigger] item_edited(*old(t), *final(t), n),
        forall|n: nat| *final(r) == *r ==> #[trigger] root_edited(*old(t), *final(t), n),
        forall|n: nat|
            (is_dotted(*r) ==> is_dotted(*old(t))) && #[trigger] item_edited(*r, *final(r), n) ==> item_edited(
                *old(t),
                *final(t),
                n + 1,
            ),
        forall|n: nat| #[trigger] item_edited(*r, *final(r), n) ==> root_edited(*old(t), *final(t), n + 1),
{
    t.as_table_mut().expect("a table").entry(key).or_insert(toml_edit::table())
}

/// `toml_edit::Table::insert`: an item under a key of a table, in place of what stood there. The key is
/// formatted anew.
#[verifier::external_body]
fn insert_item(t: &mut toml_edit::Item, key: &str, v: toml_edit::Item)
    requires
        is_part(item_parts(*old(t)), Part::Table),
        item_fresh(v),
    ensures
        item_parts(*final(t)) == with_sub(item_parts(*old(t)), key@, item_parts(v)),
        item_notes(*final(t)) == with_sub(item_notes(*old(t)), key@, Map::empty()),
        item_dots(*final(t)) == with_sub(item_dots(*old(t)), key@, Map::empty()),
        item_fresh(*old(t)) ==> item_fresh(*final(t)),
        within(item_parts(v), deepest()) ==> item_edited(*old(t), *final(t), 0) && root_edited(*old(t), *final(t), 0),
{
    t.as_table_mut().expect("a table").insert(key, v);
}

/// `IndexMut` of `toml_edit::Item`: a value under a key of a table, or of a fresh inline table, in place of what
/// stood there. What stands around the key stays: where no table stood there, all notes stay.
#[verifier::external_body]
pub(crate) fn set_item(t: &mut toml_edit::Item, key: &str, v: toml_edit::Item)
    requires
        is_part(item_parts(*old(t)), Part::Table) || (is_part(item_parts(*old(t)), Part::Inline) && item_fresh(*old(t))),
        is_value(item_parts(v)),
        item_fresh(v),
    ensures
        item_parts(*final(t)) == with_sub(item_parts(*old(t)), key@, item_parts(v)),
        is_part(item_parts(*old(t)), Part::Table) && !table_at(item_parts(*old(t)), seq![key@]) ==> notes_stay(
            item_notes(*old(t)),
            item_notes(*final(t)),
        ),
        is_part(item_parts(*old(t)), Part::Table) ==> notes_stay(
            with_sub(item_notes(*old(t)), key@, Map::empty()),
            item_notes(*final(t)),
        ),
        is_part(item_parts(*old(t)), Part::Table) ==> item_dots(*final(t)) == with_sub(
            item_dots(*old(t)),
            key@,
            Map::empty(),
        ),
        item_fresh(*old(t)) ==> item_fresh(*final(t)),
        is_part(item_parts(*old(t)), Part::Table) && within(item_parts(v), deepest()) ==> item_edited(
            *old(t),
            *final(t),
            0,
        ) && root_edited(*old(t), *final(t), 0),
{
    t[key] = v;
}

/// `toml_edit::table`: an empty table.
#[verifier::external_body]
pub(crate) fn table_item() -> (r: toml_edit::Item)
    ensures
        item_parts(r) == only(Part::Table),
        item_fresh(r),
{
    toml_edit::table()
}

/// `toml_edit::InlineTable::new`, as an item: an empty inline table.
#[verifier::external_body]
pub(crate) fn inline_item() -> (r: toml_edit::Item)
    ensures
        item_parts(r) == only(Part::Inline),
        item_fresh(r),
{
    toml_edit::value(toml_edit::InlineTable::new())
}

/// `toml_edit::value` of a text.
#[verifier::external_body]
pub(crate) fn text_item(s: &str) -> (r: toml_edit::Item)
    ensures
        item_parts(r) == only(Part::Text(s@)),
        item_fresh(r),
{
    toml_edit::value(s)
}

/// `toml_edit::value` of an integer.
#[verifier::external_body]
pub(crate) fn number_item(n: i64) -> (r: toml_edit::Item)
    ensures
        item_parts(r) == only(Part::Number(n)),
        item_fresh(r),
{
    toml_edit::value(n)
}

/// `toml_edit::Array::from_iter` of texts, as an item.
#[verifier::external_body]
pub(crate) fn list_item(v: &[String]) -> (r: toml_edit::Item)
    ensures
        item_parts(r) == only(Part::List(views(v@))),
        item_fresh(r),
{
    toml_edit::value(toml_edit::Array::from_iter(v))
}

// ---- Paths ----------------------------------------------------------------------

/// What stands under a key of a table; an empty table where nothing does.
pub open spec fn child_parts(m: Parts, k: Str) -> Parts {
    if m.contains_key(seq![k]) {
        sub_map(m, k)
    } else {
        only(Part::Table)
    }
}

/// The parts with tables along a path, made where they are missing; none where something along the path is no
/// table.
pub open spec fn opened_at(m: Parts, path: Seq<Str>) -> Option<Parts>
    decreases path.len(),
{
    if !is_part(m, Part::Table) {
        None
    } else if path.len() == 0 {
        Some(m)
    } else {
        match opened_at(child_parts(m, path[0]), path.skip(1)) {
            Some(c) => Some(with_sub(m, path[0], c)),
            None => None,
        }
    }
}

/// The parts with tables along a path, and `v` under a key of the last; none where something along the path is
/// no table.
pub open spec fn put_at(m: Parts, path: Seq<Str>, key: Str, v: Parts) -> Option<Parts>
    decreases path.len(),
{
    if !is_part(m, Part::Table) {
        None
    } else if path.len() == 0 {
        Some(with_sub(m, key, v))
    } else {
        match put_at(child_parts(m, path[0]), path.skip(1), key, v) {
            Some(c) => Some(with_sub(m, path[0], c)),
            None => None,
        }
    }
}

/// Along a path, a dotted table more than `n` keys deep stands in a dotted table.
pub open spec fn placed(s: Dots, path: Seq<Str>, n: nat) -> bool {
    forall|q: Seq<Str>| below(path, q) && q.len() > n && #[trigger] s.contains_key(q) ==> s.contains_key(q.drop_last())
}

/// All but what goes through `base` or ends there.
pub open spec fn without<V>(m: Map<Seq<Str>, V>, base: Seq<Str>) -> Map<Seq<Str>, V> {
    Map::new(|q: Seq<Str>| m.contains_key(q) && !below(q, base), |q: Seq<Str>| m[q])
}

/// What stood before keys and headers stands there still, but for those that go through `base` or end there.
pub open spec fn notes_beside(a: Notes, b: Notes, base: Seq<Str>) -> bool {
    forall|q: Seq<Str>| #[trigger] a.contains_key(q) && !below(q, base) ==> b.contains_key(q) && b[q] == a[q]
}

/// Open the tables along a path from `i` on; false where something along it is no table.
fn open_path(t: &mut toml_edit::Item, path: &[String], i: usize) -> (r: bool)
    requires
        i <= path.len(),
    ensures
        match opened_at(item_parts(*old(t)), views(path@).skip(i as int)) {
            Some(m) => r && item_parts(*final(t)) == m && is_part(m, Part::Table),
            None => !r,
        },
        r ==> notes_stay(item_notes(*old(t)), item_notes(*final(t))),
        r ==> item_dots(*final(t)) == item_dots(*old(t)),
        r && placed(item_dots(*old(t)), views(path@).skip(i as int), 0) ==> *final(t) == *old(t) || item_edited(
            *old(t),
            *final(t),
            (path.len() - i) as nat,
        ),
        r && placed(item_dots(*old(t)), views(path@).skip(i as int), 1) ==> *final(t) == *old(t) || root_edited(
            *old(t),
            *final(t),
            (path.len() - i) as nat,
        ),
    decreases path.len() - i,
{
    if !is_table(t) {
        return false;
    }
    let ghost rest = views(path@).skip(i as int);
    if i == path.len() {
        return true;
    }
    let ghost key = path@[i as int]@;
    let ghost n = item_notes(*t);
    let ghost s = item_dots(*t);
    proof {
        assert(rest[0] == key);
        assert(rest.skip(1) =~= views(path@).skip(i + 1));
        lemma_placed_down(s, rest);
    }
    let c = entry_item(t, path[i].as_str());
    let r = open_path(c, path, i + 1);
    proof {
        if r {
            lemma_notes_up(n, key, item_notes(*t));
            lemma_dots_same(s, key);
        }
    }
    r
}

/// Put an item under a key of the table at a path from `i` on; false where something along it is no table.
/// With `keep` the item is a value, and what stands around the key stays.
fn put_path(t: &mut toml_edit::Item, path: &[String], i: usize, key: &str, v: toml_edit::Item, keep: bool) -> (r: bool)
    requires
        i <= path.len(),
        item_fresh(v),
        keep ==> is_value(item_parts(v)),
    ensures
        match put_at(item_parts(*old(t)), views(path@).skip(i as int), key@, item_parts(v)) {
            Some(m) => r && item_parts(*final(t)) == m && is_part(m, Part::Table),
            None => !r,
        },
        r ==> notes_beside(item_notes(*old(t)), item_notes(*final(t)), views(path@).skip(i as int).push(key@)),
        r && keep && !table_at(item_parts(*old(t)), views(path@).skip(i as int).push(key@)) ==> notes_stay(
            item_notes(*old(t)),
            item_notes(*final(t)),
        ),
        r ==> item_dots(*final(t)) == without(item_dots(*old(t)), views(path@).skip(i as int).push(key@)),
        r && placed(item_dots(*old(t)), views(path@).skip(i as int), 0) && within(item_parts(v), deepest()) ==> item_edited(
            *old(t),
            *final(t),
            (path.len() - i) as nat,
        ),
        r && placed(item_dots(*old(t)), views(path@).skip(i as int), 1) && within(item_parts(v), deepest()) ==> root_edited(
            *old(t),
            *final(t),
            (path.len() - i) as nat,
        ),
    decreases path.len() - i,
{
    if !is_table(t) {
        return false;
    }
    let ghost rest = views(path@).skip(i as int);
    let ghost n = item_notes(*t);
    let ghost m = item_parts(*t);
    let ghost s = item_dots(*t);
    if i == path.len() {
        proof {
            assert(rest.push(key@) =~= seq![key@]);
            lemma_beside_key(n, key@);
            lemma_dots_beside_key(s, key@);
        }
        if keep {
            set_item(t, key, v);
        } else {
            insert_item(t, key, v);
        }
        return true;
    }
    let ghost own = path@[i as int]@;
    proof {
        assert(rest[0] == own);
        assert(rest.skip(1) =~= views(path@).skip(i + 1));
        assert(rest.push(key@).skip(1) =~= rest.skip(1).push(key@));
        lemma_placed_down(s, rest);
    }
    let c = entry_item(t, path[i].as_str());
    let r = put_path(c, path, i + 1, key, v, keep);
    proof {
        if r {
            lemma_notes_beside_up(n, own, item_notes(*t), rest.push(key@));
            lemma_dots_beside_up(s, rest.push(key@));
            if keep && !table_at(m, rest.push(key@)) {
                lemma_no_table_down(m, own, rest.push(key@));
                lemma_notes_up(n, own, item_notes(*t));
            }
        }
    }
    r
}

/// Open the tables along a path of a document; false where something along it is no table.
pub(crate) fn open_in(d: &mut toml_edit::DocumentMut, path: &[String]) -> (r: bool)
    ensures
        match opened_at(document_parts(*old(d)), views(path@)) {
            Some(m) => r && document_parts(*final(d)) == m && is_part(m, Part::Table),
            None => !r,
        },
        r ==> notes_stay(document_notes(*old(d)), document_notes(*final(d))),
        r ==> document_dots(*final(d)) == document_dots(*old(d)),
        r && document_kept(*old(d)) && placed(document_dots(*old(d)), views(path@), 1) && path.len() <= deepest()
            ==> document_kept(*final(d)),
{
    proof {
        assert(views(path@).skip(0) =~= views(path@));
    }
    open_path(root_item(d), path, 0)
}

/// Put an item under a key of the table at a path of a document; false where something along it is no table.
/// With `keep` the item is a value, and what stands around the key stays.
pub(crate) fn put_in(d: &mut toml_edit::DocumentMut, path: &[String], key: &str, v: toml_edit::Item, keep: bool) -> (r: bool)
    requires
        item_fresh(v),
        keep ==> is_value(item_parts(v)),
    ensures
        match put_at(document_parts(*old(d)), views(path@), key@, item_parts(v)) {
            Some(m) => r && document_parts(*final(d)) == m && is_part(m, Part::Table),
            None => !r,
        },
        r ==> notes_beside(document_notes(*old(d)), document_notes(*final(d)), views(path@).push(key@)),
        r && keep && !table_at(document_parts(*old(d)), views(path@).push(key@)) ==> notes_stay(
            document_notes(*old(d)),
            document_notes(*final(d)),
        ),
        r ==> document_dots(*final(d)) == without(document_dots(*old(d)), views(path@).push(key@)),
        r && document_kept(*old(d)) && placed(document_dots(*old(d)), views(path@), 1) && path.len() <= deepest()
            && within(item_parts(v), deepest()) ==> document_kept(*final(d)),
{
    proof {
        assert(views(path@).skip(0) =~= views(path@));
    }
    put_path(root_item(d), path, 0, key, v, keep)
}

// ---- Where an edit reaches --------------------------------------------------------

/// The path goes through `base` or ends there.
pub open spec fn below(q: Seq<Str>, base: Seq<Str>) -> bool {
    base.len() <= q.len() && q.take(base.len() as int) == base
}

/// The parts with tables along a path: all else stays.
pub open spec fn with_tables(m: Parts, path: Seq<Str>) -> Parts {
    Map::new(
        |q: Seq<Str>| below(path, q) || m.contains_key(q),
        |q: Seq<Str>|
            if m.contains_key(q) {
                m[q]
            } else {
                Part::Table
            },
    )
}

/// The parts with tables along a path and `v` at `base`, which is the path and one key more: all else stays.
pub open spec fn grafted(m: Parts, base: Seq<Str>, v: Parts) -> Parts {
    Map::new(
        |q: Seq<Str>|
            if below(q, base) {
                v.contains_key(q.skip(base.len() as int))
            } else {
                below(base, q) || m.contains_key(q)
            },
        |q: Seq<Str>|
            if below(q, base) {
                v[q.skip(base.len() as int)]
            } else if m.contains_key(q) {
                m[q]
            } else {
                Part::Table
            },
    )
}

proof fn lemma_has_head(m: Parts, q: Seq<Str>)
    requires
        is_tree(m),
        m.contains_key(q),
        q.len() > 0,
    ensures
        m.contains_key(seq![q[0]]),
    decreases q.len(),
{
    if q.len() == 1 {
        assert(q =~= seq![q[0]]);
    } else {
        assert(m.contains_key(q.drop_last()));
        lemma_has_head(m, q.drop_last());
    }
}

proof fn lemma_child_tree(m: Parts, k: Str)
    requires
        is_tree(m),
    ensures
        is_tree(child_parts(m, k)),
{
    let c = child_parts(m, k);
    if m.contains_key(seq![k]) {
        assert(seq![k] + Seq::<Str>::empty() =~= seq![k]);
        assert forall|p: Seq<Str>| #[trigger] c.contains_key(p) && p.len() > 0 implies {
            let q = p.drop_last();
            c.contains_key(q) && (c[q] == Part::Table || c[q] == Part::Inline)
        } by {
            assert(m.contains_key(seq![k] + p));
            assert((seq![k] + p).drop_last() =~= seq![k] + p.drop_last());
        }
    }
}

proof fn lemma_below_step(q: Seq<Str>, base: Seq<Str>)
    requires
        q.len() > 0,
        base.len() > 0,
        q[0] == base[0],
    ensures
        below(q, base) == below(q.skip(1), base.skip(1)),
        below(q, base) ==> q.skip(base.len() as int) == q.skip(1).skip(base.len() - 1),
{
    let n = base.len() as int;
    if below(q, base) {
        assert(q.skip(1).take(n - 1) =~= q.take(n).skip(1));
        assert(q.skip(n) =~= q.skip(1).skip(n - 1));
    }
    if below(q.skip(1), base.skip(1)) {
        assert(q.take(n) =~= seq![q[0]] + q.skip(1).take(n - 1));
        assert(base =~= seq![base[0]] + base.skip(1));
    }
}

proof fn lemma_not_below(q: Seq<Str>, base: Seq<Str>)
    requires
        base.len() > 0,
        q.len() == 0 || q[0] != base[0],
    ensures
        !below(q, base),
        q.len() > 0 ==> !below(base, q),
        q.len() == 0 ==> below(base, q),
{
    if below(q, base) {
        assert(q.take(base.len() as int)[0] == base[0]);
    }
    if q.len() > 0 && below(base, q) {
        assert(base.take(q.len() as int)[0] == q[0]);
    }
    if q.len() == 0 {
        assert(base.take(0) =~= q);
    }
}

proof fn lemma_child_same(m: Parts, k: Str, q: Seq<Str>)
    requires
        is_tree(m),
        q.len() > 1,
        q[0] == k,
    ensures
        child_parts(m, k).contains_key(q.skip(1)) == m.contains_key(q),
        m.contains_key(q) ==> child_parts(m, k)[q.skip(1)] == m[q],
{
    assert(seq![k] + q.skip(1) =~= q);
    if !m.contains_key(seq![k]) && m.contains_key(q) {
        lemma_has_head(m, q);
    }
}

/// Putting an item at a path changes what stands there, makes the tables along the path, and nothing else.
pub proof fn lemma_put(m: Parts, path: Seq<Str>, key: Str, v: Parts)
    requires
        is_tree(m),
        put_at(m, path, key, v) is Some,
    ensures
        put_at(m, path, key, v) == Some(grafted(m, path.push(key), v)),
        forall|q: Seq<Str>| below(path, q) && #[trigger] m.contains_key(q) ==> m[q] == Part::Table,
    decreases path.len(),
{
    let base = path.push(key);
    let g = grafted(m, base, v);
    let w = put_at(m, path, key, v)->Some_0;
    if path.len() == 0 {
        assert forall|q: Seq<Str>| below(path, q) && #[trigger] m.contains_key(q) implies m[q] == Part::Table by {
            assert(q =~= Seq::empty());
        }
        assert forall|q: Seq<Str>| #[trigger] w.contains_key(q) == g.contains_key(q) && (w.contains_key(q) ==> w[q] == g[q]) by {
            if q.len() > 0 && q[0] == key {
                lemma_below_step(q, base);
                assert(base.skip(1) =~= Seq::empty());
                assert(q.skip(1).take(0) =~= Seq::empty());
            } else {
                lemma_not_below(q, base);
                if q.len() == 0 {
                    assert(q =~= Seq::empty());
                }
            }
        }
    } else {
        let k = path[0];
        let c = child_parts(m, k);
        lemma_child_tree(m, k);
        lemma_put(c, path.skip(1), key, v);
        assert forall|q: Seq<Str>| below(path, q) && #[trigger] m.contains_key(q) implies m[q] == Part::Table by {
            if q.len() > 0 {
                assert(path.take(q.len() as int)[0] == path[0]);
                lemma_below_step(path, q);
                let c = child_parts(m, k);
                assert(seq![k] + q.skip(1) =~= q);
                lemma_has_head(m, q);
                assert(c.contains_key(q.skip(1)));
            } else {
                assert(q =~= Seq::empty());
            }
        }
        let inner = path.skip(1).push(key);
        assert(inner =~= base.skip(1));
        assert forall|q: Seq<Str>| #[trigger] w.contains_key(q) == g.contains_key(q) && (w.contains_key(q) ==> w[q] == g[q]) by {
            if q.len() > 0 && q[0] == k {
                lemma_below_step(q, base);
                lemma_below_step(base, q);
                if q.len() == 1 {
                    assert(q.skip(1) =~= Seq::empty());
                    assert(inner.take(0) =~= Seq::empty());
                    assert(q =~= seq![k]);
                    assert(seq![k] + Seq::<Str>::empty() =~= seq![k]);
                } else {
                    lemma_child_same(m, k, q);
                }
            } else {
                lemma_not_below(q, base);
                if q.len() == 0 {
                    assert(q =~= Seq::empty());
                }
            }
        }
    }
    assert(w =~= g);
}

/// Opening a path makes the tables along it, and nothing else.
pub proof fn lemma_opened(m: Parts, path: Seq<Str>)
    requires
        is_tree(m),
        opened_at(m, path) is Some,
    ensures
        opened_at(m, path) == Some(with_tables(m, path)),
        forall|q: Seq<Str>| below(path, q) && #[trigger] m.contains_key(q) ==> m[q] == Part::Table,
    decreases path.len(),
{
    let g = with_tables(m, path);
    let w = opened_at(m, path)->Some_0;
    if path.len() == 0 {
        assert forall|q: Seq<Str>| below(path, q) && #[trigger] m.contains_key(q) implies m[q] == Part::Table by {
            assert(q =~= Seq::empty());
        }
        assert forall|q: Seq<Str>| #[trigger] w.contains_key(q) == g.contains_key(q) && (w.contains_key(q) ==> w[q] == g[q]) by {
            if below(path, q) {
                assert(q =~= Seq::empty());
            }
        }
    } else {
        let k = path[0];
        lemma_child_tree(m, k);
        lemma_opened(child_parts(m, k), path.skip(1));
        assert forall|q: Seq<Str>| below(path, q) && #[trigger] m.contains_key(q) implies m[q] == Part::Table by {
            if q.len() > 0 {
                assert(path.take(q.len() as int)[0] == path[0]);
                lemma_below_step(path, q);
                let c = child_parts(m, k);
                assert(seq![k] + q.skip(1) =~= q);
                lemma_has_head(m, q);
                assert(c.contains_key(q.skip(1)));
            } else {
                assert(q =~= Seq::empty());
            }
        }
        assert forall|q: Seq<Str>| #[trigger] w.contains_key(q) == g.contains_key(q) && (w.contains_key(q) ==> w[q] == g[q]) by {
            if q.len() > 0 && q[0] == k {
                lemma_below_step(path, q);
                if q.len() == 1 {
                    assert(q.skip(1) =~= Seq::empty());
                    assert(path.skip(1).take(0) =~= Seq::empty());
                    assert(q =~= seq![k]);
                    assert(seq![k] + Seq::<Str>::empty() =~= seq![k]);
                } else {
                    lemma_child_same(m, k, q);
                }
            } else {
                lemma_not_below(q, path);
                if q.len() == 0 {
                    assert(q =~= Seq::empty());
                }
            }
        }
    }
    assert(w =~= g);
}

proof fn lemma_shorter(base: Seq<Str>, q: Seq<Str>)
    requires
        below(base, q),
        q.len() > 0,
    ensures
        below(base, q.drop_last()),
{
    assert(base.take(q.len() - 1) =~= base.take(q.len() as int).drop_last());
}

/// A tree stays one.
pub proof fn lemma_grafted_tree(m: Parts, base: Seq<Str>, v: Parts)
    requires
        is_tree(m),
        is_tree(v),
        base.len() > 0,
        forall|q: Seq<Str>|
            below(base.drop_last(), q) && #[trigger] m.contains_key(q) ==> m[q] == Part::Table,
    ensures
        is_tree(grafted(m, base, v)),
{
    let w = grafted(m, base, v);
    let n = base.len() as int;
    assert(base.take(0) =~= Seq::empty());
    assert(below(base, Seq::<Str>::empty()));
    assert forall|q: Seq<Str>| #[trigger] w.contains_key(q) && q.len() > 0 implies {
        let r = q.drop_last();
        w.contains_key(r) && (w[r] == Part::Table || w[r] == Part::Inline)
    } by {
        let r = q.drop_last();
        if below(q, base) {
            if q.len() == n {
                assert(q =~= base);
                assert(base.take(n) =~= base);
                lemma_shorter(base, base);
                assert(!below(r, base));
                assert(below(base.drop_last(), r)) by {
                    assert(r.take(r.len() as int) =~= r);
                }
            } else {
                assert(r.take(n) =~= q.take(n));
                assert(q.skip(n).drop_last() =~= r.skip(n));
                assert(v.contains_key(q.skip(n)));
            }
        } else {
            if below(r, base) {
                assert(q.take(n) =~= r.take(n));
            }
            if m.contains_key(q) {
                assert(m.contains_key(r));
            } else {
                lemma_shorter(base, q);
                assert(below(base.drop_last(), r)) by {
                    assert(base.drop_last().take(r.len() as int) =~= base.take(r.len() as int));
                }
            }
        }
    }
}

/// A tree stays one.
pub proof fn lemma_tables_tree(m: Parts, path: Seq<Str>)
    requires
        is_tree(m),
        forall|q: Seq<Str>|
            below(path, q) && #[trigger] m.contains_key(q) ==> m[q] == Part::Table,
    ensures
        is_tree(with_tables(m, path)),
{
    let w = with_tables(m, path);
    assert forall|q: Seq<Str>| #[trigger] w.contains_key(q) && q.len() > 0 implies {
        let r = q.drop_last();
        w.contains_key(r) && (w[r] == Part::Table || w[r] == Part::Inline)
    } by {
        if m.contains_key(q) {
            assert(m.contains_key(q.drop_last()));
        } else {
            lemma_shorter(path, q);
        }
    }
}

/// Items made here are trees.
pub proof fn lemma_sub_tree(m: Parts, k: Str, v: Parts)
    requires
        is_tree(m),
        is_part(m, Part::Table) || is_part(m, Part::Inline),
        is_tree(v),
    ensures
        is_tree(with_sub(m, k, v)),
        is_part(m, Part::Table) ==> is_part(with_sub(m, k, v), Part::Table),
        is_part(m, Part::Inline) ==> is_part(with_sub(m, k, v), Part::Inline),
        forall|n: nat|
            #![trigger within(with_sub(m, k, v), n)]
            n > 0 && within(m, n) && within(v, (n - 1) as nat) ==> within(with_sub(m, k, v), n),
{
    let w = with_sub(m, k, v);
    assert forall|q: Seq<Str>| #[trigger] w.contains_key(q) && q.len() > 0 implies {
        let r = q.drop_last();
        w.contains_key(r) && (w[r] == Part::Table || w[r] == Part::Inline)
    } by {
        let r = q.drop_last();
        if q[0] == k {
            if q.len() == 1 {
                assert(r =~= Seq::empty());
            } else {
                assert(v.contains_key(q.skip(1)));
                assert(r.skip(1) =~= q.skip(1).drop_last());
            }
        } else {
            assert(m.contains_key(q));
            if r.len() == 0 {
                assert(r =~= Seq::empty());
            }
        }
    }
}

proof fn lemma_placed_down(s: Dots, path: Seq<Str>)
    requires
        path.len() > 0,
    ensures
        placed(s, path, 1) ==> placed(sub_map(s, path[0]), path.skip(1), 0),
        placed(s, path, 0) ==> placed(s, path, 1) && (sub_map(s, path[0]).contains_key(Seq::empty()) ==> s.contains_key(
            Seq::empty(),
        )),
{
    let k = path[0];
    let c = sub_map(s, k);
    let rest = path.skip(1);
    if placed(s, path, 1) {
        assert forall|q: Seq<Str>| below(rest, q) && q.len() > 0 && #[trigger] c.contains_key(q) implies c.contains_key(
            q.drop_last(),
        ) by {
            let p = seq![k] + q;
            assert(p.skip(1) =~= q);
            lemma_below_step(path, p);
            assert(s.contains_key(p));
            assert(p.drop_last() =~= seq![k] + q.drop_last());
        }
    }
    if placed(s, path, 0) && c.contains_key(Seq::empty()) {
        let p = seq![k] + Seq::<Str>::empty();
        assert(p =~= seq![k]);
        assert(path.take(1) =~= p);
        assert(s.contains_key(p));
        assert(p.drop_last() =~= Seq::<Str>::empty());
    }
}

proof fn lemma_dots_same(s: Dots, k: Str)
    ensures
        with_sub(s, k, sub_map(s, k)) == s,
{
    let w = with_sub(s, k, sub_map(s, k));
    assert forall|q: Seq<Str>| #[trigger] w.contains_key(q) == s.contains_key(q) by {
        if q.len() > 0 && q[0] == k {
            assert(seq![k] + q.skip(1) =~= q);
        }
    }
    assert(w =~= s);
}

proof fn lemma_dots_beside_key(s: Dots, k: Str)
    ensures
        with_sub(s, k, Map::empty()) == without(s, seq![k]),
{
    assert forall|q: Seq<Str>| #[trigger] below(q, seq![k]) == (q.len() > 0 && q[0] == k) by {
        if q.len() > 0 {
            assert(q.take(1) =~= seq![q[0]]);
            assert(seq![q[0]][0] == q[0]);
            assert(seq![k][0] == k);
        }
    }
    assert(with_sub(s, k, Map::empty()) =~= without(s, seq![k]));
}

proof fn lemma_dots_beside_up(s: Dots, base: Seq<Str>)
    requires
        base.len() > 0,
    ensures
        with_sub(s, base[0], without(sub_map(s, base[0]), base.skip(1))) == without(s, base),
{
    let k = base[0];
    let w = with_sub(s, k, without(sub_map(s, k), base.skip(1)));
    let x = without(s, base);
    assert forall|q: Seq<Str>| #[trigger] w.contains_key(q) == x.contains_key(q) by {
        if q.len() > 0 && q[0] == k {
            assert(seq![k] + q.skip(1) =~= q);
            lemma_below_step(q, base);
        } else {
            lemma_not_below(q, base);
        }
    }
    assert(w =~= x);
}

proof fn lemma_notes_up(n: Notes, k: Str, w: Notes)
    requires
        exists|c: Notes| notes_stay(sub_map(n, k), c) && #[trigger] with_sub(n, k, c) == w,
    ensures
        notes_stay(n, w),
{
    let c = choose|c: Notes| notes_stay(sub_map(n, k), c) && #[trigger] with_sub(n, k, c) == w;
    assert forall|q: Seq<Str>| #[trigger] n.contains_key(q) implies w.contains_key(q) && w[q] == n[q] by {
        if q.len() > 0 && q[0] == k {
            assert(seq![k] + q.skip(1) =~= q);
            assert(sub_map(n, k).contains_key(q.skip(1)));
        }
    }
}

proof fn lemma_notes_beside_up(n: Notes, k: Str, w: Notes, base: Seq<Str>)
    requires
        base.len() > 0,
        base[0] == k,
        exists|c: Notes| notes_beside(sub_map(n, k), c, base.skip(1)) && #[trigger] with_sub(n, k, c) == w,
    ensures
        notes_beside(n, w, base),
{
    let c = choose|c: Notes| notes_beside(sub_map(n, k), c, base.skip(1)) && #[trigger] with_sub(n, k, c) == w;
    assert forall|q: Seq<Str>| #[trigger] n.contains_key(q) && !below(q, base) implies w.contains_key(q) && w[q] == n[q] by {
        if q.len() > 0 && q[0] == k {
            lemma_below_step(q, base);
            assert(seq![k] + q.skip(1) =~= q);
            assert(sub_map(n, k).contains_key(q.skip(1)));
        }
    }
}

proof fn lemma_beside_key(n: Notes, key: Str)
    ensures
        forall|w: Notes| #[trigger] notes_stay(with_sub(n, key, Map::empty()), w) ==> notes_beside(n, w, seq![key]),
        notes_beside(n, with_sub(n, key, Map::empty()), seq![key]),
{
    let e = with_sub(n, key, Map::empty());
    assert forall|w: Notes| #[trigger] notes_stay(e, w) implies notes_beside(n, w, seq![key]) by {
        assert forall|q: Seq<Str>| #[trigger] n.contains_key(q) && !below(q, seq![key]) implies w.contains_key(q) && w[q]
            == n[q] by {
            if q.len() > 0 && q[0] == key {
                assert(q.take(1) =~= seq![key]);
            }
            assert(e.contains_key(q));
        }
    }
    assert(notes_stay(e, e));
}

proof fn lemma_no_table_down(m: Parts, k: Str, q: Seq<Str>)
    requires
        q.len() > 1,
        q[0] == k,
        !table_at(m, q),
    ensures
        !table_at(child_parts(m, k), q.skip(1)),
{
    assert(seq![k] + q.skip(1) =~= q);
}

} // verus!
