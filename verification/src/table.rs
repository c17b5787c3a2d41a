//! Tables: values under names, in the order of the names.
use vstd::prelude::*;

use crate::text::{less, same, views, Str};

verus! {

broadcast use crate::text::group_views;

/// A value that can be copied so that the copy has the same view.
pub trait Dup: View + Sized {
    fn dup(&self) -> (r: Self)
        ensures
            r@ == self@,
    ;
}

/// A value that can be compared with another by its view.
pub trait Alike: View + Sized {
    fn alike(&self, other: &Self) -> (r: bool)
        ensures
            r == (self@ == other@),
    ;
}

impl Dup for String {
    fn dup(&self) -> (r: Self) {
        self.clone()
    }
}

impl Alike for String {
    fn alike(&self, other: &Self) -> (r: bool) {
        same(self.as_str(), other.as_str())
    }
}

/// A copy of a list.
pub fn dup_all<T: Dup>(v: &[T]) -> (r: Vec<T>)
    ensures
        views(r@) == views(v@),
        r.len() == v.len(),
{
    let mut out: Vec<T> = Vec::new();
    let mut i: usize = 0;
    while i < v.len()
        invariant
            i <= v.len(),
            out.len() == i,
            views(out@) == views(v@).take(i as int),
        decreases v.len() - i,
    {
        out.push(v[i].dup());
        proof {
            assert(views(v@).take(i + 1) =~= views(v@).take(i as int).push(views(v@)[i as int]));
        }
        i = i + 1;
    }
    proof {
        assert(views(v@).take(i as int) =~= views(v@));
    }
    out
}

/// A copy of a value that may be missing.
pub fn dup_opt<T: Dup>(o: &Option<T>) -> (r: Option<T>)
    ensures
        crate::text::oview(r) == crate::text::oview(*o),
{
    match o {
        Some(t) => Some(t.dup()),
        None => None,
    }
}

/// Two lists have the same views.
pub fn alike_all<T: Alike>(a: &[T], b: &[T]) -> (r: bool)
    ensures
        r == (views(a@) == views(b@)),
{
    if a.len() != b.len() {
        assert(views(a@).len() != views(b@).len());
        return false;
    }
    let mut i: usize = 0;
    while i < a.len()
        invariant
            i <= a.len(),
            a.len() == b.len(),
            forall|k: int| 0 <= k < i ==> #[trigger] views(a@)[k] == views(b@)[k],
        decreases a.len() - i,
    {
        if !a[i].alike(&b[i]) {
            assert(views(a@)[i as int] != views(b@)[i as int]);
            return false;
        }
        i = i + 1;
    }
    assert(views(a@) =~= views(b@));
    true
}

// ---- Entries of a table -------------------------------------------------------

/// The names stand in ascending order, each once.
pub open spec fn tab_sorted<T>(s: Seq<(Str, T)>) -> bool {
    forall|i: int, j: int| 0 <= i < j < s.len() ==> #[trigger] crate::text::str_lt(s[i].0, s[j].0)
}

/// The place of a name from `i` on, or the number of entries.
pub open spec fn tab_find<T>(s: Seq<(Str, T)>, k: Str, i: int) -> int
    decreases s.len() - i,
{
    if i >= s.len() {
        s.len() as int
    } else if s[i].0 == k {
        i
    } else {
        tab_find(s, k, i + 1)
    }
}

/// The table has an entry of this name.
pub open spec fn tab_has<T>(s: Seq<(Str, T)>, k: Str) -> bool {
    tab_find(s, k, 0) < s.len()
}

/// The value under a name.
pub open spec fn tab_get<T>(s: Seq<(Str, T)>, k: Str) -> Option<T> {
    let i = tab_find(s, k, 0);
    if 0 <= i < s.len() {
        Some(s[i].1)
    } else {
        None
    }
}

/// How many names from `i` on, counted together with `i`, stand before `k`.
pub open spec fn tab_rank<T>(s: Seq<(Str, T)>, k: Str, i: int) -> int
    decreases s.len() - i,
{
    if i < s.len() && crate::text::str_lt(s[i].0, k) {
        tab_rank(s, k, i + 1)
    } else {
        i
    }
}

/// The entries with `v` under `k`, whatever stood there.
pub open spec fn tab_put<T>(s: Seq<(Str, T)>, k: Str, v: T) -> Seq<(Str, T)> {
    let i = tab_rank(s, k, 0);
    if 0 <= i < s.len() && s[i].0 == k {
        s.update(i, (k, v))
    } else {
        s.insert(i, (k, v))
    }
}

/// The entries without the one under `k`.
pub open spec fn tab_del<T>(s: Seq<(Str, T)>, k: Str) -> Seq<(Str, T)> {
    let i = tab_find(s, k, 0);
    if 0 <= i < s.len() {
        s.remove(i)
    } else {
        s
    }
}

/// The names of the entries.
pub open spec fn tab_keys<T>(s: Seq<(Str, T)>) -> Seq<Str> {
    s.map_values(|e: (Str, T)| e.0)
}

pub proof fn lemma_find<T>(s: Seq<(Str, T)>, k: Str, i: int)
    requires
        0 <= i <= s.len(),
    ensures
        i <= tab_find(s, k, i) <= s.len(),
        tab_find(s, k, i) < s.len() ==> s[tab_find(s, k, i)].0 == k,
        forall|j: int| i <= j < tab_find(s, k, i) ==> #[trigger] s[j].0 != k,
    decreases s.len() - i,
{
    if i < s.len() && s[i].0 != k {
        lemma_find(s, k, i + 1);
    }
}

/// In a table an entry is found under its own name.
pub proof fn lemma_find_at<T>(s: Seq<(Str, T)>, i: int)
    requires
        tab_sorted(s),
        0 <= i < s.len(),
    ensures
        tab_find(s, s[i].0, 0) == i,
        tab_get(s, s[i].0) == Some(s[i].1),
{
    lemma_find(s, s[i].0, 0);
    let j = tab_find(s, s[i].0, 0);
    if j < i {
        assert(crate::text::str_lt(s[j].0, s[i].0));
        crate::text::lemma_lt_irreflexive(s[i].0);
    }
}

proof fn lemma_rank<T>(s: Seq<(Str, T)>, k: Str, i: int)
    requires
        tab_sorted(s),
        0 <= i <= s.len(),
        forall|j: int| 0 <= j < i ==> crate::text::str_lt(#[trigger] s[j].0, k),
    ensures
        i <= tab_rank(s, k, i) <= s.len(),
        forall|j: int| 0 <= j < tab_rank(s, k, i) ==> crate::text::str_lt(#[trigger] s[j].0, k),
        forall|j: int|
            tab_rank(s, k, i) <= j < s.len() ==> #[trigger] s[j].0 == k || crate::text::str_lt(k, s[j].0),
        forall|j: int| tab_rank(s, k, i) < j < s.len() ==> crate::text::str_lt(k, #[trigger] s[j].0),
    decreases s.len() - i,
{
    if i < s.len() {
        if crate::text::str_lt(s[i].0, k) {
            lemma_rank(s, k, i + 1);
        } else {
            crate::text::lemma_lt_total(s[i].0, k);
            assert forall|j: int| i < j < s.len() implies crate::text::str_lt(k, #[trigger] s[j].0) by {
                assert(crate::text::str_lt(s[i].0, s[j].0));
                if s[i].0 != k {
                    crate::text::lemma_lt_transitive(k, s[i].0, s[j].0);
                }
            }
        }
    }
}

/// Putting a value in keeps the order of the names.
pub proof fn lemma_put_sorted<T>(s: Seq<(Str, T)>, k: Str, v: T)
    requires
        tab_sorted(s),
    ensures
        tab_sorted(tab_put(s, k, v)),
{
    lemma_rank(s, k, 0);
    let r = tab_rank(s, k, 0);
    let t = tab_put(s, k, v);
    if r < s.len() && s[r].0 == k {
        assert forall|i: int, j: int| 0 <= i < j < t.len() implies #[trigger] crate::text::str_lt(t[i].0, t[j].0) by {
            assert(crate::text::str_lt(s[i].0, s[j].0));
        }
    } else {
        assert forall|i: int, j: int| 0 <= i < j < t.len() implies #[trigger] crate::text::str_lt(t[i].0, t[j].0) by {
            if i < r && j > r {
                assert(crate::text::str_lt(s[i].0, s[j - 1].0));
            } else if i < r && j < r {
                assert(crate::text::str_lt(s[i].0, s[j].0));
            } else if i > r {
                assert(crate::text::str_lt(s[i - 1].0, s[j - 1].0));
            } else if i == r {
                assert(t[j] == s[j - 1]);
                assert(s[j - 1].0 == k || crate::text::str_lt(k, s[j - 1].0));
                if s[j - 1].0 == k && j - 1 > r {
                    assert(crate::text::str_lt(k, s[j - 1].0));
                }
            } else {
                assert(t[i] == s[i]);
            }
        }
    }
}

/// What is put under a name is found there, and every other name keeps its value.
pub proof fn lemma_put_get<T>(s: Seq<(Str, T)>, k: Str, v: T, q: Str)
    requires
        tab_sorted(s),
    ensures
        tab_get(tab_put(s, k, v), q) == if q == k {
            Some(v)
        } else {
            tab_get(s, q)
        },
{
    lemma_rank(s, k, 0);
    lemma_put_sorted(s, k, v);
    let r = tab_rank(s, k, 0);
    let t = tab_put(s, k, v);
    if q == k {
        lemma_find_at(t, r);
    } else {
        lemma_find(s, q, 0);
        lemma_find(t, q, 0);
        let i = tab_find(s, q, 0);
        let j = tab_find(t, q, 0);
        if i < s.len() {
            if r < s.len() && s[r].0 == k {
                lemma_find_at(t, i);
            } else if i < r {
                lemma_find_at(t, i);
            } else {
                lemma_find_at(t, i + 1);
            }
        } else if j < t.len() {
            if r < s.len() && s[r].0 == k {
                assert(s[j].0 == q);
            } else if j < r {
                assert(s[j].0 == q);
            } else {
                assert(t[j] == s[j - 1]);
                assert(s[j - 1].0 == q);
            }
        }
    }
}

/// Taking an entry out keeps the order of the names.
pub proof fn lemma_del_sorted<T>(s: Seq<(Str, T)>, k: Str)
    requires
        tab_sorted(s),
    ensures
        tab_sorted(tab_del(s, k)),
{
    lemma_find(s, k, 0);
    let r = tab_find(s, k, 0);
    let t = tab_del(s, k);
    if r < s.len() {
        assert forall|i: int, j: int| 0 <= i < j < t.len() implies #[trigger] crate::text::str_lt(t[i].0, t[j].0) by {
            let a = if i < r {
                i
            } else {
                i + 1
            };
            let b = if j < r {
                j
            } else {
                j + 1
            };
            assert(crate::text::str_lt(s[a].0, s[b].0));
        }
    }
}

/// What is taken out is no longer there, and every other name keeps its value.
pub proof fn lemma_del_get<T>(s: Seq<(Str, T)>, k: Str, q: Str)
    requires
        tab_sorted(s),
    ensures
        tab_get(tab_del(s, k), q) == if q == k {
            None
        } else {
            tab_get(s, q)
        },
{
    lemma_find(s, k, 0);
    lemma_find(s, q, 0);
    lemma_del_sorted(s, k);
    let r = tab_find(s, k, 0);
    let t = tab_del(s, k);
    lemma_find(t, q, 0);
    let i = tab_find(s, q, 0);
    let j = tab_find(t, q, 0);
    if r < s.len() {
        if q == k {
            if j < t.len() {
                let b = if j < r {
                    j
                } else {
                    j + 1
                };
                assert(s[b].0 == k);
                lemma_find_at(s, b);
            }
        } else if i < s.len() {
            if i < r {
                lemma_find_at(t, i);
            } else {
                lemma_find_at(t, i - 1);
            }
        } else if j < t.len() {
            let b = if j < r {
                j
            } else {
                j + 1
            };
            assert(s[b].0 == q);
        }
    }
}

/// Taking an entry out before its name gets a value changes nothing.
pub proof fn lemma_del_put<T>(s: Seq<(Str, T)>, k: Str, v: T)
    requires
        tab_sorted(s),
    ensures
        tab_put(tab_del(s, k), k, v) == tab_put(s, k, v),
{
    lemma_find(s, k, 0);
    let i = tab_find(s, k, 0);
    if i < s.len() {
        let t = tab_del(s, k);
        lemma_rank(s, k, 0);
        lemma_del_sorted(s, k);
        lemma_rank(t, k, 0);
        crate::text::lemma_lt_irreflexive(k);
        let r = tab_rank(s, k, 0);
        let q = tab_rank(t, k, 0);
        assert(i == r) by {
            if r < i {
                assert(s[r].0 == k || crate::text::str_lt(k, s[r].0));
                if s[r].0 != k {
                    assert(crate::text::str_lt(s[r].0, s[i].0));
                    crate::text::lemma_lt_transitive(k, s[r].0, k);
                }
            }
        }
        assert(q == i) by {
            if q < i {
                assert(t[q] == s[q]);
                crate::text::lemma_lt_transitive(s[q].0, k, s[q].0);
                crate::text::lemma_lt_irreflexive(s[q].0);
            }
            if q > i {
                assert(t[i] == s[i + 1]);
                assert(crate::text::str_lt(t[i].0, k));
                assert(crate::text::str_lt(s[i].0, s[i + 1].0));
                crate::text::lemma_lt_transitive(k, s[i + 1].0, k);
            }
        }
        if q < t.len() {
            assert(t[q] == s[i + 1]);
            assert(crate::text::str_lt(s[i].0, s[i + 1].0));
        }
        assert(tab_put(t, k, v) =~= tab_put(s, k, v));
    }
}

/// The first `n` entries without those that the mask leaves out.
pub open spec fn tab_masked<T>(s: Seq<(Str, T)>, mask: Seq<bool>, n: int) -> Seq<(Str, T)>
    decreases n,
{
    if n <= 0 {
        Seq::empty()
    } else if mask[n - 1] {
        tab_masked(s, mask, n - 1).push(s[n - 1])
    } else {
        tab_masked(s, mask, n - 1)
    }
}

pub proof fn lemma_masked<T>(s: Seq<(Str, T)>, mask: Seq<bool>, n: int)
    requires
        tab_sorted(s),
        0 <= n <= s.len(),
    ensures
        tab_sorted(tab_masked(s, mask, n)),
        tab_masked(s, mask, n).len() <= n,
        forall|i: int, j: int|
            0 <= i < tab_masked(s, mask, n).len() && n <= j < s.len() ==> #[trigger] crate::text::str_lt(
                tab_masked(s, mask, n)[i].0,
                s[j].0,
            ),
    decreases n,
{
    if n > 0 {
        lemma_masked(s, mask, n - 1);
        let t = tab_masked(s, mask, n - 1);
        let u = tab_masked(s, mask, n);
        assert forall|i: int, j: int| 0 <= i < j < u.len() implies #[trigger] crate::text::str_lt(u[i].0, u[j].0) by {
            if j < t.len() {
                assert(crate::text::str_lt(t[i].0, t[j].0));
            } else {
                assert(crate::text::str_lt(t[i].0, s[n - 1].0));
            }
        }
        assert forall|i: int, j: int| 0 <= i < u.len() && n <= j < s.len() implies #[trigger] crate::text::str_lt(
            u[i].0,
            s[j].0,
        ) by {
            if i < t.len() {
                assert(crate::text::str_lt(t[i].0, s[j].0));
            } else {
                assert(crate::text::str_lt(s[n - 1].0, s[j].0));
            }
        }
    }
}

/// A table of tables without the tables that have no entries.
pub open spec fn tab_pruned<T>(s: Seq<(Str, Seq<(Str, T)>)>) -> Seq<(Str, Seq<(Str, T)>)> {
    tab_masked(s, s.map_values(|e: (Str, Seq<(Str, T)>)| e.1.len() > 0), s.len() as int)
}

/// A table of texts without the entries that hold `v`.
pub open spec fn tab_unlike(s: Seq<(Str, Str)>, v: Str) -> Seq<(Str, Str)> {
    tab_masked(s, s.map_values(|e: (Str, Str)| e.1 != v), s.len() as int)
}

/// The table under a name; one without entries where there is none.
pub open spec fn nest_at<T>(s: Seq<(Str, Seq<(Str, T)>)>, a: Str) -> Seq<(Str, T)> {
    match tab_get(s, a) {
        Some(m) => m,
        None => Seq::empty(),
    }
}

/// The value under `b` in the table under `a`.
pub open spec fn nest_get<T>(s: Seq<(Str, Seq<(Str, T)>)>, a: Str, b: Str) -> Option<T> {
    tab_get(nest_at(s, a), b)
}

/// The tables with `v` under `b` in the table under `a`, which is made where there is none.
pub open spec fn nest_put<T>(s: Seq<(Str, Seq<(Str, T)>)>, a: Str, b: Str, v: T) -> Seq<(Str, Seq<(Str, T)>)> {
    tab_put(s, a, tab_put(nest_at(s, a), b, v))
}

/// The tables with one under `a`, made where there is none.
pub open spec fn nest_open<T>(s: Seq<(Str, Seq<(Str, T)>)>, a: Str) -> Seq<(Str, Seq<(Str, T)>)> {
    if tab_has(s, a) {
        s
    } else {
        tab_put(s, a, Seq::empty())
    }
}

/// The tables without `b` in the table under `a`.
pub open spec fn nest_del<T>(s: Seq<(Str, Seq<(Str, T)>)>, a: Str, b: Str) -> Seq<(Str, Seq<(Str, T)>)> {
    match tab_get(s, a) {
        Some(m) => tab_put(s, a, tab_del(m, b)),
        None => s,
    }
}

/// The tables without `b` in any of them.
pub open spec fn nest_forget<T>(s: Seq<(Str, Seq<(Str, T)>)>, b: Str) -> Seq<(Str, Seq<(Str, T)>)> {
    s.map_values(|e: (Str, Seq<(Str, T)>)| (e.0, tab_del(e.1, b)))
}

proof fn lemma_tail_get<T>(s: Seq<(Str, T)>, k: Str)
    requires
        tab_sorted(s),
        s.len() > 0,
    ensures
        tab_sorted(s.skip(1)),
        tab_get(s.skip(1), k) == if k == s[0].0 {
            None
        } else {
            tab_get(s, k)
        },
{
    let t = s.skip(1);
    assert forall|i: int, j: int| 0 <= i < j < t.len() implies #[trigger] crate::text::str_lt(t[i].0, t[j].0) by {
        assert(crate::text::str_lt(s[i + 1].0, s[j + 1].0));
    }
    lemma_find(t, k, 0);
    lemma_find(s, k, 0);
    let i = tab_find(t, k, 0);
    if i < t.len() {
        assert(s[i + 1].0 == k);
        lemma_find_at(s, i + 1);
        lemma_find_at(s, 0);
    } else if tab_find(s, k, 0) < s.len() && k != s[0].0 {
        assert(t[tab_find(s, k, 0) - 1].0 == k);
    }
}

proof fn lemma_first_not_less<T>(a: Seq<(Str, T)>, b: Seq<(Str, T)>)
    requires
        tab_sorted(a),
        tab_sorted(b),
        a.len() > 0,
        forall|k: Str| #[trigger] tab_get(a, k) == tab_get(b, k),
    ensures
        b.len() > 0,
        !crate::text::str_lt(a[0].0, b[0].0),
{
    lemma_find_at(a, 0);
    lemma_find(b, a[0].0, 0);
    assert(tab_get(a, a[0].0) == tab_get(b, a[0].0));
    let j = tab_find(b, a[0].0, 0);
    assert(j < b.len());
    if crate::text::str_lt(a[0].0, b[0].0) {
        if j > 0 {
            assert(crate::text::str_lt(b[0].0, b[j].0));
            crate::text::lemma_lt_transitive(a[0].0, b[0].0, b[j].0);
        }
        crate::text::lemma_lt_irreflexive(a[0].0);
    }
}

/// Two tables with the same values under the same names are the same table.
pub proof fn lemma_same_table<T>(a: Seq<(Str, T)>, b: Seq<(Str, T)>)
    requires
        tab_sorted(a),
        tab_sorted(b),
        forall|k: Str| #[trigger] tab_get(a, k) == tab_get(b, k),
    ensures
        a == b,
    decreases a.len(),
{
    if a.len() == 0 {
        if b.len() > 0 {
            lemma_first_not_less(b, a);
        }
        assert(a =~= b);
    } else {
        lemma_first_not_less(a, b);
        lemma_first_not_less(b, a);
        crate::text::lemma_lt_total(a[0].0, b[0].0);
        lemma_find_at(a, 0);
        lemma_find_at(b, 0);
        assert(tab_get(a, a[0].0) == tab_get(b, a[0].0));
        lemma_tail_get(a, a[0].0);
        lemma_tail_get(b, a[0].0);
        assert forall|k: Str| #[trigger] tab_get(a.skip(1), k) == tab_get(b.skip(1), k) by {
            lemma_tail_get(a, k);
            lemma_tail_get(b, k);
            assert(tab_get(a, k) == tab_get(b, k));
        }
        lemma_same_table(a.skip(1), b.skip(1));
        assert(a =~= seq![a[0]] + a.skip(1));
        assert(b =~= seq![b[0]] + b.skip(1));
    }
}

// ---- The table ----------------------------------------------------------------

/// Values under names, in the order of the names.
#[derive(Debug, PartialEq)]
pub struct Table<V> {
    items: Vec<(String, V)>,
}

impl<V> Table<V> {
    #[verifier::type_invariant]
    pub(crate) closed spec fn ordered(self) -> bool {
        forall|i: int, j: int|
            0 <= i < j < self.items.len() ==> crate::text::str_lt(
                #[trigger] self.items@[i].0@,
                #[trigger] self.items@[j].0@,
            )
    }
}

impl<V: View> View for Table<V> {
    type V = Seq<(Str, V::V)>;

    closed spec fn view(&self) -> Seq<(Str, V::V)> {
        self.items@.map_values(|e: (String, V)| (e.0@, e.1@))
    }
}

/// The entries of a table stand in the order of their names.
pub(crate) proof fn lemma_sorted_view<V: View>(t: &Table<V>)
    requires
        t.ordered(),
    ensures
        tab_sorted(t@),
{
}

impl<V: View> Table<V> {
    /// A table without entries.
    pub fn new() -> (r: Self)
        ensures
            r@ == Seq::<(Str, V::V)>::empty(),
    {
        let r = Table { items: Vec::new() };
        assert(r@ =~= Seq::<(Str, V::V)>::empty());
        r
    }

    /// The number of entries.
    pub fn len(&self) -> (r: usize)
        ensures
            r == self@.len(),
            tab_sorted(self@),
    {
        proof {
            use_type_invariant(self);
        }
        self.items.len()
    }

    /// The table has no entries.
    pub fn is_empty(&self) -> (r: bool)
        ensures
            r == (self@.len() == 0),
    {
        self.items.len() == 0
    }

    /// The name of an entry.
    pub fn key(&self, i: usize) -> (r: &String)
        requires
            i < self@.len(),
        ensures
            r@ == self@[i as int].0,
    {
        &self.items[i].0
    }

    /// The value of an entry.
    pub fn at(&self, i: usize) -> (r: &V)
        requires
            i < self@.len(),
        ensures
            r@ == self@[i as int].1,
    {
        &self.items[i].1
    }

    /// The place of a name.
    pub fn find(&self, k: &str) -> (r: Option<usize>)
        ensures
            match r {
                Some(i) => i == tab_find(self@, k@, 0) && i < self@.len(),
                None => !tab_has(self@, k@),
            },
    {
        let mut i: usize = 0;
        while i < self.items.len()
            invariant
                i <= self@.len(),
                self@.len() == self.items.len(),
                tab_find(self@, k@, 0) == tab_find(self@, k@, i as int),
            decreases self.items.len() - i,
        {
            if same(self.items[i].0.as_str(), k) {
                return Some(i);
            }
            i = i + 1;
        }
        None
    }

    /// The table has an entry of this name.
    pub fn contains_key(&self, k: &str) -> (r: bool)
        ensures
            r == tab_has(self@, k@),
    {
        self.find(k).is_some()
    }

    /// The value under a name.
    pub fn get(&self, k: &str) -> (r: Option<&V>)
        ensures
            crate::text::oview(r) == tab_get(self@, k@),
            r is Some == tab_has(self@, k@),
    {
        match self.find(k) {
            Some(i) => Some(&self.items[i].1),
            None => None,
        }
    }

    /// Put a value under a name, whatever stood there.
    pub fn insert(&mut self, k: String, v: V)
        ensures
            final(self)@ == tab_put(old(self)@, k@, v@),
    {
        proof {
            use_type_invariant(&*self);
        }
        let mut items: Vec<(String, V)> = Vec::new();
        std::mem::swap(&mut items, &mut self.items);
        let ghost s = old(self)@;
        let mut i: usize = 0;
        while i < items.len() && less(items[i].0.as_str(), k.as_str())
            invariant
                i <= items.len(),
                items@ == old(self).items@,
                s == old(self)@,
                tab_rank(s, k@, 0) == tab_rank(s, k@, i as int),
            decreases items.len() - i,
        {
            i = i + 1;
        }
        proof {
            lemma_put_sorted(s, k@, v@);
            assert(tab_rank(s, k@, 0) == i);
        }
        if i < items.len() && same(items[i].0.as_str(), k.as_str()) {
            let ghost before = items@;
            items.remove(i);
            items.insert(i, (k, v));
            proof {
                assert(items@ =~= before.update(i as int, (k, v)));
            }
        } else {
            items.insert(i, (k, v));
        }
        proof {
            let t = tab_put(s, k@, v@);
            let u = items@.map_values(|e: (String, V)| (e.0@, e.1@));
            assert(u =~= t);
            assert forall|a: int, b: int| 0 <= a < b < items.len() implies crate::text::str_lt(
                #[trigger] items@[a].0@,
                #[trigger] items@[b].0@,
            ) by {
                assert(crate::text::str_lt(t[a].0, t[b].0));
            }
        }
        self.items = items;
    }

    /// Take the entry of a name out.
    pub fn remove(&mut self, k: &str) -> (r: Option<V>)
        ensures
            final(self)@ == tab_del(old(self)@, k@),
            crate::text::oview(r) == tab_get(old(self)@, k@),
    {
        proof {
            use_type_invariant(&*self);
        }
        match self.find(k) {
            Some(i) => {
                let mut items: Vec<(String, V)> = Vec::new();
                std::mem::swap(&mut items, &mut self.items);
                let e = items.remove(i);
                proof {
                    let s = old(self)@;
                    let t = tab_del(s, k@);
                    lemma_del_sorted(s, k@);
                    let u = items@.map_values(|e: (String, V)| (e.0@, e.1@));
                    assert(u =~= t);
                    assert forall|a: int, b: int| 0 <= a < b < items.len() implies crate::text::str_lt(
                        #[trigger] items@[a].0@,
                        #[trigger] items@[b].0@,
                    ) by {
                        assert(crate::text::str_lt(t[a].0, t[b].0));
                    }
                }
                self.items = items;
                Some(e.1)
            },
            None => {
                proof {
                    lemma_find(self@, k@, 0);
                }
                None
            },
        }
    }

    /// The names of the entries.
    pub fn keys(&self) -> (r: Vec<String>)
        ensures
            views(r@) == tab_keys(self@),
    {
        let mut out: Vec<String> = Vec::new();
        let mut i: usize = 0;
        while i < self.items.len()
            invariant
                i <= self@.len(),
                self@.len() == self.items.len(),
                views(out@) == tab_keys(self@).take(i as int),
            decreases self.items.len() - i,
        {
            out.push(self.items[i].0.clone());
            proof {
                assert(tab_keys(self@).take(i + 1) =~= tab_keys(self@).take(i as int).push(self@[i as int].0));
            }
            i = i + 1;
        }
        proof {
            assert(tab_keys(self@).take(i as int) =~= tab_keys(self@));
        }
        out
    }
}

impl<V: View> Table<V> {
    /// Keep the entries that the mask does not leave out.
    pub fn keep(&mut self, mask: &Vec<bool>)
        requires
            mask.len() == old(self)@.len(),
        ensures
            final(self)@ == tab_masked(old(self)@, mask@, mask.len() as int),
    {
        proof {
            use_type_invariant(&*self);
        }
        let mut items: Vec<(String, V)> = Vec::new();
        std::mem::swap(&mut items, &mut self.items);
        let ghost s = old(self)@;
        let ghost f = |e: (String, V)| (e.0@, e.1@);
        let mut i: usize = 0;
        let mut k: usize = 0;
        proof {
            assert(items@.map_values(f) =~= tab_masked(s, mask@, 0) + s.skip(0));
        }
        while k < mask.len()
            invariant
                i <= k <= mask.len(),
                mask.len() == s.len(),
                tab_sorted(s),
                f == (|e: (String, V)| (e.0@, e.1@)),
                i == tab_masked(s, mask@, k as int).len(),
                items@.map_values(f) == tab_masked(s, mask@, k as int) + s.skip(k as int),
            decreases mask.len() - k,
        {
            assert(items@.map_values(f).len() == i + (s.len() - k));
            let ghost before = items@.map_values(f);
            if mask[k] {
                proof {
                    assert(before =~= tab_masked(s, mask@, k + 1) + s.skip(k + 1));
                }
                i = i + 1;
            } else {
                items.remove(i);
                proof {
                    assert(items@.map_values(f) =~= before.remove(i as int));
                    assert(before.remove(i as int) =~= tab_masked(s, mask@, k + 1) + s.skip(k + 1));
                }
            }
            k = k + 1;
        }
        proof {
            let t = tab_masked(s, mask@, k as int);
            let u = items@.map_values(f);
            assert(t + s.skip(k as int) =~= t);
            lemma_masked(s, mask@, k as int);
            assert forall|a: int, b: int| 0 <= a < b < items.len() implies crate::text::str_lt(
                #[trigger] items@[a].0@,
                #[trigger] items@[b].0@,
            ) by {
                assert(u[a] == f(items@[a]));
                assert(u[b] == f(items@[b]));
                assert(crate::text::str_lt(t[a].0, t[b].0));
            }
        }
        self.items = items;
    }
}

impl Table<String> {
    /// Take out the entries that hold `v`.
    pub fn remove_value(&mut self, v: &str)
        ensures
            final(self)@ == tab_unlike(old(self)@, v@),
    {
        let n: usize = self.len();
        let mut mask: Vec<bool> = Vec::new();
        let mut i: usize = 0;
        while i < n
            invariant
                i <= n,
                n == self@.len(),
                self@ == old(self)@,
                mask@ == self@.map_values(|e: (Str, Str)| e.1 != v@).take(i as int),
            decreases n - i,
        {
            mask.push(!same(self.at(i).as_str(), v));
            proof {
                let m = self@.map_values(|e: (Str, Str)| e.1 != v@);
                assert(m.take(i + 1) =~= m.take(i as int).push(m[i as int]));
            }
            i = i + 1;
        }
        proof {
            let m = self@.map_values(|e: (Str, Str)| e.1 != v@);
            assert(m.take(i as int) =~= m);
        }
        self.keep(&mask);
    }
}

impl<V: View> Table<Table<V>> {
    /// The value under `b` in the table under `a`.
    pub fn nested(&self, a: &str, b: &str) -> (r: Option<&V>)
        ensures
            crate::text::oview(r) == nest_get(self@, a@, b@),
    {
        match self.get(a) {
            Some(m) => m.get(b),
            None => None,
        }
    }

    /// Make a table under `a` where there is none.
    pub fn open_nested(&mut self, a: &str)
        ensures
            final(self)@ == nest_open(old(self)@, a@),
    {
        if !self.contains_key(a) {
            self.insert(a.to_owned(), Table::new());
        }
    }

    /// Put a value under `b` in the table under `a`, which is made where there is none.
    pub fn put_nested(&mut self, a: &str, b: String, v: V)
        ensures
            final(self)@ == nest_put(old(self)@, a@, b@, v@),
    {
        proof {
            use_type_invariant(&*self);
            lemma_sorted_view(self);
        }
        let ghost s = self@;
        let mut m = match self.remove(a) {
            Some(m) => m,
            None => Table::new(),
        };
        m.insert(b, v);
        let ghost w = m@;
        self.insert(a.to_owned(), m);
        proof {
            lemma_del_put(s, a@, w);
        }
    }

    /// Take `b` out of the table under `a`.
    pub fn remove_nested(&mut self, a: &str, b: &str) -> (r: Option<V>)
        ensures
            final(self)@ == nest_del(old(self)@, a@, b@),
            crate::text::oview(r) == nest_get(old(self)@, a@, b@),
    {
        proof {
            use_type_invariant(&*self);
            lemma_sorted_view(self);
        }
        let ghost s = self@;
        match self.remove(a) {
            Some(m) => {
                let mut t = m;
                let r = t.remove(b);
                let ghost w = t@;
                self.insert(a.to_owned(), t);
                proof {
                    lemma_del_put(s, a@, w);
                }
                r
            },
            None => {
                proof {
                    lemma_find(s, a@, 0);
                }
                None
            },
        }
    }

    /// Take out the tables that have no entries.
    pub fn prune(&mut self)
        ensures
            final(self)@ == tab_pruned(old(self)@),
    {
        let n: usize = self.len();
        let mut mask: Vec<bool> = Vec::new();
        let mut i: usize = 0;
        while i < n
            invariant
                i <= n,
                n == self@.len(),
                self@ == old(self)@,
                mask@ == self@.map_values(|e: (Str, Seq<(Str, V::V)>)| e.1.len() > 0).take(i as int),
            decreases n - i,
        {
            mask.push(!self.at(i).is_empty());
            proof {
                let m = self@.map_values(|e: (Str, Seq<(Str, V::V)>)| e.1.len() > 0);
                assert(m.take(i + 1) =~= m.take(i as int).push(m[i as int]));
            }
            i = i + 1;
        }
        proof {
            let m = self@.map_values(|e: (Str, Seq<(Str, V::V)>)| e.1.len() > 0);
            assert(m.take(i as int) =~= m);
        }
        self.keep(&mask);
    }

    /// Take `b` out of every table.
    pub fn forget(&mut self, b: &str)
        ensures
            final(self)@ == nest_forget(old(self)@, b@),
    {
        proof {
            use_type_invariant(&*self);
        }
        let mut items: Vec<(String, Table<V>)> = Vec::new();
        std::mem::swap(&mut items, &mut self.items);
        let mut out: Vec<(String, Table<V>)> = Vec::new();
        let ghost first = items@;
        let ghost s = old(self)@;
        while items.len() > 0
            invariant
                first == old(self).items@,
                s == old(self)@,
                out.len() + items.len() == first.len(),
                items@ == first.take(items.len() as int),
                forall|k: int|
                    0 <= k < out.len() ==> #[trigger] out@[k].0@ == first[k + items.len()].0@ && out@[k].1@ == tab_del(
                        first[k + items.len()].1@,
                        b@,
                    ),
            decreases items.len(),
        {
            let (k, m) = items.pop().unwrap();
            let mut t = m;
            t.remove(b);
            let ghost before = out@;
            out.insert(0, (k, t));
            proof {
                assert(out@ =~= seq![(k, t)] + before);
            }
        }
        proof {
            let f = |e: (String, Table<V>)| (e.0@, e.1@);
            assert(out@.map_values(f) =~= nest_forget(s, b@)) by {
                assert forall|k: int| 0 <= k < out.len() implies out@.map_values(f)[k] == #[trigger] nest_forget(
                    s,
                    b@,
                )[k] by {
                    assert(out@[k].0@ == first[k].0@);
                }
            }
            assert forall|x: int, y: int| 0 <= x < y < out.len() implies crate::text::str_lt(
                #[trigger] out@[x].0@,
                #[trigger] out@[y].0@,
            ) by {
                assert(out@[x].0@ == first[x].0@);
                assert(out@[y].0@ == first[y].0@);
            }
        }
        self.items = out;
    }
}

impl<V: Dup> Dup for Table<V> {
    fn dup(&self) -> (r: Self) {
        proof {
            use_type_invariant(self);
        }
        let mut items: Vec<(String, V)> = Vec::new();
        let mut i: usize = 0;
        while i < self.items.len()
            invariant
                i <= self.items.len(),
                items.len() == i,
                forall|k: int|
                    0 <= k < i ==> #[trigger] items@[k].0@ == self.items@[k].0@ && items@[k].1@
                        == self.items@[k].1@,
            decreases self.items.len() - i,
        {
            items.push((self.items[i].0.clone(), self.items[i].1.dup()));
            i = i + 1;
        }
        let r = Table { items };
        assert(r@ =~= self@);
        r
    }
}

impl<V: Alike> Alike for Table<V> {
    fn alike(&self, other: &Self) -> (r: bool) {
        if self.items.len() != other.items.len() {
            assert(self@.len() != other@.len());
            return false;
        }
        let mut i: usize = 0;
        while i < self.items.len()
            invariant
                i <= self.items.len(),
                self.items.len() == other.items.len(),
                forall|k: int| 0 <= k < i ==> #[trigger] self@[k] == other@[k],
            decreases self.items.len() - i,
        {
            if !same(self.items[i].0.as_str(), other.items[i].0.as_str()) || !self.items[i].1.alike(&other.items[i].1) {
                assert(self@[i as int] != other@[i as int]);
                return false;
            }
            i = i + 1;
        }
        assert(self@ =~= other@);
        true
    }
}

impl<V: View> Default for Table<V> {
    fn default() -> (r: Self)
        ensures
            r@ == Seq::<(Str, V::V)>::empty(),
    {
        Table::new()
    }
}

} // verus!
