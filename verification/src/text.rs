//! Text: characters, order, numbers and search, stated over sequences of characters.
use vstd::prelude::*;

verus! {

/// The characters of a string.
pub type Str = Seq<char>;

/// The views of the elements of a sequence.
pub open spec fn views<T: View>(s: Seq<T>) -> Seq<T::V> {
    s.map_values(|t: T| t@)
}

/// The view of what an option holds.
pub open spec fn oview<T: View>(o: Option<T>) -> Option<T::V> {
    match o {
        Some(t) => Some(t@),
        None => None,
    }
}

pub broadcast proof fn lemma_views_push<T: View>(s: Seq<T>, t: T)
    ensures
        #[trigger] views(s.push(t)) == views(s).push(t@),
{
    assert(views(s.push(t)) =~= views(s).push(t@));
}

pub broadcast proof fn lemma_views_empty<T: View>(s: Seq<T>)
    requires
        s.len() == 0,
    ensures
        #[trigger] views(s) == Seq::<T::V>::empty(),
{
    assert(views(s) =~= Seq::<T::V>::empty());
}

pub broadcast group group_views {
    lemma_views_push,
    lemma_views_empty,
}

/// Append one character (`String::push`).
#[verifier::external_body]
pub(crate) fn push_char(s: &mut String, c: char)
    ensures
        final(s)@ == old(s)@.push(c),
{
    s.push(c)
}

/// Both texts hold the same characters.
pub fn same(a: &str, b: &str) -> (r: bool)
    ensures
        r == (a@ == b@),
{
    let mut x = a.chars();
    let mut y = b.chars();
    let ghost mut n: int = 0;
    loop
        invariant
            0 <= n <= a@.len(),
            n <= b@.len(),
            vstd::std_specs::iter::IteratorSpec::remaining(&x) == a@.skip(n),
            vstd::std_specs::iter::IteratorSpec::remaining(&y) == b@.skip(n),
            a@.take(n) == b@.take(n),
            vstd::std_specs::iter::IteratorSpec::obeys_prophetic_iter_laws(&x),
            vstd::std_specs::iter::IteratorSpec::obeys_prophetic_iter_laws(&y),
        decreases a@.len() - n,
    {
        match (x.next(), y.next()) {
            (Some(c), Some(d)) => {
                if c != d {
                    assert(a@[n] == c && b@[n] == d);
                    return false;
                }
                proof {
                    assert(a@.take(n + 1) =~= a@.take(n).push(c));
                    assert(b@.take(n + 1) =~= b@.take(n).push(d));
                    assert(a@.skip(n).drop_first() =~= a@.skip(n + 1));
                    assert(b@.skip(n).drop_first() =~= b@.skip(n + 1));
                    n = n + 1;
                }
            },
            (None, None) => {
                assert(a@ =~= a@.take(n));
                assert(b@ =~= b@.take(n));
                return true;
            },
            _ => {
                assert(a@.len() != b@.len());
                return false;
            },
        }
    }
}

/// The characters of a text, one by one.
pub fn chars_of(s: &str) -> (r: Vec<char>)
    ensures
        r@ == s@,
{
    let mut r: Vec<char> = Vec::new();
    let mut it = s.chars();
    loop
        invariant
            vstd::std_specs::iter::IteratorSpec::obeys_prophetic_iter_laws(&it),
            r@ + vstd::std_specs::iter::IteratorSpec::remaining(&it) == s@,
        decreases s@.len() - r.len(),
    {
        let ghost before = vstd::std_specs::iter::IteratorSpec::remaining(&it);
        match it.next() {
            Some(c) => {
                proof {
                    assert(before =~= seq![c] + before.drop_first());
                    assert(r@ + before =~= r@.push(c) + before.drop_first());
                }
                r.push(c);
            },
            None => {
                assert(r@ =~= s@);
                return r;
            },
        }
    }
}

/// The text made of the characters from `from` up to `to`.
pub fn from_chars(v: &Vec<char>, from: usize, to: usize) -> (r: String)
    requires
        from <= to <= v.len(),
    ensures
        r@ == v@.subrange(from as int, to as int),
{
    let mut r = String::new();
    let mut i: usize = from;
    while i < to
        invariant
            from <= i <= to <= v.len(),
            r@ == v@.subrange(from as int, i as int),
        decreases to - i,
    {
        push_char(&mut r, v[i]);
        assert(v@.subrange(from as int, i + 1) =~= v@.subrange(from as int, i as int).push(v@[i as int]));
        i = i + 1;
    }
    r
}

/// The order of texts: by the first character in which they differ, a prefix first.
pub open spec fn str_lt(a: Str, b: Str) -> bool
    decreases a.len(),
{
    if b.len() == 0 {
        false
    } else if a.len() == 0 {
        true
    } else if a[0] != b[0] {
        a[0] < b[0]
    } else {
        str_lt(a.skip(1), b.skip(1))
    }
}

/// `a` stands before `b`.
pub fn less(a: &str, b: &str) -> (r: bool)
    ensures
        r == str_lt(a@, b@),
{
    let mut x = a.chars();
    let mut y = b.chars();
    let ghost mut n: int = 0;
    proof {
        assert(a@.skip(0) =~= a@);
        assert(b@.skip(0) =~= b@);
    }
    loop
        invariant
            vstd::std_specs::iter::IteratorSpec::obeys_prophetic_iter_laws(&x),
            vstd::std_specs::iter::IteratorSpec::obeys_prophetic_iter_laws(&y),
            0 <= n <= a@.len(),
            n <= b@.len(),
            vstd::std_specs::iter::IteratorSpec::remaining(&x) == a@.skip(n),
            vstd::std_specs::iter::IteratorSpec::remaining(&y) == b@.skip(n),
            str_lt(a@, b@) == str_lt(a@.skip(n), b@.skip(n)),
        decreases a@.len() - n,
    {
        match (x.next(), y.next()) {
            (Some(c), Some(d)) => {
                if c != d {
                    return c < d;
                }
                proof {
                    assert(a@.skip(n).drop_first() =~= a@.skip(n + 1));
                    assert(b@.skip(n).drop_first() =~= b@.skip(n + 1));
                    assert(a@.skip(n).skip(1) =~= a@.skip(n + 1));
                    assert(b@.skip(n).skip(1) =~= b@.skip(n + 1));
                    n = n + 1;
                }
            },
            (_, None) => {
                return false;
            },
            (None, Some(_)) => {
                return true;
            },
        }
    }
}

/// No text stands before itself, and of two texts at most one stands before the other.
pub proof fn lemma_lt_irreflexive(a: Str)
    ensures
        !str_lt(a, a),
    decreases a.len(),
{
    if a.len() > 0 {
        lemma_lt_irreflexive(a.skip(1));
    }
}

/// The order of texts is transitive.
pub proof fn lemma_lt_transitive(a: Str, b: Str, c: Str)
    requires
        str_lt(a, b),
        str_lt(b, c),
    ensures
        str_lt(a, c),
    decreases a.len(),
{
    if a.len() > 0 && b.len() > 0 && c.len() > 0 && a[0] == b[0] && b[0] == c[0] {
        lemma_lt_transitive(a.skip(1), b.skip(1), c.skip(1));
    }
}

/// Of two different texts one stands before the other.
pub proof fn lemma_lt_total(a: Str, b: Str)
    ensures
        a == b || str_lt(a, b) || str_lt(b, a),
    decreases a.len(),
{
    if a.len() > 0 && b.len() > 0 && a[0] == b[0] {
        lemma_lt_total(a.skip(1), b.skip(1));
        if a.skip(1) == b.skip(1) {
            assert(a =~= seq![a[0]] + a.skip(1));
            assert(b =~= seq![b[0]] + b.skip(1));
        }
    } else if a.len() == 0 && b.len() == 0 {
        assert(a =~= b);
    }
}

// ---- Prefixes and positions ---------------------------------------------------

/// `s` begins with `p`.
pub open spec fn has_prefix(s: Str, p: Str) -> bool {
    p.len() <= s.len() && s.take(p.len() as int) == p
}

/// `s` begins with `p`.
pub fn starts(s: &str, p: &str) -> (r: bool)
    ensures
        r == has_prefix(s@, p@),
{
    let n: usize = p.unicode_len();
    let m: usize = s.unicode_len();
    n <= m && same(s.substring_char(0, n), p)
}

/// What follows the prefix `p`; `None` where `s` does not begin with it.
pub fn strip<'a>(s: &'a str, p: &str) -> (r: Option<&'a str>)
    ensures
        match r {
            Some(t) => has_prefix(s@, p@) && t@ == s@.skip(p@.len() as int),
            None => !has_prefix(s@, p@),
        },
{
    let n: usize = p.unicode_len();
    let m: usize = s.unicode_len();
    if starts(s, p) {
        Some(s.substring_char(n, m))
    } else {
        None
    }
}

/// `s` ends with `p`.
pub open spec fn has_suffix(s: Str, p: Str) -> bool {
    p.len() <= s.len() && s.skip(s.len() - p.len()) == p
}

/// What stands before the suffix `p`; `None` where `s` does not end with it.
pub fn strip_end<'a>(s: &'a str, p: &str) -> (r: Option<&'a str>)
    ensures
        match r {
            Some(t) => has_suffix(s@, p@) && t@ == s@.take(s@.len() - p@.len()),
            None => !has_suffix(s@, p@),
        },
{
    let n: usize = p.unicode_len();
    let m: usize = s.unicode_len();
    if n > m {
        return None;
    }
    let tail = s.substring_char(m - n, m);
    proof {
        assert(tail@ =~= s@.skip(m - n));
    }
    if same(tail, p) {
        let head = s.substring_char(0, m - n);
        proof {
            assert(head@ =~= s@.take(m - n));
        }
        Some(head)
    } else {
        None
    }
}

/// `s` without the characters `c` at its end.
pub open spec fn trim_end_of(s: Str, c: char) -> Str
    decreases s.len(),
{
    if s.len() > 0 && s.last() == c {
        trim_end_of(s.drop_last(), c)
    } else {
        s
    }
}

/// `s` without the characters `c` at its end.
pub fn trim_end<'a>(s: &'a str, c: char) -> (r: &'a str)
    ensures
        r@ == trim_end_of(s@, c),
{
    let v = chars_of(s);
    let mut n: usize = v.len();
    proof {
        assert(s@.take(n as int) =~= s@);
    }
    while n > 0 && v[n - 1] == c
        invariant
            n <= v.len(),
            v@ == s@,
            trim_end_of(s@, c) == trim_end_of(s@.take(n as int), c),
        decreases n,
    {
        proof {
            assert(s@.take(n as int).drop_last() =~= s@.take(n - 1));
        }
        n = n - 1;
    }
    proof {
        assert(s@.take(n as int) =~= s@.subrange(0, n as int));
    }
    s.substring_char(0, n)
}

/// `s` without the characters `c` at its beginning.
pub open spec fn trim_start_of(s: Str, c: char) -> Str
    decreases s.len(),
{
    if s.len() > 0 && s[0] == c {
        trim_start_of(s.skip(1), c)
    } else {
        s
    }
}

/// `s` without the characters `c` at its beginning and at its end.
pub fn trim_both(s: &str, c: char) -> (r: String)
    ensures
        r@ == trim_end_of(trim_start_of(s@, c), c),
{
    let v = chars_of(s);
    let mut i: usize = 0;
    proof {
        assert(v@.skip(0) =~= v@);
    }
    while i < v.len() && v[i] == c
        invariant
            i <= v.len(),
            v@ == s@,
            trim_start_of(s@, c) == trim_start_of(v@.skip(i as int), c),
        decreases v.len() - i,
    {
        proof {
            assert(v@.skip(i as int).skip(1) =~= v@.skip(i + 1));
        }
        i = i + 1;
    }
    let rest = from_chars(&v, i, v.len());
    proof {
        assert(rest@ =~= v@.skip(i as int));
    }
    trim_end(rest.as_str(), c).to_owned()
}

/// The last place of `c` in `s`, or -1.
pub open spec fn last_index(s: Str, c: char) -> int
    decreases s.len(),
{
    if s.len() == 0 {
        -1
    } else if s.last() == c {
        s.len() - 1
    } else {
        last_index(s.drop_last(), c)
    }
}

/// The parts before and after the last `c`.
pub fn rsplit_at<'a>(s: &'a str, c: char) -> (r: Option<(&'a str, &'a str)>)
    ensures
        match r {
            Some((a, b)) => {
                let i = last_index(s@, c);
                0 <= i < s@.len() && a@ == s@.take(i) && b@ == s@.skip(i + 1)
            },
            None => last_index(s@, c) == -1,
        },
{
    let v = chars_of(s);
    let mut n: usize = v.len();
    proof {
        assert(s@.take(n as int) =~= s@);
    }
    while n > 0
        invariant
            n <= v.len(),
            v@ == s@,
            last_index(s@, c) == last_index(s@.take(n as int), c),
        decreases n,
    {
        proof {
            assert(s@.take(n as int).drop_last() =~= s@.take(n - 1));
        }
        if v[n - 1] == c {
            proof {
                assert(s@.take(n - 1) =~= s@.subrange(0, n - 1));
                assert(s@.skip(n as int) =~= s@.subrange(n as int, s@.len() as int));
            }
            return Some((s.substring_char(0, n - 1), s.substring_char(n, v.len())));
        }
        n = n - 1;
    }
    None
}

/// The first place of `c` in `s` from `i` on, or the length of `s`.
pub open spec fn index_from(s: Str, c: char, i: int) -> int
    decreases s.len() - i,
{
    if i >= s.len() {
        s.len() as int
    } else if s[i] == c {
        i
    } else {
        index_from(s, c, i + 1)
    }
}

/// The first place of `c` from `i` on, or the length.
pub fn find_char(v: &Vec<char>, c: char, i: usize) -> (r: usize)
    requires
        i <= v.len(),
    ensures
        r == index_from(v@, c, i as int),
        i <= r <= v.len(),
        r < v.len() ==> v@[r as int] == c,
{
    let mut j: usize = i;
    while j < v.len() && v[j] != c
        invariant
            i <= j <= v.len(),
            index_from(v@, c, i as int) == index_from(v@, c, j as int),
        decreases v.len() - j,
    {
        j = j + 1;
    }
    j
}

/// The pieces of `s` from `i` on, between the characters `c`.
pub open spec fn pieces(s: Str, c: char, i: int) -> Seq<Str>
    decreases s.len() - i,
    when 0 <= i <= s.len()
{
    let j = index_from(s, c, i);
    if j < i || j >= s.len() {
        seq![s.subrange(i, s.len() as int)]
    } else {
        seq![s.subrange(i, j)] + pieces(s, c, j + 1)
    }
}

/// The pieces of a text between the characters `c` (`str::split`).
pub fn split(s: &str, c: char) -> (r: Vec<String>)
    ensures
        views(r@) == pieces(s@, c, 0),
        r.len() > 0,
{
    broadcast use group_views;
    let v = chars_of(s);
    let mut out: Vec<String> = Vec::new();
    let mut i: usize = 0;
    proof {
        assert(views(out@) + pieces(s@, c, 0) =~= pieces(s@, c, 0));
    }
    loop
        invariant
            v@ == s@,
            0 <= i <= v.len(),
            views(out@) + pieces(s@, c, i as int) == pieces(s@, c, 0),
        decreases v.len() - i,
    {
        let j: usize = find_char(&v, c, i);
        let ghost before = views(out@);
        out.push(from_chars(&v, i, j));
        if j >= v.len() {
            return out;
        }
        proof {
            let head = seq![s@.subrange(i as int, j as int)];
            assert(before + (head + pieces(s@, c, j + 1)) =~= views(out@) + pieces(s@, c, j + 1));
        }
        i = j + 1;
    }
}

/// The first place from `i` on where `p` stands in `s`, or the length of `s` plus one.
pub open spec fn text_from(s: Str, p: Str, i: int) -> int
    decreases s.len() - i + 1,
{
    if i > s.len() {
        s.len() as int + 1
    } else if has_prefix(s.skip(i), p) {
        i
    } else {
        text_from(s, p, i + 1)
    }
}

/// `p` stands somewhere in `s`.
pub open spec fn has_text(s: Str, p: Str) -> bool {
    text_from(s, p, 0) <= s.len()
}

fn prefix_at(v: &Vec<char>, i: usize, p: &Vec<char>) -> (r: bool)
    requires
        i <= v.len(),
    ensures
        r == has_prefix(v@.skip(i as int), p@),
{
    if p.len() > v.len() - i {
        return false;
    }
    let mut k: usize = 0;
    while k < p.len()
        invariant
            k <= p.len() <= v.len() - i,
            forall|x: int| 0 <= x < k ==> v@[i + x] == p@[x],
        decreases p.len() - k,
    {
        if v[i + k] != p[k] {
            assert(v@.skip(i as int).take(p@.len() as int)[k as int] != p@[k as int]);
            return false;
        }
        k = k + 1;
    }
    assert(v@.skip(i as int).take(p@.len() as int) =~= p@);
    true
}

/// The first place of `p` in `s` from `i` on, or the length plus one.
pub fn find_text(v: &Vec<char>, p: &Vec<char>, i: usize) -> (r: Option<usize>)
    requires
        i <= v.len(),
    ensures
        match r {
            Some(j) => i <= j && j + p@.len() <= v.len() && j == text_from(v@, p@, i as int)
                && has_prefix(v@.skip(j as int), p@),
            None => text_from(v@, p@, i as int) > v.len(),
        },
{
    let mut j: usize = i;
    loop
        invariant
            i <= j <= v.len(),
            text_from(v@, p@, i as int) == text_from(v@, p@, j as int),
        decreases v.len() - j,
    {
        if prefix_at(v, j, p) {
            return Some(j);
        }
        if j >= v.len() {
            assert(text_from(v@, p@, j + 1) == v.len() + 1);
            return None;
        }
        j = j + 1;
    }
}

/// `p` stands somewhere in `s`.
pub fn contains(s: &str, p: &str) -> (r: bool)
    ensures
        r == has_text(s@, p@),
{
    find_text(&chars_of(s), &chars_of(p), 0).is_some()
}

/// The parts before and after the first `p`.
pub fn split_text<'a>(s: &'a str, p: &str) -> (r: Option<(&'a str, &'a str)>)
    ensures
        match r {
            Some((a, b)) => {
                let i = text_from(s@, p@, 0);
                has_text(s@, p@) && 0 <= i && i + p@.len() <= s@.len() && a@ == s@.take(i) && b@ == s@.skip(
                    i + p@.len(),
                )
            },
            None => !has_text(s@, p@),
        },
{
    let v = chars_of(s);
    let w = chars_of(p);
    match find_text(&v, &w, 0) {
        Some(i) => {
            proof {
                assert(s@.take(i as int) =~= s@.subrange(0, i as int));
                assert(s@.skip(i + p@.len()) =~= s@.subrange(i + p@.len(), s@.len() as int));
            }
            Some((s.substring_char(0, i), s.substring_char(i + w.len(), v.len())))
        },
        None => None,
    }
}

/// `s` from `i` on with each `p` replaced by `by`, from left to right.
pub open spec fn replaced(s: Str, p: Str, by: Str, i: int) -> Str
    decreases s.len() - i,
    when 0 <= i <= s.len() && p.len() > 0
{
    if i >= s.len() {
        Seq::empty()
    } else if has_prefix(s.skip(i), p) {
        by + replaced(s, p, by, i + p.len())
    } else {
        seq![s[i]] + replaced(s, p, by, i + 1)
    }
}

/// What stands before a text changes nothing of what is replaced in it.
pub proof fn lemma_replaced_shift(a: Str, b: Str, p: Str, by: Str, i: int)
    requires
        0 <= i <= b.len(),
        p.len() > 0,
    ensures
        replaced(a + b, p, by, a.len() + i) == replaced(b, p, by, i),
    decreases b.len() - i,
{
    if i < b.len() {
        assert((a + b).skip(a.len() + i) =~= b.skip(i));
        assert((a + b)[a.len() + i] == b[i]);
        if has_prefix(b.skip(i), p) {
            lemma_replaced_shift(a, b, p, by, i + p.len());
        } else {
            lemma_replaced_shift(a, b, p, by, i + 1);
        }
    }
}

/// A single character is replaced in the parts of a text as in the whole.
pub proof fn lemma_replaced_split(a: Str, b: Str, c: char, by: Str)
    ensures
        replaced(a + b, seq![c], by, 0) == replaced(a, seq![c], by, 0) + replaced(b, seq![c], by, 0),
    decreases a.len(),
{
    if a.len() == 0 {
        assert(a + b =~= b);
        assert(replaced(a, seq![c], by, 0) + replaced(b, seq![c], by, 0) =~= replaced(b, seq![c], by, 0));
    } else {
        let head = seq![a[0]];
        let rest = a.skip(1);
        assert(a =~= head + rest);
        assert(a + b =~= head + (rest + b));
        lemma_replaced_split(rest, b, c, by);
        lemma_replaced_shift(head, rest + b, seq![c], by, 0);
        lemma_replaced_shift(head, rest, seq![c], by, 0);
        lemma_starts_with(a + b, c);
        lemma_starts_with(a, c);
        let one = if a[0] == c {
            by
        } else {
            head
        };
        assert(one + (replaced(rest, seq![c], by, 0) + replaced(b, seq![c], by, 0)) =~= one + replaced(rest, seq![c], by, 0)
            + replaced(b, seq![c], by, 0));
    }
}

proof fn lemma_starts_with(s: Str, c: char)
    requires
        s.len() > 0,
    ensures
        has_prefix(s.skip(0), seq![c]) <==> s[0] == c,
{
    assert(s.skip(0) =~= s);
    if s[0] == c {
        assert(s.take(1) =~= seq![c]);
    }
}

/// One character, replaced or not.
pub proof fn lemma_replaced_one(x: char, c: char, by: Str)
    ensures
        replaced(seq![x], seq![c], by, 0) == if x == c {
            by
        } else {
            seq![x]
        },
{
    let s = seq![x];
    lemma_starts_with(s, c);
    assert(replaced(s, seq![c], by, 1) =~= Seq::empty());
    assert(by + Seq::<char>::empty() =~= by);
    assert(s + Seq::<char>::empty() =~= s);
}

/// Each `p` replaced by `by`, from left to right.
pub fn replace(s: &str, p: &str, by: &str) -> (r: String)
    requires
        p@.len() > 0,
    ensures
        r@ == replaced(s@, p@, by@, 0),
{
    let v = chars_of(s);
    let w = chars_of(p);
    let mut out = String::new();
    let mut i: usize = 0;
    proof {
        assert(out@ + replaced(s@, p@, by@, 0) =~= replaced(s@, p@, by@, 0));
    }
    while i < v.len()
        invariant
            v@ == s@,
            w@ == p@,
            p@.len() > 0,
            i <= v.len(),
            out@ + replaced(s@, p@, by@, i as int) == replaced(s@, p@, by@, 0),
        decreases v.len() - i,
    {
        let ghost before = out@;
        if prefix_at(&v, i, &w) {
            out.append(by);
            proof {
                assert(before + (by@ + replaced(s@, p@, by@, i + p@.len())) =~= (before + by@) + replaced(
                    s@,
                    p@,
                    by@,
                    i + p@.len(),
                ));
            }
            i = i + w.len();
        } else {
            push_char(&mut out, v[i]);
            proof {
                assert(before + (seq![s@[i as int]] + replaced(s@, p@, by@, i + 1)) =~= before.push(s@[i as int])
                    + replaced(s@, p@, by@, i + 1));
            }
            i = i + 1;
        }
    }
    proof {
        assert(out@ + replaced(s@, p@, by@, i as int) =~= out@);
    }
    out
}

// ---- White space --------------------------------------------------------------

/// The white space of Unicode (`char::is_whitespace`).
pub open spec fn is_space(c: char) -> bool {
    let n = c as int;
    ||| 9 <= n <= 13
    ||| n == 0x20
    ||| n == 0x85
    ||| n == 0xA0
    ||| n == 0x1680
    ||| 0x2000 <= n <= 0x200A
    ||| n == 0x2028
    ||| n == 0x2029
    ||| n == 0x202F
    ||| n == 0x205F
    ||| n == 0x3000
}

fn space(c: char) -> (r: bool)
    ensures
        r == is_space(c),
{
    let n: u32 = c as u32;
    (9 <= n && n <= 13) || n == 0x20 || n == 0x85 || n == 0xA0 || n == 0x1680 || (0x2000 <= n && n <= 0x200A) || n == 0x2028
        || n == 0x2029 || n == 0x202F || n == 0x205F || n == 0x3000
}

/// Some character of the text is white space.
pub open spec fn has_space(s: Str) -> bool {
    exists|i: int| 0 <= i < s.len() && is_space(#[trigger] s[i])
}

/// Some character of the text is white space.
pub fn any_space(s: &str) -> (r: bool)
    ensures
        r == has_space(s@),
{
    let v = chars_of(s);
    let mut i: usize = 0;
    while i < v.len()
        invariant
            i <= v.len(),
            v@ == s@,
            forall|k: int| 0 <= k < i ==> !is_space(#[trigger] s@[k]),
        decreases v.len() - i,
    {
        if space(v[i]) {
            assert(is_space(s@[i as int]));
            return true;
        }
        i = i + 1;
    }
    false
}

/// `s` without white space at its beginning.
pub open spec fn trim_front(s: Str) -> Str
    decreases s.len(),
{
    if s.len() > 0 && is_space(s[0]) {
        trim_front(s.skip(1))
    } else {
        s
    }
}

/// `s` without white space at its end.
pub open spec fn trim_back(s: Str) -> Str
    decreases s.len(),
{
    if s.len() > 0 && is_space(s.last()) {
        trim_back(s.drop_last())
    } else {
        s
    }
}

/// `s` without white space at its ends.
pub open spec fn trimmed(s: Str) -> Str {
    trim_back(trim_front(s))
}

/// The text without white space at its end (`str::trim_end`).
pub fn trim_right<'a>(s: &'a str) -> (r: &'a str)
    ensures
        r@ == trim_back(s@),
{
    let v = chars_of(s);
    let mut n: usize = v.len();
    proof {
        assert(s@ =~= s@.subrange(0, n as int));
    }
    while n > 0 && space(v[n - 1])
        invariant
            n <= v.len(),
            v@ == s@,
            trim_back(s@) == trim_back(s@.subrange(0, n as int)),
        decreases n,
    {
        proof {
            assert(s@.subrange(0, n as int).drop_last() =~= s@.subrange(0, n - 1));
        }
        n = n - 1;
    }
    s.substring_char(0, n)
}

/// `s` with spaces put after it up to the width `w`.
pub open spec fn padded(s: Str, w: nat) -> Str
    decreases w - s.len(),
{
    if s.len() >= w {
        s
    } else {
        padded(s.push(' '), w)
    }
}

/// The text with spaces put after it up to the width `w`.
pub fn pad(s: &str, w: usize) -> (r: String)
    ensures
        r@ == padded(s@, w as nat),
{
    let mut out = s.to_owned();
    let mut n: usize = s.unicode_len();
    while n < w
        invariant
            out@.len() == n,
            padded(s@, w as nat) == padded(out@, w as nat),
        decreases w - n,
    {
        push_char(&mut out, ' ');
        n = n + 1;
    }
    out
}

/// The text without white space at its ends (`str::trim`).
pub fn trim<'a>(s: &'a str) -> (r: &'a str)
    ensures
        r@ == trimmed(s@),
{
    let v = chars_of(s);
    let mut i: usize = 0;
    proof {
        assert(s@.skip(0) =~= s@);
    }
    while i < v.len() && space(v[i])
        invariant
            i <= v.len(),
            v@ == s@,
            trim_front(s@) == trim_front(s@.skip(i as int)),
        decreases v.len() - i,
    {
        proof {
            assert(s@.skip(i as int).skip(1) =~= s@.skip(i + 1));
        }
        i = i + 1;
    }
    let mut n: usize = v.len();
    let ghost t = s@.skip(i as int);
    proof {
        assert(t =~= s@.subrange(i as int, n as int));
    }
    while n > i && space(v[n - 1])
        invariant
            i <= n <= v.len(),
            v@ == s@,
            trim_back(t) == trim_back(s@.subrange(i as int, n as int)),
        decreases n,
    {
        proof {
            assert(s@.subrange(i as int, n as int).drop_last() =~= s@.subrange(i as int, n - 1));
        }
        n = n - 1;
    }
    s.substring_char(i, n)
}

/// The end of the word that begins at `i`: the first white space from there on, or the end.
pub open spec fn word_end(s: Str, i: int) -> int
    decreases s.len() - i,
{
    if i >= s.len() || is_space(s[i]) {
        i
    } else {
        word_end(s, i + 1)
    }
}

/// The words of `s` from `i` on.
pub open spec fn words(s: Str, i: int) -> Seq<Str>
    decreases s.len() - i,
    when 0 <= i
{
    if i >= s.len() {
        Seq::empty()
    } else if is_space(s[i]) {
        words(s, i + 1)
    } else {
        let j = word_end(s, i);
        if i < j <= s.len() {
            seq![s.subrange(i, j)] + words(s, j)
        } else {
            Seq::empty()
        }
    }
}

/// The words of a text (`str::split_whitespace`).
pub fn split_words(s: &str) -> (r: Vec<String>)
    ensures
        views(r@) == words(s@, 0),
{
    broadcast use group_views;
    let v = chars_of(s);
    let mut out: Vec<String> = Vec::new();
    let mut i: usize = 0;
    proof {
        assert(views(out@) + words(s@, 0) =~= words(s@, 0));
    }
    while i < v.len()
        invariant
            v@ == s@,
            0 <= i <= v.len(),
            views(out@) + words(s@, i as int) == words(s@, 0),
        decreases v.len() - i,
    {
        if space(v[i]) {
            i = i + 1;
        } else {
            let mut j: usize = i + 1;
            while j < v.len() && !space(v[j])
                invariant
                    v@ == s@,
                    i < j <= v.len(),
                    word_end(s@, i as int) == word_end(s@, j as int),
                decreases v.len() - j,
            {
                j = j + 1;
            }
            let ghost before = views(out@);
            out.push(from_chars(&v, i, j));
            proof {
                let head = seq![s@.subrange(i as int, j as int)];
                assert(before + (head + words(s@, j as int)) =~= views(out@) + words(s@, j as int));
            }
            i = j;
        }
    }
    proof {
        assert(views(out@) + words(s@, i as int) =~= views(out@));
    }
    out
}

// ---- Letters ------------------------------------------------------------------

/// An ASCII letter made small.
pub open spec fn lower_char(c: char) -> char {
    if 'A' <= c <= 'Z' {
        (c as int + 32) as char
    } else {
        c
    }
}

/// An ASCII letter made capital.
pub open spec fn upper_char(c: char) -> char {
    if 'a' <= c <= 'z' {
        (c as int - 32) as char
    } else {
        c
    }
}

/// `s` with its ASCII letters made small.
pub open spec fn lower(s: Str) -> Str {
    s.map_values(|c: char| lower_char(c))
}

/// `s` with its ASCII letters made capital.
pub open spec fn upper(s: Str) -> Str {
    s.map_values(|c: char| upper_char(c))
}

/// A text with its ASCII letters made small (`str::to_ascii_lowercase`).
pub fn to_lower(s: &str) -> (r: String)
    ensures
        r@ == lower(s@),
{
    let v = chars_of(s);
    let mut out = String::new();
    let mut i: usize = 0;
    while i < v.len()
        invariant
            v@ == s@,
            i <= v.len(),
            out@ == lower(s@.take(i as int)),
        decreases v.len() - i,
    {
        let c = v[i];
        let d = if 'A' <= c && c <= 'Z' {
            ((c as u8) + 32) as char
        } else {
            c
        };
        push_char(&mut out, d);
        proof {
            assert(lower(s@.take(i + 1)) =~= lower(s@.take(i as int)).push(d));
        }
        i = i + 1;
    }
    proof {
        assert(s@.take(i as int) =~= s@);
    }
    out
}

/// A text with its ASCII letters made capital (`str::to_ascii_uppercase`).
pub fn to_upper(s: &str) -> (r: String)
    ensures
        r@ == upper(s@),
{
    let v = chars_of(s);
    let mut out = String::new();
    let mut i: usize = 0;
    while i < v.len()
        invariant
            v@ == s@,
            i <= v.len(),
            out@ == upper(s@.take(i as int)),
        decreases v.len() - i,
    {
        let c = v[i];
        let d = if 'a' <= c && c <= 'z' {
            ((c as u8) - 32) as char
        } else {
            c
        };
        push_char(&mut out, d);
        proof {
            assert(upper(s@.take(i + 1)) =~= upper(s@.take(i as int)).push(d));
        }
        i = i + 1;
    }
    proof {
        assert(s@.take(i as int) =~= s@);
    }
    out
}

/// The text in capital letters, by the rules of Unicode (`str::to_uppercase`).
pub uninterp spec fn uppercase(s: Seq<char>) -> Seq<char>;

/// Every character is ASCII.
pub open spec fn all_ascii(s: Str) -> bool {
    forall|i: int| 0 <= i < s.len() ==> (#[trigger] s[i] as u32) < 128
}

/// The text in capital letters: of ASCII letters those, of others as Unicode has it.
pub open spec fn capitals(s: Str) -> Str {
    if all_ascii(s) {
        upper(s)
    } else {
        uppercase(s)
    }
}

/// `str::to_uppercase`: the text in capital letters. Of an ASCII text these are the ASCII capitals. The same
/// text always gives the same capital letters; which they are of other letters is left to the tables of
/// Unicode.
#[verifier::external_body]
pub(crate) fn to_uppercase(s: &str) -> (r: String)
    ensures
        r@ == if all_ascii(s@) {
            upper(s@)
        } else {
            uppercase(s@)
        },
{
    s.to_uppercase()
}

/// An ASCII letter.
pub open spec fn is_letter(c: char) -> bool {
    ('a' <= c <= 'z') || ('A' <= c <= 'Z')
}

/// An ASCII digit.
pub open spec fn is_digit(c: char) -> bool {
    '0' <= c <= '9'
}

/// An ASCII letter.
pub fn letter(c: char) -> (r: bool)
    ensures
        r == is_letter(c),
{
    ('a' <= c && c <= 'z') || ('A' <= c && c <= 'Z')
}

/// An ASCII digit.
pub fn digit(c: char) -> (r: bool)
    ensures
        r == is_digit(c),
{
    '0' <= c && c <= '9'
}

// ---- Numbers ------------------------------------------------------------------

/// The digit of a number below ten.
pub open spec fn digit_char(n: nat) -> char {
    (48 + n) as char
}

/// A number in decimal.
pub open spec fn dec(n: nat) -> Str
    decreases n,
{
    if n < 10 {
        seq![digit_char(n)]
    } else {
        dec(n / 10).push(digit_char(n % 10))
    }
}

/// A signed number in decimal.
pub open spec fn dec_int(n: int) -> Str {
    if n < 0 {
        seq!['-'] + dec((-n) as nat)
    } else {
        dec(n as nat)
    }
}

/// Append a number in decimal.
pub fn push_dec(s: &mut String, n: u64)
    ensures
        final(s)@ == old(s)@ + dec(n as nat),
    decreases n,
{
    if n >= 10 {
        push_dec(s, n / 10);
    }
    let ghost before = s@;
    push_char(s, ((n % 10) as u8 + 48) as char);
    proof {
        if n >= 10 {
            assert(old(s)@ + dec((n / 10) as nat).push(digit_char((n % 10) as nat)) =~= before.push(
                digit_char((n % 10) as nat),
            ));
        } else {
            assert(before + seq![digit_char(n as nat)] =~= before.push(digit_char(n as nat)));
        }
    }
}

/// Append a signed number in decimal.
pub fn push_int(s: &mut String, n: i64)
    ensures
        final(s)@ == old(s)@ + dec_int(n as int),
{
    if n < 0 {
        let ghost before = s@;
        push_char(s, '-');
        let m: u64 = if n == i64::MIN {
            9223372036854775808
        } else {
            (-n) as u64
        };
        push_dec(s, m);
        proof {
            assert(before.push('-') + dec(m as nat) =~= before + (seq!['-'] + dec(m as nat)));
        }
    } else {
        push_dec(s, n as u64);
    }
}

/// A signed number in decimal.
pub fn int_text(n: i64) -> (r: String)
    ensures
        r@ == dec_int(n as int),
{
    let mut s = String::new();
    push_int(&mut s, n);
    proof {
        assert(Seq::<char>::empty() + dec_int(n as int) =~= dec_int(n as int));
    }
    s
}

/// All characters are digits.
pub open spec fn all_digits(s: Str) -> bool {
    forall|i: int| 0 <= i < s.len() ==> is_digit(#[trigger] s[i])
}

/// The number that digits write down.
pub open spec fn digits_value(s: Str) -> nat
    decreases s.len(),
{
    if s.len() == 0 {
        0
    } else {
        digits_value(s.drop_last()) * 10 + (s.last() as int - 48) as nat
    }
}

/// The digits of a number without the plus sign that may stand before them.
pub open spec fn unsigned_digits(s: Str) -> Str {
    if s.len() > 0 && s[0] == '+' {
        s.skip(1)
    } else {
        s
    }
}

/// The number up to `max` that a text writes down (`str::parse` of an unsigned type).
pub open spec fn parsed(s: Str, max: nat) -> Option<nat> {
    let d = unsigned_digits(s);
    if d.len() > 0 && all_digits(d) && digits_value(d) <= max {
        Some(digits_value(d))
    } else {
        None
    }
}

/// A number in decimal is made of digits, and they write the number down.
pub proof fn lemma_dec(n: nat)
    ensures
        dec(n).len() > 0,
        all_digits(dec(n)),
        digits_value(dec(n)) == n,
    decreases n,
{
    if n < 10 {
        assert(dec(n).drop_last() =~= Seq::empty());
        assert(digits_value(dec(n).drop_last()) == 0);
    } else {
        lemma_dec(n / 10);
        assert(dec(n).drop_last() =~= dec(n / 10));
        assert forall|i: int| 0 <= i < dec(n).len() implies is_digit(#[trigger] dec(n)[i]) by {
            if i < dec(n / 10).len() {
                assert(dec(n)[i] == dec(n / 10)[i]);
            }
        }
    }
}

proof fn lemma_digits_value_grows(s: Str, n: int)
    requires
        0 <= n <= s.len(),
        all_digits(s),
    ensures
        digits_value(s.take(n)) <= digits_value(s),
    decreases s.len(),
{
    if n == s.len() {
        assert(s.take(n) =~= s);
    } else {
        assert(s.drop_last().take(n) =~= s.take(n));
        assert forall|i: int| 0 <= i < s.drop_last().len() implies is_digit(#[trigger] s.drop_last()[i]) by {
            assert(is_digit(s[i]));
        }
        lemma_digits_value_grows(s.drop_last(), n);
    }
}

/// The number up to `max` that a text writes down.
pub fn parse_num(s: &str, max: u64) -> (r: Option<u64>)
    ensures
        r is Some <==> parsed(s@, max as nat) is Some,
        r matches Some(n) ==> parsed(s@, max as nat) == Some(n as nat) && n <= max,
{
    let v = chars_of(s);
    let start: usize = if v.len() > 0 && v[0] == '+' {
        1
    } else {
        0
    };
    let ghost d = unsigned_digits(s@);
    assert(d =~= s@.skip(start as int));
    if start == v.len() {
        return None;
    }
    let mut n: u64 = 0;
    let mut i: usize = start;
    while i < v.len()
        invariant
            v@ == s@,
            start <= i <= v.len(),
            d == s@.skip(start as int),
            d == unsigned_digits(s@),
            n <= max,
            n == digits_value(d.take(i - start)),
            forall|x: int| 0 <= x < i - start ==> is_digit(#[trigger] d[x]),
        decreases v.len() - i,
    {
        let c = v[i];
        assert(d[i - start] == c);
        if !digit(c) {
            return None;
        }
        let m: u128 = (n as u128) * 10 + (c as u8 - 48) as u128;
        proof {
            assert(d.take(i + 1 - start).drop_last() =~= d.take(i - start));
        }
        if m > max as u128 {
            proof {
                if all_digits(d) {
                    lemma_digits_value_grows(d, i + 1 - start);
                }
            }
            return None;
        }
        n = m as u64;
        i = i + 1;
    }
    proof {
        assert(d.take(i - start) =~= d);
    }
    Some(n)
}

/// The signed number that a text writes down (`str::parse::<i32>`).
pub open spec fn parsed_signed(s: Str) -> Option<int> {
    if s.len() > 0 && s[0] == '-' {
        let d = s.skip(1);
        if d.len() > 0 && all_digits(d) && digits_value(d) <= 0x8000_0000 {
            Some(-(digits_value(d) as int))
        } else {
            None
        }
    } else {
        match parsed(s, i32::MAX as nat) {
            Some(n) => Some(n as int),
            None => None,
        }
    }
}

/// The signed number that a text writes down.
pub fn parse_i32(s: &str) -> (r: Option<i32>)
    ensures
        r is Some <==> parsed_signed(s@) is Some,
        r matches Some(n) ==> parsed_signed(s@) == Some(n as int),
{
    match strip(s, "-") {
        Some(d) => {
            proof {
                reveal_strlit("-");
                assert("-"@.len() == 1);
                assert(s@.take(1)[0] == "-"@[0]);
            }
            if starts(d, "+") {
                proof {
                    reveal_strlit("+");
                    assert(d@.take(1)[0] == "+"@[0]);
                    assert(!is_digit(d@[0]));
                }
                return None;
            }
            proof {
                reveal_strlit("+");
                if d@.len() > 0 && d@[0] == '+' {
                    assert(d@.take(1) =~= "+"@);
                }
            }
            match parse_num(d, 0x8000_0000) {
                Some(n) => Some((-(n as i64)) as i32),
                None => None,
            }
        },
        None => {
            proof {
                reveal_strlit("-");
                if s@.len() > 0 && s@[0] == '-' {
                    assert(s@.take(1) =~= "-"@);
                }
            }
            match parse_num(s, i32::MAX as u64) {
                Some(n) => Some(n as i32),
                None => None,
            }
        },
    }
}

// ---- Lists of texts -----------------------------------------------------------

/// The first `n` texts of a list, with `sep` between them.
pub open spec fn joined_upto(s: Seq<Str>, sep: Str, n: int) -> Str
    decreases n,
{
    if n <= 0 {
        Seq::empty()
    } else if n == 1 {
        s[0]
    } else {
        joined_upto(s, sep, n - 1) + sep + s[n - 1]
    }
}

/// The texts of a list with `sep` between them.
pub open spec fn joined(s: Seq<Str>, sep: Str) -> Str {
    joined_upto(s, sep, s.len() as int)
}

/// The texts of a list with `sep` between them (`[String]::join`).
pub fn join(v: &[String], sep: &str) -> (r: String)
    ensures
        r@ == joined(views(v@), sep@),
{
    let mut out = String::new();
    let mut i: usize = 0;
    while i < v.len()
        invariant
            i <= v.len(),
            out@ == joined_upto(views(v@), sep@, i as int),
        decreases v.len() - i,
    {
        if i > 0 {
            out.append(sep);
        }
        let ghost before = out@;
        out.append(v[i].as_str());
        proof {
            if i == 0 {
                assert(before + views(v@)[0] =~= views(v@)[0]);
            }
        }
        i = i + 1;
    }
    out
}

/// The list holds the text.
pub fn holds(v: &[String], s: &str) -> (r: bool)
    ensures
        r == views(v@).contains(s@),
{
    let mut i: usize = 0;
    while i < v.len()
        invariant
            i <= v.len(),
            forall|k: int| 0 <= k < i ==> #[trigger] views(v@)[k] != s@,
        decreases v.len() - i,
    {
        if same(v[i].as_str(), s) {
            assert(views(v@)[i as int] == s@);
            return true;
        }
        i = i + 1;
    }
    false
}

/// A copy of a list of texts.
pub fn copy_all(v: &[String]) -> (r: Vec<String>)
    ensures
        views(r@) == views(v@),
        r@ == v@,
{
    let mut out: Vec<String> = Vec::new();
    let mut i: usize = 0;
    while i < v.len()
        invariant
            i <= v.len(),
            out@ == v@.take(i as int),
        decreases v.len() - i,
    {
        out.push(v[i].clone());
        proof {
            assert(v@.take(i + 1) =~= v@.take(i as int).push(v@[i as int]));
        }
        i = i + 1;
    }
    proof {
        assert(v@.take(i as int) =~= v@);
    }
    out
}

/// A text that may be missing, copied.
pub fn copy_opt(o: &Option<String>) -> (r: Option<String>)
    ensures
        r == *o,
{
    match o {
        Some(s) => Some(s.clone()),
        None => None,
    }
}

/// A borrowed text that may be missing.
pub fn opt_str(o: &Option<String>) -> (r: Option<&str>)
    ensures
        oview(r) == oview(*o),
        r is Some == o is Some,
{
    match o {
        Some(s) => Some(s.as_str()),
        None => None,
    }
}

/// Two texts that may be missing are both missing or hold the same characters.
pub fn same_opt(a: Option<&str>, b: Option<&str>) -> (r: bool)
    ensures
        r == (oview(a) == oview(b)),
{
    match (a, b) {
        (Some(x), Some(y)) => same(x, y),
        (None, None) => true,
        _ => false,
    }
}

/// The text is there and holds these characters.
pub fn opt_is(a: &Option<String>, b: &str) -> (r: bool)
    ensures
        r == (oview(*a) == Some(b@)),
{
    match a {
        Some(x) => same(x.as_str(), b),
        None => false,
    }
}

// ---- Sets of names ------------------------------------------------------------

/// The names stand in ascending order, each once.
pub open spec fn ascending(s: Seq<Str>) -> bool {
    forall|i: int, j: int| 0 <= i < j < s.len() ==> #[trigger] str_lt(s[i], s[j])
}

/// How many names from `i` on, counted together with `i`, stand before `w`.
pub open spec fn name_rank(s: Seq<Str>, w: Str, i: int) -> int
    decreases s.len() - i,
{
    if i < s.len() && str_lt(s[i], w) {
        name_rank(s, w, i + 1)
    } else {
        i
    }
}

/// The ascending list with a name put in, where it is not there yet.
pub open spec fn name_put(s: Seq<Str>, w: Str) -> Seq<Str> {
    let i = name_rank(s, w, 0);
    if 0 <= i < s.len() && s[i] == w {
        s
    } else {
        s.insert(i, w)
    }
}

/// Add a name to an ascending list, where it is not there yet.
pub fn add_name(v: &mut Vec<String>, name: String)
    requires
        ascending(views(old(v)@)),
    ensures
        views(final(v)@) == name_put(views(old(v)@), name@),
        ascending(views(final(v)@)),
        forall|w: Str| #[trigger]
            views(final(v)@).contains(w) <==> w == name@ || views(old(v)@).contains(w),
{
    let mut i: usize = 0;
    while i < v.len() && less(v[i].as_str(), name.as_str())
        invariant
            i <= v.len(),
            v@ == old(v)@,
            name_rank(views(v@), name@, 0) == name_rank(views(v@), name@, i as int),
            forall|k: int| 0 <= k < i ==> str_lt(#[trigger] views(v@)[k], name@),
        decreases v.len() - i,
    {
        i = i + 1;
    }
    let ghost s = views(v@);
    if i < v.len() && same(v[i].as_str(), name.as_str()) {
        assert(s[i as int] == name@);
        return ;
    }
    v.insert(i, name);
    proof {
        let t = views(v@);
        assert(t =~= s.insert(i as int, name@));
        assert forall|k: int| i <= k < s.len() implies str_lt(name@, #[trigger] s[k]) by {
            lemma_lt_total(s[i as int], name@);
            if k > i {
                assert(str_lt(s[i as int], s[k]));
                lemma_lt_transitive(name@, s[i as int], s[k]);
            }
        }
        assert forall|a: int, b: int| 0 <= a < b < t.len() implies #[trigger] str_lt(t[a], t[b]) by {
            if b < i {
                assert(str_lt(s[a], s[b]));
            } else if b == i {
                assert(t[a] == s[a]);
            } else if a < i {
                assert(str_lt(s[a], s[b - 1]));
            } else if a > i {
                assert(str_lt(s[a - 1], s[b - 1]));
            } else {
                assert(t[b] == s[b - 1]);
            }
        }
        assert forall|w: Str| #[trigger] t.contains(w) <==> w == name@ || s.contains(w) by {
            if t.contains(w) {
                let k = choose|k: int| 0 <= k < t.len() && t[k] == w;
                if k < i {
                    assert(s[k] == w);
                } else if k > i {
                    assert(s[k - 1] == w);
                }
            }
            if w == name@ {
                assert(t[i as int] == w);
            }
            if s.contains(w) {
                let k = choose|k: int| 0 <= k < s.len() && s[k] == w;
                if k < i {
                    assert(t[k] == w);
                } else {
                    assert(t[k + 1] == w);
                }
            }
        }
    }
}

/// An ascending list with the first `n` names put in.
pub open spec fn names_with(acc: Seq<Str>, s: Seq<Str>, n: int) -> Seq<Str>
    decreases n,
{
    if n <= 0 {
        acc
    } else {
        name_put(names_with(acc, s, n - 1), s[n - 1])
    }
}

/// Put names into an ascending list.
pub fn add_names(acc: &mut Vec<String>, names: &[String])
    requires
        ascending(views(old(acc)@)),
    ensures
        views(final(acc)@) == names_with(views(old(acc)@), views(names@), names.len() as int),
        ascending(views(final(acc)@)),
{
    let ghost s = views(names@);
    let mut i: usize = 0;
    while i < names.len()
        invariant
            i <= names.len(),
            s == views(names@),
            ascending(views(acc@)),
            views(acc@) == names_with(views(old(acc)@), s, i as int),
        decreases names.len() - i,
    {
        add_name(acc, names[i].clone());
        i = i + 1;
    }
}

} // verus!
