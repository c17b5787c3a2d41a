//! Chains as they are written in a list: such a text reads as the chain it was written from.
use vstd::prelude::*;

use crate::chain::{
    chain_of, combo_of, combo_parts, combos_from, compact_of, mod_lt, mod_place, mods_put, mods_upto, parts_upto, ComboView,
};
use crate::text::{
    index_from, is_space, joined, joined_upto, lemma_lt_irreflexive, lemma_lt_total, lemma_lt_transitive, pieces, trim_back,
    trim_front, trimmed, upper, upper_char, word_end, words, Str,
};

verus! {

/// A text without white space.
pub open spec fn spaceless(s: Str) -> bool {
    forall|i: int| 0 <= i < s.len() ==> !is_space(#[trigger] s[i])
}

/// A text that can be one part of a combination: not empty, without white space and plus signs.
pub open spec fn is_part(s: Str) -> bool {
    s.len() > 0 && spaceless(s) && !s.contains('+')
}

/// Ordered modifiers, each once, in capital letters.
pub open spec fn in_order(s: Seq<Str>) -> bool {
    &&& forall|i: int, j: int| 0 <= i < j < s.len() ==> mod_lt(#[trigger] s[i], #[trigger] s[j])
    &&& forall|i: int| 0 <= i < s.len() ==> upper(#[trigger] s[i]) == s[i]
}

/// A combination as reading one gives it.
pub open spec fn normal(c: ComboView) -> bool {
    &&& in_order(c.mods)
    &&& forall|i: int| 0 <= i < c.mods.len() ==> is_part(#[trigger] c.mods[i])
    &&& is_part(c.key)
}

// ---- Capital letters and white space ----------------------------------------------------

proof fn lemma_upper_char(c: char)
    ensures
        upper_char(upper_char(c)) == upper_char(c),
        is_space(upper_char(c)) == is_space(c),
        upper_char(c) == '+' <==> c == '+',
{
}

proof fn lemma_upper(s: Str)
    ensures
        upper(upper(s)) == upper(s),
        is_part(s) ==> is_part(upper(s)),
{
    assert forall|i: int| 0 <= i < s.len() implies upper_char(upper(s)[i]) == #[trigger] upper(s)[i] by {
        lemma_upper_char(s[i]);
    }
    assert(upper(upper(s)) =~= upper(s));
    if is_part(s) {
        assert forall|i: int| 0 <= i < upper(s).len() implies !is_space(#[trigger] upper(s)[i]) && upper(s)[i] != '+' by {
            lemma_upper_char(s[i]);
            assert(s.contains(s[i]));
        }
    }
}

proof fn lemma_trim(s: Str)
    requires
        spaceless(s),
    ensures
        trimmed(s) == s,
{
    if s.len() > 0 {
        assert(!is_space(s[0]));
        assert(!is_space(s[s.len() - 1]));
    }
    assert(trim_front(s) == s);
    assert(trim_back(s) == s);
}

// ---- Modifiers ---------------------------------------------------------------------------

proof fn lemma_mod_lt(a: Str, b: Str, c: Str)
    ensures
        !mod_lt(a, a),
        mod_lt(a, b) && mod_lt(b, c) ==> mod_lt(a, c),
        a == b || mod_lt(a, b) || mod_lt(b, a),
{
    lemma_lt_irreflexive(a);
    lemma_lt_total(a, b);
    if crate::text::str_lt(a, b) && crate::text::str_lt(b, c) {
        lemma_lt_transitive(a, b, c);
    }
}

proof fn lemma_mod_place(s: Seq<Str>, m: Str, i: int)
    requires
        0 <= i <= s.len(),
    ensures
        i <= mod_place(s, m, i) <= s.len(),
        forall|k: int| i <= k < mod_place(s, m, i) ==> mod_lt(#[trigger] s[k], m),
        mod_place(s, m, i) < s.len() ==> !mod_lt(s[mod_place(s, m, i)], m),
    decreases s.len() - i,
{
    if i < s.len() && mod_lt(s[i], m) {
        lemma_mod_place(s, m, i + 1);
    }
}

proof fn lemma_mods_put(s: Seq<Str>, m: Str)
    requires
        in_order(s),
        upper(m) == m,
        is_part(m),
        forall|i: int| 0 <= i < s.len() ==> is_part(#[trigger] s[i]),
    ensures
        in_order(mods_put(s, m)),
        forall|i: int| 0 <= i < mods_put(s, m).len() ==> is_part(#[trigger] mods_put(s, m)[i]),
{
    lemma_mod_place(s, m, 0);
    let p = mod_place(s, m, 0);
    let t = mods_put(s, m);
    if !(p < s.len() && s[p] == m) {
        assert(t == s.insert(p, m));
        assert forall|i: int, j: int| 0 <= i < j < t.len() implies mod_lt(#[trigger] t[i], #[trigger] t[j]) by {
            if j < p {
                assert(t[i] == s[i] && t[j] == s[j]);
            } else if j == p {
                assert(t[i] == s[i] && t[j] == m);
            } else if i == p {
                assert(t[i] == m && t[j] == s[j - 1]);
                lemma_mod_lt(m, s[p], s[j - 1]);
                lemma_mod_lt(s[p], m, m);
            } else {
                assert(t[j] == s[j - 1]);
                assert(t[i] == s[if i < p { i } else { i - 1 }]);
            }
        }
        assert forall|i: int| 0 <= i < t.len() implies upper(#[trigger] t[i]) == t[i] && is_part(t[i]) by {
            assert(t[i] == if i < p { s[i] } else if i == p { m } else { s[i - 1] });
        }
    }
}

proof fn lemma_mods_upto(s: Seq<Str>, n: int)
    requires
        0 <= n <= s.len(),
        forall|i: int| 0 <= i < s.len() ==> is_part(#[trigger] s[i]),
    ensures
        in_order(mods_upto(s, n)),
        forall|i: int| 0 <= i < mods_upto(s, n).len() ==> is_part(#[trigger] mods_upto(s, n)[i]),
    decreases n,
{
    if n > 0 {
        lemma_mods_upto(s, n - 1);
        lemma_upper(s[n - 1]);
        lemma_mods_put(mods_upto(s, n - 1), upper(s[n - 1]));
    }
}

/// Modifiers that are in order stay as they are.
proof fn lemma_mods_again(s: Seq<Str>, n: int)
    requires
        0 <= n <= s.len(),
        in_order(s.take(s.len() - 1)),
        n < s.len(),
    ensures
        mods_upto(s, n) == s.take(n),
    decreases n,
{
    if n > 0 {
        lemma_mods_again(s, n - 1);
        let a = s.take(n - 1);
        let m = s[n - 1];
        let all = s.take(s.len() - 1);
        assert(all[n - 1] == m);
        assert(upper(m) == m);
        assert forall|k: int| 0 <= k < a.len() implies mod_lt(#[trigger] a[k], m) by {
            assert(all[k] == a[k]);
        }
        lemma_mod_place(a, m, 0);
        let p = mod_place(a, m, 0);
        if p < a.len() {
            assert(mod_lt(a[p], m));
        }
        assert(a.insert(p, m) =~= s.take(n));
    } else {
        assert(s.take(0) =~= Seq::empty());
    }
}

// ---- Pieces ------------------------------------------------------------------------------

proof fn lemma_index(s: Str, c: char, i: int)
    requires
        0 <= i <= s.len(),
    ensures
        i <= index_from(s, c, i) <= s.len(),
        forall|k: int| i <= k < index_from(s, c, i) ==> #[trigger] s[k] != c,
        index_from(s, c, i) < s.len() ==> s[index_from(s, c, i)] == c,
    decreases s.len() - i,
{
    if i < s.len() {
        lemma_index(s, c, i + 1);
    }
}

/// The pieces of a text hold none of the characters between them, and nothing that the text does not hold.
proof fn lemma_pieces(s: Str, c: char, i: int)
    requires
        0 <= i <= s.len(),
        spaceless(s),
    ensures
        forall|k: int| 0 <= k < pieces(s, c, i).len() ==> spaceless(#[trigger] pieces(s, c, i)[k]) && !pieces(s, c, i)[k].contains(c),
    decreases s.len() - i,
{
    lemma_index(s, c, i);
    let j = index_from(s, c, i);
    let head = s.subrange(i, j);
    assert forall|k: int| 0 <= k < head.len() implies !is_space(#[trigger] head[k]) && head[k] != c by {
        assert(head[k] == s[i + k]);
    }
    if j < s.len() {
        lemma_pieces(s, c, j + 1);
        let rest = pieces(s, c, j + 1);
        assert forall|k: int| 0 <= k < pieces(s, c, i).len() implies spaceless(#[trigger] pieces(s, c, i)[k]) && !pieces(
            s,
            c,
            i,
        )[k].contains(c) by {
            if k > 0 {
                assert(pieces(s, c, i)[k] == rest[k - 1]);
            }
        }
    }
}

proof fn lemma_index_shift(a: Str, b: Str, c: char, i: int)
    requires
        0 <= i <= b.len(),
    ensures
        index_from(a + b, c, a.len() + i) == a.len() + index_from(b, c, i),
    decreases b.len() - i,
{
    if i < b.len() {
        assert((a + b)[a.len() + i] == b[i]);
        lemma_index_shift(a, b, c, i + 1);
    }
}

proof fn lemma_pieces_shift(a: Str, b: Str, c: char, i: int)
    requires
        0 <= i <= b.len(),
    ensures
        pieces(a + b, c, a.len() + i) == pieces(b, c, i),
    decreases b.len() - i,
{
    lemma_index_shift(a, b, c, i);
    lemma_index(b, c, i);
    let j = index_from(b, c, i);
    assert((a + b).subrange(a.len() + i, a.len() + j) =~= b.subrange(i, j));
    if j < b.len() {
        lemma_pieces_shift(a, b, c, j + 1);
    } else {
        assert((a + b).subrange(a.len() + i, (a + b).len() as int) =~= b.subrange(i, b.len() as int));
    }
}

/// A joined list begins with its first text.
proof fn lemma_joined_first(s: Seq<Str>, sep: Str, n: int)
    requires
        2 <= n <= s.len(),
    ensures
        joined_upto(s, sep, n) == s[0] + sep + joined_upto(s.skip(1), sep, n - 1),
    decreases n,
{
    let t = s.skip(1);
    if n == 2 {
        assert(joined_upto(s, sep, 1) == s[0]);
        assert(joined_upto(t, sep, 1) == s[1]);
    } else {
        lemma_joined_first(s, sep, n - 1);
        assert(t[n - 2] == s[n - 1]);
        assert(s[0] + sep + joined_upto(t, sep, n - 2) + sep + s[n - 1] =~= s[0] + sep + (joined_upto(t, sep, n - 2) + sep
            + s[n - 1]));
    }
}

/// The pieces of texts that were joined by a character they do not hold are these texts.
proof fn lemma_pieces_joined(p: Seq<Str>, c: char)
    requires
        p.len() > 0,
        forall|i: int| 0 <= i < p.len() ==> !(#[trigger] p[i]).contains(c),
    ensures
        pieces(joined(p, seq![c]), c, 0) == p,
    decreases p.len(),
{
    let s = joined(p, seq![c]);
    lemma_index(s, c, 0);
    let j = index_from(s, c, 0);
    if p.len() == 1 {
        assert(s == p[0]);
        if j < s.len() {
            assert(p[0].contains(s[j]));
        }
        assert(s.subrange(0, s.len() as int) =~= s);
        assert(pieces(s, c, 0) =~= p);
    } else {
        let t = p.skip(1);
        lemma_joined_first(p, seq![c], p.len() as int);
        let rest = joined(t, seq![c]);
        let head = p[0] + seq![c];
        assert(s == head + rest);
        if j < p[0].len() {
            assert(s[j] == p[0][j]);
            assert(p[0].contains(p[0][j]));
        }
        assert(s[p[0].len() as int] == c);
        assert(j == p[0].len());
        assert(s.subrange(0, j) =~= p[0]);
        assert forall|i: int| 0 <= i < t.len() implies !(#[trigger] t[i]).contains(c) by {
            assert(t[i] == p[i + 1]);
        }
        lemma_pieces_joined(t, c);
        lemma_pieces_shift(head, rest, c, 0);
        assert(seq![p[0]] + t =~= p);
    }
}

// ---- Words -------------------------------------------------------------------------------

proof fn lemma_word_end(s: Str, i: int)
    requires
        0 <= i <= s.len(),
    ensures
        i <= word_end(s, i) <= s.len(),
        forall|k: int| i <= k < word_end(s, i) ==> !is_space(#[trigger] s[k]),
        word_end(s, i) < s.len() ==> is_space(s[word_end(s, i)]),
    decreases s.len() - i,
{
    if i < s.len() && !is_space(s[i]) {
        lemma_word_end(s, i + 1);
    }
}

/// Words hold no white space and are not empty.
proof fn lemma_words(s: Str, i: int)
    requires
        0 <= i <= s.len(),
    ensures
        forall|k: int| 0 <= k < words(s, i).len() ==> spaceless(#[trigger] words(s, i)[k]) && words(s, i)[k].len() > 0,
    decreases s.len() - i,
{
    if i < s.len() {
        if is_space(s[i]) {
            lemma_words(s, i + 1);
            assert(words(s, i) == words(s, i + 1));
        } else {
            lemma_word_end(s, i);
            let j = word_end(s, i);
            assert(j > i);
            lemma_words(s, j);
            let w = s.subrange(i, j);
            assert(words(s, i) == seq![w] + words(s, j));
            assert forall|k: int| 0 <= k < w.len() implies !is_space(#[trigger] w[k]) by {
                assert(w[k] == s[i + k]);
            }
            assert forall|k: int| 0 <= k < words(s, i).len() implies spaceless(#[trigger] words(s, i)[k]) && words(
                s,
                i,
            )[k].len() > 0 by {
                if k > 0 {
                    assert(words(s, i)[k] == words(s, j)[k - 1]);
                }
            }
        }
    }
}

proof fn lemma_word_end_shift(a: Str, b: Str, i: int)
    requires
        0 <= i <= b.len(),
    ensures
        word_end(a + b, a.len() + i) == a.len() + word_end(b, i),
    decreases b.len() - i,
{
    if i < b.len() {
        assert((a + b)[a.len() + i] == b[i]);
        if !is_space(b[i]) {
            lemma_word_end_shift(a, b, i + 1);
        }
    }
}

proof fn lemma_words_shift(a: Str, b: Str, i: int)
    requires
        0 <= i <= b.len(),
    ensures
        words(a + b, a.len() + i) == words(b, i),
    decreases b.len() - i,
{
    if i < b.len() {
        assert((a + b)[a.len() + i] == b[i]);
        if is_space(b[i]) {
            lemma_words_shift(a, b, i + 1);
        } else {
            lemma_word_end(b, i);
            lemma_word_end_shift(a, b, i);
            let j = word_end(b, i);
            lemma_words_shift(a, b, j);
            assert((a + b).subrange(a.len() + i, a.len() + j) =~= b.subrange(i, j));
        }
    }
}

/// The words of texts that were joined by spaces are these texts.
proof fn lemma_words_joined(w: Seq<Str>)
    requires
        forall|i: int| 0 <= i < w.len() ==> spaceless(#[trigger] w[i]) && w[i].len() > 0,
    ensures
        words(joined(w, seq![' ']), 0) == w,
    decreases w.len(),
{
    let s = joined(w, seq![' ']);
    if w.len() == 0 {
        assert(words(s, 0) =~= w);
    } else {
        let first = w[0];
        lemma_word_end(s, 0);
        let j = word_end(s, 0);
        if w.len() == 1 {
            assert(s == first);
            if j < s.len() {
                assert(!is_space(first[j]));
            }
            assert(!is_space(first[0]));
            assert(s.subrange(0, j) =~= s);
            assert(words(s, j) =~= Seq::empty());
            assert(words(s, 0) =~= w);
        } else {
            let t = w.skip(1);
            lemma_joined_first(w, seq![' '], w.len() as int);
            let rest = joined(t, seq![' ']);
            let head = first + seq![' '];
            assert(s == head + rest);
            assert(s[0] == first[0] && !is_space(first[0]));
            assert(s[first.len() as int] == ' ');
            assert(is_space(' '));
            if j < first.len() {
                assert(s[j] == first[j]);
                assert(!is_space(first[j]));
            }
            assert(j == first.len());
            assert(s.subrange(0, j) =~= first);
            assert forall|i: int| 0 <= i < t.len() implies spaceless(#[trigger] t[i]) && t[i].len() > 0 by {
                assert(t[i] == w[i + 1]);
            }
            lemma_words_joined(t);
            lemma_words_shift(head, rest, 0);
            assert(words(s, j) == words(s, j + 1));
            assert(seq![first] + t =~= w);
        }
    }
}

// ---- Combinations and chains ---------------------------------------------------------------

proof fn lemma_parts(p: Seq<Str>, n: int)
    requires
        0 <= n <= p.len(),
        forall|k: int| 0 <= k < p.len() ==> spaceless(#[trigger] p[k]) && !p[k].contains('+'),
    ensures
        forall|k: int| 0 <= k < parts_upto(p, n).len() ==> is_part(#[trigger] parts_upto(p, n)[k]),
    decreases n,
{
    if n > 0 {
        lemma_parts(p, n - 1);
        lemma_trim(p[n - 1]);
        let before = parts_upto(p, n - 1);
        let now = parts_upto(p, n);
        assert forall|k: int| 0 <= k < now.len() implies is_part(#[trigger] now[k]) by {
            if k < before.len() {
                assert(now[k] == before[k]);
            } else {
                assert(now[k] == p[n - 1]);
            }
        }
    }
}

proof fn lemma_parts_again(p: Seq<Str>, n: int)
    requires
        0 <= n <= p.len(),
        forall|k: int| 0 <= k < p.len() ==> is_part(#[trigger] p[k]),
    ensures
        parts_upto(p, n) == p.take(n),
    decreases n,
{
    if n > 0 {
        lemma_parts_again(p, n - 1);
        lemma_trim(p[n - 1]);
        assert(p.take(n - 1).push(p[n - 1]) =~= p.take(n));
    } else {
        assert(p.take(0) =~= Seq::empty());
    }
}

/// A combination that was read from a word is a normal one.
proof fn lemma_read_is_normal(s: Str)
    requires
        spaceless(s),
        combo_of(s) is Ok,
    ensures
        normal(combo_of(s)->Ok_0),
{
    let p = pieces(s, '+', 0);
    lemma_pieces(s, '+', 0);
    lemma_parts(p, p.len() as int);
    let parts = combo_parts(s);
    lemma_mods_upto(parts, parts.len() - 1);
}

/// A normal combination reads, as it is written in a list, as itself; what is written is a word.
proof fn lemma_combo_again(c: ComboView)
    requires
        normal(c),
    ensures
        combo_of(c.compact()) == Ok::<ComboView, Str>(c),
        spaceless(c.compact()),
        c.compact().len() > 0,
{
    reveal_strlit("+");
    assert("+"@ =~= seq!['+']);
    let p = c.parts();
    assert forall|k: int| 0 <= k < p.len() implies is_part(#[trigger] p[k]) by {
        assert(k < c.mods.len() ==> p[k] == c.mods[k]);
    }
    lemma_pieces_joined(p, '+');
    lemma_parts_again(p, p.len() as int);
    assert(p.take(p.len() as int) =~= p);
    assert(p.take(p.len() - 1) =~= c.mods);
    lemma_mods_again(p, p.len() - 1);
    lemma_joined_spaceless(p, p.len() as int);
}

proof fn lemma_joined_spaceless(p: Seq<Str>, n: int)
    requires
        1 <= n <= p.len(),
        forall|k: int| 0 <= k < p.len() ==> is_part(#[trigger] p[k]),
    ensures
        spaceless(joined_upto(p, seq!['+'], n)),
        joined_upto(p, seq!['+'], n).len() > 0,
    decreases n,
{
    let s = joined_upto(p, seq!['+'], n);
    if n > 1 {
        lemma_joined_spaceless(p, n - 1);
        let a = joined_upto(p, seq!['+'], n - 1);
        assert forall|i: int| 0 <= i < s.len() implies !is_space(#[trigger] s[i]) by {
            if i < a.len() {
                assert(s[i] == a[i]);
            } else if i == a.len() {
                assert(s[i] == '+');
            } else {
                assert(s[i] == p[n - 1][i - a.len() - 1]);
            }
        }
    } else {
        assert(is_part(p[0]));
    }
}

proof fn lemma_combos_normal(w: Seq<Str>, i: int, acc: Seq<ComboView>)
    requires
        0 <= i <= w.len(),
        forall|k: int| 0 <= k < w.len() ==> spaceless(#[trigger] w[k]),
        forall|k: int| 0 <= k < acc.len() ==> normal(#[trigger] acc[k]),
    ensures
        combos_from(w, i, acc) matches Ok(c) ==> forall|k: int| 0 <= k < c.len() ==> normal(#[trigger] c[k]),
    decreases w.len() - i,
{
    if i < w.len() {
        if let Ok(c) = combo_of(w[i]) {
            lemma_read_is_normal(w[i]);
            lemma_combos_normal(w, i + 1, acc.push(c));
        }
    }
}

proof fn lemma_combos_again(c: Seq<ComboView>, w: Seq<Str>, i: int)
    requires
        0 <= i <= c.len(),
        w.len() == c.len(),
        forall|k: int| 0 <= k < c.len() ==> combo_of(#[trigger] w[k]) == Ok::<ComboView, Str>(c[k]),
    ensures
        combos_from(w, i, c.take(i)) == Ok::<Seq<ComboView>, Str>(c),
    decreases c.len() - i,
{
    if i < c.len() {
        lemma_combos_again(c, w, i + 1);
        assert(combo_of(w[i]) == Ok::<ComboView, Str>(c[i]));
        assert(c.take(i).push(c[i]) =~= c.take(i + 1));
    } else {
        assert(c.take(i) =~= c);
    }
}

/// A chain that was read reads again, as it is written in a list, as itself. So the chain that a binding
/// hands to the daemon is the chain it stands for.
pub proof fn law_written_chain_reads_back(s: Str)
    requires
        chain_of(s) is Ok,
    ensures
        chain_of(compact_of(chain_of(s)->Ok_0)) == chain_of(s),
{
    let c = chain_of(s)->Ok_0;
    lemma_words(s, 0);
    lemma_combos_normal(words(s, 0), 0, Seq::empty());
    reveal_strlit(" ");
    assert(" "@ =~= seq![' ']);
    let w = c.map_values(|x: ComboView| x.compact());
    assert forall|k: int| 0 <= k < w.len() implies spaceless(#[trigger] w[k]) && w[k].len() > 0 && combo_of(w[k]) == Ok::<
        ComboView,
        Str,
    >(c[k]) by {
        assert(normal(c[k]));
        lemma_combo_again(c[k]);
    }
    lemma_words_joined(w);
    lemma_combos_again(c, w, 0);
    assert(c.take(0) =~= Seq::empty());
}

} // verus!
