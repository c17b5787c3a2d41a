//! What lists of expressions do to windows: the workspaces that a window belongs to afterwards, and the runs that
//! place it.
use vstd::prelude::*;

use crate::exprs::{desk_move, focusing, park, placing, placing_opt, untags};
use crate::hypr::{
    about, desk_focus_of, focus_of, in_ws, move_of, position_of, raise_of, resize_of, tag_of, top_text, win_of, ws_list,
    ws_list_upto, ws_tag_of, Client,
};
use crate::rect::PxRect;
use crate::text::{name_put, name_rank, Str};

verus! {

// ---- The workspaces of a window --------------------------------------------------

/// The expression that puts a window into a workspace.
#[verifier::opaque]
pub open spec fn entering(addr: Str, ws: Str) -> Str {
    tag_of(addr, "ws:"@ + ws)
}

/// The expression that takes a window out of a workspace.
#[verifier::opaque]
pub open spec fn leaving(addr: Str, ws: Str) -> Str {
    tag_of(addr, "-ws:"@ + ws)
}

/// The window belongs to the workspace once the expressions were carried out, one after the other.
pub open spec fn belongs_after(c: Client, ws: Str, ex: Seq<Str>) -> bool
    decreases ex.len(),
{
    if ex.len() == 0 {
        in_ws(c, ws)
    } else if ex.last() == entering(c.address@, ws) {
        true
    } else if ex.last() == leaving(c.address@, ws) {
        false
    } else {
        belongs_after(c, ws, ex.drop_last())
    }
}

/// What comes after decides, where it speaks of the window and the workspace with one voice.
pub proof fn lemma_after_more(c: Client, ws: Str, a: Seq<Str>, b: Seq<Str>)
    ensures
        !b.contains(entering(c.address@, ws)) && !b.contains(leaving(c.address@, ws)) ==> belongs_after(c, ws, a + b)
            == belongs_after(c, ws, a),
        b.contains(entering(c.address@, ws)) && !b.contains(leaving(c.address@, ws)) ==> belongs_after(c, ws, a + b),
        !b.contains(entering(c.address@, ws)) && b.contains(leaving(c.address@, ws)) ==> !belongs_after(c, ws, a + b),
    decreases b.len(),
{
    let (on, off) = (entering(c.address@, ws), leaving(c.address@, ws));
    if b.len() == 0 {
        assert(a + b =~= a);
    } else {
        let d = b.drop_last();
        lemma_after_more(c, ws, a, d);
        assert((a + b).drop_last() =~= a + d);
        assert((a + b).last() == b.last());
        assert(b[b.len() - 1] == b.last());
        assert forall|e: Str| #[trigger] b.contains(e) implies e == b.last() || d.contains(e) by {
            let i = choose|i: int| 0 <= i < b.len() && b[i] == e;
            if i < d.len() {
                assert(d[i] == e);
            }
        }
        assert forall|e: Str| #[trigger] d.contains(e) implies b.contains(e) by {
            let i = choose|i: int| 0 <= i < d.len() && d[i] == e;
            assert(b[i] == e);
        }
    }
}

proof fn lemma_rank(s: Seq<Str>, w: Str, i: int)
    requires
        0 <= i <= s.len(),
    ensures
        i <= name_rank(s, w, i) <= s.len(),
    decreases s.len() - i,
{
    if i < s.len() && crate::text::str_lt(s[i], w) {
        lemma_rank(s, w, i + 1);
    }
}

proof fn lemma_name_put(s: Seq<Str>, w: Str)
    ensures
        forall|x: Str| #[trigger] name_put(s, w).contains(x) <==> x == w || s.contains(x),
{
    lemma_rank(s, w, 0);
    let i = name_rank(s, w, 0);
    let t = name_put(s, w);
    assert forall|x: Str| #[trigger] t.contains(x) <==> x == w || s.contains(x) by {
        if t.contains(x) {
            let k = choose|k: int| 0 <= k < t.len() && t[k] == x;
            if t.len() == s.len() || k < i {
                assert(s[k] == x);
            } else if k > i {
                assert(s[k - 1] == x);
            }
        }
        assert(t[i] == w);
        if s.contains(x) {
            let k = choose|k: int| 0 <= k < s.len() && s[k] == x;
            if t.len() == s.len() || k < i {
                assert(t[k] == x);
            } else {
                assert(t[k + 1] == x);
            }
        }
    }
}

proof fn lemma_ws_upto(tags: Seq<String>, n: int)
    requires
        0 <= n <= tags.len(),
    ensures
        forall|w: Str| #[trigger]
            ws_list_upto(tags, n).contains(w) <==> exists|i: int| 0 <= i < n && ws_tag_of(#[trigger] tags[i]@) == Some(w),
    decreases n,
{
    if n > 0 {
        lemma_ws_upto(tags, n - 1);
        let s = ws_list_upto(tags, n - 1);
        let x = ws_tag_of(tags[n - 1]@);
        if let Some(v) = x {
            lemma_name_put(s, v);
        }
        assert forall|w: Str| #[trigger] ws_list_upto(tags, n).contains(w) <==> exists|i: int|
            0 <= i < n && ws_tag_of(#[trigger] tags[i]@) == Some(w) by {
            if s.contains(w) {
                let i = choose|i: int| 0 <= i < n - 1 && ws_tag_of(#[trigger] tags[i]@) == Some(w);
                assert(ws_tag_of(tags[i]@) == Some(w));
            }
            if exists|i: int| 0 <= i < n && ws_tag_of(#[trigger] tags[i]@) == Some(w) {
                let i = choose|i: int| 0 <= i < n && ws_tag_of(#[trigger] tags[i]@) == Some(w);
                if i < n - 1 {
                    assert(s.contains(w));
                }
            }
        }
    }
}

/// The list of the workspaces of a window names those that its tags name, and no other.
pub proof fn law_ws_list(c: Client)
    ensures
        forall|w: Str| #[trigger] ws_list(c).contains(w) <==> in_ws(c, w),
{
    lemma_ws_upto(c.tags@, c.tags@.len() as int);
    assert forall|w: Str| #[trigger] ws_list(c).contains(w) <==> in_ws(c, w) by {
        if in_ws(c, w) {
            let i = choose|i: int| 0 <= i < c.tags.len() && ws_tag_of(#[trigger] c.tags@[i]@) == Some(w);
            assert(ws_tag_of(c.tags@[i]@) == Some(w));
        }
    }
}

// ---- Expressions that are not tags -------------------------------------------------

pub proof fn lemma_tag_text(addr: Str, t: Str)
    ensures
        tag_of(addr, t).len() > 27 + t.len(),
        tag_of(addr, t)[7] == 'w',
        tag_of(addr, t)[14] == 't',
        tag_of(addr, t).subrange(27, 27int + t.len()) == t,
        tag_of(addr, t).len() == tag_of(addr, Seq::empty()).len() + t.len(),
{
    reveal_strlit("hl.dsp.window.tag({ tag = \"");
    reveal_strlit("\", ");
    let p = "hl.dsp.window.tag({ tag = \""@;
    let e = tag_of(addr, t);
    assert(p.len() == 27);
    assert(p[7] == 'w' && p[14] == 't');
    assert(e[7] == p[7] && e[14] == p[14]);
    assert(e.subrange(27, 27int + t.len()) =~= t);
}

/// The same expression about a window has the same tag.
pub proof fn lemma_tag_same(addr: Str, s: Str, t: Str)
    requires
        tag_of(addr, s) == tag_of(addr, t),
    ensures
        s == t,
{
    lemma_tag_text(addr, s);
    lemma_tag_text(addr, t);
}

/// An expression that is no tag.
#[verifier::opaque]
pub open spec fn no_tag(e: Str) -> bool {
    forall|addr: Str, t: Str| e != #[trigger] tag_of(addr, t)
}

/// Expressions that move and place windows, give them the focus and raise them are no tags.
pub proof fn lemma_no_tags(addr: Str)
    ensures
        forall|name: Str| no_tag(#[trigger] move_of(addr, name)),
        forall|n: u8| no_tag(#[trigger] desk_move(addr, n)),
        forall|n: u8| no_tag(#[trigger] desk_focus_of(n)),
        forall|r: PxRect| no_tag(#[trigger] resize_of(addr, r)),
        forall|r: PxRect| no_tag(#[trigger] position_of(addr, r)),
        no_tag(park(addr)),
        no_tag(focus_of(addr)),
        no_tag(raise_of(addr)),
        no_tag(top_text()),
{
    reveal_strlit("hl.dsp.window.move({ workspace = \"");
    reveal_strlit("hl.dsp.window.resize({ x = ");
    reveal_strlit("hl.dsp.window.move({ x = ");
    reveal_strlit("hl.dsp.focus({ ");
    reveal_strlit("hl.dsp.focus({ workspace = ");
    reveal_strlit("hl.dsp.window.alter_zorder({ mode = \"top\", ");
    reveal_strlit("hl.dsp.window.bring_to_top()");
    reveal(no_tag);
    assert forall|e: Str| e.len() > 7 && (e[7] == 'f' || (e.len() > 14 && e[14] != 't')) implies #[trigger] no_tag(e) by {
        assert forall|a: Str, t: Str| e != #[trigger] tag_of(a, t) by {
            lemma_tag_text(a, t);
        }
    }
    assert forall|name: Str| no_tag(#[trigger] move_of(addr, name)) by {
        let e = move_of(addr, name);
        assert(e[14] == "hl.dsp.window.move({ workspace = \""@[14]);
    }
    assert forall|n: u8| no_tag(#[trigger] desk_focus_of(n)) by {
        let e = desk_focus_of(n);
        assert(e[7] == "hl.dsp.focus({ workspace = "@[7]);
    }
    assert forall|r: PxRect| no_tag(#[trigger] resize_of(addr, r)) by {
        let e = resize_of(addr, r);
        assert(e[14] == "hl.dsp.window.resize({ x = "@[14]);
    }
    assert forall|r: PxRect| no_tag(#[trigger] position_of(addr, r)) by {
        let e = position_of(addr, r);
        assert(e[14] == "hl.dsp.window.move({ x = "@[14]);
    }
    assert(focus_of(addr)[7] == "hl.dsp.focus({ "@[7]);
    assert(raise_of(addr)[14] == "hl.dsp.window.alter_zorder({ mode = \"top\", "@[14]);
    assert(top_text()[14] == 'b');
}

/// Entering a workspace, of whatever window, is leaving none.
pub proof fn lemma_entering_apart(a: Str, v: Str, b: Str, w: Str)
    ensures
        entering(a, v) != leaving(b, w),
{
    reveal_strlit("ws:");
    reveal_strlit("-ws:");
    reveal(entering);
    reveal(leaving);
    lemma_tag_text(a, "ws:"@ + v);
    lemma_tag_text(b, "-ws:"@ + w);
    if entering(a, v) == leaving(b, w) {
        let (e, f) = (entering(a, v), leaving(b, w));
        assert(e[27] == e.subrange(27, 27int + ("ws:"@ + v).len())[0]);
        assert(f[27] == f.subrange(27, 27int + ("-ws:"@ + w).len())[0]);
    }
}

/// An expression that is no tag neither puts a window into a workspace nor takes one out.
pub proof fn lemma_no_tag(e: Str, addr: Str, ws: Str)
    requires
        no_tag(e),
    ensures
        e != entering(addr, ws),
        e != leaving(addr, ws),
{
    reveal(no_tag);
    reveal(entering);
    reveal(leaving);
}

// ---- Runs ------------------------------------------------------------------------

/// The expressions stand in the list, one right after the other.
pub open spec fn runs(ex: Seq<Str>, part: Seq<Str>) -> bool {
    exists|i: int| 0 <= i && i + part.len() <= ex.len() && #[trigger] ex.subrange(i, i + part.len()) == part
}

/// What stands in a list stands in it with more before and after.
pub proof fn lemma_runs_more(a: Seq<Str>, b: Seq<Str>, part: Seq<Str>)
    ensures
        runs(a, part) ==> runs(a + b, part),
        runs(b, part) ==> runs(a + b, part),
        runs(part, part),
{
    let n = part.len() as int;
    if runs(a, part) {
        let i = choose|i: int| 0 <= i && i + n <= a.len() && #[trigger] a.subrange(i, i + n) == part;
        assert((a + b).subrange(i, i + n) =~= part);
    }
    if runs(b, part) {
        let i = choose|i: int| 0 <= i && i + n <= b.len() && #[trigger] b.subrange(i, i + n) == part;
        let k = a.len() + i;
        assert((a + b).subrange(k, k + n) =~= part);
    }
    assert(part.subrange(0, 0 + n) =~= part);
}

/// The first list begins the second.
pub open spec fn begins_with(ex: Seq<Str>, head: Seq<Str>) -> bool {
    head.len() <= ex.len() && ex.take(head.len() as int) == head
}

/// A beginning of a beginning is one.
pub proof fn lemma_begins(a: Seq<Str>, b: Seq<Str>, c: Seq<Str>)
    ensures
        begins_with(a + b, a),
        begins_with(b, a) && begins_with(c, b) ==> begins_with(c, a),
        begins_with(b, a) ==> b == a + b.skip(a.len() as int),
{
    assert((a + b).take(a.len() as int) =~= a);
    if begins_with(b, a) && begins_with(c, b) {
        assert(c.take(a.len() as int) =~= b.take(a.len() as int));
    }
    if begins_with(b, a) {
        assert(b =~= b.take(a.len() as int) + b.skip(a.len() as int));
    }
}

} // verus!
