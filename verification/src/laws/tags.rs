//! Tags of the windows at hand.
use vstd::prelude::*;

use crate::adopt::{
    captured_tags, left_workspace, no_app_tags, no_ws_tag, retagged_at, same_window, shared_with, times, with_tag,
};
use crate::hypr::{
    app_instance, app_tag_of, in_ws, instance_tag, law_instance_tag, law_ws_tag, tags_instance, ws_tag_of, Client,
};
use crate::laws::session::lemma_addr_at;
use crate::member::{addr_from, CaptureView};
use crate::text::{has_prefix, views, Str};

verus! {

broadcast use crate::text::group_views;

/// One of the tags names the workspace.
pub open spec fn tags_name(tags: Seq<Str>, ws: Str) -> bool {
    exists|i: int| 0 <= i < tags.len() && ws_tag_of(#[trigger] tags[i]) == Some(ws)
}

proof fn lemma_in_ws(c: Client, ws: Str)
    ensures
        in_ws(c, ws) <==> tags_name(views(c.tags@), ws),
{
    let t = views(c.tags@);
    if in_ws(c, ws) {
        let i = choose|i: int| 0 <= i < c.tags.len() && ws_tag_of(#[trigger] c.tags@[i]@) == Some(ws);
        assert(t[i] == c.tags@[i]@);
    }
    if tags_name(t, ws) {
        let i = choose|i: int| 0 <= i < t.len() && ws_tag_of(#[trigger] t[i]) == Some(ws);
        assert(t[i] == c.tags@[i]@);
    }
}

proof fn lemma_name_more(tags: Seq<Str>, t: Str, ws: Str)
    ensures
        tags_name(tags.push(t), ws) <==> tags_name(tags, ws) || ws_tag_of(t) == Some(ws),
{
    let r = tags.push(t);
    if tags_name(tags, ws) {
        let i = choose|i: int| 0 <= i < tags.len() && ws_tag_of(#[trigger] tags[i]) == Some(ws);
        assert(r[i] == tags[i]);
    }
    assert(r[tags.len() as int] == t);
    if tags_name(r, ws) {
        let i = choose|i: int| 0 <= i < r.len() && ws_tag_of(#[trigger] r[i]) == Some(ws);
        if i < tags.len() {
            assert(r[i] == tags[i]);
        }
    }
}

proof fn lemma_without(tags: Seq<Str>, ws: Str, v: Str, n: int)
    requires
        0 <= n <= tags.len(),
    ensures
        tags_name(no_ws_tag(tags, ws, n), v) <==> v != ws && tags_name(tags.take(n), v),
    decreases n,
{
    if n > 0 {
        lemma_without(tags, ws, v, n - 1);
        assert(tags.take(n) =~= tags.take(n - 1).push(tags[n - 1]));
        lemma_name_more(tags.take(n - 1), tags[n - 1], v);
        lemma_name_more(no_ws_tag(tags, ws, n - 1), tags[n - 1], v);
    }
}

/// The first window with the address.
pub open spec fn is_first_at(clients: Seq<Client>, addr: Str, k: int) -> bool {
    &&& 0 <= k < clients.len() && clients[k].address@ == addr
    &&& forall|j: int| 0 <= j < k ==> (#[trigger] clients[j]).address@ != addr
}

/// A window that left a workspace does not belong to it any more, belongs to all others that it belonged to, and is else
/// as it was; so is every other window.
pub proof fn law_left(old_list: Seq<Client>, new_list: Seq<Client>, addr: Str, ws: Str)
    requires
        left_workspace(old_list, new_list, addr, ws),
    ensures
        new_list.len() == old_list.len(),
        forall|k: int|
            #![trigger new_list[k]]
            0 <= k < old_list.len() && !is_first_at(old_list, addr, k) ==> new_list[k] == old_list[k],
        forall|k: int, v: Str|
            is_first_at(old_list, addr, k) ==> (#[trigger] in_ws(new_list[k], v) <==> v != ws && in_ws(old_list[k], v)),
        forall|k: int| #[trigger] is_first_at(old_list, addr, k) ==> same_window(old_list[k], new_list[k]),
{
    lemma_addr_at(old_list, addr, 0);
    let i = addr_from(old_list, addr, 0);
    assert forall|k: int| #[trigger] is_first_at(old_list, addr, k) implies k == i by {
        if k < i {
            assert(old_list[k].address@ != addr);
        }
        if i < k {
            assert(old_list[i].address@ != addr);
        }
    }
    if i < old_list.len() {
        assert(is_first_at(old_list, addr, i));
        let t = views(old_list[i].tags@);
        assert forall|v: Str| #[trigger] in_ws(new_list[i], v) <==> v != ws && in_ws(old_list[i], v) by {
            lemma_in_ws(new_list[i], v);
            lemma_in_ws(old_list[i], v);
            lemma_without(t, ws, v, t.len() as int);
            assert(t.take(t.len() as int) =~= t);
        }
    }
}

proof fn lemma_no_app(tags: Seq<Str>, n: int, v: Str)
    requires
        0 <= n <= tags.len(),
    ensures
        forall|k: int| 0 <= k < no_app_tags(tags, n).len() ==> !has_prefix(#[trigger] no_app_tags(tags, n)[k], "app:"@),
        tags_name(no_app_tags(tags, n), v) <==> tags_name(tags.take(n), v),
    decreases n,
{
    reveal_strlit("app:");
    reveal_strlit("ws:");
    if n > 0 {
        lemma_no_app(tags, n - 1, v);
        assert(tags.take(n) =~= tags.take(n - 1).push(tags[n - 1]));
        lemma_name_more(tags.take(n - 1), tags[n - 1], v);
        lemma_name_more(no_app_tags(tags, n - 1), tags[n - 1], v);
        let t = tags[n - 1];
        if has_prefix(t, "app:"@) {
            assert(t.take(4)[0] == 'a');
            if has_prefix(t, "ws:"@) {
                assert(t.take(3)[0] == 'w');
            }
        }
    }
}

proof fn lemma_first_instance(tags: Seq<String>, i: int, k: int, app: Str, num: nat)
    requires
        0 <= i <= k < tags.len(),
        forall|j: int| i <= j < k ==> app_tag_of((#[trigger] tags[j])@) is None,
        app_tag_of(tags[k]@) == Some((app, Some(num))),
    ensures
        tags_instance(tags, i) == Some((app, num)),
    decreases k - i,
{
    if i < k {
        assert(app_tag_of(tags[i]@) is None);
        lemma_first_instance(tags, i + 1, k, app, num);
    }
}

/// A window that was captured shows the application with its number where it got that tag, belongs to the workspace that
/// captured it and to all others that it belonged to, and is else as it was; so is every other window.
pub proof fn law_captured_at(old_list: Seq<Client>, new_list: Seq<Client>, i: int, app: Str, num: u32, retag: bool, ws: Option<Str>)
    requires
        0 <= i < old_list.len(),
        app.len() > 0,
        ws matches Some(w) ==> w.len() > 0 && w.last() != '*',
        retagged_at(
            old_list,
            new_list,
            i,
            captured_tags(views(old_list[i].tags@), (CaptureView { idx: i, app, num: num as nat, retag }), ws),
        ),
    ensures
        new_list.len() == old_list.len() && same_window(old_list[i], new_list[i]),
        forall|k: int| 0 <= k < old_list.len() && k != i ==> #[trigger] new_list[k] == old_list[k],
        retag ==> app_instance(new_list[i]) == Some((app, num as nat)),
        forall|v: Str| #[trigger] in_ws(new_list[i], v) <==> in_ws(old_list[i], v) || ws == Some(v),
{
    reveal_strlit("app:");
    reveal_strlit("ws:");
    let t = views(old_list[i].tags@);
    let n = t.len() as int;
    let r = views(new_list[i].tags@);
    let mark = instance_tag(app, num as nat);
    let bare = no_app_tags(t, n);
    let one = if retag {
        bare.push(mark)
    } else {
        t
    };
    law_instance_tag(app, num);
    assert(has_prefix(mark, "app:"@));
    assert(ws_tag_of(mark) is None) by {
        assert(mark.take(4)[0] == 'a');
        if has_prefix(mark, "ws:"@) {
            assert(mark.take(3)[0] == 'w');
        }
    }
    assert forall|v: Str| #[trigger] in_ws(new_list[i], v) <==> in_ws(old_list[i], v) || ws == Some(v) by {
        lemma_in_ws(new_list[i], v);
        lemma_in_ws(old_list[i], v);
        lemma_no_app(t, n, v);
        assert(t.take(n) =~= t);
        lemma_name_more(bare, mark, v);
        if let Some(w) = ws {
            law_ws_tag(w);
            lemma_name_more(one, "ws:"@ + w, v);
        }
    }
    if retag {
        let at = bare.len() as int;
        lemma_no_app(t, n, app);
        assert(r.len() == new_list[i].tags@.len() && at < r.len());
        assert(r[at] == mark);
        assert forall|j: int| 0 <= j < at implies app_tag_of((#[trigger] new_list[i].tags@[j])@) is None by {
            assert(r[j] == bare[j]);
            assert(r[j] == new_list[i].tags@[j]@);
        }
        assert(r[at] == new_list[i].tags@[at]@);
        lemma_first_instance(new_list[i].tags@, 0, at, app, num as nat);
    }
}

proof fn lemma_with_tag(tags: Seq<Str>, ws: Str, n: nat, v: Str)
    requires
        ws.len() > 0,
        ws.last() != '*',
    ensures
        tags_name(with_tag(tags, "ws:"@ + ws, n), v) <==> tags_name(tags, v) || (v == ws && n > 0),
    decreases n,
{
    if n > 0 {
        lemma_with_tag(tags, ws, (n - 1) as nat, v);
        law_ws_tag(ws);
        lemma_name_more(with_tag(tags, "ws:"@ + ws, (n - 1) as nat), "ws:"@ + ws, v);
    }
}

proof fn lemma_times(plan: Seq<(int, Str)>, i: int, n: int)
    requires
        0 <= n <= plan.len(),
    ensures
        times(plan, i, n) > 0 <==> exists|k: int| 0 <= k < n && (#[trigger] plan[k]).0 == i,
    decreases n,
{
    if n > 0 {
        lemma_times(plan, i, n - 1);
        assert(plan[n - 1].0 == plan[n - 1].0);
        if times(plan, i, n - 1) > 0 {
            let k = choose|k: int| 0 <= k < n - 1 && (#[trigger] plan[k]).0 == i;
            assert(plan[k].0 == i);
        }
        if exists|k: int| 0 <= k < n && (#[trigger] plan[k]).0 == i {
            let k = choose|k: int| 0 <= k < n && (#[trigger] plan[k]).0 == i;
            assert(k == n - 1 || k < n - 1);
        }
    }
}

/// When windows are shared with a workspace, exactly those of the plan enter it; no window leaves any workspace or enters
/// another, and all else of them stays.
pub proof fn law_shared_tags(old_list: Seq<Client>, new_list: Seq<Client>, plan: Seq<(int, Str)>, ws: Str)
    requires
        ws.len() > 0,
        ws.last() != '*',
        shared_with(old_list, new_list, plan, ws, plan.len() as int),
    ensures
        new_list.len() == old_list.len(),
        forall|i: int| 0 <= i < old_list.len() ==> same_window(old_list[i], #[trigger] new_list[i]),
        forall|i: int, v: Str|
            0 <= i < old_list.len() ==> (#[trigger] in_ws(new_list[i], v) <==> in_ws(old_list[i], v) || (v == ws && exists|k: int|
                0 <= k < plan.len() && (#[trigger] plan[k]).0 == i)),
{
    assert forall|i: int, v: Str| 0 <= i < old_list.len() implies (#[trigger] in_ws(new_list[i], v) <==> in_ws(old_list[i], v)
        || (v == ws && exists|k: int| 0 <= k < plan.len() && (#[trigger] plan[k]).0 == i)) by {
        assert(same_window(old_list[i], new_list[i]));
        lemma_in_ws(new_list[i], v);
        lemma_in_ws(old_list[i], v);
        lemma_times(plan, i, plan.len() as int);
        lemma_with_tag(views(old_list[i].tags@), ws, times(plan, i, plan.len() as int), v);
    }
}

} // verus!
