//! Lists of expressions for the compositor.
use vstd::prelude::*;

use crate::hypr::{
    app_tags_upto, d_bring_to_top, d_focus_window, d_move_to, d_place, d_untag, focus_of, move_of, position_of, resize_of,
    tag_of, top_text, Client,
};
use crate::rect::PxRect;
use crate::text::{dec, push_dec, views, Str};

verus! {

broadcast use crate::text::group_views;

/// The expressions that give a window a rectangle.
pub open spec fn placing(addr: Str, r: PxRect) -> Seq<Str> {
    seq![resize_of(addr, r), position_of(addr, r)]
}

/// The expressions that give a window the rectangle, where there is one.
pub open spec fn placing_opt(addr: Str, r: Option<PxRect>) -> Seq<Str> {
    match r {
        Some(r) => placing(addr, r),
        None => Seq::empty(),
    }
}

/// The expressions that give a window the focus and raise it above the others.
pub open spec fn focusing(addr: Str) -> Seq<Str> {
    seq![focus_of(addr), top_text()]
}

/// The expression that moves a window to a desktop.
pub open spec fn desk_move(addr: Str, n: u8) -> Str {
    move_of(addr, dec(n as nat))
}

/// The expression that parks a window.
pub open spec fn park(addr: Str) -> Str {
    move_of(addr, "special:pool"@)
}

/// The expressions that take tags off a window.
pub open spec fn untags(addr: Str, tags: Seq<Str>) -> Seq<Str> {
    tags.map_values(|t: Str| tag_of(addr, "-"@ + t))
}

/// The instance tags of a window.
pub open spec fn app_tags_of(c: Client) -> Seq<Str> {
    app_tags_upto(c.tags@, c.tags@.len() as int)
}

/// The number of a desktop as text.
pub fn desk_text(n: u8) -> (r: String)
    ensures
        r@ == dec(n as nat),
{
    let mut s = "".to_owned();
    push_dec(&mut s, n as u64);
    proof {
        reveal_strlit("");
        assert(s@ =~= dec(n as nat));
    }
    s
}

/// Add the expressions that give a window a rectangle.
pub fn push_place(ex: &mut Vec<String>, addr: &str, r: PxRect)
    ensures
        views(final(ex)@) == views(old(ex)@) + placing(addr@, r),
{
    let ghost was = views(ex@);
    let pair = d_place(addr, r);
    ex.push(pair[0].clone());
    ex.push(pair[1].clone());
    proof {
        assert(views(ex@) =~= was + placing(addr@, r));
    }
}

/// Add the expressions that give a window the rectangle, where there is one.
pub fn push_place_opt(ex: &mut Vec<String>, addr: &str, r: Option<PxRect>)
    ensures
        views(final(ex)@) == views(old(ex)@) + placing_opt(addr@, r),
{
    if let Some(r) = r {
        push_place(ex, addr, r);
    } else {
        proof {
            assert(views(ex@) =~= views(ex@) + Seq::<Str>::empty());
        }
    }
}

/// Add the expressions that give a window the focus and raise it above the others.
pub fn push_focus(ex: &mut Vec<String>, addr: &str)
    ensures
        views(final(ex)@) == views(old(ex)@) + focusing(addr@),
{
    let ghost was = views(ex@);
    ex.push(d_focus_window(addr));
    ex.push(d_bring_to_top());
    proof {
        assert(views(ex@) =~= was + focusing(addr@));
    }
}

/// Add the expression that moves a window to a desktop.
pub fn push_desk_move(ex: &mut Vec<String>, addr: &str, n: u8)
    ensures
        views(final(ex)@) == views(old(ex)@).push(desk_move(addr@, n)),
{
    ex.push(d_move_to(addr, desk_text(n).as_str()));
}

/// Add the expression that parks a window.
pub fn push_park(ex: &mut Vec<String>, addr: &str)
    ensures
        views(final(ex)@) == views(old(ex)@).push(park(addr@)),
{
    ex.push(d_move_to(addr, "special:pool"));
}

/// Add the expressions that take tags off a window.
pub fn push_untags(ex: &mut Vec<String>, addr: &str, tags: &[String])
    ensures
        views(final(ex)@) == views(old(ex)@) + untags(addr@, views(tags@)),
{
    let ghost was = views(ex@);
    let ghost u = untags(addr@, views(tags@));
    let mut i: usize = 0;
    proof {
        assert(was + u.take(0) =~= was);
    }
    while i < tags.len()
        invariant
            i <= tags.len(),
            u == untags(addr@, views(tags@)),
            views(ex@) == was + u.take(i as int),
        decreases tags.len() - i,
    {
        ex.push(d_untag(addr, tags[i].as_str()));
        proof {
            assert(u[i as int] == tag_of(addr@, "-"@ + tags@[i as int]@));
            assert(was + u.take(i + 1) =~= (was + u.take(i as int)).push(u[i as int]));
        }
        i = i + 1;
    }
    proof {
        assert(u.take(u.len() as int) =~= u);
    }
}

/// Add all expressions of another list.
pub fn push_all(ex: &mut Vec<String>, more: Vec<String>)
    ensures
        views(final(ex)@) == views(old(ex)@) + views(more@),
{
    let ghost was = views(ex@);
    let ghost m = views(more@);
    let mut i: usize = 0;
    proof {
        assert(was + m.take(0) =~= was);
    }
    while i < more.len()
        invariant
            i <= more.len(),
            m == views(more@),
            views(ex@) == was + m.take(i as int),
        decreases more.len() - i,
    {
        ex.push(more[i].clone());
        proof {
            assert(was + m.take(i + 1) =~= (was + m.take(i as int)).push(m[i as int]));
        }
        i = i + 1;
    }
    proof {
        assert(m.take(m.len() as int) =~= m);
    }
}

} // verus!
