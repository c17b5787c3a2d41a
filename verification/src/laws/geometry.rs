//! Places on the work area.
use vstd::prelude::*;

use crate::area::{cell_of, centered, edges_of, half_at, side_cell, Edge};
use crate::rect::{fits, PxRect};

verus! {

/// Half of a length at its start begins where the length begins, at its end it ends where that ends, and in the middle
/// the rests on both sides differ by one at most; the whole is all of it.
pub proof fn law_half_at(from: int, len: int)
    requires
        len >= 0,
    ensures
        half_at(from, len, Edge::Start) == (from, len / 2),
        ({
            let (x, w) = half_at(from, len, Edge::End);
            x + w == from + len && w == len / 2
        }),
        ({
            let (x, w) = half_at(from, len, Edge::Middle);
            w == len / 2 && 0 <= (from + len - (x + w)) - (x - from) <= 1
        }),
        half_at(from, len, Edge::All) == (from, len),
{
}

/// The positions by their names: those at the top begin at the upper edge, those at the bottom end at the lower one, those
/// on the left begin at the left edge and those on the right end at the right one. The middle ones stand in the middle
/// across. `center` has the whole height, and `full` all.
pub proof fn law_positions()
    ensures
        edges_of("top-left"@) == Some((Edge::Start, Edge::Start)),
        edges_of("top-center"@) == Some((Edge::Middle, Edge::Start)),
        edges_of("top-right"@) == Some((Edge::End, Edge::Start)),
        edges_of("bottom-left"@) == Some((Edge::Start, Edge::End)),
        edges_of("bottom-center"@) == Some((Edge::Middle, Edge::End)),
        edges_of("bottom-right"@) == Some((Edge::End, Edge::End)),
        edges_of("center"@) == Some((Edge::Middle, Edge::All)),
        edges_of("full"@) == Some((Edge::All, Edge::All)),
{
    reveal_strlit("top-left");
    reveal_strlit("top-center");
    reveal_strlit("top-right");
    reveal_strlit("bottom-left");
    reveal_strlit("bottom-center");
    reveal_strlit("bottom-right");
    reveal_strlit("center");
    reveal_strlit("full");
    assert("top-left"@.len() == 8 && "top-center"@.len() == 10 && "top-right"@.len() == 9 && "bottom-left"@.len() == 11);
    assert("bottom-center"@.len() == 13 && "bottom-right"@.len() == 12 && "center"@.len() == 6 && "full"@.len() == 4);
}

/// The halves of an area: the left one begins at its left edge and the right one begins where the left one ends and ends
/// at its right edge, both over the whole height; the upper and the lower one lie so over its whole width.
pub proof fn law_halves(area: PxRect)
    requires
        area.w >= 0,
        area.h >= 0,
        fits(area.x + area.w),
        fits(area.y + area.h),
    ensures
        ({
            let (l, r) = (side_cell("left"@)->0, side_cell("right"@)->0);
            let (u, d) = (side_cell("up"@)->0, side_cell("down"@)->0);
            let at = |c: (int, int, int, int)| cell_of(area, c.0, c.1, c.2, c.3);
            &&& side_cell("left"@) is Some && side_cell("right"@) is Some && side_cell("up"@) is Some && side_cell("down"@) is Some
            &&& at(l).x == area.x && at(l).w == area.w / 2 && at(l).y == area.y && at(l).h == area.h
            &&& at(r).x == at(l).x + at(l).w && at(r).x + at(r).w == area.x + area.w && at(r).y == area.y && at(r).h == area.h
            &&& at(u).y == area.y && at(u).h == area.h / 2 && at(u).x == area.x && at(u).w == area.w
            &&& at(d).y == at(u).y + at(u).h && at(d).y + at(d).h == area.y + area.h && at(d).x == area.x && at(d).w == area.w
        }),
{
    reveal_strlit("left");
    reveal_strlit("right");
    reveal_strlit("up");
    reveal_strlit("down");
    assert("left"@.len() == 4 && "right"@.len() == 5 && "up"@.len() == 2 && "down"@.len() == 4);
    assert("left"@[0] != "down"@[0]);
    let (w, h) = (area.w as int, area.h as int);
    assert(w / 1 == w && w / 1 * 0 == 0 && w / 2 * 0 == 0 && w / 2 * 1 == w / 2 && 0 <= w / 2 <= w) by (nonlinear_arith)
        requires
            w >= 0,
    ;
    assert(h / 1 == h && h / 1 * 0 == 0 && h / 2 * 0 == 0 && h / 2 * 1 == h / 2 && 0 <= h / 2 <= h) by (nonlinear_arith)
        requires
            h >= 0,
    ;
}

/// A window in the middle of the screen keeps its size, and the rests on both sides differ by one at most.
pub proof fn law_centered(size: (i32, i32), mon: (i32, i32))
    requires
        size.0 >= 0,
        size.1 >= 0,
        mon.0 >= 0,
        mon.1 >= 0,
    ensures
        ({
            let r = centered(size, mon);
            &&& r.w == size.0 && r.h == size.1
            &&& -1 <= (mon.0 - (r.x + r.w)) - r.x <= 1
            &&& -1 <= (mon.1 - (r.y + r.h)) - r.y <= 1
        }),
{
}

} // verus!
