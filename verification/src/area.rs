//! Places of a window on the work area: halves, corners, the whole of it and the middle of the screen.
use vstd::prelude::*;

use crate::hypr::Client;
use crate::pattern::{quote, quoted};
use crate::rect::{fits, PxRect};
use crate::text::{same, Str};

verus! {

/// The work area without twice the gap on every side.
pub fn maximize_rect(work_area: PxRect, gap: i32) -> (r: PxRect)
    requires
        fits(2 * gap),
        work_area.inset_fits((2 * gap) as i32),
    ensures
        r == work_area.inset_by((2 * gap) as i32),
{
    work_area.inset(2 * gap)
}

/// The start and the size of part `k` of `n` equal parts of a length that starts at `from`; the last
/// part gets what is left over.
pub open spec fn part_of(from: int, len: int, n: int, k: int) -> (int, int) {
    (
        from + len / n * k,
        if k == n - 1 {
            len - len / n * k
        } else {
            len / n
        },
    )
}

/// A cell of a grid on an area.
pub open spec fn cell_of(area: PxRect, cols: int, rows: int, col: int, row: int) -> PxRect {
    let (x, w) = part_of(area.x as int, area.w as int, cols, col);
    let (y, h) = part_of(area.y as int, area.h as int, rows, row);
    PxRect { x: x as i32, y: y as i32, w: w as i32, h: h as i32 }
}

proof fn lemma_part(len: int, n: int, k: int)
    requires
        len >= 0,
        n >= 1,
        0 <= k < n,
    ensures
        0 <= len / n <= len,
        0 <= len / n * k <= len,
{
    assert(0 <= len / n <= len && 0 <= len / n * k <= len / n * n && len / n * n <= len) by (nonlinear_arith)
        requires
            len >= 0,
            n >= 1,
            0 <= k < n,
    ;
}

fn part(from: i32, len: i32, n: i32, k: i32) -> (r: (i32, i32))
    requires
        len >= 0,
        n >= 1,
        0 <= k < n,
        fits(part_of(from as int, len as int, n as int, k as int).0),
    ensures
        r.0 == part_of(from as int, len as int, n as int, k as int).0,
        r.1 == part_of(from as int, len as int, n as int, k as int).1,
{
    proof {
        lemma_part(len as int, n as int, k as int);
    }
    let size: i32 = (len as u32 / n as u32) as i32;
    let start: i32 = size * k;
    (
        from + start,
        if k == n - 1 {
            len - start
        } else {
            size
        },
    )
}

/// A cell of a grid on the work area: the area loses the gap, is cut into equal parts, and the chosen
/// one loses the gap again. Two cells and the edge are twice the gap apart.
pub fn grid_cell(work_area: PxRect, gap: i32, cols: i32, rows: i32, col: i32, row: i32) -> (r: PxRect)
    requires
        cols >= 1,
        rows >= 1,
        0 <= col < cols,
        0 <= row < rows,
        work_area.inset_fits(gap),
        fits(part_of(work_area.inset_by(gap).x as int, work_area.inset_by(gap).w as int, cols as int, col as int).0),
        fits(part_of(work_area.inset_by(gap).y as int, work_area.inset_by(gap).h as int, rows as int, row as int).0),
        cell_of(work_area.inset_by(gap), cols as int, rows as int, col as int, row as int).inset_fits(gap),
    ensures
        r == cell_of(work_area.inset_by(gap), cols as int, rows as int, col as int, row as int).inset_by(gap),
{
    let area = work_area.inset(gap);
    let (x, w) = part(area.x, area.w, cols, col);
    let (y, h) = part(area.y, area.h, rows, row);
    PxRect { x, y, w, h }.inset(gap)
}

/// Where a position puts a length on a longer one: at its start, in the middle or at its end.
#[derive(Clone, Copy, PartialEq, Eq, Structural)]
pub enum Edge {
    Start,
    Middle,
    End,
    /// The whole length.
    All,
}

/// Where a position puts a window, across and down.
pub open spec fn edges_of(position: Str) -> Option<(Edge, Edge)> {
    if position == "top-left"@ {
        Some((Edge::Start, Edge::Start))
    } else if position == "top-center"@ {
        Some((Edge::Middle, Edge::Start))
    } else if position == "top-right"@ {
        Some((Edge::End, Edge::Start))
    } else if position == "bottom-left"@ {
        Some((Edge::Start, Edge::End))
    } else if position == "bottom-center"@ {
        Some((Edge::Middle, Edge::End))
    } else if position == "bottom-right"@ {
        Some((Edge::End, Edge::End))
    } else if position == "center"@ {
        Some((Edge::Middle, Edge::All))
    } else if position == "full"@ {
        Some((Edge::All, Edge::All))
    } else {
        None
    }
}

fn edges(position: &str) -> (r: Option<(Edge, Edge)>)
    ensures
        r == edges_of(position@),
{
    if same(position, "top-left") {
        Some((Edge::Start, Edge::Start))
    } else if same(position, "top-center") {
        Some((Edge::Middle, Edge::Start))
    } else if same(position, "top-right") {
        Some((Edge::End, Edge::Start))
    } else if same(position, "bottom-left") {
        Some((Edge::Start, Edge::End))
    } else if same(position, "bottom-center") {
        Some((Edge::Middle, Edge::End))
    } else if same(position, "bottom-right") {
        Some((Edge::End, Edge::End))
    } else if same(position, "center") {
        Some((Edge::Middle, Edge::All))
    } else if same(position, "full") {
        Some((Edge::All, Edge::All))
    } else {
        None
    }
}

/// The start and the size of the half of a length at an edge, or the whole of it.
pub open spec fn half_at(from: int, len: int, e: Edge) -> (int, int) {
    match e {
        Edge::Start => (from, len / 2),
        Edge::Middle => (from + (len - len / 2) / 2, len / 2),
        Edge::End => (from + len - len / 2, len / 2),
        Edge::All => (from, len),
    }
}

/// The sums that the half of a length makes fit.
pub open spec fn half_fits(from: int, len: int, e: Edge) -> bool {
    (e == Edge::End ==> fits(from + len)) && fits(half_at(from, len, e).0)
}

fn half(from: i32, len: i32, e: Edge) -> (r: (i32, i32))
    requires
        len >= 0,
        half_fits(from as int, len as int, e),
    ensures
        r.0 == half_at(from as int, len as int, e).0,
        r.1 == half_at(from as int, len as int, e).1,
{
    let h: i32 = (len as u32 / 2) as i32;
    match e {
        Edge::Start => (from, h),
        Edge::Middle => (from + ((len - h) as u32 / 2) as i32, h),
        Edge::End => (from + len - h, h),
        Edge::All => (from, len),
    }
}

/// The place of a position on an area.
pub open spec fn spot_of(area: PxRect, across: Edge, down: Edge) -> PxRect {
    let (x, w) = half_at(area.x as int, area.w as int, across);
    let (y, h) = half_at(area.y as int, area.h as int, down);
    PxRect { x: x as i32, y: y as i32, w: w as i32, h: h as i32 }
}

/// The sums that a position makes fit.
pub open spec fn position_fits(area: PxRect, gap: i32, across: Edge, down: Edge) -> bool {
    half_fits(area.x as int, area.w as int, across) && half_fits(area.y as int, area.h as int, down) && spot_of(
        area,
        across,
        down,
    ).inset_fits(gap)
}

/// The fault of a position that is not known.
pub open spec fn position_fault(position: Str) -> Str {
    "place: неизвестная позиция "@ + quoted(position)
        + " (top-left, top-center, top-right, bottom-left, bottom-center, bottom-right, center, full)"@
}

/// The place of a position on the work area: the area loses the gap; the window takes half of its width
/// and height (`center` the whole height, `full` all of it) at the left, in the middle or at the right,
/// at the top or at the bottom, and loses the gap again.
pub fn place_rect(work_area: PxRect, gap: i32, position: &str) -> (r: Result<PxRect, String>)
    requires
        work_area.inset_fits(gap),
        edges_of(position@) matches Some((a, d)) ==> position_fits(work_area.inset_by(gap), gap, a, d),
    ensures
        match r {
            Ok(p) => edges_of(position@) matches Some((a, d)) && p == spot_of(work_area.inset_by(gap), a, d).inset_by(
                gap,
            ),
            Err(e) => edges_of(position@) is None && e@ == position_fault(position@),
        },
{
    let area = work_area.inset(gap);
    match edges(position) {
        Some((a, d)) => {
            let (x, w) = half(area.x, area.w, a);
            let (y, h) = half(area.y, area.h, d);
            Ok(PxRect { x, y, w, h }.inset(gap))
        },
        None => {
            let mut s = "place: неизвестная позиция ".to_owned();
            s.append(quote(position).as_str());
            s.append(" (top-left, top-center, top-right, bottom-left, bottom-center, bottom-right, center, full)");
            Err(s)
        },
    }
}

/// A side of the work area as a cell of a grid: the columns, the rows, the column and the row.
pub open spec fn side_cell(side: Str) -> Option<(int, int, int, int)> {
    if side == "left"@ {
        Some((2, 1, 0, 0))
    } else if side == "right"@ {
        Some((2, 1, 1, 0))
    } else if side == "up"@ {
        Some((1, 2, 0, 0))
    } else if side == "down"@ {
        Some((1, 2, 0, 1))
    } else {
        None
    }
}

/// The sums that the half of the work area makes fit.
pub open spec fn side_fits(work_area: PxRect, gap: i32, c: (int, int, int, int)) -> bool {
    let area = work_area.inset_by(gap);
    fits(part_of(area.x as int, area.w as int, c.0, c.2).0) && fits(part_of(area.y as int, area.h as int, c.1, c.3).0)
        && cell_of(area, c.0, c.1, c.2, c.3).inset_fits(gap)
}

/// The fault of a side that is not known.
pub open spec fn side_fault(side: Str) -> Str {
    "half: неизвестная сторона "@ + quoted(side) + " (left, right, up, down)"@
}

/// The half of the work area on a side.
pub fn half_rect(work_area: PxRect, gap: i32, side: &str) -> (r: Result<PxRect, String>)
    requires
        work_area.inset_fits(gap),
        side_cell(side@) matches Some(c) ==> side_fits(work_area, gap, c),
    ensures
        match r {
            Ok(p) => side_cell(side@) matches Some(c) && p == cell_of(
                work_area.inset_by(gap),
                c.0,
                c.1,
                c.2,
                c.3,
            ).inset_by(gap),
            Err(e) => side_cell(side@) is None && e@ == side_fault(side@),
        },
{
    if same(side, "left") {
        Ok(grid_cell(work_area, gap, 2, 1, 0, 0))
    } else if same(side, "right") {
        Ok(grid_cell(work_area, gap, 2, 1, 1, 0))
    } else if same(side, "up") {
        Ok(grid_cell(work_area, gap, 1, 2, 0, 0))
    } else if same(side, "down") {
        Ok(grid_cell(work_area, gap, 1, 2, 0, 1))
    } else {
        let mut s = "half: неизвестная сторона ".to_owned();
        s.append(quote(side).as_str());
        s.append(" (left, right, up, down)");
        Err(s)
    }
}

/// Half of a number, rounded towards zero.
pub open spec fn halved(n: int) -> int {
    if n >= 0 {
        n / 2
    } else {
        -((-n) / 2)
    }
}

fn halve(n: i64) -> (r: i64)
    requires
        -0x1_0000_0000 <= n <= 0x1_0000_0000,
    ensures
        r == halved(n as int),
{
    if n >= 0 {
        (n as u64 / 2) as i64
    } else {
        -(((-n) as u64 / 2) as i64)
    }
}

/// A window of this size in the middle of the screen.
pub open spec fn centered(size: (i32, i32), mon: (i32, i32)) -> PxRect {
    PxRect {
        x: halved(mon.0 - size.0) as i32,
        y: halved(mon.1 - size.1) as i32,
        w: size.0,
        h: size.1,
    }
}

/// The window in the middle of the screen, with the size it has.
pub fn center_rect(c: &Client, mon: (i32, i32)) -> (r: PxRect)
    ensures
        r == centered(c.size, mon),
{
    PxRect {
        x: halve(mon.0 as i64 - c.size.0 as i64) as i32,
        y: halve(mon.1 as i64 - c.size.1 as i64) as i32,
        w: c.size.0,
        h: c.size.1,
    }
}

proof fn lemma_parts(from: int, len: int, n: int, k: int)
    requires
        n >= 1,
        0 <= k < n,
        len >= 0,
    ensures
        from <= part_of(from, len, n, k).0,
        part_of(from, len, n, k).0 + part_of(from, len, n, k).1 <= from + len,
        part_of(from, len, n, 0).0 == from,
        part_of(from, len, n, n - 1).0 + part_of(from, len, n, n - 1).1 == from + len,
        len / n <= part_of(from, len, n, k).1 < len / n + n,
        k + 1 < n ==> part_of(from, len, n, k).1 == len / n && part_of(from, len, n, k + 1).0 == part_of(
            from,
            len,
            n,
            k,
        ).0 + len / n,
{
    let q = len / n;
    assert(q * n <= len < q * n + n && q >= 0) by (nonlinear_arith)
        requires
            n >= 1,
            len >= 0,
            q == len / n,
    ;
    assert(q * k >= 0 && q * k + q <= q * n && q * (n - 1) == q * n - q && q * (k + 1) == q * k + q && q * 0 == 0)
        by (nonlinear_arith)
        requires
            0 <= k < n,
            q >= 0,
    ;
}

/// The cells of a grid on a work area, where they are large enough to lose the gap: neighbours are twice the gap
/// apart, and so are the outer ones from the edges. Cells of a column stand at the same place across and are
/// equally wide, cells of a row at the same place down and equally high. All columns are equally wide but
/// the last, which takes what is left over, and so with rows.
pub proof fn law_cells_are_apart(area: PxRect, gap: i32, cols: int, rows: int, col: int, row: int)
    requires
        gap >= 0,
        0 <= col < cols,
        0 <= row < rows,
        (area.w - 2 * gap) / cols > 2 * gap,
        (area.h - 2 * gap) / rows > 2 * gap,
        area.w >= 2 * gap,
        area.h >= 2 * gap,
        fits(area.x + area.w),
        fits(area.y + area.h),
    ensures
        ({
            let inner = area.inset_by(gap);
            let cell = |c: int, r: int| cell_of(inner, cols, rows, c, r).inset_by(gap);
            let own = cell(col, row);
            let (w, h) = ((area.w - 2 * gap) / cols, (area.h - 2 * gap) / rows);
            &&& col + 1 < cols ==> cell(col + 1, row).x - (own.x + own.w) == 2 * gap && cell(col + 1, row).y == own.y
            &&& row + 1 < rows ==> cell(col, row + 1).y - (own.y + own.h) == 2 * gap && cell(col, row + 1).x == own.x
            &&& col == 0 ==> own.x - area.x == 2 * gap
            &&& row == 0 ==> own.y - area.y == 2 * gap
            &&& col == cols - 1 ==> area.x + area.w - (own.x + own.w) == 2 * gap
            &&& row == rows - 1 ==> area.y + area.h - (own.y + own.h) == 2 * gap
            &&& col + 1 < cols ==> own.w == w - 2 * gap
            &&& row + 1 < rows ==> own.h == h - 2 * gap
            &&& w - 2 * gap <= own.w < w - 2 * gap + cols
            &&& h - 2 * gap <= own.h < h - 2 * gap + rows
        }),
{
    let inner = area.inset_by(gap);
    let (lw, lh) = (area.w - 2 * gap, area.h - 2 * gap);
    assert(lw >= 1) by (nonlinear_arith)
        requires
            lw / cols > 2 * gap,
            gap >= 0,
            cols >= 1,
            lw >= 0,
    ;
    assert(lh >= 1) by (nonlinear_arith)
        requires
            lh / rows > 2 * gap,
            gap >= 0,
            rows >= 1,
            lh >= 0,
    ;
    assert(inner.w == lw && inner.h == lh && inner.x == area.x + gap && inner.y == area.y + gap);
    lemma_parts(inner.x as int, lw, cols, col);
    lemma_parts(inner.y as int, lh, rows, row);
    if col + 1 < cols {
        lemma_parts(inner.x as int, lw, cols, col + 1);
    }
    if row + 1 < rows {
        lemma_parts(inner.y as int, lh, rows, row + 1);
    }
}

/// The position `full` and the maximized window are the same place.
pub proof fn law_full_is_maximized(area: PxRect, gap: i32)
    requires
        gap >= 0,
        fits(4 * gap),
        area.inset_fits((2 * gap) as i32),
        area.inset_fits(gap),
        area.inset_by(gap).inset_fits(gap),
    ensures
        edges_of("full"@) == Some((Edge::All, Edge::All)),
        spot_of(area.inset_by(gap), Edge::All, Edge::All).inset_by(gap) == area.inset_by((2 * gap) as i32),
{
    reveal_strlit("full");
    reveal_strlit("top-left");
    reveal_strlit("top-center");
    reveal_strlit("top-right");
    reveal_strlit("bottom-left");
    reveal_strlit("bottom-center");
    reveal_strlit("bottom-right");
    reveal_strlit("center");
    assert("full"@.len() == 4 && "center"@.len() == 6 && "top-left"@.len() == 8 && "top-right"@.len() == 9);
    assert("top-center"@.len() == 10 && "bottom-left"@.len() == 11 && "bottom-right"@.len() == 12);
    assert("bottom-center"@.len() == 13);
}

} // verus!
