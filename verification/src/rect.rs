//! Rectangles on the screen and the places of a window on the work area.
use vstd::prelude::*;

use crate::pattern::{quote, quoted};
use crate::table::{Alike, Dup};
use crate::text::{has_suffix, strip_end, trim, trimmed, Str};

verus! {

/// A rectangle in pixels of the screen.
#[derive(Debug, Clone, Copy, PartialEq, Eq, Structural)]
pub struct PxRect {
    pub x: i32,
    pub y: i32,
    pub w: i32,
    pub h: i32,
}

impl View for PxRect {
    type V = PxRect;

    open spec fn view(&self) -> PxRect {
        *self
    }
}

impl Default for PxRect {
    fn default() -> (r: Self)
        ensures
            r == (PxRect { x: 0, y: 0, w: 0, h: 0 }),
    {
        PxRect { x: 0, y: 0, w: 0, h: 0 }
    }
}

impl Dup for PxRect {
    fn dup(&self) -> (r: Self) {
        *self
    }
}

impl Alike for PxRect {
    fn alike(&self, other: &Self) -> (r: bool) {
        *self == *other
    }
}

/// One coordinate or size as written: pixels, or a share of the monitor. A share keeps the bits of
/// the number that was written and the pixels it comes to on the monitor at hand.
#[derive(Debug, Clone, Copy, PartialEq, Eq, Structural)]
pub enum Coord {
    Px(i32),
    Percent { bits: u64, px: i32 },
}

impl Coord {
    /// The pixels of a coordinate.
    pub open spec fn px(self) -> i32 {
        match self {
            Coord::Px(v) => v,
            Coord::Percent { bits, px } => px,
        }
    }

    /// The pixels of a coordinate.
    pub fn resolve(&self) -> (r: i32)
        ensures
            r == self.px(),
    {
        match self {
            Coord::Px(v) => *v,
            Coord::Percent { bits: _, px } => *px,
        }
    }
}

/// A rectangle as written, from the left upper corner of the screen.
#[derive(Debug, Clone, Copy, PartialEq, Eq, Structural)]
pub struct Rect {
    pub x: Coord,
    pub y: Coord,
    pub w: Coord,
    pub h: Coord,
}

impl View for Rect {
    type V = Rect;

    open spec fn view(&self) -> Rect {
        *self
    }
}

impl Dup for Rect {
    fn dup(&self) -> (r: Self) {
        *self
    }
}

impl Alike for Rect {
    fn alike(&self, other: &Self) -> (r: bool) {
        *self == *other
    }
}

impl Rect {
    /// The rectangle in pixels.
    pub open spec fn px(self) -> PxRect {
        PxRect { x: self.x.px(), y: self.y.px(), w: self.w.px(), h: self.h.px() }
    }

    /// The rectangle in pixels.
    pub fn resolve(&self) -> (r: PxRect)
        ensures
            r == self.px(),
    {
        PxRect { x: self.x.resolve(), y: self.y.resolve(), w: self.w.resolve(), h: self.h.resolve() }
    }
}

/// The number fits into 32 bits with a sign.
pub open spec fn fits(n: int) -> bool {
    i32::MIN <= n <= i32::MAX
}

/// A size cut down to what is left of it, one pixel at least.
pub open spec fn at_least_one(n: int) -> int {
    if n < 1 {
        1
    } else {
        n
    }
}

impl PxRect {
    /// The sums that `inset` makes fit.
    pub open spec fn inset_fits(self, gap: i32) -> bool {
        fits(self.x + gap) && fits(self.y + gap) && fits(2 * gap) && fits(self.w - 2 * gap) && fits(
            self.h - 2 * gap,
        )
    }

    /// The rectangle made smaller by the gap on every side.
    pub open spec fn inset_by(self, gap: i32) -> PxRect {
        PxRect {
            x: (self.x + gap) as i32,
            y: (self.y + gap) as i32,
            w: at_least_one(self.w - 2 * gap) as i32,
            h: at_least_one(self.h - 2 * gap) as i32,
        }
    }

    /// The rectangle made smaller by the gap on every side, one pixel wide and high at least.
    pub fn inset(self, gap: i32) -> (r: PxRect)
        requires
            self.inset_fits(gap),
        ensures
            r == self.inset_by(gap),
    {
        let w: i32 = self.w - 2 * gap;
        let h: i32 = self.h - 2 * gap;
        PxRect {
            x: self.x + gap,
            y: self.y + gap,
            w: if w < 1 { 1 } else { w },
            h: if h < 1 { 1 } else { h },
        }
    }

    /// The same rectangle as it is written: four numbers in pixels.
    pub open spec fn as_rect(self) -> Rect {
        Rect { x: Coord::Px(self.x), y: Coord::Px(self.y), w: Coord::Px(self.w), h: Coord::Px(self.h) }
    }

    /// The same rectangle as it is written: four numbers in pixels.
    pub fn to_rect(self) -> (r: Rect)
        ensures
            r == self.as_rect(),
    {
        Rect { x: Coord::Px(self.x), y: Coord::Px(self.y), w: Coord::Px(self.w), h: Coord::Px(self.h) }
    }
}

/// A rectangle that was written down in pixels reads as the same rectangle.
pub proof fn law_to_rect_resolves(r: PxRect)
    ensures
        r.as_rect().px() == r,
{
}

/// The number in a share of the screen written as a text, `50%`; the fault of a text that is no share.
pub open spec fn share_of(s: Str) -> Result<Str, Str> {
    let t = trimmed(s);
    if has_suffix(t, "%"@) {
        Ok(trimmed(t.take(t.len() - "%"@.len())))
    } else {
        Err("ожидалось число пикселей или строка с процентом, получено "@ + quoted(s))
    }
}

/// The number in a share of the screen written as a text, `50%`.
pub fn share_text(s: &str) -> (r: Result<String, String>)
    ensures
        match r {
            Ok(n) => share_of(s@) == Ok::<Str, Str>(n@),
            Err(e) => share_of(s@) == Err::<Str, Str>(e@),
        },
{
    match strip_end(trim(s), "%") {
        Some(n) => Ok(trim(n).to_owned()),
        None => {
            let mut e = "ожидалось число пикселей или строка с процентом, получено ".to_owned();
            e.append(quote(s).as_str());
            Err(e)
        },
    }
}

/// The fault of a share whose number is none.
pub fn share_fault(s: &str) -> (r: String)
    ensures
        r@ == "не число в процентах: "@ + quoted(s@),
{
    let mut e = "не число в процентах: ".to_owned();
    e.append(quote(s).as_str());
    e
}

} // verus!
