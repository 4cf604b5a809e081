//! Placement of the capture window: appear near the pointer without crossing
//! off-screen. Coordinates are whole pixels; the shell rounds the pointer
//! position it reads to the nearest pixel before asking, and carries out the
//! move or the centering that comes back.

use vstd::prelude::*;

verus! {

/// Fallback width of the capture window, when no live size is available.
pub const CAPTURE_WINDOW_WIDTH: i64 = 900;

/// Fallback height of the capture window.
pub const CAPTURE_WINDOW_HEIGHT: i64 = 76;

/// Offset from the pointer, so the window does not sit under the cursor.
pub const CURSOR_OFFSET: i64 = 14;

#[derive(Clone, Copy, Debug, PartialEq, Eq, Structural)]
pub struct Point {
    pub x: i64,
    pub y: i64,
}

#[derive(Clone, Copy, Debug, PartialEq, Eq, Structural)]
pub struct Size {
    pub w: i64,
    pub h: i64,
}

/// A display's work area: origin and extent of its usable region.
#[derive(Clone, Copy, Debug, PartialEq, Eq, Structural)]
pub struct Rect {
    pub x: i64,
    pub y: i64,
    pub w: i64,
    pub h: i64,
}

/// Where the capture window should go.
#[derive(Clone, Copy, Debug, PartialEq, Eq, Structural)]
pub enum Placement {
    /// The pointer could not be read: center on the default display.
    Center,
    /// Move to this position.
    At(Point),
}

/// Coordinates as the windowing system reports them: screen positions fit in
/// 32 bits, extents are non-negative and fit in 32 bits.
pub open spec fn coord_ok(v: int) -> bool {
    -0x8000_0000 <= v <= 0x8000_0000
}

pub open spec fn point_wf(p: Point) -> bool {
    coord_ok(p.x as int) && coord_ok(p.y as int)
}

pub open spec fn size_wf(s: Size) -> bool {
    0 <= s.w <= 0x1_0000_0000 && 0 <= s.h <= 0x1_0000_0000
}

pub open spec fn rect_wf(r: Rect) -> bool {
    coord_ok(r.x as int) && coord_ok(r.y as int) && 0 <= r.w <= 0x1_0000_0000 && 0 <= r.h
        <= 0x1_0000_0000
}

/// Whether a point lies in a work area (right and bottom edges excluded).
pub open spec fn rect_contains(r: Rect, p: Point) -> bool {
    r.x <= p.x < r.x + r.w && r.y <= p.y < r.y + r.h
}

/// Clamp one axis: keep `origin <= v` and `v + size <= origin + extent`; if
/// the window does not fit on the axis, pin to the origin.
pub open spec fn spec_clamp_axis(target: int, origin: int, extent: int, size: int) -> int {
    let max = origin + extent - size;
    if max < origin {
        origin
    } else if target < origin {
        origin
    } else if target > max {
        max
    } else {
        target
    }
}

/// The window size the placement reckons with: the live size, or the fallback.
pub open spec fn spec_effective_size(live_size: Option<Size>) -> Size {
    match live_size {
        Some(s) => s,
        None => Size { w: CAPTURE_WINDOW_WIDTH, h: CAPTURE_WINDOW_HEIGHT },
    }
}

/// The first work area containing the point, if any.
pub open spec fn first_containing(areas: Seq<Rect>, p: Point) -> Option<Rect>
    decreases areas.len(),
{
    if areas.len() == 0 {
        None
    } else if rect_contains(areas[0], p) {
        Some(areas[0])
    } else {
        first_containing(areas.drop_first(), p)
    }
}

fn clamp_axis(target: i64, origin: i64, extent: i64, size: i64) -> (r: i64)
    requires
        coord_ok(origin as int),
        0 <= extent <= 0x1_0000_0000,
        0 <= size <= 0x1_0000_0000,
        -0x1_0000_0000 <= target <= 0x1_0000_0000,
    ensures
        r as int == spec_clamp_axis(target as int, origin as int, extent as int, size as int),
{
    let max = origin + extent - size;
    if max < origin {
        origin
    } else if target < origin {
        origin
    } else if target > max {
        max
    } else {
        target
    }
}

fn find_work_area(areas: &Vec<Rect>, p: Point) -> (r: Option<Rect>)
    requires
        forall|i: int| 0 <= i < areas@.len() ==> rect_wf(#[trigger] areas@[i]),
    ensures
        r == first_containing(areas@, p),
{
    let mut i: usize = 0;
    proof {
        assert(areas@.skip(0) =~= areas@);
    }
    while i < areas.len()
        invariant
            0 <= i <= areas@.len(),
            forall|k: int| 0 <= k < areas@.len() ==> rect_wf(#[trigger] areas@[k]),
            first_containing(areas@, p) == first_containing(areas@.skip(i as int), p),
        decreases areas@.len() - i,
    {
        let a = areas[i];
        proof {
            assert(areas@.skip(i as int)[0] == areas@[i as int]);
            assert(areas@.skip(i as int).drop_first() =~= areas@.skip(i + 1 as int));
        }
        if a.x <= p.x && p.x < a.x + a.w && a.y <= p.y && p.y < a.y + a.h {
            return Some(a);
        }
        i += 1;
    }
    proof {
        assert(areas@.skip(areas@.len() as int) =~= Seq::<Rect>::empty());
    }
    None
}

/// Decide where the capture window goes: near the pointer, offset a little,
/// clamped into the work area under the pointer; centered when the pointer
/// cannot be read; the raw offset position when no work area contains it.
pub fn capture_position(cursor: Option<Point>, areas: &Vec<Rect>, live_size: Option<Size>) -> (r:
    Placement)
    requires
        cursor matches Some(c) ==> point_wf(c),
        forall|i: int| 0 <= i < areas@.len() ==> rect_wf(#[trigger] areas@[i]),
        live_size matches Some(s) ==> size_wf(s),
    ensures
        cursor is None <==> r == Placement::Center,
        cursor matches Some(c) ==> (r matches Placement::At(p) && {
            let size = spec_effective_size(live_size);
            let tx = c.x as int + CURSOR_OFFSET as int;
            let ty = c.y as int + CURSOR_OFFSET as int;
            match first_containing(areas@, c) {
                None => p.x as int == tx && p.y as int == ty,
                Some(m) => p.x as int == spec_clamp_axis(tx, m.x as int, m.w as int, size.w as int)
                    && p.y as int == spec_clamp_axis(ty, m.y as int, m.h as int, size.h as int),
            }
        }),
{
    let c = match cursor {
        None => {
            return Placement::Center;
        },
        Some(c) => c,
    };
    let size = match live_size {
        Some(s) => s,
        None => Size { w: CAPTURE_WINDOW_WIDTH, h: CAPTURE_WINDOW_HEIGHT },
    };
    let target = Point { x: c.x + CURSOR_OFFSET, y: c.y + CURSOR_OFFSET };
    match find_work_area(areas, c) {
        None => Placement::At(target),
        Some(m) => {
            proof {
                lemma_first_containing_wf(areas@, c);
            }
            Placement::At(
                Point {
                    x: clamp_axis(target.x, m.x, m.w, size.w),
                    y: clamp_axis(target.y, m.y, m.h, size.h),
                },
            )
        },
    }
}

proof fn lemma_first_containing_wf(areas: Seq<Rect>, p: Point)
    requires
        forall|i: int| 0 <= i < areas.len() ==> rect_wf(#[trigger] areas[i]),
    ensures
        first_containing(areas, p) matches Some(m) ==> rect_wf(m),
    decreases areas.len(),
{
    if areas.len() > 0 && !rect_contains(areas[0], p) {
        assert(forall|i: int|
            0 <= i < areas.drop_first().len() ==> #[trigger] areas.drop_first()[i] == areas[i + 1]);
        lemma_first_containing_wf(areas.drop_first(), p);
    }
}

/// The work area the placement clamps to really contains the pointer.
pub proof fn lemma_first_containing_contains(areas: Seq<Rect>, p: Point)
    ensures
        first_containing(areas, p) matches Some(m) ==> rect_contains(m, p),
    decreases areas.len(),
{
    if areas.len() > 0 && !rect_contains(areas[0], p) {
        lemma_first_containing_contains(areas.drop_first(), p);
    }
}

/// The clamped coordinate keeps the window's bounding box within the work
/// area on every axis on which the window fits, and pins to the work area's
/// origin on an axis on which it does not.
pub proof fn lemma_clamp_axis_in_area(target: int, origin: int, extent: int, size: int)
    requires
        0 <= size,
        0 <= extent,
    ensures
        size <= extent ==> origin <= spec_clamp_axis(target, origin, extent, size)
            && spec_clamp_axis(target, origin, extent, size) + size <= origin + extent,
        size > extent ==> spec_clamp_axis(target, origin, extent, size) == origin,
{
}

} // verus!
