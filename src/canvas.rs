use vstd::prelude::*;

use crate::rect::Rect;

verus! {

/// Height of a labelled box, in pixels.
pub const BOX_HEIGHT: u32 = 40;

/// Horizontal padding added to the text width to size a labelled box.
pub const TEXT_PAD: u32 = 20;

/// A smooth curve from `start` to `end`. Its two control points sit at the
/// horizontal midpoint of the ends, the first level with `start` and the second
/// level with `end`.
#[derive(Clone, Copy, Debug, PartialEq, Eq)]
pub struct Curve {
    pub start: (i32, i32),
    pub end: (i32, i32),
}

/// How a link between two points is drawn.
#[derive(Clone, Copy, Debug, PartialEq, Eq)]
pub enum Connector {
    /// Nothing is drawn: links only run left to right.
    Skip,
    /// A straight segment.
    Line { start: (i32, i32), end: (i32, i32) },
    /// An S-shaped curve.
    Curve(Curve),
}

/// One drawing operation of a diagram, in the order it is painted.
#[derive(Debug, PartialEq, Eq)]
pub enum DrawOp {
    /// A bordered box with the text centred inside.
    Label(Rect, String),
    /// A link from the first point to the second, routed by `draw_con_diag`.
    Link((i32, i32), (i32, i32)),
}

/// The box drawn for a label whose text is `text_w` pixels wide, with its
/// top-left pixel at `(x, y)`.
pub open spec fn label_rect_spec(x: int, y: int, text_w: int) -> Rect {
    Rect { left: x as i32, top: y as i32, width: (text_w + TEXT_PAD) as u32, height: BOX_HEIGHT }
}

/// The box fits the coordinate range.
pub open spec fn label_fits(x: int, y: int, text_w: int) -> bool {
    &&& 0 <= text_w
    &&& i32::MIN <= x
    &&& i32::MIN <= y
    &&& x + text_w + TEXT_PAD - 1 <= i32::MAX
    &&& y + BOX_HEIGHT - 1 <= i32::MAX
}

/// Sizes the box of a label from its measured text width: the text plus the
/// padding across, a fixed height down.
pub fn label_rect(off: (i32, i32), text_w: i32) -> (r: Rect)
    requires
        label_fits(off.0 as int, off.1 as int, text_w as int),
    ensures
        r == label_rect_spec(off.0 as int, off.1 as int, text_w as int),
        r.wf(),
        r.height == BOX_HEIGHT,
{
    Rect::at_size(off.0, off.1, (text_w as u32) + TEXT_PAD, BOX_HEIGHT)
}

/// The curve across the rectangle at `off` of the given size, from its
/// bottom-left to its top-right corner when `up`, else from its top-left to its
/// bottom-right corner.
pub open spec fn diag_curve_spec(up: bool, r: Rect) -> Curve {
    if up {
        Curve {
            start: (r.left, r.bottom_spec() as i32),
            end: (r.right_spec() as i32, r.top),
        }
    } else {
        Curve {
            start: (r.left, r.top),
            end: (r.right_spec() as i32, r.bottom_spec() as i32),
        }
    }
}

/// The diagonal curve across a rectangle; see `diag_curve_spec`.
pub fn draw_rect_diag(up: bool, off: (i32, i32), width: u32, height: u32) -> (c: Curve)
    requires
        width > 0,
        height > 0,
        off.0 + width - 1 <= i32::MAX,
        off.1 + height - 1 <= i32::MAX,
    ensures
        c == diag_curve_spec(up, Rect { left: off.0, top: off.1, width, height }),
{
    let rect = Rect::at_size(off.0, off.1, width, height);
    let left = rect.left();
    let right = rect.right();
    let top = rect.top();
    let bottom = rect.bottom();
    if up {
        Curve { start: (left, bottom), end: (right, top) }
    } else {
        Curve { start: (left, top), end: (right, bottom) }
    }
}

/// How the link from `start` to `end` is drawn: nothing when it would run right
/// to left, a straight line when the ends share a row or a column, and otherwise
/// the curve from `start` to `end`.
pub open spec fn connector_spec(start: (i32, i32), end: (i32, i32)) -> Connector {
    if start.0 > end.0 {
        Connector::Skip
    } else if start.1 == end.1 || start.0 == end.0 {
        Connector::Line { start, end }
    } else {
        Connector::Curve(Curve { start, end })
    }
}

/// Routes the link from `start` to `end`; see `connector_spec`.
pub fn draw_con_diag(start: (i32, i32), end: (i32, i32)) -> (c: Connector)
    ensures
        c == connector_spec(start, end),
        start.0 > end.0 ==> c == Connector::Skip,
        start.0 < end.0 && start.1 != end.1 ==> c == Connector::Curve(Curve { start, end }),
{
    if start.0 > end.0 {
        return Connector::Skip;
    }
    if start.1 == end.1 || start.0 == end.0 {
        return Connector::Line { start, end };
    }
    Connector::Curve(Curve { start, end })
}

} // verus!
