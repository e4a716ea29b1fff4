use vstd::prelude::*;

verus! {

/// An axis-aligned rectangle in pixel coordinates (top-left origin).
/// The right and bottom edges are the last pixel column and row inside it.
#[derive(Clone, Copy, Debug, PartialEq, Eq, Structural)]
pub struct Rect {
    pub left: i32,
    pub top: i32,
    pub width: u32,
    pub height: u32,
}

impl Rect {
    /// A rectangle is well formed when it is not empty and its last column and
    /// row are representable.
    pub open spec fn wf(self) -> bool {
        &&& self.width > 0
        &&& self.height > 0
        &&& self.left + self.width - 1 <= i32::MAX
        &&& self.top + self.height - 1 <= i32::MAX
    }

    pub open spec fn right_spec(self) -> int {
        self.left + self.width - 1
    }

    pub open spec fn bottom_spec(self) -> int {
        self.top + self.height - 1
    }

    /// The rectangle whose top-left pixel is `(x, y)`, of the given size.
    pub fn at_size(x: i32, y: i32, width: u32, height: u32) -> (r: Rect)
        requires
            width > 0,
            height > 0,
            x + width - 1 <= i32::MAX,
            y + height - 1 <= i32::MAX,
        ensures
            r.wf(),
            r == (Rect { left: x, top: y, width, height }),
    {
        Rect { left: x, top: y, width, height }
    }

    pub fn left(&self) -> (r: i32)
        ensures
            r == self.left,
    {
        self.left
    }

    pub fn top(&self) -> (r: i32)
        ensures
            r == self.top,
    {
        self.top
    }

    pub fn right(&self) -> (r: i32)
        requires
            self.wf(),
        ensures
            r == self.right_spec(),
    {
        (self.left as i64 + self.width as i64 - 1) as i32
    }

    pub fn bottom(&self) -> (r: i32)
        requires
            self.wf(),
        ensures
            r == self.bottom_spec(),
    {
        (self.top as i64 + self.height as i64 - 1) as i32
    }
}

} // verus!
