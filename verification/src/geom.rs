use vstd::prelude::*;

verus! {

/// A 2D point or vector in UI coordinates (top-left origin, y growing
/// downwards), with integer components.
///
/// Panel positions, cursor positions and drag offsets are all values of this
/// type. All arithmetic on it is checked: an operation whose mathematical
/// result does not fit in `i64` reports `None` instead of wrapping, and the
/// caller skips its update for the frame.
#[derive(Clone, Copy, Debug, PartialEq, Eq, Structural)]
pub struct Vec2i {
    pub x: i64,
    pub y: i64,
}

/// The componentwise sum of `a` and `b` fits in `i64`.
pub open spec fn add_fits(a: Vec2i, b: Vec2i) -> bool {
    &&& i64::MIN <= a.x + b.x <= i64::MAX
    &&& i64::MIN <= a.y + b.y <= i64::MAX
}

/// The componentwise difference `a - b` fits in `i64`.
pub open spec fn sub_fits(a: Vec2i, b: Vec2i) -> bool {
    &&& i64::MIN <= a.x - b.x <= i64::MAX
    &&& i64::MIN <= a.y - b.y <= i64::MAX
}

impl Vec2i {
    pub fn new(x: i64, y: i64) -> (r: Vec2i)
        ensures
            r == (Vec2i { x, y }),
    {
        Vec2i { x, y }
    }

    /// Componentwise checked addition: `Some` exactly when both component
    /// sums fit in `i64`, and then the result is the exact sum.
    pub fn checked_add(self, other: Vec2i) -> (r: Option<Vec2i>)
        ensures
            r is Some <==> add_fits(self, other),
            r is Some ==> r->Some_0.x == self.x + other.x && r->Some_0.y == self.y + other.y,
    {
        match (self.x.checked_add(other.x), self.y.checked_add(other.y)) {
            (Some(x), Some(y)) => Some(Vec2i { x, y }),
            _ => None,
        }
    }

    /// Componentwise checked subtraction: `Some` exactly when both component
    /// differences fit in `i64`, and then the result is the exact difference.
    pub fn checked_sub(self, other: Vec2i) -> (r: Option<Vec2i>)
        ensures
            r is Some <==> sub_fits(self, other),
            r is Some ==> r->Some_0.x == self.x - other.x && r->Some_0.y == self.y - other.y,
    {
        match (self.x.checked_sub(other.x), self.y.checked_sub(other.y)) {
            (Some(x), Some(y)) => Some(Vec2i { x, y }),
            _ => None,
        }
    }
}

/// Converts a cursor position reported in window coordinates (bottom-left
/// origin, y growing upwards) to UI coordinates (top-left origin, y growing
/// downwards) by flipping the vertical axis against the window height.
///
/// `None` exactly when the flipped y component does not fit in `i64`.
pub fn flip_cursor_y(cursor: Vec2i, window_height: i64) -> (r: Option<Vec2i>)
    ensures
        r is Some <==> i64::MIN <= window_height - cursor.y <= i64::MAX,
        r is Some ==> r->Some_0.x == cursor.x && r->Some_0.y == window_height - cursor.y,
{
    match window_height.checked_sub(cursor.y) {
        Some(y) => Some(Vec2i { x: cursor.x, y }),
        None => None,
    }
}

} // verus!
