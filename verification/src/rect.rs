//! The moving footprint: an axis-aligned rectangle on the pixel grid.

use vstd::prelude::*;

verus! {

/// The value in `-128..128` that differs from `v` by a multiple of 256.
pub open spec fn wrap_i8(v: int) -> int {
    (v + 128) % 256 - 128
}

/// A footprint as a mathematical value: a signed origin and an unsigned size.
/// The right and bottom edges are derived, never stored.
pub struct Footprint {
    pub x: int,
    pub y: int,
    pub w: nat,
    pub h: nat,
}

impl Footprint {
    /// The first column beyond the footprint.
    pub open spec fn right(self) -> int {
        self.x + self.w
    }

    /// The first row beyond the footprint.
    pub open spec fn bottom(self) -> int {
        self.y + self.h
    }

    /// All four edges are `i32` values.
    pub open spec fn representable(self) -> bool {
        &&& i32::MIN <= self.x
        &&& i32::MIN <= self.y
        &&& self.right() <= i32::MAX
        &&& self.bottom() <= i32::MAX
    }

    /// The footprint moved by `(dx, dy)`.
    pub open spec fn shifted(self, dx: int, dy: int) -> Footprint {
        Footprint { x: self.x + dx, y: self.y + dy, w: self.w, h: self.h }
    }

    /// The footprint moved by `(dx, dy)` still has `i32` edges.
    pub open spec fn can_move(self, dx: int, dy: int) -> bool {
        self.shifted(dx, dy).representable()
    }

    /// Every footprint that resolving the move `(mx, my)` may have to form
    /// has `i32` edges: the moved one, the two moved along one axis only and,
    /// for a move along one axis, the two that lie a shuffle to either side
    /// of this one.
    pub open spec fn can_attempt(self, mx: int, my: int) -> bool {
        &&& self.can_move(mx, my)
        &&& self.can_move(mx, 0)
        &&& self.can_move(0, my)
        &&& mx == 0 ==> self.can_move(-2, 0) && self.can_move(2, 0)
        &&& mx != 0 && my == 0 ==> self.can_move(0, -2) && self.can_move(0, 2)
    }
}

/// A footprint with `i32` edges. The far corner is kept beside the origin
/// and the size, and always agrees with them.
#[derive(Debug, Clone, Copy)]
pub struct Rect {
    left: i32,
    top: i32,
    right: i32,
    bottom: i32,
    width: u32,
    height: u32,
}

impl View for Rect {
    type V = Footprint;

    closed spec fn view(&self) -> Footprint {
        Footprint {
            x: self.left as int,
            y: self.top as int,
            w: self.width as nat,
            h: self.height as nat,
        }
    }
}

impl Rect {
    #[verifier::type_invariant]
    spec fn edges_agree(self) -> bool {
        &&& self.right == self.left + self.width
        &&& self.bottom == self.top + self.height
    }

    /// The footprint of the given size with its top left corner at `(x, y)`.
    /// Its far corner has to be in range.
    pub fn new(x: i32, y: i32, width: u32, height: u32) -> (r: Rect)
        requires
            x + width <= i32::MAX,
            y + height <= i32::MAX,
        ensures
            r@ == (Footprint { x: x as int, y: y as int, w: width as nat, h: height as nat }),
    {
        let right: i64 = x as i64 + width as i64;
        let bottom: i64 = y as i64 + height as i64;
        Rect { left: x, top: y, right: right as i32, bottom: bottom as i32, width, height }
    }

    /// The corner with the least coordinates.
    pub fn top_left(&self) -> (p: (i32, i32))
        ensures
            p.0 == self@.x,
            p.1 == self@.y,
    {
        (self.left, self.top)
    }

    /// The corner opposite the origin: the first column and row beyond the
    /// footprint.
    pub fn bottom_right(&self) -> (p: (i32, i32))
        ensures
            p.0 == self@.right(),
            p.1 == self@.bottom(),
    {
        proof {
            use_type_invariant(self);
        }
        (self.right, self.bottom)
    }

    /// Decides `can_move`.
    pub fn can_move(&self, mx: i8, my: i8) -> (r: bool)
        ensures
            r == self@.can_move(mx as int, my as int),
    {
        proof {
            use_type_invariant(self);
        }
        let lo: i64 = i32::MIN as i64;
        let hi: i64 = i32::MAX as i64;
        lo <= self.left as i64 + mx as i64 && self.right as i64 + mx as i64 <= hi && lo
            <= self.top as i64 + my as i64 && self.bottom as i64 + my as i64 <= hi
    }

    /// Decides `can_attempt`.
    pub fn can_attempt(&self, mx: i8, my: i8) -> (r: bool)
        ensures
            r == self@.can_attempt(mx as int, my as int),
    {
        // a footprint that can make the whole move can make each part of it
        proof {
            use_type_invariant(self);
        }
        self.can_move(mx, my) && (mx != 0 || (self.can_move(-2, 0) && self.can_move(2, 0))) && (mx
            == 0 || my != 0 || (self.can_move(0, -2) && self.can_move(0, 2)))
    }

    /// The footprint moved by `(mx, my)`, with both corners computed anew.
    /// The moved footprint has to be in range.
    pub fn move_rect(&self, mx: i8, my: i8) -> (r: Rect)
        requires
            self@.can_move(mx as int, my as int),
        ensures
            r@ == self@.shifted(mx as int, my as int),
    {
        proof {
            use_type_invariant(self);
        }
        let top: i32 = self.top + my as i32;
        let left: i32 = self.left + mx as i32;
        Rect {
            left,
            top,
            right: (left as i64 + self.width as i64) as i32,
            bottom: (top as i64 + self.height as i64) as i32,
            width: self.width,
            height: self.height,
        }
    }

    /// How far `other_rect`'s origin lies from this one's, per axis, kept to
    /// eight bits: a distance outside `-128..128` wraps around.
    pub fn top_left_delta(&self, other_rect: &Rect) -> (d: (i8, i8))
        ensures
            d.0 == wrap_i8(other_rect@.x - self@.x),
            d.1 == wrap_i8(other_rect@.y - self@.y),
    {
        let (left, top) = other_rect.top_left();
        (narrow(left as i64 - self.left as i64), narrow(top as i64 - self.top as i64))
    }
}

/// Keeps the low eight bits of a difference of two `i32` values.
fn narrow(v: i64) -> (r: i8)
    requires
        -0x1_0000_0000 < v < 0x1_0000_0000,
    ensures
        r == wrap_i8(v as int),
{
    let shifted: i64 = (v + 0x1_0000_0080) % 256;
    (shifted - 128) as i8
}

/// Wrapping leaves a distance of eight bits as it is, and changes any other
/// by a multiple of 256 to one of eight bits.
pub proof fn lemma_wrap_i8(v: int)
    ensures
        -128 <= wrap_i8(v) < 128,
        (v - wrap_i8(v)) % 256 == 0,
        -128 <= v < 128 ==> wrap_i8(v) == v,
{
}

/// The distance between a footprint and the same footprint moved is the
/// move.
pub proof fn lemma_delta_of_move(r: Footprint, mx: i8, my: i8)
    ensures
        wrap_i8(r.shifted(mx as int, my as int).x - r.x) == mx,
        wrap_i8(r.shifted(mx as int, my as int).y - r.y) == my,
{
}

} // verus!
