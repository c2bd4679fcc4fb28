//! Integer geometry primitives: points, sizes, rectangles, lines and the
//! point generators built on them.

use vstd::arithmetic::div_mod::{lemma_fundamental_div_mod_converse, lemma_small_mod};
use vstd::arithmetic::power2::{
    is_pow2_equiv, lemma2_to64, lemma2_to64_rest, lemma_pow2, lemma_pow2_adds, lemma_pow2_pos,
    lemma_pow2_strictly_increases, lemma_pow2_unfold, pow2,
};
use vstd::arithmetic::power::pow;
use vstd::arithmetic::power2::is_pow2;
use vstd::bits::{low_bits_mask, lemma_u32_low_bits_mask_is_mod};
use vstd::prelude::*;

verus! {

/// Sign of an integer: -1, 0 or 1.
pub open spec fn sgn(v: int) -> int {
    if v > 0 {
        1
    } else if v < 0 {
        -1
    } else {
        0
    }
}

/// Absolute value.
pub open spec fn abs_i(v: int) -> int {
    if v < 0 {
        -v
    } else {
        v
    }
}

/// Maximum of two integers.
pub open spec fn max_i(a: int, b: int) -> int {
    if a >= b {
        a
    } else {
        b
    }
}

/// Minimum of two integers.
pub open spec fn min_i(a: int, b: int) -> int {
    if a <= b {
        a
    } else {
        b
    }
}

/// Rust's truncating division, for any nonzero divisor.
pub open spec fn rust_div(a: int, b: int) -> int
    recommends
        b != 0,
{
    if (a < 0) == (b < 0) {
        abs_i(a) / abs_i(b)
    } else {
        -(abs_i(a) / abs_i(b))
    }
}

/// A value clamped into the inclusive range `lo..=hi`.
pub open spec fn clamp_i(v: int, lo: int, hi: int) -> int {
    if v < lo {
        lo
    } else if v > hi {
        hi
    } else {
        v
    }
}

/// Every `u32` power of two is `pow2(k)` for an exponent below 32.
pub proof fn lemma_u32_pow2_exponent(w: u32)
    requires
        is_pow2(w as int),
    ensures
        exists|k: nat| k < 32 && w == pow2(k),
{
    is_pow2_equiv(w as int);
    let i = choose|i: nat| pow(2, i) == w as int;
    lemma_pow2(i);
    if i >= 32 {
        lemma2_to64();
        lemma2_to64_rest();
        if i > 32 {
            lemma_pow2_strictly_increases(32, i);
        }
        assert(false);
    }
    assert(w == pow2(i));
}

/// A point on the integer plane.
#[derive(PartialEq, Eq, Clone, Copy, Debug, Hash, Structural)]
pub struct Point {
    pub x: i32,
    pub y: i32,
}

impl Point {
    pub fn new(x: i32, y: i32) -> (r: Self)
        ensures
            r.x == x,
            r.y == y,
    {
        Self { x, y }
    }

    /// The origin.
    pub fn zero() -> (r: Self)
        ensures
            r.x == 0,
            r.y == 0,
    {
        Self { x: 0, y: 0 }
    }

    pub fn diag(v: i32) -> (r: Self)
        ensures
            r.x == v,
            r.y == v,
    {
        Self::new(v, v)
    }

    pub fn signum(self) -> (r: Self)
        ensures
            r.x == sgn(self.x as int),
            r.y == sgn(self.y as int),
    {
        Self::new(
            if self.x > 0 {
                1
            } else if self.x < 0 {
                -1
            } else {
                0
            },
            if self.y > 0 {
                1
            } else if self.y < 0 {
                -1
            } else {
                0
            },
        )
    }

    pub fn abs(self) -> (r: Self)
        requires
            self.x != i32::MIN,
            self.y != i32::MIN,
        ensures
            r.x == abs_i(self.x as int),
            r.y == abs_i(self.y as int),
    {
        Self::new(
            if self.x < 0 {
                -self.x
            } else {
                self.x
            },
            if self.y < 0 {
                -self.y
            } else {
                self.y
            },
        )
    }

    pub fn dot(self, other: Point) -> (r: i32)
        requires
            i32::MIN <= self.x * other.x <= i32::MAX,
            i32::MIN <= self.y * other.y <= i32::MAX,
            i32::MIN <= self.x * other.x + self.y * other.y <= i32::MAX,
        ensures
            r == self.x * other.x + self.y * other.y,
    {
        self.x * other.x + self.y * other.y
    }

    pub fn max_norm(self) -> (r: i32)
        requires
            self.x != i32::MIN,
            self.y != i32::MIN,
        ensures
            r == max_i(abs_i(self.x as int), abs_i(self.y as int)),
    {
        let ax = if self.x < 0 {
            -self.x
        } else {
            self.x
        };
        let ay = if self.y < 0 {
            -self.y
        } else {
            self.y
        };
        if ax >= ay {
            ax
        } else {
            ay
        }
    }

    pub fn transform(self, matrix: &[i32; 4]) -> (r: Self)
        requires
            i32::MIN <= matrix[0] * self.x <= i32::MAX,
            i32::MIN <= matrix[1] * self.y <= i32::MAX,
            i32::MIN <= matrix[2] * self.x <= i32::MAX,
            i32::MIN <= matrix[3] * self.y <= i32::MAX,
            i32::MIN <= matrix[0] * self.x + matrix[1] * self.y <= i32::MAX,
            i32::MIN <= matrix[2] * self.x + matrix[3] * self.y <= i32::MAX,
        ensures
            r.x == matrix[0] * self.x + matrix[1] * self.y,
            r.y == matrix[2] * self.x + matrix[3] * self.y,
    {
        Point::new(matrix[0] * self.x + matrix[1] * self.y, matrix[2] * self.x + matrix[3] * self.y)
    }

    /// A quarter turn: (x, y) becomes (y, -x).
    pub fn rotate90(self) -> (r: Self)
        requires
            self.x != i32::MIN,
        ensures
            r.x == self.y,
            r.y == -(self.x as int),
    {
        Self::new(self.y, -self.x)
    }

    pub fn rotate180(self) -> (r: Self)
        requires
            self.x != i32::MIN,
            self.y != i32::MIN,
        ensures
            r.x == -(self.x as int),
            r.y == -(self.y as int),
    {
        Self::new(-self.x, -self.y)
    }

    pub fn rotate270(self) -> (r: Self)
        requires
            self.y != i32::MIN,
        ensures
            r.x == -(self.y as int),
            r.y == self.x,
    {
        Self::new(-self.y, self.x)
    }

    pub fn cross(self, other: Point) -> (r: i32)
        requires
            i32::MIN <= self.x * other.y <= i32::MAX,
            i32::MIN <= self.y * other.x <= i32::MAX,
            i32::MIN <= self.x * other.y - self.y * other.x <= i32::MAX,
        ensures
            r == self.x * other.y - self.y * other.x,
    {
        self.x * other.y - self.y * other.x
    }

    pub fn clamp(self, rect: &Rect) -> (r: Self)
        ensures
            r.x == clamp_i(self.x as int, rect.left() as int, rect.right() as int),
            r.y == clamp_i(self.y as int, rect.top() as int, rect.bottom() as int),
    {
        let x = if self.x < rect.left() {
            rect.left()
        } else if self.x > rect.right() {
            rect.right()
        } else {
            self.x
        };
        let y = if self.y < rect.top() {
            rect.top()
        } else if self.y > rect.bottom() {
            rect.bottom()
        } else {
            self.y
        };
        Self::new(x, y)
    }

    pub fn line_to(self, end: Point) -> (r: Line)
        ensures
            r.start == self,
            r.end == end,
    {
        Line::new(self, end)
    }

    pub fn ray_with_dir(self, direction: Point) -> (r: Ray)
        ensures
            r.start == self,
            r.direction == direction,
    {
        Ray::new(self, direction)
    }

    /// `x * y_component / x_component`, rounded toward zero.  Only the one
    /// quotient the machine cannot represent is excluded.
    pub fn tangent_mul(self, x: i32) -> (r: i32)
        requires
            self.x != 0,
            i32::MIN <= x * self.y <= i32::MAX,
            !(x * self.y == i32::MIN && self.x == -1),
        ensures
            r == rust_div(x * self.y, self.x as int),
    {
        let p: i32 = x * self.y;
        div_trunc_i32(p, self.x)
    }

    /// `y * x_component / y_component`, rounded toward zero.  Only the one
    /// quotient the machine cannot represent is excluded.
    pub fn cotangent_mul(self, y: i32) -> (r: i32)
        requires
            self.y != 0,
            i32::MIN <= y * self.x <= i32::MAX,
            !(y * self.x == i32::MIN && self.y == -1),
        ensures
            r == rust_div(y * self.x, self.y as int),
    {
        let p: i32 = y * self.x;
        div_trunc_i32(p, self.y)
    }
}

/// Rust's truncating division on `i32`, computed over magnitudes.  Only the
/// one overflowing quotient, the minimum divided by minus one, is excluded.
fn div_trunc_i32(a: i32, b: i32) -> (r: i32)
    requires
        b != 0,
        !(a == i32::MIN && b == -1),
    ensures
        r == rust_div(a as int, b as int),
{
    let ma: u32 = if a == i32::MIN {
        0x8000_0000u32
    } else if a < 0 {
        (-a) as u32
    } else {
        a as u32
    };
    let mb: u32 = if b == i32::MIN {
        0x8000_0000u32
    } else if b < 0 {
        (-b) as u32
    } else {
        b as u32
    };
    let q: u32 = ma / mb;
    if (a < 0) == (b < 0) {
        proof {
            assert(q <= abs_i(a as int));
            if a == i32::MIN {
                assert(b < 0 && b != -1);
                assert(mb >= 2);
                assert(q <= 0x4000_0000) by {
                    vstd::arithmetic::div_mod::lemma_div_is_ordered_by_denominator(
                        0x8000_0000int,
                        2,
                        mb as int,
                    );
                }
            }
        }
        q as i32
    } else {
        proof {
            assert(q <= 0x8000_0000) by {
                assert(q <= ma) by {
                    vstd::arithmetic::div_mod::lemma_div_is_ordered_by_denominator(
                        ma as int,
                        1,
                        mb as int,
                    );
                    vstd::arithmetic::div_mod::lemma_div_basics(ma as int);
                }
            }
        }
        (-(q as i64)) as i32
    }
}

/// A line segment between two points.
#[derive(PartialEq, Eq, Clone, Copy, Debug, Structural)]
pub struct Line {
    pub start: Point,
    pub end: Point,
}

impl Line {
    pub fn new(start: Point, end: Point) -> (r: Self)
        ensures
            r.start == start,
            r.end == end,
    {
        Self { start, end }
    }

    pub fn zero() -> (r: Self)
        ensures
            r.start.x == 0 && r.start.y == 0 && r.end.x == 0 && r.end.y == 0,
    {
        Self::new(Point::zero(), Point::zero())
    }

    /// The midpoint of the segment, each coordinate rounded toward zero.
    pub fn center(&self) -> (r: Point)
        ensures
            r.x == rust_div(self.start.x + self.end.x, 2),
            r.y == rust_div(self.start.y + self.end.y, 2),
    {
        let sx: i64 = self.start.x as i64 + self.end.x as i64;
        let sy: i64 = self.start.y as i64 + self.end.y as i64;
        let cx: i64 = if sx >= 0 {
            ((sx as u64) / 2) as i64
        } else {
            -((((-sx) as u64) / 2) as i64)
        };
        let cy: i64 = if sy >= 0 {
            ((sy as u64) / 2) as i64
        } else {
            -((((-sy) as u64) / 2) as i64)
        };
        Point::new(cx as i32, cy as i32)
    }

    pub fn scaled_direction(&self) -> (r: Point)
        requires
            i32::MIN <= self.end.x - self.start.x <= i32::MAX,
            i32::MIN <= self.end.y - self.start.y <= i32::MAX,
        ensures
            r.x == self.end.x - self.start.x,
            r.y == self.end.y - self.start.y,
    {
        Point::new(self.end.x - self.start.x, self.end.y - self.start.y)
    }

    pub fn scaled_normal(&self) -> (r: Point)
        requires
            i32::MIN < self.end.x - self.start.x <= i32::MAX,
            i32::MIN <= self.end.y - self.start.y <= i32::MAX,
        ensures
            r.x == self.end.y - self.start.y,
            r.y == -(self.end.x - self.start.x),
    {
        self.scaled_direction().rotate90()
    }

    pub fn to_ray(&self) -> (r: Ray)
        requires
            i32::MIN <= self.end.x - self.start.x <= i32::MAX,
            i32::MIN <= self.end.y - self.start.y <= i32::MAX,
        ensures
            r.start == self.start,
            r.direction.x == self.end.x - self.start.x,
            r.direction.y == self.end.y - self.start.y,
    {
        Ray::new(self.start, self.scaled_direction())
    }
}

/// A ray: a start point and a direction.
#[derive(PartialEq, Eq, Clone, Copy, Debug, Structural)]
pub struct Ray {
    pub start: Point,
    pub direction: Point,
}

impl Ray {
    pub fn new(start: Point, direction: Point) -> (r: Ray)
        ensures
            r.start == start,
            r.direction == direction,
    {
        Self { start, direction }
    }

    /// `x * direction_y / direction_x`, rounded toward zero.
    pub fn tangent_mul(&self, x: i32) -> (r: i32)
        requires
            self.direction.x != 0,
            i32::MIN <= x * self.direction.y <= i32::MAX,
            !(x * self.direction.y == i32::MIN && self.direction.x == -1),
        ensures
            r == rust_div(x * self.direction.y, self.direction.x as int),
    {
        self.direction.tangent_mul(x)
    }

    /// `y * direction_x / direction_y`, rounded toward zero.
    pub fn cotangent_mul(&self, y: i32) -> (r: i32)
        requires
            self.direction.y != 0,
            i32::MIN <= y * self.direction.x <= i32::MAX,
            !(y * self.direction.x == i32::MIN && self.direction.y == -1),
        ensures
            r == rust_div(y * self.direction.x, self.direction.y as int),
    {
        self.direction.cotangent_mul(y)
    }

    /// The side of the ray the point lies on: the sign of the cross product
    /// of the point's offset with the direction.
    pub fn orientation(&self, point: Point) -> (r: i32)
        requires
            i32::MIN <= point.x - self.start.x <= i32::MAX,
            i32::MIN <= point.y - self.start.y <= i32::MAX,
            i32::MIN <= (point.x - self.start.x) * self.direction.y <= i32::MAX,
            i32::MIN <= (point.y - self.start.y) * self.direction.x <= i32::MAX,
            i32::MIN <= (point.x - self.start.x) * self.direction.y - (point.y - self.start.y)
                * self.direction.x <= i32::MAX,
        ensures
            r == sgn(
                (point.x - self.start.x) * self.direction.y - (point.y - self.start.y)
                    * self.direction.x,
            ),
    {
        let diff = Point::new(point.x - self.start.x, point.y - self.start.y);
        let c = diff.cross(self.direction);
        if c > 0 {
            1
        } else if c < 0 {
            -1
        } else {
            0
        }
    }
}

/// A width and height.
#[derive(PartialEq, Eq, Clone, Copy, Debug, Structural)]
pub struct Size {
    pub width: u32,
    pub height: u32,
}

impl Size {
    pub fn new(width: u32, height: u32) -> (r: Self)
        ensures
            r.width == width,
            r.height == height,
    {
        Self { width, height }
    }

    pub fn square(size: u32) -> (r: Self)
        ensures
            r.width == size,
            r.height == size,
    {
        Self { width: size, height: size }
    }

    pub fn area(&self) -> (r: u32)
        requires
            self.width * self.height <= u32::MAX,
        ensures
            r == self.width * self.height,
    {
        self.width * self.height
    }

    pub fn linear_index(&self, x: u32, y: u32) -> (r: u32)
        requires
            y * self.width + x <= u32::MAX,
        ensures
            r == y * self.width + x,
    {
        y * self.width + x
    }

    pub fn is_power_of_two(&self) -> (r: bool)
        ensures
            r == (is_pow2(self.width as int) && is_pow2(self.height as int)),
    {
        u32_is_pow2(self.width) && u32_is_pow2(self.height)
    }

    /// This size as a power-of-two size, if it is one.
    pub fn as_power_of_two(&self) -> (r: Option<PotSize>)
        ensures
            r is Some <==> (is_pow2(self.width as int) && is_pow2(self.height as int)),
            r matches Some(p) ==> p.wf() && p.width() == self.width && p.height() == self.height,
    {
        PotSize::new(self.width, self.height)
    }

    /// The smallest power-of-two size that contains this one.
    pub fn next_power_of_two(&self) -> (r: PotSize)
        requires
            self.width <= 0x8000_0000,
            self.height <= 0x8000_0000,
        ensures
            r.wf(),
            r.width() >= self.width,
            r.height() >= self.height,
            r.width() == 1 || r.width() / 2 < self.width,
            r.height() == 1 || r.height() / 2 < self.height,
    {
        PotSize::new_impl(u32_next_pow2(self.width), u32_next_pow2(self.height))
    }

    pub fn transpose(&self) -> (r: Self)
        ensures
            r.width == self.height,
            r.height == self.width,
    {
        Self::new(self.height, self.width)
    }

    pub fn to_square(&self) -> (r: Self)
        ensures
            r.width == max_i(self.width as int, self.height as int),
            r.height == r.width,
    {
        Size::square(
            if self.width >= self.height {
                self.width
            } else {
                self.height
            },
        )
    }

    pub fn is_square(&self) -> (r: bool)
        ensures
            r == (self.width == self.height),
    {
        self.width == self.height
    }

    pub fn contains(&self, other: Self) -> (r: bool)
        ensures
            r == (self.width >= other.width && self.height >= other.height),
    {
        self.width >= other.width && self.height >= other.height
    }

    pub fn join(&self, other: Self) -> (r: Self)
        ensures
            r.width == max_i(self.width as int, other.width as int),
            r.height == max_i(self.height as int, other.height as int),
    {
        Self::new(
            if self.width >= other.width {
                self.width
            } else {
                other.width
            },
            if self.height >= other.height {
                self.height
            } else {
                other.height
            },
        )
    }
}

/// An axis-aligned rectangle, stored by its two corners, both inclusive.
/// A rectangle is well formed when each corner pair is ordered (an empty
/// rectangle, one unit of overshoot, is allowed) and its extent fits in `u32`.
#[derive(PartialEq, Eq, Clone, Copy, Debug, Structural)]
pub struct Rect {
    top_left: Point,
    bottom_right: Point,
}

impl Rect {
    /// The well-formedness every `Rect` constructor establishes.
    pub open spec fn wf(self) -> bool {
        &&& self.left() <= self.right() + 1
        &&& self.top() <= self.bottom() + 1
        &&& self.right() - self.left() < u32::MAX
        &&& self.bottom() - self.top() < u32::MAX
    }

    pub closed spec fn spec_left(&self) -> i32 {
        self.top_left.x
    }

    pub closed spec fn spec_top(&self) -> i32 {
        self.top_left.y
    }

    pub closed spec fn spec_right(&self) -> i32 {
        self.bottom_right.x
    }

    pub closed spec fn spec_bottom(&self) -> i32 {
        self.bottom_right.y
    }

    pub open spec fn spec_width(&self) -> int {
        self.right() - self.left() + 1
    }

    pub open spec fn spec_height(&self) -> int {
        self.bottom() - self.top() + 1
    }

    pub fn empty() -> (r: Self)
        ensures
            r.wf(),
            r.left() == 0 && r.top() == 0 && r.right() == -1 && r.bottom() == -1,
    {
        Self { top_left: Point::zero(), bottom_right: Point::diag(-1) }
    }

    pub fn new(top_left: Point, bottom_right: Point) -> (r: Self)
        requires
            top_left.x <= bottom_right.x + 1,
            top_left.y <= bottom_right.y + 1,
            bottom_right.x - top_left.x < u32::MAX,
            bottom_right.y - top_left.y < u32::MAX,
        ensures
            r.wf(),
            r.left() == top_left.x,
            r.top() == top_left.y,
            r.right() == bottom_right.x,
            r.bottom() == bottom_right.y,
    {
        Self { top_left, bottom_right }
    }

    pub fn from_box(left: i32, right: i32, top: i32, bottom: i32) -> (r: Self)
        requires
            left <= right + 1,
            top <= bottom + 1,
            right - left < u32::MAX,
            bottom - top < u32::MAX,
        ensures
            r.wf(),
            r.left() == left,
            r.top() == top,
            r.right() == right,
            r.bottom() == bottom,
    {
        Self::new(Point::new(left, top), Point::new(right, bottom))
    }

    pub fn from_size(top_left: Point, size: Size) -> (r: Self)
        requires
            size.width < u32::MAX,
            size.height < u32::MAX,
            i32::MIN <= top_left.x + size.width - 1 <= i32::MAX,
            i32::MIN <= top_left.y + size.height - 1 <= i32::MAX,
        ensures
            r.wf(),
            r.left() == top_left.x,
            r.top() == top_left.y,
            r.right() == top_left.x + size.width - 1,
            r.bottom() == top_left.y + size.height - 1,
    {
        let right: i32 = ((top_left.x as i64) + (size.width as i64) - 1) as i32;
        let bottom: i32 = ((top_left.y as i64) + (size.height as i64) - 1) as i32;
        Self::new(top_left, Point::new(right, bottom))
    }

    pub fn from_size_coords(x: i32, y: i32, width: u32, height: u32) -> (r: Self)
        requires
            width < u32::MAX,
            height < u32::MAX,
            i32::MIN <= x + width - 1 <= i32::MAX,
            i32::MIN <= y + height - 1 <= i32::MAX,
        ensures
            r.wf(),
            r.left() == x,
            r.top() == y,
            r.right() == x + width - 1,
            r.bottom() == y + height - 1,
    {
        Self::from_size(Point::new(x, y), Size::new(width, height))
    }

    pub fn at_origin(size: Size) -> (r: Self)
        requires
            size.width < u32::MAX,
            size.height < u32::MAX,
            size.width - 1 <= i32::MAX,
            size.height - 1 <= i32::MAX,
        ensures
            r.wf(),
            r.left() == 0,
            r.top() == 0,
            r.right() == size.width - 1,
            r.bottom() == size.height - 1,
    {
        Self::from_size(Point::zero(), size)
    }

    #[verifier::when_used_as_spec(spec_left)]
    pub fn left(&self) -> (r: i32)
        ensures
            r == self.spec_left(),
    {
        self.top_left.x
    }

    #[verifier::when_used_as_spec(spec_top)]
    pub fn top(&self) -> (r: i32)
        ensures
            r == self.spec_top(),
    {
        self.top_left.y
    }

    #[verifier::when_used_as_spec(spec_right)]
    pub fn right(&self) -> (r: i32)
        ensures
            r == self.spec_right(),
    {
        self.bottom_right.x
    }

    #[verifier::when_used_as_spec(spec_bottom)]
    pub fn bottom(&self) -> (r: i32)
        ensures
            r == self.spec_bottom(),
    {
        self.bottom_right.y
    }

    pub fn top_left(&self) -> (r: Point)
        ensures
            r.x == self.left(),
            r.y == self.top(),
    {
        self.top_left
    }

    pub fn bottom_right(&self) -> (r: Point)
        ensures
            r.x == self.right(),
            r.y == self.bottom(),
    {
        self.bottom_right
    }

    pub fn width(&self) -> (r: u32)
        requires
            self.wf(),
        ensures
            r == self.spec_width(),
    {
        ((self.right() as i64) - (self.left() as i64) + 1) as u32
    }

    pub fn height(&self) -> (r: u32)
        requires
            self.wf(),
        ensures
            r == self.spec_height(),
    {
        ((self.bottom() as i64) - (self.top() as i64) + 1) as u32
    }

    pub fn size(&self) -> (r: Size)
        requires
            self.wf(),
        ensures
            r.width == self.spec_width(),
            r.height == self.spec_height(),
    {
        Size::new(self.width(), self.height())
    }

    pub fn area(&self) -> (r: u32)
        requires
            self.wf(),
            self.spec_width() * self.spec_height() <= u32::MAX,
        ensures
            r == self.spec_width() * self.spec_height(),
    {
        self.size().area()
    }

    /// The midpoint of the two corners, each coordinate rounded toward zero.
    pub fn center(&self) -> (r: Point)
        ensures
            r.x == rust_div(self.left() + self.right(), 2),
            r.y == rust_div(self.top() + self.bottom(), 2),
    {
        let sx: i64 = self.left() as i64 + self.right() as i64;
        let sy: i64 = self.top() as i64 + self.bottom() as i64;
        let cx: i64 = if sx >= 0 {
            ((sx as u64) / 2) as i64
        } else {
            -((((-sx) as u64) / 2) as i64)
        };
        let cy: i64 = if sy >= 0 {
            ((sy as u64) / 2) as i64
        } else {
            -((((-sy) as u64) / 2) as i64)
        };
        Point::new(cx as i32, cy as i32)
    }

    /// The clamped margin offsets used by `with_margin`.
    pub open spec fn spec_margin_offset_x(&self, margin: i32) -> int {
        min_i(margin as int, self.spec_width() / 2)
    }

    pub open spec fn spec_margin_offset_y(&self, margin: i32) -> int {
        min_i(margin as int, self.spec_height() / 2)
    }

    /// Shrinks (or, for a negative margin, grows) the rectangle on every side,
    /// never past its own center.
    pub fn with_margin(&self, margin: i32) -> (r: Self)
        requires
            self.wf(),
            self.spec_width() / 2 <= i32::MAX,
            self.spec_height() / 2 <= i32::MAX,
            i32::MIN <= self.left() + self.spec_margin_offset_x(margin),
            self.right() - self.spec_margin_offset_x(margin) <= i32::MAX,
            i32::MIN <= self.top() + self.spec_margin_offset_y(margin),
            self.bottom() - self.spec_margin_offset_y(margin) <= i32::MAX,
            (self.right() - self.spec_margin_offset_x(margin)) - (self.left()
                + self.spec_margin_offset_x(margin)) < u32::MAX,
            (self.bottom() - self.spec_margin_offset_y(margin)) - (self.top()
                + self.spec_margin_offset_y(margin)) < u32::MAX,
        ensures
            r.wf(),
            r.left() == self.left() + self.spec_margin_offset_x(margin),
            r.right() == self.right() - self.spec_margin_offset_x(margin),
            r.top() == self.top() + self.spec_margin_offset_y(margin),
            r.bottom() == self.bottom() - self.spec_margin_offset_y(margin),
    {
        let half_w: i32 = (self.width() / 2) as i32;
        let half_h: i32 = (self.height() / 2) as i32;
        let ox: i32 = if margin <= half_w {
            margin
        } else {
            half_w
        };
        let oy: i32 = if margin <= half_h {
            margin
        } else {
            half_h
        };
        let tl = Point::new(self.left() + ox, self.top() + oy);
        let br = Point::new(self.right() - ox, self.bottom() - oy);
        Self::new(tl, br)
    }

    pub fn x_range(&self) -> (r: core::ops::RangeInclusive<i32>)
        ensures
            r@.start == self.left(),
            r@.end == self.right(),
            r@.exhausted == false,
    {
        self.left()..=self.right()
    }

    pub fn y_range(&self) -> (r: core::ops::RangeInclusive<i32>)
        ensures
            r@.start == self.top(),
            r@.end == self.bottom(),
            r@.exhausted == false,
    {
        self.top()..=self.bottom()
    }

    pub open spec fn spec_contains(&self, point: Point) -> bool {
        self.left() <= point.x <= self.right() && self.top() <= point.y <= self.bottom()
    }

    pub fn contains(&self, point: Point) -> (r: bool)
        ensures
            r == self.spec_contains(point),
    {
        self.left() <= point.x && point.x <= self.right() && self.top() <= point.y && point.y
            <= self.bottom()
    }

    pub open spec fn spec_contains_inside(&self, point: Point) -> bool {
        self.left() < point.x < self.right() && self.top() < point.y < self.bottom()
    }

    pub fn contains_inside(&self, point: Point) -> (r: bool)
        ensures
            r == self.spec_contains_inside(point),
    {
        point.x > self.left() && point.x < self.right() && point.y > self.top() && point.y
            < self.bottom()
    }

    pub fn contains_rect(&self, other: &Self) -> (r: bool)
        ensures
            r == (self.left() <= other.left() <= self.right() && self.left() <= other.right()
                <= self.right() && self.top() <= other.top() <= self.bottom() && self.top()
                <= other.bottom() <= self.bottom()),
    {
        self.contains(other.top_left()) && self.contains(other.bottom_right())
    }

    pub fn intersects(&self, other: &Rect) -> (r: bool)
        ensures
            r == (self.left() <= other.right() && self.right() >= other.left() && self.top()
                <= other.bottom() && self.bottom() >= other.top()),
    {
        self.left() <= other.right() && self.right() >= other.left() && self.top()
            <= other.bottom() && self.bottom() >= other.top()
    }

    /// The four quadrants that share the given interior point.
    pub fn split_at(&self, point: Point) -> (r: [Rect; 4])
        requires
            self.wf(),
            self.spec_contains_inside(point),
        ensures
            forall|i: int| 0 <= i < 4 ==> r[i].wf(),
            r[0].left() == self.left() && r[0].right() == point.x && r[0].top() == self.top()
                && r[0].bottom() == point.y,
            r[1].left() == point.x && r[1].right() == self.right() && r[1].top() == self.top()
                && r[1].bottom() == point.y,
            r[2].left() == point.x && r[2].right() == self.right() && r[2].top() == point.y
                && r[2].bottom() == self.bottom(),
            r[3].left() == self.left() && r[3].right() == point.x && r[3].top() == point.y
                && r[3].bottom() == self.bottom(),
    {
        [
            Self::from_box(self.left(), point.x, self.top(), point.y),
            Self::from_box(point.x, self.right(), self.top(), point.y),
            Self::from_box(point.x, self.right(), point.y, self.bottom()),
            Self::from_box(self.left(), point.x, point.y, self.bottom()),
        ]
    }

    /// Grows the rectangle by the four margins, one per side.
    pub fn with_margins(&self, left: i32, right: i32, top: i32, bottom: i32) -> (r: Self)
        requires
            i32::MIN <= self.left() - left <= i32::MAX,
            i32::MIN <= self.right() + right <= i32::MAX,
            i32::MIN <= self.top() - top <= i32::MAX,
            i32::MIN <= self.bottom() + bottom <= i32::MAX,
            self.left() - left <= self.right() + right + 1,
            self.top() - top <= self.bottom() + bottom + 1,
            (self.right() + right) - (self.left() - left) < u32::MAX,
            (self.bottom() + bottom) - (self.top() - top) < u32::MAX,
        ensures
            r.wf(),
            r.left() == self.left() - left,
            r.right() == self.right() + right,
            r.top() == self.top() - top,
            r.bottom() == self.bottom() + bottom,
    {
        Self::from_box(self.left() - left, self.right() + right, self.top() - top, self.bottom()
            + bottom)
    }

    /// The point inside the rectangle reached by wrapping `x` and `y` around
    /// its width and height.
    pub fn quotient(self, x: u32, y: u32) -> (r: Point)
        requires
            self.wf(),
            self.spec_width() > 0,
            self.spec_height() > 0,
        ensures
            r.x == self.left() + (x as int) % self.spec_width(),
            r.y == self.top() + (y as int) % self.spec_height(),
    {
        let mx: u32 = x % self.width();
        let my: u32 = y % self.height();
        let rx: i32 = ((self.left() as i64) + (mx as i64)) as i32;
        let ry: i32 = ((self.top() as i64) + (my as i64)) as i32;
        Point::new(rx, ry)
    }
}

/// Whether `x` is a power of two, decided by repeated halving.
fn u32_is_pow2(x: u32) -> (r: bool)
    ensures
        r == is_pow2(x as int),
{
    proof {
        reveal(is_pow2);
    }
    let mut m = x;
    while m > 1
        invariant
            is_pow2(x as int) == is_pow2(m as int),
        decreases m,
    {
        proof {
            reveal(is_pow2);
        }
        if m % 2 == 1 {
            return false;
        }
        m = m / 2;
    }
    proof {
        reveal(is_pow2);
    }
    m == 1
}

/// Two distinct powers of two are at least a factor of two apart.
proof fn lemma_pow2_spacing(a: int, b: int)
    requires
        is_pow2(a),
        is_pow2(b),
        a < b,
    ensures
        2 * a <= b,
    decreases b,
{
    reveal(is_pow2);
    if b > 1 {
        if a == b / 2 {
        } else if a < b / 2 {
            lemma_pow2_spacing(a, b / 2);
        } else {
            lemma_pow2_spacing(b / 2, a);
            assert(false);
        }
    }
}

/// The least power of two that is at least `x` (1 for `x == 0`).
fn u32_next_pow2(x: u32) -> (r: u32)
    requires
        x <= 0x8000_0000,
    ensures
        is_pow2(r as int),
        r >= x,
        r == 1 || r / 2 < x,
{
    proof {
        reveal(is_pow2);
    }
    let mut p: u32 = 1;
    while p < x
        invariant
            is_pow2(p as int),
            p >= 1,
            p == 1 || p / 2 < x,
            x <= 0x8000_0000,
            p <= 0x8000_0000,
        decreases 2 * x - p,
    {
        proof {
            reveal(is_pow2);
            assert(is_pow2(0x8000_0000int)) by {
                reveal_with_fuel(is_pow2, 33);
            }
            if (p as int) < 0x8000_0000int {
                lemma_pow2_spacing(p as int, 0x8000_0000int);
            }
            assert(is_pow2(2 * p as int)) by {
                assert(2 * p as int % 2 == 0);
                assert(2 * p as int / 2 == p as int);
            }
        }
        p = p * 2;
    }
    p
}

/// A size whose width and height are both powers of two.
#[derive(PartialEq, Eq, Clone, Copy, Debug, Structural)]
pub struct PotSize {
    size: Size,
}

impl PotSize {
    /// Both dimensions are powers of two; every constructor establishes this.
    pub open spec fn wf(self) -> bool {
        is_pow2(self.spec_width() as int) && is_pow2(self.spec_height() as int)
    }

    pub closed spec fn spec_width(&self) -> u32 {
        self.size.width
    }

    pub closed spec fn spec_height(&self) -> u32 {
        self.size.height
    }

    pub(crate) fn new_impl(width: u32, height: u32) -> (r: Self)
        requires
            is_pow2(width as int),
            is_pow2(height as int),
        ensures
            r.wf(),
            r.width() == width,
            r.height() == height,
    {
        Self { size: Size::new(width, height) }
    }

    pub fn new(width: u32, height: u32) -> (r: Option<Self>)
        ensures
            r is Some <==> (is_pow2(width as int) && is_pow2(height as int)),
            r matches Some(p) ==> p.wf() && p.width() == width && p.height() == height,
    {
        if u32_is_pow2(width) && u32_is_pow2(height) {
            Some(Self::new_impl(width, height))
        } else {
            None
        }
    }

    pub fn size(&self) -> (r: Size)
        ensures
            r.width == self.width(),
            r.height == self.height(),
    {
        self.size
    }

    #[verifier::when_used_as_spec(spec_width)]
    pub fn width(&self) -> (r: u32)
        ensures
            r == self.spec_width(),
    {
        self.size.width
    }

    #[verifier::when_used_as_spec(spec_height)]
    pub fn height(&self) -> (r: u32)
        ensures
            r == self.spec_height(),
    {
        self.size.height
    }

    pub fn square(size: u32) -> (r: Option<Self>)
        ensures
            r is Some <==> is_pow2(size as int),
            r matches Some(p) ==> p.wf() && p.width() == size && p.height() == size,
    {
        if u32_is_pow2(size) {
            Some(Self::new_impl(size, size))
        } else {
            None
        }
    }

    pub fn area(&self) -> (r: u32)
        requires
            self.width() * self.height() <= u32::MAX,
        ensures
            r == self.width() * self.height(),
    {
        self.size.area()
    }

    pub fn linear_index(&self, x: u32, y: u32) -> (r: u32)
        requires
            y * self.width() + x <= u32::MAX,
        ensures
            r == y * self.width() + x,
    {
        self.size.linear_index(x, y)
    }

    pub fn transpose(&self) -> (r: Self)
        requires
            self.wf(),
        ensures
            r.wf(),
            r.width() == self.height(),
            r.height() == self.width(),
    {
        Self::new_impl(self.height(), self.width())
    }

    pub fn to_square(&self) -> (r: Self)
        requires
            self.wf(),
        ensures
            r.wf(),
            r.width() == max_i(self.width() as int, self.height() as int),
            r.height() == r.width(),
    {
        let s = if self.width() >= self.height() {
            self.width()
        } else {
            self.height()
        };
        Self::new_impl(s, s)
    }

    pub fn to_mask(&self) -> (r: SizeMask)
        requires
            self.wf(),
        ensures
            r.wf(),
            r.spec_pot_width() == self.width(),
            r.spec_pot_height() == self.height(),
    {
        SizeMask::new(*self)
    }

    pub fn to_grid_index(&self) -> (r: GridIndex)
        requires
            self.wf(),
        ensures
            r.spec_width() == self.width(),
            r.spec_height() == self.height(),
            r.wf(),
    {
        GridIndex::new(*self)
    }

    pub fn contains(&self, other: Self) -> (r: bool)
        ensures
            r == (self.width() >= other.width() && self.height() >= other.height()),
    {
        self.size.contains(other.size)
    }

    pub fn join(&self, other: Self) -> (r: Self)
        requires
            self.wf(),
            other.wf(),
        ensures
            r.wf(),
            r.width() == max_i(self.width() as int, other.width() as int),
            r.height() == max_i(self.height() as int, other.height() as int),
    {
        Self::new_impl(
            if self.width() >= other.width() {
                self.width()
            } else {
                other.width()
            },
            if self.height() >= other.height() {
                self.height()
            } else {
                other.height()
            },
        )
    }
}

/// The complement-style mask of a power-of-two size: a coordinate is inside
/// the size exactly when masking it leaves zero.
#[derive(PartialEq, Eq, Clone, Copy, Debug)]
pub struct SizeMask {
    size: Size,
}

impl SizeMask {
    /// Each stored word is the complement of a low-bit mask, so each
    /// corresponds to a power-of-two dimension.
    pub closed spec fn wf(self) -> bool {
        &&& exists|k: nat| k < 32 && self.size.width == !((low_bits_mask(k) as u32))
        &&& exists|k: nat| k < 32 && self.size.height == !((low_bits_mask(k) as u32))
    }

    /// The power-of-two width this mask was made from.
    pub closed spec fn spec_pot_width(self) -> int {
        !self.size.width + 1
    }

    /// The power-of-two height this mask was made from.
    pub closed spec fn spec_pot_height(self) -> int {
        !self.size.height + 1
    }

    pub fn new(size: PotSize) -> (r: Self)
        requires
            size.wf(),
        ensures
            r.wf(),
            r.spec_pot_width() == size.width(),
            r.spec_pot_height() == size.height(),
    {
        proof {
            lemma_mask_of_pow2(size.width());
            lemma_mask_of_pow2(size.height());
        }
        Self { size: Size::new(!(size.width() - 1), !(size.height() - 1)) }
    }

    pub fn contains_x(&self, x: u32) -> (r: bool)
        requires
            self.wf(),
        ensures
            r == (x < self.spec_pot_width()),
    {
        proof {
            lemma_mask_contains(self.size.width, x);
        }
        (self.size.width & x) == 0
    }

    pub fn contains_y(&self, y: u32) -> (r: bool)
        requires
            self.wf(),
        ensures
            r == (y < self.spec_pot_height()),
    {
        proof {
            lemma_mask_contains(self.size.height, y);
        }
        (self.size.height & y) == 0
    }

    /// Whether the point lies inside the size, coordinates taken as the
    /// unsigned words they cast to: a negative coordinate casts to a value
    /// with the top bit set, above any power-of-two dimension, and is never
    /// contained.
    pub fn contains(&self, point: Point) -> (r: bool)
        requires
            self.wf(),
        ensures
            r == ((point.x as u32) < self.spec_pot_width() && (point.y as u32)
                < self.spec_pot_height()),
            point.x >= 0 && point.y >= 0 ==> r == (point.x < self.spec_pot_width() && point.y
                < self.spec_pot_height()),
            point.x < 0 || point.y < 0 ==> !r,
    {
        let ux: u32 = #[verifier::truncate] (point.x as u32);
        let uy: u32 = #[verifier::truncate] (point.y as u32);
        proof {
            lemma_pot_dimension_bound(self.size.width);
            lemma_pot_dimension_bound(self.size.height);
            let px: i32 = point.x;
            let py: i32 = point.y;
            assert(px < 0 ==> (px as u32) >= 0x8000_0000u32) by (bit_vector);
            assert(py < 0 ==> (py as u32) >= 0x8000_0000u32) by (bit_vector);
            assert(px >= 0 ==> (px as u32) == px) by (bit_vector);
            assert(py >= 0 ==> (py as u32) == py) by (bit_vector);
        }
        self.contains_x(ux) && self.contains_y(uy)
    }

    pub fn to_size(&self) -> (r: PotSize)
        requires
            self.wf(),
        ensures
            r.wf(),
            r.width() == self.spec_pot_width(),
            r.height() == self.spec_pot_height(),
    {
        proof {
            lemma_unmask_is_pow2(self.size.width);
            lemma_unmask_is_pow2(self.size.height);
        }
        PotSize::new_impl(!self.size.width + 1, !self.size.height + 1)
    }
}

/// A dimension reconstructed from a complement-of-low-bits mask never
/// exceeds the largest `u32` power of two.
proof fn lemma_pot_dimension_bound(m: u32)
    requires
        exists|k: nat| k < 32 && m == !((low_bits_mask(k) as u32)),
    ensures
        !m + 1 <= 0x8000_0000,
{
    let k = choose|k: nat| k < 32 && m == !((low_bits_mask(k) as u32));
    let lm = low_bits_mask(k) as u32;
    assert(!m == lm) by (bit_vector)
        requires
            m == !lm,
    ;
    lemma_pow2_within_u32(k);
}

/// For a power-of-two `w`, the complement mask of `w - 1` undoes back to `w`,
/// and is the complement of a low-bit mask.
proof fn lemma_mask_of_pow2(w: u32)
    requires
        is_pow2(w as int),
    ensures
        exists|k: nat| k < 32 && !((w - 1) as u32) == !((low_bits_mask(k) as u32)),
        !(!((w - 1) as u32)) + 1 == w,
{
    lemma_u32_pow2_exponent(w);
    let k = choose|k: nat| k < 32 && w == pow2(k);
    lemma_pow2_within_u32(k);
    assert((w - 1) as u32 == low_bits_mask(k) as u32);
    assert(forall|z: u32| #[trigger] (!(!z)) == z) by (bit_vector);
    assert(!((w - 1) as u32) == !((low_bits_mask(k) as u32)));
}

/// A complement-of-low-bits mask admits exactly the values below its power of two.
proof fn lemma_mask_contains(m: u32, x: u32)
    requires
        exists|k: nat| k < 32 && m == !((low_bits_mask(k) as u32)),
    ensures
        (m & x) == 0 <==> x < !m + 1,
{
    let k = choose|k: nat| k < 32 && m == !((low_bits_mask(k) as u32));
    let lm = low_bits_mask(k) as u32;
    assert(!m == lm) by (bit_vector)
        requires
            m == !lm,
    ;
    assert((m & x == 0) <==> (x & lm == x)) by (bit_vector)
        requires
            m == !lm,
    ;
    lemma_u32_low_bits_mask_is_mod(x, k);
    lemma_pow2_within_u32(k);
    assert(x % (pow2(k) as u32) == x <==> x < pow2(k)) by {
        lemma_pow2_pos(k);
        if x < pow2(k) {
            lemma_small_mod(x as nat, pow2(k));
        } else {
            assert(x % (pow2(k) as u32) < pow2(k));
        }
    }
    assert(lm + 1 == pow2(k));
}

/// A mask of the complement-of-low-bits shape undoes to a `u32` power of two.
proof fn lemma_unmask_is_pow2(m: u32)
    requires
        exists|k: nat| k < 32 && m == !((low_bits_mask(k) as u32)),
    ensures
        is_pow2((!m + 1) as int),
        !m + 1 <= u32::MAX,
{
    let k = choose|k: nat| k < 32 && m == !((low_bits_mask(k) as u32));
    let lm = low_bits_mask(k) as u32;
    assert(!m == lm) by (bit_vector)
        requires
            m == !lm,
    ;
    lemma_pow2_within_u32(k);
    assert(!m + 1 == pow2(k));
    is_pow2_equiv(pow2(k) as int);
    lemma_pow2(k);
}

/// `pow2(k)` fits in a `u32` for `k < 32`, and `low_bits_mask(k)` is below it.
proof fn lemma_pow2_within_u32(k: nat)
    requires
        k < 32,
    ensures
        0 < pow2(k) <= 0x8000_0000,
        low_bits_mask(k) == pow2(k) - 1,
{
    lemma_pow2_pos(k);
    lemma2_to64();
    lemma2_to64_rest();
    if k < 31 {
        lemma_pow2_strictly_increases(k, 31);
    }
}

/// Maps plane positions down to cells of a power-of-two grid.
pub struct GridIndex {
    shift: Point,
    width: u32,
    height: u32,
}

impl GridIndex {
    /// The shifts are the exponents of the grid's power-of-two cell size.
    pub closed spec fn wf(self) -> bool {
        &&& 0 <= self.shift.x < 32 && 0 <= self.shift.y < 32
        &&& self.width == pow2(self.shift.x as nat)
        &&& self.height == pow2(self.shift.y as nat)
    }

    pub closed spec fn spec_width(self) -> u32 {
        self.width
    }

    pub closed spec fn spec_height(self) -> u32 {
        self.height
    }

    pub fn new(size: PotSize) -> (r: Self)
        requires
            size.wf(),
        ensures
            r.wf(),
            r.spec_width() == size.width(),
            r.spec_height() == size.height(),
    {
        let kx = u32_log2(size.width());
        let ky = u32_log2(size.height());
        GridIndex { shift: Point::new(kx as i32, ky as i32), width: size.width(), height: size.height() }
    }

    /// The grid cell that holds the given position: each coordinate divided by
    /// the cell extent, rounded toward negative infinity.
    pub fn map(&self, position: Point) -> (r: Point)
        requires
            self.wf(),
        ensures
            r.x == (position.x as int) / (self.spec_width() as int),
            r.y == (position.y as int) / (self.spec_height() as int),
    {
        proof {
            lemma_pow2_within_u32(self.shift.x as nat);
            lemma_pow2_within_u32(self.shift.y as nat);
        }
        Point::new(div_floor_i32(position.x, self.width), div_floor_i32(position.y, self.height))
    }
}

/// Floor division of an `i32` by a positive `u32`, as an arithmetic right
/// shift computes it for power-of-two divisors.
fn div_floor_i32(a: i32, b: u32) -> (r: i32)
    requires
        0 < b <= 0x8000_0000,
    ensures
        r == (a as int) / (b as int),
{
    if a >= 0 {
        let q: u32 = (a as u32) / b;
        q as i32
    } else {
        let na: u64 = -(a as i64) as u64;
        let q: u64 = (na + (b as u64) - 1) / (b as u64);
        proof {
            lemma_neg_ceil_is_floor(a as int, b as int);
            assert((na + b - 1) as int / (b as int) <= na) by (nonlinear_arith)
                requires
                    b >= 1,
                    na >= 1,
            ;
        }
        -(q as i64) as i32
    }
}

/// Floor division of a negative value is the negated ceiling division of its
/// magnitude.
proof fn lemma_neg_ceil_is_floor(a: int, b: int)
    requires
        a < 0,
        b > 0,
    ensures
        a / b == -(((-a) + b - 1) / b),
{
    let q = a / b;
    let r = a % b;
    vstd::arithmetic::div_mod::lemma_fundamental_div_mod(a, b);
    let m = -a;
    assert(m + b - 1 == b * (-q) + (b - 1 - r)) by (nonlinear_arith)
        requires
            a == b * q + r,
            m == -a,
    ;
    assert(0 <= b - 1 - r < b);
    lemma_fundamental_div_mod_converse(m + b - 1, b, -q, b - 1 - r);
}

/// A polygon: a list of vertices, closed by repeating the first vertex at the
/// end.
pub struct Polygon {
    vertices: Vec<Point>,
}

impl View for Polygon {
    type V = Seq<Point>;

    closed spec fn view(&self) -> Seq<Point> {
        self.vertices@
    }
}

impl Polygon {
    /// The stored ring is never a single vertex, and when nonempty it ends
    /// where it begins.
    pub open spec fn wf(self) -> bool {
        self@.len() != 1 && (self@.len() > 0 ==> self@.last() == self@[0])
    }

    pub open spec fn spec_edges_count(self) -> int {
        if self@.len() == 0 {
            0
        } else {
            self@.len() - 1
        }
    }

    pub fn new(vertices: &[Point]) -> (r: Self)
        ensures
            r@ == if vertices@.len() == 0 {
                vertices@
            } else {
                vertices@.push(vertices@[0])
            },
            r.wf(),
    {
        let n = vertices.len();
        let mut v: Vec<Point> = Vec::new();
        let mut i: usize = 0;
        while i < n
            invariant
                i <= n,
                n == vertices@.len(),
                v@ == vertices@.take(i as int),
            decreases n - i,
        {
            let p = *vstd::slice::slice_index_get(vertices, i);
            v.push(p);
            proof {
                assert(v@ =~= vertices@.take(i + 1));
            }
            i = i + 1;
        }
        proof {
            assert(v@ =~= vertices@);
        }
        if v.len() > 0 {
            let start = v[0];
            v.push(start);
        }
        Self { vertices: v }
    }

    /// Takes ownership of a vertex list, closing the ring if it is open.
    pub fn from_vec(v: Vec<Point>) -> (r: Self)
        ensures
            r@ == if v@.len() > 0 && v@[0] != v@.last() {
                v@.push(v@[0])
            } else {
                v@
            },
    {
        let mut v = v;
        if v.len() > 0 && !point_eq(&v[0], &v[v.len() - 1]) {
            let start = v[0];
            v.push(start);
        }
        Self { vertices: v }
    }

    pub fn edges_count(&self) -> (r: usize)
        ensures
            r == self.spec_edges_count(),
    {
        let n = self.vertices.len();
        if n == 0 {
            0
        } else {
            n - 1
        }
    }

    pub fn get_edge(&self, index: usize) -> (r: Line)
        requires
            index < self.spec_edges_count(),
        ensures
            r.start == self@[index as int],
            r.end == self@[index as int + 1],
    {
        let n = self.vertices.len();
        Line::new(self.vertices[index], self.vertices[index + 1])
    }

    pub fn split_edge(&mut self, edge_index: usize, vertex: Point)
        requires
            edge_index < old(self).spec_edges_count(),
        ensures
            final(self)@ == old(self)@.insert(edge_index as int + 1, vertex),
    {
        let n = self.vertices.len();
        self.vertices.insert(edge_index + 1, vertex);
    }

    /// The distinct vertices of the ring: all but the closing repeat.
    pub fn iter(&self) -> (r: Vec<Point>)
        ensures
            r@ == self@.take(self.spec_edges_count()),
    {
        let n = self.edges_count();
        let mut v: Vec<Point> = Vec::new();
        let mut i: usize = 0;
        while i < n
            invariant
                i <= n,
                n == self.spec_edges_count(),
                n < self@.len() || n == 0,
                v@ == self@.take(i as int),
            decreases n - i,
        {
            v.push(self.vertices[i]);
            proof {
                assert(v@ =~= self@.take(i + 1));
            }
            i = i + 1;
        }
        v
    }

    /// The edges of the ring, one line per consecutive vertex pair.
    pub fn iter_edges(&self) -> (r: Vec<Line>)
        ensures
            r@.len() == self.spec_edges_count(),
            forall|i: int|
                0 <= i < r@.len() ==> r@[i] == (Line { start: self@[i], end: self@[i + 1] }),
    {
        let n = self.edges_count();
        let mut v: Vec<Line> = Vec::new();
        let mut i: usize = 0;
        while i < n
            invariant
                i <= n,
                n == self.spec_edges_count(),
                n < self@.len() || n == 0,
                v@.len() == i,
                forall|j: int|
                    0 <= j < i ==> v@[j] == (Line { start: self@[j], end: self@[j + 1] }),
            decreases n - i,
        {
            v.push(Line::new(self.vertices[i], self.vertices[i + 1]));
            i = i + 1;
        }
        v
    }
}

/// Structural equality of two points.
fn point_eq(a: &Point, b: &Point) -> (r: bool)
    ensures
        r == (a == b),
{
    a.x == b.x && a.y == b.y
}

/// Steps through the raster points of a line segment, one point per call.
pub struct LinePoints {
    accumulator: Point,
    direction: Point,
    sign: Point,
    current: Point,
    total_steps: i32,
    step: i32,
    start: Ghost<Point>,
    xsteps: Ghost<int>,
    ysteps: Ghost<int>,
}

impl LinePoints {
    pub closed spec fn spec_accumulator(self) -> Point {
        self.accumulator
    }

    pub closed spec fn spec_direction(self) -> Point {
        self.direction
    }

    pub closed spec fn spec_sign(self) -> Point {
        self.sign
    }

    pub closed spec fn spec_current(self) -> Point {
        self.current
    }

    pub closed spec fn spec_total_steps(self) -> int {
        self.total_steps as int
    }

    pub closed spec fn spec_step(self) -> int {
        self.step as int
    }

    /// The walker's internal consistency: the direction is the componentwise
    /// magnitude of the line's extent, the accumulated error stays within one
    /// full step, and the current point lies between the line's endpoints.
    pub closed spec fn inv(self) -> bool {
        let d = self.direction;
        let t = self.total_steps as int;
        &&& 0 <= d.x <= t
        &&& 0 <= d.y <= t
        &&& (t == d.x || t == d.y)
        &&& t <= 0x3FFF_FFFF
        &&& (self.sign.x == -1 || self.sign.x == 0 || self.sign.x == 1)
        &&& (self.sign.y == -1 || self.sign.y == 0 || self.sign.y == 1)
        &&& 0 <= self.step <= t + 1
        &&& 0 <= self.accumulator.x <= t
        &&& 0 <= self.accumulator.y <= t
        &&& 0 <= self.xsteps@ <= d.x
        &&& 0 <= self.ysteps@ <= d.y
        &&& self.current.x == self.start@.x + self.sign.x * self.xsteps@
        &&& self.current.y == self.start@.y + self.sign.y * self.ysteps@
        &&& i32::MIN <= self.start@.x + self.sign.x * d.x <= i32::MAX
        &&& i32::MIN <= self.start@.y + self.sign.y * d.y <= i32::MAX
        &&& self.accumulator.x == self.step * d.x - self.xsteps@ * t
        &&& self.accumulator.y == self.step * d.y - self.ysteps@ * t
    }

    pub fn new(line: Line) -> (r: Self)
        requires
            -0x4000_0000 < line.end.x - line.start.x < 0x4000_0000,
            -0x4000_0000 < line.end.y - line.start.y < 0x4000_0000,
        ensures
            r.inv(),
            r.spec_step() == 0,
            r.spec_accumulator().x == 0,
            r.spec_accumulator().y == 0,
            r.spec_current() == line.start,
            r.spec_direction().x == abs_i(line.end.x - line.start.x),
            r.spec_direction().y == abs_i(line.end.y - line.start.y),
            r.spec_sign().x == sgn(line.end.x - line.start.x),
            r.spec_sign().y == sgn(line.end.y - line.start.y),
            r.spec_total_steps() == max_i(
                abs_i(line.end.x - line.start.x),
                abs_i(line.end.y - line.start.y),
            ),
    {
        let dx: i32 = line.end.x - line.start.x;
        let dy: i32 = line.end.y - line.start.y;
        let dir = Point::new(dx, dy);
        let r = Self {
            accumulator: Point::zero(),
            direction: dir.abs(),
            sign: dir.signum(),
            current: line.start,
            total_steps: dir.max_norm(),
            step: 0,
            start: Ghost(line.start),
            xsteps: Ghost(0int),
            ysteps: Ghost(0int),
        };
        proof {
            assert(r.sign.x * r.direction.x == line.end.x - line.start.x) by {
                if dx > 0 {
                    assert(r.sign.x == 1 && r.direction.x == dx);
                    assert(1 * dx == dx);
                } else if dx < 0 {
                    assert(r.sign.x == -1 && r.direction.x == -(dx as int));
                    assert((-1) * (-(dx as int)) == dx);
                } else {
                    assert(r.sign.x == 0 && r.direction.x == 0);
                }
            }
            assert(r.sign.y * r.direction.y == line.end.y - line.start.y) by {
                if dy > 0 {
                    assert(r.sign.y == 1 && r.direction.y == dy);
                    assert(1 * dy == dy);
                } else if dy < 0 {
                    assert(r.sign.y == -1 && r.direction.y == -(dy as int));
                    assert((-1) * (-(dy as int)) == dy);
                } else {
                    assert(r.sign.y == 0 && r.direction.y == 0);
                }
            }
            assert(r.sign.x * 0 == 0);
            assert(r.sign.y * 0 == 0);
            assert(0 * r.direction.x == 0 && 0 * r.total_steps == 0);
            assert(0 * r.direction.y == 0);
        }
        r
    }

    /// Yields the next raster point, or nothing once the walk is done.
    pub fn next(&mut self) -> (r: Option<Point>)
        requires
            old(self).inv(),
        ensures
            final(self).inv(),
            r is Some <==> old(self).spec_step() <= old(self).spec_total_steps(),
            r is None ==> *final(self) == *old(self),
            r matches Some(p) ==> {
                let ax = old(self).spec_accumulator().x + old(self).spec_direction().x;
                let ay = old(self).spec_accumulator().y + old(self).spec_direction().y;
                let t = old(self).spec_total_steps();
                &&& final(self).spec_step() == old(self).spec_step() + 1
                &&& final(self).spec_direction() == old(self).spec_direction()
                &&& final(self).spec_sign() == old(self).spec_sign()
                &&& final(self).spec_total_steps() == t
                &&& final(self).spec_accumulator().x == (if ax > t {
                    ax - t
                } else {
                    ax
                })
                &&& final(self).spec_accumulator().y == (if ay > t {
                    ay - t
                } else {
                    ay
                })
                &&& final(self).spec_current().x == old(self).spec_current().x + (if ax > t {
                    old(self).spec_sign().x as int
                } else {
                    0
                })
                &&& final(self).spec_current().y == old(self).spec_current().y + (if ay > t {
                    old(self).spec_sign().y as int
                } else {
                    0
                })
                &&& p == final(self).spec_current()
            },
    {
        if self.step <= self.total_steps {
            self.accumulator.x = self.accumulator.x + self.direction.x;
            self.accumulator.y = self.accumulator.y + self.direction.y;

            if self.accumulator.x > self.total_steps {
                proof {
                    assert((self.step + 1) * self.direction.x == self.step * self.direction.x
                        + self.direction.x) by (nonlinear_arith);
                    assert((self.xsteps@ + 1) * self.total_steps == self.xsteps@
                        * self.total_steps + self.total_steps) by (nonlinear_arith);
                    lemma_xsteps_stay_below(
                        self.step as int,
                        self.direction.x as int,
                        self.xsteps@ + 1,
                        self.total_steps as int,
                        self.accumulator.x - self.total_steps,
                    );
                    lemma_sign_step_in_range(
                        self.start@.x as int,
                        self.sign.x as int,
                        self.xsteps@,
                        self.direction.x as int,
                    );
                }
                self.accumulator.x = self.accumulator.x - self.total_steps;
                self.current.x = self.current.x + self.sign.x;
                proof {
                    self.xsteps@ = self.xsteps@ + 1;
                }
            } else {
                proof {
                    assert((self.step + 1) * self.direction.x == self.step * self.direction.x
                        + self.direction.x) by (nonlinear_arith);
                }
            }
            if self.accumulator.y > self.total_steps {
                proof {
                    assert((self.step + 1) * self.direction.y == self.step * self.direction.y
                        + self.direction.y) by (nonlinear_arith);
                    assert((self.ysteps@ + 1) * self.total_steps == self.ysteps@
                        * self.total_steps + self.total_steps) by (nonlinear_arith);
                    lemma_xsteps_stay_below(
                        self.step as int,
                        self.direction.y as int,
                        self.ysteps@ + 1,
                        self.total_steps as int,
                        self.accumulator.y - self.total_steps,
                    );
                    lemma_sign_step_in_range(
                        self.start@.y as int,
                        self.sign.y as int,
                        self.ysteps@,
                        self.direction.y as int,
                    );
                }
                self.accumulator.y = self.accumulator.y - self.total_steps;
                self.current.y = self.current.y + self.sign.y;
                proof {
                    self.ysteps@ = self.ysteps@ + 1;
                }
            } else {
                proof {
                    assert((self.step + 1) * self.direction.y == self.step * self.direction.y
                        + self.direction.y) by (nonlinear_arith);
                }
            }

            self.step = self.step + 1;

            Some(self.current)
        } else {
            None
        }
    }
}

/// A point moved one more unit step toward its endpoint stays between the
/// endpoints, so it stays representable.
proof fn lemma_sign_step_in_range(start: int, sign: int, k: int, d: int)
    requires
        sign == -1 || sign == 0 || sign == 1,
        0 <= k,
        k + 1 <= d,
        i32::MIN <= start <= i32::MAX,
        i32::MIN <= start + sign * d <= i32::MAX,
    ensures
        i32::MIN <= start + sign * (k + 1) <= i32::MAX,
        sign * (k + 1) == sign * k + sign,
{
    if sign == 0 {
        assert(sign * (k + 1) == 0 && sign * k == 0 && sign * d == 0);
    } else if sign == 1 {
        assert(sign * (k + 1) == k + 1 && sign * k == k && sign * d == d);
    } else {
        assert(sign * (k + 1) == -(k + 1) && sign * k == -k && sign * d == -d)
            by (nonlinear_arith)
            requires
                sign == -1,
        ;
    }
}

/// If the accumulated error is still positive after one more whole step, the
/// number of component steps taken cannot exceed the component extent.
proof fn lemma_xsteps_stay_below(step: int, d: int, k: int, t: int, acc: int)
    requires
        acc == (step + 1) * d - k * t,
        1 <= acc,
        step + 1 <= t + 1,
        0 <= d <= t,
        0 < t,
        k >= 1,
    ensures
        k <= d,
{
    if k > d {
        assert((step + 1) * d <= (t + 1) * d) by (nonlinear_arith)
            requires
                step + 1 <= t + 1,
                d >= 0,
        ;
        assert(k * t >= (d + 1) * t) by (nonlinear_arith)
            requires
                k >= d + 1,
                t > 0,
        ;
        assert((t + 1) * d - (d + 1) * t == d - t) by (nonlinear_arith);
        assert(false);
    }
}

/// The quantity the arc walker's decision variable always equals while the
/// walk is in progress.
pub open spec fn arc_decision(x: int, y: int, r: int) -> int {
    2 * x * x + 4 * x + 2 * y * y - 2 * y + 3 - 2 * r * r
}

/// Steps through the raster points of one octant of a circle, one point per
/// call, by the midpoint method.
pub struct ArcPoints {
    point: Point,
    step: i32,
    radius: Ghost<i32>,
}

impl ArcPoints {
    pub closed spec fn spec_point(self) -> Point {
        self.point
    }

    pub closed spec fn spec_step(self) -> int {
        self.step as int
    }

    pub closed spec fn spec_radius(self) -> int {
        self.radius@ as int
    }

    /// While the walk is in progress the decision variable equals
    /// `arc_decision` of the current point, which keeps it small.
    pub closed spec fn inv(self) -> bool {
        let r = self.radius@ as int;
        let x = self.point.x as int;
        let y = self.point.y as int;
        &&& -8191 <= r <= 8191
        &&& -0x4000_0000 <= self.step <= 0x4000_0000
        &&& if r < 0 {
            x == 0 && y == r
        } else {
            &&& 0 <= x <= r + 1
            &&& 0 <= y <= r
            &&& x <= y + 1
            &&& (x <= y ==> self.step == arc_decision(x, y, r))
        }
    }

    pub fn new(radius: i32) -> (r: Self)
        requires
            -8191 <= radius <= 8191,
        ensures
            r.inv(),
            r.spec_point().x == 0,
            r.spec_point().y == radius,
            r.spec_step() == 3 - 2 * radius,
            r.spec_radius() == radius,
    {
        let a = Self { point: Point::new(0, radius), step: 3 - 2 * radius, radius: Ghost(radius) };
        proof {
            assert(arc_decision(0, radius as int, radius as int) == 3 - 2 * radius);
        }
        a
    }

    /// Yields the next arc point, or nothing once the octant is finished.
    pub fn next(&mut self) -> (r: Option<Point>)
        requires
            old(self).inv(),
        ensures
            final(self).inv(),
            old(self).spec_point().x < old(self).spec_point().y ==> {
                &&& r == Some(old(self).spec_point())
                &&& final(self).spec_point().x == old(self).spec_point().x + 1
                &&& (old(self).spec_step() < 0 ==> final(self).spec_point().y == old(
                    self,
                ).spec_point().y && final(self).spec_step() == old(self).spec_step() + 4 * old(
                    self,
                ).spec_point().x + 6)
                &&& (old(self).spec_step() >= 0 ==> final(self).spec_point().y == old(
                    self,
                ).spec_point().y - 1 && final(self).spec_step() == old(self).spec_step() + 4 * (old(
                    self,
                ).spec_point().x - old(self).spec_point().y) + 10)
            },
            old(self).spec_point().x == old(self).spec_point().y ==> {
                &&& final(self).spec_point().x == old(self).spec_point().x + 1
                &&& final(self).spec_point().y == old(self).spec_point().y
                &&& final(self).spec_step() == old(self).spec_step()
                &&& r == Some(final(self).spec_point())
            },
            old(self).spec_point().x > old(self).spec_point().y ==> r is None && *final(self)
                == *old(self),
    {
        if self.point.x < self.point.y {
            let result = self.point;
            proof {
                lemma_arc_step_bounds(
                    self.point.x as int,
                    self.point.y as int,
                    self.radius@ as int,
                );
            }
            if self.step < 0 {
                self.step = self.step + self.point.x * 4 + 6;
            } else {
                self.step = self.step + (self.point.x - self.point.y) * 4 + 10;
                self.point.y = self.point.y - 1;
            }
            self.point.x = self.point.x + 1;
            Some(result)
        } else if self.point.x == self.point.y {
            self.point.x = self.point.x + 1;
            Some(self.point)
        } else {
            None
        }
    }
}

/// Stepping the midpoint decision variable keeps the `arc_decision` identity,
/// and its value stays far from the `i32` bounds.
proof fn lemma_arc_step_bounds(x: int, y: int, r: int)
    requires
        0 <= x,
        x < y <= r <= 8191,
    ensures
        arc_decision(x, y, r) + 4 * x + 6 == arc_decision(x + 1, y, r),
        arc_decision(x, y, r) + 4 * (x - y) + 10 == arc_decision(x + 1, y - 1, r),
        -0x4000_0000 <= arc_decision(x + 1, y, r) <= 0x4000_0000,
        -0x4000_0000 <= arc_decision(x + 1, y - 1, r) <= 0x4000_0000,
{
    assert(2 * (x + 1) * (x + 1) == 2 * x * x + 4 * x + 2) by (nonlinear_arith);
    assert(2 * (y - 1) * (y - 1) == 2 * y * y - 4 * y + 2) by (nonlinear_arith);
    assert(0 <= 2 * (x + 1) * (x + 1) <= 2 * 8192 * 8192) by (nonlinear_arith)
        requires
            0 <= x + 1 <= 8192,
    ;
    assert(0 <= 2 * y * y <= 2 * 8191 * 8191) by (nonlinear_arith)
        requires
            -8191 <= y <= 8191,
    ;
    assert(0 <= 2 * (y - 1) * (y - 1) <= 2 * 8192 * 8192) by (nonlinear_arith)
        requires
            -8191 <= y - 1 <= 8191,
    ;
    assert(0 <= 2 * r * r <= 2 * 8191 * 8191) by (nonlinear_arith)
        requires
            -8191 <= r <= 8191,
    ;
}

/// The four or eight lattice points at the same axis-aligned distances as the
/// given vector.
pub struct EquidistantPoints {
    vector: Vec<Point>,
}

impl View for EquidistantPoints {
    type V = Seq<Point>;

    closed spec fn view(&self) -> Seq<Point> {
        self.vector@
    }
}

impl EquidistantPoints {
    pub fn new(vector: Point) -> (r: Self)
        requires
            vector.x != i32::MIN,
            vector.y != i32::MIN,
        ensures
            vector.x == vector.y ==> {
                &&& r@.len() == 4
                &&& r@[0] == (Point { x: vector.x, y: vector.x })
                &&& r@[1].x == vector.x && r@[1].y == -(vector.x as int)
                &&& r@[2].x == -(vector.x as int) && r@[2].y == -(vector.x as int)
                &&& r@[3].x == -(vector.x as int) && r@[3].y == vector.x
            },
            vector.x != vector.y ==> {
                &&& r@.len() == 8
                &&& r@[0] == (Point { x: vector.x, y: vector.y })
                &&& r@[1].x == vector.x && r@[1].y == -(vector.y as int)
                &&& r@[2].x == -(vector.x as int) && r@[2].y == -(vector.y as int)
                &&& r@[3].x == -(vector.x as int) && r@[3].y == vector.y
                &&& r@[4].x == vector.y && r@[4].y == vector.x
                &&& r@[5].x == vector.y && r@[5].y == -(vector.x as int)
                &&& r@[6].x == -(vector.y as int) && r@[6].y == -(vector.x as int)
                &&& r@[7].x == -(vector.y as int) && r@[7].y == vector.x
            },
    {
        let mut v: Vec<Point> = Vec::new();
        if vector.x == vector.y {
            v.push(Point::new(vector.x, vector.x));
            v.push(Point::new(vector.x, -vector.x));
            v.push(Point::new(-vector.x, -vector.x));
            v.push(Point::new(-vector.x, vector.x));
        } else {
            v.push(Point::new(vector.x, vector.y));
            v.push(Point::new(vector.x, -vector.y));
            v.push(Point::new(-vector.x, -vector.y));
            v.push(Point::new(-vector.x, vector.y));
            v.push(Point::new(vector.y, vector.x));
            v.push(Point::new(vector.y, -vector.x));
            v.push(Point::new(-vector.y, -vector.x));
            v.push(Point::new(-vector.y, vector.x));
        }
        Self { vector: v }
    }

    /// The points, in order.
    pub fn points(&self) -> (r: Vec<Point>)
        ensures
            r@ == self@,
    {
        let n = self.vector.len();
        let mut v: Vec<Point> = Vec::new();
        let mut i: usize = 0;
        while i < n
            invariant
                i <= n,
                n == self@.len(),
                v@ == self@.take(i as int),
            decreases n - i,
        {
            v.push(self.vector[i]);
            proof {
                assert(v@ =~= self@.take(i + 1));
            }
            i = i + 1;
        }
        proof {
            assert(v@ =~= self@);
        }
        v
    }
}

/// The exponent of a `u32` power of two.
fn u32_log2(w: u32) -> (k: u32)
    requires
        is_pow2(w as int),
    ensures
        k < 32,
        w == pow2(k as nat),
{
    proof {
        reveal(is_pow2);
        lemma2_to64();
    }
    let mut v: u32 = w;
    let mut k: u32 = 0;
    while v > 1
        invariant
            is_pow2(v as int),
            v >= 1,
            k < 32,
            w == v * pow2(k as nat),
        decreases v,
    {
        proof {
            reveal(is_pow2);
            lemma_pow2_unfold((k + 1) as nat);
            lemma_pow2_adds(k as nat, 1);
            lemma_pow2_within_u32(k as nat);
            lemma2_to64();
            assert((v as int) * pow2(k as nat) == ((v as int) / 2) * (2 * pow2(k as nat)))
                by (nonlinear_arith)
                requires
                    v as int % 2 == 0,
            ;
            assert(2 * pow2(k as nat) == pow2((k + 1) as nat));
            if k + 1 >= 32 {
                lemma_pow2_strictly_increases(31, (k + 1) as nat);
                lemma2_to64_rest();
                assert(v / 2 >= 1);
                assert(w as int >= pow2((k + 1) as nat)) by (nonlinear_arith)
                    requires
                        w as int == ((v as int) / 2) * pow2((k + 1) as nat),
                        (v as int) / 2 >= 1,
                        pow2((k + 1) as nat) > 0,
                ;
                assert(false);
            }
        }
        v = v / 2;
        k = k + 1;
    }
    proof {
        assert(w == 1 * pow2(k as nat));
    }
    k
}

} // verus!
