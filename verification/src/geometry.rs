use vstd::prelude::*;

verus! {

/// The largest coordinate. As the upper bound of a constraint it stands for
/// "no bound on this axis".
pub const UNBOUNDED: i32 = 0x7fff_ffff;

/// One whole unit of an alignment factor: a factor `a` stands for the
/// fraction `a / ALIGN_ONE`.
pub const ALIGN_ONE: u16 = 0x8000;

/// The coordinate nearest to `v`.
pub open spec fn saturate(v: int) -> i32 {
    if v > i32::MAX {
        i32::MAX
    } else if v < i32::MIN {
        i32::MIN
    } else {
        v as i32
    }
}

/// Brings a wide intermediate result back into the range of a coordinate.
pub fn saturating(v: i64) -> (r: i32)
    ensures
        r == saturate(v as int),
{
    if v > 0x7fff_ffff {
        0x7fff_ffff
    } else if v < -0x8000_0000 {
        -0x8000_0000
    } else {
        v as i32
    }
}

/// The larger of two coordinates.
pub open spec fn larger(a: i32, b: i32) -> i32 {
    if a >= b {
        a
    } else {
        b
    }
}

/// The smaller of two coordinates.
pub open spec fn smaller(a: i32, b: i32) -> i32 {
    if a <= b {
        a
    } else {
        b
    }
}

/// `v` raised to at least `lo`, then cut down to at most `hi`.
pub open spec fn clamp_axis(v: i32, lo: i32, hi: i32) -> i32 {
    smaller(larger(v, lo), hi)
}

/// The fraction `factor / ALIGN_ONE` of `extent`, rounded towards zero.
pub open spec fn scaled(factor: u16, extent: int) -> int {
    if extent >= 0 {
        (factor * extent) / (ALIGN_ONE as int)
    } else {
        -((factor * (-extent)) / (ALIGN_ONE as int))
    }
}

/// Where a child of extent `inner` starts inside a parent of extent `outer`
/// when it is anchored by `factor`: that fraction of the free space.
pub open spec fn anchored(factor: u16, outer: i32, inner: i32) -> i32 {
    saturate(scaled(factor, outer - inner))
}

pub fn anchor(factor: u16, outer: i32, inner: i32) -> (r: i32)
    ensures
        r == anchored(factor, outer, inner),
{
    let free: i64 = outer as i64 - inner as i64;
    let f: u64 = factor as u64;
    if free >= 0 {
        let e: u64 = free as u64;
        assert(f * e <= 0xffff * 0xffff_ffff) by (nonlinear_arith)
            requires
                f <= 0xffff,
                e <= 0xffff_ffff,
        ;
        let q: u64 = (f * e) / 0x8000;
        saturating(q as i64)
    } else {
        let e: u64 = (-free) as u64;
        assert(f * e <= 0xffff * 0xffff_ffff) by (nonlinear_arith)
            requires
                f <= 0xffff,
                e <= 0xffff_ffff,
        ;
        let q: u64 = (f * e) / 0x8000;
        saturating(-(q as i64))
    }
}

/// A point or an extent in the plane, each axis on its own.
#[derive(Clone, Copy, Debug, PartialEq, Eq, Structural)]
pub struct Vec2 {
    pub x: i32,
    pub y: i32,
}

impl Vec2 {
    pub open spec fn spec_zero() -> Vec2 {
        Vec2 { x: 0, y: 0 }
    }

    /// The origin, and the empty extent.
    #[verifier::when_used_as_spec(spec_zero)]
    pub fn zero() -> (r: Vec2)
        ensures
            r == Vec2::spec_zero(),
    {
        Vec2 { x: 0, y: 0 }
    }

    pub fn new(x: i32, y: i32) -> (r: Vec2)
        ensures
            r == (Vec2 { x, y }),
    {
        Vec2 { x, y }
    }

    pub open spec fn spec_plus(self, rhs: Vec2) -> Vec2 {
        Vec2 { x: saturate(self.x + rhs.x), y: saturate(self.y + rhs.y) }
    }

    /// The sum of two vectors, each axis kept inside the range of a
    /// coordinate.
    #[verifier::when_used_as_spec(spec_plus)]
    pub fn plus(self, rhs: Vec2) -> (r: Vec2)
        ensures
            r == self.spec_plus(rhs),
    {
        Vec2 {
            x: saturating(self.x as i64 + rhs.x as i64),
            y: saturating(self.y as i64 + rhs.y as i64),
        }
    }
}

/// The box of extents that a parent allows a widget: each axis of the
/// widget's size is to lie between `min` and `max`.
#[derive(Clone, Copy, Debug, PartialEq, Eq, Structural)]
pub struct Constraints {
    pub min: Vec2,
    pub max: Vec2,
}

impl Constraints {
    /// On each axis the lower bound does not exceed the upper bound.
    pub open spec fn is_valid(self) -> bool {
        self.min.x <= self.max.x && self.min.y <= self.max.y
    }

    /// Both axes have an upper bound.
    pub open spec fn spec_is_bounded(self) -> bool {
        self.max.x < UNBOUNDED && self.max.y < UNBOUNDED
    }

    /// `size` lies inside the box on both axes.
    pub open spec fn admits(self, size: Vec2) -> bool {
        self.min.x <= size.x <= self.max.x && self.min.y <= size.y <= self.max.y
    }

    pub open spec fn spec_constrain(self, size: Vec2) -> Vec2 {
        Vec2 {
            x: clamp_axis(size.x, self.min.x, self.max.x),
            y: clamp_axis(size.y, self.min.y, self.max.y),
        }
    }

    pub fn new(min: Vec2, max: Vec2) -> (r: Constraints)
        ensures
            r == (Constraints { min, max }),
    {
        Constraints { min, max }
    }

    #[verifier::when_used_as_spec(spec_is_bounded)]
    pub fn is_bounded(self) -> (r: bool)
        ensures
            r == self.spec_is_bounded(),
    {
        self.max.x < UNBOUNDED && self.max.y < UNBOUNDED
    }

    /// The extent nearest to `size` that the box allows: each axis is raised
    /// to the lower bound and then cut down to the upper bound.
    #[verifier::when_used_as_spec(spec_constrain)]
    pub fn constrain(self, size: Vec2) -> (r: Vec2)
        ensures
            r == self.spec_constrain(size),
            self.is_valid() ==> self.admits(r),
    {
        let x: i32 = if size.x >= self.min.x { size.x } else { self.min.x };
        let y: i32 = if size.y >= self.min.y { size.y } else { self.min.y };
        Vec2 {
            x: if x <= self.max.x { x } else { self.max.x },
            y: if y <= self.max.y { y } else { self.max.y },
        }
    }
}

/// An anchor inside a parent, one factor per axis: 0 is the start of the
/// axis (left, top), `ALIGN_ONE` its end (right, bottom).
#[derive(Clone, Copy, Debug, PartialEq, Eq, Structural)]
pub struct Alignment {
    pub x: u16,
    pub y: u16,
}

impl Alignment {
    pub fn new(x: u16, y: u16) -> (r: Alignment)
        ensures
            r == (Alignment { x, y }),
    {
        Alignment { x, y }
    }

    pub open spec fn spec_center() -> Alignment {
        Alignment { x: 0x4000, y: 0x4000 }
    }

    #[verifier::when_used_as_spec(spec_center)]
    pub fn center() -> (r: Alignment)
        ensures
            r == Alignment::spec_center(),
    {
        Alignment { x: 0x4000, y: 0x4000 }
    }

    pub fn top_left() -> (r: Alignment)
        ensures
            r == (Alignment { x: 0, y: 0 }),
    {
        Alignment { x: 0, y: 0 }
    }

    pub fn top_right() -> (r: Alignment)
        ensures
            r == (Alignment { x: ALIGN_ONE, y: 0 }),
    {
        Alignment { x: ALIGN_ONE, y: 0 }
    }

    pub fn bottom_left() -> (r: Alignment)
        ensures
            r == (Alignment { x: 0, y: ALIGN_ONE }),
    {
        Alignment { x: 0, y: ALIGN_ONE }
    }

    pub fn bottom_right() -> (r: Alignment)
        ensures
            r == (Alignment { x: ALIGN_ONE, y: ALIGN_ONE }),
    {
        Alignment { x: ALIGN_ONE, y: ALIGN_ONE }
    }

    /// Where a child of extent `inner` lies inside a parent of extent
    /// `outer`: on each axis this anchor's fraction of the free space.
    pub open spec fn spec_place(self, outer: Vec2, inner: Vec2) -> Vec2 {
        Vec2 { x: anchored(self.x, outer.x, inner.x), y: anchored(self.y, outer.y, inner.y) }
    }

    #[verifier::when_used_as_spec(spec_place)]
    pub fn place(self, outer: Vec2, inner: Vec2) -> (r: Vec2)
        ensures
            r == self.spec_place(outer, inner),
    {
        Vec2 { x: anchor(self.x, outer.x, inner.x), y: anchor(self.y, outer.y, inner.y) }
    }
}

/// A factor of zero anchors at the start and a factor of `ALIGN_ONE` at the
/// end of the free space, whatever the two extents are.
pub proof fn lemma_anchored_ends(outer: i32, inner: i32)
    ensures
        anchored(0, outer, inner) == 0,
        anchored(ALIGN_ONE, outer, inner) == saturate(outer - inner),
{
    let d: int = outer - inner;
    if d >= 0 {
        assert((0x8000 * d) / 0x8000 == d) by (nonlinear_arith);
    } else {
        assert((0x8000 * (-d)) / 0x8000 == -d) by (nonlinear_arith);
    }
    assert((0 * d) / 0x8000 == 0) by (nonlinear_arith);
    assert((0 * (-d)) / 0x8000 == 0) by (nonlinear_arith);
}

} // verus!
