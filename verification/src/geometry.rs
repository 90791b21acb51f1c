//! The geometric entity model.
//!
//! An `Entity` is one signed primitive: a location, a shape variant, and a
//! gap flag (a gap is subtracted rather than added). Each shape has two pure
//! functions, `area` and `centroid`. A circle's area carries a factor of pi,
//! so areas and moments are `PiLin` values: the exact number
//! `units + pis * pi`. Arithmetic is checked; `None` reports overflow.

use crate::frac::{abs_i, Frac};
use vstd::prelude::*;

verus! {

/// A 2-D coordinate, also used as a displacement.
#[derive(Clone, Copy, Debug, PartialEq, Eq, Structural)]
pub struct Point {
    pub x: Frac,
    pub y: Frac,
}

impl Point {
    pub open spec fn wf(self) -> bool {
        self.x.wf() && self.y.wf()
    }
}

/// The closed set of shape variants.
#[derive(Clone, Copy, Debug, PartialEq, Eq, Structural)]
pub enum Shape {
    /// `location` is the centre.
    Circle { diameter: Frac },
    /// `location` is one corner; width and height may be negative, which
    /// flips the opposite corner.
    Rectangle { width: Frac, height: Frac },
    /// `location` is vertex 1; the deltas give vertices 2 and 3.
    Triangle { delta2: Point, delta3: Point },
}

impl Shape {
    pub open spec fn wf(self) -> bool {
        match self {
            Shape::Circle { diameter } => diameter.wf(),
            Shape::Rectangle { width, height } => width.wf() && height.wf(),
            Shape::Triangle { delta2, delta3 } => delta2.wf() && delta3.wf(),
        }
    }
}

/// One signed primitive of the composite body.
#[derive(Clone, Copy, Debug, PartialEq, Eq, Structural)]
pub struct Entity {
    pub location: Point,
    pub shape: Shape,
    pub is_gap: bool,
}

impl Entity {
    pub open spec fn wf(self) -> bool {
        self.location.wf() && self.shape.wf()
    }
}

/// The exact number `units + pis * pi`. Rectangle and triangle areas are
/// rational; a circle's area is a rational multiple of pi.
#[derive(Clone, Copy, Debug, PartialEq, Eq, Structural)]
pub struct PiLin {
    pub units: Frac,
    pub pis: Frac,
}

impl PiLin {
    pub open spec fn wf(self) -> bool {
        self.units.wf() && self.pis.wf()
    }

    pub open spec fn spec_zero() -> PiLin {
        PiLin { units: Frac::spec_zero(), pis: Frac::spec_zero() }
    }

    pub fn zero() -> (r: PiLin)
        ensures
            r == PiLin::spec_zero(),
            r.wf(),
    {
        PiLin { units: Frac::zero(), pis: Frac::zero() }
    }

    /// Componentwise exact sum.
    pub open spec fn spec_add(self, other: PiLin) -> Option<PiLin> {
        match self.units.spec_add(other.units) {
            Some(u) => match self.pis.spec_add(other.pis) {
                Some(p) => Some(PiLin { units: u, pis: p }),
                None => None,
            },
            None => None,
        }
    }

    /// Componentwise exact difference.
    pub open spec fn spec_sub(self, other: PiLin) -> Option<PiLin> {
        match self.units.spec_sub(other.units) {
            Some(u) => match self.pis.spec_sub(other.pis) {
                Some(p) => Some(PiLin { units: u, pis: p }),
                None => None,
            },
            None => None,
        }
    }

    /// The exact product with the rational `f`.
    pub open spec fn spec_scale(self, f: Frac) -> Option<PiLin> {
        match self.units.spec_mul(f) {
            Some(u) => match self.pis.spec_mul(f) {
                Some(p) => Some(PiLin { units: u, pis: p }),
                None => None,
            },
            None => None,
        }
    }

    pub fn add(self, other: PiLin) -> (r: Option<PiLin>)
        requires
            self.wf(),
            other.wf(),
        ensures
            r == self.spec_add(other),
            r matches Some(v) ==> v.wf(),
    {
        match self.units.add(other.units) {
            Some(u) => match self.pis.add(other.pis) {
                Some(p) => Some(PiLin { units: u, pis: p }),
                None => None,
            },
            None => None,
        }
    }

    pub fn sub(self, other: PiLin) -> (r: Option<PiLin>)
        requires
            self.wf(),
            other.wf(),
        ensures
            r == self.spec_sub(other),
            r matches Some(v) ==> v.wf(),
    {
        match self.units.sub(other.units) {
            Some(u) => match self.pis.sub(other.pis) {
                Some(p) => Some(PiLin { units: u, pis: p }),
                None => None,
            },
            None => None,
        }
    }

    pub fn scale(self, f: Frac) -> (r: Option<PiLin>)
        requires
            self.wf(),
            f.wf(),
        ensures
            r == self.spec_scale(f),
            r matches Some(v) ==> v.wf(),
    {
        match self.units.mul(f) {
            Some(u) => match self.pis.mul(f) {
                Some(p) => Some(PiLin { units: u, pis: p }),
                None => None,
            },
            None => None,
        }
    }
}

impl Entity {
    /// The exact area of the shape, never negative:
    /// a circle of diameter `d` has area `pi * (d/2)^2`; a rectangle has
    /// `|width * height|`; a triangle has `|d2.x * d3.y - d3.x * d2.y| / 2`.
    /// `None` reports an intermediate value outside the `i64` range.
    pub open spec fn spec_area(self) -> Option<PiLin> {
        match self.shape {
            Shape::Circle { diameter } => match diameter.spec_div_int(2) {
                Some(half) => match half.spec_mul(half) {
                    Some(sq) => Some(PiLin { units: Frac::spec_zero(), pis: sq }),
                    None => None,
                },
                None => None,
            },
            Shape::Rectangle { width, height } => match width.spec_mul(height) {
                Some(p) => match p.spec_abs() {
                    Some(a) => Some(PiLin { units: a, pis: Frac::spec_zero() }),
                    None => None,
                },
                None => None,
            },
            Shape::Triangle { delta2, delta3 } => match delta2.x.spec_mul(delta3.y) {
                Some(p1) => match delta3.x.spec_mul(delta2.y) {
                    Some(p2) => match p1.spec_sub(p2) {
                        Some(cross) => match cross.spec_abs() {
                            Some(a) => match a.spec_div_int(2) {
                                Some(h) => Some(PiLin { units: h, pis: Frac::spec_zero() }),
                                None => None,
                            },
                            None => None,
                        },
                        None => None,
                    },
                    None => None,
                },
                None => None,
            },
        }
    }

    /// The exact centroid: a circle's centre; a corner-anchored rectangle's
    /// `location + (width/2, height/2)` with the raw signs kept; a triangle's
    /// mean of its three vertices, `location + (delta2 + delta3) / 3`.
    pub open spec fn spec_centroid(self) -> Option<Point> {
        match self.shape {
            Shape::Circle { .. } => Some(self.location),
            Shape::Rectangle { width, height } => match width.spec_div_int(2) {
                Some(wh) => match height.spec_div_int(2) {
                    Some(hh) => match self.location.x.spec_add(wh) {
                        Some(cx) => match self.location.y.spec_add(hh) {
                            Some(cy) => Some(Point { x: cx, y: cy }),
                            None => None,
                        },
                        None => None,
                    },
                    None => None,
                },
                None => None,
            },
            Shape::Triangle { delta2, delta3 } => match delta2.x.spec_add(delta3.x) {
                Some(sx) => match sx.spec_div_int(3) {
                    Some(tx) => match delta2.y.spec_add(delta3.y) {
                        Some(sy) => match sy.spec_div_int(3) {
                            Some(ty) => match self.location.x.spec_add(tx) {
                                Some(cx) => match self.location.y.spec_add(ty) {
                                    Some(cy) => Some(Point { x: cx, y: cy }),
                                    None => None,
                                },
                                None => None,
                            },
                            None => None,
                        },
                        None => None,
                    },
                    None => None,
                },
                None => None,
            },
        }
    }

    pub fn area(&self) -> (r: Option<PiLin>)
        requires
            self.wf(),
        ensures
            r == self.spec_area(),
            r matches Some(a) ==> a.wf() && a.units.num >= 0 && a.pis.num >= 0,
    {
        match self.shape {
            Shape::Circle { diameter } => match diameter.div_int(2) {
                Some(half) => match half.mul(half) {
                    Some(sq) => {
                        proof {
                            lemma_square_nonneg(half.num as int);
                        }
                        Some(PiLin { units: Frac::zero(), pis: sq })
                    },
                    None => None,
                },
                None => None,
            },
            Shape::Rectangle { width, height } => match width.mul(height) {
                Some(p) => match p.abs() {
                    Some(a) => Some(PiLin { units: a, pis: Frac::zero() }),
                    None => None,
                },
                None => None,
            },
            Shape::Triangle { delta2, delta3 } => match delta2.x.mul(delta3.y) {
                Some(p1) => match delta3.x.mul(delta2.y) {
                    Some(p2) => match p1.sub(p2) {
                        Some(cross) => match cross.abs() {
                            Some(a) => match a.div_int(2) {
                                Some(h) => Some(PiLin { units: h, pis: Frac::zero() }),
                                None => None,
                            },
                            None => None,
                        },
                        None => None,
                    },
                    None => None,
                },
                None => None,
            },
        }
    }

    pub fn centroid(&self) -> (r: Option<Point>)
        requires
            self.wf(),
        ensures
            r == self.spec_centroid(),
            r matches Some(c) ==> c.wf(),
    {
        match self.shape {
            Shape::Circle { .. } => Some(self.location),
            Shape::Rectangle { width, height } => match (width.div_int(2), height.div_int(2)) {
                (Some(wh), Some(hh)) => match (self.location.x.add(wh), self.location.y.add(hh)) {
                    (Some(cx), Some(cy)) => Some(Point { x: cx, y: cy }),
                    _ => None,
                },
                _ => None,
            },
            Shape::Triangle { delta2, delta3 } => match (
                delta2.x.add(delta3.x),
                delta2.y.add(delta3.y),
            ) {
                (Some(sx), Some(sy)) => match (sx.div_int(3), sy.div_int(3)) {
                    (Some(tx), Some(ty)) => match (
                        self.location.x.add(tx),
                        self.location.y.add(ty),
                    ) {
                        (Some(cx), Some(cy)) => Some(Point { x: cx, y: cy }),
                        _ => None,
                    },
                    _ => None,
                },
                _ => None,
            },
        }
    }
}

/// A square is never negative.
pub proof fn lemma_square_nonneg(x: int)
    ensures
        x * x >= 0,
{
    assert(x * x >= 0) by (nonlinear_arith);
}

/// Law: a rectangle's area is the absolute value of width times height.
/// Whenever the area is defined it equals `|width.num * height.num|` over
/// the product denominator, so it is never negative, and it does not depend
/// on the signs of width and height: `|(-w) * h| == |w * (-h)| == |w * h|`.
pub proof fn lemma_rect_area(location: Point, is_gap: bool, width: Frac, height: Frac)
    requires
        width.wf(),
        height.wf(),
    ensures
        ({
            let e = Entity {
                location,
                shape: Shape::Rectangle { width, height },
                is_gap,
            };
            e.spec_area() matches Some(a) ==> {
                &&& a.pis == Frac::spec_zero()
                &&& a.units.num == abs_i(width.num * height.num)
                &&& a.units.num >= 0
                &&& a.units.den == width.den * height.den
            }
        }),
        abs_i((-(width.num as int)) * height.num) == abs_i(width.num * height.num),
        abs_i(width.num * (-(height.num as int))) == abs_i(width.num * height.num),
{
    let w = width.num as int;
    let h = height.num as int;
    assert((-w) * h == -(w * h) && w * (-h) == -(w * h)) by (nonlinear_arith);
}

/// Law: a triangle's area is unchanged when the two deltas are swapped, and
/// it is zero exactly when the deltas are parallel, that is when
/// `delta2.x * delta3.y` and `delta3.x * delta2.y` denote the same rational.
pub proof fn lemma_tri_area_swap(location: Point, is_gap: bool, delta2: Point, delta3: Point)
    requires
        delta2.wf(),
        delta3.wf(),
    ensures
        ({
            let a = Entity {
                location,
                shape: Shape::Triangle { delta2, delta3 },
                is_gap,
            }.spec_area();
            let b = Entity {
                location,
                shape: Shape::Triangle { delta2: delta3, delta3: delta2 },
                is_gap,
            }.spec_area();
            &&& (a is Some <==> b is Some)
            &&& (a matches Some(av) ==> b matches Some(bv) && av.units.same_value(bv.units)
                && av.pis == bv.pis)
            &&& (a matches Some(av) ==> (av.units.num == 0 <==> delta2.x.num * delta3.y.num * (
            delta3.x.den * delta2.y.den) == delta3.x.num * delta2.y.num * (delta2.x.den
                * delta3.y.den)))
        }),
{
    let x2n = delta2.x.num as int;
    let x2d = delta2.x.den as int;
    let y2n = delta2.y.num as int;
    let y2d = delta2.y.den as int;
    let x3n = delta3.x.num as int;
    let x3d = delta3.x.den as int;
    let y3n = delta3.y.num as int;
    let y3d = delta3.y.den as int;
    assert(x2n * y3n == y3n * x2n && x3n * y2n == y2n * x3n && x2d * y3d == y3d * x2d && x3d * y2d
        == y2d * x3d && x2d * y3d * (x3d * y2d) == x3d * y2d * (x2d * y3d)) by (nonlinear_arith);
    let p1 = delta2.x.spec_mul(delta3.y);
    let p2 = delta3.x.spec_mul(delta2.y);
    if p1 is Some && p2 is Some {
        let p1v = p1.unwrap();
        let p2v = p2.unwrap();
        // the two subtraction numerators are exact negations of each other
        assert(p1v.num * p2v.den - p2v.num * p1v.den == -(p2v.num * p1v.den - p1v.num * p2v.den));
        let c1 = p1v.spec_sub(p2v);
        let c2 = p2v.spec_sub(p1v);
        assert(p1v.den * p2v.den == p2v.den * p1v.den) by (nonlinear_arith);
        if c1 is Some && c2 is Some {
            let c1v = c1.unwrap();
            let c2v = c2.unwrap();
            assert(c1v.num == -(c2v.num as int) && c1v.den == c2v.den);
            assert(abs_i(c1v.num as int) == abs_i(c2v.num as int));
            if c1v.spec_abs() is Some {
                let a1 = c1v.spec_abs().unwrap();
                let a2 = c2v.spec_abs().unwrap();
                if a1.spec_div_int(2) is Some {
                    let u1 = a1.spec_div_int(2).unwrap();
                    let u2 = a2.spec_div_int(2).unwrap();
                    assert(u1.num * u2.den == u2.num * u1.den);
                    // zero area means the cross product numerator is zero
                    assert(u1.num == 0 <==> p1v.num * p2v.den == p2v.num * p1v.den);
                    assert(p1v.num * p2v.den == x2n * y3n * (x3d * y2d) && p2v.num * p1v.den == x3n
                        * y2n * (x2d * y3d)) by (nonlinear_arith)
                        requires
                            p1v.num == x2n * y3n && p1v.den == x2d * y3d && p2v.num == x3n * y2n
                                && p2v.den == x3d * y2d,
                    ;
                }
            }
        }
    }
}

} // verus!
