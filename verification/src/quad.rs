//! The mathematical model of a square: four unbounded integers, read around
//! the square in a fixed direction.

use vstd::prelude::*;

verus! {

/// Absolute difference of two integers.
pub open spec fn gap(x: int, y: int) -> int {
    if x >= y {
        x - y
    } else {
        y - x
    }
}

/// The corners of a square, in the order in which they are read.
pub struct Quad {
    pub a: int,
    pub b: int,
    pub c: int,
    pub d: int,
}

impl Quad {
    /// The same square read from the next corner on.
    pub open spec fn rotate(self) -> Quad {
        Quad { a: self.b, b: self.c, c: self.d, d: self.a }
    }

    /// The same square read in the opposite direction.
    pub open spec fn reflect(self) -> Quad {
        Quad { a: self.d, b: self.c, c: self.b, d: self.a }
    }

    /// Two readings are of one square when one is the other started at some
    /// corner: the reading itself or one of its three proper rotations.
    /// Reading in the opposite direction gives a different square.
    pub open spec fn same_class(self, other: Quad) -> bool {
        ||| self == other
        ||| self == other.rotate()
        ||| self == other.rotate().rotate()
        ||| self == other.rotate().rotate().rotate()
    }

    /// Sum of the four corners.
    pub open spec fn sum(self) -> int {
        self.a + self.b + self.c + self.d
    }

    /// The next square of the game: every corner becomes the absolute
    /// difference between itself and the corner after it.
    pub open spec fn step(self) -> Quad {
        Quad {
            a: gap(self.a, self.b),
            b: gap(self.b, self.c),
            c: gap(self.c, self.d),
            d: gap(self.d, self.a),
        }
    }

    /// The square on which the game ends.
    pub open spec fn zero() -> Quad {
        Quad { a: 0, b: 0, c: 0, d: 0 }
    }

    pub open spec fn is_zero(self) -> bool {
        self == Quad::zero()
    }

    /// No corner is negative.
    pub open spec fn nonneg(self) -> bool {
        self.a >= 0 && self.b >= 0 && self.c >= 0 && self.d >= 0
    }

    /// The largest corner.
    pub open spec fn peak(self) -> int {
        let ab = if self.a >= self.b { self.a } else { self.b };
        let cd = if self.c >= self.d { self.c } else { self.d };
        if ab >= cd { ab } else { cd }
    }
}

/// Being readings of one square is an equivalence relation.
pub proof fn lemma_same_class_is_equivalence(p: Quad, q: Quad, r: Quad)
    ensures
        p.same_class(p),
        p.same_class(q) == q.same_class(p),
        p.same_class(q) && q.same_class(r) ==> p.same_class(r),
{
}

/// Rotating a reading changes neither its sum, nor whether it is all zero or
/// free of negative corners, nor its largest corner.
pub proof fn lemma_same_class_preserves(p: Quad, q: Quad)
    requires
        p.same_class(q),
    ensures
        p.sum() == q.sum(),
        p.is_zero() == q.is_zero(),
        p.nonneg() == q.nonneg(),
        p.peak() == q.peak(),
{
}

/// The game does not care where the reading starts.
pub proof fn lemma_step_respects_class(p: Quad, q: Quad)
    requires
        p.same_class(q),
    ensures
        p.step().same_class(q.step()),
{
}

} // verus!
