//! The square as a value: four 64-bit corners and the distance that has been
//! worked out for it, if any.

use vstd::prelude::*;
use vstd::std_specs::cmp::PartialEqSpecImpl;
use vstd::string::StringExecFns;
use crate::quad::{
    gap, lemma_same_class_is_equivalence, lemma_same_class_preserves, lemma_step_respects_class,
    Quad,
};
use crate::text::{decimal, push_decimal};

verus! {

/// The `distance` of a square for which none has been worked out yet.
pub const UNRESOLVED: i64 = -1;

/// A square of the game.
///
/// Two squares are equal when their corners are the same up to the corner at
/// which the reading starts; `distance` plays no part in equality.
#[derive(Clone, Copy, Debug)]
pub struct Square {
    /// The corners, read around the square.
    pub corners: [i64; 4],
    /// The number of squares from this one to the all-zero square, both
    /// counted, or `UNRESOLVED`.
    pub distance: i64,
}

impl View for Square {
    type V = Quad;

    open spec fn view(&self) -> Quad {
        Quad {
            a: self.corners[0] as int,
            b: self.corners[1] as int,
            c: self.corners[2] as int,
            d: self.corners[3] as int,
        }
    }
}

/// The absolute difference of two corners.
fn corner_gap(x: i64, y: i64) -> (g: i64)
    requires
        gap(x as int, y as int) <= i64::MAX,
    ensures
        g == gap(x as int, y as int),
{
    if x >= y {
        x - y
    } else {
        y - x
    }
}

impl Square {
    /// No corner is negative: the squares that the game is played on.
    pub open spec fn wf(&self) -> bool {
        self@.nonneg()
    }

    /// The difference between any corner and the next fits in a corner.
    /// Every square in `wf` is such a square.
    pub open spec fn can_step(&self) -> bool {
        &&& gap(self@.a, self@.b) <= i64::MAX
        &&& gap(self@.b, self@.c) <= i64::MAX
        &&& gap(self@.c, self@.d) <= i64::MAX
        &&& gap(self@.d, self@.a) <= i64::MAX
    }

    /// The square as text: its corners in decimal, in their order, with a
    /// comma and a space between one and the next.
    pub open spec fn rendered(&self) -> Seq<char> {
        decimal(self@.a) + seq![',', ' '] + decimal(self@.b) + seq![',', ' '] + decimal(self@.c)
            + seq![',', ' '] + decimal(self@.d)
    }

    /// A square with the given corners and no distance yet.
    pub fn new(nums: [i64; 4]) -> (square: Square)
        ensures
            square.corners == nums,
            square.distance == UNRESOLVED,
    {
        Square { corners: nums, distance: UNRESOLVED }
    }

    /// The next square of the game: every corner becomes the absolute
    /// difference between itself and the corner after it, the last one the
    /// difference between itself and the first.
    pub fn iterate_square(&self) -> (next: Square)
        requires
            self.can_step(),
        ensures
            next@ == self@.step(),
            next.wf(),
            next.distance == UNRESOLVED,
    {
        let corners = &self.corners;
        Square::new(
            [
                corner_gap(corners[0], corners[1]),
                corner_gap(corners[1], corners[2]),
                corner_gap(corners[2], corners[3]),
                corner_gap(corners[3], corners[0]),
            ],
        )
    }

    /// Whether `other` is this square: the same corners, read from the same
    /// corner or from any of the other three. A square read in the opposite
    /// direction is another square.
    pub fn equals(&self, other: &Square) -> (same: bool)
        ensures
            same == self@.same_class(other@),
    {
        let p = &self.corners;
        let q = &other.corners;
        (p[0] == q[0] && p[1] == q[1] && p[2] == q[2] && p[3] == q[3])
            || (p[0] == q[1] && p[1] == q[2] && p[2] == q[3] && p[3] == q[0])
            || (p[0] == q[2] && p[1] == q[3] && p[2] == q[0] && p[3] == q[1])
            || (p[0] == q[3] && p[1] == q[0] && p[2] == q[1] && p[3] == q[2])
    }

    /// The key under which the square is filed: the sum of its corners.
    /// Equal squares have equal keys; squares with equal keys need not be
    /// equal.
    pub fn hash_key(&self) -> (key: i128)
        ensures
            key == self@.sum(),
    {
        let p = &self.corners;
        p[0] as i128 + p[1] as i128 + p[2] as i128 + p[3] as i128
    }

    /// The square as text, for showing it.
    pub fn render(&self) -> (text: String)
        ensures
            text@ == self.rendered(),
    {
        proof {
            reveal_strlit(", ");
        }
        let mut text = String::new();
        push_decimal(self.corners[0], &mut text);
        text.append(", ");
        push_decimal(self.corners[1], &mut text);
        text.append(", ");
        push_decimal(self.corners[2], &mut text);
        text.append(", ");
        push_decimal(self.corners[3], &mut text);
        text
    }
}

impl PartialEq for Square {
    fn eq(&self, other: &Square) -> (same: bool) {
        self.equals(other)
    }
}

impl Eq for Square {}

impl PartialEqSpecImpl for Square {
    open spec fn obeys_eq_spec() -> bool {
        true
    }

    open spec fn eq_spec(&self, other: &Square) -> bool {
        self@.same_class(other@)
    }
}

/// Equality of squares is reflexive, symmetric and transitive.
pub proof fn lemma_equality_is_equivalence(a: Square, b: Square, c: Square)
    ensures
        a@.same_class(a@),
        a@.same_class(b@) == b@.same_class(a@),
        a@.same_class(b@) && b@.same_class(c@) ==> a@.same_class(c@),
{
    lemma_same_class_is_equivalence(a@, b@, c@);
}

/// A square read from another corner on is the same square: each of the
/// three proper rotations of a square is equal to it, and it to them.
pub proof fn lemma_rotations_are_equal(a: Square, b: Square)
    requires
        b@ == a@.rotate() || b@ == a@.rotate().rotate() || b@ == a@.rotate().rotate().rotate(),
    ensures
        a@.same_class(b@),
        b@.same_class(a@),
{
}

/// A square read in the opposite direction is the same square only where
/// that reading happens to be a rotation too: where two opposite corners are
/// alike, or the corners are alike in neighbouring pairs.
pub proof fn lemma_reflection_is_equal_iff(a: Square, b: Square)
    requires
        b@ == a@.reflect(),
    ensures
        a@.same_class(b@) <==> {
            ||| a@.a == a@.c
            ||| a@.b == a@.d
            ||| (a@.a == a@.b && a@.c == a@.d)
            ||| (a@.a == a@.d && a@.b == a@.c)
        },
{
}

/// Equal squares have equal hash keys.
pub proof fn lemma_equal_squares_share_key(a: Square, b: Square)
    requires
        a@.same_class(b@),
    ensures
        a@.sum() == b@.sum(),
{
    lemma_same_class_preserves(a@, b@);
}

/// The step is a function of the square: from equal squares it leads to
/// equal squares.
pub proof fn lemma_step_of_equal_squares(a: Square, b: Square)
    requires
        a@.same_class(b@),
    ensures
        a@.step().same_class(b@.step()),
{
    lemma_step_respects_class(a@, b@);
}

} // verus!
