//! The game as mathematics: repeated steps, the proof that every square
//! without negative corners reaches the all-zero square, and the distance
//! that this gives every such square.

use vstd::prelude::*;
use crate::quad::{gap, Quad};

verus! {

/// The square that stands after `n` steps from `q`.
pub open spec fn after(q: Quad, n: nat) -> Quad
    decreases n,
{
    if n == 0 {
        q
    } else {
        after(q.step(), (n - 1) as nat)
    }
}

/// The all-zero square stands after `n` steps from `q`, and after no fewer.
pub open spec fn first_zero_at(q: Quad, n: nat) -> bool {
    &&& after(q, n).is_zero()
    &&& forall|m: nat| m < n ==> !(#[trigger] after(q, m)).is_zero()
}

/// The number of steps from `q` to the all-zero square. It means something
/// only for a square that reaches it, as every square in `nonneg` does.
pub open spec fn steps_to_zero(q: Quad) -> nat {
    choose|n: nat| first_zero_at(q, n)
}

/// The number of squares on the way from `q` to the all-zero square, both
/// counted: the all-zero square has distance 1.
pub open spec fn distance(q: Quad) -> nat {
    steps_to_zero(q) + 1
}

/// How often `m` can be halved, rounding down, before it is zero.
pub open spec fn halvings(m: int) -> nat
    decreases m,
{
    if m <= 0 {
        0
    } else {
        1 + halvings(m / 2)
    }
}

/// A number of steps within which `q` is sure to have reached zero: four for
/// every halving of its largest corner.
pub open spec fn step_bound(q: Quad) -> nat {
    4 * halvings(q.peak())
}

/// The largest distance that a square of 64-bit corners, none negative, can
/// have: four steps for each of the 63 bits of a corner, and one.
pub const MAX_DISTANCE: i64 = 253;

impl Quad {
    /// Every corner doubled.
    spec fn double(self) -> Quad {
        Quad { a: 2 * self.a, b: 2 * self.b, c: 2 * self.c, d: 2 * self.d }
    }

    /// Every corner halved, rounding down.
    spec fn half(self) -> Quad {
        Quad { a: self.a / 2, b: self.b / 2, c: self.c / 2, d: self.d / 2 }
    }

    /// Every corner is even.
    spec fn even(self) -> bool {
        self.a % 2 == 0 && self.b % 2 == 0 && self.c % 2 == 0 && self.d % 2 == 0
    }
}

/// A step leaves no negative corner, and from a square without negative
/// corners it does not raise the largest corner.
pub proof fn lemma_step_bounds(q: Quad)
    ensures
        q.step().nonneg(),
        q.nonneg() ==> q.step().peak() <= q.peak(),
{
}

/// The same for any number of steps.
pub proof fn lemma_after_bounds(q: Quad, n: nat)
    requires
        q.nonneg(),
    ensures
        after(q, n).nonneg(),
        after(q, n).peak() <= q.peak(),
    decreases n,
{
    if n > 0 {
        lemma_step_bounds(q);
        lemma_after_bounds(q.step(), (n - 1) as nat);
    }
}

/// Steps compose.
pub proof fn lemma_after_add(q: Quad, m: nat, n: nat)
    ensures
        after(q, m + n) == after(after(q, m), n),
    decreases m,
{
    if m > 0 {
        lemma_after_add(q.step(), (m - 1) as nat, n);
    }
}

/// The all-zero square never changes.
proof fn lemma_zero_stays(n: nat)
    ensures
        after(Quad::zero(), n).is_zero(),
    decreases n,
{
    if n > 0 {
        lemma_zero_stays((n - 1) as nat);
    }
}

/// Once at zero, always at zero.
pub proof fn lemma_zero_persists(q: Quad, n: nat, m: nat)
    requires
        after(q, n).is_zero(),
        n <= m,
    ensures
        after(q, m).is_zero(),
{
    lemma_after_add(q, n, (m - n) as nat);
    lemma_zero_stays((m - n) as nat);
}

/// Steps do not depend on where the reading starts.
pub proof fn lemma_after_respects_class(p: Quad, q: Quad, n: nat)
    requires
        p.same_class(q),
    ensures
        after(p, n).same_class(after(q, n)),
    decreases n,
{
    if n > 0 {
        crate::quad::lemma_step_respects_class(p, q);
        lemma_after_respects_class(p.step(), q.step(), (n - 1) as nat);
    }
}

/// `x` is odd. Kept opaque so that the steps below are argued over truth
/// values, not over remainders.
#[verifier::opaque]
spec fn odd(x: int) -> bool {
    x % 2 != 0
}

/// A difference is odd exactly when one of the two numbers is.
proof fn lemma_gap_odd(x: int, y: int)
    ensures
        odd(gap(x, y)) == (odd(x) != odd(y)),
{
    reveal(odd);
}

/// After a step a corner is odd exactly when one of the two corners that it
/// came from was.
proof fn lemma_step_odd(q: Quad)
    ensures
        odd(q.step().a) == (odd(q.a) != odd(q.b)),
        odd(q.step().b) == (odd(q.b) != odd(q.c)),
        odd(q.step().c) == (odd(q.c) != odd(q.d)),
        odd(q.step().d) == (odd(q.d) != odd(q.a)),
{
    lemma_gap_odd(q.a, q.b);
    lemma_gap_odd(q.b, q.c);
    lemma_gap_odd(q.c, q.d);
    lemma_gap_odd(q.d, q.a);
}

/// After four steps every corner is even.
proof fn lemma_four_steps_even(q: Quad)
    ensures
        after(q, 4).even(),
{
    let q1 = q.step();
    let q2 = q1.step();
    let q3 = q2.step();
    let q4 = q3.step();
    assert(after(q, 4) == q4) by {
        reveal_with_fuel(after, 5);
    }
    assert(!odd(q4.a) && !odd(q4.b) && !odd(q4.c) && !odd(q4.d)) by {
        lemma_step_odd(q);
        lemma_step_odd(q1);
        lemma_step_odd(q2);
        lemma_step_odd(q3);
    }
    assert(q4.even()) by {
        reveal(odd);
    }
}

/// Doubling a square doubles every square that follows it.
proof fn lemma_after_double(h: Quad, n: nat)
    ensures
        after(h.double(), n) == after(h, n).double(),
    decreases n,
{
    if n > 0 {
        assert(h.double().step() == h.step().double());
        lemma_after_double(h.step(), (n - 1) as nat);
    }
}

/// A smaller number is halved no more often.
proof fn lemma_halvings_monotonic(m: int, n: int)
    requires
        m <= n,
    ensures
        halvings(m) <= halvings(n),
    decreases n,
{
    if m > 0 {
        lemma_halvings_monotonic(m / 2, n / 2);
    }
}

/// Every square without negative corners reaches the all-zero square, within
/// four steps for every halving of its largest corner.
pub proof fn lemma_reaches_zero(q: Quad)
    requires
        q.nonneg(),
    ensures
        after(q, step_bound(q)).is_zero(),
    decreases q.peak(),
{
    if q.peak() > 0 {
        let r = after(q, 4);
        let h = r.half();
        let rest = 4 * halvings(q.peak() / 2);
        lemma_after_bounds(q, 4);
        lemma_four_steps_even(q);
        assert(h.double() == r);
        assert(h.nonneg());
        assert(h.peak() <= q.peak() / 2);
        lemma_reaches_zero(h);
        lemma_halvings_monotonic(h.peak(), q.peak() / 2);
        lemma_zero_persists(h, step_bound(h), rest);
        lemma_after_double(h, rest);
        lemma_after_add(q, 4, rest);
    }
}

/// Below a step at which the square is zero lies the first such step.
proof fn lemma_first_zero_below(q: Quad, n: nat) -> (k: nat)
    requires
        after(q, n).is_zero(),
    ensures
        k <= n,
        first_zero_at(q, k),
    decreases n,
{
    if forall|m: nat| m < n ==> !(#[trigger] after(q, m)).is_zero() {
        n
    } else {
        let m = choose|m: nat| m < n && (#[trigger] after(q, m)).is_zero();
        lemma_first_zero_below(q, m)
    }
}

/// Only one step can be the first at which the square is zero.
pub proof fn lemma_first_zero_unique(q: Quad, n1: nat, n2: nat)
    requires
        first_zero_at(q, n1),
        first_zero_at(q, n2),
    ensures
        n1 == n2,
{
    if n1 < n2 {
        assert(!after(q, n1).is_zero());
    } else if n2 < n1 {
        assert(!after(q, n2).is_zero());
    }
}

/// For a square without negative corners `steps_to_zero` is what its name
/// says, and it is within `step_bound`.
pub proof fn lemma_steps_to_zero(q: Quad)
    requires
        q.nonneg(),
    ensures
        first_zero_at(q, steps_to_zero(q)),
        steps_to_zero(q) <= step_bound(q),
{
    lemma_reaches_zero(q);
    let k = lemma_first_zero_below(q, step_bound(q));
    lemma_first_zero_unique(q, k, steps_to_zero(q));
}

/// The distance, step by step: 1 for the all-zero square, and for every other
/// square one more than for the square that follows it.
pub proof fn lemma_distance_unfold(q: Quad)
    requires
        q.nonneg(),
    ensures
        q.is_zero() ==> distance(q) == 1,
        !q.is_zero() ==> distance(q) == 1 + distance(q.step()),
{
    lemma_steps_to_zero(q);
    let n = steps_to_zero(q);
    if q.is_zero() {
        lemma_first_zero_unique(q, 0, n);
    } else {
        lemma_step_bounds(q);
        lemma_steps_to_zero(q.step());
        assert(n > 0);
        let k = (n - 1) as nat;
        assert(first_zero_at(q.step(), k)) by {
            assert forall|m: nat| m < k implies !(#[trigger] after(q.step(), m)).is_zero() by {
                assert(after(q, m + 1) == after(q.step(), m));
            }
        }
        lemma_first_zero_unique(q.step(), k, steps_to_zero(q.step()));
    }
}

/// Readings of one square have one distance.
pub proof fn lemma_distance_respects_class(p: Quad, q: Quad)
    requires
        p.same_class(q),
        p.nonneg(),
    ensures
        distance(p) == distance(q),
{
    crate::quad::lemma_same_class_preserves(p, q);
    lemma_steps_to_zero(p);
    lemma_steps_to_zero(q);
    let n = steps_to_zero(p);
    assert(first_zero_at(q, n)) by {
        lemma_after_respects_class(p, q, n);
        crate::quad::lemma_same_class_preserves(after(p, n), after(q, n));
        assert forall|m: nat| m < n implies !(#[trigger] after(q, m)).is_zero() by {
            lemma_after_respects_class(p, q, m);
            crate::quad::lemma_same_class_preserves(after(p, m), after(q, m));
        }
    }
    lemma_first_zero_unique(q, n, steps_to_zero(q));
}

/// A number below two to the `k` is halved at most `k` times.
proof fn lemma_halvings_below_pow2(m: int, k: nat)
    requires
        m < vstd::arithmetic::power2::pow2(k),
    ensures
        halvings(m) <= k,
    decreases k,
{
    vstd::arithmetic::power2::lemma_pow2_pos(k);
    if m > 0 {
        if k == 0 {
            vstd::arithmetic::power2::lemma2_to64();
        } else {
            vstd::arithmetic::power2::lemma_pow2_unfold(k);
            lemma_halvings_below_pow2(m / 2, (k - 1) as nat);
        }
    }
}

/// A square of 64-bit corners, none negative, has a distance of at most
/// `MAX_DISTANCE`.
pub proof fn lemma_distance_bound(q: Quad)
    requires
        q.nonneg(),
        q.peak() <= i64::MAX,
    ensures
        1 <= distance(q) <= MAX_DISTANCE,
{
    lemma_steps_to_zero(q);
    vstd::arithmetic::power2::lemma2_to64_rest();
    lemma_halvings_below_pow2(q.peak(), 63);
}

} // verus!
