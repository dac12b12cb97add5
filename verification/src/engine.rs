//! Working out the distance of a square, with the table of solved squares.

use vstd::prelude::*;
use crate::game::{
    after, distance, lemma_distance_bound, lemma_distance_unfold, steps_to_zero, MAX_DISTANCE,
};
use crate::memo::Memo;
use crate::quad::Quad;
use crate::square::{Square, UNRESOLVED};

verus! {

/// `visited` is the walk from `start` through a table that knows `known`:
/// `start` itself and then the squares of the game that follow it, one step
/// apart and none with a distance yet, up to the first square that the table
/// knows, which is the last of the walk.
pub open spec fn is_walk(visited: Seq<Square>, start: Square, known: Map<Quad, int>) -> bool {
    &&& visited.len() >= 1
    &&& visited[0] == start
    &&& forall|i: int|
        1 <= i < visited.len() ==> {
            &&& (#[trigger] visited[i])@ == after(start@, i as nat)
            &&& visited[i].distance == UNRESOLVED
        }
    &&& forall|i: int| 0 <= i < visited.len() - 1 ==> !known.contains_key((#[trigger] visited[i])@)
    &&& known.contains_key(visited.last()@)
}

/// `q` is a reading of one of the squares of `visited` before the last.
pub open spec fn on_walk(visited: Seq<Square>, q: Quad) -> bool {
    exists|i: int| 0 <= i < visited.len() - 1 && (#[trigger] visited[i])@.same_class(q)
}

/// The distance of `square`: the number of squares from it to the all-zero
/// square, both counted.
///
/// The walk starts at `square` and goes on, step by step, until it comes to
/// a square that `memo` knows. Every square that it comes to is appended to
/// `trace`, in that order; every one before the last is then filed in `memo`
/// with its distance. So `memo` knows `square` afterwards, and a second walk
/// from any reading of it ends where it starts.
///
/// The walk is made by recursion, which is never deeper than `MAX_DISTANCE`.
pub fn resolve(square: Square, memo: &mut Memo, trace: &mut Vec<Square>) -> (found: i64)
    requires
        square.wf(),
        old(memo).wf(),
    ensures
        found == distance(square@),
        1 <= found <= MAX_DISTANCE,
        final(memo).wf(),
        final(memo)@.contains_key(square@),
        forall|q: Quad|
            final(memo)@.contains_key(q) <==> old(memo)@.contains_key(q) || on_walk(
                final(trace)@.skip(old(trace)@.len() as int),
                q,
            ),
        old(trace)@.is_prefix_of(final(trace)@),
        is_walk(final(trace)@.skip(old(trace)@.len() as int), square, old(memo)@),
        old(memo)@.contains_key(square@) ==> final(memo)@ == old(memo)@ && final(trace)@ == old(
            trace,
        )@.push(square),
    decreases steps_to_zero(square@),
{
    let ghost before = old(trace)@;
    let ghost known = old(memo)@;
    proof {
        lemma_distance_bound(square@);
    }
    trace.push(square);
    if let Some(found) = memo.get(&square) {
        return found;
    }
    proof {
        lemma_distance_unfold(square@);
    }
    let next = square.iterate_square();
    let ghost middle = trace@;
    let rest = resolve(next, memo, trace);
    let found = 1 + rest;
    let mut solved = square;
    solved.distance = found;
    memo.insert(solved);
    proof {
        let walk = trace@.skip(before.len() as int);
        let tail = trace@.skip(middle.len() as int);
        assert(walk[0] == square) by {
            assert(middle[before.len() as int] == square);
        }
        assert forall|i: int| 1 <= i < walk.len() implies walk[i] == tail[i - 1] by {}
        assert(is_walk(walk, square, known)) by {
            assert forall|i: int| 1 <= i < walk.len() implies {
                &&& (#[trigger] walk[i])@ == after(square@, i as nat)
                &&& walk[i].distance == UNRESOLVED
            } by {
                assert(after(next@, 0) == next@);
            }
            assert forall|i: int| 0 <= i < walk.len() - 1 implies !known.contains_key(
                (#[trigger] walk[i])@,
            ) by {}
        }
        assert forall|q: Quad|
            memo@.contains_key(q) <==> known.contains_key(q) || on_walk(walk, q) by {
            if on_walk(tail, q) {
                let i = choose|i: int|
                    0 <= i < tail.len() - 1 && (#[trigger] tail[i])@.same_class(q);
                assert(walk[i + 1]@.same_class(q));
            }
        }
    }
    found
}

} // verus!
