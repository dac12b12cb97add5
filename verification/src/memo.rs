//! The table of solved squares.
//!
//! A square is filed under the sum of its corners and found again by
//! comparing it with the squares filed under the same sum: many different
//! squares share a sum, so the sum only narrows the search.

use std::collections::HashMap;
use vstd::prelude::*;
use crate::game::{distance, lemma_distance_respects_class, lemma_distance_unfold};
use crate::quad::Quad;
use crate::square::Square;

verus! {

/// `known` with every reading of `q` set to `d`.
pub open spec fn with_class(known: Map<Quad, int>, q: Quad, d: int) -> Map<Quad, int> {
    Map::new(
        |p: Quad| known.contains_key(p) || p.same_class(q),
        |p: Quad|
            if p.same_class(q) {
                d
            } else {
                known[p]
            },
    )
}

/// Where in `bucket` the first reading of `square` stands, if there is one.
fn position(bucket: &Vec<Square>, square: &Square) -> (place: Option<usize>)
    ensures
        match place {
            Some(i) => {
                &&& i < bucket.len()
                &&& bucket[i as int]@.same_class(square@)
                &&& forall|j: int| 0 <= j < i ==> !(#[trigger] bucket[j])@.same_class(square@)
            },
            None => forall|j: int|
                0 <= j < bucket.len() ==> !(#[trigger] bucket[j])@.same_class(square@),
        },
{
    let mut i: usize = 0;
    while i < bucket.len()
        invariant
            i <= bucket.len(),
            forall|j: int| 0 <= j < i ==> !(#[trigger] bucket[j])@.same_class(square@),
        decreases bucket.len() - i,
    {
        if bucket[i].equals(square) {
            return Some(i);
        }
        i += 1;
    }
    None
}

/// The squares whose distance is known.
pub struct Memo {
    buckets: HashMap<i128, Vec<Square>>,
}

impl View for Memo {
    type V = Map<Quad, int>;

    /// The distance stored for every reading of every square in the table.
    closed spec fn view(&self) -> Map<Quad, int> {
        Map::new(|q: Quad| self.holds(q), |q: Quad| self.stored(q))
    }
}

impl Memo {
    /// The squares filed under `key`.
    spec fn bucket(&self, key: i128) -> Seq<Square> {
        if self.buckets@.contains_key(key) {
            self.buckets@[key]@
        } else {
            Seq::empty()
        }
    }

    /// The square filed under `key` at place `i` is a reading of `q`.
    spec fn holds_at(&self, q: Quad, key: i128, i: int) -> bool {
        0 <= i < self.bucket(key).len() && self.bucket(key)[i]@.same_class(q)
    }

    /// Some square in the table is a reading of `q`.
    spec fn holds(&self, q: Quad) -> bool {
        exists|key: i128, i: int| self.holds_at(q, key, i)
    }

    /// The distance of a square in the table that is a reading of `q`.
    spec fn stored(&self, q: Quad) -> int {
        let (key, i) = choose|key: i128, i: int| self.holds_at(q, key, i);
        self.bucket(key)[i].distance as int
    }

    /// Every square in the table is filed under its sum, has no negative
    /// corner and carries its true distance.
    pub closed spec fn filed(&self) -> bool {
        forall|key: i128, i: int|
            0 <= i < self.bucket(key).len() ==> {
                let e = #[trigger] self.bucket(key)[i];
                &&& e@.sum() == key
                &&& e.wf()
                &&& e.distance == distance(e@)
            }
    }

    /// The table is in order: it knows the all-zero square, it knows a square
    /// by every reading or by none, and every distance in it is the true one.
    pub open spec fn wf(&self) -> bool {
        &&& self.filed()
        &&& self@.contains_key(Quad::zero())
        &&& forall|p: Quad, q: Quad|
            self@.contains_key(p) && #[trigger] p.same_class(q) ==> self@.contains_key(q)
        &&& forall|q: Quad| #[trigger]
            self@.contains_key(q) ==> q.nonneg() && self@[q] == distance(q)
    }

    /// What `filed` means for the view.
    proof fn lemma_filed_view(&self)
        requires
            self.filed(),
        ensures
            forall|p: Quad, q: Quad|
                self@.contains_key(p) && #[trigger] p.same_class(q) ==> self@.contains_key(q),
            forall|q: Quad| #[trigger]
                self@.contains_key(q) ==> q.nonneg() && self@[q] == distance(q),
    {
        assert forall|p: Quad, q: Quad|
            self@.contains_key(p) && #[trigger] p.same_class(q) implies self@.contains_key(
            q,
        ) by {
            let (key, i) = choose|key: i128, i: int| self.holds_at(p, key, i);
            assert(self.holds_at(q, key, i));
        }
        assert forall|q: Quad| #[trigger] self@.contains_key(q) implies q.nonneg() && self@[q]
            == distance(q) by {
            let (key, i) = choose|key: i128, i: int| self.holds_at(q, key, i);
            let e = self.bucket(key)[i];
            lemma_distance_respects_class(e@, q);
        }
    }

    /// A table that knows the all-zero square, at distance 1, and nothing
    /// else.
    pub fn new() -> (memo: Memo)
        ensures
            memo.wf(),
            memo@ == with_class(Map::<Quad, int>::empty(), Quad::zero(), 1),
    {
        let mut base = Square::new([0, 0, 0, 0]);
        base.distance = 1;
        let mut bucket: Vec<Square> = Vec::new();
        bucket.push(base);
        let mut buckets: HashMap<i128, Vec<Square>> = HashMap::new();
        buckets.insert(0, bucket);
        let memo = Memo { buckets };
        proof {
            lemma_distance_unfold(base@);
            assert(memo.holds_at(Quad::zero(), 0, 0));
        }
        memo
    }

    /// The stored distance of `square`, if the table knows the square by any
    /// reading.
    pub fn get(&self, square: &Square) -> (found: Option<i64>)
        requires
            self.wf(),
        ensures
            found is Some <==> self@.contains_key(square@),
            found is Some ==> found->0 == self@[square@],
    {
        let key = square.hash_key();
        match self.buckets.get(&key) {
            None => None,
            Some(bucket) => match position(bucket, square) {
                None => None,
                Some(place) => {
                    proof {
                        assert(self.holds_at(square@, key, place as int));
                        lemma_distance_respects_class(bucket[place as int]@, square@);
                    }
                    Some(bucket[place].distance)
                },
            },
        }
    }

    /// Files `square` with its distance, unless the table already knows the
    /// square by some reading: then the table stays as it is. Says whether
    /// the square was filed.
    pub fn insert(&mut self, square: Square) -> (added: bool)
        requires
            old(self).wf(),
            square.wf(),
            square.distance == distance(square@),
        ensures
            final(self).wf(),
            added == !old(self)@.contains_key(square@),
            added ==> final(self)@ == with_class(old(self)@, square@, square.distance as int),
            !added ==> final(self)@ == old(self)@,
    {
        if self.get(&square).is_some() {
            return false;
        }
        let key = square.hash_key();
        let mut bucket = match self.buckets.remove(&key) {
            Some(bucket) => bucket,
            None => Vec::new(),
        };
        bucket.push(square);
        self.buckets.insert(key, bucket);
        proof {
            let before = *old(self);
            let now = *self;
            assert forall|k: i128| k != key implies now.bucket(k) == before.bucket(k) by {}
            assert(now.filed()) by {
                assert forall|k: i128, i: int| 0 <= i < now.bucket(k).len() implies {
                    let e = #[trigger] now.bucket(k)[i];
                    &&& e@.sum() == k
                    &&& e.wf()
                    &&& e.distance == distance(e@)
                } by {}
            }
            now.lemma_filed_view();
            assert forall|q: Quad| now.holds(q) == (before.holds(q) || q.same_class(square@)) by {
                if now.holds(q) {
                    let (k, i) = choose|k: i128, i: int| now.holds_at(q, k, i);
                    if k != key || i != before.bucket(key).len() {
                        assert(before.holds_at(q, k, i));
                    }
                }
                if before.holds(q) {
                    let (k, i) = choose|k: i128, i: int| before.holds_at(q, k, i);
                    assert(now.holds_at(q, k, i));
                }
                if q.same_class(square@) {
                    assert(now.holds_at(q, key, before.bucket(key).len() as int));
                }
            }
            assert forall|q: Quad| q.same_class(square@) implies distance(q) == square.distance by {
                lemma_distance_respects_class(square@, q);
            }
        }
        true
    }
}

} // verus!
