//! Surfaces, and what a ray finds on them.
//!
//! A ray parameter is a scalar whose order is the order of the points
//! along the ray: of two hits, the one with the smaller parameter is the
//! nearer. Nothing else is asked of it here.

use vstd::prelude::*;
use crate::interval::Interval;

verus! {

/// A hit: the ray parameter at which it happens, and the number of the
/// surface that was hit, by which its owner finds it again.
#[derive(Clone, Copy, Debug, PartialEq, Eq, Structural)]
pub struct HitRecord {
    pub t: i128,
    pub surface: usize,
}

/// The sign bit of a 64-bit pattern in sign-and-magnitude form.
pub const SIGN_BIT: u64 = 0x8000_0000_0000_0000;

/// The scalar that stands for a number given by its 64 bits in
/// sign-and-magnitude form, as the binary interchange formats for real
/// numbers have it: the top bit is the sign, and among numbers of one
/// sign a greater pattern is a greater magnitude. A pattern without the
/// sign bit stands for itself, and one with it for the opposite of its
/// magnitude, less one.
pub open spec fn key_of(bits: u64) -> int {
    if bits < SIGN_BIT {
        bits as int
    } else {
        -1 - (bits - SIGN_BIT)
    }
}

/// The ray parameter, as a scalar, of a number given by its bits.
pub fn key_of_bits(bits: u64) -> (key: i128)
    ensures
        key == key_of(bits),
{
    if bits < SIGN_BIT {
        bits as i128
    } else {
        -1 - (bits - SIGN_BIT) as i128
    }
}

/// The bits of the number that a scalar stands for.
pub fn bits_of_key(key: i128) -> (bits: u64)
    requires
        -(SIGN_BIT as int) <= key < SIGN_BIT,
    ensures
        key_of(bits) == key,
{
    if key >= 0 {
        key as u64
    } else {
        (-1 - key) as u64 + SIGN_BIT
    }
}

/// Scalars keep the order of the numbers they stand for: without the sign
/// bit a scalar grows with the magnitude, with it a scalar falls as the
/// magnitude grows, and every negative number is below every positive
/// one. No two patterns share a scalar, and every scalar lies in the
/// range that [`bits_of_key`] accepts.
pub proof fn lemma_key_keeps_order(a: u64, b: u64)
    ensures
        a < b < SIGN_BIT ==> key_of(a) < key_of(b),
        SIGN_BIT <= a < b ==> key_of(a) > key_of(b),
        a >= SIGN_BIT && b < SIGN_BIT ==> key_of(a) < key_of(b),
        key_of(a) == key_of(b) ==> a == b,
        -(SIGN_BIT as int) <= key_of(a) < SIGN_BIT,
{
}

/// Something a ray can hit. `R` is the ray as the surface wants it.
pub trait Hittable<R> {
    /// The answer of [`Hittable::hit`]: a surface answers the same
    /// question the same way each time.
    spec fn hit_at(&self, r: &R, time: &Interval) -> Option<i128>;

    /// Determines whether the ray meets the surface at a parameter that
    /// `time` surrounds, and if so, at which.
    fn hit(&self, r: &R, time: &Interval) -> (t: Option<i128>)
        ensures
            t == self.hit_at(r, time),
    ;
}

/// The first of the candidates `near` and `far` that `time` surrounds.
pub open spec fn first_surrounded(time: Interval, near: i128, far: i128) -> Option<i128> {
    if time@.surrounds(near as int) {
        Some(near)
    } else if time@.surrounds(far as int) {
        Some(far)
    } else {
        None
    }
}

/// Picks the parameter of a hit from the two at which a ray crosses a
/// closed surface: the nearer one if it counts, else the farther one if
/// that counts, else none.
pub fn first_root(time: &Interval, near: i128, far: i128) -> (root: Option<i128>)
    ensures
        root == first_surrounded(*time, near, far),
{
    if time.surrounds(near) {
        Some(near)
    } else if time.surrounds(far) {
        Some(far)
    } else {
        None
    }
}

/// The root picked is one of the two candidates and lies strictly inside
/// the window, so never at the lower bound itself; the farther candidate
/// is picked only where the nearer one does not count; and none is picked
/// only where neither counts.
pub proof fn lemma_first_root_laws(time: Interval, near: i128, far: i128)
    ensures
        first_surrounded(time, near, far) matches Some(t) ==> (t == near || t == far)
            && time@.surrounds(t as int),
        time@.surrounds(near as int) ==> first_surrounded(time, near, far) == Some(near),
        first_surrounded(time, near, far) is None <==> !time@.surrounds(near as int)
            && !time@.surrounds(far as int),
{
}

/// Lowering the upper bound of the window changes the root picked in one
/// way only: a root at or beyond the new bound is dropped. A scene may
/// therefore shrink the window to the nearest hit so far, or ask every
/// surface with the same window and keep the least: the outcome is the
/// same.
pub proof fn lemma_narrowing_drops_far_roots(
    time: Interval,
    narrowed: Interval,
    near: i128,
    far: i128,
)
    requires
        near <= far,
        narrowed@.min == time@.min,
        narrowed@.max <= time@.max,
    ensures
        first_surrounded(narrowed, near, far) == (match first_surrounded(time, near, far) {
            Some(t) => if t < narrowed@.max {
                Some(t)
            } else {
                None
            },
            None => None,
        }),
{
}

/// The nearer of the nearest hit so far and the answer of one more
/// surface. Of two equally near hits the earlier one stays.
pub open spec fn closer_of(closest: Option<HitRecord>, surface: usize, answer: Option<i128>)
    -> Option<HitRecord> {
    match (closest, answer) {
        (_, None) => closest,
        (None, Some(t)) => Some(HitRecord { t, surface }),
        (Some(c), Some(t)) => if t < c.t {
            Some(HitRecord { t, surface })
        } else {
            closest
        },
    }
}

/// Folds the answer of surface number `surface` into the nearest hit so
/// far.
pub fn closer(closest: Option<HitRecord>, surface: usize, answer: Option<i128>) -> (best: Option<
    HitRecord,
>)
    ensures
        best == closer_of(closest, surface, answer),
{
    match answer {
        Some(t) => match closest {
            Some(c) => {
                if t < c.t {
                    Some(HitRecord { t, surface })
                } else {
                    closest
                }
            },
            None => Some(HitRecord { t, surface }),
        },
        None => closest,
    }
}

/// Whether `nearest` is the nearest hit among the answers of a row of
/// surfaces: no hit if none was hit, else the first of the hits with the
/// least parameter.
pub open spec fn is_nearest(answers: Seq<Option<i128>>, nearest: Option<HitRecord>) -> bool {
    match nearest {
        None => forall|i: int| 0 <= i < answers.len() ==> answers[i] is None,
        Some(record) => {
            &&& record.surface < answers.len()
            &&& answers[record.surface as int] == Some(record.t)
            &&& forall|i: int|
                0 <= i < answers.len() ==> (#[trigger] answers[i] matches Some(t) ==> record.t <= t)
            &&& forall|i: int|
                0 <= i < record.surface ==> (#[trigger] answers[i] matches Some(t) ==> record.t
                    < t)
        },
    }
}

/// There is only one nearest hit.
pub proof fn lemma_nearest_is_unique(
    answers: Seq<Option<i128>>,
    one: Option<HitRecord>,
    other: Option<HitRecord>,
)
    requires
        is_nearest(answers, one),
        is_nearest(answers, other),
    ensures
        one == other,
{
    match (one, other) {
        (Some(a), Some(b)) => {
            assert(answers[a.surface as int] is Some);
            assert(answers[b.surface as int] is Some);
            if a.surface < b.surface {
                assert(b.t < a.t);
            } else if b.surface < a.surface {
                assert(a.t < b.t);
            }
        },
        (Some(a), None) => {
            assert(answers[a.surface as int] is Some);
        },
        (None, Some(b)) => {
            assert(answers[b.surface as int] is Some);
        },
        (None, None) => {},
    }
}

/// Folding one more answer in keeps the nearest hit the nearest.
pub proof fn lemma_closer_keeps_nearest(
    answers: Seq<Option<i128>>,
    closest: Option<HitRecord>,
    answer: Option<i128>,
)
    requires
        is_nearest(answers, closest),
        answers.len() <= usize::MAX,
    ensures
        is_nearest(answers.push(answer), closer_of(closest, answers.len() as usize, answer)),
{
    let all = answers.push(answer);
    let best = closer_of(closest, answers.len() as usize, answer);
    assert forall|i: int| 0 <= i < answers.len() implies all[i] == answers[i] by {}
    assert(all[answers.len() as int] == answer);
    match best {
        None => {
            assert forall|i: int| 0 <= i < all.len() implies all[i] is None by {
                if i < answers.len() {
                    assert(all[i] == answers[i]);
                }
            }
        },
        Some(record) => {
            assert forall|i: int| 0 <= i < all.len() implies (#[trigger] all[i] matches Some(t)
                ==> record.t <= t) by {
                if i < answers.len() {
                    assert(all[i] == answers[i]);
                }
            }
            assert forall|i: int| 0 <= i < record.surface implies (#[trigger] all[i] matches Some(
                t,
            ) ==> record.t < t) by {
                if i < answers.len() {
                    assert(all[i] == answers[i]);
                }
            }
        },
    }
}

/// Where every surface answers within the window, so does the scene.
pub proof fn lemma_nearest_within_window(
    answers: Seq<Option<i128>>,
    nearest: Option<HitRecord>,
    time: Interval,
)
    requires
        is_nearest(answers, nearest),
        forall|i: int|
            0 <= i < answers.len() ==> (#[trigger] answers[i] matches Some(t) ==> time@.surrounds(
                t as int,
            )),
    ensures
        nearest matches Some(record) ==> time@.surrounds(record.t as int),
{
    if let Some(record) = nearest {
        assert(answers[record.surface as int] is Some);
    }
}

/// Where there is nothing to hit, nothing is hit.
pub proof fn lemma_nothing_to_hit(nearest: Option<HitRecord>)
    requires
        is_nearest(Seq::<Option<i128>>::empty(), nearest),
    ensures
        nearest is None,
{
}

/// The parameter of the nearest hit does not depend on the order in which
/// the surfaces are asked: it is the same for any rearrangement of their
/// answers.
pub proof fn lemma_nearest_ignores_order(
    answers: Seq<Option<i128>>,
    rearranged: Seq<Option<i128>>,
    nearest: Option<HitRecord>,
    other: Option<HitRecord>,
)
    requires
        answers.to_multiset() == rearranged.to_multiset(),
        is_nearest(answers, nearest),
        is_nearest(rearranged, other),
    ensures
        nearest is None <==> other is None,
        nearest matches Some(a) ==> other matches Some(b) && a.t == b.t,
{
    answers.to_multiset_ensures();
    rearranged.to_multiset_ensures();
    if let Some(a) = nearest {
        lemma_least_is_shared(answers, rearranged, a, other);
    }
    if let Some(b) = other {
        lemma_least_is_shared(rearranged, answers, b, nearest);
    }
}

/// A nearest hit of one row bounds the nearest hit of any row with the
/// same answers from above.
proof fn lemma_least_is_shared(
    answers: Seq<Option<i128>>,
    rearranged: Seq<Option<i128>>,
    record: HitRecord,
    other: Option<HitRecord>,
)
    requires
        answers.to_multiset() == rearranged.to_multiset(),
        is_nearest(answers, Some(record)),
        is_nearest(rearranged, other),
    ensures
        other matches Some(b) && b.t <= record.t,
{
    answers.to_multiset_ensures();
    rearranged.to_multiset_ensures();
    let found = Some(record.t);
    assert(answers.contains(found)) by {
        assert(answers[record.surface as int] == found);
    }
    assert(answers.to_multiset().count(found) > 0);
    assert(rearranged.to_multiset().count(found) > 0);
    assert(rearranged.contains(found));
    let j = choose|j: int| 0 <= j < rearranged.len() && rearranged[j] == found;
    assert(rearranged[j] is Some);
}

} // verus!
