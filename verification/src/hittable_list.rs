//! The scene: a row of surfaces and the nearest hit among them.

use vstd::prelude::*;
use crate::hittable::{closer, is_nearest, lemma_closer_keeps_nearest, HitRecord, Hittable};
use crate::interval::Interval;

verus! {

/// A growable row of surfaces. Its view is the row, in the order in which
/// the surfaces were added.
pub struct HittableList<T> {
    objects: Vec<T>,
}

impl<T> View for HittableList<T> {
    type V = Seq<T>;

    closed spec fn view(&self) -> Seq<T> {
        self.objects@
    }
}

impl<T> HittableList<T> {
    /// What each surface answers to the ray, in order.
    pub open spec fn answers<R>(&self, r: &R, time: &Interval) -> Seq<Option<i128>> where
        T: Hittable<R>,
     {
        Seq::new(self@.len(), |i: int| self@[i].hit_at(r, time))
    }

    /// The scene without surfaces.
    pub fn new() -> (list: HittableList<T>)
        ensures
            list@ == Seq::<T>::empty(),
    {
        HittableList { objects: Vec::new() }
    }

    /// Appends a surface; its number is the number of surfaces before it.
    pub fn add(&mut self, item: T)
        ensures
            final(self)@ == old(self)@.push(item),
    {
        self.objects.push(item);
    }

    /// The number of surfaces.
    pub fn len(&self) -> (n: usize)
        ensures
            n == self@.len(),
    {
        self.objects.len()
    }

    /// The surface with the given number.
    pub fn get(&self, surface: usize) -> (item: &T)
        requires
            surface < self@.len(),
        ensures
            *item == self@[surface as int],
    {
        &self.objects[surface]
    }

    /// The nearest hit of the ray among all surfaces: every surface is
    /// asked with the same window, and of the hits the one with the
    /// least parameter is kept, the earliest of them if several share it.
    /// There is no hit if the scene is empty or no surface is hit.
    pub fn hit<R>(&self, r: &R, time: &Interval) -> (nearest: Option<HitRecord>) where
        T: Hittable<R>,

        ensures
            is_nearest(self.answers(r, time), nearest),
    {
        let mut closest: Option<HitRecord> = None;
        let mut i: usize = 0;
        while i < self.objects.len()
            invariant
                i <= self.objects.len(),
                is_nearest(self.answers(r, time).take(i as int), closest),
            decreases self.objects.len() - i,
        {
            let answer = self.objects[i].hit(r, time);
            proof {
                let asked = self.answers(r, time).take(i as int);
                lemma_closer_keeps_nearest(asked, closest, answer);
                assert(asked.push(answer) =~= self.answers(r, time).take(i + 1));
            }
            closest = closer(closest, i, answer);
            i += 1;
        }
        assert(self.answers(r, time).take(i as int) =~= self.answers(r, time));
        closest
    }
}

} // verus!
