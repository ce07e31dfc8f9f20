//! The bounce budget of a light path.
//!
//! A path starts at the camera with a budget of bounces. Each ray of the
//! path is tested against the scene. A miss ends the path in the sky,
//! whose light comes back halved once per bounce made. A hit scatters the
//! path and costs one bounce; a path whose budget is spent is black.
//! Testing rays and scattering them is the caller's part. What happens
//! next, and what a bounce draws from the generator, is decided here.

use vstd::prelude::*;
use crate::random::{lcg_iterate, lcg_next, lemma_iterate_adds, Rng};

verus! {

/// The budget of a path that starts at the camera.
pub const MAX_RAY_BOUNCES: u32 = 8;

/// The mathematical value of a [`Shade`].
pub enum Light {
    Black,
    Sky { bounces: nat },
}

/// The mathematical value of a [`Step`].
pub enum Trace {
    /// The current ray is to be tested; `depth` bounces are left, and
    /// `bounces` were made.
    Probing { depth: nat, bounces: nat },
    Finished(Light),
}

/// The first step of a path with a budget of `depth` bounces: without a
/// budget it is black before any ray is tested.
pub open spec fn start(depth: nat) -> Trace {
    if depth == 0 {
        Trace::Finished(Light::Black)
    } else {
        Trace::Probing { depth, bounces: 0 }
    }
}

impl Trace {
    /// The step after the current ray was tested and hit a surface, or
    /// missed them all. A finished path stays as it is.
    pub open spec fn after(self, hit: bool) -> Trace {
        match self {
            Trace::Probing { depth, bounces } => {
                if hit {
                    match start((depth - 1) as nat) {
                        Trace::Probing { depth: left, .. } => Trace::Probing {
                            depth: left,
                            bounces: bounces + 1,
                        },
                        finished => finished,
                    }
                } else {
                    Trace::Finished(Light::Sky { bounces })
                }
            },
            Trace::Finished(_) => self,
        }
    }

    /// The number of draws that a path makes over a run of tests: two
    /// for each hit, none for a miss, and none once it is finished.
    pub open spec fn draws_over(self, hits: Seq<bool>) -> nat
        decreases hits.len(),
    {
        if hits.len() == 0 {
            0
        } else if self is Probing && hits[0] {
            2 + self.after(true).draws_over(hits.skip(1))
        } else {
            0
        }
    }

    /// The state of the generator after a path that found it in `state`
    /// went through a run of tests, scattering at every hit.
    pub open spec fn generator_over(self, state: nat, hits: Seq<bool>) -> nat
        decreases hits.len(),
    {
        if hits.len() == 0 {
            state
        } else if self is Probing && hits[0] {
            self.after(true).generator_over(lcg_next(lcg_next(state)), hits.skip(1))
        } else {
            state
        }
    }

    /// The step after the outcomes of a run of tests, one per ray.
    pub open spec fn after_all(self, hits: Seq<bool>) -> Trace
        decreases hits.len(),
    {
        if hits.len() == 0 {
            self
        } else {
            self.after(hits[0]).after_all(hits.skip(1))
        }
    }
}

/// What a finished path contributes to its sample.
#[derive(Clone, Copy, Debug, PartialEq, Eq, Structural)]
pub enum Shade {
    /// No light: the budget ran out.
    Black,
    /// The light of the sky in the direction of the last ray, halved once
    /// for each of the `bounces`.
    Sky { bounces: u32 },
}

impl View for Shade {
    type V = Light;

    open spec fn view(&self) -> Light {
        match self {
            Shade::Black => Light::Black,
            Shade::Sky { bounces } => Light::Sky { bounces: *bounces as nat },
        }
    }
}

/// The two draws from which the direction of a scattered ray is made, in
/// the order in which it needs them: the first for the angle from the
/// pole, the second for the angle around it. Each is a fraction of the
/// range of its angle.
pub fn scatter_draws(rng: &mut Rng) -> (draws: (u32, u32))
    ensures
        draws.0 == lcg_next(old(rng)@),
        draws.1 == lcg_next(lcg_next(old(rng)@)),
        final(rng)@ == draws.1,
{
    let polar = rng.generate();
    let azimuth = rng.generate();
    (polar, azimuth)
}

/// A path in flight: its current ray is yet to be tested.
#[derive(Clone, Copy, Debug, PartialEq, Eq, Structural)]
pub struct Path {
    depth: u32,
    bounces: u32,
}

impl Path {
    #[verifier::type_invariant]
    spec fn well_formed(&self) -> bool {
        &&& self.depth >= 1
        &&& self.depth + self.bounces <= u32::MAX
    }

    /// Bounces left, at least one.
    pub closed spec fn depth_left(&self) -> nat {
        self.depth as nat
    }

    /// Bounces made.
    pub closed spec fn bounces_made(&self) -> nat {
        self.bounces as nat
    }

    /// Bounces made so far.
    pub fn bounces(&self) -> (bounces: u32)
        ensures
            bounces == self.bounces_made(),
    {
        self.bounces
    }

    /// Bounces left, the current ray included.
    pub fn depth(&self) -> (depth: u32)
        ensures
            depth == self.depth_left(),
            depth >= 1,
    {
        proof {
            use_type_invariant(self);
        }
        self.depth
    }

    /// The first step of a path with a budget of `depth` bounces.
    pub fn start(depth: u32) -> (step: Step)
        ensures
            step@ == start(depth as nat),
    {
        if depth == 0 {
            Step::Finish(Shade::Black)
        } else {
            Step::Probe(Path { depth, bounces: 0 })
        }
    }

    /// The step after the current ray hit a surface and the path was
    /// scattered there.
    pub fn after_hit(self) -> (step: Step)
        ensures
            step@ == (Step::Probe(self))@.after(true),
    {
        proof {
            use_type_invariant(&self);
        }
        if self.depth == 1 {
            Step::Finish(Shade::Black)
        } else {
            Step::Probe(Path { depth: self.depth - 1, bounces: self.bounces + 1 })
        }
    }

    /// Scatters the path where its current ray hit a surface: takes the
    /// two draws for the new direction and charges one bounce. The draws
    /// are taken even if the budget is spent with this bounce.
    pub fn scatter(self, rng: &mut Rng) -> (scattered: (Step, (u32, u32)))
        ensures
            scattered.0@ == (Step::Probe(self))@.after(true),
            scattered.1.0 == lcg_next(old(rng)@),
            scattered.1.1 == lcg_next(lcg_next(old(rng)@)),
            final(rng)@ == lcg_iterate(old(rng)@, 2),
    {
        proof {
            lemma_iterate_unfolds(old(rng)@, 1);
            lemma_iterate_unfolds(old(rng)@, 0);
        }
        let draws = scatter_draws(rng);
        (self.after_hit(), draws)
    }

    /// The step after the current ray missed every surface.
    pub fn after_miss(self) -> (step: Step)
        ensures
            step@ == (Step::Probe(self))@.after(false),
    {
        Step::Finish(Shade::Sky { bounces: self.bounces })
    }
}

/// What to do next on a path.
#[derive(Clone, Copy, Debug, PartialEq, Eq, Structural)]
pub enum Step {
    /// Test the current ray against the scene, then report the outcome
    /// with [`Path::after_hit`] or [`Path::after_miss`].
    Probe(Path),
    /// The path is over.
    Finish(Shade),
}

impl View for Step {
    type V = Trace;

    open spec fn view(&self) -> Trace {
        match self {
            Step::Probe(path) => Trace::Probing {
                depth: path.depth_left(),
                bounces: path.bounces_made(),
            },
            Step::Finish(shade) => Trace::Finished(shade@),
        }
    }
}

/// A path that keeps hitting surfaces is black after exactly as many tests
/// as its budget allows: with fewer it is still in flight.
pub proof fn lemma_budget_ends_path(depth: nat, hits: Seq<bool>)
    requires
        forall|i: int| 0 <= i < hits.len() ==> hits[i],
    ensures
        hits.len() == depth ==> start(depth).after_all(hits) == Trace::Finished(Light::Black),
        hits.len() < depth ==> start(depth).after_all(hits) == (Trace::Probing {
            depth: (depth - hits.len()) as nat,
            bounces: hits.len(),
        }),
{
    if depth > 0 {
        lemma_all_hits(depth, 0, hits);
    } else {
        assert(hits.len() == 0 ==> start(depth).after_all(hits) == start(depth));
    }
}

/// One more step of the generator is one more iteration.
proof fn lemma_iterate_unfolds(seed: nat, n: nat)
    ensures
        lcg_iterate(seed, n + 1) == lcg_next(lcg_iterate(seed, n)),
        lcg_iterate(seed, 0) == seed,
{
}

/// Every bounce costs two draws: a path that keeps hitting surfaces has
/// made twice as many draws as tests, up to its budget, and none after.
/// A generator that was in state `state` when the path set out, and from
/// which nothing else drew, is then as many steps on.
pub proof fn lemma_two_draws_per_bounce(depth: nat, hits: Seq<bool>, state: nat)
    requires
        forall|i: int| 0 <= i < hits.len() ==> hits[i],
    ensures
        hits.len() <= depth ==> start(depth).draws_over(hits) == 2 * hits.len(),
        hits.len() >= depth ==> start(depth).draws_over(hits) == 2 * depth,
        start(depth).generator_over(state, hits) == lcg_iterate(
            state,
            start(depth).draws_over(hits),
        ),
{
    lemma_generator_counts_draws(start(depth), state, hits);
    if depth > 0 {
        lemma_draws_in_flight(depth, 0, hits);
    }
}

/// The generator is as many steps on as the path made draws.
proof fn lemma_generator_counts_draws(trace: Trace, state: nat, hits: Seq<bool>)
    ensures
        trace.generator_over(state, hits) == lcg_iterate(state, trace.draws_over(hits)),
    decreases hits.len(),
{
    if hits.len() > 0 && trace is Probing && hits[0] {
        let rest = hits.skip(1);
        let next = trace.after(true);
        let moved = lcg_next(lcg_next(state));
        lemma_generator_counts_draws(next, moved, rest);
        lemma_iterate_unfolds(state, 0);
        lemma_iterate_unfolds(state, 1);
        assert(moved == lcg_iterate(state, 2));
        lemma_iterate_adds(state, 2, next.draws_over(rest));
    }
}

proof fn lemma_draws_in_flight(depth: nat, bounces: nat, hits: Seq<bool>)
    requires
        depth >= 1,
        forall|i: int| 0 <= i < hits.len() ==> hits[i],
    ensures
        hits.len() <= depth ==> (Trace::Probing { depth, bounces }).draws_over(hits) == 2
            * hits.len(),
        hits.len() >= depth ==> (Trace::Probing { depth, bounces }).draws_over(hits) == 2 * depth,
    decreases hits.len(),
{
    let here = Trace::Probing { depth, bounces };
    if hits.len() > 0 {
        let rest = hits.skip(1);
        assert(hits[0]);
        assert forall|i: int| 0 <= i < rest.len() implies rest[i] by {
            assert(rest[i] == hits[i + 1]);
        }
        if depth == 1 {
            assert(here.after(true) == Trace::Finished(Light::Black));
            assert(here.after(true).draws_over(rest) == 0);
        } else {
            assert(here.after(true) == (Trace::Probing {
                depth: (depth - 1) as nat,
                bounces: bounces + 1,
            }));
            lemma_draws_in_flight((depth - 1) as nat, bounces + 1, rest);
        }
    }
}

/// After a run of hits the budget has shrunk by their number.
proof fn lemma_all_hits(depth: nat, bounces: nat, hits: Seq<bool>)
    requires
        depth >= 1,
        forall|i: int| 0 <= i < hits.len() ==> hits[i],
    ensures
        hits.len() == depth ==> (Trace::Probing { depth, bounces }).after_all(hits)
            == Trace::Finished(Light::Black),
        hits.len() < depth ==> (Trace::Probing { depth, bounces }).after_all(hits)
            == (Trace::Probing { depth: (depth - hits.len()) as nat, bounces: bounces + hits.len() }),
    decreases hits.len(),
{
    let here = Trace::Probing { depth, bounces };
    if hits.len() > 0 {
        let rest = hits.skip(1);
        assert(hits[0]);
        assert forall|i: int| 0 <= i < rest.len() implies rest[i] by {
            assert(rest[i] == hits[i + 1]);
        }
        if depth == 1 {
            assert(here.after(true) == Trace::Finished(Light::Black));
            lemma_finished_stays(Light::Black, rest);
            if hits.len() == depth {
                assert(rest.len() == 0);
            }
        } else {
            assert(here.after(true) == (Trace::Probing {
                depth: (depth - 1) as nat,
                bounces: bounces + 1,
            }));
            lemma_all_hits((depth - 1) as nat, bounces + 1, rest);
        }
    }
}

/// Nothing happens to a finished path.
pub proof fn lemma_finished_stays(light: Light, hits: Seq<bool>)
    ensures
        Trace::Finished(light).after_all(hits) == Trace::Finished(light),
    decreases hits.len(),
{
    if hits.len() > 0 {
        lemma_finished_stays(light, hits.skip(1));
    }
}

/// Every path ends: no path outlasts as many tests as its budget. It ends
/// black, or in the sky after fewer bounces than the budget.
pub proof fn lemma_path_terminates(depth: nat, hits: Seq<bool>)
    requires
        hits.len() >= depth,
    ensures
        start(depth).after_all(hits) matches Trace::Finished(light) && (light matches Light::Sky {
            bounces,
        } ==> bounces < depth),
{
    if depth > 0 {
        lemma_in_flight_terminates(depth, 0, hits);
    } else {
        lemma_finished_stays(Light::Black, hits);
    }
}

proof fn lemma_in_flight_terminates(depth: nat, bounces: nat, hits: Seq<bool>)
    requires
        depth >= 1,
        hits.len() >= depth,
    ensures
        (Trace::Probing { depth, bounces }).after_all(hits) matches Trace::Finished(light) && (
        light matches Light::Sky { bounces: made } ==> bounces <= made < bounces + depth),
    decreases hits.len(),
{
    let here = Trace::Probing { depth, bounces };
    let rest = hits.skip(1);
    if !hits[0] {
        lemma_finished_stays(Light::Sky { bounces }, rest);
    } else if depth == 1 {
        lemma_finished_stays(Light::Black, rest);
    } else {
        lemma_in_flight_terminates((depth - 1) as nat, bounces + 1, rest);
    }
}

/// A path that misses at its first test after `bounces` hits ends in the
/// sky with that many bounces, provided the budget outlasts the hits.
pub proof fn lemma_miss_ends_in_sky(depth: nat, hits: Seq<bool>)
    requires
        hits.len() < depth,
        forall|i: int| 0 <= i < hits.len() ==> hits[i],
    ensures
        start(depth).after_all(hits.push(false)) == Trace::Finished(
            Light::Sky { bounces: hits.len() },
        ),
{
    lemma_miss_after_hits(depth, 0, hits);
}

proof fn lemma_miss_after_hits(depth: nat, bounces: nat, hits: Seq<bool>)
    requires
        hits.len() < depth,
        forall|i: int| 0 <= i < hits.len() ==> hits[i],
    ensures
        (Trace::Probing { depth, bounces }).after_all(hits.push(false)) == Trace::Finished(
            Light::Sky { bounces: bounces + hits.len() },
        ),
    decreases hits.len(),
{
    let here = Trace::Probing { depth, bounces };
    let all = hits.push(false);
    if hits.len() == 0 {
        assert(!all[0]);
        lemma_finished_stays(Light::Sky { bounces }, all.skip(1));
    } else {
        let rest = hits.skip(1);
        assert(all[0] == hits[0] && hits[0]);
        assert(all.skip(1) =~= rest.push(false));
        assert forall|i: int| 0 <= i < rest.len() implies rest[i] by {
            assert(rest[i] == hits[i + 1]);
        }
        assert(here.after(true) == (Trace::Probing {
            depth: (depth - 1) as nat,
            bounces: bounces + 1,
        }));
        lemma_miss_after_hits((depth - 1) as nat, bounces + 1, rest);
    }
}

} // verus!
