//! The engine over a whole scene: rounds repeated until the rays retire,
//! and what holds of them however the rays are grouped.
//!
//! The scene itself is numeric and lives outside this crate. Here it
//! appears as a [`World`]: two functions that say what a ray meets and
//! what becomes of its beam. They stand for any scene whose answers depend
//! on the ray alone.

use vstd::prelude::*;
use vstd::seq_lib::lemma_multiset_commutative;
use crate::batch::{after_round, after_rounds, encounters_of, moved_rays, round_fits, rounds_fit};
use crate::interaction::{Contact, Step};
use crate::launch::{after_leg, after_legs, journey_fits, last_outcome, leg_fits, Leg};
use crate::nearest::Interaction;
use crate::ray::Ray;
use crate::trace::{retired, survivors};

verus! {

/// A scene, as the engine sees it.
#[verifier::reject_recursive_types(B)]
pub struct World<B> {
    /// What a ray with this beam, in this medium, meets next: the contact
    /// with the nearest surface, or `None` where no surface lies ahead.
    pub sees: spec_fn(B, usize) -> Option<Contact>,
    /// The beam after that encounter.
    pub bends: spec_fn(B, usize, Option<Contact>) -> B,
}

impl<B> World<B> {
    /// What `ray` meets next.
    pub open spec fn encounter(self, ray: Ray<B>) -> Option<Contact> {
        (self.sees)(ray.beam, ray.vop)
    }

    /// `ray` with its beam after the next encounter.
    pub open spec fn bent(self, ray: Ray<B>) -> Ray<B> {
        Ray {
            beam: (self.bends)(ray.beam, ray.vop, self.encounter(ray)),
            vop: ray.vop,
            pixel_idx: ray.pixel_idx,
            result: ray.result,
        }
    }

    /// `ray` after its next encounter.
    pub open spec fn step(self, ray: Ray<B>) -> Ray<B> {
        self.bent(ray).met(self.encounter(ray))
    }

    /// Whether `ray` travels on after its next encounter.
    pub open spec fn goes_on(self, ray: Ray<B>) -> bool {
        ray.outcome(self.encounter(ray)) is Continue
    }

    /// One ray traced alone for at most `rounds` encounters: the ray at the
    /// end, and whether its journey is over.
    pub open spec fn journey(self, ray: Ray<B>, rounds: nat) -> (Ray<B>, bool)
        decreases rounds,
    {
        if rounds == 0 {
            (ray, false)
        } else if self.goes_on(ray) {
            self.journey(self.step(ray), (rounds - 1) as nat)
        } else {
            (self.step(ray), true)
        }
    }

    /// What each of `rays` meets next.
    pub open spec fn encounters(self, rays: Seq<Ray<B>>) -> Seq<Option<Contact>> {
        Seq::new(rays.len(), |i: int| self.encounter(rays[i]))
    }

    /// `rays`, each with its beam after the next encounter.
    pub open spec fn all_bent(self, rays: Seq<Ray<B>>) -> Seq<Ray<B>> {
        Seq::new(rays.len(), |i: int| self.bent(rays[i]))
    }

    /// One round over a batch: the rays that travel on, and `completed`
    /// with the rays that ended appended.
    pub open spec fn round(self, live: Seq<Ray<B>>, completed: Seq<Ray<B>>) -> (
        Seq<Ray<B>>,
        Seq<Ray<B>>,
    ) {
        (
            survivors(self.all_bent(live), self.encounters(live)),
            completed + retired(self.all_bent(live), self.encounters(live)),
        )
    }

    /// `rounds` rounds over a batch: the rays still live, and the rays
    /// completed.
    pub open spec fn batch(self, live: Seq<Ray<B>>, completed: Seq<Ray<B>>, rounds: nat) -> (
        Seq<Ray<B>>,
        Seq<Ray<B>>,
    )
        decreases rounds,
    {
        if rounds == 0 {
            (live, completed)
        } else {
            let next = self.round(live, completed);
            self.batch(next.0, next.1, (rounds - 1) as nat)
        }
    }

    /// Of `rays`, each traced alone for `rounds` encounters, those still
    /// under way, in order.
    pub open spec fn underway(self, rays: Seq<Ray<B>>, rounds: nat) -> Seq<Ray<B>>
        decreases rays.len(),
    {
        if rays.len() == 0 {
            Seq::empty()
        } else {
            let front = self.underway(rays.drop_last(), rounds);
            let end = self.journey(rays.last(), rounds);
            if end.1 {
                front
            } else {
                front.push(end.0)
            }
        }
    }

    /// Of `rays`, each traced alone for `rounds` encounters, those whose
    /// journey is over, in order.
    pub open spec fn arrived(self, rays: Seq<Ray<B>>, rounds: nat) -> Seq<Ray<B>>
        decreases rays.len(),
    {
        if rays.len() == 0 {
            Seq::empty()
        } else {
            let front = self.arrived(rays.drop_last(), rounds);
            let end = self.journey(rays.last(), rounds);
            if end.1 {
                front.push(end.0)
            } else {
                front
            }
        }
    }
}

/// A round reads of `encounters` only the entries that belong to rays.
proof fn lemma_round_reads_prefix<B>(
    rays: Seq<Ray<B>>,
    first: Seq<Option<Contact>>,
    second: Seq<Option<Contact>>,
)
    requires
        forall|i: int| 0 <= i < rays.len() ==> first[i] == second[i],
    ensures
        survivors(rays, first) == survivors(rays, second),
        retired(rays, first) == retired(rays, second),
    decreases rays.len(),
{
    if rays.len() > 0 {
        lemma_round_reads_prefix(rays.drop_last(), first, second);
    }
}

/// A round over two batches side by side is the two rounds side by side.
proof fn lemma_round_concat<B>(world: World<B>, a: Seq<Ray<B>>, b: Seq<Ray<B>>)
    ensures
        world.round(a + b, Seq::empty()).0 == world.round(a, Seq::empty()).0 + world.round(
            b,
            Seq::empty(),
        ).0,
        world.round(a + b, Seq::empty()).1 == world.round(a, Seq::empty()).1 + world.round(
            b,
            Seq::empty(),
        ).1,
    decreases b.len(),
{
    let none = Seq::<Ray<B>>::empty();
    if b.len() == 0 {
        assert(a + b =~= a);
        assert(world.round(b, none).0 =~= none);
        assert(world.round(b, none).1 =~= none);
        assert(world.round(a, none).0 + none =~= world.round(a, none).0);
        assert(world.round(a, none).1 + none =~= world.round(a, none).1);
    } else {
        let all = a + b;
        let short = b.drop_last();
        assert(all.drop_last() =~= a + short);
        assert(all.last() == b.last());
        lemma_round_concat(world, a, short);
        // the rounds over `a + short` and over `short`, read off the longer tables
        assert(world.all_bent(all).drop_last() =~= world.all_bent(a + short));
        assert(world.all_bent(b).drop_last() =~= world.all_bent(short));
        lemma_round_reads_prefix(
            world.all_bent(a + short),
            world.encounters(all),
            world.encounters(a + short),
        );
        lemma_round_reads_prefix(world.all_bent(short), world.encounters(b), world.encounters(short));
        let la = world.round(a, none).0;
        let ra = world.round(a, none).1;
        let ls = world.round(short, none).0;
        let rs = world.round(short, none).1;
        assert(none + retired(world.all_bent(a + short), world.encounters(a + short)) =~= retired(
            world.all_bent(a + short),
            world.encounters(a + short),
        ));
        assert(none + retired(world.all_bent(short), world.encounters(short)) =~= retired(
            world.all_bent(short),
            world.encounters(short),
        ));
        assert(none + retired(world.all_bent(all), world.encounters(all)) =~= retired(
            world.all_bent(all),
            world.encounters(all),
        ));
        assert(none + retired(world.all_bent(b), world.encounters(b)) =~= retired(
            world.all_bent(b),
            world.encounters(b),
        ));
        assert(none + retired(world.all_bent(a), world.encounters(a)) =~= retired(
            world.all_bent(a),
            world.encounters(a),
        ));
        let last = world.bent(b.last());
        let met = world.encounter(b.last());
        assert(world.all_bent(all).last() == last);
        assert(world.all_bent(b).last() == last);
        assert(world.encounters(all)[all.len() - 1] == met);
        assert(world.encounters(b)[b.len() - 1] == met);
        if last.outcome(met) is Continue {
            assert((la + ls).push(last.met(met)) =~= la + ls.push(last.met(met)));
        } else {
            assert((ra + rs).push(last.met(met)) =~= ra + rs.push(last.met(met)));
        }
    }
}

/// Rays completed before a batch starts are carried along unchanged, in
/// front of those the batch completes.
proof fn lemma_batch_carries<B>(
    world: World<B>,
    live: Seq<Ray<B>>,
    completed: Seq<Ray<B>>,
    rounds: nat,
)
    ensures
        world.batch(live, completed, rounds).0 == world.batch(live, Seq::empty(), rounds).0,
        world.batch(live, completed, rounds).1 == completed + world.batch(
            live,
            Seq::empty(),
            rounds,
        ).1,
    decreases rounds,
{
    let none = Seq::<Ray<B>>::empty();
    if rounds == 0 {
        assert(completed + none =~= completed);
    } else {
        let ended = retired(world.all_bent(live), world.encounters(live));
        let next = world.round(live, completed).0;
        lemma_batch_carries(world, next, completed + ended, (rounds - 1) as nat);
        lemma_batch_carries(world, next, none + ended, (rounds - 1) as nat);
        let later = world.batch(next, none, (rounds - 1) as nat).1;
        assert((completed + ended) + later =~= completed + ((none + ended) + later));
    }
}

/// A batch without rays completes nothing.
proof fn lemma_batch_of_none<B>(world: World<B>, rounds: nat)
    ensures
        world.batch(Seq::empty(), Seq::empty(), rounds) == (
            Seq::<Ray<B>>::empty(),
            Seq::<Ray<B>>::empty(),
        ),
    decreases rounds,
{
    let none = Seq::<Ray<B>>::empty();
    if rounds > 0 {
        assert(world.round(none, none).0 =~= none);
        assert(world.round(none, none).1 =~= none);
        lemma_batch_of_none(world, (rounds - 1) as nat);
    }
}

/// A ray traced in a batch of its own fares as it does when traced alone:
/// after any number of rounds the batch holds the ray as its journey
/// leaves it, among the live rays while the journey lasts and among the
/// completed ones once it is over.
pub proof fn batch_of_one<B>(world: World<B>, ray: Ray<B>, rounds: nat)
    ensures
        world.batch(seq![ray], Seq::empty(), rounds) == if world.journey(ray, rounds).1 {
            (Seq::<Ray<B>>::empty(), seq![world.journey(ray, rounds).0])
        } else {
            (seq![world.journey(ray, rounds).0], Seq::<Ray<B>>::empty())
        },
    decreases rounds,
{
    let none = Seq::<Ray<B>>::empty();
    if rounds > 0 {
        let one = seq![ray];
        assert(one.drop_last() =~= none);
        assert(one.last() == ray);
        assert(world.all_bent(one).drop_last() =~= none);
        assert(world.all_bent(one).last() == world.bent(ray));
        assert(world.encounters(one)[0] == world.encounter(ray));
        assert(survivors(none, world.encounters(one)) =~= none);
        assert(retired(none, world.encounters(one)) =~= none);
        assert(world.bent(ray).outcome(world.encounter(ray)) is Continue == world.goes_on(ray));
        let next = world.round(one, none);
        if world.goes_on(ray) {
            assert(next.0 =~= seq![world.step(ray)]);
            assert(next.1 =~= none);
            batch_of_one(world, world.step(ray), (rounds - 1) as nat);
        } else {
            assert(next.0 =~= none);
            assert(next.1 =~= seq![world.step(ray)]);
            lemma_batch_carries(world, none, next.1, (rounds - 1) as nat);
            lemma_batch_of_none(world, (rounds - 1) as nat);
            assert(next.1 + none =~= next.1);
        }
    }
}

/// Tracing two batches as one gives what tracing them apart gives.
///
/// After any number of rounds the live rays of the joint batch are the
/// live rays of the first batch followed by those of the second, and the
/// completed rays are the completed rays of both, each as often as there.
/// Only the order among completed rays depends on the grouping.
pub proof fn batch_partition<B>(world: World<B>, a: Seq<Ray<B>>, b: Seq<Ray<B>>, rounds: nat)
    ensures
        world.batch(a + b, Seq::empty(), rounds).0 == world.batch(a, Seq::empty(), rounds).0
            + world.batch(b, Seq::empty(), rounds).0,
        world.batch(a + b, Seq::empty(), rounds).1.to_multiset() == world.batch(
            a,
            Seq::empty(),
            rounds,
        ).1.to_multiset().add(world.batch(b, Seq::empty(), rounds).1.to_multiset()),
    decreases rounds,
{
    let none = Seq::<Ray<B>>::empty();
    if rounds == 0 {
        lemma_multiset_commutative(none, none);
        assert(none + none =~= none);
    } else {
        let rest = (rounds - 1) as nat;
        let la = world.round(a, none).0;
        let ra = world.round(a, none).1;
        let lb = world.round(b, none).0;
        let rb = world.round(b, none).1;
        lemma_round_concat(world, a, b);
        lemma_batch_carries(world, la + lb, ra + rb, rest);
        lemma_batch_carries(world, la, ra, rest);
        lemma_batch_carries(world, lb, rb, rest);
        batch_partition(world, la, lb, rest);
        let xa = world.batch(la, none, rest).1;
        let xb = world.batch(lb, none, rest).1;
        let x = world.batch(la + lb, none, rest).1;
        lemma_multiset_commutative(ra + rb, x);
        lemma_multiset_commutative(ra, rb);
        lemma_multiset_commutative(ra, xa);
        lemma_multiset_commutative(rb, xb);
        assert(((ra + rb) + x).to_multiset() =~= (ra + xa).to_multiset().add(
            (rb + xb).to_multiset(),
        ));
    }
}

/// Tracing rays in one batch gives each ray what tracing it alone gives.
///
/// After any number of rounds the live rays of the batch are the rays
/// whose own journey still lasts, each as its journey leaves it and in
/// the order of the batch; the completed rays are the rays whose own
/// journey is over, each with the colour it retired with on its own.
pub proof fn batch_equals_individual<B>(world: World<B>, rays: Seq<Ray<B>>, rounds: nat)
    ensures
        world.batch(rays, Seq::empty(), rounds).0 == world.underway(rays, rounds),
        world.batch(rays, Seq::empty(), rounds).1.to_multiset() == world.arrived(
            rays,
            rounds,
        ).to_multiset(),
    decreases rays.len(),
{
    let none = Seq::<Ray<B>>::empty();
    if rays.len() == 0 {
        assert(rays =~= none);
        lemma_batch_of_none(world, rounds);
    } else {
        let front = rays.drop_last();
        let one = seq![rays.last()];
        assert(rays =~= front + one);
        batch_equals_individual(world, front, rounds);
        batch_of_one(world, rays.last(), rounds);
        batch_partition(world, front, one, rounds);
        let end = world.journey(rays.last(), rounds);
        let done = world.arrived(front, rounds);
        if end.1 {
            assert(world.underway(front, rounds) + none =~= world.underway(front, rounds));
            lemma_multiset_commutative(done, seq![end.0]);
            assert(done + seq![end.0] =~= done.push(end.0));
        } else {
            assert(world.underway(front, rounds) + seq![end.0] =~= world.underway(
                front,
                rounds,
            ).push(end.0));
            lemma_multiset_commutative(done, none);
            assert(done + none =~= done);
        }
    }
}

/// Whether the scene given by `intersect`, `arrive` and `bend` is
/// `world`: whatever the three functions can answer to a ray is what the
/// world shows to it. This holds of a scene whose answers depend on the
/// ray alone.
pub open spec fn answers_as<
    B,
    P,
    I: Fn(&B, usize) -> Interaction<P>,
    A: Fn(&B, usize, P, u64, usize) -> (B, Contact),
    D: Fn(&B, Step) -> B,
>(world: World<B>, surfaces: usize, intersect: I, arrive: A, bend: D) -> bool {
    forall|ray: Ray<B>, leg: Leg<B, P>| #[trigger]
        leg_fits(surfaces, intersect, arrive, bend, ray, leg) ==> leg.encounter == world.encounter(
            ray,
        ) && after_leg(ray, leg) == world.step(ray)
}

/// One more encounter of a journey: a journey that is over stays as it
/// is, and one that lasts takes the next step.
proof fn lemma_journey_extends<B>(world: World<B>, ray: Ray<B>, rounds: nat)
    ensures
        world.journey(ray, (rounds + 1) as nat) == if world.journey(ray, rounds).1 {
            world.journey(ray, rounds)
        } else {
            (
                world.step(world.journey(ray, rounds).0),
                !world.goes_on(world.journey(ray, rounds).0),
            )
        },
    decreases rounds,
{
    let more = (rounds + 1) as nat;
    assert(world.journey(ray, more) == if world.goes_on(ray) {
        world.journey(world.step(ray), rounds)
    } else {
        (world.step(ray), true)
    });
    if rounds == 0 {
        assert(world.journey(world.step(ray), 0) == (world.step(ray), false));
    } else if world.goes_on(ray) {
        lemma_journey_extends(world, world.step(ray), (rounds - 1) as nat);
        assert(world.journey(ray, rounds) == world.journey(world.step(ray), (rounds - 1) as nat));
    }
}

/// One more round of a batch is a round over what the rounds before left.
proof fn lemma_batch_extends<B>(
    world: World<B>,
    live: Seq<Ray<B>>,
    completed: Seq<Ray<B>>,
    rounds: nat,
)
    ensures
        world.batch(live, completed, (rounds + 1) as nat) == world.round(
            world.batch(live, completed, rounds).0,
            world.batch(live, completed, rounds).1,
        ),
    decreases rounds,
{
    let more = (rounds + 1) as nat;
    let next = world.round(live, completed);
    assert(world.batch(live, completed, more) == world.batch(next.0, next.1, rounds));
    if rounds == 0 {
        assert(world.batch(next.0, next.1, 0) == next);
    } else {
        lemma_batch_extends(world, next.0, next.1, (rounds - 1) as nat);
        assert(world.batch(live, completed, rounds) == world.batch(
            next.0,
            next.1,
            (rounds - 1) as nat,
        ));
    }
}

/// A ray launched alone through a scene that is `world` makes the journey
/// of the world: after its legs it is the ray that the world's journey of
/// as many encounters leaves, and it retired or failed on its last leg
/// exactly if that journey is over.
pub proof fn launch_follows_world<
    B,
    P,
    I: Fn(&B, usize) -> Interaction<P>,
    A: Fn(&B, usize, P, u64, usize) -> (B, Contact),
    D: Fn(&B, Step) -> B,
>(
    world: World<B>,
    surfaces: usize,
    intersect: I,
    arrive: A,
    bend: D,
    ray: Ray<B>,
    legs: Seq<Leg<B, P>>,
)
    requires
        answers_as(world, surfaces, intersect, arrive, bend),
        journey_fits(surfaces, intersect, arrive, bend, ray, legs),
    ensures
        after_legs(ray, legs) == world.journey(ray, legs.len()).0,
        world.journey(ray, legs.len()).1 == !(last_outcome(ray, legs) is Continue),
    decreases legs.len(),
{
    if legs.len() > 0 {
        let front = legs.drop_last();
        launch_follows_world(world, surfaces, intersect, arrive, bend, ray, front);
        lemma_journey_extends(world, ray, front.len());
        let before = after_legs(ray, front);
        assert(leg_fits(surfaces, intersect, arrive, bend, before, legs.last()));
    }
}

/// One round of a batch through a scene that is `world` is the round of
/// the world.
proof fn lemma_round_follows_world<
    B,
    P,
    I: Fn(&B, usize) -> Interaction<P>,
    A: Fn(&B, usize, P, u64, usize) -> (B, Contact),
    D: Fn(&B, Step) -> B,
>(
    world: World<B>,
    surfaces: usize,
    intersect: I,
    arrive: A,
    bend: D,
    live: Seq<Ray<B>>,
    completed: Seq<Ray<B>>,
    legs: Seq<Leg<B, P>>,
)
    requires
        answers_as(world, surfaces, intersect, arrive, bend),
        round_fits(surfaces, intersect, arrive, bend, live, legs),
    ensures
        after_round(live, completed, legs) == world.round(live, completed),
{
    assert forall|i: int| 0 <= i < live.len() implies moved_rays(live, legs)[i] == world.all_bent(
        live,
    )[i] && encounters_of(legs)[i] == world.encounters(live)[i] by {
        assert(leg_fits(surfaces, intersect, arrive, bend, live[i], legs[i]));
    }
    assert(moved_rays(live, legs) =~= world.all_bent(live));
    assert(encounters_of(legs) =~= world.encounters(live));
}

/// Rays traced as a batch through a scene that is `world` fare as the
/// batch of the world.
pub proof fn trace_follows_world<
    B,
    P,
    I: Fn(&B, usize) -> Interaction<P>,
    A: Fn(&B, usize, P, u64, usize) -> (B, Contact),
    D: Fn(&B, Step) -> B,
>(
    world: World<B>,
    surfaces: usize,
    intersect: I,
    arrive: A,
    bend: D,
    rays: Seq<Ray<B>>,
    rounds: Seq<Seq<Leg<B, P>>>,
)
    requires
        answers_as(world, surfaces, intersect, arrive, bend),
        rounds_fit(surfaces, intersect, arrive, bend, rays, rounds),
    ensures
        after_rounds(rays, Seq::empty(), rounds) == world.batch(rays, Seq::empty(), rounds.len()),
    decreases rounds.len(),
{
    if rounds.len() > 0 {
        let front = rounds.drop_last();
        trace_follows_world(world, surfaces, intersect, arrive, bend, rays, front);
        lemma_batch_extends(world, rays, Seq::empty(), front.len());
        let before = after_rounds(rays, Seq::empty(), front);
        lemma_round_follows_world(
            world,
            surfaces,
            intersect,
            arrive,
            bend,
            before.0,
            before.1,
            rounds.last(),
        );
    }
}

/// Tracing rays in one batch gives each ray what launching it alone
/// gives, in a scene whose answers depend on the ray alone.
///
/// After its rounds the batch holds, among the live rays and in their
/// order, the rays whose own journey of as many encounters still lasts,
/// and among the completed rays those whose own journey is over, each as
/// that journey leaves it.
pub proof fn trace_equals_launches<
    B,
    P,
    I: Fn(&B, usize) -> Interaction<P>,
    A: Fn(&B, usize, P, u64, usize) -> (B, Contact),
    D: Fn(&B, Step) -> B,
>(
    world: World<B>,
    surfaces: usize,
    intersect: I,
    arrive: A,
    bend: D,
    rays: Seq<Ray<B>>,
    rounds: Seq<Seq<Leg<B, P>>>,
)
    requires
        answers_as(world, surfaces, intersect, arrive, bend),
        rounds_fit(surfaces, intersect, arrive, bend, rays, rounds),
    ensures
        after_rounds(rays, Seq::empty(), rounds).0 == world.underway(rays, rounds.len()),
        after_rounds(rays, Seq::empty(), rounds).1.to_multiset() == world.arrived(
            rays,
            rounds.len(),
        ).to_multiset(),
{
    trace_follows_world(world, surfaces, intersect, arrive, bend, rays, rounds);
    batch_equals_individual(world, rays, rounds.len());
}

} // verus!
