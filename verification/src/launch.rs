//! The journey of one ray through a scene that answers on request.
//!
//! The scene is given by its number of surfaces and three functions of
//! the numeric side. `intersect` says where a beam meets one surface;
//! `arrive` takes the beam through its medium to the point that was
//! chosen and reports what it finds there; `bend` turns the beam as the
//! interaction demands.
//! Which surface comes first, whether the media agree and what the ray
//! does next is decided here.

use vstd::prelude::*;
use crate::interaction::{interact, interaction, Contact, Step};
use crate::nearest::{all_miss, closest, is_nearest, Interaction};
use crate::ray::Ray;
use crate::sop::BounceResult;

verus! {

/// One leg of a journey: what the scene answered for one bounce.
pub struct Leg<B, P> {
    /// Where the beam meets each surface.
    pub candidates: Seq<Interaction<P>>,
    /// The beam at the end of the leg: at the nearest surface, or as it
    /// was where no surface lies ahead.
    pub moved: B,
    /// What the ray met: the contact with the nearest surface, or `None`
    /// where no surface lies ahead.
    pub encounter: Option<Contact>,
    /// The beam after the surface turned it. Read only where the ray
    /// travels on.
    pub bent: B,
}

/// Whether `leg` is an answer that the scene can give to `ray`: the
/// candidates are what `intersect` finds on each surface; the encounter
/// is the contact that `arrive` reports at the nearest candidate, or
/// nothing where every surface is missed; and where the ray travels on,
/// `bend` turns the beam that arrived.
pub open spec fn leg_fits<
    B,
    P,
    I: Fn(&B, usize) -> Interaction<P>,
    A: Fn(&B, usize, P, u64, usize) -> (B, Contact),
    D: Fn(&B, Step) -> B,
>(surfaces: usize, intersect: I, arrive: A, bend: D, ray: Ray<B>, leg: Leg<B, P>) -> bool {
    &&& leg.candidates.len() == surfaces
    &&& forall|s: int|
        0 <= s < surfaces ==> call_ensures(
            intersect,
            (&ray.beam, s as usize),
            #[trigger] leg.candidates[s],
        )
    &&& all_miss(leg.candidates) ==> leg.encounter is None && leg.moved == ray.beam
    &&& !all_miss(leg.candidates) ==> exists|s: int|
        #![trigger is_nearest(leg.candidates, s)]
        {
            &&& is_nearest(leg.candidates, s)
            &&& leg.candidates[s] matches Some((point, key))
            &&& leg.encounter matches Some(contact)
            &&& call_ensures(
                arrive,
                (&ray.beam, ray.vop, point, key, s as usize),
                (leg.moved, contact),
            )
        }
    &&& ray.outcome(leg.encounter) is Continue ==> leg.encounter is Some && call_ensures(
        bend,
        (&leg.moved, interaction(ray.vop, leg.encounter->0)),
        leg.bent,
    )
}

/// The ray at the end of `leg`.
pub open spec fn after_leg<B, P>(ray: Ray<B>, leg: Leg<B, P>) -> Ray<B> {
    Ray {
        beam: if ray.outcome(leg.encounter) is Continue {
            leg.bent
        } else {
            leg.moved
        },
        vop: ray.met(leg.encounter).vop,
        pixel_idx: ray.pixel_idx,
        result: ray.met(leg.encounter).result,
    }
}

/// The ray after it travelled all of `legs`.
pub open spec fn after_legs<B, P>(ray: Ray<B>, legs: Seq<Leg<B, P>>) -> Ray<B>
    decreases legs.len(),
{
    if legs.len() == 0 {
        ray
    } else {
        after_leg(after_legs(ray, legs.drop_last()), legs.last())
    }
}

/// The result of the last leg of a journey; `Continue` for a journey
/// without legs.
pub open spec fn last_outcome<B, P>(ray: Ray<B>, legs: Seq<Leg<B, P>>) -> BounceResult {
    if legs.len() == 0 {
        BounceResult::Continue
    } else {
        after_legs(ray, legs.drop_last()).outcome(legs.last().encounter)
    }
}

/// Whether `legs` is a journey that `ray` can make through the scene:
/// every leg is an answer of the scene to the ray as the legs before left
/// it, and every leg but the last lets the ray travel on.
pub open spec fn journey_fits<
    B,
    P,
    I: Fn(&B, usize) -> Interaction<P>,
    A: Fn(&B, usize, P, u64, usize) -> (B, Contact),
    D: Fn(&B, Step) -> B,
>(surfaces: usize, intersect: I, arrive: A, bend: D, ray: Ray<B>, legs: Seq<Leg<B, P>>) -> bool
    decreases legs.len(),
{
    if legs.len() == 0 {
        true
    } else {
        let front = legs.drop_last();
        &&& journey_fits(surfaces, intersect, arrive, bend, ray, front)
        &&& last_outcome(ray, front) is Continue
        &&& leg_fits(surfaces, intersect, arrive, bend, after_legs(ray, front), legs.last())
    }
}

/// Where a beam meets each surface of the scene.
fn intersections<B, P, I: Fn(&B, usize) -> Interaction<P>>(
    beam: &B,
    surfaces: usize,
    intersect: &I,
) -> (r: Vec<Interaction<P>>)
    requires
        forall|beam: B, surface: usize| call_requires(*intersect, (&beam, surface)),
    ensures
        r.len() == surfaces,
        forall|s: int|
            0 <= s < surfaces ==> call_ensures(*intersect, (beam, s as usize), #[trigger] r[s]),
{
    let mut candidates: Vec<Interaction<P>> = Vec::new();
    let mut s: usize = 0;
    while s < surfaces
        invariant
            s <= surfaces,
            candidates.len() == s,
            forall|beam: B, surface: usize| call_requires(*intersect, (&beam, surface)),
            forall|t: int|
                0 <= t < s ==> call_ensures(
                    *intersect,
                    (beam, t as usize),
                    #[trigger] candidates[t],
                ),
        decreases surfaces - s,
    {
        let candidate = intersect(beam, s);
        candidates.push(candidate);
        s += 1;
    }
    candidates
}

impl<B> Ray<B> {
    /// Launches the ray through the scene and returns how its journey
    /// ends.
    ///
    /// Bounce by bounce the ray is taken to the nearest surface ahead,
    /// the lowest index winning among surfaces at the same distance, and
    /// through the interaction there. It is killed where no surface lies
    /// ahead. The journey ends when the ray retires or the media
    /// disagree, and after `max_bounces` bounces at the latest: a ray
    /// that still travels then is left as it is and the result is
    /// `Continue`. The journey is one that the scene allows: some
    /// sequence of its answers leads from the ray as it was to the ray as
    /// it is.
    pub fn launch<
        P: Copy,
        I: Fn(&B, usize) -> Interaction<P>,
        A: Fn(&B, usize, P, u64, usize) -> (B, Contact),
        D: Fn(&B, Step) -> B,
    >(&mut self, surfaces: usize, intersect: I, arrive: A, bend: D, max_bounces: usize) -> (r:
        BounceResult)
        requires
            forall|beam: B, surface: usize| call_requires(intersect, (&beam, surface)),
            forall|beam: B, vop: usize, point: P, key: u64, surface: usize|
                call_requires(arrive, (&beam, vop, point, key, surface)),
            forall|beam: B, step: Step| call_requires(bend, (&beam, step)),
        ensures
            exists|legs: Seq<Leg<B, P>>|
                {
                    &&& legs.len() <= max_bounces
                    &&& #[trigger] journey_fits(surfaces, intersect, arrive, bend, *old(self), legs)
                    &&& *final(self) == after_legs(*old(self), legs)
                    &&& r == last_outcome(*old(self), legs)
                    &&& r is Continue ==> legs.len() == max_bounces
                },
    {
        let ghost mut legs: Seq<Leg<B, P>> = Seq::empty();
        let mut bounces: usize = 0;
        while bounces < max_bounces
            invariant
                bounces <= max_bounces,
                forall|beam: B, surface: usize| call_requires(intersect, (&beam, surface)),
                forall|beam: B, vop: usize, point: P, key: u64, surface: usize|
                    call_requires(arrive, (&beam, vop, point, key, surface)),
                forall|beam: B, step: Step| call_requires(bend, (&beam, step)),
                legs.len() == bounces,
                journey_fits(surfaces, intersect, arrive, bend, *old(self), legs),
                *self == after_legs(*old(self), legs),
                last_outcome(*old(self), legs) is Continue,
            decreases max_bounces - bounces,
        {
            let ghost before = *self;
            let candidates = intersections(&self.beam, surfaces, &intersect);
            let arrival: Option<(B, Contact)> = match closest(&candidates) {
                Some(s) => match candidates[s] {
                    Some((point, key)) => Some(arrive(&self.beam, self.vop, point, key, s)),
                    None => None,
                },
                None => None,
            };
            let ghost leg: Leg<B, P>;
            let result: BounceResult;
            match arrival {
                Some((moved, contact)) => {
                    let step = interact(self.vop, &contact);
                    let bent: Option<B> = match step {
                        Step::Reflected { .. } => Some(bend(&moved, step)),
                        Step::Refracted { .. } => Some(bend(&moved, step)),
                        _ => None,
                    };
                    result = self.advance(Some(contact));
                    match bent {
                        Some(beam) => {
                            proof {
                                leg =
                                Leg {
                                    candidates: candidates@,
                                    moved,
                                    encounter: Some(contact),
                                    bent: beam,
                                };
                            }
                            self.beam = beam;
                        },
                        None => {
                            proof {
                                leg =
                                Leg {
                                    candidates: candidates@,
                                    moved,
                                    encounter: Some(contact),
                                    bent: moved,
                                };
                            }
                            self.beam = moved;
                        },
                    }
                },
                None => {
                    result = self.advance(None);
                    proof {
                        leg =
                        Leg {
                            candidates: candidates@,
                            moved: before.beam,
                            encounter: None,
                            bent: before.beam,
                        };
                    }
                },
            }
            proof {
                let longer = legs.push(leg);
                assert(longer.drop_last() =~= legs);
                assert(longer.last() == leg);
                assert(leg_fits(surfaces, intersect, arrive, bend, before, leg));
                assert(*self == after_leg(before, leg));
                assert(journey_fits(surfaces, intersect, arrive, bend, *old(self), longer));
                assert(last_outcome(*old(self), longer) == result);
                legs = longer;
            }
            bounces += 1;
            match result {
                BounceResult::Continue => {},
                _ => {
                    return result;
                },
            }
        }
        BounceResult::Continue
    }
}

} // verus!
