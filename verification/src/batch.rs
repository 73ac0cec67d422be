//! The journey of many rays at once: round after round, every live ray is
//! taken to its nearest surface and through the interaction there.

use vstd::prelude::*;
use crate::interaction::{interact, Contact, Step, VopMismatch};
use crate::launch::{after_leg, leg_fits, Leg};
use crate::nearest::{IndexedInteraction, Interaction};
use crate::ray::Ray;
use crate::trace::{
    candidates_of, consistent, first_disagreement, many_rays_interactions,
    many_surfaces_many_rays, rectangular, retired, survivors,
};

verus! {

/// Whether `legs` holds, for every ray of a round, an answer that the
/// scene can give to it.
pub open spec fn round_fits<
    B,
    P,
    I: Fn(&B, usize) -> Interaction<P>,
    A: Fn(&B, usize, P, u64, usize) -> (B, Contact),
    D: Fn(&B, Step) -> B,
>(surfaces: usize, intersect: I, arrive: A, bend: D, live: Seq<Ray<B>>, legs: Seq<Leg<B, P>>) -> bool {
    &&& legs.len() == live.len()
    &&& forall|i: int|
        0 <= i < live.len() ==> leg_fits(surfaces, intersect, arrive, bend, live[i], #[trigger] legs[i])
}

/// The rays of a round, each with its beam at the end of its leg.
pub open spec fn moved_rays<B, P>(live: Seq<Ray<B>>, legs: Seq<Leg<B, P>>) -> Seq<Ray<B>> {
    Seq::new(
        live.len(),
        |i: int|
            Ray {
                beam: after_leg(live[i], legs[i]).beam,
                vop: live[i].vop,
                pixel_idx: live[i].pixel_idx,
                result: live[i].result,
            },
    )
}

/// What the rays of a round met.
pub open spec fn encounters_of<B, P>(legs: Seq<Leg<B, P>>) -> Seq<Option<Contact>> {
    Seq::new(legs.len(), |i: int| legs[i].encounter)
}

/// The live and the completed rays after one round with these legs.
pub open spec fn after_round<B, P>(
    live: Seq<Ray<B>>,
    completed: Seq<Ray<B>>,
    legs: Seq<Leg<B, P>>,
) -> (Seq<Ray<B>>, Seq<Ray<B>>) {
    (
        survivors(moved_rays(live, legs), encounters_of(legs)),
        completed + retired(moved_rays(live, legs), encounters_of(legs)),
    )
}

/// The live and the completed rays after all of `rounds`.
pub open spec fn after_rounds<B, P>(
    live: Seq<Ray<B>>,
    completed: Seq<Ray<B>>,
    rounds: Seq<Seq<Leg<B, P>>>,
) -> (Seq<Ray<B>>, Seq<Ray<B>>)
    decreases rounds.len(),
{
    if rounds.len() == 0 {
        (live, completed)
    } else {
        let before = after_rounds(live, completed, rounds.drop_last());
        after_round(before.0, before.1, rounds.last())
    }
}

/// Whether `rounds` is a run that the scene allows for `live`: in every
/// round the legs are answers of the scene to the rays that the rounds
/// before left live, and the media agree.
pub open spec fn rounds_fit<
    B,
    P,
    I: Fn(&B, usize) -> Interaction<P>,
    A: Fn(&B, usize, P, u64, usize) -> (B, Contact),
    D: Fn(&B, Step) -> B,
>(
    surfaces: usize,
    intersect: I,
    arrive: A,
    bend: D,
    live: Seq<Ray<B>>,
    rounds: Seq<Seq<Leg<B, P>>>,
) -> bool
    decreases rounds.len(),
{
    if rounds.len() == 0 {
        true
    } else {
        let front = rounds.drop_last();
        let before = after_rounds(live, Seq::empty(), front).0;
        &&& rounds_fit(surfaces, intersect, arrive, bend, live, front)
        &&& round_fits(surfaces, intersect, arrive, bend, before, rounds.last())
        &&& consistent(moved_rays(before, rounds.last()), encounters_of(rounds.last()))
    }
}

/// Whether a run that the scene allows breaks off after `rounds` with
/// `e`: in the round that follows, with these legs, the media disagree
/// for some ray, and `e` is the first disagreement.
pub open spec fn breaks_off<
    B,
    P,
    I: Fn(&B, usize) -> Interaction<P>,
    A: Fn(&B, usize, P, u64, usize) -> (B, Contact),
    D: Fn(&B, Step) -> B,
>(
    surfaces: usize,
    intersect: I,
    arrive: A,
    bend: D,
    live: Seq<Ray<B>>,
    rounds: Seq<Seq<Leg<B, P>>>,
    legs: Seq<Leg<B, P>>,
    e: VopMismatch,
) -> bool {
    let before = after_rounds(live, Seq::empty(), rounds).0;
    &&& rounds_fit(surfaces, intersect, arrive, bend, live, rounds)
    &&& round_fits(surfaces, intersect, arrive, bend, before, legs)
    &&& first_disagreement(moved_rays(before, legs), encounters_of(legs), e)
}

/// Where every ray meets every surface: one row per surface, one entry
/// per ray.
fn all_intersections<B, P, I: Fn(&B, usize) -> Interaction<P>>(
    rays: &Vec<Ray<B>>,
    surfaces: usize,
    intersect: &I,
) -> (r: Vec<Vec<Interaction<P>>>)
    requires
        forall|beam: B, surface: usize| call_requires(*intersect, (&beam, surface)),
    ensures
        r.len() == surfaces,
        rectangular(r@, rays.len() as nat),
        forall|s: int, i: int|
            0 <= s < surfaces && 0 <= i < rays.len() ==> call_ensures(
                *intersect,
                (&rays[i].beam, s as usize),
                #[trigger] r[s]@[i],
            ),
{
    let mut table: Vec<Vec<Interaction<P>>> = Vec::new();
    let mut s: usize = 0;
    while s < surfaces
        invariant
            s <= surfaces,
            table.len() == s,
            forall|beam: B, surface: usize| call_requires(*intersect, (&beam, surface)),
            forall|t: int| 0 <= t < s ==> (#[trigger] table[t]).len() == rays.len(),
            forall|t: int, i: int|
                0 <= t < s && 0 <= i < rays.len() ==> call_ensures(
                    *intersect,
                    (&rays[i].beam, t as usize),
                    #[trigger] table[t]@[i],
                ),
        decreases surfaces - s,
    {
        let mut row: Vec<Interaction<P>> = Vec::new();
        let mut i: usize = 0;
        while i < rays.len()
            invariant
                i <= rays.len(),
                s < surfaces,
                row.len() == i,
                forall|beam: B, surface: usize| call_requires(*intersect, (&beam, surface)),
                forall|j: int|
                    0 <= j < i ==> call_ensures(
                        *intersect,
                        (&rays[j].beam, s),
                        #[trigger] row[j],
                    ),
            decreases rays.len() - i,
        {
            let candidate = intersect(&rays[i].beam, s);
            row.push(candidate);
            i += 1;
        }
        table.push(row);
        s += 1;
    }
    table
}

/// Takes every ray of a round to its nearest surface: the rays with their
/// beams at the end of the leg, and what each ray met.
fn meet_all<
    B,
    P: Copy,
    I: Fn(&B, usize) -> Interaction<P>,
    A: Fn(&B, usize, P, u64, usize) -> (B, Contact),
    D: Fn(&B, Step) -> B,
>(rays: Vec<Ray<B>>, surfaces: usize, intersect: &I, arrive: &A, bend: &D) -> (r: (
    Vec<Ray<B>>,
    Vec<Option<Contact>>,
    Ghost<Seq<Leg<B, P>>>,
))
    requires
        forall|beam: B, surface: usize| call_requires(*intersect, (&beam, surface)),
        forall|beam: B, vop: usize, point: P, key: u64, surface: usize|
            call_requires(*arrive, (&beam, vop, point, key, surface)),
        forall|beam: B, step: Step| call_requires(*bend, (&beam, step)),
    ensures
        round_fits(surfaces, *intersect, *arrive, *bend, rays@, r.2@),
        r.0@ == moved_rays(rays@, r.2@),
        r.1@ == encounters_of(r.2@),
{
    let table = all_intersections(&rays, surfaces, intersect);
    let indexed: Vec<IndexedInteraction<P>> = many_surfaces_many_rays(&table, rays.len());
    let ghost all = rays@;
    let ghost mut legs: Seq<Leg<B, P>> = Seq::empty();
    let mut moved_on: Vec<Ray<B>> = Vec::new();
    let mut encounters: Vec<Option<Contact>> = Vec::new();
    let mut k: usize = 0;
    for ray in it: rays
        invariant
            k == it.index(),
            it.seq() == all,
            all.len() == indexed.len(),
            table.len() == surfaces,
            rectangular(table@, all.len()),
            forall|beam: B, vop: usize, point: P, key: u64, surface: usize|
                call_requires(*arrive, (&beam, vop, point, key, surface)),
            forall|beam: B, step: Step| call_requires(*bend, (&beam, step)),
            forall|s: int, i: int|
                0 <= s < surfaces && 0 <= i < all.len() ==> call_ensures(
                    *intersect,
                    (&all[i].beam, s as usize),
                    #[trigger] table[s]@[i],
                ),
            forall|i: int|
                0 <= i < all.len() ==> crate::trace::selects(
                    candidates_of(table@, i),
                    #[trigger] indexed[i],
                ),
            legs.len() == k,
            moved_on.len() == k,
            encounters.len() == k,
            forall|i: int|
                0 <= i < k ==> leg_fits(
                    surfaces,
                    *intersect,
                    *arrive,
                    *bend,
                    all[i],
                    #[trigger] legs[i],
                ),
            forall|i: int|
                0 <= i < k ==> #[trigger] moved_on[i] == (Ray {
                    beam: after_leg(all[i], legs[i]).beam,
                    vop: all[i].vop,
                    pixel_idx: all[i].pixel_idx,
                    result: all[i].result,
                }),
            forall|i: int| 0 <= i < k ==> #[trigger] encounters[i] == legs[i].encounter,
    {
        let ghost candidates = candidates_of(table@, k as int);
        assert(crate::trace::selects(candidates, indexed[k as int]));
        assert forall|s: int| 0 <= s < surfaces implies call_ensures(
            *intersect,
            (&ray.beam, s as usize),
            #[trigger] candidates[s],
        ) by {
            assert(candidates[s] == table[s]@[k as int]);
        }
        let ghost leg: Leg<B, P>;
        match indexed[k] {
            Some((point, key, surface)) => {
                let (moved, contact) = arrive(&ray.beam, ray.vop, point, key, surface);
                let step = interact(ray.vop, &contact);
                let bent: Option<B> = match step {
                    Step::Reflected { .. } => Some(bend(&moved, step)),
                    Step::Refracted { .. } => Some(bend(&moved, step)),
                    _ => None,
                };
                let Ray { beam: _, vop, pixel_idx, result } = ray;
                match bent {
                    Some(beam) => {
                        proof {
                            leg =
                            Leg { candidates, moved, encounter: Some(contact), bent: beam };
                        }
                        moved_on.push(Ray { beam, vop, pixel_idx, result });
                    },
                    None => {
                        proof {
                            leg =
                            Leg { candidates, moved, encounter: Some(contact), bent: moved };
                        }
                        moved_on.push(Ray { beam: moved, vop, pixel_idx, result });
                    },
                }
                encounters.push(Some(contact));
                assert(crate::nearest::is_nearest(candidates, surface as int));
            },
            None => {
                proof {
                    leg = Leg { candidates, moved: ray.beam, encounter: None, bent: ray.beam };
                }
                moved_on.push(ray);
                encounters.push(None);
            },
        }
        proof {
            assert(leg_fits(surfaces, *intersect, *arrive, *bend, all[k as int], leg));
            legs = legs.push(leg);
        }
        k += 1;
    }
    assert(moved_on@ =~= moved_rays(all, legs));
    assert(encounters@ =~= encounters_of(legs));
    (moved_on, encounters, Ghost(legs))
}

/// Traces all rays through the scene, round by round, until none is left
/// or `max_rounds` rounds are done.
///
/// In every round each live ray is taken to the nearest surface ahead,
/// the lowest index winning among surfaces at the same distance, and
/// through the interaction there; a ray with no surface ahead is killed.
/// Returns the completed rays, in the order in which they retired, and
/// the rays that still travel after the last round. Fails at the first
/// round in which the media disagree for some ray. The run is one that
/// the scene allows: some sequence of its answers, round by round, leads
/// from the rays as they were to the rays as they are.
pub fn trace_rays<
    B,
    P: Copy,
    I: Fn(&B, usize) -> Interaction<P>,
    A: Fn(&B, usize, P, u64, usize) -> (B, Contact),
    D: Fn(&B, Step) -> B,
>(rays: Vec<Ray<B>>, surfaces: usize, intersect: I, arrive: A, bend: D, max_rounds: usize) -> (r:
    Result<(Vec<Ray<B>>, Vec<Ray<B>>), VopMismatch>)
    requires
        forall|beam: B, surface: usize| call_requires(intersect, (&beam, surface)),
        forall|beam: B, vop: usize, point: P, key: u64, surface: usize|
            call_requires(arrive, (&beam, vop, point, key, surface)),
        forall|beam: B, step: Step| call_requires(bend, (&beam, step)),
    ensures
        r matches Ok((completed, live)) ==> exists|rounds: Seq<Seq<Leg<B, P>>>|
            {
                &&& rounds.len() <= max_rounds
                &&& #[trigger] rounds_fit(surfaces, intersect, arrive, bend, rays@, rounds)
                &&& (live@, completed@) == after_rounds(rays@, Seq::empty(), rounds)
                &&& live.len() > 0 ==> rounds.len() == max_rounds
            },
        r matches Err(e) ==> exists|rounds: Seq<Seq<Leg<B, P>>>, legs: Seq<Leg<B, P>>|
            rounds.len() < max_rounds && #[trigger] breaks_off(
                surfaces,
                intersect,
                arrive,
                bend,
                rays@,
                rounds,
                legs,
                e,
            ),
{
    let ghost start = rays@;
    let ghost mut rounds: Seq<Seq<Leg<B, P>>> = Seq::empty();
    let mut live: Vec<Ray<B>> = rays;
    let mut completed: Vec<Ray<B>> = Vec::new();
    let mut done: usize = 0;
    while done < max_rounds && live.len() > 0
        invariant
            done <= max_rounds,
            rounds.len() == done,
            start == rays@,
            forall|beam: B, surface: usize| call_requires(intersect, (&beam, surface)),
            forall|beam: B, vop: usize, point: P, key: u64, surface: usize|
                call_requires(arrive, (&beam, vop, point, key, surface)),
            forall|beam: B, step: Step| call_requires(bend, (&beam, step)),
            rounds_fit(surfaces, intersect, arrive, bend, start, rounds),
            (live@, completed@) == after_rounds(start, Seq::empty(), rounds),
        decreases max_rounds - done,
    {
        let ghost before = live@;
        let (moved, encounters, Ghost(legs)) = meet_all(live, surfaces, &intersect, &arrive, &bend);
        assert(encounters.len() == moved.len());
        let ghost moved_view = moved@;
        match many_rays_interactions(moved, &encounters, &mut completed) {
            Ok(next) => {
                live = next;
                proof {
                    let longer = rounds.push(legs);
                    assert(longer.drop_last() =~= rounds);
                    assert(longer.last() == legs);
                    rounds = longer;
                }
            },
            Err(e) => {
                assert(before == after_rounds(start, Seq::empty(), rounds).0);
                assert(moved_view == moved_rays(before, legs));
                assert(first_disagreement(moved_view, encounters@, e));
                assert(breaks_off(surfaces, intersect, arrive, bend, start, rounds, legs, e));
                return Err(e);
            },
        }
        done += 1;
    }
    Ok((completed, live))
}

} // verus!
