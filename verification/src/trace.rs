//! The batch engine: one round takes every live ray to its next surface.

use vstd::prelude::*;
use crate::camera::{
    channel_mean, channel_sum, chunk, is_mean, lemma_channel_mean_bounds, lemma_channel_sum_bounds,
};
use crate::interaction::{interact, interaction, Contact, Step, VopMismatch};
use crate::nearest::{all_miss, is_nearest, IndexedInteraction, Interaction};
use crate::ray::Ray;
use crate::sop::BounceResult;

verus! {

/// What one ray meets on each surface: the column of `ray` in a table
/// that has one row per surface.
pub open spec fn candidates_of<P>(interactions: Seq<Vec<Interaction<P>>>, ray: int) -> Seq<
    Interaction<P>,
> {
    Seq::new(interactions.len(), |s: int| interactions[s]@[ray])
}

/// Whether `chosen` is the right pick among `candidates`: nothing where
/// the ray misses every surface, else the nearest candidate with its
/// point, its key and the index of its surface.
pub open spec fn selects<P>(candidates: Seq<Interaction<P>>, chosen: IndexedInteraction<P>) -> bool {
    match chosen {
        None => all_miss(candidates),
        Some((point, key, surface)) => is_nearest(candidates, surface as int)
            && candidates[surface as int] == Some((point, key)),
    }
}

/// Whether every row of the table has one entry per ray.
pub open spec fn rectangular<P>(interactions: Seq<Vec<Interaction<P>>>, num_rays: nat) -> bool {
    forall|s: int| 0 <= s < interactions.len() ==> (#[trigger] interactions[s]).len() == num_rays
}

/// The nearest interaction of one ray over all surfaces.
fn nearest_in_column<P: Copy>(interactions: &Vec<Vec<Interaction<P>>>, ray: usize) -> (r:
    IndexedInteraction<P>)
    requires
        forall|s: int| 0 <= s < interactions.len() ==> ray < (#[trigger] interactions[s]).len(),
    ensures
        selects(candidates_of(interactions@, ray as int), r),
{
    let ghost column = candidates_of(interactions@, ray as int);
    let mut best: IndexedInteraction<P> = None;
    let mut best_key: u64 = 0;
    let mut s: usize = 0;
    while s < interactions.len()
        invariant
            s <= interactions.len(),
            column == candidates_of(interactions@, ray as int),
            forall|t: int| 0 <= t < interactions.len() ==> ray < (#[trigger] interactions[t]).len(),
            selects(column.take(s as int), best),
            best matches Some((_, key, _)) ==> key == best_key,
        decreases interactions.len() - s,
    {
        let ghost before = column.take(s as int);
        let ghost after = column.take(s + 1);
        assert(forall|j: int| 0 <= j < s ==> after[j] == before[j]);
        assert(after[s as int] == interactions[s as int]@[ray as int]);
        let row = &interactions[s];
        match row[ray] {
            Some((point, key)) => {
                let replace = match best {
                    None => true,
                    Some(_) => key < best_key,
                };
                if replace {
                    best = Some((point, key, s));
                    best_key = key;
                }
            },
            None => {},
        }
        s += 1;
    }
    assert(column.take(s as int) =~= column);
    best
}

/// For every ray, the nearest of its interactions with all surfaces.
///
/// `interactions` has one row per surface and, in each row, one entry per
/// ray. The result has one entry per ray: the point with the least
/// distance key and the index of its surface, the lowest index where keys
/// are equal; `None` for a ray that misses every surface.
pub fn many_surfaces_many_rays<P: Copy>(
    interactions: &Vec<Vec<Interaction<P>>>,
    num_rays: usize,
) -> (r: Vec<IndexedInteraction<P>>)
    requires
        rectangular(interactions@, num_rays as nat),
    ensures
        r.len() == num_rays,
        forall|ray: int|
            0 <= ray < num_rays ==> selects(candidates_of(interactions@, ray), #[trigger] r[ray]),
{
    let mut positional: Vec<IndexedInteraction<P>> = Vec::new();
    let mut ray: usize = 0;
    while ray < num_rays
        invariant
            ray <= num_rays,
            positional.len() == ray,
            rectangular(interactions@, num_rays as nat),
            forall|k: int|
                0 <= k < ray ==> selects(candidates_of(interactions@, k), #[trigger] positional[k]),
        decreases num_rays - ray,
    {
        let chosen = nearest_in_column(interactions, ray);
        positional.push(chosen);
        ray += 1;
    }
    positional
}

/// Whether ray `i` meets a surface that borders another medium than its
/// own on the side of the approach.
pub open spec fn mismatch_at<B>(rays: Seq<Ray<B>>, encounters: Seq<Option<Contact>>, i: int) -> bool {
    encounters[i] matches Some(contact) && interaction(rays[i].vop, contact) is Failed
}

/// Whether the media agree for every ray of the round.
pub open spec fn consistent<B>(rays: Seq<Ray<B>>, encounters: Seq<Option<Contact>>) -> bool {
    forall|i: int| 0 <= i < rays.len() ==> !mismatch_at(rays, encounters, i)
}

/// Whether `e` is the first disagreement of media in the round: the one
/// of the first ray that meets a surface bordering another medium than
/// its own.
pub open spec fn first_disagreement<B>(
    rays: Seq<Ray<B>>,
    encounters: Seq<Option<Contact>>,
    e: VopMismatch,
) -> bool {
    exists|i: int|
        0 <= i < rays.len() && #[trigger] mismatch_at(rays, encounters, i) && (forall|j: int|
            0 <= j < i ==> !mismatch_at(rays, encounters, j)) && interaction(
            rays[i].vop,
            encounters[i]->0,
        ) == Step::Failed(e)
}

/// The rays that travel on after the round, each after its encounter, in
/// the order in which they came.
pub open spec fn survivors<B>(rays: Seq<Ray<B>>, encounters: Seq<Option<Contact>>) -> Seq<Ray<B>>
    decreases rays.len(),
{
    if rays.len() == 0 {
        Seq::empty()
    } else {
        let front = survivors(rays.drop_last(), encounters);
        let encounter = encounters[rays.len() - 1];
        if rays.last().outcome(encounter) is Continue {
            front.push(rays.last().met(encounter))
        } else {
            front
        }
    }
}

/// The rays that end their journey in the round, each with its colour, in
/// the order in which they came.
pub open spec fn retired<B>(rays: Seq<Ray<B>>, encounters: Seq<Option<Contact>>) -> Seq<Ray<B>>
    decreases rays.len(),
{
    if rays.len() == 0 {
        Seq::empty()
    } else {
        let front = retired(rays.drop_last(), encounters);
        let encounter = encounters[rays.len() - 1];
        if rays.last().outcome(encounter) is Continue {
            front
        } else {
            front.push(rays.last().met(encounter))
        }
    }
}

/// Takes one ray through the contact with its nearest surface and says
/// whether its journey is over. Fails, and leaves the ray as it was, when
/// the media disagree.
pub fn one_ray_interaction<B>(ray: &mut Ray<B>, contact: &Contact) -> (r: Result<bool, VopMismatch>)
    ensures
        *final(ray) == old(ray).met(Some(*contact)),
        match interaction(old(ray).vop, *contact) {
            Step::Failed(e) => r == Err::<bool, VopMismatch>(e),
            step => r == Ok::<bool, VopMismatch>(!(step.bounce_result() is Continue)),
        },
{
    match interact(ray.vop, contact) {
        Step::Failed(e) => Err(e),
        Step::Reflected { .. } => Ok(false),
        Step::Refracted { entering, .. } => {
            ray.vop = entering;
            Ok(false)
        },
        Step::Counted(r, g, b) => {
            ray.result = Some([r, g, b]);
            Ok(true)
        },
        Step::Killed => {
            ray.result = Some([0, 0, 0]);
            Ok(true)
        },
    }
}

/// The first disagreement of media among the rays of a round, if any.
fn first_mismatch<B>(rays: &Vec<Ray<B>>, encounters: &Vec<Option<Contact>>) -> (r: Option<
    VopMismatch,
>)
    requires
        rays.len() == encounters.len(),
    ensures
        r is None <==> consistent(rays@, encounters@),
        r matches Some(e) ==> first_disagreement(rays@, encounters@, e),
{
    let mut i: usize = 0;
    while i < rays.len()
        invariant
            i <= rays.len(),
            rays.len() == encounters.len(),
            forall|j: int| 0 <= j < i ==> !mismatch_at(rays@, encounters@, j),
        decreases rays.len() - i,
    {
        if let Some(contact) = encounters[i] {
            if let Step::Failed(e) = interact(rays[i].vop, &contact) {
                assert(mismatch_at(rays@, encounters@, i as int));
                return Some(e);
            }
        }
        i += 1;
    }
    None
}

/// One round of the engine: takes every live ray through its encounter
/// and parts the rays that travel on from those that end.
///
/// `encounters` has one entry per ray: the contact with the nearest
/// surface, or `None` where the ray misses every surface, which retires
/// it with black. Retired rays are appended to `completed`; the rays that
/// travel on are returned, in their order. Where the media disagree for
/// some ray the round fails with the first disagreement and `completed`
/// stays as it was.
pub fn many_rays_interactions<B>(
    rays: Vec<Ray<B>>,
    encounters: &Vec<Option<Contact>>,
    completed: &mut Vec<Ray<B>>,
) -> (r: Result<Vec<Ray<B>>, VopMismatch>)
    requires
        rays.len() == encounters.len(),
    ensures
        r is Ok <==> consistent(rays@, encounters@),
        r matches Ok(live) ==> live@ == survivors(rays@, encounters@) && final(completed)@ == old(
            completed,
        )@ + retired(rays@, encounters@),
        r matches Err(e) ==> final(completed)@ == old(completed)@ && first_disagreement(
            rays@,
            encounters@,
            e,
        ),
{
    if let Some(e) = first_mismatch(&rays, encounters) {
        return Err(e);
    }
    let ghost all = rays@;
    let mut new_rays: Vec<Ray<B>> = Vec::new();
    let mut k: usize = 0;
    for ray in it: rays
        invariant
            k == it.index(),
            it.seq() == all,
            all.len() == encounters.len(),
            consistent(all, encounters@),
            new_rays@ == survivors(all.take(k as int), encounters@),
            completed@ == old(completed)@ + retired(all.take(k as int), encounters@),
    {
        let ghost before = all.take(k as int);
        let ghost after = all.take(k + 1);
        assert(after.drop_last() =~= before);
        assert(after.last() == all[k as int]);
        assert(!mismatch_at(all, encounters@, k as int));
        let mut ray = ray;
        let result = ray.advance(encounters[k]);
        match result {
            BounceResult::Continue => {
                new_rays.push(ray);
            },
            _ => {
                completed.push(ray);
                assert(completed@ =~= old(completed)@ + retired(after, encounters@));
            },
        }
        k += 1;
    }
    assert(all.take(k as int) =~= all);
    Ok(new_rays)
}

/// The colours of the retired rays that were cast for `pixel`, in the
/// order of the rays.
pub open spec fn samples_of<B>(rays: Seq<Ray<B>>, pixel: int) -> Seq<[u8; 3]>
    decreases rays.len(),
{
    if rays.len() == 0 {
        Seq::empty()
    } else {
        let front = samples_of(rays.drop_last(), pixel);
        match rays.last().result {
            Some(colour) => if rays.last().pixel_idx == pixel {
                front.push(colour)
            } else {
                front
            },
            None => front,
        }
    }
}

/// A pixel has at most as many samples as there are rays.
pub proof fn lemma_samples_len<B>(rays: Seq<Ray<B>>, pixel: int)
    ensures
        samples_of(rays, pixel).len() <= rays.len(),
    decreases rays.len(),
{
    if rays.len() > 0 {
        lemma_samples_len(rays.drop_last(), pixel);
    }
}

/// The sum of a channel grows by the channel of a colour that is added.
proof fn lemma_channel_sum_push(colours: Seq<[u8; 3]>, colour: [u8; 3], channel: int)
    ensures
        channel_sum(colours.push(colour), channel) == channel_sum(colours, channel)
            + colour[channel],
{
    assert(colours.push(colour).drop_last() =~= colours);
}

/// Merges traced rays into pixels: the colour of a pixel is the mean of
/// the colours of its rays, channel by channel and rounded down.
///
/// Every ray has retired and names a pixel below `num_pixels`, and every
/// pixel has at least one ray.
pub fn process_ray_data<B>(rays: Vec<Ray<B>>, num_pixels: usize) -> (r: Vec<[u8; 3]>)
    requires
        forall|i: int| 0 <= i < rays.len() ==> (#[trigger] rays[i]).result is Some,
        forall|i: int| 0 <= i < rays.len() ==> (#[trigger] rays[i]).pixel_idx < num_pixels,
        forall|pixel: int| 0 <= pixel < num_pixels ==> #[trigger] samples_of(rays@, pixel).len() > 0,
    ensures
        r.len() == num_pixels,
        forall|pixel: int|
            0 <= pixel < num_pixels ==> is_mean(samples_of(rays@, pixel), #[trigger] r[pixel]),
{
    let mut counts: Vec<usize> = Vec::new();
    let mut reds: Vec<u128> = Vec::new();
    let mut greens: Vec<u128> = Vec::new();
    let mut blues: Vec<u128> = Vec::new();
    let mut p: usize = 0;
    while p < num_pixels
        invariant
            p <= num_pixels,
            counts.len() == p,
            reds.len() == p,
            greens.len() == p,
            blues.len() == p,
            forall|q: int| 0 <= q < p ==> #[trigger] counts[q] == 0,
            forall|q: int| 0 <= q < p ==> #[trigger] reds[q] == 0,
            forall|q: int| 0 <= q < p ==> #[trigger] greens[q] == 0,
            forall|q: int| 0 <= q < p ==> #[trigger] blues[q] == 0,
        decreases num_pixels - p,
    {
        counts.push(0);
        reds.push(0);
        greens.push(0);
        blues.push(0);
        p += 1;
    }
    let mut k: usize = 0;
    assert(rays@.take(0) =~= Seq::<Ray<B>>::empty());
    while k < rays.len()
        invariant
            k <= rays.len(),
            counts.len() == num_pixels,
            reds.len() == num_pixels,
            greens.len() == num_pixels,
            blues.len() == num_pixels,
            forall|i: int| 0 <= i < rays.len() ==> (#[trigger] rays[i]).result is Some,
            forall|i: int| 0 <= i < rays.len() ==> (#[trigger] rays[i]).pixel_idx < num_pixels,
            forall|q: int|
                0 <= q < num_pixels ==> #[trigger] counts[q] == samples_of(
                    rays@.take(k as int),
                    q,
                ).len(),
            forall|q: int|
                0 <= q < num_pixels ==> #[trigger] reds[q] == channel_sum(
                    samples_of(rays@.take(k as int), q),
                    0,
                ),
            forall|q: int|
                0 <= q < num_pixels ==> #[trigger] greens[q] == channel_sum(
                    samples_of(rays@.take(k as int), q),
                    1,
                ),
            forall|q: int|
                0 <= q < num_pixels ==> #[trigger] blues[q] == channel_sum(
                    samples_of(rays@.take(k as int), q),
                    2,
                ),
        decreases rays.len() - k,
    {
        let ghost before = rays@.take(k as int);
        let ghost after = rays@.take(k + 1);
        let pixel = rays[k].pixel_idx;
        let colour: [u8; 3] = match rays[k].result {
            Some(colour) => colour,
            None => [0, 0, 0],
        };
        proof {
            assert(after.drop_last() =~= before);
            assert(after.last() == rays[k as int]);
            let own = samples_of(before, pixel as int);
            lemma_samples_len(before, pixel as int);
            lemma_channel_sum_bounds(own, 0);
            lemma_channel_sum_bounds(own, 1);
            lemma_channel_sum_bounds(own, 2);
            lemma_channel_sum_push(own, colour, 0);
            lemma_channel_sum_push(own, colour, 1);
            lemma_channel_sum_push(own, colour, 2);
            assert(samples_of(after, pixel as int) == own.push(colour));
            assert forall|q: int| 0 <= q < num_pixels && q != pixel implies samples_of(after, q)
                == samples_of(before, q) by {}
        }
        let count = counts[pixel] + 1;
        let red = reds[pixel] + colour[0] as u128;
        let green = greens[pixel] + colour[1] as u128;
        let blue = blues[pixel] + colour[2] as u128;
        counts.set(pixel, count);
        reds.set(pixel, red);
        greens.set(pixel, green);
        blues.set(pixel, blue);
        k += 1;
    }
    assert(rays@.take(k as int) =~= rays@);
    let mut pixels: Vec<[u8; 3]> = Vec::new();
    let mut q: usize = 0;
    while q < num_pixels
        invariant
            q <= num_pixels,
            pixels.len() == q,
            counts.len() == num_pixels,
            reds.len() == num_pixels,
            greens.len() == num_pixels,
            blues.len() == num_pixels,
            forall|t: int|
                0 <= t < num_pixels ==> #[trigger] samples_of(rays@, t).len() > 0,
            forall|t: int| 0 <= t < num_pixels ==> #[trigger] counts[t] == samples_of(rays@, t).len(),
            forall|t: int|
                0 <= t < num_pixels ==> #[trigger] reds[t] == channel_sum(samples_of(rays@, t), 0),
            forall|t: int|
                0 <= t < num_pixels ==> #[trigger] greens[t] == channel_sum(
                    samples_of(rays@, t),
                    1,
                ),
            forall|t: int|
                0 <= t < num_pixels ==> #[trigger] blues[t] == channel_sum(samples_of(rays@, t), 2),
            forall|t: int| 0 <= t < q ==> is_mean(samples_of(rays@, t), #[trigger] pixels[t]),
        decreases num_pixels - q,
    {
        proof {
            let own = samples_of(rays@, q as int);
            assert(own.len() > 0);
            lemma_channel_mean_bounds(own, 0);
            lemma_channel_mean_bounds(own, 1);
            lemma_channel_mean_bounds(own, 2);
        }
        let n = counts[q] as u128;
        let colour: [u8; 3] = [(reds[q] / n) as u8, (greens[q] / n) as u8, (blues[q] / n) as u8];
        pixels.push(colour);
        q += 1;
    }
    pixels
}

/// The samples of a pixel over two runs of rays are its samples over the
/// first run followed by its samples over the second.
pub proof fn lemma_samples_concat<B>(a: Seq<Ray<B>>, b: Seq<Ray<B>>, pixel: int)
    ensures
        samples_of(a + b, pixel) == samples_of(a, pixel) + samples_of(b, pixel),
    decreases b.len(),
{
    if b.len() == 0 {
        assert(a + b =~= a);
        assert(samples_of(a, pixel) + samples_of(b, pixel) =~= samples_of(a, pixel));
    } else {
        assert((a + b).drop_last() =~= a + b.drop_last());
        assert((a + b).last() == b.last());
        lemma_samples_concat(a, b.drop_last(), pixel);
        let front = samples_of(a, pixel) + samples_of(b.drop_last(), pixel);
        match b.last().result {
            Some(colour) => {
                assert(front.push(colour) =~= samples_of(a, pixel) + samples_of(
                    b.drop_last(),
                    pixel,
                ).push(colour));
            },
            None => {},
        }
    }
}

/// The sum of a channel over two runs of colours is the sum of the sums.
pub proof fn lemma_channel_sum_concat(a: Seq<[u8; 3]>, b: Seq<[u8; 3]>, channel: int)
    ensures
        channel_sum(a + b, channel) == channel_sum(a, channel) + channel_sum(b, channel),
    decreases b.len(),
{
    if b.len() == 0 {
        assert(a + b =~= a);
    } else {
        assert((a + b).drop_last() =~= a + b.drop_last());
        assert((a + b).last() == b.last());
        lemma_channel_sum_concat(a, b.drop_last(), channel);
    }
}

/// Taking one ray out of a run takes its sample out of its pixel and
/// leaves the sums of the other rays.
proof fn lemma_samples_without<B>(rays: Seq<Ray<B>>, i: int, pixel: int, channel: int)
    requires
        0 <= i < rays.len(),
    ensures
        channel_sum(samples_of(rays, pixel), channel) == channel_sum(
            samples_of(rays.remove(i), pixel),
            channel,
        ) + channel_sum(samples_of(seq![rays[i]], pixel), channel),
        samples_of(rays, pixel).len() == samples_of(rays.remove(i), pixel).len() + samples_of(
            seq![rays[i]],
            pixel,
        ).len(),
{
    let head = rays.subrange(0, i);
    let one = seq![rays[i]];
    let tail = rays.subrange(i + 1, rays.len() as int);
    assert(rays =~= (head + one) + tail);
    assert(rays.remove(i) =~= head + tail);
    lemma_samples_concat(head + one, tail, pixel);
    lemma_samples_concat(head, one, pixel);
    lemma_samples_concat(head, tail, pixel);
    let sh = samples_of(head, pixel);
    let so = samples_of(one, pixel);
    let st = samples_of(tail, pixel);
    lemma_channel_sum_concat(sh + so, st, channel);
    lemma_channel_sum_concat(sh, so, channel);
    lemma_channel_sum_concat(sh, st, channel);
}

/// The colour of a pixel does not depend on the order in which its rays
/// retired: two runs that hold the same rays, each as often, give every
/// pixel as many samples and the same sum in every channel, and so the
/// same mean.
pub proof fn pixels_ignore_order<B>(
    first: Seq<Ray<B>>,
    second: Seq<Ray<B>>,
    pixel: int,
    channel: int,
)
    requires
        first.to_multiset() == second.to_multiset(),
    ensures
        samples_of(first, pixel).len() == samples_of(second, pixel).len(),
        channel_sum(samples_of(first, pixel), channel) == channel_sum(
            samples_of(second, pixel),
            channel,
        ),
        channel_mean(samples_of(first, pixel), channel) == channel_mean(
            samples_of(second, pixel),
            channel,
        ),
    decreases first.len(),
{
    broadcast use vstd::seq_lib::group_to_multiset_ensures;

    vstd::seq_lib::to_multiset_len(first);
    vstd::seq_lib::to_multiset_len(second);
    if first.len() == 0 {
        assert(second.len() == 0);
        assert(first =~= second);
    } else {
        let ray = first.last();
        assert(first.contains(ray));
        assert(first.to_multiset().count(ray) > 0);
        assert(second.contains(ray));
        let i = choose|i: int| 0 <= i < second.len() && second[i] == ray;
        let rest = first.len() - 1;
        assert(first.remove(rest) =~= first.drop_last());
        assert(first.remove(rest).to_multiset() == first.to_multiset().remove(ray));
        assert(second.remove(i).to_multiset() == second.to_multiset().remove(ray));
        pixels_ignore_order(first.drop_last(), second.remove(i), pixel, channel);
        lemma_samples_without(first, rest, pixel, channel);
        lemma_samples_without(second, i, pixel, channel);
    }
}

/// The colours that rays retired with, in the order of the rays.
pub open spec fn colours_of<B>(rays: Seq<Ray<B>>) -> Seq<[u8; 3]> {
    Seq::new(rays.len(), |k: int| rays[k].result.unwrap())
}

/// Whether the rays of each pixel stand side by side, `size` of them, and
/// all have retired.
pub open spec fn in_runs<B>(rays: Seq<Ray<B>>, size: int) -> bool {
    forall|k: int|
        0 <= k < rays.len() ==> (#[trigger] rays[k]).result is Some && rays[k].pixel_idx == k
            / size
}

/// The samples of a pixel among the first `n` rays are the part of its
/// run that lies below `n`.
proof fn lemma_samples_are_a_run<B>(rays: Seq<Ray<B>>, size: int, pixel: int, n: int)
    requires
        size > 0,
        pixel >= 0,
        in_runs(rays, size),
        0 <= n <= rays.len(),
    ensures
        samples_of(rays.take(n), pixel) == colours_of(rays).subrange(
            if pixel * size <= n {
                pixel * size
            } else {
                n
            },
            if (pixel + 1) * size <= n {
                (pixel + 1) * size
            } else {
                n
            },
        ),
    decreases n,
{
    let colours = colours_of(rays);
    let low = pixel * size;
    let high = (pixel + 1) * size;
    assert(high == low + size) by (nonlinear_arith)
        requires
            low == pixel * size,
            high == (pixel + 1) * size,
    ;
    if n == 0 {
        assert(0 <= low) by (nonlinear_arith)
            requires
                low == pixel * size,
                pixel >= 0,
                size > 0,
        ;
        assert(samples_of(rays.take(0), pixel) =~= colours.subrange(0, 0));
    } else {
        let last = n - 1;
        lemma_samples_are_a_run(rays, size, pixel, last);
        assert(rays.take(n).drop_last() =~= rays.take(last));
        assert(rays.take(n).last() == rays[last]);
        assert(rays[last].result is Some);
        assert((last / size == pixel) <==> (low <= last < high)) by (nonlinear_arith)
            requires
                size > 0,
                last >= 0,
                low == pixel * size,
                high == low + size,
        ;
        if low <= last < high {
            assert(samples_of(rays.take(n), pixel) =~= colours.subrange(low, n));
        } else if last < low {
            assert(samples_of(rays.take(n), pixel) =~= colours.subrange(n, n));
            assert(colours.subrange(n, n) =~= colours.subrange(last, last));
            if low <= n {
                assert(colours.subrange(low, n) =~= colours.subrange(n, n));
            }
        } else {
            assert(samples_of(rays.take(n), pixel) =~= colours.subrange(low, high));
        }
    }
}

/// Pixels from rays and pixels from runs of colours are the same pixels:
/// where the rays of each pixel stand side by side, the samples of a
/// pixel are its run of colours, so that [`process_ray_data`] over the
/// rays and [`crate::camera::combine_rays`] over their colours average
/// the same values.
pub proof fn samples_are_runs_of_colours<B>(rays: Seq<Ray<B>>, size: int, pixel: int)
    requires
        size > 0,
        in_runs(rays, size),
        0 <= pixel,
        pixel * size < rays.len(),
    ensures
        samples_of(rays, pixel) == chunk(colours_of(rays), size, pixel),
{
    lemma_samples_are_a_run(rays, size, pixel, rays.len() as int);
    assert(rays.take(rays.len() as int) =~= rays);
}

} // verus!
