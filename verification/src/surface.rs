//! Rules of the surfaces that do not need real numbers: which point of a
//! line a ray meets, and what patterned surfaces show at a point.

use vstd::prelude::*;
use crate::sop::SOP;

verus! {

/// A point where the line of a ray crosses a shape.
#[derive(Debug, Clone)]
pub struct Crossing<P> {
    /// The point, owned by the numeric side.
    pub point: P,
    /// Whether the point lies ahead of the origin of the ray, along its
    /// direction.
    pub ahead: bool,
    /// The key of the squared distance from the origin of the ray.
    pub key: u64,
}

/// Whether a ray can meet a crossing: the crossing lies ahead and not
/// nearer than `tolerance`, so that the point the ray starts from does
/// not count.
pub open spec fn reachable<P>(crossing: Crossing<P>, tolerance: u64) -> bool {
    crossing.ahead && crossing.key >= tolerance
}

/// Whether crossing `i` is the one a ray meets: it is reachable, no
/// reachable crossing is nearer, and every reachable crossing before it is
/// farther.
pub open spec fn is_first_crossing<P>(crossings: Seq<Crossing<P>>, tolerance: u64, i: int) -> bool {
    &&& 0 <= i < crossings.len()
    &&& reachable(crossings[i], tolerance)
    &&& forall|j: int|
        0 <= j < crossings.len() && reachable(#[trigger] crossings[j], tolerance)
            ==> crossings[i].key <= crossings[j].key
    &&& forall|j: int|
        0 <= j < i && reachable(#[trigger] crossings[j], tolerance) ==> crossings[i].key
            < crossings[j].key
}

/// Whether a ray can meet none of the crossings.
pub open spec fn none_reachable<P>(crossings: Seq<Crossing<P>>, tolerance: u64) -> bool {
    forall|j: int| 0 <= j < crossings.len() ==> !reachable(#[trigger] crossings[j], tolerance)
}

/// Picks, among the points where the line of a ray crosses a shape, the
/// point that the ray meets: the nearest one that lies ahead and is not
/// nearer than `tolerance`, the first such one where distances are equal.
pub fn pick_closest_intersection<P: Copy>(
    line_intersections: &Vec<Crossing<P>>,
    tolerance: u64,
) -> (r: Option<P>)
    ensures
        r is None <==> none_reachable(line_intersections@, tolerance),
        r matches Some(point) ==> exists|i: int|
            #[trigger] is_first_crossing(line_intersections@, tolerance, i)
                && line_intersections[i].point == point,
{
    let mut best: Option<usize> = None;
    let mut best_key: u64 = 0;
    let mut k: usize = 0;
    while k < line_intersections.len()
        invariant
            k <= line_intersections.len(),
            best is None ==> none_reachable(line_intersections@.take(k as int), tolerance),
            best matches Some(i) ==> {
                &&& i < k
                &&& is_first_crossing(line_intersections@.take(k as int), tolerance, i as int)
                &&& line_intersections[i as int].key == best_key
            },
        decreases line_intersections.len() - k,
    {
        let ghost before = line_intersections@.take(k as int);
        let ghost after = line_intersections@.take(k + 1);
        assert(forall|j: int| 0 <= j < k ==> after[j] == before[j]);
        assert(after[k as int] == line_intersections[k as int]);
        let crossing = &line_intersections[k];
        if crossing.ahead && crossing.key >= tolerance {
            let replace = match best {
                None => true,
                Some(_) => crossing.key < best_key,
            };
            if replace {
                best = Some(k);
                best_key = crossing.key;
            }
        }
        k += 1;
    }
    assert(line_intersections@.take(k as int) =~= line_intersections@);
    match best {
        Some(i) => {
            assert(is_first_crossing(line_intersections@, tolerance, i as int));
            Some(line_intersections[i].point)
        },
        None => None,
    }
}

/// What a checkerboard shows on the tile `(tile_x, tile_y)`: its own
/// behaviour on tiles whose coordinates have an even sum, dark on the
/// others.
pub open spec fn checkerboard_pattern(tile_x: i64, tile_y: i64, sop: SOP) -> SOP {
    if (tile_x + tile_y) % 2 == 0 {
        sop
    } else {
        SOP::Dark
    }
}

/// The behaviour of a checkerboard on one of its tiles.
pub fn checkerboard_sop(tile_x: i64, tile_y: i64, sop: SOP) -> (r: SOP)
    ensures
        r == checkerboard_pattern(tile_x, tile_y, sop),
{
    let odd_x: bool = tile_x % 2 != 0;
    let odd_y: bool = tile_y % 2 != 0;
    if odd_x == odd_y {
        sop
    } else {
        SOP::Dark
    }
}

/// What a surface painted with the Mandelbrot set shows at a point whose
/// orbit escaped after `iterations` steps out of `maxiter`: dark inside
/// the set, else the colour of the map at the same share of its length.
pub open spec fn mandelbrot_pattern(iterations: usize, maxiter: usize, colormap: Seq<[u8; 3]>) -> SOP {
    if iterations == maxiter {
        SOP::Dark
    } else {
        let colour = colormap[colormap.len() * iterations / (maxiter as int)];
        SOP::Light(colour[0], colour[1], colour[2])
    }
}

/// The behaviour of a Mandelbrot plane at a point, from the number of
/// iterations the point took.
pub fn mandelbrot_sop(iterations: usize, maxiter: usize, colormap: &Vec<[u8; 3]>) -> (r: SOP)
    requires
        iterations <= maxiter,
        iterations < maxiter ==> colormap.len() > 0,
    ensures
        r == mandelbrot_pattern(iterations, maxiter, colormap@),
{
    if iterations == maxiter {
        SOP::Dark
    } else {
        let len = colormap.len();
        assert(0 <= len * iterations <= usize::MAX * usize::MAX && (len * iterations) / (
        maxiter as int) < len) by (nonlinear_arith)
            requires
                0 <= iterations < maxiter,
                0 < len <= usize::MAX,
                iterations <= usize::MAX,
        ;
        let index = ((len as u128) * (iterations as u128) / (maxiter as u128)) as usize;
        let colour = &colormap[index];
        SOP::Light(colour[0], colour[1], colour[2])
    }
}

/// The grey that a Mandelbrot sphere shows at a point: white where the
/// orbit escapes at once, darker the longer it stays, black inside the set.
pub open spec fn mandelbrot_grey(iterations: usize, maxiter: usize) -> int {
    255 - iterations * 255 / (maxiter as int)
}

/// The behaviour of a Mandelbrot sphere at a point, from the number of
/// iterations the point took.
pub fn mandelbrot_shade(iterations: usize, maxiter: usize) -> (r: SOP)
    requires
        iterations <= maxiter,
        maxiter > 0,
    ensures
        0 <= mandelbrot_grey(iterations, maxiter) <= 255,
        r == SOP::Light(
            mandelbrot_grey(iterations, maxiter) as u8,
            mandelbrot_grey(iterations, maxiter) as u8,
            mandelbrot_grey(iterations, maxiter) as u8,
        ),
{
    assert(0 <= iterations * 255 <= usize::MAX * 255 && 0 <= (iterations * 255) / (maxiter as int)
        <= 255) by (nonlinear_arith)
        requires
            0 <= iterations <= maxiter,
            0 < maxiter,
            iterations <= usize::MAX,
    ;
    let dark = ((iterations as u128) * 255 / (maxiter as u128)) as u8;
    let colour: u8 = 255 - dark;
    SOP::Light(colour, colour, colour)
}

/// The cap on Mandelbrot iterations where a scene names none.
pub fn default_mandelbrot_maxiter() -> (n: usize)
    ensures
        n == 50,
{
    50
}

/// The length of a colour map where a scene names none.
pub fn default_num_colors() -> (n: usize)
    ensures
        n == 1000,
{
    1000
}

/// The samples per pixel and axis where a scene names none.
pub fn default_antialiasing() -> (n: usize)
    ensures
        n == 1,
{
    1
}

} // verus!
