//! From retired rays to pixels.

use vstd::prelude::*;
use crate::ray::Ray;
use crate::sop::BounceResult;

verus! {

/// The sum of one channel over a sequence of colours.
pub open spec fn channel_sum(colours: Seq<[u8; 3]>, channel: int) -> int
    decreases colours.len(),
{
    if colours.len() == 0 {
        0
    } else {
        channel_sum(colours.drop_last(), channel) + colours.last()[channel]
    }
}

/// The mean of one channel over a sequence of colours, rounded down.
pub open spec fn channel_mean(colours: Seq<[u8; 3]>, channel: int) -> int
    recommends
        colours.len() > 0,
{
    channel_sum(colours, channel) / (colours.len() as int)
}

/// Whether `colour` is the mean of `colours`, channel by channel.
pub open spec fn is_mean(colours: Seq<[u8; 3]>, colour: [u8; 3]) -> bool {
    forall|channel: int| 0 <= channel < 3 ==> #[trigger] colour[channel] == channel_mean(colours, channel)
}

/// A sum of channel values is at most 255 times their number.
pub proof fn lemma_channel_sum_bounds(colours: Seq<[u8; 3]>, channel: int)
    requires
        0 <= channel < 3,
    ensures
        0 <= channel_sum(colours, channel) <= 255 * colours.len(),
    decreases colours.len(),
{
    if colours.len() > 0 {
        lemma_channel_sum_bounds(colours.drop_last(), channel);
    }
}

/// The mean of channel values is a channel value.
pub proof fn lemma_channel_mean_bounds(colours: Seq<[u8; 3]>, channel: int)
    requires
        0 <= channel < 3,
        colours.len() > 0,
    ensures
        0 <= channel_mean(colours, channel) <= 255,
{
    lemma_channel_sum_bounds(colours, channel);
    let sum = channel_sum(colours, channel);
    let n = colours.len() as int;
    assert(0 <= sum / n <= 255) by (nonlinear_arith)
        requires
            0 <= sum <= 255 * n,
            n > 0,
    ;
}

/// The mean colour of `arr3[start..end]`.
fn average_range(arr3: &[[u8; 3]], start: usize, end: usize) -> (r: [u8; 3])
    requires
        start < end <= arr3.len(),
    ensures
        is_mean(arr3@.subrange(start as int, end as int), r),
{
    let ghost colours = arr3@.subrange(start as int, end as int);
    let mut red: u128 = 0;
    let mut green: u128 = 0;
    let mut blue: u128 = 0;
    let mut i: usize = start;
    while i < end
        invariant
            start <= i <= end <= arr3.len(),
            colours == arr3@.subrange(start as int, end as int),
            red == channel_sum(colours.take(i - start), 0),
            green == channel_sum(colours.take(i - start), 1),
            blue == channel_sum(colours.take(i - start), 2),
        decreases end - i,
    {
        let ghost before = colours.take(i - start);
        let ghost after = colours.take(i - start + 1);
        assert(after.drop_last() =~= before);
        assert(after.last() == arr3[i as int]);
        proof {
            lemma_channel_sum_bounds(before, 0);
            lemma_channel_sum_bounds(before, 1);
            lemma_channel_sum_bounds(before, 2);
        }
        let elem = &arr3[i];
        red = red + elem[0] as u128;
        green = green + elem[1] as u128;
        blue = blue + elem[2] as u128;
        i += 1;
    }
    assert(colours.take(end - start) =~= colours);
    proof {
        lemma_channel_mean_bounds(colours, 0);
        lemma_channel_mean_bounds(colours, 1);
        lemma_channel_mean_bounds(colours, 2);
    }
    let n: u128 = (end - start) as u128;
    [(red / n) as u8, (green / n) as u8, (blue / n) as u8]
}

/// The mean of a run of colours, channel by channel, rounded down.
pub fn average_array3(arr3: &[[u8; 3]]) -> (r: [u8; 3])
    requires
        arr3.len() > 0,
    ensures
        is_mean(arr3@, r),
{
    assert(arr3@.subrange(0, arr3.len() as int) =~= arr3@);
    average_range(arr3, 0, arr3.len())
}

/// The number of chunks of `size` colours that `len` colours fall into,
/// the last one possibly short.
pub open spec fn chunk_count(len: int, size: int) -> int
    recommends
        size > 0,
{
    (len + size - 1) / size
}

/// Chunk `k` of `results` when they are cut into runs of `size` colours.
pub open spec fn chunk(results: Seq<[u8; 3]>, size: int, k: int) -> Seq<[u8; 3]> {
    results.subrange(
        k * size,
        if (k + 1) * size <= results.len() {
            (k + 1) * size
        } else {
            results.len() as int
        },
    )
}

/// A length that ends inside or at the end of chunk `k` makes `k + 1`
/// chunks.
proof fn lemma_chunk_count(len: int, size: int, k: int)
    requires
        size > 0,
        k >= 0,
        k * size < len <= (k + 1) * size,
    ensures
        chunk_count(len, size) == k + 1,
{
    assert((len + size - 1) / size == k + 1) by (nonlinear_arith)
        requires
            size > 0,
            k >= 0,
            k * size < len <= (k + 1) * size,
    ;
}

/// Combines the colours of the rays of each pixel into the colour of the
/// pixel.
///
/// `results` holds the colours sample by sample, the samples of one pixel
/// side by side: `antialiasing` squared of them. Each run of that length
/// becomes its mean, channel by channel and rounded down; a short run at
/// the end is averaged over the samples it has.
pub fn combine_rays(results: Vec<[u8; 3]>, antialiasing: usize) -> (r: Vec<[u8; 3]>)
    requires
        antialiasing >= 1,
        antialiasing * antialiasing <= usize::MAX,
    ensures
        r.len() == chunk_count(results.len() as int, antialiasing * antialiasing),
        forall|k: int|
            0 <= k < r.len() ==> is_mean(
                chunk(results@, antialiasing * antialiasing, k),
                #[trigger] r[k],
            ),
{
    assert(antialiasing * antialiasing >= 1) by (nonlinear_arith)
        requires
            antialiasing >= 1,
    ;
    let size: usize = antialiasing * antialiasing;
    let len: usize = results.len();
    let mut combined: Vec<[u8; 3]> = Vec::new();
    let mut start: usize = 0;
    assert(0 * size == 0 && (0 + size - 1) / (size as int) == 0) by (nonlinear_arith)
        requires
            size >= 1,
    ;
    while start < len
        invariant
            size >= 1,
            size == antialiasing * antialiasing,
            len == results.len(),
            start <= len,
            start == len || start == combined.len() * size,
            combined.len() == chunk_count(start as int, size as int),
            forall|k: int|
                0 <= k < combined.len() ==> is_mean(
                    chunk(results@, size as int, k),
                    #[trigger] combined[k],
                ),
        decreases len - start,
    {
        let ghost k = combined.len() as int;
        let end: usize = if len - start < size {
            len
        } else {
            start + size
        };
        assert((k + 1) * size == k * size + size) by (nonlinear_arith);
        assert(chunk(results@, size as int, k) == results@.subrange(start as int, end as int));
        proof {
            lemma_chunk_count(end as int, size as int, k);
        }
        let mean = average_range(results.as_slice(), start, end);
        combined.push(mean);
        start = end;
    }
    combined
}

/// The colours of launched rays, in the order of the rays: the counted
/// colour of a ray that reached a light, black for a killed ray.
pub fn trace_rays(results: &Vec<BounceResult>) -> (r: Vec<[u8; 3]>)
    requires
        forall|i: int|
            0 <= i < results.len() ==> (#[trigger] results[i]) is Count || results[i] is Kill,
    ensures
        r.len() == results.len(),
        forall|i: int| 0 <= i < r.len() ==> Some(#[trigger] r[i]) == results[i].colour(),
{
    let mut colours: Vec<[u8; 3]> = Vec::new();
    let mut i: usize = 0;
    while i < results.len()
        invariant
            i <= results.len(),
            colours.len() == i,
            forall|j: int|
                0 <= j < results.len() ==> (#[trigger] results[j]) is Count || results[j] is Kill,
            forall|j: int| 0 <= j < i ==> Some(#[trigger] colours[j]) == results[j].colour(),
        decreases results.len() - i,
    {
        let colour: [u8; 3] = match results[i] {
            BounceResult::Count(r, g, b) => [r, g, b],
            _ => [0, 0, 0],
        };
        colours.push(colour);
        i += 1;
    }
    colours
}

/// The screen of a camera, as a grid: `num_x` by `num_y` pixels, each cut
/// into `antialiasing` by `antialiasing` samples.
#[derive(Debug, Clone, Copy, PartialEq, Eq, Structural)]
pub struct Camera {
    /// Pixels along the first axis of the screen.
    pub num_x: usize,
    /// Pixels along the second axis of the screen.
    pub num_y: usize,
    /// Samples per pixel along each axis.
    pub antialiasing: usize,
    /// The medium the camera stands in, in which every ray starts.
    pub vop: usize,
}

/// One sample point on the screen: a pixel and a cell inside the pixel.
#[derive(Debug, Clone, Copy, PartialEq, Eq, Structural)]
pub struct Sample {
    /// Index of the pixel along the first axis.
    pub pixel_x: usize,
    /// Index of the pixel along the second axis.
    pub pixel_y: usize,
    /// Index of the cell inside the pixel along the first axis.
    pub sub_x: usize,
    /// Index of the cell inside the pixel along the second axis.
    pub sub_y: usize,
}

/// Cell `k` of a grid with `num_y` cells in each row, counted row by row.
pub open spec fn cell_at(k: int, num_y: int) -> (usize, usize) {
    ((k / num_y) as usize, (k % num_y) as usize)
}

/// Quotient and remainder of an index below `rows * width` are a row and
/// a column of the grid.
pub proof fn lemma_cell_in_grid(k: int, rows: int, width: int)
    requires
        0 <= k < rows * width,
        0 <= rows,
        0 <= width,
    ensures
        width > 0,
        0 <= k / width < rows,
        0 <= k % width < width,
        k == (k / width) * width + k % width,
{
    assert(width > 0) by (nonlinear_arith)
        requires
            0 <= k < rows * width,
            0 <= width,
    ;
    assert(0 <= k / width < rows && 0 <= k % width < width && k == (k / width) * width + k
        % width) by (nonlinear_arith)
        requires
            0 <= k < rows * width,
            width > 0,
    ;
}

/// Splits a rectangle into `num_x` by `num_y` cells and returns their
/// indices, the cells of one row side by side.
pub fn split_rectangle(num_x: usize, num_y: usize) -> (r: Vec<(usize, usize)>)
    requires
        num_x * num_y <= usize::MAX,
    ensures
        r.len() == num_x * num_y,
        forall|k: int| 0 <= k < r.len() ==> #[trigger] r[k] == cell_at(k, num_y as int),
        forall|k: int| 0 <= k < r.len() ==> (#[trigger] r[k]).0 < num_x && r[k].1 < num_y,
{
    let total: usize = num_x * num_y;
    let mut cells: Vec<(usize, usize)> = Vec::new();
    let mut k: usize = 0;
    while k < total
        invariant
            k <= total,
            total == num_x * num_y,
            cells.len() == k,
            forall|t: int| 0 <= t < k ==> #[trigger] cells[t] == cell_at(t, num_y as int),
            forall|t: int| 0 <= t < k ==> (#[trigger] cells[t]).0 < num_x && cells[t].1 < num_y,
        decreases total - k,
    {
        proof {
            lemma_cell_in_grid(k as int, num_x as int, num_y as int);
        }
        cells.push((k / num_y, k % num_y));
        k += 1;
    }
    cells
}

impl Camera {
    /// Pixels of the screen.
    pub open spec fn pixel_count(self) -> int {
        self.num_x * self.num_y
    }

    /// Samples of one pixel.
    pub open spec fn samples_per_pixel(self) -> int {
        self.antialiasing * self.antialiasing
    }

    /// Rays that the camera casts: one per sample.
    pub open spec fn ray_count(self) -> int {
        self.pixel_count() * self.samples_per_pixel()
    }

    /// The sample that ray `k` is cast through. The samples of one pixel
    /// lie side by side, pixel after pixel.
    pub open spec fn sample_at(self, k: int) -> Sample {
        let pixel = cell_at(k / self.samples_per_pixel(), self.num_y as int);
        let sub = cell_at(k % self.samples_per_pixel(), self.antialiasing as int);
        Sample { pixel_x: pixel.0, pixel_y: pixel.1, sub_x: sub.0, sub_y: sub.1 }
    }

    /// The pixel that ray `k` is cast for.
    pub open spec fn pixel_of(self, k: int) -> int {
        k / self.samples_per_pixel()
    }

    /// The size of the image in pixels.
    pub fn resolution(&self) -> (r: (usize, usize))
        ensures
            r == (self.num_x, self.num_y),
    {
        (self.num_x, self.num_y)
    }

    /// The place of pixel `(x, y)` in an image that is stored row by row.
    pub fn pixel_index(&self, x: usize, y: usize) -> (r: usize)
        requires
            x < self.num_x,
            y < self.num_y,
            self.pixel_count() <= usize::MAX,
        ensures
            r == x * self.num_y + y,
            r < self.pixel_count(),
            cell_at(r as int, self.num_y as int) == (x, y),
    {
        assert(x * self.num_y + y < self.num_x * self.num_y && (x * self.num_y + y) / (
        self.num_y as int) == x && (x * self.num_y + y) % (self.num_y as int) == y
            && 0 <= x * self.num_y) by (nonlinear_arith)
            requires
                0 <= x < self.num_x,
                0 <= y < self.num_y,
        ;
        x * self.num_y + y
    }

    /// The grid of pixels: one cell per pixel.
    pub fn pixel_corners(&self) -> (r: Vec<(usize, usize)>)
        requires
            self.pixel_count() <= usize::MAX,
        ensures
            r.len() == self.pixel_count(),
            forall|k: int| 0 <= k < r.len() ==> #[trigger] r[k] == cell_at(k, self.num_y as int),
    {
        split_rectangle(self.num_x, self.num_y)
    }

    /// The sample points of the screen, in the order in which rays are
    /// cast through them.
    pub fn subpixel_centers(&self) -> (r: Vec<Sample>)
        requires
            self.pixel_count() <= usize::MAX,
            self.samples_per_pixel() <= usize::MAX,
            self.ray_count() <= usize::MAX,
        ensures
            r.len() == self.ray_count(),
            forall|k: int| 0 <= k < r.len() ==> #[trigger] r[k] == self.sample_at(k),
            forall|k: int|
                0 <= k < r.len() ==> (#[trigger] r[k]).pixel_x < self.num_x && r[k].pixel_y
                    < self.num_y && r[k].sub_x < self.antialiasing && r[k].sub_y
                    < self.antialiasing,
    {
        let pixels: usize = self.num_x * self.num_y;
        let per_pixel: usize = self.antialiasing * self.antialiasing;
        let total: usize = pixels * per_pixel;
        let mut samples: Vec<Sample> = Vec::new();
        let mut k: usize = 0;
        while k < total
            invariant
                k <= total,
                pixels == self.pixel_count(),
                per_pixel == self.samples_per_pixel(),
                total == self.ray_count(),
                samples.len() == k,
                forall|t: int| 0 <= t < k ==> #[trigger] samples[t] == self.sample_at(t),
                forall|t: int|
                    0 <= t < k ==> (#[trigger] samples[t]).pixel_x < self.num_x
                        && samples[t].pixel_y < self.num_y && samples[t].sub_x < self.antialiasing
                        && samples[t].sub_y < self.antialiasing,
            decreases total - k,
        {
            proof {
                lemma_cell_in_grid(k as int, pixels as int, per_pixel as int);
                lemma_cell_in_grid(k as int / per_pixel as int, self.num_x as int, self.num_y as int);
                lemma_cell_in_grid(
                    k as int % per_pixel as int,
                    self.antialiasing as int,
                    self.antialiasing as int,
                );
            }
            let pixel = k / per_pixel;
            let sub = k % per_pixel;
            samples.push(
                Sample {
                    pixel_x: pixel / self.num_y,
                    pixel_y: pixel % self.num_y,
                    sub_x: sub / self.antialiasing,
                    sub_y: sub % self.antialiasing,
                },
            );
            k += 1;
        }
        samples
    }

    /// The ray that is cast through sample `k` with `beam`.
    pub open spec fn ray_at<B>(self, k: int, beam: B) -> Ray<B> {
        Ray { beam, vop: self.vop, pixel_idx: self.pixel_of(k) as usize, result: None }
    }

    /// Casts one ray per sample. `beams` holds origin and direction of each
    /// ray, in the order of [`Camera::subpixel_centers`]. Every ray starts
    /// in the medium of the camera and belongs to the pixel of its sample.
    pub fn create_rays<B>(&self, beams: Vec<B>) -> (r: Vec<Ray<B>>)
        requires
            beams.len() == self.ray_count(),
            self.samples_per_pixel() <= usize::MAX,
        ensures
            r.len() == beams.len(),
            forall|k: int| 0 <= k < r.len() ==> #[trigger] r[k] == self.ray_at(k, beams[k]),
            forall|k: int| 0 <= k < r.len() ==> (#[trigger] r[k]).pixel_idx < self.pixel_count(),
    {
        let ghost all = beams@;
        let per_pixel: usize = self.antialiasing * self.antialiasing;
        let mut rays: Vec<Ray<B>> = Vec::new();
        let mut k: usize = 0;
        for beam in it: beams
            invariant
                k == it.index(),
                it.seq() == all,
                all.len() == self.ray_count(),
                all.len() <= usize::MAX,
                per_pixel == self.samples_per_pixel(),
                rays.len() == k,
                forall|t: int| 0 <= t < k ==> #[trigger] rays[t] == self.ray_at(t, all[t]),
                forall|t: int| 0 <= t < k ==> (#[trigger] rays[t]).pixel_idx < self.pixel_count(),
        {
            proof {
                assert(0 <= self.pixel_count()) by (nonlinear_arith)
                    requires
                        self.pixel_count() == self.num_x * self.num_y,
                ;
                lemma_cell_in_grid(k as int, self.pixel_count(), per_pixel as int);
            }
            rays.push(Ray { beam, vop: self.vop, pixel_idx: k / per_pixel, result: None });
            k += 1;
        }
        rays
    }
}

} // verus!
