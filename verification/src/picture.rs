//! Pictures: the buffer that the rendered pixels are written to, and the
//! textures that surfaces are painted with.

use vstd::prelude::*;
use crate::camera::lemma_cell_in_grid;
use crate::sop::SOP;

verus! {

/// A picture with three samples of eight bits per pixel, kept in an
/// `image::RgbImage`.
#[verifier::external_body]
pub struct Picture {
    image: image::RgbImage,
}

/// Width and height of a picture, in pixels.
pub uninterp spec fn picture_dimensions(picture: Picture) -> (nat, nat);

/// The samples of a picture: red, green and blue of each pixel, the
/// pixels of one row side by side, row after row.
pub uninterp spec fn picture_samples(picture: Picture) -> Seq<u8>;

/// The place of the first sample of pixel `(x, y)` in a picture of the
/// given width.
pub open spec fn sample_index(width: nat, x: int, y: int) -> int {
    (y * width + x) * 3
}

/// `image::ImageBuffer::dimensions`: width and height of the picture.
#[verifier::external_body]
fn dimensions(picture: &Picture) -> (r: (u32, u32))
    ensures
        r.0 == picture_dimensions(*picture).0,
        r.1 == picture_dimensions(*picture).1,
{
    picture.image.dimensions()
}

/// `image::ImageBuffer::new`: a picture of the given size whose samples
/// are all zero. The size is one that a buffer can have.
#[verifier::external_body]
fn blank(width: u32, height: u32) -> (r: Picture)
    requires
        3 * width * height <= isize::MAX,
    ensures
        picture_dimensions(r) == (width as nat, height as nat),
        picture_samples(r) == Seq::new((3 * width * height) as nat, |i: int| 0u8),
{
    Picture { image: image::RgbImage::new(width, height) }
}

/// `image::ImageBuffer::from_raw`: a picture of the given size over the
/// given samples, unless they are too few for the size.
#[verifier::external_body]
fn from_raw(width: u32, height: u32, samples: Vec<u8>) -> (r: Option<Picture>)
    ensures
        r is Some <==> 3 * width * height <= samples.len(),
        r matches Some(picture) ==> picture_dimensions(picture) == (width as nat, height as nat)
            && picture_samples(picture) == samples@,
{
    match image::RgbImage::from_raw(width, height, samples) {
        Some(image) => Some(Picture { image }),
        None => None,
    }
}

/// `image::ImageBuffer::into_raw`: the samples of the picture.
#[verifier::external_body]
fn into_raw(picture: Picture) -> (r: Vec<u8>)
    ensures
        r@ == picture_samples(picture),
{
    picture.image.into_raw()
}

/// `image::ImageBuffer::put_pixel`: writes the three samples of the pixel
/// at `(x, y)`, which lies inside the picture. Size and the other samples
/// stay as they are.
#[verifier::external_body]
fn put_pixel(picture: &mut Picture, x: u32, y: u32, colour: [u8; 3])
    requires
        x < picture_dimensions(*old(picture)).0,
        y < picture_dimensions(*old(picture)).1,
    ensures
        picture_dimensions(*final(picture)) == picture_dimensions(*old(picture)),
        picture_samples(*final(picture)) == picture_samples(*old(picture)).update(
            sample_index(picture_dimensions(*old(picture)).0, x as int, y as int),
            colour[0],
        ).update(
            sample_index(picture_dimensions(*old(picture)).0, x as int, y as int) + 1,
            colour[1],
        ).update(
            sample_index(picture_dimensions(*old(picture)).0, x as int, y as int) + 2,
            colour[2],
        ),
{
    picture.image.put_pixel(x, y, image::Rgb(colour));
}

/// `image::ImageBuffer::get_pixel`: the three samples of the pixel at
/// `(x, y)`, which lies inside the picture.
#[verifier::external_body]
fn get_pixel(picture: &Picture, x: u32, y: u32) -> (r: [u8; 3])
    requires
        x < picture_dimensions(*picture).0,
        y < picture_dimensions(*picture).1,
    ensures
        r[0] == picture_samples(*picture)[sample_index(
            picture_dimensions(*picture).0,
            x as int,
            y as int,
        )],
        r[1] == picture_samples(*picture)[sample_index(
            picture_dimensions(*picture).0,
            x as int,
            y as int,
        ) + 1],
        r[2] == picture_samples(*picture)[sample_index(
            picture_dimensions(*picture).0,
            x as int,
            y as int,
        ) + 2],
{
    picture.image.get_pixel(x, y).0
}

/// The colour of pixel `(x, y)` of a picture.
pub open spec fn pixel_of(picture: Picture, x: int, y: int) -> (u8, u8, u8) {
    let at = sample_index(picture_dimensions(picture).0, x, y);
    (picture_samples(picture)[at], picture_samples(picture)[at + 1], picture_samples(picture)[at
        + 2])
}

/// Whether `(x, y)` is a pixel of the picture.
pub open spec fn inside(picture: Picture, x: int, y: int) -> bool {
    0 <= x < picture_dimensions(picture).0 && 0 <= y < picture_dimensions(picture).1
}

/// Colours as samples: red, green and blue of each colour, side by side.
pub open spec fn flatten(colours: Seq<[u8; 3]>) -> Seq<u8> {
    Seq::new(3 * colours.len(), |i: int| colours[i / 3][i % 3])
}

impl Picture {
    /// A picture of the given size over the given samples; `None` where
    /// the samples are too few for the size.
    pub fn from_samples(width: u32, height: u32, samples: Vec<u8>) -> (r: Option<Picture>)
        ensures
            r is Some <==> 3 * width * height <= samples.len(),
            r matches Some(picture) ==> picture_dimensions(picture) == (
                width as nat,
                height as nat,
            ) && picture_samples(picture) == samples@,
    {
        from_raw(width, height, samples)
    }

    /// The samples of the picture.
    pub fn into_samples(self) -> (r: Vec<u8>)
        ensures
            r@ == picture_samples(self),
    {
        into_raw(self)
    }

    /// Width and height of the picture.
    pub fn size(&self) -> (r: (u32, u32))
        ensures
            r.0 == picture_dimensions(*self).0,
            r.1 == picture_dimensions(*self).1,
    {
        dimensions(self)
    }

    /// The picture of a rendered screen. `data` holds the colour of each
    /// pixel, the `num_y` pixels of one row side by side; the picture is
    /// `num_y` wide and `num_x` high and holds the same colours in the
    /// same order.
    pub fn assemble(data: &Vec<[u8; 3]>, num_x: usize, num_y: usize) -> (r: Picture)
        requires
            data.len() == num_x * num_y,
            num_x <= u32::MAX,
            num_y <= u32::MAX,
            3 * num_x * num_y <= isize::MAX,
        ensures
            picture_dimensions(r) == (num_y as nat, num_x as nat),
            picture_samples(r) == flatten(data@),
    {
        assert(3 * num_y * num_x == 3 * num_x * num_y && 3 * num_x * num_y == 3 * (num_x * num_y))
            by (nonlinear_arith);
        let mut picture = blank(num_y as u32, num_x as u32);
        let total = data.len();
        let mut k: usize = 0;
        while k < total
            invariant
                k <= total,
                total == data.len(),
                total == num_x * num_y,
                num_x <= u32::MAX,
                num_y <= u32::MAX,
                picture_dimensions(picture) == (num_y as nat, num_x as nat),
                picture_samples(picture).len() == 3 * total,
                forall|i: int|
                    0 <= i < 3 * k ==> #[trigger] picture_samples(picture)[i] == flatten(data@)[i],
            decreases total - k,
        {
            proof {
                lemma_cell_in_grid(k as int, num_x as int, num_y as int);
            }
            let row = k / num_y;
            let column = k % num_y;
            assert(sample_index(num_y as nat, column as int, row as int) == 3 * k);
            put_pixel(&mut picture, column as u32, row as u32, data[k]);
            k += 1;
        }
        assert(picture_samples(picture) =~= flatten(data@));
        picture
    }
}

/// What a textured surface shows where the texture has pixel `(ox, oy)`:
/// a light of the colour of the pixel.
pub fn texture_sop(texture: &Picture, ox: u32, oy: u32) -> (r: SOP)
    requires
        inside(*texture, ox as int, oy as int),
    ensures
        r == SOP::Light(
            pixel_of(*texture, ox as int, oy as int).0,
            pixel_of(*texture, ox as int, oy as int).1,
            pixel_of(*texture, ox as int, oy as int).2,
        ),
{
    let colour = get_pixel(texture, ox, oy);
    SOP::Light(colour[0], colour[1], colour[2])
}

/// What a textured surface shows at pixel `(ox, oy)` of its texture;
/// `None` where the texture has no such pixel.
pub fn texture_sop_at(texture: &Picture, ox: u32, oy: u32) -> (r: Option<SOP>)
    ensures
        r is Some <==> inside(*texture, ox as int, oy as int),
        r matches Some(sop) ==> sop == SOP::Light(
            pixel_of(*texture, ox as int, oy as int).0,
            pixel_of(*texture, ox as int, oy as int).1,
            pixel_of(*texture, ox as int, oy as int).2,
        ),
{
    let (width, height) = dimensions(texture);
    if ox < width && oy < height {
        Some(texture_sop(texture, ox, oy))
    } else {
        None
    }
}

} // verus!
