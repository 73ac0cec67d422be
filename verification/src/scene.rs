//! Names in the description of a scene: kinds of surfaces, media, and the
//! format of the picture.

use vstd::prelude::*;
use vstd::string::StringSliceAdditionalSpecFns;
use vstd::utf8::encode_utf8_decode_utf8;

verus! {

/// Whether two texts are the same.
pub fn same_text(a: &str, b: &str) -> (r: bool)
    ensures
        r == (a@ == b@),
{
    let x = a.as_bytes();
    let y = b.as_bytes();
    proof {
        encode_utf8_decode_utf8(a@);
        encode_utf8_decode_utf8(b@);
    }
    if x.len() != y.len() {
        return false;
    }
    let mut i: usize = 0;
    while i < x.len()
        invariant
            i <= x.len(),
            x.len() == y.len(),
            x@ == a.spec_bytes(),
            y@ == b.spec_bytes(),
            forall|j: int| 0 <= j < i ==> x[j] == y[j],
        decreases x.len() - i,
    {
        if x[i] != y[i] {
            return false;
        }
        i += 1;
    }
    assert(x@ =~= y@);
    true
}

/// The kinds of surfaces that a scene can hold.
#[derive(Debug, Clone, Copy, PartialEq, Eq, Structural)]
pub enum SurfaceKind {
    Checkerboard,
    Rectangle,
    TexturedRectangle,
    Plane,
    MandelbrotPlane,
    Sphere,
    Paraboloid,
    Cylinder,
}

/// The kind of surface that a scene means by `name`.
pub open spec fn surface_kind_of(name: Seq<char>) -> Option<SurfaceKind> {
    if name == "checkerboard"@ {
        Some(SurfaceKind::Checkerboard)
    } else if name == "rectangle"@ {
        Some(SurfaceKind::Rectangle)
    } else if name == "texturedrectangle"@ {
        Some(SurfaceKind::TexturedRectangle)
    } else if name == "plane"@ {
        Some(SurfaceKind::Plane)
    } else if name == "mandelbrotplane"@ {
        Some(SurfaceKind::MandelbrotPlane)
    } else if name == "sphere"@ {
        Some(SurfaceKind::Sphere)
    } else if name == "paraboloid"@ {
        Some(SurfaceKind::Paraboloid)
    } else if name == "cylinder"@ {
        Some(SurfaceKind::Cylinder)
    } else {
        None
    }
}

/// Reads the kind of a surface from its name in a scene; `None` for a
/// name that no kind has.
pub fn surface_kind(name: &str) -> (r: Option<SurfaceKind>)
    ensures
        r == surface_kind_of(name@),
{
    if same_text(name, "checkerboard") {
        Some(SurfaceKind::Checkerboard)
    } else if same_text(name, "rectangle") {
        Some(SurfaceKind::Rectangle)
    } else if same_text(name, "texturedrectangle") {
        Some(SurfaceKind::TexturedRectangle)
    } else if same_text(name, "plane") {
        Some(SurfaceKind::Plane)
    } else if same_text(name, "mandelbrotplane") {
        Some(SurfaceKind::MandelbrotPlane)
    } else if same_text(name, "sphere") {
        Some(SurfaceKind::Sphere)
    } else if same_text(name, "paraboloid") {
        Some(SurfaceKind::Paraboloid)
    } else if same_text(name, "cylinder") {
        Some(SurfaceKind::Cylinder)
    } else {
        None
    }
}

/// Whether a picture can be written to a file with this extension.
pub open spec fn supported_extension(extension: Seq<char>) -> bool {
    extension == "jpg"@ || extension == "jpeg"@ || extension == "tif"@ || extension == "tiff"@
}

/// Whether the extension of the output file names a format that the
/// renderer writes.
pub fn is_supported_extension(extension: &str) -> (r: bool)
    ensures
        r == supported_extension(extension@),
{
    same_text(extension, "jpg") || same_text(extension, "jpeg") || same_text(extension, "tif")
        || same_text(extension, "tiff")
}

} // verus!
