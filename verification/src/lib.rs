//! Transport core of a ray tracer.
//!
//! The crate holds the decisions of light transport: which surface a ray
//! meets first, from which side it meets it, whether the media agree, what
//! the surface does to the ray, when a ray retires and how retired rays
//! become pixels. Positions, directions and distances are real numbers and
//! stay with the caller: the crate carries them as opaque payloads, reads
//! distances as integer keys that keep their order, and asks the scene
//! through functions that the caller hands in.

pub mod batch;
pub mod camera;
pub mod colormap;
pub mod engine;
pub mod interaction;
pub mod launch;
pub mod nearest;
pub mod picture;
pub mod ray;
pub mod scene;
pub mod sop;
pub mod surface;
pub mod trace;
pub mod vop;

pub use batch::trace_rays;
pub use camera::{combine_rays, Camera};
pub use colormap::load_colormap;
pub use interaction::{Contact, Side, Step, VopMismatch};
pub use nearest::{IndexedInteraction, Interaction};
pub use picture::Picture;
pub use ray::Ray;
pub use sop::{BounceResult, SOP};
pub use surface::pick_closest_intersection;
pub use trace::process_ray_data;
pub use vop::VolumeMap;
