//! Surface optical properties and the outcome of one bounce.

use vstd::prelude::*;

verus! {

/// What a surface does to a ray at the point where the ray meets it.
#[derive(Debug, Clone, Copy, PartialEq, Eq, Structural)]
pub enum SOP {
    /// Mirror: the ray goes on, on the side it came from.
    Reflect,
    /// Boundary between two media: the ray crosses it, unless the angle
    /// is beyond the critical one.
    Refract,
    /// Emitter of a fixed colour: the ray ends here and is counted.
    Light(u8, u8, u8),
    /// Perfect absorber: the ray ends here with no light.
    Dark,
}

/// Result of one interaction of a ray with a surface.
#[derive(Debug, Clone, Copy, PartialEq, Eq, Structural)]
pub enum BounceResult {
    /// The ray reached a light and carries this colour home.
    Count(u8, u8, u8),
    /// The ray reached a dark spot, or nothing at all.
    Kill,
    /// The ray was deflected and travels on.
    Continue,
    /// The medium of the ray is not the one the surface borders on the
    /// side of the approach.
    Error,
}

impl SOP {
    /// Whether a ray that meets this behaviour ends its journey.
    pub open spec fn terminal(self) -> bool {
        self is Light || self is Dark
    }

    /// Exec form of [`SOP::terminal`].
    pub fn is_terminal(&self) -> (r: bool)
        ensures
            r == self.terminal(),
    {
        match self {
            SOP::Light(_, _, _) => true,
            SOP::Dark => true,
            _ => false,
        }
    }
}

impl BounceResult {
    /// The colour a retired ray contributes to its pixel: the counted
    /// colour, or black for a killed ray. `None` for a ray that has not
    /// retired.
    pub open spec fn colour(self) -> Option<[u8; 3]> {
        match self {
            BounceResult::Count(r, g, b) => Some([r, g, b]),
            BounceResult::Kill => Some([0u8, 0u8, 0u8]),
            _ => None,
        }
    }
}

} // verus!
