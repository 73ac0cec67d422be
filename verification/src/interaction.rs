//! What happens when a ray meets a surface.
//!
//! The numeric side reports a [`Contact`]: the facts it measured at the
//! point of incidence. This module decides from them, and from the medium
//! the ray travels in, what the ray does next.

use vstd::prelude::*;
use crate::sop::{BounceResult, SOP};

verus! {

/// The side of a surface, relative to its outward normal.
#[derive(Debug, Clone, Copy, PartialEq, Eq, Structural)]
pub enum Side {
    /// The side the normal points into.
    Above,
    /// The other side.
    Below,
}

/// The facts measured where a ray meets a surface.
#[derive(Debug, Clone, Copy)]
pub struct Contact {
    /// What the surface does at the point of incidence.
    pub sop: SOP,
    /// The side the ray arrives from: `Above` when the outward normal and
    /// the direction of the ray have a product that is zero or negative.
    pub side: Side,
    /// The medium that the surface borders above, as an index into the
    /// table of volumes.
    pub vop_above: usize,
    /// The medium that the surface borders below.
    pub vop_below: usize,
    /// Whether the angle of incidence leaves no transmitted ray (the
    /// squared sine of the angle of transmission is one or more), for the
    /// two media taken in the order of travel. Read for `Refract` only.
    pub beyond_critical: bool,
    /// The share of light that survives the way from this point back to
    /// the start of the ray, per colour channel, in units of
    /// `1 / FULL_TRANSMISSION`. Read for `Light` only.
    pub transmission: [u64; 3],
}

/// How a ray approaches a surface, once the media have been checked.
#[derive(Debug, Clone, Copy, PartialEq, Eq, Structural)]
pub struct Approach {
    /// Whether the outward normal has to be reversed to face the ray.
    pub reversed: bool,
    /// The medium the ray travels in and leaves if it crosses.
    pub leaving: usize,
    /// The medium on the far side.
    pub entering: usize,
}

/// A ray met a surface on a side where the surface borders another medium
/// than the one the ray travels in.
#[derive(Debug, Clone, Copy, PartialEq, Eq, Structural)]
pub struct VopMismatch {
    /// The medium of the ray.
    pub ray: usize,
    /// The medium that the surface borders on the side of the approach.
    pub surface: usize,
    /// The side of the approach.
    pub side: Side,
}

/// What a ray does after one contact.
#[derive(Debug, Clone, Copy, PartialEq, Eq, Structural)]
pub enum Step {
    /// The ray is mirrored about the normal that faces it and stays in its
    /// medium.
    Reflected { reversed: bool },
    /// The ray crosses the surface and bends; it now travels in `entering`.
    Refracted { reversed: bool, leaving: usize, entering: usize },
    /// The ray ends at a light and takes this colour home.
    Counted(u8, u8, u8),
    /// The ray ends in the dark.
    Killed,
    /// The media do not agree; the model is broken and the render must stop.
    Failed(VopMismatch),
}

/// Transmission of a path that absorbs nothing.
pub const FULL_TRANSMISSION: u64 = 0x1_0000_0000;

/// The medium that `contact` borders on the side the ray arrives from.
pub open spec fn near_medium(contact: Contact) -> usize {
    match contact.side {
        Side::Above => contact.vop_above,
        Side::Below => contact.vop_below,
    }
}

/// The medium that `contact` borders on the side away from the ray.
pub open spec fn far_medium(contact: Contact) -> usize {
    match contact.side {
        Side::Above => contact.vop_below,
        Side::Below => contact.vop_above,
    }
}

/// The approach of a ray in medium `vop`, if the media agree.
pub open spec fn approach(vop: usize, contact: Contact) -> Result<Approach, VopMismatch> {
    if vop == near_medium(contact) {
        Ok(
            Approach {
                reversed: contact.side == Side::Below,
                leaving: near_medium(contact),
                entering: far_medium(contact),
            },
        )
    } else {
        Err(VopMismatch { ray: vop, surface: near_medium(contact), side: contact.side })
    }
}

/// A colour channel after the path has taken its share: the product of
/// the value and the transmission, rounded to the nearest integer. A
/// transmission above [`FULL_TRANSMISSION`] counts as full.
pub open spec fn attenuated(channel: u8, transmission: u64) -> int {
    let t: int = if transmission > FULL_TRANSMISSION {
        FULL_TRANSMISSION as int
    } else {
        transmission as int
    };
    (channel as int * t + FULL_TRANSMISSION as int / 2) / (FULL_TRANSMISSION as int)
}

/// What a ray in medium `vop` does at `contact`.
pub open spec fn interaction(vop: usize, contact: Contact) -> Step {
    match contact.sop {
        SOP::Reflect => match approach(vop, contact) {
            Ok(a) => Step::Reflected { reversed: a.reversed },
            Err(e) => Step::Failed(e),
        },
        SOP::Refract => match approach(vop, contact) {
            Ok(a) => if contact.beyond_critical {
                Step::Reflected { reversed: a.reversed }
            } else {
                Step::Refracted { reversed: a.reversed, leaving: a.leaving, entering: a.entering }
            },
            Err(e) => Step::Failed(e),
        },
        SOP::Light(r, g, b) => Step::Counted(
            attenuated(r, contact.transmission[0]) as u8,
            attenuated(g, contact.transmission[1]) as u8,
            attenuated(b, contact.transmission[2]) as u8,
        ),
        SOP::Dark => Step::Killed,
    }
}

impl Step {
    /// The step as the result of a bounce.
    pub open spec fn bounce_result(self) -> BounceResult {
        match self {
            Step::Reflected { .. } => BounceResult::Continue,
            Step::Refracted { .. } => BounceResult::Continue,
            Step::Counted(r, g, b) => BounceResult::Count(r, g, b),
            Step::Killed => BounceResult::Kill,
            Step::Failed(_) => BounceResult::Error,
        }
    }

    /// The medium of a ray after the step, given the medium before it.
    pub open spec fn medium_after(self, vop: usize) -> usize {
        match self {
            Step::Refracted { entering, .. } => entering,
            _ => vop,
        }
    }

    /// Exec form of [`Step::bounce_result`].
    pub fn result(&self) -> (r: BounceResult)
        ensures
            r == self.bounce_result(),
    {
        match self {
            Step::Reflected { .. } => BounceResult::Continue,
            Step::Refracted { .. } => BounceResult::Continue,
            Step::Counted(r, g, b) => BounceResult::Count(*r, *g, *b),
            Step::Killed => BounceResult::Kill,
            Step::Failed(_) => BounceResult::Error,
        }
    }
}

/// Bounds of [`attenuated`]: never negative, never brighter than the
/// emitted value.
pub proof fn lemma_attenuated_bounds(channel: u8, transmission: u64)
    ensures
        0 <= attenuated(channel, transmission) <= channel,
{
    let full = FULL_TRANSMISSION as int;
    let t: int = if transmission > FULL_TRANSMISSION {
        full
    } else {
        transmission as int
    };
    let c = channel as int;
    assert(0 <= c * t <= c * full) by (nonlinear_arith)
        requires
            0 <= c,
            0 <= t <= full,
    ;
    assert((c * t + full / 2) / full <= c) by (nonlinear_arith)
        requires
            c * t <= c * full,
            full == 0x1_0000_0000,
    ;
    assert(0 <= (c * t + full / 2) / full) by (nonlinear_arith)
        requires
            0 <= c * t,
            full == 0x1_0000_0000,
    ;
}

/// A path that absorbs nothing leaves a channel as it was emitted, and a
/// path that lets nothing through leaves it black.
pub proof fn lemma_attenuated_ends(channel: u8)
    ensures
        forall|transmission: u64|
            transmission >= FULL_TRANSMISSION ==> #[trigger] attenuated(channel, transmission)
                == channel,
        attenuated(channel, 0) == 0,
{
    let full = FULL_TRANSMISSION as int;
    let c = channel as int;
    assert((c * full + full / 2) / full == c) by (nonlinear_arith)
        requires
            full == 0x1_0000_0000,
            0 <= c,
    ;
    assert(c * 0 == 0) by (nonlinear_arith);
}

/// The more light a path lets through, the brighter the channel arrives.
pub proof fn lemma_attenuated_monotone(channel: u8, dim: u64, bright: u64)
    requires
        dim <= bright,
    ensures
        attenuated(channel, dim) <= attenuated(channel, bright),
{
    let full = FULL_TRANSMISSION as int;
    let c = channel as int;
    let t1: int = if dim > FULL_TRANSMISSION {
        full
    } else {
        dim as int
    };
    let t2: int = if bright > FULL_TRANSMISSION {
        full
    } else {
        bright as int
    };
    assert(c * t1 <= c * t2) by (nonlinear_arith)
        requires
            0 <= c,
            t1 <= t2,
    ;
    assert((c * t1 + full / 2) / full <= (c * t2 + full / 2) / full) by (nonlinear_arith)
        requires
            c * t1 <= c * t2,
            full == 0x1_0000_0000,
    ;
}

/// Dims one colour channel by the share of light that the path lets through.
pub fn attenuate(channel: u8, transmission: u64) -> (r: u8)
    ensures
        r == attenuated(channel, transmission),
{
    let t: u64 = if transmission > FULL_TRANSMISSION {
        FULL_TRANSMISSION
    } else {
        transmission
    };
    proof {
        lemma_attenuated_bounds(channel, transmission);
        assert(channel as int * t as int <= 255 * 0x1_0000_0000) by (nonlinear_arith)
            requires
                0 <= channel as int <= 255,
                0 <= t as int <= 0x1_0000_0000,
        ;
    }
    let scaled: u64 = (channel as u64) * t + FULL_TRANSMISSION / 2;
    (scaled / FULL_TRANSMISSION) as u8
}

/// Resolves the side of the approach and checks it against the medium of
/// the ray: the normal to use, the medium left and the medium entered.
/// Fails exactly when the ray travels in another medium than the one the
/// surface borders on the side of the approach.
pub fn get_interaction_parameters(vop: usize, contact: &Contact) -> (r: Result<
    Approach,
    VopMismatch,
>)
    ensures
        r == approach(vop, *contact),
{
    match contact.side {
        Side::Above => {
            if vop != contact.vop_above {
                Err(VopMismatch { ray: vop, surface: contact.vop_above, side: Side::Above })
            } else {
                Ok(
                    Approach {
                        reversed: false,
                        leaving: contact.vop_above,
                        entering: contact.vop_below,
                    },
                )
            }
        },
        Side::Below => {
            if vop != contact.vop_below {
                Err(VopMismatch { ray: vop, surface: contact.vop_below, side: Side::Below })
            } else {
                Ok(
                    Approach {
                        reversed: true,
                        leaving: contact.vop_below,
                        entering: contact.vop_above,
                    },
                )
            }
        },
    }
}

/// Decides what a ray in medium `vop` does at `contact`.
pub fn interact(vop: usize, contact: &Contact) -> (step: Step)
    ensures
        step == interaction(vop, *contact),
{
    match contact.sop {
        SOP::Reflect => match get_interaction_parameters(vop, contact) {
            Ok(a) => Step::Reflected { reversed: a.reversed },
            Err(e) => Step::Failed(e),
        },
        SOP::Refract => match get_interaction_parameters(vop, contact) {
            Ok(a) => {
                if contact.beyond_critical {
                    Step::Reflected { reversed: a.reversed }
                } else {
                    Step::Refracted {
                        reversed: a.reversed,
                        leaving: a.leaving,
                        entering: a.entering,
                    }
                }
            },
            Err(e) => Step::Failed(e),
        },
        SOP::Light(r, g, b) => {
            Step::Counted(
                attenuate(r, contact.transmission[0]),
                attenuate(g, contact.transmission[1]),
                attenuate(b, contact.transmission[2]),
            )
        },
        SOP::Dark => Step::Killed,
    }
}

} // verus!
