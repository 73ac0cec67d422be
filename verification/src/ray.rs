//! A ray on its way through the scene.

use vstd::prelude::*;
use crate::interaction::{
    approach, far_medium, interact, interaction, lemma_attenuated_bounds, lemma_attenuated_ends,
    near_medium, Contact, Step, FULL_TRANSMISSION,
};
use crate::sop::{BounceResult, SOP};

verus! {

/// The transport state of one ray.
///
/// `B` is the beam: origin, direction and whatever else the numeric side
/// keeps per ray. The crate carries it along and never looks inside.
#[derive(Debug, Clone)]
pub struct Ray<B> {
    /// Origin and direction, owned by the numeric side.
    pub beam: B,
    /// The medium the ray travels in, as an index into the table of volumes.
    pub vop: usize,
    /// The pixel that the ray was cast for.
    pub pixel_idx: usize,
    /// The colour the ray retired with; `None` while it travels.
    pub result: Option<[u8; 3]>,
}

impl<B> Ray<B> {
    /// Whether the ray still travels.
    pub open spec fn traveling(&self) -> bool {
        self.result is None
    }

    /// The result of meeting `encounter`: the contact with the nearest
    /// surface, or `None` where no surface lies ahead.
    pub open spec fn outcome(self, encounter: Option<Contact>) -> BounceResult {
        match encounter {
            None => BounceResult::Kill,
            Some(contact) => interaction(self.vop, contact).bounce_result(),
        }
    }

    /// The ray after it met `encounter`. It changes its medium when it is
    /// refracted, and takes its colour when it retires: the attenuated
    /// colour of a light, black at a dark surface or where no surface lies
    /// ahead. A failed check of the media leaves it unchanged.
    pub open spec fn met(self, encounter: Option<Contact>) -> Ray<B> {
        Ray {
            beam: self.beam,
            vop: match encounter {
                None => self.vop,
                Some(contact) => interaction(self.vop, contact).medium_after(self.vop),
            },
            pixel_idx: self.pixel_idx,
            result: match self.outcome(encounter).colour() {
                Some(colour) => Some(colour),
                None => self.result,
            },
        }
    }

    /// A ray at the start of its journey.
    pub fn new(beam: B, vop: usize, pixel_idx: usize) -> (ray: Self)
        ensures
            ray.beam == beam,
            ray.vop == vop,
            ray.pixel_idx == pixel_idx,
            ray.result is None,
    {
        Ray { beam, vop, pixel_idx, result: None }
    }

    /// Exec form of [`Ray::traveling`].
    pub fn is_traveling(&self) -> (r: bool)
        ensures
            r == self.traveling(),
    {
        self.result.is_none()
    }

    /// Takes the ray through one contact with a surface.
    ///
    /// The ray moves into the far medium when it is refracted, and retires
    /// with its colour when the surface is a light or dark. A mismatch of
    /// media leaves the ray as it was and is reported as `Error`.
    pub fn bounce_unchecked(&mut self, contact: &Contact) -> (r: BounceResult)
        ensures
            r == old(self).outcome(Some(*contact)),
            *final(self) == old(self).met(Some(*contact)),
    {
        let step = interact(self.vop, contact);
        match step {
            Step::Reflected { .. } => BounceResult::Continue,
            Step::Refracted { entering, .. } => {
                self.vop = entering;
                BounceResult::Continue
            },
            Step::Counted(r, g, b) => {
                self.result = Some([r, g, b]);
                BounceResult::Count(r, g, b)
            },
            Step::Killed => {
                self.result = Some([0, 0, 0]);
                BounceResult::Kill
            },
            Step::Failed(_) => BounceResult::Error,
        }
    }

    /// Takes the ray to its next encounter: the contact with the nearest
    /// surface, or `None` where no surface lies ahead, which kills the ray.
    pub fn advance(&mut self, encounter: Option<Contact>) -> (r: BounceResult)
        ensures
            r == old(self).outcome(encounter),
            *final(self) == old(self).met(encounter),
    {
        match encounter {
            None => {
                self.result = Some([0, 0, 0]);
                BounceResult::Kill
            },
            Some(contact) => self.bounce_unchecked(&contact),
        }
    }
}

/// Total internal reflection: where the angle of incidence is beyond the
/// critical one, a ray at a refracting boundary is not refracted and
/// stays in its medium; where the media agree it is reflected and travels
/// on.
pub proof fn total_internal_reflection<B>(ray: Ray<B>, contact: Contact)
    requires
        contact.sop is Refract,
        contact.beyond_critical,
    ensures
        !(interaction(ray.vop, contact) is Refracted),
        ray.met(Some(contact)).vop == ray.vop,
        approach(ray.vop, contact) is Ok ==> interaction(ray.vop, contact) is Reflected
            && ray.outcome(Some(contact)) is Continue,
{
}

/// Only refraction changes the medium of a ray, and it takes the ray into
/// the medium on the far side of the surface.
pub proof fn medium_changes_by_refraction<B>(ray: Ray<B>, contact: Contact)
    ensures
        interaction(ray.vop, contact) is Refracted ==> ray.met(Some(contact)).vop == far_medium(
            contact,
        ) && ray.vop == near_medium(contact),
        !(interaction(ray.vop, contact) is Refracted) ==> ray.met(Some(contact)).vop == ray.vop,
        ray.met(None).vop == ray.vop,
{
}

/// How a journey ends: a ray that reaches a light over a path that absorbs
/// nothing retires with the colour of the light, exactly; a ray that
/// reaches a dark surface, or no surface at all, retires with black.
pub proof fn termination_determinism<B>(ray: Ray<B>, contact: Contact)
    ensures
        contact.sop matches SOP::Light(r, g, b) ==> (contact.transmission[0] >= FULL_TRANSMISSION
            && contact.transmission[1] >= FULL_TRANSMISSION && contact.transmission[2]
            >= FULL_TRANSMISSION ==> ray.outcome(Some(contact)) == BounceResult::Count(r, g, b)
            && ray.met(Some(contact)).result == Some([r, g, b])),
        contact.sop is Dark ==> ray.outcome(Some(contact)) == BounceResult::Kill && ray.met(
            Some(contact),
        ).result == Some([0u8, 0u8, 0u8]),
        ray.outcome(None) == BounceResult::Kill && ray.met(None).result == Some([0u8, 0u8, 0u8]),
{
    if let SOP::Light(r, g, b) = contact.sop {
        lemma_attenuated_ends(r);
        lemma_attenuated_ends(g);
        lemma_attenuated_ends(b);
    }
}

/// A light never arrives brighter than it was emitted.
pub proof fn light_never_brightens<B>(ray: Ray<B>, contact: Contact)
    ensures
        contact.sop matches SOP::Light(r, g, b) ==> (ray.outcome(Some(contact)) matches BounceResult::Count(
            x,
            y,
            z,
        ) && x <= r && y <= g && z <= b),
{
    if let SOP::Light(r, g, b) = contact.sop {
        lemma_attenuated_bounds(r, contact.transmission[0]);
        lemma_attenuated_bounds(g, contact.transmission[1]);
        lemma_attenuated_bounds(b, contact.transmission[2]);
    }
}

} // verus!
