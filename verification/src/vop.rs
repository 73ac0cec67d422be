//! The media of a scene.
//!
//! A medium is known by its name in the description of the scene and by
//! its index in the table of volumes. Rays and surfaces hold the index;
//! index of refraction and absorption stay with the numeric side, in a
//! table of its own with the same indices.

use vstd::prelude::*;
use crate::scene::same_text;

verus! {

/// The table of the media of a scene: their names, each once, in the
/// order in which they were entered.
pub struct VolumeMap {
    names: Vec<String>,
}

impl View for VolumeMap {
    type V = Seq<Seq<char>>;

    closed spec fn view(&self) -> Seq<Seq<char>> {
        Seq::new(self.names.len() as nat, |i: int| self.names[i]@)
    }
}

impl VolumeMap {
    /// Whether the table is in order: no name stands in it twice.
    pub open spec fn wf(&self) -> bool {
        self@.no_duplicates()
    }

    /// A table without media.
    pub fn new() -> (r: Self)
        ensures
            r@ == Seq::<Seq<char>>::empty(),
            r.wf(),
    {
        let r = VolumeMap { names: Vec::new() };
        assert(r@ =~= Seq::<Seq<char>>::empty());
        r
    }

    /// The number of media.
    pub fn len(&self) -> (r: usize)
        ensures
            r == self@.len(),
    {
        self.names.len()
    }

    /// The index of the medium called `name`; `None` where the table has
    /// no such medium.
    pub fn get(&self, name: &str) -> (r: Option<usize>)
        ensures
            r is None <==> !self@.contains(name@),
            r matches Some(i) ==> i < self@.len() && self@[i as int] == name@ && forall|j: int|
                0 <= j < i ==> self@[j] != name@,
    {
        let mut i: usize = 0;
        while i < self.names.len()
            invariant
                i <= self.names.len(),
                forall|j: int| 0 <= j < i ==> self@[j] != name@,
            decreases self.names.len() - i,
        {
            if same_text(self.names[i].as_str(), name) {
                assert(self@[i as int] == name@);
                return Some(i);
            }
            i += 1;
        }
        None
    }

    /// Enters the medium called `name` and returns its index. A name that
    /// the table holds keeps its index, and the table stays as it is; a
    /// new name goes to the end.
    pub fn insert(&mut self, name: &str) -> (r: usize)
        requires
            old(self).wf(),
        ensures
            final(self).wf(),
            old(self)@.contains(name@) ==> final(self)@ == old(self)@,
            !old(self)@.contains(name@) ==> final(self)@ == old(self)@.push(name@) && r == old(
                self,
            )@.len(),
            r < final(self)@.len(),
            final(self)@[r as int] == name@,
    {
        match self.get(name) {
            Some(i) => i,
            None => {
                let ghost before = self@;
                let index = self.names.len();
                self.names.push(name.to_owned());
                assert(self@ =~= before.push(name@));
                index
            },
        }
    }
}

} // verus!
