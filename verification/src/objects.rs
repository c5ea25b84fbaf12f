//! Objects: meshes of primitives sharing one material.

use vstd::prelude::*;
use crate::geometry::{wf_geometry, Geometry};
use crate::materials::{wf_material, Material};

verus! {

/// One or more primitives ("mesh") sharing a single material.  The resolver
/// works uniformly over the flattened pairs, however objects group them.
pub struct Object {
    pub mesh: Vec<Geometry>,
    pub material: Material,
}

/// Every primitive and the material of the object are well formed.
pub open spec fn wf_object(o: Object) -> bool {
    wf_material(o.material) && forall|i: int|
        0 <= i < o.mesh@.len() ==> wf_geometry(#[trigger] o.mesh@[i])
}

/// A walk over the (primitive, material) pairs of one object.
pub struct ObjectIterator {
    pub entries: Vec<(Geometry, Material)>,
    pub index: usize,
}

impl ObjectIterator {
    /// Starts a walk over the object's pairs.
    pub fn new(object: &Object) -> (r: ObjectIterator)
        ensures
            r.entries@.len() == object.mesh@.len(),
            forall|i: int|
                0 <= i < object.mesh@.len() ==> #[trigger] r.entries@[i] == (
                object.mesh@[i],
                object.material,
                ),
            r.index == 0,
    {
        ObjectIterator { entries: object.iter(), index: 0 }
    }

    /// The next pair, advancing the walk; nothing once every pair was handed
    /// out.
    pub fn next(&mut self) -> (r: Option<(Geometry, Material)>)
        ensures
            final(self).entries == old(self).entries,
            match r {
                Some(entry) => old(self).index < old(self).entries@.len() && entry == old(
                    self,
                ).entries@[old(self).index as int] && final(self).index == old(self).index + 1,
                None => old(self).index >= old(self).entries@.len() && final(self).index == old(
                    self,
                ).index,
            },
    {
        if self.index < self.entries.len() {
            let entry: (Geometry, Material) = self.entries[self.index];
            self.index = self.index + 1;
            Some(entry)
        } else {
            None
        }
    }
}

impl Object {
    /// The object's (primitive, material) pairs, one per mesh entry, in mesh
    /// order.
    pub fn iter(&self) -> (r: Vec<(Geometry, Material)>)
        ensures
            r@.len() == self.mesh@.len(),
            forall|i: int|
                0 <= i < self.mesh@.len() ==> #[trigger] r@[i] == (self.mesh@[i], self.material),
    {
        let mut entries: Vec<(Geometry, Material)> = Vec::new();
        let mut i: usize = 0;
        while i < self.mesh.len()
            invariant
                i <= self.mesh@.len(),
                entries@.len() == i,
                forall|j: int|
                    0 <= j < i ==> #[trigger] entries@[j] == (self.mesh@[j], self.material),
            decreases self.mesh@.len() - i,
        {
            entries.push((self.mesh[i], self.material));
            i = i + 1;
        }
        entries
    }
}

} // verus!
