//! The voxel identity stored in a palette entry.

use vstd::prelude::*;

verus! {

/// One voxel identity: a namespaced name plus optional state properties.
/// Immutable once constructed; many cells of a section may resolve to the
/// same entry.
#[derive(Debug, Clone, PartialEq)]
pub struct Block {
    pub(crate) name: String,
    pub(crate) properties: Option<nbt_rs::types::NbtCompound>,
}

impl Block {
    /// The namespaced name, as this block's spec-level identity.
    pub closed spec fn spec_name(&self) -> String {
        self.name
    }

    /// The spec-level view of the state properties.
    pub closed spec fn spec_properties(&self) -> Option<nbt_rs::types::NbtCompound> {
        self.properties
    }

    /// Builds a voxel identity from its decoded name and properties.
    pub(crate) fn new(name: String, properties: Option<nbt_rs::types::NbtCompound>) -> (r: Block)
        ensures
            r.spec_name() == name,
            r.spec_properties() == properties,
    {
        Block { name, properties }
    }

    /// The namespaced name of the voxel.
    pub fn get_name(&self) -> (r: &String)
        ensures
            *r == self.spec_name(),
    {
        &self.name
    }

    /// The state properties of the voxel, when it has any.
    pub fn get_properties(&self) -> (r: &Option<nbt_rs::types::NbtCompound>)
        ensures
            *r == self.spec_properties(),
    {
        &self.properties
    }
}

} // verus!
