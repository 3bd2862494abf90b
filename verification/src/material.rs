//! The material table: the closed set of material kinds and the stack and
//! crate divisors of each.

use vstd::prelude::*;

verus! {

/// One of the four material kinds a cost vector ranges over, in the fixed
/// order in which cost-vector entries are laid out.
#[derive(Debug, PartialEq, Eq, Structural, Hash, Clone, Copy)]
pub enum Material {
    BasicMaterial,
    ExplosiveMaterial,
    HeavyExplosiveMaterial,
    RefinedMaterial,
}

impl Material {
    /// Units per stack: the divisor that converts a material cost to slots.
    pub open spec fn spec_stack_value(self) -> u16 {
        match self {
            Material::BasicMaterial => 100,
            Material::ExplosiveMaterial => 100,
            Material::HeavyExplosiveMaterial => 100,
            Material::RefinedMaterial => 100,
        }
    }

    /// Units per crate: the divisor of the crate-divisibility predicates.
    pub open spec fn spec_crate_value(self) -> u16 {
        match self {
            Material::BasicMaterial => 100,
            Material::ExplosiveMaterial => 40,
            Material::HeavyExplosiveMaterial => 30,
            Material::RefinedMaterial => 20,
        }
    }

    pub fn stack_value(&self) -> (r: u16)
        ensures
            r == self.spec_stack_value(),
    {
        match self {
            Material::BasicMaterial => 100,
            Material::ExplosiveMaterial => 100,
            Material::HeavyExplosiveMaterial => 100,
            Material::RefinedMaterial => 100,
        }
    }

    pub fn crate_value(&self) -> (r: u16)
        ensures
            r == self.spec_crate_value(),
    {
        match self {
            Material::BasicMaterial => 100,
            Material::ExplosiveMaterial => 40,
            Material::HeavyExplosiveMaterial => 30,
            Material::RefinedMaterial => 20,
        }
    }
}

/// The material at position `j` of a cost vector.
pub open spec fn material_at(j: int) -> Material {
    if j == 0 {
        Material::BasicMaterial
    } else if j == 1 {
        Material::ExplosiveMaterial
    } else if j == 2 {
        Material::HeavyExplosiveMaterial
    } else {
        Material::RefinedMaterial
    }
}

/// Stack divisor of the material at cost-vector position `j`.
pub open spec fn stack_of(j: int) -> int {
    material_at(j).spec_stack_value() as int
}

/// Crate divisor of the material at cost-vector position `j`.
pub open spec fn crate_of(j: int) -> int {
    material_at(j).spec_crate_value() as int
}

/// The fixed order in which materials index cost-vector entries.
pub fn material_order() -> (r: Vec<Material>)
    ensures
        r@.len() == crate::MATERIAL_COUNT,
        forall|j: int| 0 <= j < r@.len() ==> r@[j] == material_at(j),
{
    let r = vec![
        Material::BasicMaterial,
        Material::ExplosiveMaterial,
        Material::HeavyExplosiveMaterial,
        Material::RefinedMaterial,
    ];
    assert(forall|j: int| 0 <= j < r@.len() ==> r@[j] == material_at(j));
    r
}

} // verus!
