use vstd::prelude::*;

use crate::world::{material_index, ResourceMaterial, MATERIAL_COUNT};

verus! {

/// How much of one material the player holds.
#[derive(Clone, Copy, Debug, PartialEq, Eq, Structural)]
pub struct ResourceStat {
    pub material: ResourceMaterial,
    pub quantity: usize,
}

impl ResourceStat {
    pub fn new(material: ResourceMaterial, quantity: usize) -> (r: Self)
        ensures
            r.material == material,
            r.quantity == quantity,
    {
        Self { material, quantity }
    }
}

/// The player's stock, one entry per material in the order of
/// `material_index`.
pub struct PlayerResources {
    pub resources: Vec<ResourceStat>,
}

impl PlayerResources {
    pub open spec fn wf(&self) -> bool {
        &&& self.resources@.len() == MATERIAL_COUNT
        &&& forall|i: int|
            0 <= i < MATERIAL_COUNT ==> material_index((#[trigger] self.resources@[i]).material)
                == i
    }

    /// The quantity held of a material.
    pub open spec fn quantity_of(&self, m: ResourceMaterial) -> nat {
        self.resources@[material_index(m) as int].quantity as nat
    }

    /// Adds one unit of `material`; a stock at `usize::MAX` stays there.
    pub fn add_one(&mut self, material: ResourceMaterial)
        requires
            old(self).wf(),
        ensures
            final(self).wf(),
            final(self).resources@ == old(self).resources@.update(
                material_index(material) as int,
                ResourceStat {
                    material,
                    quantity: if old(self).quantity_of(material) < usize::MAX {
                        (old(self).quantity_of(material) + 1) as usize
                    } else {
                        usize::MAX
                    },
                },
            ),
    {
        let i = material.index();
        let q = self.resources[i].quantity;
        let stat = ResourceStat { material, quantity: q.saturating_add(1) };
        self.resources.set(i, stat);
    }
}

impl Default for PlayerResources {
    /// No resource of any material.
    fn default() -> (r: Self)
        ensures
            r.wf(),
            forall|i: int| 0 <= i < MATERIAL_COUNT ==> (#[trigger] r.resources@[i]).quantity == 0,
    {
        let resources = vec![
            ResourceStat::new(ResourceMaterial::Dirt, 0),
            ResourceStat::new(ResourceMaterial::Stone, 0),
            ResourceStat::new(ResourceMaterial::Coal, 0),
            ResourceStat::new(ResourceMaterial::Iron, 0),
            ResourceStat::new(ResourceMaterial::Gold, 0),
            ResourceStat::new(ResourceMaterial::Crystal, 0),
        ];
        PlayerResources { resources }
    }
}

} // verus!
