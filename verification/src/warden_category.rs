//! The warden item set: per-category sizes, item names and cost tables.

use vstd::prelude::*;

use crate::MATERIAL_COUNT;

verus! {

/// Cost table of the SmallArms category: one row of four material costs per item.
pub const WARDEN_SMALL_ARMS_COSTS: [u16; 100] = [
    250, 0, 0, 25,
    0, 0, 0, 25,
    0, 0, 0, 15,
    0, 0, 0, 15,
    80, 0, 0, 0,
    70, 0, 0, 0,
    60, 0, 0, 0,
    100, 40, 0, 0,
    140, 0, 0, 0,
    130, 0, 0, 0,
    125, 0, 0, 0,
    125, 0, 0, 0,
    120, 0, 0, 0,
    120, 0, 0, 0,
    100, 0, 0, 0,
    140, 0, 0, 0,
    40, 0, 0, 0,
    40, 0, 0, 0,
    80, 0, 0, 0,
    60, 0, 0, 0,
    80, 0, 0, 0,
    80, 0, 0, 0,
    80, 0, 0, 0,
    120, 0, 0, 0,
    100, 0, 0, 0,
];

/// Cost table of the HeavyArms category: one row of four material costs per item.
pub const WARDEN_HEAVY_ARMS_COSTS: [u16; 88] = [
    165, 0, 0, 30,
    95, 125, 0, 0,
    150, 0, 0, 0,
    125, 0, 0, 15,
    100, 0, 0, 5,
    100, 0, 0, 5,
    100, 0, 0, 5,
    100, 0, 0, 35,
    100, 0, 0, 25,
    100, 80, 0, 0,
    100, 0, 0, 0,
    100, 0, 0, 25,
    100, 20, 0, 0,
    50, 100, 0, 0,
    60, 150, 0, 0,
    60, 150, 0, 0,
    60, 15, 0, 0,
    60, 20, 0, 0,
    60, 70, 0, 0,
    60, 90, 0, 0,
    75, 100, 0, 0,
    80, 40, 0, 0,
];

/// Cost table of the HeavyAmmunition category: one row of four material costs per item.
pub const WARDEN_HEAVY_AMMUNITION_COSTS: [u16; 20] = [
    120, 240, 0, 0,
    120, 0, 100, 0,
    120, 0, 10, 0,
    120, 0, 60, 0,
    160, 240, 0, 0,
];

/// Cost table of the Utility category: one row of four material costs per item.
pub const WARDEN_UTILITY_COSTS: [u16; 88] = [
    85, 0, 0, 10,
    135, 0, 20, 0,
    150, 160, 0, 0,
    200, 0, 0, 0,
    200, 0, 0, 0,
    80, 0, 0, 0,
    75, 0, 0, 0,
    75, 0, 0, 0,
    75, 0, 0, 0,
    75, 0, 40, 0,
    75, 0, 20, 0,
    40, 0, 0, 0,
    25, 0, 0, 0,
    200, 0, 0, 0,
    100, 0, 0, 0,
    160, 0, 0, 0,
    15, 0, 0, 0,
    15, 0, 0, 0,
    150, 0, 0, 0,
    150, 0, 0, 0,
    150, 0, 0, 0,
    100, 0, 0, 0,
];

/// Cost table of the Medical category: one row of four material costs per item.
pub const WARDEN_MEDICAL_COSTS: [u16; 20] = [
    60, 0, 0, 0,
    80, 0, 0, 0,
    80, 0, 0, 0,
    80, 0, 0, 0,
    80, 0, 0, 0,
];

/// Cost table of the Resources category: one row of four material costs per item.
pub const WARDEN_RESOURCES_COSTS: [u16; 4] = [
    250, 0, 0, 0,
];

/// Cost table of the Uniforms category: one row of four material costs per item.
pub const WARDEN_UNIFORMS_COSTS: [u16; 36] = [
    100, 0, 0, 0,
    100, 0, 0, 0,
    100, 0, 0, 0,
    100, 0, 0, 0,
    100, 0, 0, 0,
    100, 0, 0, 0,
    100, 0, 0, 0,
    100, 0, 0, 0,
    150, 0, 0, 0,
];

/// One category of the warden item set.
#[derive(Debug, PartialEq, Eq, Structural, Hash, Clone, Copy)]
pub enum WardenCategory {
    SmallArms,
    HeavyArms,
    HeavyAmmunition,
    Utility,
    Medical,
    Resources,
    Uniforms,
}

impl WardenCategory {
    /// Number of distinct items in this category.
    pub open spec fn spec_size(self) -> int {
        match self {
            WardenCategory::SmallArms => 25,
            WardenCategory::HeavyArms => 22,
            WardenCategory::HeavyAmmunition => 5,
            WardenCategory::Utility => 22,
            WardenCategory::Medical => 5,
            WardenCategory::Resources => 1,
            WardenCategory::Uniforms => 9,
        }
    }

    /// The category's cost matrix, row-major: entry `i * MATERIAL_COUNT + j`
    /// is the amount of material `j` one unit of item `i` consumes.
    pub open spec fn spec_cost_matrix(self) -> Seq<u16> {
        match self {
            WardenCategory::SmallArms => WARDEN_SMALL_ARMS_COSTS@,
            WardenCategory::HeavyArms => WARDEN_HEAVY_ARMS_COSTS@,
            WardenCategory::HeavyAmmunition => WARDEN_HEAVY_AMMUNITION_COSTS@,
            WardenCategory::Utility => WARDEN_UTILITY_COSTS@,
            WardenCategory::Medical => WARDEN_MEDICAL_COSTS@,
            WardenCategory::Resources => WARDEN_RESOURCES_COSTS@,
            WardenCategory::Uniforms => WARDEN_UNIFORMS_COSTS@,
        }
    }

    pub fn size(&self) -> (r: u8)
        ensures
            r as int == self.spec_size(),
    {
        match self {
            WardenCategory::SmallArms => 25,
            WardenCategory::HeavyArms => 22,
            WardenCategory::HeavyAmmunition => 5,
            WardenCategory::Utility => 22,
            WardenCategory::Medical => 5,
            WardenCategory::Resources => 1,
            WardenCategory::Uniforms => 9,
        }
    }

    pub fn cost_matrix(&self) -> (r: Vec<u16>)
        ensures
            r@ == self.spec_cost_matrix(),
            r@.len() == self.spec_size() * MATERIAL_COUNT,
    {
        match self {
            WardenCategory::SmallArms => vstd::slice::slice_to_vec(WARDEN_SMALL_ARMS_COSTS.as_slice()),
            WardenCategory::HeavyArms => vstd::slice::slice_to_vec(WARDEN_HEAVY_ARMS_COSTS.as_slice()),
            WardenCategory::HeavyAmmunition => vstd::slice::slice_to_vec(WARDEN_HEAVY_AMMUNITION_COSTS.as_slice()),
            WardenCategory::Utility => vstd::slice::slice_to_vec(WARDEN_UTILITY_COSTS.as_slice()),
            WardenCategory::Medical => vstd::slice::slice_to_vec(WARDEN_MEDICAL_COSTS.as_slice()),
            WardenCategory::Resources => vstd::slice::slice_to_vec(WARDEN_RESOURCES_COSTS.as_slice()),
            WardenCategory::Uniforms => vstd::slice::slice_to_vec(WARDEN_UNIFORMS_COSTS.as_slice()),
        }
    }

    /// Display names of the category's items, grouped per item row.
    pub fn item_order(&self) -> (r: Vec<Vec<String>>)
        ensures
            r@.len() == self.spec_size(),
    {
        match self {
            WardenCategory::SmallArms => vec![
                vec!["Clancy-Raca M4".to_owned()],
                vec!["Malone MK.2".to_owned()],
                vec!["Booker Storm Rifle Model 838".to_owned()],
                vec!["Aalto Storm Rifle 24".to_owned()],
                vec!["No.4 The Pillory Scattergun".to_owned()],
                vec!["No.2B Hawthorne".to_owned()],
                vec!["Cascadier 873".to_owned()],
                vec!["A3 Harpa Fragmentation Grenade".to_owned()],
                vec!["Blakerow 871".to_owned()],
                vec!["Clancy Cinder M3".to_owned()],
                vec!["The Hangman 757".to_owned()],
                vec!["Sampo Auto-Rifle 77".to_owned()],
                vec!["No.1 \"The Liar\" Submachine Gun".to_owned()],
                vec!["Fiddler Submachine Gun Model 868".to_owned()],
                vec!["No.2 Loughcaster".to_owned()],
                vec!["Green Ash Grenade".to_owned()],
                vec![".44".to_owned()],
                vec!["8mm".to_owned()],
                vec!["PT-815 Smoke Grenade".to_owned()],
                vec!["Cometa T2-9".to_owned()],
                vec!["7.62mm".to_owned()],
                vec!["9mm".to_owned()],
                vec!["Buckshot".to_owned()],
                vec!["7.92mm".to_owned()],
                vec!["12.7mm".to_owned()],
            ],
            WardenCategory::HeavyArms => vec![
                vec!["Willow's Bane Model 845".to_owned()],
                vec!["B2 Varsi Anti-Tank Grenade".to_owned()],
                vec!["20 Neville Anti-Tank Rifle".to_owned()],
                vec!["Carnyx Anti-Tank Rocket Launcher".to_owned()],
                vec!["Mounted Bonesaw MK.3".to_owned()],
                vec!["Malone Ratcatcher MK.1".to_owned()],
                vec!["Cutler Foebreaker".to_owned()],
                vec!["Cutler Launcher 4".to_owned()],
                vec!["Bonesaw MK.3".to_owned()],
                vec!["BF5 White Ash Flask Grenade".to_owned()],
                vec!["20mm".to_owned()],
                vec!["Cremari Mortar".to_owned()],
                vec!["Mammon 91-b".to_owned()],
                vec!["Anti-Tank Sticky Bomb".to_owned()],
                vec!["AP/RPG".to_owned()],
                vec!["ARC/RPG".to_owned()],
                vec!["Flare Mortar Shell".to_owned()],
                vec!["Shrapnel Mortar Shell".to_owned()],
                vec!["Mortar Shell".to_owned()],
                vec!["RPG".to_owned()],
                vec!["Tremola Grenade GPb-1".to_owned()],
                vec!["30mm".to_owned()],
            ],
            WardenCategory::HeavyAmmunition => vec![
                vec!["68mm".to_owned()],
                vec!["250mm \"Purity\" Shell".to_owned()],
                vec!["120mm".to_owned()],
                vec!["150mm".to_owned()],
                vec!["40mm".to_owned()],
            ],
            WardenCategory::Utility => vec![
                vec!["The Ospreay".to_owned()],
                vec!["Willow's Bane Ammo".to_owned()],
                vec!["Alligator Charge".to_owned()],
                vec!["Falias Raiding Club".to_owned()],
                vec!["Shovel".to_owned()],
                vec!["Water Bucket".to_owned()],
                vec!["Wrench".to_owned()],
                vec!["Radio".to_owned()],
                vec!["Binoculars".to_owned()],
                vec!["Havoc Charge".to_owned()],
                vec!["Havoc Charge Detonator".to_owned()],
                vec!["Buckhorn CCQ-18".to_owned()],
                vec!["Metal Beam".to_owned()],
                vec!["Sledge Hammer".to_owned()],
                vec!["Gas Mask Filter".to_owned()],
                vec!["Gas Mask".to_owned()],
                vec!["Sandbag".to_owned()],
                vec!["Barbed Wire".to_owned()],
                vec!["Wind Sock".to_owned()],
                vec!["Radio Backpack".to_owned()],
                vec!["Listening Kit".to_owned()],
                vec!["Tripod".to_owned()],
            ],
            WardenCategory::Medical => vec![
                vec!["First Aid Kit".to_owned()],
                vec!["Bandages".to_owned()],
                vec!["Blood Plasma".to_owned()],
                vec!["Soldier Supplies".to_owned()],
                vec!["Trauma Kit".to_owned()],
            ],
            WardenCategory::Resources => vec![
                vec!["Maintenance Supplies".to_owned()],
            ],
            WardenCategory::Uniforms => vec![
                vec!["Caoivish Parka".to_owned()],
                vec!["Gentleman's Peacoat".to_owned()],
                vec!["Officer's Regalia".to_owned()],
                vec!["Outrider's Mantle".to_owned()],
                vec!["Padded Boiler Suit".to_owned()],
                vec!["Physician's Jacket".to_owned()],
                vec!["Sapper Gear".to_owned()],
                vec!["Specialist's Overcoat".to_owned()],
                vec!["Gunner's Breastplate".to_owned()],
            ],
        }
    }
}

} // verus!
