//! The item catalog: categories, rarities, and rarity pricing.

use vstd::prelude::*;

verus! {

/// The equipment slot family an item belongs to.
#[derive(Clone, Copy, Debug, PartialEq, Eq, Structural)]
#[allow(non_camel_case_types)]
pub enum ItemCategory {
    Arm,
    Background,
    Body,
    Head,
    Head_Accessory,
    Pet,
    Weapon,
}

/// The rarity tier of an item; the shop price follows from it.
#[derive(Clone, Copy, Debug, PartialEq, Eq, Structural)]
pub enum ItemRarity {
    Default,
    Common,
    Uncommon,
    Rare,
    Epic,
    Legendary,
}

/// A row of the item catalog.
#[derive(Clone, Debug)]
pub struct ItemRow {
    pub id: i32,
    pub name: String,
    pub category: ItemCategory,
    pub rarity: ItemRarity,
    pub path: String,
}

/// An item with its display asset loaded.
#[derive(Clone, Debug)]
pub struct Item {
    pub id: i32,
    pub name: String,
    pub category: ItemCategory,
    pub rarity: ItemRarity,
    pub bytes: Vec<u8>,
}

/// A request for the assets of a set of items.
#[derive(Clone, Debug)]
pub struct ItemsRequest {
    pub ids: Vec<i32>,
}

/// The items answering an [`ItemsRequest`].
pub struct ItemsResponse {
    pub items: Vec<Item>,
}

/// The fixed price of each rarity tier. Every tier of [`ItemRarity`] is
/// priced; the catalog fallback for an unmapped rarity, 100, cannot arise
/// with this closed enumeration.
pub open spec fn spec_price_of(r: ItemRarity) -> u32 {
    match r {
        ItemRarity::Default => 0,
        ItemRarity::Common => 100,
        ItemRarity::Uncommon => 250,
        ItemRarity::Rare => 500,
        ItemRarity::Epic => 1000,
        ItemRarity::Legendary => 2500,
    }
}

/// Price of an item of the given rarity.
pub fn price_of(r: ItemRarity) -> (p: u32)
    ensures
        p == spec_price_of(r),
{
    match r {
        ItemRarity::Default => 0,
        ItemRarity::Common => 100,
        ItemRarity::Uncommon => 250,
        ItemRarity::Rare => 500,
        ItemRarity::Epic => 1000,
        ItemRarity::Legendary => 2500,
    }
}

} // verus!
