//! Character state: equipped items, inventory, and well-formedness.

use vstd::prelude::*;

verus! {

use crate::items::ItemCategory;
use crate::stats::Class;
use crate::progression::spec_exp_required;
use crate::progression::lemma_exp_required_base;
use crate::progression::MAX_LEVEL;
use crate::rng::random_below;

/// The item worn in each equip slot. A pet and a weapon are optional.
#[derive(Clone, Copy, Debug, PartialEq, Eq, Structural)]
pub struct Equipped {
    pub arms: i32,
    pub background: i32,
    pub bodies: i32,
    pub head: i32,
    pub head_accessory: i32,
    pub pet: Option<i32>,
    pub weapon: Option<i32>,
}

/// The items a character owns, one id list per category.
#[derive(Clone, Debug)]
pub struct Inventory {
    pub arms: Vec<i32>,
    pub backgrounds: Vec<i32>,
    pub bodies: Vec<i32>,
    pub heads: Vec<i32>,
    pub head_accessories: Vec<i32>,
    pub pets: Vec<i32>,
    pub weapons: Vec<i32>,
}

/// The gameplay state of one character.
#[derive(Clone, Debug)]
pub struct Character {
    pub username: String,
    pub class: Class,
    pub level: u32,
    pub exp_leftover: u64,
    pub pending_stat_points: u64,
    pub streak: u32,
    pub coins: u64,
    pub equipped: Equipped,
    pub inventory: Inventory,
    pub friends: Vec<i32>,
}

/// A character as the store holds it, keyed by its owner's user id.
#[derive(Clone, Debug)]
pub struct CharactersRow {
    pub user_id: i32,
    pub username: String,
    pub class: Class,
    pub level: u32,
    pub exp_leftover: u64,
    pub pending_stat_points: u64,
    pub streak: u32,
    pub coins: u64,
    pub equipped: Equipped,
    pub inventory: Inventory,
    pub friends: Vec<i32>,
}

/// The standing invariant of a character: the level starts at one and stays
/// below the machine cap, the leftover experience never covers the next
/// level, the friends list holds no duplicates and not the character itself.
pub open spec fn spec_row_wf(c: CharactersRow) -> bool {
    &&& 1 <= c.level <= MAX_LEVEL
    &&& (c.exp_leftover as int) < spec_exp_required(c.level as nat)
    &&& c.friends@.no_duplicates()
    &&& !c.friends@.contains(c.user_id)
}

/// The id list of one inventory category.
pub open spec fn spec_inventory_list(inv: Inventory, c: ItemCategory) -> Seq<i32> {
    match c {
        ItemCategory::Arm => inv.arms@,
        ItemCategory::Background => inv.backgrounds@,
        ItemCategory::Body => inv.bodies@,
        ItemCategory::Head => inv.heads@,
        ItemCategory::Head_Accessory => inv.head_accessories@,
        ItemCategory::Pet => inv.pets@,
        ItemCategory::Weapon => inv.weapons@,
    }
}

/// Whether the inventory holds the item in the given category.
pub open spec fn spec_owns(inv: Inventory, c: ItemCategory, id: i32) -> bool {
    spec_inventory_list(inv, c).contains(id)
}

pub(crate) fn contains_id(v: &Vec<i32>, x: i32) -> (r: bool)
    ensures
        r == v@.contains(x),
{
    let mut i: usize = 0;
    while i < v.len()
        invariant
            i <= v@.len(),
            forall|j: int| 0 <= j < i ==> v@[j] != x,
        decreases v@.len() - i,
    {
        if v[i] == x {
            return true;
        }
        i += 1;
    }
    false
}

impl Inventory {
    /// An inventory with every category empty.
    pub fn empty() -> (r: Inventory)
        ensures
            forall|c: ItemCategory| spec_inventory_list(r, c) =~= Seq::<i32>::empty(),
    {
        Inventory {
            arms: Vec::new(),
            backgrounds: Vec::new(),
            bodies: Vec::new(),
            heads: Vec::new(),
            head_accessories: Vec::new(),
            pets: Vec::new(),
            weapons: Vec::new(),
        }
    }

    /// Does the character own this item in this category?
    pub fn owns(&self, c: ItemCategory, id: i32) -> (r: bool)
        ensures
            r == spec_owns(*self, c, id),
    {
        match c {
            ItemCategory::Arm => contains_id(&self.arms, id),
            ItemCategory::Background => contains_id(&self.backgrounds, id),
            ItemCategory::Body => contains_id(&self.bodies, id),
            ItemCategory::Head => contains_id(&self.heads, id),
            ItemCategory::Head_Accessory => contains_id(&self.head_accessories, id),
            ItemCategory::Pet => contains_id(&self.pets, id),
            ItemCategory::Weapon => contains_id(&self.weapons, id),
        }
    }

    /// Append an item id to its category's list; the other lists keep their
    /// contents.
    pub fn add_item(&mut self, c: ItemCategory, id: i32)
        ensures
            spec_inventory_list(*final(self), c) == spec_inventory_list(*old(self), c).push(id),
            forall|c2: ItemCategory|
                c2 != c ==> spec_inventory_list(*final(self), c2) == spec_inventory_list(
                    *old(self),
                    c2,
                ),
    {
        match c {
            ItemCategory::Arm => self.arms.push(id),
            ItemCategory::Background => self.backgrounds.push(id),
            ItemCategory::Body => self.bodies.push(id),
            ItemCategory::Head => self.heads.push(id),
            ItemCategory::Head_Accessory => self.head_accessories.push(id),
            ItemCategory::Pet => self.pets.push(id),
            ItemCategory::Weapon => self.weapons.push(id),
        }
    }
}

/// The ids of the records in the given category, in order.
pub open spec fn spec_ids_in_category(s: Seq<(i32, ItemCategory)>, c: ItemCategory) -> Seq<i32>
    decreases s.len(),
{
    if s.len() == 0 {
        Seq::empty()
    } else {
        let rest = spec_ids_in_category(s.drop_last(), c);
        if s.last().1 == c {
            rest.push(s.last().0)
        } else {
            rest
        }
    }
}

/// Group default items by category into a starting inventory: each
/// category's list holds exactly the given records of that category, in
/// order.
pub fn populate_inventory(records: &Vec<(i32, ItemCategory)>) -> (inv: Inventory)
    ensures
        forall|c: ItemCategory|
            #[trigger] spec_inventory_list(inv, c) == spec_ids_in_category(records@, c),
{
    let mut inv = Inventory::empty();
    proof {
        assert(forall|c: ItemCategory|
            #[trigger] spec_inventory_list(inv, c) =~= spec_ids_in_category(
                records@.subrange(0, 0),
                c,
            ));
    }
    let mut i: usize = 0;
    while i < records.len()
        invariant
            i <= records@.len(),
            forall|c: ItemCategory|
                #[trigger] spec_inventory_list(inv, c) == spec_ids_in_category(
                    records@.subrange(0, i as int),
                    c,
                ),
        decreases records@.len() - i,
    {
        let (id, cat) = records[i];
        inv.add_item(cat, id);
        proof {
            assert(records@.subrange(0, i + 1).drop_last() =~= records@.subrange(0, i as int));
            assert(records@.subrange(0, i + 1).last() == records@[i as int]);
        }
        i += 1;
    }
    proof {
        assert(records@.subrange(0, records@.len() as int) =~= records@);
    }
    inv
}

/// Dress a fresh character: wear one owned item from each mandatory slot,
/// and a pet or weapon only when one is owned. Every choice is random.
pub fn populate_equipped(inventory: &Inventory) -> (e: Equipped)
    requires
        inventory.arms@.len() > 0,
        inventory.backgrounds@.len() > 0,
        inventory.bodies@.len() > 0,
        inventory.heads@.len() > 0,
        inventory.head_accessories@.len() > 0,
    ensures
        inventory.arms@.contains(e.arms),
        inventory.backgrounds@.contains(e.background),
        inventory.bodies@.contains(e.bodies),
        inventory.heads@.contains(e.head),
        inventory.head_accessories@.contains(e.head_accessory),
        e.pet matches Some(p) ==> inventory.pets@.contains(p),
        e.pet is Some <==> inventory.pets@.len() > 0,
        e.weapon matches Some(w) ==> inventory.weapons@.contains(w),
        e.weapon is Some <==> inventory.weapons@.len() > 0,
{
    Equipped {
        arms: choose_id(&inventory.arms),
        background: choose_id(&inventory.backgrounds),
        bodies: choose_id(&inventory.bodies),
        head: choose_id(&inventory.heads),
        head_accessory: choose_id(&inventory.head_accessories),
        pet: choose_id_opt(&inventory.pets),
        weapon: choose_id_opt(&inventory.weapons),
    }
}

fn choose_id(v: &Vec<i32>) -> (r: i32)
    requires
        v@.len() > 0,
    ensures
        v@.contains(r),
{
    let i = random_below(v.len() as u64) as usize;
    v[i]
}

fn choose_id_opt(v: &Vec<i32>) -> (r: Option<i32>)
    ensures
        r matches Some(x) ==> v@.contains(x),
        r is Some <==> v@.len() > 0,
{
    if v.len() == 0 {
        None
    } else {
        Some(choose_id(v))
    }
}

/// A newly onboarded character: level one, nothing earned yet.
pub fn new_character(
    user_id: i32,
    username: String,
    class: Class,
    equipped: Equipped,
    inventory: Inventory,
) -> (r: CharactersRow)
    ensures
        r.user_id == user_id,
        r.username == username,
        r.class == class,
        r.level == 1,
        r.exp_leftover == 0,
        r.pending_stat_points == 0,
        r.streak == 0,
        r.coins == 0,
        r.equipped == equipped,
        r.inventory == inventory,
        r.friends@ =~= Seq::<i32>::empty(),
        spec_row_wf(r),
{
    proof {
        lemma_exp_required_base();
    }
    CharactersRow {
        user_id,
        username,
        class,
        level: 1,
        exp_leftover: 0,
        pending_stat_points: 0,
        streak: 0,
        coins: 0,
        equipped,
        inventory,
        friends: Vec::new(),
    }
}

} // verus!
