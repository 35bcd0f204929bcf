//! Request and response shapes of the surrounding application, and the small
//! pure computations behind the read endpoints.

use vstd::prelude::*;

verus! {

use crate::character::CharactersRow;
use crate::character::Equipped;
use crate::character::Inventory;
use crate::progression::LEVEL_LIMIT;
use crate::progression::exp_needed_for_level;
use crate::progression::spec_exp_required;
use crate::stats::Class;

/// A character sheet, with the experience still needed for the next level.
pub struct ReadCharacterResponse {
    pub username: String,
    pub class: Class,
    pub level: u32,
    pub exp_leftover: u64,
    pub exp_needed: u64,
    pub pending_stat_points: u64,
    pub streak: u32,
    pub coins: u64,
    pub equipped: Equipped,
    pub inventory: Inventory,
    pub friends: Vec<i32>,
}

/// Account settings as shown to their owner.
pub struct ReadSettingsResponse {
    pub email: String,
    pub first_name: String,
    pub last_name: String,
    pub workout_schedule: Vec<bool>,
}

/// The persisted per-user settings row.
#[derive(Clone, Debug)]
pub struct SettingsRow {
    pub user_id: i32,
    pub first_name: String,
    pub last_name: String,
    pub workout_schedule: Vec<bool>,
}

/// Per-user settings, without the owning id.
#[derive(Clone, Debug)]
pub struct Settings {
    pub first_name: String,
    pub last_name: String,
    pub workout_schedule: Vec<bool>,
}

/// A short self-description for the summary screen.
pub struct MeResponse {
    pub first_name: String,
    pub last_name: String,
    pub username: String,
    pub class: Class,
    pub workout_schedule: Vec<bool>,
}

/// The caller's inventory.
pub struct ReadInventoryResponse {
    pub inventory: Inventory,
}

/// A replacement inventory.
pub struct UpdateInventoryResponse {
    pub inventory: Inventory,
}

/// The caller's equipped items.
pub struct ReadEquippedResponse {
    pub equipped: Equipped,
}

/// A replacement set of equipped items.
pub struct UpdateEquippedResponse {
    pub equipped: Equipped,
}

/// A request to spend pending stat points on one attribute.
#[derive(Clone, Debug)]
pub struct IncreaseStatRequest {
    pub stat: String,
    pub amount: u32,
}

/// A request to delete one workout routine.
#[derive(Clone, Copy, Debug, PartialEq, Eq, Structural)]
pub struct DeleteRoutinesRequest {
    pub id: i32,
}

/// Assemble the character sheet from a stored row: every field is carried
/// over, and `exp_needed` is the requirement of the next level.
pub fn read_character(row: &CharactersRow) -> (r: ReadCharacterResponse)
    requires
        row.level < LEVEL_LIMIT,
    ensures
        r.username == row.username,
        r.class == row.class,
        r.level == row.level,
        r.exp_leftover == row.exp_leftover,
        r.exp_needed as int == spec_exp_required((row.level + 1) as nat),
        r.pending_stat_points == row.pending_stat_points,
        r.streak == row.streak,
        r.coins == row.coins,
        r.equipped == row.equipped,
        forall|c: crate::items::ItemCategory|
            crate::character::spec_inventory_list(r.inventory, c)
                == crate::character::spec_inventory_list(row.inventory, c),
        r.friends@ == row.friends@,
{
    ReadCharacterResponse {
        username: row.username.clone(),
        class: row.class.duplicate(),
        level: row.level,
        exp_leftover: row.exp_leftover,
        exp_needed: exp_needed_for_level(row.level + 1),
        pending_stat_points: row.pending_stat_points,
        streak: row.streak,
        coins: row.coins,
        equipped: row.equipped,
        inventory: duplicate_inventory(&row.inventory),
        friends: copy_ids(&row.friends),
    }
}

/// A copy of an id list.
pub fn copy_ids(v: &Vec<i32>) -> (r: Vec<i32>)
    ensures
        r@ == v@,
{
    let mut out: Vec<i32> = Vec::new();
    let mut i: usize = 0;
    while i < v.len()
        invariant
            i <= v@.len(),
            out@ == v@.subrange(0, i as int),
        decreases v@.len() - i,
    {
        out.push(v[i]);
        proof {
            assert(out@ =~= v@.subrange(0, i + 1));
        }
        i += 1;
    }
    proof {
        assert(v@.subrange(0, v@.len() as int) =~= v@);
    }
    out
}

/// A copy of an inventory, category by category.
pub fn duplicate_inventory(inv: &Inventory) -> (r: Inventory)
    ensures
        forall|c: crate::items::ItemCategory|
            crate::character::spec_inventory_list(r, c) == crate::character::spec_inventory_list(
                *inv,
                c,
            ),
{
    Inventory {
        arms: copy_ids(&inv.arms),
        backgrounds: copy_ids(&inv.backgrounds),
        bodies: copy_ids(&inv.bodies),
        heads: copy_ids(&inv.heads),
        head_accessories: copy_ids(&inv.head_accessories),
        pets: copy_ids(&inv.pets),
        weapons: copy_ids(&inv.weapons),
    }
}

/// The ids of `ids` with the caller's own id dropped, in order; what a raw
/// friends-list update may store after validation.
pub open spec fn spec_validated_friends(ids: Seq<i32>, own: i32) -> Seq<i32>
    decreases ids.len(),
{
    if ids.len() == 0 {
        Seq::empty()
    } else {
        let rest = spec_validated_friends(ids.drop_last(), own);
        if ids.last() == own {
            rest
        } else {
            rest.push(ids.last())
        }
    }
}

/// Validate a raw friends-list update: the caller's own id is dropped; the
/// rest is kept in order.
pub fn update_friends(friend_ids: &Vec<i32>, own_id: i32) -> (r: Vec<i32>)
    ensures
        r@ == spec_validated_friends(friend_ids@, own_id),
{
    let mut out: Vec<i32> = Vec::new();
    let mut i: usize = 0;
    proof {
        assert(friend_ids@.subrange(0, 0) =~= Seq::<i32>::empty());
    }
    while i < friend_ids.len()
        invariant
            i <= friend_ids@.len(),
            out@ == spec_validated_friends(friend_ids@.subrange(0, i as int), own_id),
        decreases friend_ids@.len() - i,
    {
        proof {
            assert(friend_ids@.subrange(0, i + 1).drop_last() =~= friend_ids@.subrange(
                0,
                i as int,
            ));
            assert(friend_ids@.subrange(0, i + 1).last() == friend_ids@[i as int]);
        }
        if friend_ids[i] != own_id {
            out.push(friend_ids[i]);
        }
        i += 1;
    }
    proof {
        assert(friend_ids@.subrange(0, friend_ids@.len() as int) =~= friend_ids@);
    }
    out
}

} // verus!
