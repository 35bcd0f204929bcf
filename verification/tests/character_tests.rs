use fitquest::api::read_character;
use fitquest::character::{new_character, populate_equipped, populate_inventory, Inventory};
use fitquest::items::ItemCategory;
use fitquest::stats::{Class, Stats};

fn starting_inventory() -> Inventory {
    populate_inventory(&vec![
        (1, ItemCategory::Arm),
        (2, ItemCategory::Background),
        (3, ItemCategory::Body),
        (4, ItemCategory::Head),
        (5, ItemCategory::Head_Accessory),
        (6, ItemCategory::Arm),
    ])
}

#[test]
fn populate_inventory_groups_by_category() {
    let inv = starting_inventory();
    assert_eq!(inv.arms, vec![1, 6]);
    assert_eq!(inv.backgrounds, vec![2]);
    assert_eq!(inv.bodies, vec![3]);
    assert_eq!(inv.heads, vec![4]);
    assert_eq!(inv.head_accessories, vec![5]);
    assert!(inv.pets.is_empty());
    assert!(inv.weapons.is_empty());
}

#[test]
fn populate_equipped_wears_owned_items_only() {
    let inv = starting_inventory();
    for _ in 0..20 {
        let equipped = populate_equipped(&inv);
        assert!(inv.arms.contains(&equipped.arms));
        assert_eq!(equipped.background, 2);
        assert_eq!(equipped.bodies, 3);
        assert_eq!(equipped.head, 4);
        assert_eq!(equipped.head_accessory, 5);
        assert_eq!(equipped.pet, None, "no pet is owned yet");
        assert_eq!(equipped.weapon, None, "no weapon is owned yet");
    }
}

#[test]
fn new_characters_start_at_level_one_with_nothing_earned() {
    let inv = starting_inventory();
    let equipped = populate_equipped(&inv);
    let class = Class {
        name: "Wizard".to_string(),
        stats: Stats { strength: 7, endurance: 7, flexibility: 7 },
    };
    let row = new_character(9, "dana".to_string(), class, equipped, inv);
    assert_eq!(row.user_id, 9);
    assert_eq!(row.level, 1);
    assert_eq!(row.exp_leftover, 0);
    assert_eq!(row.pending_stat_points, 0);
    assert_eq!(row.coins, 0);
    assert_eq!(row.streak, 0);
    assert!(row.friends.is_empty());
}

#[test]
fn character_sheet_reports_the_next_level_requirement() {
    let inv = starting_inventory();
    let equipped = populate_equipped(&inv);
    let class = Class {
        name: "Wizard".to_string(),
        stats: Stats { strength: 7, endurance: 7, flexibility: 7 },
    };
    let mut row = new_character(9, "dana".to_string(), class, equipped, inv);
    row.level = 2;
    row.exp_leftover = 17;
    row.coins = 99;
    let sheet = read_character(&row);
    assert_eq!(sheet.username, "dana".to_string());
    assert_eq!(sheet.level, 2);
    assert_eq!(sheet.exp_leftover, 17);
    assert_eq!(sheet.exp_needed, 245);
    assert_eq!(sheet.coins, 99);
}
