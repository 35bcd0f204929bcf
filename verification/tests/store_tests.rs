use fitquest::character::{CharactersRow, Equipped, Inventory};
use fitquest::items::{ItemCategory, ItemRarity, ItemRow};
use fitquest::quests::{QuestDifficulty, QuestRow, QuestStatus, Workout};
use fitquest::stats::{Class, Stats};
use fitquest::store::{SettingsError, ShopError, Store};

fn empty_inventory() -> Inventory {
    Inventory {
        arms: vec![],
        backgrounds: vec![],
        bodies: vec![],
        heads: vec![],
        head_accessories: vec![],
        pets: vec![],
        weapons: vec![],
    }
}

fn character(user_id: i32, name: &str, coins: u64) -> CharactersRow {
    CharactersRow {
        user_id,
        username: name.to_string(),
        class: Class {
            name: "Warrior".to_string(),
            stats: Stats { strength: 10, endurance: 7, flexibility: 5 },
        },
        level: 1,
        exp_leftover: 0,
        pending_stat_points: 0,
        streak: 0,
        coins,
        equipped: Equipped {
            arms: 1,
            background: 2,
            bodies: 3,
            head: 4,
            head_accessory: 5,
            pet: None,
            weapon: None,
        },
        inventory: empty_inventory(),
        friends: vec![],
    }
}

fn item(id: i32, rarity: ItemRarity, category: ItemCategory) -> ItemRow {
    ItemRow { id, name: format!("item-{id}"), category, rarity, path: format!("{id}.png") }
}

fn shop_store() -> Store {
    let mut store = Store::new();
    store.characters.push(character(1, "alice", 100));
    store.catalog.push(item(10, ItemRarity::Uncommon, ItemCategory::Head));
    store.catalog.push(item(11, ItemRarity::Common, ItemCategory::Pet));
    store.catalog.push(item(12, ItemRarity::Legendary, ItemCategory::Weapon));
    store.shop.push(10);
    store.shop.push(11);
    store.shop.push(12);
    store
}

#[test]
fn buy_fails_with_insufficient_funds_and_changes_nothing() {
    // A character with 100 coins cannot afford the 250-coin uncommon item.
    let mut store = shop_store();
    let r = store.buy_item(1, 10);
    assert_eq!(r, Err(ShopError::InsufficientFunds));
    assert_eq!(store.characters[0].coins, 100);
    assert!(store.characters[0].inventory.heads.is_empty());
}

#[test]
fn buy_fails_when_item_not_listed() {
    let mut store = shop_store();
    let r = store.buy_item(1, 999);
    assert_eq!(r, Err(ShopError::ItemNotInShop));
    assert_eq!(store.characters[0].coins, 100);
}

#[test]
fn buy_fails_when_already_owned() {
    let mut store = shop_store();
    store.characters[0].inventory.pets.push(11);
    let r = store.buy_item(1, 11);
    assert_eq!(r, Err(ShopError::AlreadyOwned));
    assert_eq!(store.characters[0].coins, 100);
    assert_eq!(store.characters[0].inventory.pets, vec![11]);
}

#[test]
fn buy_debits_coins_and_adds_to_inventory() {
    let mut store = shop_store();
    let r = store.buy_item(1, 11);
    assert_eq!(r, Ok(()));
    assert_eq!(store.characters[0].coins, 0);
    assert_eq!(store.characters[0].inventory.pets, vec![11]);
}

#[test]
fn concurrent_purchase_race_lets_exactly_one_succeed() {
    // 300 coins, two items priced 250 and 100: under the store's serialized
    // transactions one buy wins and the other fails, whatever the order.
    let mut store = shop_store();
    store.characters[0].coins = 300;
    let first = store.buy_item(1, 10); // 250 coins
    let second = store.buy_item(1, 11); // 100 coins
    assert_eq!(first, Ok(()));
    assert_eq!(second, Err(ShopError::InsufficientFunds));
    assert_eq!(store.characters[0].coins, 50);
}

#[test]
fn shop_refresh_fills_ten_slots_when_the_catalog_allows() {
    let mut store = Store::new();
    for id in 0..30 {
        let rarity = if id % 3 == 0 { ItemRarity::Default } else { ItemRarity::Rare };
        store.catalog.push(item(id, rarity, ItemCategory::Body));
    }
    store.refresh_shop();
    assert_eq!(store.shop.len(), 10);
    let mut seen = store.shop.clone();
    seen.sort();
    seen.dedup();
    assert_eq!(seen.len(), 10, "listed items must be distinct");
    for id in &store.shop {
        assert!(id % 3 != 0, "default-rarity items never reach the shop");
    }
}

#[test]
fn shop_refresh_is_never_observed_half_done() {
    // The refresh replaces the listing in one operation: right after it the
    // listing is complete (here: all three eligible items), not emptied.
    let mut store = shop_store();
    store.refresh_shop();
    assert_eq!(store.shop.len(), 3);
    store.refresh_shop();
    assert_eq!(store.shop.len(), 3);
}

#[test]
fn get_shop_prices_by_rarity() {
    let store = shop_store();
    let listed = store.get_shop();
    assert_eq!(listed.len(), 3);
    assert_eq!(listed[0].id, 10);
    assert_eq!(listed[0].price, 250);
    assert_eq!(listed[1].price, 100);
    assert_eq!(listed[2].price, 2500);
    assert_eq!(listed[2].name, "item-12".to_string());
}

#[test]
fn add_exp_levels_up_through_the_store() {
    let mut store = shop_store();
    store.add_exp(1, 250);
    // From level 1 (214 needed): 250 - 214 = 36 left over.
    assert_eq!(store.characters[0].level, 2);
    assert_eq!(store.characters[0].exp_leftover, 36);
    assert_eq!(store.characters[0].pending_stat_points, 1);
}

#[test]
fn add_coins_credits_the_balance() {
    let mut store = shop_store();
    store.add_coins(1, 40);
    assert_eq!(store.characters[0].coins, 140);
}

#[test]
fn increase_stat_spends_pending_points() {
    let mut store = shop_store();
    store.characters[0].pending_stat_points = 3;
    let r = store.increase_stat(1, &"endurance".to_string(), 2);
    assert_eq!(r, Ok(()));
    assert_eq!(store.characters[0].class.stats.endurance, 9);
    assert_eq!(store.characters[0].pending_stat_points, 1);
}

fn easy_quest(id: i32, user_id: i32, min_duration: u32) -> QuestRow {
    QuestRow {
        id,
        user_id,
        name: "daily".to_string(),
        difficulty: QuestDifficulty::Easy,
        status: QuestStatus::Incomplete,
        number_of_workouts_needed: 1,
        number_of_workouts_completed: 0,
        workout_duration: Some(min_duration),
        exercise_category: None,
        exercise_muscle: None,
    }
}

#[test]
fn completing_a_quest_credits_its_rewards_atomically() {
    let mut store = shop_store();
    store.quests.push(easy_quest(1, 1, 30));
    let w = Workout { duration: 45, points: 0, coins: 0, categories: vec![], muscles: vec![] };
    store.apply_workout_to_quests(1, &w);
    assert_eq!(store.quests[0].status, QuestStatus::Complete);
    assert_eq!(store.quests[0].number_of_workouts_completed, 1);
    // Easy quest: 500 exp from level 1 (214 then 228 needed) reaches
    // level 3; 250 coins.
    assert_eq!(store.characters[0].coins, 350);
    assert_eq!(store.characters[0].level, 3);
    assert_eq!(store.characters[0].exp_leftover, 500 - 214 - 228);
}

#[test]
fn non_matching_workouts_leave_quests_alone() {
    let mut store = shop_store();
    store.quests.push(easy_quest(1, 1, 30));
    let w = Workout { duration: 20, points: 0, coins: 0, categories: vec![], muscles: vec![] };
    store.apply_workout_to_quests(1, &w);
    assert_eq!(store.quests[0].status, QuestStatus::Incomplete);
    assert_eq!(store.quests[0].number_of_workouts_completed, 0);
    assert_eq!(store.characters[0].coins, 100);
}

#[test]
fn completed_quests_are_never_advanced_again() {
    let mut store = shop_store();
    let mut quest = easy_quest(1, 1, 0);
    quest.status = QuestStatus::Complete;
    quest.number_of_workouts_completed = 1;
    store.quests.push(quest);
    let w = Workout { duration: 60, points: 0, coins: 0, categories: vec![], muscles: vec![] };
    store.apply_workout_to_quests(1, &w);
    assert_eq!(store.quests[0].number_of_workouts_completed, 1);
    assert_eq!(store.characters[0].coins, 100, "no reward is credited twice");
}

#[test]
fn multi_workout_quests_count_up_before_completing() {
    let mut store = shop_store();
    let mut quest = easy_quest(1, 1, 10);
    quest.difficulty = QuestDifficulty::Medium;
    quest.number_of_workouts_needed = 3;
    store.quests.push(quest);
    let w = Workout { duration: 15, points: 0, coins: 0, categories: vec![], muscles: vec![] };
    store.apply_workout_to_quests(1, &w);
    assert_eq!(store.quests[0].number_of_workouts_completed, 1);
    assert_eq!(store.quests[0].status, QuestStatus::Incomplete);
    store.apply_workout_to_quests(1, &w);
    store.apply_workout_to_quests(1, &w);
    assert_eq!(store.quests[0].status, QuestStatus::Complete);
    assert_eq!(store.characters[0].coins, 100 + 500);
}

#[test]
fn log_workout_credits_points_coins_and_quests() {
    let mut store = shop_store();
    store.quests.push(easy_quest(1, 1, 30));
    let w = Workout { duration: 30, points: 100, coins: 10, categories: vec![], muscles: vec![] };
    store.log_workout(1, &w);
    // 100 workout exp, then 500 quest exp: 600 total from level 1 (214
    // needed, then 228): level 3 with 158 left over.
    assert_eq!(store.characters[0].level, 3);
    assert_eq!(store.characters[0].exp_leftover, 600 - 214 - 228);
    assert_eq!(store.characters[0].coins, 100 + 10 + 250);
    assert_eq!(store.quests[0].status, QuestStatus::Complete);
}

#[test]
fn create_quest_for_appends_an_open_quest() {
    let mut store = shop_store();
    let response = store.create_quest_for(1, QuestDifficulty::Medium);
    assert_eq!(store.quests.len(), 1);
    assert_eq!(store.quests[0].user_id, 1);
    assert_eq!(response.difficulty, QuestDifficulty::Medium);
    assert_eq!(response.status, QuestStatus::Incomplete);
    assert_eq!(response.number_of_workouts_completed, 0);
    assert_eq!(response.name, store.quests[0].name);
}

#[test]
fn read_quests_returns_only_the_callers_quests() {
    let mut store = shop_store();
    store.characters.push(character(2, "bob", 0));
    store.quests.push(easy_quest(1, 1, 10));
    store.quests.push(easy_quest(2, 2, 20));
    store.quests.push(easy_quest(3, 1, 30));
    let mine = store.read_quests(1);
    assert_eq!(mine.len(), 2);
    assert_eq!(mine[0].id, 1);
    assert_eq!(mine[1].id, 3);
}

#[test]
fn create_character_rejects_taken_usernames() {
    let mut store = shop_store();
    let class = Class {
        name: "Monk".to_string(),
        stats: Stats { strength: 4, endurance: 7, flexibility: 10 },
    };
    let equipped = store.characters[0].equipped;
    let taken = store.create_character(2, "alice".to_string(), class, equipped, empty_inventory());
    assert_eq!(taken, Err(SettingsError::UsernameTaken));
    assert_eq!(store.characters.len(), 1);
    let class2 = Class {
        name: "Monk".to_string(),
        stats: Stats { strength: 4, endurance: 7, flexibility: 10 },
    };
    let fresh = store.create_character(2, "bob".to_string(), class2, equipped, empty_inventory());
    assert_eq!(fresh, Ok(()));
    assert_eq!(store.characters.len(), 2);
    assert_eq!(store.characters[1].level, 1);
    assert_eq!(store.characters[1].coins, 0);
    assert_eq!(store.characters[1].pending_stat_points, 0);
}
