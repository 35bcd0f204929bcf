use fitquest::api::update_friends;
use fitquest::auth::{claims_for, refresh_decision, Claims, TokenType};
use fitquest::character::{CharactersRow, Equipped, Inventory};
use fitquest::store::{SettingsError, SocialError, Store};

fn ranked_character(user_id: i32, name: &str, level: u32, leftover: u64) -> CharactersRow {
    CharactersRow {
        user_id,
        username: name.to_string(),
        class: fitquest::stats::Class {
            name: "Warrior".to_string(),
            stats: fitquest::stats::Stats { strength: 10, endurance: 7, flexibility: 5 },
        },
        level,
        exp_leftover: leftover,
        pending_stat_points: 0,
        streak: 0,
        coins: 0,
        equipped: Equipped {
            arms: 1,
            background: 2,
            bodies: 3,
            head: 4,
            head_accessory: 5,
            pet: None,
            weapon: None,
        },
        inventory: Inventory {
            arms: vec![],
            backgrounds: vec![],
            bodies: vec![],
            heads: vec![],
            head_accessories: vec![],
            pets: vec![],
            weapons: vec![],
        },
        friends: vec![],
    }
}

fn social_store() -> Store {
    let mut store = Store::new();
    store.characters.push(ranked_character(1, "alice", 5, 100));
    store.characters.push(ranked_character(2, "bob", 3, 50));
    store.characters.push(ranked_character(3, "carol", 5, 100));
    store
}

#[test]
fn cannot_befriend_yourself() {
    let mut store = social_store();
    assert_eq!(store.send_friend_request(1, 1, 1000), Err(SocialError::SelfRequest));
    assert!(store.requests.is_empty());
}

#[test]
fn cannot_befriend_a_missing_character() {
    let mut store = social_store();
    assert_eq!(store.send_friend_request(1, 99, 1000), Err(SocialError::RecipientNotFound));
}

#[test]
fn duplicate_requests_are_rejected_in_both_directions() {
    let mut store = social_store();
    let id = store.send_friend_request(1, 2, 1000).unwrap();
    assert_eq!(id, 1);
    assert_eq!(store.send_friend_request(1, 2, 1001), Err(SocialError::RequestAlreadyPending));
    assert_eq!(store.send_friend_request(2, 1, 1002), Err(SocialError::RequestAlreadyPending));
    assert_eq!(store.requests.len(), 1);
}

#[test]
fn accepting_a_request_makes_the_friendship_mutual() {
    let mut store = social_store();
    let id = store.send_friend_request(1, 2, 1000).unwrap();
    let r = store.respond_to_request(id, 2, true);
    assert_eq!(r, Ok(()));
    assert!(store.characters[0].friends.contains(&2));
    assert!(store.characters[1].friends.contains(&1));
    assert!(store.requests.is_empty());
}

#[test]
fn replaying_an_accept_is_a_no_op_without_duplicates() {
    let mut store = social_store();
    let id = store.send_friend_request(1, 2, 1000).unwrap();
    store.respond_to_request(id, 2, true).unwrap();
    // The request is gone, so the replay is rejected and nothing changes.
    assert_eq!(store.respond_to_request(id, 2, true), Err(SocialError::NotFound));
    assert_eq!(store.characters[0].friends, vec![2]);
    assert_eq!(store.characters[1].friends, vec![1]);
}

#[test]
fn already_friends_blocks_a_new_request() {
    let mut store = social_store();
    let id = store.send_friend_request(1, 2, 1000).unwrap();
    store.respond_to_request(id, 2, true).unwrap();
    assert_eq!(store.send_friend_request(1, 2, 2000), Err(SocialError::AlreadyFriends));
}

#[test]
fn declining_deletes_the_request_and_adds_no_friendship() {
    let mut store = social_store();
    let id = store.send_friend_request(1, 2, 1000).unwrap();
    let r = store.respond_to_request(id, 2, false);
    assert_eq!(r, Ok(()));
    assert!(store.requests.is_empty());
    assert!(store.characters[0].friends.is_empty());
    assert!(store.characters[1].friends.is_empty());
}

#[test]
fn only_the_recipient_may_respond() {
    let mut store = social_store();
    let id = store.send_friend_request(1, 2, 1000).unwrap();
    assert_eq!(store.respond_to_request(id, 3, true), Err(SocialError::Forbidden));
    assert_eq!(store.respond_to_request(999, 2, true), Err(SocialError::NotFound));
    assert_eq!(store.requests.len(), 1);
}

#[test]
fn removing_a_friend_clears_both_sides() {
    let mut store = social_store();
    let id = store.send_friend_request(1, 2, 1000).unwrap();
    store.respond_to_request(id, 2, true).unwrap();
    let r = store.remove_friend(1, 2);
    assert_eq!(r, Ok(()));
    assert!(store.characters[0].friends.is_empty());
    assert!(store.characters[1].friends.is_empty());
}

#[test]
fn removing_a_non_friend_fails() {
    let mut store = social_store();
    assert_eq!(store.remove_friend(1, 2), Err(SocialError::NotFriends));
    assert_eq!(store.remove_friend(99, 2), Err(SocialError::NotFriends));
}

#[test]
fn leaderboard_orders_by_level_then_exp_then_id() {
    let mut store = social_store();
    store.characters.push(ranked_character(4, "dave", 9, 10));
    // dave (9) first; alice and carol tie on (5, 100): the smaller id wins;
    // bob (3) last.
    let board = store.read_leaderboard(100);
    let ids: Vec<i32> = board.iter().map(|e| e.user_id).collect();
    assert_eq!(ids, vec![4, 1, 3, 2]);
    assert_eq!(board[0].username, "dave".to_string());
    // exp_needed is the requirement of the next level.
    assert_eq!(board[3].level, 3);
    assert_eq!(board[3].exp_needed, 262);
}

#[test]
fn leaderboard_respects_the_limit() {
    let store = social_store();
    let board = store.read_leaderboard(2);
    assert_eq!(board.len(), 2);
    assert_eq!(board[0].user_id, 1);
    assert_eq!(board[1].user_id, 3);
}

#[test]
fn read_friends_lists_existing_friends_in_order() {
    let mut store = social_store();
    let id = store.send_friend_request(1, 2, 1000).unwrap();
    store.respond_to_request(id, 2, true).unwrap();
    let id2 = store.send_friend_request(1, 3, 1001).unwrap();
    store.respond_to_request(id2, 3, true).unwrap();
    let friends = store.read_friends(1);
    assert_eq!(friends.len(), 2);
    assert_eq!(friends[0].user_id, 2);
    assert_eq!(friends[0].username, "bob".to_string());
    assert_eq!(friends[0].exp_needed, 262);
    assert_eq!(friends[1].user_id, 3);
}

#[test]
fn friend_detail_requires_friendship() {
    let mut store = social_store();
    assert!(store.read_friend_detail(1, 2).is_err());
    let id = store.send_friend_request(1, 2, 1000).unwrap();
    store.respond_to_request(id, 2, true).unwrap();
    let detail = store.read_friend_detail(1, 2).unwrap();
    assert_eq!(detail.username, "bob".to_string());
    assert_eq!(detail.level, 3);
    assert_eq!(detail.exp_needed, 262);
}

#[test]
fn incoming_and_outgoing_requests_show_the_other_party() {
    let mut store = social_store();
    store.send_friend_request(1, 2, 1000).unwrap();
    store.send_friend_request(3, 2, 1500).unwrap();
    let incoming = store.get_incoming_requests(2);
    assert_eq!(incoming.len(), 2);
    assert_eq!(incoming[0].sender_id, 1);
    assert_eq!(incoming[0].sender_username, "alice".to_string());
    assert_eq!(incoming[0].created, 1000);
    assert_eq!(incoming[1].sender_id, 3);
    let outgoing = store.get_outgoing_requests(1);
    assert_eq!(outgoing.len(), 1);
    assert_eq!(outgoing[0].sender_username, "bob".to_string());
    let none = store.get_incoming_requests(1);
    assert!(none.is_empty());
}

#[test]
fn update_friends_drops_the_callers_own_id() {
    let validated = update_friends(&vec![2, 1, 3, 1], 1);
    assert_eq!(validated, vec![2, 3]);
}

#[test]
fn claims_carry_user_kind_and_expiry() {
    let c = claims_for(42, TokenType::Access, 1_000_000);
    assert_eq!(c, Claims { sub: 42, exp: 1_000_000 + 2_592_000, token_type: TokenType::Access });
}

#[test]
fn refresh_needs_an_unexpired_refresh_token() {
    let access = claims_for(42, TokenType::Access, 1000);
    assert_eq!(refresh_decision(&access, 2000), None);
    let refresh = claims_for(42, TokenType::Refresh, 1000);
    assert_eq!(refresh_decision(&refresh, 2000), Some(42));
    assert_eq!(refresh_decision(&refresh, 1000 + 2_592_000), None);
}

#[test]
fn renaming_requires_a_fresh_nonempty_username() {
    let mut store = social_store();
    assert_eq!(store.update_username(1, "".to_string()), Err(SettingsError::EmptyUsername));
    assert_eq!(store.update_username(1, "bob".to_string()), Err(SettingsError::UsernameTaken));
    assert_eq!(store.characters[0].username, "alice".to_string());
    assert_eq!(store.update_username(1, "alicia".to_string()), Ok(()));
    assert_eq!(store.characters[0].username, "alicia".to_string());
    // Renaming to your own current name is allowed.
    assert_eq!(store.update_username(1, "alicia".to_string()), Ok(()));
}

#[test]
fn leaderboard_detail_needs_a_ranked_character() {
    let store = social_store();
    let detail = store.read_leaderboard_detail(2).unwrap();
    assert_eq!(detail.username, "bob".to_string());
    assert_eq!(detail.exp_needed, 262);
    assert_eq!(store.read_leaderboard_detail(99).err(), Some(SocialError::Forbidden));
}
