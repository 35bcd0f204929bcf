//! The character store: the single source of truth for game state.
//!
//! Every multi-step mutation of the game state is one method here, taking
//! the whole store by `&mut` and either applying all of its writes or, on a
//! failed precondition, none of them. A caller that runs these methods one
//! at a time therefore gets exactly the all-or-nothing behaviour the rules
//! demand; there is no observable intermediate state.

use vstd::prelude::*;

verus! {

use crate::character::CharactersRow;
use crate::character::spec_row_wf;
use crate::items::ItemRow;
use crate::progression::MAX_LEVEL;
use crate::progression::spec_apply_exp;
use crate::progression::spec_exp_required;
use crate::progression::apply_experience;
use crate::quests::QuestRow;
use crate::quests::spec_quest_wf;
use crate::rng::random_below;

/// A pending friend request; `created` is a Unix timestamp in seconds.
#[derive(Clone, Copy, Debug, PartialEq, Eq, Structural)]
pub struct FriendRequestRow {
    pub id: i32,
    pub sender_id: i32,
    pub recipient_id: i32,
    pub created: i64,
}

/// The persistent game state.
pub struct Store {
    pub characters: Vec<CharactersRow>,
    pub quests: Vec<QuestRow>,
    pub shop: Vec<i32>,
    pub catalog: Vec<ItemRow>,
    pub requests: Vec<FriendRequestRow>,
    pub next_request_id: i32,
    pub next_quest_id: i32,
}

/// First position of the character with this user id, or -1.
pub open spec fn spec_user_index(s: Seq<CharactersRow>, id: i32) -> int
    decreases s.len(),
{
    if s.len() == 0 {
        -1
    } else if s[0].user_id == id {
        0
    } else {
        let r = spec_user_index(s.subrange(1, s.len() as int), id);
        if r == -1 {
            -1
        } else {
            r + 1
        }
    }
}

/// Whether a character with this user id exists.
pub open spec fn spec_has_user(s: Seq<CharactersRow>, id: i32) -> bool {
    spec_user_index(s, id) >= 0
}

/// The character with this user id.
pub open spec fn spec_char_of(s: Seq<CharactersRow>, id: i32) -> CharactersRow {
    s[spec_user_index(s, id)]
}

pub proof fn lemma_user_index_spec(s: Seq<CharactersRow>, id: i32)
    ensures
        spec_user_index(s, id) >= -1,
        spec_user_index(s, id) == -1 ==> forall|i: int|
            0 <= i < s.len() ==> s[i].user_id != id,
        spec_user_index(s, id) >= 0 ==> 0 <= spec_user_index(s, id) < s.len() && s[spec_user_index(
            s,
            id,
        )].user_id == id && (forall|i: int| 0 <= i < spec_user_index(s, id) ==> s[i].user_id != id),
    decreases s.len(),
{
    if s.len() > 0 && s[0].user_id != id {
        let rest = s.subrange(1, s.len() as int);
        lemma_user_index_spec(rest, id);
        let r = spec_user_index(rest, id);
        assert(forall|i: int| 1 <= i < s.len() ==> s[i] == #[trigger] rest[i - 1]);
        if r == -1 {
            assert forall|i: int| 0 <= i < s.len() implies s[i].user_id != id by {
                if i >= 1 {
                    assert(rest[i - 1].user_id != id);
                }
            }
        } else {
            assert(spec_user_index(s, id) == r + 1);
            assert(s[r + 1] == rest[r]);
            assert forall|i: int| 0 <= i < r + 1 implies s[i].user_id != id by {
                if i >= 1 {
                    assert(rest[i - 1].user_id != id);
                }
            }
        }
    }
}

/// An item offered by the shop, priced by its rarity.
#[derive(Clone, Debug)]
pub struct ShopItem {
    pub id: i32,
    pub name: String,
    pub category: crate::items::ItemCategory,
    pub rarity: crate::items::ItemRarity,
    pub path: String,
    pub price: u32,
}

/// A request to buy one shop item.
#[derive(Clone, Copy, Debug, PartialEq, Eq, Structural)]
pub struct BuyItemRequest {
    pub item_id: i32,
}

/// Why a purchase was rejected.
#[derive(Clone, Copy, Debug, PartialEq, Eq, Structural)]
pub enum ShopError {
    ItemNotInShop,
    InsufficientFunds,
    AlreadyOwned,
}

/// First position of the catalog item with this id, or -1.
pub open spec fn spec_catalog_index(s: Seq<ItemRow>, id: i32) -> int
    decreases s.len(),
{
    if s.len() == 0 {
        -1
    } else if s[0].id == id {
        0
    } else {
        let r = spec_catalog_index(s.subrange(1, s.len() as int), id);
        if r == -1 {
            -1
        } else {
            r + 1
        }
    }
}

pub proof fn lemma_catalog_index_spec(s: Seq<ItemRow>, id: i32)
    ensures
        spec_catalog_index(s, id) >= -1,
        spec_catalog_index(s, id) == -1 ==> forall|i: int| 0 <= i < s.len() ==> s[i].id != id,
        spec_catalog_index(s, id) >= 0 ==> 0 <= spec_catalog_index(s, id) < s.len() && s[
            spec_catalog_index(s, id)
        ].id == id && (forall|i: int| 0 <= i < spec_catalog_index(s, id) ==> s[i].id != id),
    decreases s.len(),
{
    if s.len() > 0 && s[0].id != id {
        let rest = s.subrange(1, s.len() as int);
        lemma_catalog_index_spec(rest, id);
        let r = spec_catalog_index(rest, id);
        assert(forall|i: int| 1 <= i < s.len() ==> s[i] == #[trigger] rest[i - 1]);
        if r == -1 {
            assert forall|i: int| 0 <= i < s.len() implies s[i].id != id by {
                if i >= 1 {
                    assert(rest[i - 1].id != id);
                }
            }
        } else {
            assert(s[r + 1] == rest[r]);
            assert forall|i: int| 0 <= i < r + 1 implies s[i].id != id by {
                if i >= 1 {
                    assert(rest[i - 1].id != id);
                }
            }
        }
    }
}

/// How many catalog items are eligible for the shop (rarity not Default).
pub open spec fn spec_count_eligible(s: Seq<ItemRow>) -> int
    decreases s.len(),
{
    if s.len() == 0 {
        0
    } else {
        spec_count_eligible(s.drop_last()) + if s.last().rarity != crate::items::ItemRarity::Default {
            1int
        } else {
            0int
        }
    }
}

/// Two requests concern the same unordered pair of users.
pub open spec fn spec_same_pair(a: FriendRequestRow, b: FriendRequestRow) -> bool {
    (a.sender_id == b.sender_id && a.recipient_id == b.recipient_id) || (a.sender_id
        == b.recipient_id && a.recipient_id == b.sender_id)
}

/// A shop listing entry must name a non-default catalog item.
pub open spec fn spec_listing_ok(catalog: Seq<ItemRow>, id: i32) -> bool {
    exists|j: int|
        0 <= j < catalog.len() && #[trigger] catalog[j].id == id && catalog[j].rarity
            != crate::items::ItemRarity::Default
}

/// The store invariant: user ids are unique and every character row is
/// well formed; quest rows are well formed; request ids are unique and
/// fresh, each request joins two distinct existing users, and no pair has
/// two requests; the shop lists distinct non-default catalog items; catalog
/// ids are unique.
pub open spec fn spec_store_wf(s: Store) -> bool {
    &&& forall|i: int, j: int|
        0 <= i < j < s.characters@.len() ==> #[trigger] s.characters@[i].user_id
            != #[trigger] s.characters@[j].user_id
    &&& forall|i: int| 0 <= i < s.characters@.len() ==> spec_row_wf(#[trigger] s.characters@[i])
    &&& forall|i: int| 0 <= i < s.quests@.len() ==> spec_quest_wf(#[trigger] s.quests@[i])
    &&& forall|i: int, j: int|
        0 <= i < j < s.requests@.len() ==> #[trigger] s.requests@[i].id
            != #[trigger] s.requests@[j].id
    &&& forall|i: int| 0 <= i < s.requests@.len() ==> #[trigger] s.requests@[i].id < s.next_request_id
    &&& forall|i: int|
        0 <= i < s.requests@.len() ==> (#[trigger] s.requests@[i]).sender_id
            != s.requests@[i].recipient_id
    &&& forall|i: int|
        0 <= i < s.requests@.len() ==> spec_has_user(
            s.characters@,
            (#[trigger] s.requests@[i]).sender_id,
        ) && spec_has_user(s.characters@, s.requests@[i].recipient_id)
    &&& forall|i: int, j: int|
        0 <= i < j < s.requests@.len() ==> !spec_same_pair(
            #[trigger] s.requests@[i],
            #[trigger] s.requests@[j],
        )
    &&& s.shop@.no_duplicates()
    &&& forall|i: int| 0 <= i < s.shop@.len() ==> spec_listing_ok(s.catalog@, #[trigger] s.shop@[i])
    &&& forall|i: int, j: int|
        0 <= i < j < s.catalog@.len() ==> #[trigger] s.catalog@[i].id != #[trigger] s.catalog@[j].id
}

proof fn lemma_user_index_pointwise(s1: Seq<CharactersRow>, s2: Seq<CharactersRow>, id: i32)
    requires
        s1.len() == s2.len(),
        forall|i: int| 0 <= i < s1.len() ==> #[trigger] s1[i].user_id == #[trigger] s2[i].user_id,
    ensures
        spec_user_index(s1, id) == spec_user_index(s2, id),
    decreases s1.len(),
{
    if s1.len() > 0 {
        assert(s1[0].user_id == s2[0].user_id);
        if s1[0].user_id != id {
            let r1 = s1.subrange(1, s1.len() as int);
            let r2 = s2.subrange(1, s2.len() as int);
            assert(forall|i: int| 0 <= i < r1.len() ==> #[trigger] r1[i] == s1[i + 1]);
            assert(forall|i: int| 0 <= i < r2.len() ==> #[trigger] r2[i] == s2[i + 1]);
            assert(forall|i: int|
                0 <= i < r1.len() ==> #[trigger] r1[i].user_id == #[trigger] r2[i].user_id);
            lemma_user_index_pointwise(r1, r2, id);
        }
    }
}

/// Replacing one character row by another with the same user id, itself well
/// formed, keeps the whole store well formed, as long as every other part of
/// the store is untouched.
proof fn lemma_store_wf_after_char_update(pre: Store, post: Store, k: int)
    requires
        spec_store_wf(pre),
        0 <= k < pre.characters@.len(),
        post.characters@ == pre.characters@.update(k, post.characters@[k]),
        post.characters@.len() == pre.characters@.len(),
        post.characters@[k].user_id == pre.characters@[k].user_id,
        spec_row_wf(post.characters@[k]),
        forall|i: int| 0 <= i < post.quests@.len() ==> spec_quest_wf(#[trigger] post.quests@[i]),
        post.shop@ == pre.shop@,
        post.catalog@ == pre.catalog@,
        post.requests@ == pre.requests@,
        post.next_request_id == pre.next_request_id,
    ensures
        spec_store_wf(post),
        forall|id: i32|
            spec_user_index(post.characters@, id) == spec_user_index(pre.characters@, id),
{
    assert(forall|i: int|
        0 <= i < post.characters@.len() ==> #[trigger] post.characters@[i].user_id
            == #[trigger] pre.characters@[i].user_id);
    assert forall|id: i32|
        spec_user_index(post.characters@, id) == spec_user_index(pre.characters@, id) by {
        lemma_user_index_pointwise(pre.characters@, post.characters@, id);
    }
    assert forall|i: int| 0 <= i < post.requests@.len() implies spec_has_user(
        post.characters@,
        (#[trigger] post.requests@[i]).sender_id,
    ) && spec_has_user(post.characters@, post.requests@[i].recipient_id) by {
        assert(spec_has_user(pre.characters@, pre.requests@[i].sender_id));
        assert(spec_has_user(pre.characters@, pre.requests@[i].recipient_id));
    }
}

/// Why a settings change was rejected.
#[derive(Clone, Copy, Debug, PartialEq, Eq, Structural)]
pub enum SettingsError {
    EmptyUsername,
    UsernameTaken,
}

/// Why a social-graph operation was rejected.
#[derive(Clone, Copy, Debug, PartialEq, Eq, Structural)]
pub enum SocialError {
    SelfRequest,
    RecipientNotFound,
    AlreadyFriends,
    RequestAlreadyPending,
    NotFound,
    Forbidden,
    NotFriends,
}

/// First position of `id` in a list of user ids, or -1.
pub open spec fn spec_id_index(s: Seq<i32>, id: i32) -> int
    decreases s.len(),
{
    if s.len() == 0 {
        -1
    } else if s[0] == id {
        0
    } else {
        let r = spec_id_index(s.subrange(1, s.len() as int), id);
        if r == -1 {
            -1
        } else {
            r + 1
        }
    }
}

pub proof fn lemma_id_index_spec(s: Seq<i32>, id: i32)
    ensures
        spec_id_index(s, id) >= -1,
        spec_id_index(s, id) == -1 ==> forall|i: int| 0 <= i < s.len() ==> s[i] != id,
        spec_id_index(s, id) >= 0 ==> 0 <= spec_id_index(s, id) < s.len() && s[spec_id_index(
            s,
            id,
        )] == id && (forall|i: int| 0 <= i < spec_id_index(s, id) ==> s[i] != id),
    decreases s.len(),
{
    if s.len() > 0 && s[0] != id {
        let rest = s.subrange(1, s.len() as int);
        lemma_id_index_spec(rest, id);
        let r = spec_id_index(rest, id);
        assert(forall|i: int| 1 <= i < s.len() ==> s[i] == #[trigger] rest[i - 1]);
        if r == -1 {
            assert forall|i: int| 0 <= i < s.len() implies s[i] != id by {
                if i >= 1 {
                    assert(rest[i - 1] != id);
                }
            }
        } else {
            assert(s[r + 1] == rest[r]);
            assert forall|i: int| 0 <= i < r + 1 implies s[i] != id by {
                if i >= 1 {
                    assert(rest[i - 1] != id);
                }
            }
        }
    }
}

fn find_id_pos(v: &Vec<i32>, id: i32) -> (r: Option<usize>)
    ensures
        r matches Some(p) ==> p == spec_id_index(v@, id) && v@[p as int] == id,
        r is Some <==> spec_id_index(v@, id) >= 0,
        r is Some <==> v@.contains(id),
{
    proof {
        lemma_id_index_spec(v@, id);
    }
    let mut i: usize = 0;
    while i < v.len()
        invariant
            i <= v@.len(),
            forall|j: int| 0 <= j < i ==> v@[j] != id,
        decreases v@.len() - i,
    {
        if v[i] == id {
            proof {
                lemma_id_index_spec(v@, id);
                if spec_id_index(v@, id) != i {
                    assert(false);
                }
            }
            return Some(i);
        }
        i += 1;
    }
    proof {
        lemma_id_index_spec(v@, id);
    }
    None
}

/// First position of the request with this id, or -1.
pub open spec fn spec_request_index(s: Seq<FriendRequestRow>, id: i32) -> int
    decreases s.len(),
{
    if s.len() == 0 {
        -1
    } else if s[0].id == id {
        0
    } else {
        let r = spec_request_index(s.subrange(1, s.len() as int), id);
        if r == -1 {
            -1
        } else {
            r + 1
        }
    }
}

pub proof fn lemma_request_index_spec(s: Seq<FriendRequestRow>, id: i32)
    ensures
        spec_request_index(s, id) >= -1,
        spec_request_index(s, id) == -1 ==> forall|i: int| 0 <= i < s.len() ==> s[i].id != id,
        spec_request_index(s, id) >= 0 ==> 0 <= spec_request_index(s, id) < s.len() && s[
            spec_request_index(s, id)
        ].id == id && (forall|i: int| 0 <= i < spec_request_index(s, id) ==> s[i].id != id),
    decreases s.len(),
{
    if s.len() > 0 && s[0].id != id {
        let rest = s.subrange(1, s.len() as int);
        lemma_request_index_spec(rest, id);
        let r = spec_request_index(rest, id);
        assert(forall|i: int| 1 <= i < s.len() ==> s[i] == #[trigger] rest[i - 1]);
        if r == -1 {
            assert forall|i: int| 0 <= i < s.len() implies s[i].id != id by {
                if i >= 1 {
                    assert(rest[i - 1].id != id);
                }
            }
        } else {
            assert(s[r + 1] == rest[r]);
            assert forall|i: int| 0 <= i < r + 1 implies s[i].id != id by {
                if i >= 1 {
                    assert(rest[i - 1].id != id);
                }
            }
        }
    }
}

/// Whether a request between these two users is pending, in either
/// direction.
pub open spec fn spec_pair_pending(s: Seq<FriendRequestRow>, a: i32, b: i32) -> bool {
    exists|i: int|
        0 <= i < s.len() && ((#[trigger] s[i].sender_id == a && s[i].recipient_id == b) || (
        s[i].sender_id == b && s[i].recipient_id == a))
}

/// `post` is `pre` with `extra` added to the friend list unless already
/// present; every other field is untouched.
pub open spec fn spec_friend_added(pre: CharactersRow, post: CharactersRow, extra: i32) -> bool {
    &&& post.friends@ == (if pre.friends@.contains(extra) {
        pre.friends@
    } else {
        pre.friends@.push(extra)
    })
    &&& post.user_id == pre.user_id
    &&& post.username == pre.username
    &&& post.class == pre.class
    &&& post.level == pre.level
    &&& post.exp_leftover == pre.exp_leftover
    &&& post.pending_stat_points == pre.pending_stat_points
    &&& post.streak == pre.streak
    &&& post.coins == pre.coins
    &&& post.equipped == pre.equipped
    &&& post.inventory == pre.inventory
}

proof fn lemma_no_dup_push(s: Seq<i32>, x: i32)
    requires
        s.no_duplicates(),
        !s.contains(x),
    ensures
        s.push(x).no_duplicates(),
{
    let t = s.push(x);
    assert forall|i: int, j: int| 0 <= i < j < t.len() implies t[i] != t[j] by {
        if j < s.len() {
            assert(t[i] == s[i] && t[j] == s[j]);
        } else {
            assert(t[j] == x);
            assert(t[i] == s[i]);
            assert(!s.contains(x));
            if s[i] == x {
                assert(s.contains(x));
            }
        }
    }
}

proof fn lemma_remove_keeps_no_dup(s: Seq<i32>, i: int)
    requires
        0 <= i < s.len(),
        s.no_duplicates(),
    ensures
        s.remove(i).no_duplicates(),
        forall|x: i32| s.remove(i).contains(x) ==> s.contains(x),
{
    s.remove_ensures(i);
    let t = s.remove(i);
    assert forall|p: int, q: int| 0 <= p < q < t.len() implies t[p] != t[q] by {
        let p0 = if p < i {
            p
        } else {
            p + 1
        };
        let q0 = if q < i {
            q
        } else {
            q + 1
        };
        assert(t[p] == s[p0] && t[q] == s[q0]);
    }
    assert forall|x: i32| t.contains(x) implies s.contains(x) by {
        let w = choose|j: int| 0 <= j < t.len() && t[j] == x;
        let w0 = if w < i {
            w
        } else {
            w + 1
        };
        assert(s[w0] == x);
    }
}

/// Appending a character does not change where existing ids are found.
pub proof fn lemma_user_index_append(s: Seq<CharactersRow>, x: CharactersRow, id: i32)
    ensures
        spec_user_index(s, id) >= 0 ==> spec_user_index(s.push(x), id) == spec_user_index(s, id),
    decreases s.len(),
{
    if s.len() > 0 {
        if s[0].user_id != id {
            assert((s.push(x)).subrange(1, s.len() as int + 1) =~= s.subrange(
                1,
                s.len() as int,
            ).push(x));
            lemma_user_index_append(s.subrange(1, s.len() as int), x, id);
        }
    }
}

/// Changing only the friend lists of characters — every row staying well
/// formed and keeping its user id — keeps the store well formed.
proof fn lemma_store_wf_after_friends_change(pre: Store, post: Store)
    requires
        spec_store_wf(pre),
        post.characters@.len() == pre.characters@.len(),
        forall|i: int|
            0 <= i < post.characters@.len() ==> #[trigger] post.characters@[i].user_id
                == #[trigger] pre.characters@[i].user_id,
        forall|i: int| 0 <= i < post.characters@.len() ==> spec_row_wf(#[trigger] post.characters@[i]),
        post.quests@ == pre.quests@,
        post.shop@ == pre.shop@,
        post.catalog@ == pre.catalog@,
        post.requests@ == pre.requests@,
        post.next_request_id == pre.next_request_id,
    ensures
        spec_store_wf(post),
        forall|id: i32|
            spec_user_index(post.characters@, id) == spec_user_index(pre.characters@, id),
{
    assert forall|id: i32|
        spec_user_index(post.characters@, id) == spec_user_index(pre.characters@, id) by {
        lemma_user_index_pointwise(pre.characters@, post.characters@, id);
    }
    assert forall|i: int, j: int|
        0 <= i < j < post.characters@.len() implies #[trigger] post.characters@[i].user_id
        != #[trigger] post.characters@[j].user_id by {
        assert(pre.characters@[i].user_id != pre.characters@[j].user_id);
    }
    assert forall|i: int| 0 <= i < post.requests@.len() implies spec_has_user(
        post.characters@,
        (#[trigger] post.requests@[i]).sender_id,
    ) && spec_has_user(post.characters@, post.requests@[i].recipient_id) by {
        assert(spec_has_user(pre.characters@, pre.requests@[i].sender_id));
        assert(spec_has_user(pre.characters@, pre.requests@[i].recipient_id));
    }
}

/// A character after one reward credit: the experience is deposited as in
/// [`spec_apply_exp`], pending points grow by the levels gained, and the
/// coins grow by the reward, saturating at the `u64` limit.
pub open spec fn spec_credit(ch: CharactersRow, exp: u32, coins: u32) -> CharactersRow {
    let f = spec_apply_exp(ch.level as nat, (ch.exp_leftover + exp) as nat);
    CharactersRow {
        level: f.0 as u32,
        exp_leftover: f.1 as u64,
        pending_stat_points: (ch.pending_stat_points + (f.0 - ch.level)) as u64,
        coins: if ch.coins + coins <= u64::MAX {
            (ch.coins + coins) as u64
        } else {
            u64::MAX
        },
        ..ch
    }
}

/// A character after the rewards of every quest of theirs that this workout
/// completes, credited in listing order.
pub open spec fn spec_apply_quest_rewards(
    ch: CharactersRow,
    qs: Seq<QuestRow>,
    w: crate::quests::Workout,
    user_id: i32,
) -> CharactersRow
    decreases qs.len(),
{
    if qs.len() == 0 {
        ch
    } else {
        let prev = spec_apply_quest_rewards(ch, qs.drop_last(), w, user_id);
        let q = qs.last();
        if q.user_id == user_id && crate::quests::spec_quest_completes(q, w) {
            spec_credit(
                prev,
                crate::quests::spec_quest_exp(q.difficulty),
                crate::quests::spec_quest_coins(q.difficulty),
            )
        } else {
            prev
        }
    }
}

/// Crediting rewards keeps a character's bookkeeping sound: the level never
/// drops and climbs by at most one per credit beyond 320, the leftover stays
/// below the requirement of the level, pending points grow by at most 320
/// per credit, and everything outside the progression fields is untouched.
pub proof fn lemma_rewards_wf(
    ch: CharactersRow,
    qs: Seq<QuestRow>,
    w: crate::quests::Workout,
    user_id: i32,
)
    requires
        1 <= ch.level,
        (ch.exp_leftover as int) < spec_exp_required(ch.level as nat),
        vstd::math::max(ch.level as int, 320) + qs.len() <= MAX_LEVEL,
        ch.pending_stat_points + 320 * (qs.len() + 1) <= u64::MAX,
    ensures
        ({
            let r = spec_apply_quest_rewards(ch, qs, w, user_id);
            &&& ch.level <= r.level
            &&& r.level as int <= vstd::math::max(ch.level as int, 320) + qs.len()
            &&& (r.exp_leftover as int) < spec_exp_required(r.level as nat)
            &&& r.pending_stat_points as int <= ch.pending_stat_points + 320 * qs.len()
            &&& ch.pending_stat_points <= r.pending_stat_points
            &&& r.user_id == ch.user_id
            &&& r.username == ch.username
            &&& r.class == ch.class
            &&& r.streak == ch.streak
            &&& r.equipped == ch.equipped
            &&& r.inventory == ch.inventory
            &&& r.friends == ch.friends
        }),
    decreases qs.len(),
{
    crate::progression::lemma_exp_required_step(ch.level as nat);
    if qs.len() > 0 {
        lemma_rewards_wf(ch, qs.drop_last(), w, user_id);
        let prev = spec_apply_quest_rewards(ch, qs.drop_last(), w, user_id);
        let q = qs.last();
        if q.user_id == user_id && crate::quests::spec_quest_completes(q, w) {
            let exp = crate::quests::spec_quest_exp(q.difficulty);
            let total = (prev.exp_leftover + exp) as nat;
            crate::progression::lemma_exp_required_step(prev.level as nat);
            crate::progression::lemma_apply_exp_invariant(prev.level as nat, total);
            crate::progression::lemma_apply_exp_level_bound(prev.level as nat, total);
        }
    }
}

impl Store {
    /// An empty store.
    pub fn new() -> (s: Store)
        ensures
            spec_store_wf(s),
            s.characters@.len() == 0,
            s.quests@.len() == 0,
            s.shop@.len() == 0,
            s.catalog@.len() == 0,
            s.requests@.len() == 0,
    {
        Store {
            characters: Vec::new(),
            quests: Vec::new(),
            shop: Vec::new(),
            catalog: Vec::new(),
            requests: Vec::new(),
            next_request_id: 1,
            next_quest_id: 1,
        }
    }

    /// Position of the character with this user id, if any.
    pub fn find_user(&self, id: i32) -> (r: Option<usize>)
        ensures
            r matches Some(k) ==> k == spec_user_index(self.characters@, id),
            r is Some <==> spec_has_user(self.characters@, id),
    {
        proof {
            lemma_user_index_spec(self.characters@, id);
        }
        let mut i: usize = 0;
        while i < self.characters.len()
            invariant
                i <= self.characters@.len(),
                forall|j: int| 0 <= j < i ==> self.characters@[j].user_id != id,
            decreases self.characters@.len() - i,
        {
            if self.characters[i].user_id == id {
                proof {
                    lemma_user_index_spec(self.characters@, id);
                    if spec_user_index(self.characters@, id) != i {
                        assert(false);
                    }
                }
                return Some(i);
            }
            i += 1;
        }
        proof {
            lemma_user_index_spec(self.characters@, id);
        }
        None
    }

    /// Deposit workout or quest experience on a character: level-ups and
    /// pending stat points follow [`spec_apply_exp`]. The level and pending
    /// caps are machine limits.
    pub fn add_exp(&mut self, user_id: i32, exp: u32)
        requires
            spec_store_wf(*old(self)),
            spec_has_user(old(self).characters@, user_id),
            spec_char_of(old(self).characters@, user_id).level < MAX_LEVEL,
            spec_char_of(old(self).characters@, user_id).pending_stat_points + 320 <= u64::MAX,
        ensures
            spec_store_wf(*final(self)),
            ({
                let k = spec_user_index(old(self).characters@, user_id);
                let ch = old(self).characters@[k];
                let f = spec_apply_exp(ch.level as nat, (ch.exp_leftover + exp) as nat);
                final(self).characters@ == old(self).characters@.update(
                    k,
                    CharactersRow {
                        level: f.0 as u32,
                        exp_leftover: f.1 as u64,
                        pending_stat_points: (ch.pending_stat_points + (f.0 - ch.level)) as u64,
                        ..ch
                    },
                )
            }),
            final(self).quests@ == old(self).quests@,
            final(self).shop@ == old(self).shop@,
            final(self).catalog@ == old(self).catalog@,
            final(self).requests@ == old(self).requests@,
            final(self).next_request_id == old(self).next_request_id,
            final(self).next_quest_id == old(self).next_quest_id,
    {
        let ghost pre = *self;
        proof {
            lemma_user_index_spec(self.characters@, user_id);
        }
        let kopt = self.find_user(user_id);
        if let Some(k) = kopt {
            let level = self.characters[k].level;
            let leftover = self.characters[k].exp_leftover;
            let pending = self.characters[k].pending_stat_points;
            let (nl, nlo, np) = apply_experience(level, leftover, pending, exp);
            let row = &mut self.characters[k];
            row.level = nl;
            row.exp_leftover = nlo;
            row.pending_stat_points = np;
            proof {
                lemma_store_wf_after_char_update(pre, *self, k as int);
            }
        } else {
            proof {
                assert(false);
            }
        }
    }

    /// Credit coins to a character, saturating at the `u64` limit.
    pub fn add_coins(&mut self, user_id: i32, coins: u32)
        requires
            spec_store_wf(*old(self)),
            spec_has_user(old(self).characters@, user_id),
        ensures
            spec_store_wf(*final(self)),
            ({
                let k = spec_user_index(old(self).characters@, user_id);
                let ch = old(self).characters@[k];
                final(self).characters@ == old(self).characters@.update(
                    k,
                    CharactersRow {
                        coins: if ch.coins + coins <= u64::MAX {
                            (ch.coins + coins) as u64
                        } else {
                            u64::MAX
                        },
                        ..ch
                    },
                )
            }),
            final(self).quests@ == old(self).quests@,
            final(self).shop@ == old(self).shop@,
            final(self).catalog@ == old(self).catalog@,
            final(self).requests@ == old(self).requests@,
            final(self).next_request_id == old(self).next_request_id,
            final(self).next_quest_id == old(self).next_quest_id,
    {
        let ghost pre = *self;
        proof {
            lemma_user_index_spec(self.characters@, user_id);
        }
        let kopt = self.find_user(user_id);
        if let Some(k) = kopt {
            let cur = self.characters[k].coins;
            let new_coins = if cur <= u64::MAX - (coins as u64) {
                cur + (coins as u64)
            } else {
                u64::MAX
            };
            let row = &mut self.characters[k];
            row.coins = new_coins;
            proof {
                lemma_store_wf_after_char_update(pre, *self, k as int);
            }
        } else {
            proof {
                assert(false);
            }
        }
    }

    /// Spend pending stat points on one named attribute of a character.
    /// Mirrors [`crate::stats::allocate_stat_point`]; on any error the store
    /// is unchanged.
    pub fn increase_stat(&mut self, user_id: i32, stat: &String, amount: u32) -> (r: Result<
        (),
        crate::stats::StatError,
    >)
        requires
            spec_store_wf(*old(self)),
            spec_has_user(old(self).characters@, user_id),
            spec_char_of(old(self).characters@, user_id).class.stats.strength + amount
                <= i32::MAX,
            spec_char_of(old(self).characters@, user_id).class.stats.endurance + amount
                <= i32::MAX,
            spec_char_of(old(self).characters@, user_id).class.stats.flexibility + amount
                <= i32::MAX,
        ensures
            spec_store_wf(*final(self)),
            ({
                let k = spec_user_index(old(self).characters@, user_id);
                let ch = old(self).characters@[k];
                match crate::stats::spec_allocation(stat@, amount, ch.pending_stat_points, ch.class.stats) {
                    Ok((new_stats, new_pending)) => r is Ok && final(self).characters@
                        == old(self).characters@.update(
                        k,
                        CharactersRow {
                            class: crate::stats::Class { stats: new_stats, ..ch.class },
                            pending_stat_points: new_pending,
                            ..ch
                        },
                    ),
                    Err(e) => r == Err::<(), crate::stats::StatError>(e) && *final(self) == *old(
                        self,
                    ),
                }
            }),
            final(self).quests@ == old(self).quests@,
            final(self).shop@ == old(self).shop@,
            final(self).requests@ == old(self).requests@,
    {
        let ghost pre = *self;
        proof {
            lemma_user_index_spec(self.characters@, user_id);
        }
        let kopt = self.find_user(user_id);
        if let Some(k) = kopt {
            let stats = self.characters[k].class.stats;
            let pending = self.characters[k].pending_stat_points;
            match crate::stats::allocate_stat_point(stat, amount, pending, &stats) {
                Ok((new_stats, new_pending)) => {
                    let row = &mut self.characters[k];
                    row.class.stats = new_stats;
                    row.pending_stat_points = new_pending;
                    proof {
                        lemma_store_wf_after_char_update(pre, *self, k as int);
                    }
                    Ok(())
                },
                Err(e) => Err(e),
            }
        } else {
            proof {
                assert(false);
            }
            Err(crate::stats::StatError::UnknownStat)
        }
    }

    /// Position of the catalog item with this id, if any.
    fn find_item(&self, id: i32) -> (r: Option<usize>)
        ensures
            r matches Some(k) ==> k == spec_catalog_index(self.catalog@, id) && self.catalog@[
                k as int
            ].id == id,
            r is Some <==> spec_catalog_index(self.catalog@, id) >= 0,
    {
        proof {
            lemma_catalog_index_spec(self.catalog@, id);
        }
        let mut i: usize = 0;
        while i < self.catalog.len()
            invariant
                i <= self.catalog@.len(),
                forall|j: int| 0 <= j < i ==> self.catalog@[j].id != id,
            decreases self.catalog@.len() - i,
        {
            if self.catalog[i].id == id {
                proof {
                    lemma_catalog_index_spec(self.catalog@, id);
                    if spec_catalog_index(self.catalog@, id) != i {
                        assert(false);
                    }
                }
                return Some(i);
            }
            i += 1;
        }
        proof {
            lemma_catalog_index_spec(self.catalog@, id);
        }
        None
    }

    /// Buy one listed item for a character: all checks and both writes (the
    /// coin debit and the inventory append) happen in this one operation, or
    /// none of them do.
    ///
    /// Fails with `ItemNotInShop` when the item is not listed, then with
    /// `InsufficientFunds` when the price exceeds the character's coins,
    /// then with `AlreadyOwned` when the item already sits in the matching
    /// inventory category; each failure leaves the store exactly as it was.
    pub fn buy_item(&mut self, user_id: i32, item_id: i32) -> (r: Result<(), ShopError>)
        requires
            spec_store_wf(*old(self)),
            spec_has_user(old(self).characters@, user_id),
        ensures
            spec_store_wf(*final(self)),
            !old(self).shop@.contains(item_id) ==> r == Err::<(), ShopError>(
                ShopError::ItemNotInShop,
            ) && *final(self) == *old(self),
            ({
                let item = old(self).catalog@[spec_catalog_index(old(self).catalog@, item_id)];
                let price = crate::items::spec_price_of(item.rarity);
                let k = spec_user_index(old(self).characters@, user_id);
                let ch = old(self).characters@[k];
                &&& (old(self).shop@.contains(item_id) && ch.coins < price ==> r == Err::<
                    (),
                    ShopError,
                >(ShopError::InsufficientFunds) && *final(self) == *old(self))
                &&& (old(self).shop@.contains(item_id) && ch.coins >= price
                    && crate::character::spec_owns(ch.inventory, item.category, item_id) ==> r
                    == Err::<(), ShopError>(ShopError::AlreadyOwned) && *final(self) == *old(self))
                &&& (old(self).shop@.contains(item_id) && ch.coins >= price
                    && !crate::character::spec_owns(ch.inventory, item.category, item_id) ==> {
                    let row = final(self).characters@[k];
                    &&& r is Ok
                    &&& final(self).characters@ == old(self).characters@.update(k, row)
                    &&& row.coins == ch.coins - price
                    &&& crate::character::spec_inventory_list(row.inventory, item.category)
                        == crate::character::spec_inventory_list(ch.inventory, item.category).push(
                        item_id,
                    )
                    &&& forall|c2: crate::items::ItemCategory|
                        c2 != item.category ==> crate::character::spec_inventory_list(
                            row.inventory,
                            c2,
                        ) == crate::character::spec_inventory_list(ch.inventory, c2)
                    &&& row.user_id == ch.user_id
                    &&& row.username == ch.username
                    &&& row.class == ch.class
                    &&& row.level == ch.level
                    &&& row.exp_leftover == ch.exp_leftover
                    &&& row.pending_stat_points == ch.pending_stat_points
                    &&& row.streak == ch.streak
                    &&& row.equipped == ch.equipped
                    &&& row.friends == ch.friends
                })
            }),
            final(self).quests@ == old(self).quests@,
            final(self).shop@ == old(self).shop@,
            final(self).catalog@ == old(self).catalog@,
            final(self).requests@ == old(self).requests@,
    {
        let ghost pre = *self;
        proof {
            lemma_user_index_spec(self.characters@, user_id);
        }
        if !crate::character::contains_id(&self.shop, item_id) {
            return Err(ShopError::ItemNotInShop);
        }
        proof {
            let idx = choose|i: int| 0 <= i < self.shop@.len() && self.shop@[i] == item_id;
            assert(spec_listing_ok(self.catalog@, item_id));
            lemma_catalog_index_spec(self.catalog@, item_id);
        }
        let iopt = self.find_item(item_id);
        if let Some(i) = iopt {
            let rarity = self.catalog[i].rarity;
            let category = self.catalog[i].category;
            let price = crate::items::price_of(rarity);
            let kopt = self.find_user(user_id);
            if let Some(k) = kopt {
                let coins = self.characters[k].coins;
                if coins < (price as u64) {
                    return Err(ShopError::InsufficientFunds);
                }
                if self.characters[k].inventory.owns(category, item_id) {
                    return Err(ShopError::AlreadyOwned);
                }
                let row = &mut self.characters[k];
                row.coins = coins - (price as u64);
                row.inventory.add_item(category, item_id);
                proof {
                    lemma_store_wf_after_char_update(pre, *self, k as int);
                }
                Ok(())
            } else {
                proof {
                    assert(false);
                }
                Err(ShopError::ItemNotInShop)
            }
        } else {
            proof {
                assert(false);
            }
            Err(ShopError::ItemNotInShop)
        }
    }

    /// Rename a character. The new name must be nonempty and not in use by
    /// any other character; a rejected rename leaves the store unchanged.
    pub fn update_username(&mut self, user_id: i32, username: String) -> (r: Result<
        (),
        SettingsError,
    >)
        requires
            spec_store_wf(*old(self)),
            spec_has_user(old(self).characters@, user_id),
        ensures
            spec_store_wf(*final(self)),
            username@.len() == 0 ==> r == Err::<(), SettingsError>(SettingsError::EmptyUsername)
                && *final(self) == *old(self),
            username@.len() > 0 && (exists|i: int|
                0 <= i < old(self).characters@.len() && (#[trigger] old(
                    self,
                ).characters@[i]).user_id != user_id && old(self).characters@[i].username@
                    == username@) ==> r == Err::<(), SettingsError>(SettingsError::UsernameTaken)
                && *final(self) == *old(self),
            username@.len() > 0 && !(exists|i: int|
                0 <= i < old(self).characters@.len() && (#[trigger] old(
                    self,
                ).characters@[i]).user_id != user_id && old(self).characters@[i].username@
                    == username@) ==> r == Ok::<(), SettingsError>(()) && ({
                let k = spec_user_index(old(self).characters@, user_id);
                let ch = old(self).characters@[k];
                let row = final(self).characters@[k];
                &&& final(self).characters@ == old(self).characters@.update(k, row)
                &&& row == (CharactersRow { username: row.username, ..ch })
                &&& row.username@ == username@
            }),
            final(self).quests@ == old(self).quests@,
            final(self).shop@ == old(self).shop@,
            final(self).catalog@ == old(self).catalog@,
            final(self).requests@ == old(self).requests@,
    {
        let ghost pre = *self;
        if username.as_str().is_empty() {
            return Err(SettingsError::EmptyUsername);
        }
        let mut i: usize = 0;
        while i < self.characters.len()
            invariant
                *self == pre,
                pre == *old(self),
                spec_store_wf(pre),
                spec_has_user(pre.characters@, user_id),
                username@.len() > 0,
                i <= self.characters@.len(),
                forall|j: int|
                    0 <= j < i ==> !((#[trigger] self.characters@[j]).user_id != user_id
                        && self.characters@[j].username@ == username@),
            decreases self.characters@.len() - i,
        {
            if self.characters[i].user_id != user_id && self.characters[i].username == username {
                return Err(SettingsError::UsernameTaken);
            }
            i += 1;
        }
        proof {
            lemma_user_index_spec(self.characters@, user_id);
        }
        let kopt = self.find_user(user_id);
        if let Some(k) = kopt {
            let row = &mut self.characters[k];
            row.username = username;
            proof {
                lemma_store_wf_after_char_update(pre, *self, k as int);
            }
            Ok(())
        } else {
            proof {
                assert(false);
            }
            Err(SettingsError::UsernameTaken)
        }
    }

    /// Is a request between these two users pending, in either direction?
    fn pair_pending(&self, a: i32, b: i32) -> (r: bool)
        ensures
            r == spec_pair_pending(self.requests@, a, b),
    {
        let mut i: usize = 0;
        while i < self.requests.len()
            invariant
                i <= self.requests@.len(),
                forall|j: int|
                    0 <= j < i ==> !((#[trigger] self.requests@[j].sender_id == a
                        && self.requests@[j].recipient_id == b) || (self.requests@[j].sender_id
                        == b && self.requests@[j].recipient_id == a)),
            decreases self.requests@.len() - i,
        {
            let req = self.requests[i];
            if (req.sender_id == a && req.recipient_id == b) || (req.sender_id == b
                && req.recipient_id == a) {
                return true;
            }
            i += 1;
        }
        false
    }

    /// File a friend request from `sender_id` to `recipient_id`.
    ///
    /// Fails with `SelfRequest` when the two are the same user, with
    /// `RecipientNotFound` when the recipient has no character, with
    /// `AlreadyFriends` when the recipient already sits in the sender's
    /// friend list, and with `RequestAlreadyPending` when a request between
    /// the pair is already open in either direction; each failure leaves the
    /// store unchanged. On success the new request's id is returned. The id
    /// cap is a machine limit.
    pub fn send_friend_request(&mut self, sender_id: i32, recipient_id: i32, created: i64) -> (r:
        Result<i32, SocialError>)
        requires
            spec_store_wf(*old(self)),
            spec_has_user(old(self).characters@, sender_id),
            old(self).next_request_id < i32::MAX,
        ensures
            spec_store_wf(*final(self)),
            sender_id == recipient_id ==> r == Err::<i32, SocialError>(SocialError::SelfRequest)
                && *final(self) == *old(self),
            sender_id != recipient_id && !spec_has_user(old(self).characters@, recipient_id) ==> r
                == Err::<i32, SocialError>(SocialError::RecipientNotFound) && *final(self) == *old(
                self,
            ),
            sender_id != recipient_id && spec_has_user(old(self).characters@, recipient_id)
                && spec_char_of(old(self).characters@, sender_id).friends@.contains(recipient_id)
                ==> r == Err::<i32, SocialError>(SocialError::AlreadyFriends) && *final(self)
                == *old(self),
            sender_id != recipient_id && spec_has_user(old(self).characters@, recipient_id)
                && !spec_char_of(old(self).characters@, sender_id).friends@.contains(recipient_id)
                && spec_pair_pending(old(self).requests@, sender_id, recipient_id) ==> r == Err::<
                i32,
                SocialError,
            >(SocialError::RequestAlreadyPending) && *final(self) == *old(self),
            sender_id != recipient_id && spec_has_user(old(self).characters@, recipient_id)
                && !spec_char_of(old(self).characters@, sender_id).friends@.contains(recipient_id)
                && !spec_pair_pending(old(self).requests@, sender_id, recipient_id) ==> r == Ok::<
                i32,
                SocialError,
            >(old(self).next_request_id) && final(self).requests@ == old(self).requests@.push(
                FriendRequestRow {
                    id: old(self).next_request_id,
                    sender_id,
                    recipient_id,
                    created,
                },
            ) && final(self).next_request_id == old(self).next_request_id + 1,
            final(self).characters@ == old(self).characters@,
            final(self).quests@ == old(self).quests@,
            final(self).shop@ == old(self).shop@,
            final(self).catalog@ == old(self).catalog@,
    {
        if sender_id == recipient_id {
            return Err(SocialError::SelfRequest);
        }
        let recipient = self.find_user(recipient_id);
        if recipient.is_none() {
            return Err(SocialError::RecipientNotFound);
        }
        let kopt = self.find_user(sender_id);
        proof {
            lemma_user_index_spec(self.characters@, sender_id);
        }
        if let Some(k) = kopt {
            if crate::character::contains_id(&self.characters[k].friends, recipient_id) {
                return Err(SocialError::AlreadyFriends);
            }
            if self.pair_pending(sender_id, recipient_id) {
                return Err(SocialError::RequestAlreadyPending);
            }
            let id = self.next_request_id;
            self.requests.push(
                FriendRequestRow { id, sender_id, recipient_id, created },
            );
            self.next_request_id = id + 1;
            Ok(id)
        } else {
            proof {
                assert(false);
            }
            Err(SocialError::RecipientNotFound)
        }
    }

    /// Position of the request with this id, if any.
    fn find_request(&self, id: i32) -> (r: Option<usize>)
        ensures
            r matches Some(p) ==> p == spec_request_index(self.requests@, id) && self.requests@[
                p as int
            ].id == id,
            r is Some <==> spec_request_index(self.requests@, id) >= 0,
    {
        proof {
            lemma_request_index_spec(self.requests@, id);
        }
        let mut i: usize = 0;
        while i < self.requests.len()
            invariant
                i <= self.requests@.len(),
                forall|j: int| 0 <= j < i ==> self.requests@[j].id != id,
            decreases self.requests@.len() - i,
        {
            if self.requests[i].id == id {
                proof {
                    lemma_request_index_spec(self.requests@, id);
                    if spec_request_index(self.requests@, id) != i {
                        assert(false);
                    }
                }
                return Some(i);
            }
            i += 1;
        }
        proof {
            lemma_request_index_spec(self.requests@, id);
        }
        None
    }

    /// Accept or decline a friend request.
    ///
    /// Fails with `NotFound` when no request carries the id — so replaying a
    /// response is a no-op on the state — and with `Forbidden` when the
    /// responder is not the request's recipient; both leave the store
    /// unchanged. Otherwise the request is deleted, and on acceptance each
    /// party is added to the other's friend list unless already present:
    /// deletion and both additions happen in this one operation, and a
    /// replayed or crossed addition never duplicates an entry.
    pub fn respond_to_request(&mut self, request_id: i32, responder_id: i32, accept: bool) -> (r:
        Result<(), SocialError>)
        requires
            spec_store_wf(*old(self)),
        ensures
            spec_store_wf(*final(self)),
            spec_request_index(old(self).requests@, request_id) == -1 ==> r == Err::<
                (),
                SocialError,
            >(SocialError::NotFound) && *final(self) == *old(self),
            ({
                let idx = spec_request_index(old(self).requests@, request_id);
                let req = old(self).requests@[idx];
                let ks = spec_user_index(old(self).characters@, req.sender_id);
                let kr = spec_user_index(old(self).characters@, req.recipient_id);
                let srow = old(self).characters@[ks];
                let rrow = old(self).characters@[kr];
                &&& (idx >= 0 && req.recipient_id != responder_id ==> r == Err::<(), SocialError>(
                    SocialError::Forbidden,
                ) && *final(self) == *old(self))
                &&& (idx >= 0 && req.recipient_id == responder_id ==> {
                    &&& r is Ok
                    &&& final(self).requests@ == old(self).requests@.remove(idx)
                    &&& (!accept ==> final(self).characters@ == old(self).characters@)
                    &&& (accept ==> {
                        let srow2 = final(self).characters@[ks];
                        let rrow2 = final(self).characters@[kr];
                        &&& final(self).characters@.len() == old(self).characters@.len()
                        &&& (forall|i: int|
                            0 <= i < old(self).characters@.len() && i != ks && i != kr
                                ==> #[trigger] final(self).characters@[i] == old(
                                self,
                            ).characters@[i])
                        &&& spec_friend_added(srow, srow2, req.recipient_id)
                        &&& spec_friend_added(rrow, rrow2, req.sender_id)
                        &&& srow2.friends@.contains(req.recipient_id)
                        &&& rrow2.friends@.contains(req.sender_id)
                    })
                })
            }),
            final(self).quests@ == old(self).quests@,
            final(self).shop@ == old(self).shop@,
            final(self).catalog@ == old(self).catalog@,
            forall|id: i32|
                spec_user_index(final(self).characters@, id) == spec_user_index(
                    old(self).characters@,
                    id,
                ),
    {
        let ghost pre = *self;
        let idxopt = self.find_request(request_id);
        proof {
            lemma_request_index_spec(self.requests@, request_id);
        }
        if let Some(idx) = idxopt {
            let req = self.requests[idx];
            if req.recipient_id != responder_id {
                return Err(SocialError::Forbidden);
            }
            self.requests.remove(idx);
            proof {
                assert forall|i: int, j: int|
                    0 <= i < j < self.requests@.len() implies #[trigger] self.requests@[i].id
                    != #[trigger] self.requests@[j].id && !spec_same_pair(
                    self.requests@[i],
                    self.requests@[j],
                ) by {
                    let i0 = if i < idx {
                        i
                    } else {
                        i + 1
                    };
                    let j0 = if j < idx {
                        j
                    } else {
                        j + 1
                    };
                    assert(self.requests@[i] == pre.requests@[i0]);
                    assert(self.requests@[j] == pre.requests@[j0]);
                }
                assert forall|i: int| 0 <= i < self.requests@.len() implies {
                    let q = #[trigger] self.requests@[i];
                    &&& q.id < self.next_request_id
                    &&& q.sender_id != q.recipient_id
                    &&& spec_has_user(self.characters@, q.sender_id)
                    &&& spec_has_user(self.characters@, q.recipient_id)
                } by {
                    let i0 = if i < idx {
                        i
                    } else {
                        i + 1
                    };
                    assert(self.requests@[i] == pre.requests@[i0]);
                }
            }
            if accept {
                let ghost mid = *self;
                let ksopt = self.find_user(req.sender_id);
                proof {
                    lemma_user_index_spec(self.characters@, req.sender_id);
                    assert(spec_has_user(pre.characters@, req.sender_id));
                }
                if let Some(ks) = ksopt {
                    if !crate::character::contains_id(&self.characters[ks].friends, req.recipient_id) {
                        let srow = &mut self.characters[ks];
                        srow.friends.push(req.recipient_id);
                    }
                    proof {
                        let s2 = self.characters@[ks as int];
                        let s1 = pre.characters@[ks as int];
                        assert(s2.friends@.no_duplicates()) by {
                            if !s1.friends@.contains(req.recipient_id) {
                                lemma_no_dup_push(s1.friends@, req.recipient_id);
                            }
                        }
                        assert(spec_row_wf(s2));
                        lemma_user_index_pointwise(pre.characters@, self.characters@, req.recipient_id);
                    }
                    let kropt = self.find_user(req.recipient_id);
                    if let Some(kr) = kropt {
                        proof {
                            lemma_user_index_spec(self.characters@, req.recipient_id);
                            assert(kr != ks);
                        }
                        if !crate::character::contains_id(
                            &self.characters[kr].friends,
                            req.sender_id,
                        ) {
                            let rrow = &mut self.characters[kr];
                            rrow.friends.push(req.sender_id);
                        }
                        proof {
                            let r2 = self.characters@[kr as int];
                            let r1 = pre.characters@[kr as int];
                            assert(r2.friends@.no_duplicates()) by {
                                if !r1.friends@.contains(req.sender_id) {
                                    lemma_no_dup_push(r1.friends@, req.sender_id);
                                }
                            }
                            assert(spec_row_wf(r2));
                            assert(self.characters@[ks as int].friends@.contains(
                                req.recipient_id,
                            )) by {
                                let f1 = pre.characters@[ks as int].friends@;
                                if !f1.contains(req.recipient_id) {
                                    assert(f1.push(req.recipient_id)[f1.len() as int]
                                        == req.recipient_id);
                                }
                            }
                            assert(r2.friends@.contains(req.sender_id)) by {
                                let f1 = pre.characters@[kr as int].friends@;
                                if !f1.contains(req.sender_id) {
                                    assert(f1.push(req.sender_id)[f1.len() as int]
                                        == req.sender_id);
                                }
                            }
                            assert(forall|i: int|
                                0 <= i < self.characters@.len() ==> #[trigger] self.characters@[i].user_id
                                    == pre.characters@[i].user_id);
                            assert forall|id2: i32|
                                spec_user_index(self.characters@, id2) == spec_user_index(
                                    pre.characters@,
                                    id2,
                                ) by {
                                lemma_user_index_pointwise(pre.characters@, self.characters@, id2);
                            }
                            assert forall|i: int| 0 <= i < self.requests@.len() implies spec_has_user(
                                self.characters@,
                                (#[trigger] self.requests@[i]).sender_id,
                            ) && spec_has_user(self.characters@, self.requests@[i].recipient_id) by {
                                assert(spec_has_user(mid.characters@, self.requests@[i].sender_id));
                                assert(spec_has_user(mid.characters@, self.requests@[i].recipient_id));
                            }
                            assert forall|i: int| 0 <= i < self.characters@.len() implies spec_row_wf(
                                #[trigger] self.characters@[i],
                            ) by {
                                if i != ks && i != kr {
                                    assert(self.characters@[i] == pre.characters@[i]);
                                }
                            }
                        }
                        Ok(())
                    } else {
                        proof {
                            assert(false);
                        }
                        Err(SocialError::NotFound)
                    }
                } else {
                    proof {
                        assert(false);
                    }
                    Err(SocialError::NotFound)
                }
            } else {
                Ok(())
            }
        } else {
            Err(SocialError::NotFound)
        }
    }

    /// Remove a friendship, from both sides.
    ///
    /// Fails with `NotFriends`, leaving the store unchanged, when `friend_id`
    /// is not in the caller's friend list (or the caller has no character).
    /// Otherwise `friend_id` leaves the caller's list and, in the same
    /// operation, the caller leaves `friend_id`'s list — both or neither.
    pub fn remove_friend(&mut self, user_id: i32, friend_id: i32) -> (r: Result<(), SocialError>)
        requires
            spec_store_wf(*old(self)),
        ensures
            spec_store_wf(*final(self)),
            !spec_has_user(old(self).characters@, user_id) ==> r == Err::<(), SocialError>(
                SocialError::NotFriends,
            ) && *final(self) == *old(self),
            spec_has_user(old(self).characters@, user_id) && !spec_char_of(
                old(self).characters@,
                user_id,
            ).friends@.contains(friend_id) ==> r == Err::<(), SocialError>(SocialError::NotFriends)
                && *final(self) == *old(self),
            ({
                let ku = spec_user_index(old(self).characters@, user_id);
                let kf = spec_user_index(old(self).characters@, friend_id);
                let urow = old(self).characters@[ku];
                spec_has_user(old(self).characters@, user_id) && urow.friends@.contains(friend_id)
                    ==> {
                    let urow2 = final(self).characters@[ku];
                    &&& r is Ok
                    &&& final(self).characters@.len() == old(self).characters@.len()
                    &&& !urow2.friends@.contains(friend_id)
                    &&& urow2.friends@ == urow.friends@.remove(
                        spec_id_index(urow.friends@, friend_id),
                    )
                    &&& urow2.user_id == urow.user_id
                    &&& (forall|i: int|
                        0 <= i < old(self).characters@.len() && i != ku && i != kf
                            ==> #[trigger] final(self).characters@[i] == old(self).characters@[i])
                    &&& (kf >= 0 && kf != ku ==> {
                        let frow = old(self).characters@[kf];
                        let frow2 = final(self).characters@[kf];
                        &&& !frow2.friends@.contains(user_id)
                        &&& (frow.friends@.contains(user_id) ==> frow2.friends@
                            == frow.friends@.remove(spec_id_index(frow.friends@, user_id)))
                        &&& (!frow.friends@.contains(user_id) ==> frow2 == frow)
                        &&& frow2.user_id == frow.user_id
                    })
                }
            }),
            final(self).quests@ == old(self).quests@,
            final(self).shop@ == old(self).shop@,
            final(self).catalog@ == old(self).catalog@,
            final(self).requests@ == old(self).requests@,
    {
        let ghost pre = *self;
        let kopt = self.find_user(user_id);
        proof {
            lemma_user_index_spec(self.characters@, user_id);
        }
        if let Some(ku) = kopt {
            let posopt = find_id_pos(&self.characters[ku].friends, friend_id);
            if let Some(pos) = posopt {
                proof {
                    lemma_id_index_spec(pre.characters@[ku as int].friends@, friend_id);
                }
                let urow = &mut self.characters[ku];
                urow.friends.remove(pos);
                proof {
                    let f1 = pre.characters@[ku as int].friends@;
                    let f2 = self.characters@[ku as int].friends@;
                    assert(f2 == f1.remove(pos as int));
                    lemma_remove_keeps_no_dup(f1, pos as int);
                    assert(!f2.contains(friend_id)) by {
                        if f2.contains(friend_id) {
                            let w = choose|i: int| 0 <= i < f2.len() && f2[i] == friend_id;
                            let w0 = if w < pos {
                                w
                            } else {
                                w + 1
                            };
                            assert(f1[w0] == friend_id);
                            assert(f1[pos as int] == friend_id);
                        }
                    }
                    assert(spec_row_wf(self.characters@[ku as int]));
                    lemma_user_index_pointwise(pre.characters@, self.characters@, friend_id);
                }
                let kfopt = self.find_user(friend_id);
                if let Some(kf) = kfopt {
                    proof {
                        lemma_user_index_spec(self.characters@, friend_id);
                    }
                    let pos2opt = find_id_pos(&self.characters[kf].friends, user_id);
                    if let Some(pos2) = pos2opt {
                        proof {
                            lemma_id_index_spec(self.characters@[kf as int].friends@, user_id);
                        }
                        let frow = &mut self.characters[kf];
                        frow.friends.remove(pos2);
                        proof {
                            let g1 = pre.characters@[kf as int].friends@;
                            let g2 = self.characters@[kf as int].friends@;
                            assert(kf != ku) by {
                                assert(pre.characters@[ku as int].friends@.contains(friend_id));
                                assert(!pre.characters@[ku as int].friends@.contains(
                                    pre.characters@[ku as int].user_id,
                                ));
                            }
                            assert(g2 == g1.remove(pos2 as int));
                            lemma_remove_keeps_no_dup(g1, pos2 as int);
                            assert(!g2.contains(user_id)) by {
                                if g2.contains(user_id) {
                                    let w = choose|i: int| 0 <= i < g2.len() && g2[i] == user_id;
                                    let w0 = if w < pos2 {
                                        w
                                    } else {
                                        w + 1
                                    };
                                    assert(g1[w0] == user_id);
                                    assert(g1[pos2 as int] == user_id);
                                }
                            }
                            assert(spec_row_wf(self.characters@[kf as int]));
                        }
                    }
                }
                proof {
                    assert(forall|i: int|
                        0 <= i < self.characters@.len() ==> #[trigger] self.characters@[i].user_id
                            == #[trigger] pre.characters@[i].user_id);
                    assert(forall|i: int|
                        0 <= i < self.characters@.len() ==> spec_row_wf(
                            #[trigger] self.characters@[i],
                        ));
                    lemma_store_wf_after_friends_change(pre, *self);
                }
                Ok(())
            } else {
                Err(SocialError::NotFriends)
            }
        } else {
            Err(SocialError::NotFriends)
        }
    }

    /// Advance every open quest of this character that the workout matches:
    /// its counter grows by one, and a quest reaching its target closes and
    /// has its experience and coin rewards credited — counter, status and
    /// both credits in this one operation. Completed quests are skipped.
    /// The level and pending caps are machine limits sized to the quest
    /// list.
    pub fn apply_workout_to_quests(&mut self, user_id: i32, workout: &crate::quests::Workout)
        requires
            spec_store_wf(*old(self)),
            spec_has_user(old(self).characters@, user_id),
            vstd::math::max(
                spec_char_of(old(self).characters@, user_id).level as int,
                320,
            ) + old(self).quests@.len() <= MAX_LEVEL,
            spec_char_of(old(self).characters@, user_id).pending_stat_points + 320 * (old(
                self,
            ).quests@.len() + 1) <= u64::MAX,
        ensures
            spec_store_wf(*final(self)),
            final(self).quests@.len() == old(self).quests@.len(),
            forall|i: int|
                0 <= i < old(self).quests@.len() ==> #[trigger] final(self).quests@[i] == (if old(
                    self,
                ).quests@[i].user_id == user_id {
                    crate::quests::spec_advance_quest(old(self).quests@[i], *workout)
                } else {
                    old(self).quests@[i]
                }),
            ({
                let k = spec_user_index(old(self).characters@, user_id);
                let ch = old(self).characters@[k];
                final(self).characters@ == old(self).characters@.update(
                    k,
                    spec_apply_quest_rewards(ch, old(self).quests@, *workout, user_id),
                )
            }),
            final(self).shop@ == old(self).shop@,
            final(self).catalog@ == old(self).catalog@,
            final(self).requests@ == old(self).requests@,
            final(self).next_request_id == old(self).next_request_id,
            final(self).next_quest_id == old(self).next_quest_id,
    {
        let ghost pre = *self;
        proof {
            lemma_user_index_spec(self.characters@, user_id);
        }
        let kopt = self.find_user(user_id);
        if let Some(k) = kopt {
            let ghost ch0 = pre.characters@[k as int];
            proof {
                assert(self.characters@ =~= pre.characters@.update(k as int, ch0));
                assert(pre.quests@.subrange(0, 0) =~= Seq::<QuestRow>::empty());
            }
            let mut i: usize = 0;
            while i < self.quests.len()
                invariant
                    spec_store_wf(pre),
                    k == spec_user_index(pre.characters@, user_id),
                    0 <= k < pre.characters@.len(),
                    ch0 == pre.characters@[k as int],
                    vstd::math::max(ch0.level as int, 320) + pre.quests@.len() <= MAX_LEVEL,
                    ch0.pending_stat_points + 320 * (pre.quests@.len() + 1) <= u64::MAX,
                    i <= self.quests@.len(),
                    self.quests@.len() == pre.quests@.len(),
                    forall|p: int|
                        0 <= p < i ==> #[trigger] self.quests@[p] == (if pre.quests@[p].user_id
                            == user_id {
                            crate::quests::spec_advance_quest(pre.quests@[p], *workout)
                        } else {
                            pre.quests@[p]
                        }),
                    forall|p: int|
                        i <= p < pre.quests@.len() ==> #[trigger] self.quests@[p]
                            == pre.quests@[p],
                    self.characters@ == pre.characters@.update(
                        k as int,
                        spec_apply_quest_rewards(
                            ch0,
                            pre.quests@.subrange(0, i as int),
                            *workout,
                            user_id,
                        ),
                    ),
                    self.shop@ == pre.shop@,
                    self.catalog@ == pre.catalog@,
                    self.requests@ == pre.requests@,
                    self.next_request_id == pre.next_request_id,
                    self.next_quest_id == pre.next_quest_id,
                decreases pre.quests@.len() - i,
            {
                let ghost taken = pre.quests@.subrange(0, i as int);
                let ghost cur = spec_apply_quest_rewards(ch0, taken, *workout, user_id);
                proof {
                    assert(pre.quests@.subrange(0, i + 1).drop_last() =~= taken);
                    assert(pre.quests@.subrange(0, i + 1).last() == pre.quests@[i as int]);
                    lemma_rewards_wf(ch0, taken, *workout, user_id);
                    assert(spec_row_wf(ch0));
                    assert(spec_quest_wf(pre.quests@[i as int]));
                }
                let is_users = self.quests[i].user_id == user_id;
                let is_open = self.quests[i].status == crate::quests::QuestStatus::Incomplete;
                let matches = crate::quests::workout_applies_to_quest(&self.quests[i], workout);
                if is_users && is_open && matches {
                    let completed = self.quests[i].number_of_workouts_completed;
                    let needed = self.quests[i].number_of_workouts_needed;
                    let finishes = completed + 1 == needed;
                    let qrow = &mut self.quests[i];
                    qrow.number_of_workouts_completed = completed + 1;
                    if finishes {
                        qrow.status = crate::quests::QuestStatus::Complete;
                    }
                    if finishes {
                        let difficulty = self.quests[i].difficulty;
                        let exp = difficulty.exp();
                        let coins_r = difficulty.coins();
                        let level = self.characters[k].level;
                        let leftover = self.characters[k].exp_leftover;
                        let pending = self.characters[k].pending_stat_points;
                        proof {
                            assert(self.characters@[k as int] == cur);
                            assert(1 <= cur.level);
                            assert(cur.level as int <= vstd::math::max(ch0.level as int, 320)
                                + i);
                            assert(cur.pending_stat_points + 320 <= u64::MAX);
                        }
                        let (nl, nlo, np) = apply_experience(level, leftover, pending, exp);
                        let cur_coins = self.characters[k].coins;
                        let new_coins = if cur_coins <= u64::MAX - (coins_r as u64) {
                            cur_coins + (coins_r as u64)
                        } else {
                            u64::MAX
                        };
                        let row = &mut self.characters[k];
                        row.level = nl;
                        row.exp_leftover = nlo;
                        row.pending_stat_points = np;
                        row.coins = new_coins;
                        proof {
                            let next = spec_apply_quest_rewards(
                                ch0,
                                pre.quests@.subrange(0, i + 1),
                                *workout,
                                user_id,
                            );
                            assert(next == spec_credit(
                                cur,
                                crate::quests::spec_quest_exp(pre.quests@[i as int].difficulty),
                                crate::quests::spec_quest_coins(pre.quests@[i as int].difficulty),
                            ));
                            assert(self.characters@[k as int] == next);
                            assert(self.characters@ =~= pre.characters@.update(
                                k as int,
                                next,
                            ));
                        }
                    } else {
                        proof {
                            assert(spec_apply_quest_rewards(
                                ch0,
                                pre.quests@.subrange(0, i + 1),
                                *workout,
                                user_id,
                            ) == cur);
                        }
                    }
                } else {
                    proof {
                        assert(spec_apply_quest_rewards(
                            ch0,
                            pre.quests@.subrange(0, i + 1),
                            *workout,
                            user_id,
                        ) == cur);
                    }
                }
                i += 1;
            }
            proof {
                assert(pre.quests@.subrange(0, pre.quests@.len() as int) =~= pre.quests@);
                lemma_rewards_wf(ch0, pre.quests@, *workout, user_id);
                assert forall|p: int| 0 <= p < self.quests@.len() implies spec_quest_wf(
                    #[trigger] self.quests@[p],
                ) by {
                    crate::quests::lemma_advance_quest_wf(pre.quests@[p], *workout);
                }
                lemma_store_wf_after_char_update(pre, *self, k as int);
            }
        } else {
            proof {
                assert(false);
            }
        }
    }

    /// Open a freshly generated quest of this difficulty for a character and
    /// return its contents. The id cap is a machine limit.
    pub fn create_quest_for(
        &mut self,
        user_id: i32,
        difficulty: crate::quests::QuestDifficulty,
    ) -> (r: crate::quests::CreateQuestResponse)
        requires
            spec_store_wf(*old(self)),
            old(self).next_quest_id < i32::MAX,
        ensures
            spec_store_wf(*final(self)),
            final(self).quests@.len() == old(self).quests@.len() + 1,
            ({
                let q = final(self).quests@.last();
                &&& final(self).quests@ == old(self).quests@.push(q)
                &&& q.user_id == user_id
                &&& q.difficulty == difficulty
                &&& q.status == crate::quests::QuestStatus::Incomplete
                &&& q.number_of_workouts_completed == 0
                &&& crate::quests::spec_quest_wf(q)
                &&& crate::quests::spec_active_requirements(q) == (match difficulty {
                    crate::quests::QuestDifficulty::Easy => 1int,
                    crate::quests::QuestDifficulty::Medium => 2int,
                    crate::quests::QuestDifficulty::Hard => 3int,
                })
                &&& r.name == q.name
                &&& r.difficulty == q.difficulty
                &&& r.status == q.status
                &&& r.number_of_workouts_needed == q.number_of_workouts_needed
                &&& r.number_of_workouts_completed == q.number_of_workouts_completed
                &&& r.workout_duration == q.workout_duration
                &&& r.exercise_category == q.exercise_category
                &&& r.exercise_muscle == q.exercise_muscle
            }),
            final(self).characters@ == old(self).characters@,
            final(self).shop@ == old(self).shop@,
            final(self).catalog@ == old(self).catalog@,
            final(self).requests@ == old(self).requests@,
            final(self).next_request_id == old(self).next_request_id,
            final(self).next_quest_id == old(self).next_quest_id + 1,
    {
        let id = self.next_quest_id;
        let q = crate::quests::create_quest(difficulty, id, user_id);
        let response = crate::quests::CreateQuestResponse {
            name: q.name.clone(),
            difficulty: q.difficulty,
            status: q.status,
            number_of_workouts_needed: q.number_of_workouts_needed,
            number_of_workouts_completed: q.number_of_workouts_completed,
            workout_duration: q.workout_duration,
            exercise_category: q.exercise_category,
            exercise_muscle: q.exercise_muscle,
        };
        self.quests.push(q);
        self.next_quest_id = id + 1;
        response
    }

    /// The progression effects of logging one workout: deposit its
    /// experience points, credit its coins, then advance the character's
    /// quests (crediting quest rewards for each completion). Persisting the
    /// workout record itself is plain storage and stays with the caller.
    /// The caps are machine limits sized to the quest list.
    pub fn log_workout(&mut self, user_id: i32, workout: &crate::quests::Workout)
        requires
            spec_store_wf(*old(self)),
            spec_has_user(old(self).characters@, user_id),
            vstd::math::max(
                spec_char_of(old(self).characters@, user_id).level as int,
                320,
            ) + old(self).quests@.len() + 1 <= MAX_LEVEL,
            spec_char_of(old(self).characters@, user_id).pending_stat_points + 320 * (old(
                self,
            ).quests@.len() + 2) <= u64::MAX,
        ensures
            spec_store_wf(*final(self)),
            final(self).quests@.len() == old(self).quests@.len(),
            forall|i: int|
                0 <= i < old(self).quests@.len() ==> #[trigger] final(self).quests@[i] == (if old(
                    self,
                ).quests@[i].user_id == user_id {
                    crate::quests::spec_advance_quest(old(self).quests@[i], *workout)
                } else {
                    old(self).quests@[i]
                }),
            ({
                let k = spec_user_index(old(self).characters@, user_id);
                let ch = old(self).characters@[k];
                final(self).characters@ == old(self).characters@.update(
                    k,
                    spec_apply_quest_rewards(
                        spec_credit(ch, workout.points, workout.coins),
                        old(self).quests@,
                        *workout,
                        user_id,
                    ),
                )
            }),
            final(self).shop@ == old(self).shop@,
            final(self).catalog@ == old(self).catalog@,
            final(self).requests@ == old(self).requests@,
    {
        let ghost pre = *self;
        proof {
            lemma_user_index_spec(pre.characters@, user_id);
            let k = spec_user_index(pre.characters@, user_id);
            let ch = pre.characters@[k];
            crate::progression::lemma_exp_required_step(ch.level as nat);
            crate::progression::lemma_apply_exp_invariant(
                ch.level as nat,
                (ch.exp_leftover + workout.points) as nat,
            );
            crate::progression::lemma_apply_exp_level_bound(
                ch.level as nat,
                (ch.exp_leftover + workout.points) as nat,
            );
        }
        self.add_exp(user_id, workout.points);
        proof {
            let k = spec_user_index(pre.characters@, user_id);
            lemma_user_index_pointwise(pre.characters@, self.characters@, user_id);
        }
        self.add_coins(user_id, workout.coins);
        proof {
            let k = spec_user_index(pre.characters@, user_id);
            lemma_user_index_pointwise(pre.characters@, self.characters@, user_id);
            let ch = pre.characters@[k];
            assert(self.characters@[k] == spec_credit(ch, workout.points, workout.coins));
            assert(self.characters@ =~= pre.characters@.update(
                k,
                spec_credit(ch, workout.points, workout.coins),
            ));
        }
        self.apply_workout_to_quests(user_id, workout);
        proof {
            let k = spec_user_index(pre.characters@, user_id);
            let ch = pre.characters@[k];
            let mid = spec_credit(ch, workout.points, workout.coins);
            assert(self.characters@ =~= pre.characters@.update(
                k,
                spec_apply_quest_rewards(mid, pre.quests@, *workout, user_id),
            ));
        }
    }

    /// The quests of this character, in listing order.
    pub fn read_quests(&self, user_id: i32) -> (r: Vec<QuestRow>)
        ensures
            r@ == crate::quests::spec_user_quests(self.quests@, user_id),
    {
        let mut out: Vec<QuestRow> = Vec::new();
        let mut i: usize = 0;
        proof {
            assert(self.quests@.subrange(0, 0) =~= Seq::<QuestRow>::empty());
        }
        while i < self.quests.len()
            invariant
                i <= self.quests@.len(),
                out@ == crate::quests::spec_user_quests(
                    self.quests@.subrange(0, i as int),
                    user_id,
                ),
            decreases self.quests@.len() - i,
        {
            proof {
                assert(self.quests@.subrange(0, i + 1).drop_last() =~= self.quests@.subrange(
                    0,
                    i as int,
                ));
                assert(self.quests@.subrange(0, i + 1).last() == self.quests@[i as int]);
            }
            if self.quests[i].user_id == user_id {
                out.push(self.quests[i].duplicate());
            }
            i += 1;
        }
        proof {
            assert(self.quests@.subrange(0, self.quests@.len() as int) =~= self.quests@);
        }
        out
    }

    /// Complete onboarding: create the level-one character, with its starting
    /// class, equipment and inventory, under a unique username.
    ///
    /// Fails, leaving the store unchanged, when another character already
    /// holds the username. The caller supplies a fresh user id.
    pub fn create_character(
        &mut self,
        user_id: i32,
        username: String,
        class: crate::stats::Class,
        equipped: crate::character::Equipped,
        inventory: crate::character::Inventory,
    ) -> (r: Result<(), SettingsError>)
        requires
            spec_store_wf(*old(self)),
            !spec_has_user(old(self).characters@, user_id),
        ensures
            spec_store_wf(*final(self)),
            (exists|i: int|
                0 <= i < old(self).characters@.len() && (#[trigger] old(
                    self,
                ).characters@[i]).username@ == username@) ==> r == Err::<(), SettingsError>(
                SettingsError::UsernameTaken,
            ) && *final(self) == *old(self),
            !(exists|i: int|
                0 <= i < old(self).characters@.len() && (#[trigger] old(
                    self,
                ).characters@[i]).username@ == username@) ==> r == Ok::<(), SettingsError>(())
                && ({
                let row = final(self).characters@.last();
                &&& final(self).characters@ == old(self).characters@.push(row)
                &&& row.user_id == user_id
                &&& row.username == username
                &&& row.class == class
                &&& row.level == 1
                &&& row.exp_leftover == 0
                &&& row.pending_stat_points == 0
                &&& row.streak == 0
                &&& row.coins == 0
                &&& row.equipped == equipped
                &&& row.inventory == inventory
                &&& row.friends@ =~= Seq::<i32>::empty()
            }),
            final(self).quests@ == old(self).quests@,
            final(self).shop@ == old(self).shop@,
            final(self).catalog@ == old(self).catalog@,
            final(self).requests@ == old(self).requests@,
    {
        let ghost pre = *self;
        let mut i: usize = 0;
        while i < self.characters.len()
            invariant
                *self == pre,
                pre == *old(self),
                spec_store_wf(pre),
                !spec_has_user(pre.characters@, user_id),
                i <= self.characters@.len(),
                forall|j: int|
                    0 <= j < i ==> (#[trigger] self.characters@[j]).username@ != username@,
            decreases self.characters@.len() - i,
        {
            if self.characters[i].username == username {
                return Err(SettingsError::UsernameTaken);
            }
            i += 1;
        }
        let row = crate::character::new_character(user_id, username, class, equipped, inventory);
        proof {
            lemma_user_index_spec(pre.characters@, user_id);
        }
        self.characters.push(row);
        proof {
            assert forall|a: int, b: int|
                0 <= a < b < self.characters@.len() implies #[trigger] self.characters@[a].user_id
                != #[trigger] self.characters@[b].user_id by {
                if b == self.characters@.len() - 1 {
                    assert(pre.characters@[a].user_id != user_id);
                }
            }
            assert forall|i2: int| 0 <= i2 < self.requests@.len() implies spec_has_user(
                self.characters@,
                (#[trigger] self.requests@[i2]).sender_id,
            ) && spec_has_user(self.characters@, self.requests@[i2].recipient_id) by {
                lemma_user_index_append(pre.characters@, self.characters@.last(), self.requests@[i2].sender_id);
                lemma_user_index_append(pre.characters@, self.characters@.last(), self.requests@[i2].recipient_id);
            }
        }
        Ok(())
    }

    /// Replace the whole shop listing by up to ten distinct random catalog
    /// items of non-default rarity. The listing is swapped in as one write:
    /// a reader before this call sees the old listing in full, a reader
    /// after it the new one in full, never a partially refreshed mixture.
    pub fn refresh_shop(&mut self)
        requires
            spec_store_wf(*old(self)),
        ensures
            spec_store_wf(*final(self)),
            final(self).shop@.len() == (if spec_count_eligible(old(self).catalog@) < 10 {
                spec_count_eligible(old(self).catalog@)
            } else {
                10int
            }),
            final(self).shop@.no_duplicates(),
            forall|i: int|
                0 <= i < final(self).shop@.len() ==> spec_listing_ok(
                    old(self).catalog@,
                    #[trigger] final(self).shop@[i],
                ),
            final(self).characters@ == old(self).characters@,
            final(self).quests@ == old(self).quests@,
            final(self).catalog@ == old(self).catalog@,
            final(self).requests@ == old(self).requests@,
            final(self).next_request_id == old(self).next_request_id,
            final(self).next_quest_id == old(self).next_quest_id,
    {
        let ghost cat = self.catalog@;
        let mut eligible: Vec<usize> = Vec::new();
        let mut i: usize = 0;
        proof {
            assert(cat.subrange(0, 0) =~= Seq::<ItemRow>::empty());
        }
        while i < self.catalog.len()
            invariant
                self.catalog@ == cat,
                i <= cat.len(),
                eligible@.len() == spec_count_eligible(cat.subrange(0, i as int)),
                forall|t: int|
                    0 <= t < eligible@.len() ==> #[trigger] eligible@[t] < i && cat[
                        eligible@[t] as int
                    ].rarity != crate::items::ItemRarity::Default,
                forall|t1: int, t2: int|
                    0 <= t1 < t2 < eligible@.len() ==> #[trigger] eligible@[t1]
                        != #[trigger] eligible@[t2],
            decreases cat.len() - i,
        {
            proof {
                assert(cat.subrange(0, i + 1).drop_last() =~= cat.subrange(0, i as int));
                assert(cat.subrange(0, i + 1).last() == cat[i as int]);
            }
            if self.catalog[i].rarity != crate::items::ItemRarity::Default {
                eligible.push(i);
            }
            i += 1;
        }
        proof {
            assert(cat.subrange(0, cat.len() as int) =~= cat);
        }
        let total = eligible.len();
        let k = if total < 10 {
            total
        } else {
            10
        };
        let mut t: usize = 0;
        while t < k
            invariant
                self.catalog@ == cat,
                k <= total,
                t <= k,
                eligible@.len() == total,
                forall|p: int|
                    0 <= p < total ==> #[trigger] eligible@[p] < cat.len() && cat[
                        eligible@[p] as int
                    ].rarity != crate::items::ItemRarity::Default,
                forall|p1: int, p2: int|
                    0 <= p1 < p2 < total ==> #[trigger] eligible@[p1] != #[trigger] eligible@[p2],
            decreases k - t,
        {
            let j = t + (random_below((total - t) as u64) as usize);
            let a = eligible[t];
            let b = eligible[j];
            eligible[t] = b;
            eligible[j] = a;
            t += 1;
        }
        let mut listing: Vec<i32> = Vec::new();
        let mut t2: usize = 0;
        while t2 < k
            invariant
                self.catalog@ == cat,
                spec_store_wf(*old(self)),
                old(self).catalog@ == cat,
                k <= total,
                t2 <= k,
                eligible@.len() == total,
                listing@.len() == t2,
                forall|p: int|
                    0 <= p < total ==> #[trigger] eligible@[p] < cat.len() && cat[
                        eligible@[p] as int
                    ].rarity != crate::items::ItemRarity::Default,
                forall|p1: int, p2: int|
                    0 <= p1 < p2 < total ==> #[trigger] eligible@[p1] != #[trigger] eligible@[p2],
                forall|p: int|
                    0 <= p < t2 ==> #[trigger] listing@[p] == cat[eligible@[p] as int].id,
            decreases k - t2,
        {
            let idx = eligible[t2];
            let id = self.catalog[idx].id;
            listing.push(id);
            t2 += 1;
        }
        proof {
            assert forall|p1: int, p2: int|
                0 <= p1 < p2 < listing@.len() implies #[trigger] listing@[p1]
                != #[trigger] listing@[p2] by {
                let e1 = eligible@[p1] as int;
                let e2 = eligible@[p2] as int;
                assert(e1 != e2);
                if e1 < e2 {
                    assert(cat[e1].id != cat[e2].id);
                } else {
                    assert(cat[e2].id != cat[e1].id);
                }
            }
            assert(listing@.no_duplicates());
            assert forall|p: int| 0 <= p < listing@.len() implies spec_listing_ok(
                cat,
                #[trigger] listing@[p],
            ) by {
                let e = eligible@[p] as int;
                assert(cat[e].id == listing@[p] && cat[e].rarity
                    != crate::items::ItemRarity::Default);
            }
        }
        self.shop = listing;
    }

    /// The current listing, each entry joined with its catalog item and
    /// priced by rarity.
    pub fn get_shop(&self) -> (r: Vec<ShopItem>)
        requires
            spec_store_wf(*self),
        ensures
            r@.len() == self.shop@.len(),
            forall|i: int|
                0 <= i < r@.len() ==> {
                    let item = self.catalog@[spec_catalog_index(self.catalog@, self.shop@[i])];
                    &&& (#[trigger] r@[i]).id == self.shop@[i]
                    &&& r@[i].name == item.name
                    &&& r@[i].category == item.category
                    &&& r@[i].rarity == item.rarity
                    &&& r@[i].path == item.path
                    &&& r@[i].price == crate::items::spec_price_of(item.rarity)
                },
    {
        let mut out: Vec<ShopItem> = Vec::new();
        let mut i: usize = 0;
        while i < self.shop.len()
            invariant
                spec_store_wf(*self),
                i <= self.shop@.len(),
                out@.len() == i,
                forall|p: int|
                    0 <= p < i ==> {
                        let item = self.catalog@[spec_catalog_index(
                            self.catalog@,
                            self.shop@[p],
                        )];
                        &&& (#[trigger] out@[p]).id == self.shop@[p]
                        &&& out@[p].name == item.name
                        &&& out@[p].category == item.category
                        &&& out@[p].rarity == item.rarity
                        &&& out@[p].path == item.path
                        &&& out@[p].price == crate::items::spec_price_of(item.rarity)
                    },
            decreases self.shop@.len() - i,
        {
            let id = self.shop[i];
            proof {
                assert(spec_listing_ok(self.catalog@, id));
                lemma_catalog_index_spec(self.catalog@, id);
            }
            let jopt = self.find_item(id);
            if let Some(j) = jopt {
                let entry = ShopItem {
                    id,
                    name: self.catalog[j].name.clone(),
                    category: self.catalog[j].category,
                    rarity: self.catalog[j].rarity,
                    path: self.catalog[j].path.clone(),
                    price: crate::items::price_of(self.catalog[j].rarity),
                };
                out.push(entry);
            } else {
                proof {
                    assert(false);
                }
            }
            i += 1;
        }
        out
    }
}

/// After a purchase that passed the balance check, the remaining coins
/// cannot cover a second item when the two prices together exceed the
/// starting balance: of two such purchases, at most one can succeed, and
/// the balance never goes negative (it is unsigned throughout).
pub proof fn lemma_concurrent_purchase_race(coins: u64, price1: u64, price2: u64)
    requires
        price1 + price2 > coins,
        coins >= price1,
    ensures
        coins - price1 < price2,
{
}

} // verus!
