//! Social reads: friend lists, friend requests, and the leaderboard.

use vstd::prelude::*;

verus! {

use crate::character::CharactersRow;
use crate::character::Equipped;
use crate::progression::exp_needed_for_level;
use crate::progression::spec_exp_required;
use crate::stats::Class;
use crate::store::Store;
use crate::store::spec_store_wf;
use crate::store::spec_user_index;
use crate::store::spec_has_user;
use crate::store::lemma_user_index_spec;

/// One friend, as the friends screen shows them.
#[derive(Clone, Debug)]
pub struct FriendList {
    pub user_id: i32,
    pub username: String,
    pub class: Class,
    pub level: u32,
    pub exp_leftover: u64,
    pub exp_needed: u64,
}

/// A friend's full public details.
#[derive(Clone, Debug)]
pub struct FriendDetailResponse {
    pub username: String,
    pub class: Class,
    pub level: u32,
    pub exp_leftover: u64,
    pub exp_needed: u64,
    pub streak: u32,
    pub equipped: Equipped,
}

/// One row of the leaderboard.
#[derive(Clone, Debug)]
pub struct LeaderboardEntry {
    pub user_id: i32,
    pub username: String,
    pub class: Class,
    pub level: u32,
    pub exp_leftover: u64,
    pub exp_needed: u64,
}

/// An incoming or outgoing friend request, joined with the other party.
#[derive(Clone, Debug)]
pub struct FriendRequest {
    pub request_id: i32,
    pub sender_id: i32,
    pub sender_username: String,
    pub sender_class: Class,
    pub sender_level: u32,
    pub created: i64,
}

/// A request to befriend another character.
#[derive(Clone, Copy, Debug, PartialEq, Eq, Structural)]
pub struct SendFriendRequest {
    pub recipient_id: i32,
}

/// A response to a pending friend request.
#[derive(Clone, Copy, Debug, PartialEq, Eq, Structural)]
pub struct RespondToRequest {
    pub request_id: i32,
    pub accept: bool,
}

/// A raw replacement friends list.
#[derive(Clone, Debug)]
pub struct UpdateFriendsRequest {
    pub friend_ids: Vec<i32>,
}

/// Leaderboard rank order: higher level first, then more leftover
/// experience, and between equals the smaller user id, a stable and
/// documented tie-break.
pub open spec fn spec_rank_le(
    al: u32,
    alo: u64,
    aid: i32,
    bl: u32,
    blo: u64,
    bid: i32,
) -> bool {
    ||| al > bl
    ||| (al == bl && alo > blo)
    ||| (al == bl && alo == blo && aid <= bid)
}

fn rank_le(al: u32, alo: u64, aid: i32, bl: u32, blo: u64, bid: i32) -> (r: bool)
    ensures
        r == spec_rank_le(al, alo, aid, bl, blo, bid),
{
    al > bl || (al == bl && alo > blo) || (al == bl && alo == blo && aid <= bid)
}

/// The fields of `e` are those of the character row `c`, with `exp_needed`
/// the requirement of the next level.
pub open spec fn spec_entry_of(e: LeaderboardEntry, c: CharactersRow) -> bool {
    &&& e.user_id == c.user_id
    &&& e.username == c.username
    &&& e.class == c.class
    &&& e.level == c.level
    &&& e.exp_leftover == c.exp_leftover
    &&& e.exp_needed as int == spec_exp_required((c.level + 1) as nat)
}

/// Some entry of `out` shows the character with this user id.
pub open spec fn spec_shows(out: Seq<LeaderboardEntry>, uid: i32) -> bool {
    exists|p: int| 0 <= p < out.len() && (#[trigger] out[p]).user_id == uid
}

/// How many of the first `n` characters rank strictly before `target`
/// under the leaderboard order (the target itself never counts).
pub open spec fn spec_ranked_before_count(
    chars: Seq<CharactersRow>,
    n: int,
    target: CharactersRow,
) -> int
    decreases n,
{
    if n <= 0 {
        0
    } else {
        spec_ranked_before_count(chars, n - 1, target) + if spec_rank_le(
            chars[n - 1].level,
            chars[n - 1].exp_leftover,
            chars[n - 1].user_id,
            target.level,
            target.exp_leftover,
            target.user_id,
        ) && chars[n - 1].user_id != target.user_id {
            1int
        } else {
            0int
        }
    }
}

impl Store {

    /// The characters ranked by `(level desc, exp_leftover desc, user_id
    /// asc)`, cut to the first `limit`: the result is sorted, shows each
    /// character at most once with its true fields, and whoever is left out
    /// ranks no better than anyone shown.
    pub fn read_leaderboard(&self, limit: usize) -> (r: Vec<LeaderboardEntry>)
        requires
            spec_store_wf(*self),
        ensures
            r@.len() == (if self.characters@.len() < limit {
                self.characters@.len() as int
            } else {
                limit as int
            }),
            forall|p: int, q: int|
                0 <= p < q < r@.len() ==> spec_rank_le(
                    (#[trigger] r@[p]).level,
                    r@[p].exp_leftover,
                    r@[p].user_id,
                    (#[trigger] r@[q]).level,
                    r@[q].exp_leftover,
                    r@[q].user_id,
                ),
            forall|p: int, q: int|
                0 <= p < q < r@.len() ==> (#[trigger] r@[p]).user_id != (#[trigger] r@[q]).user_id,
            forall|p: int|
                0 <= p < r@.len() ==> {
                    let k = spec_user_index(self.characters@, (#[trigger] r@[p]).user_id);
                    k >= 0 && spec_entry_of(r@[p], self.characters@[k])
                },
            forall|p: int, j: int|
                0 <= p < r@.len() && 0 <= j < self.characters@.len() && (forall|q: int|
                    0 <= q < r@.len() ==> (#[trigger] r@[q]).user_id
                        != self.characters@[j].user_id) ==> spec_rank_le(
                    (#[trigger] r@[p]).level,
                    r@[p].exp_leftover,
                    r@[p].user_id,
                    (#[trigger] self.characters@[j]).level,
                    self.characters@[j].exp_leftover,
                    self.characters@[j].user_id,
                ),
    {
        let ghost chars = self.characters@;
        let n = self.characters.len();
        let mut remaining: Vec<usize> = Vec::new();
        let mut i: usize = 0;
        while i < n
            invariant
                chars == self.characters@,
                n == chars.len(),
                i <= n,
                remaining@.len() == i,
                forall|t: int| 0 <= t < i ==> #[trigger] remaining@[t] == t,
            decreases n - i,
        {
            remaining.push(i);
            i += 1;
        }
        let mut out: Vec<LeaderboardEntry> = Vec::new();
        proof {
            assert forall|j: int| #![trigger chars[j]]
                0 <= j < n implies remaining@.contains(j as usize) by {
                assert(remaining@[j] == j as usize);
            }
        }
        while out.len() < limit && remaining.len() > 0
            invariant
                spec_store_wf(*self),
                chars == self.characters@,
                n == chars.len(),
                out@.len() <= limit,
                out@.len() + remaining@.len() == n,
                forall|t: int| 0 <= t < remaining@.len() ==> (#[trigger] remaining@[t]) < n,
                forall|t1: int, t2: int|
                    0 <= t1 < t2 < remaining@.len() ==> #[trigger] remaining@[t1]
                        != #[trigger] remaining@[t2],
                forall|p: int|
                    0 <= p < out@.len() ==> {
                        let k = spec_user_index(chars, (#[trigger] out@[p]).user_id);
                        k >= 0 && spec_entry_of(out@[p], chars[k])
                    },
                forall|p: int, t: int|
                    0 <= p < out@.len() && 0 <= t < remaining@.len() ==> spec_rank_le(
                        (#[trigger] out@[p]).level,
                        out@[p].exp_leftover,
                        out@[p].user_id,
                        (#[trigger] chars[remaining@[t] as int]).level,
                        chars[remaining@[t] as int].exp_leftover,
                        chars[remaining@[t] as int].user_id,
                    ),
                forall|p: int, q: int|
                    0 <= p < q < out@.len() ==> spec_rank_le(
                        (#[trigger] out@[p]).level,
                        out@[p].exp_leftover,
                        out@[p].user_id,
                        (#[trigger] out@[q]).level,
                        out@[q].exp_leftover,
                        out@[q].user_id,
                    ),
                forall|p: int, t: int|
                    0 <= p < out@.len() && 0 <= t < remaining@.len() ==> (
                    #[trigger] out@[p]).user_id != (#[trigger] chars[remaining@[t] as int]).user_id,
                forall|p: int, q: int|
                    0 <= p < q < out@.len() ==> (#[trigger] out@[p]).user_id != (
                    #[trigger] out@[q]).user_id,
                forall|j: int| #![trigger chars[j]]
                    0 <= j < n ==> remaining@.contains(j as usize) || spec_shows(
                        out@,
                        chars[j].user_id,
                    ),
            decreases limit - out@.len(),
        {
            let mut m: usize = 0;
            let mut t: usize = 1;
            while t < remaining.len()
                invariant
                    chars == self.characters@,
                    n == chars.len(),
                    remaining@.len() > 0,
                    forall|u: int| 0 <= u < remaining@.len() ==> (#[trigger] remaining@[u]) < n,
                    m < remaining@.len(),
                    t <= remaining@.len(),
                    forall|u: int|
                        0 <= u < t ==> spec_rank_le(
                            chars[remaining@[m as int] as int].level,
                            chars[remaining@[m as int] as int].exp_leftover,
                            chars[remaining@[m as int] as int].user_id,
                            (#[trigger] chars[remaining@[u] as int]).level,
                            chars[remaining@[u] as int].exp_leftover,
                            chars[remaining@[u] as int].user_id,
                        ),
                decreases remaining@.len() - t,
            {
                let a = remaining[t];
                let b = remaining[m];
                let a_first = rank_le(
                    self.characters[a].level,
                    self.characters[a].exp_leftover,
                    self.characters[a].user_id,
                    self.characters[b].level,
                    self.characters[b].exp_leftover,
                    self.characters[b].user_id,
                );
                if a_first {
                    m = t;
                    proof {
                        assert forall|u: int| 0 <= u < t + 1 implies spec_rank_le(
                            chars[remaining@[m as int] as int].level,
                            chars[remaining@[m as int] as int].exp_leftover,
                            chars[remaining@[m as int] as int].user_id,
                            (#[trigger] chars[remaining@[u] as int]).level,
                            chars[remaining@[u] as int].exp_leftover,
                            chars[remaining@[u] as int].user_id,
                        ) by {
                            assert(spec_rank_le(
                                chars[b as int].level,
                                chars[b as int].exp_leftover,
                                chars[b as int].user_id,
                                chars[remaining@[u] as int].level,
                                chars[remaining@[u] as int].exp_leftover,
                                chars[remaining@[u] as int].user_id,
                            ) || u == t);
                        }
                    }
                }
                t += 1;
            }
            let best = remaining[m];
            proof {
                assert(spec_row_wf_of(chars, best as int));
                lemma_user_index_of_own(chars, best as int);
            }
            let ghost out_before = out@;
            let ghost rem_before = remaining@;
            let c = &self.characters[best];
            let entry = LeaderboardEntry {
                user_id: c.user_id,
                username: c.username.clone(),
                class: c.class.duplicate(),
                level: c.level,
                exp_leftover: c.exp_leftover,
                exp_needed: exp_needed_for_level(c.level + 1),
            };
            out.push(entry);
            remaining.remove(m);
            proof {
                rem_before.remove_ensures(m as int);
                assert(remaining@ == rem_before.remove(m as int));
                assert forall|t2: int|
                    0 <= t2 < remaining@.len() implies exists|t0: int|
                    0 <= t0 < rem_before.len() && t0 != m && rem_before[t0]
                        == #[trigger] remaining@[t2] by {
                    let t0 = if t2 < m {
                        t2
                    } else {
                        t2 + 1
                    };
                    assert(rem_before[t0] == remaining@[t2]);
                }
                assert forall|t1: int, t2: int|
                    0 <= t1 < t2 < remaining@.len() implies #[trigger] remaining@[t1]
                    != #[trigger] remaining@[t2] by {
                    let u1 = if t1 < m {
                        t1
                    } else {
                        t1 + 1
                    };
                    let u2 = if t2 < m {
                        t2
                    } else {
                        t2 + 1
                    };
                    assert(remaining@[t1] == rem_before[u1]);
                    assert(remaining@[t2] == rem_before[u2]);
                }
                assert forall|p: int, t2: int|
                    0 <= p < out@.len() && 0 <= t2 < remaining@.len() implies spec_rank_le(
                        (#[trigger] out@[p]).level,
                        out@[p].exp_leftover,
                        out@[p].user_id,
                        (#[trigger] chars[remaining@[t2] as int]).level,
                        chars[remaining@[t2] as int].exp_leftover,
                        chars[remaining@[t2] as int].user_id,
                    ) by {
                    let u = if t2 < m {
                        t2
                    } else {
                        t2 + 1
                    };
                    assert(remaining@[t2] == rem_before[u]);
                    if p < out_before.len() {
                        assert(out@[p] == out_before[p]);
                    } else {
                        assert(out@[p] == entry);
                        assert(spec_rank_le(
                            chars[best as int].level,
                            chars[best as int].exp_leftover,
                            chars[best as int].user_id,
                            chars[rem_before[u] as int].level,
                            chars[rem_before[u] as int].exp_leftover,
                            chars[rem_before[u] as int].user_id,
                        ));
                    }
                }
                assert forall|p: int, t2: int|
                    0 <= p < out@.len() && 0 <= t2 < remaining@.len() implies (
                #[trigger] out@[p]).user_id != (#[trigger] chars[remaining@[t2] as int]).user_id by {
                    let u = if t2 < m {
                        t2
                    } else {
                        t2 + 1
                    };
                    assert(remaining@[t2] == rem_before[u]);
                    if p < out_before.len() {
                        assert(out@[p] == out_before[p]);
                    } else {
                        assert(out@[p].user_id == chars[best as int].user_id);
                        assert(rem_before[u] != best);
                        lemma_user_index_of_own(chars, rem_before[u] as int);
                        lemma_user_index_of_own(chars, best as int);
                    }
                }
                assert forall|p: int, q: int|
                    0 <= p < q < out@.len() implies (#[trigger] out@[p]).user_id != (
                #[trigger] out@[q]).user_id by {
                    if q == out@.len() - 1 {
                        assert(out@[p] == out_before[p]);
                        assert(out@[q] == entry);
                        assert(out_before[p].user_id != chars[rem_before[m as int] as int].user_id);
                    } else {
                        assert(out@[p] == out_before[p] && out@[q] == out_before[q]);
                    }
                }
                assert forall|p: int, q: int|
                    0 <= p < q < out@.len() implies spec_rank_le(
                        (#[trigger] out@[p]).level,
                        out@[p].exp_leftover,
                        out@[p].user_id,
                        (#[trigger] out@[q]).level,
                        out@[q].exp_leftover,
                        out@[q].user_id,
                    ) by {
                    if q == out@.len() - 1 {
                        assert(out@[q] == entry);
                        assert(out@[p] == out_before[p]);
                        assert(spec_rank_le(
                            out_before[p].level,
                            out_before[p].exp_leftover,
                            out_before[p].user_id,
                            chars[rem_before[m as int] as int].level,
                            chars[rem_before[m as int] as int].exp_leftover,
                            chars[rem_before[m as int] as int].user_id,
                        ));
                    } else {
                        assert(out@[p] == out_before[p] && out@[q] == out_before[q]);
                    }
                }
                assert forall|j: int| #![trigger chars[j]]
                    0 <= j < n implies remaining@.contains(j as usize) || spec_shows(
                    out@,
                    chars[j].user_id,
                ) by {
                    if j == best {
                        assert(out@[out@.len() - 1].user_id == chars[j].user_id);
                        assert(spec_shows(out@, chars[j].user_id));
                    } else if rem_before.contains(j as usize) {
                        let t0 = choose|t0: int|
                            0 <= t0 < rem_before.len() && rem_before[t0] == j as usize;
                        assert(t0 != m);
                        let t2 = if t0 < m {
                            t0
                        } else {
                            t0 - 1
                        };
                        assert(remaining@[t2] == j as usize);
                        assert(remaining@.contains(j as usize));
                    } else {
                        assert(spec_shows(out_before, chars[j].user_id));
                        let p = choose|p: int|
                            0 <= p < out_before.len() && (#[trigger] out_before[p]).user_id
                                == chars[j].user_id;
                        assert(out@[p].user_id == chars[j].user_id);
                        assert(spec_shows(out@, chars[j].user_id));
                    }
                }
            }
        }
        proof {
            assert forall|p: int, j: int|
                0 <= p < out@.len() && 0 <= j < chars.len() && (forall|q: int|
                    0 <= q < out@.len() ==> (#[trigger] out@[q]).user_id != chars[j].user_id)
                implies spec_rank_le(
                (#[trigger] out@[p]).level,
                out@[p].exp_leftover,
                out@[p].user_id,
                (#[trigger] chars[j]).level,
                chars[j].exp_leftover,
                chars[j].user_id,
            ) by {
                assert(!spec_shows(out@, chars[j].user_id));
                assert(remaining@.contains(j as usize));
                let t2 = choose|t2: int|
                    0 <= t2 < remaining@.len() && remaining@[t2] == j as usize;
                assert(chars[remaining@[t2] as int] == chars[j]);
            }
        }
        out
    }
}

/// The ids among `ids` that name an existing character, in order.
pub open spec fn spec_existing_ids(chars: Seq<CharactersRow>, ids: Seq<i32>) -> Seq<i32>
    decreases ids.len(),
{
    if ids.len() == 0 {
        Seq::empty()
    } else {
        let rest = spec_existing_ids(chars, ids.drop_last());
        if spec_has_user(chars, ids.last()) {
            rest.push(ids.last())
        } else {
            rest
        }
    }
}

/// The fields of `e` are those of the character row `c`, with `exp_needed`
/// the requirement of the next level.
pub open spec fn spec_friend_entry_of(e: FriendList, c: CharactersRow) -> bool {
    &&& e.user_id == c.user_id
    &&& e.username == c.username
    &&& e.class == c.class
    &&& e.level == c.level
    &&& e.exp_leftover == c.exp_leftover
    &&& e.exp_needed as int == spec_exp_required((c.level + 1) as nat)
}

/// The pending requests addressed to `uid`, in listing order.
pub open spec fn spec_requests_to(
    requests: Seq<crate::store::FriendRequestRow>,
    uid: i32,
) -> Seq<crate::store::FriendRequestRow>
    decreases requests.len(),
{
    if requests.len() == 0 {
        Seq::empty()
    } else {
        let rest = spec_requests_to(requests.drop_last(), uid);
        if requests.last().recipient_id == uid {
            rest.push(requests.last())
        } else {
            rest
        }
    }
}

/// The pending requests sent by `uid`, in listing order.
pub open spec fn spec_requests_from(
    requests: Seq<crate::store::FriendRequestRow>,
    uid: i32,
) -> Seq<crate::store::FriendRequestRow>
    decreases requests.len(),
{
    if requests.len() == 0 {
        Seq::empty()
    } else {
        let rest = spec_requests_from(requests.drop_last(), uid);
        if requests.last().sender_id == uid {
            rest.push(requests.last())
        } else {
            rest
        }
    }
}

impl Store {
    /// The caller's friends, one entry per friend id that names an existing
    /// character, in friend-list order.
    pub fn read_friends(&self, user_id: i32) -> (r: Vec<FriendList>)
        requires
            spec_store_wf(*self),
            spec_has_user(self.characters@, user_id),
        ensures
            ({
                let friends = crate::store::spec_char_of(self.characters@, user_id).friends@;
                let shown = spec_existing_ids(self.characters@, friends);
                &&& r@.len() == shown.len()
                &&& forall|p: int|
                    0 <= p < r@.len() ==> (#[trigger] r@[p]).user_id == shown[p]
                        && spec_friend_entry_of(
                        r@[p],
                        self.characters@[spec_user_index(self.characters@, shown[p])],
                    )
            }),
    {
        proof {
            lemma_user_index_spec(self.characters@, user_id);
        }
        let kopt = self.find_user(user_id);
        let mut out: Vec<FriendList> = Vec::new();
        if let Some(k) = kopt {
            let ghost chars = self.characters@;
            let ghost friends = self.characters@[k as int].friends@;
            let mut i: usize = 0;
            proof {
                assert(friends.subrange(0, 0) =~= Seq::<i32>::empty());
            }
            while i < self.characters[k].friends.len()
                invariant
                    spec_store_wf(*self),
                    chars == self.characters@,
                    0 <= k < chars.len(),
                    friends == chars[k as int].friends@,
                    i <= friends.len(),
                    out@.len() == spec_existing_ids(chars, friends.subrange(0, i as int)).len(),
                    forall|p: int|
                        0 <= p < out@.len() ==> (#[trigger] out@[p]).user_id == spec_existing_ids(
                            chars,
                            friends.subrange(0, i as int),
                        )[p] && spec_friend_entry_of(
                            out@[p],
                            chars[spec_user_index(
                                chars,
                                spec_existing_ids(chars, friends.subrange(0, i as int))[p],
                            )],
                        ),
                decreases friends.len() - i,
            {
                proof {
                    assert(friends.subrange(0, i + 1).drop_last() =~= friends.subrange(
                        0,
                        i as int,
                    ));
                    assert(friends.subrange(0, i + 1).last() == friends[i as int]);
                }
                let fid = self.characters[k].friends[i];
                let fopt = self.find_user(fid);
                if let Some(fk) = fopt {
                    proof {
                        lemma_user_index_spec(chars, fid);
                    }
                    let c = &self.characters[fk];
                    proof {
                        assert(crate::character::spec_row_wf(chars[fk as int]));
                    }
                    let entry = FriendList {
                        user_id: c.user_id,
                        username: c.username.clone(),
                        class: c.class.duplicate(),
                        level: c.level,
                        exp_leftover: c.exp_leftover,
                        exp_needed: exp_needed_for_level(c.level + 1),
                    };
                    out.push(entry);
                }
                i += 1;
            }
            proof {
                assert(friends.subrange(0, friends.len() as int) =~= friends);
            }
        } else {
            proof {
                assert(false);
            }
        }
        out
    }

    /// Details of a character on the leaderboard: forbidden unless fewer
    /// than one hundred characters rank strictly before it, which under the
    /// strict rank order is exactly membership in the top hundred.
    pub fn read_leaderboard_detail(&self, user_id: i32) -> (r: Result<
        FriendDetailResponse,
        crate::store::SocialError,
    >)
        requires
            spec_store_wf(*self),
        ensures
            !spec_has_user(self.characters@, user_id) ==> r == Err::<
                FriendDetailResponse,
                crate::store::SocialError,
            >(crate::store::SocialError::Forbidden),
            spec_has_user(self.characters@, user_id) && spec_ranked_before_count(
                self.characters@,
                self.characters@.len() as int,
                crate::store::spec_char_of(self.characters@, user_id),
            ) >= 100 ==> r == Err::<FriendDetailResponse, crate::store::SocialError>(
                crate::store::SocialError::Forbidden,
            ),
            spec_has_user(self.characters@, user_id) && spec_ranked_before_count(
                self.characters@,
                self.characters@.len() as int,
                crate::store::spec_char_of(self.characters@, user_id),
            ) < 100 ==> (r matches Ok(d) && {
                let c = crate::store::spec_char_of(self.characters@, user_id);
                &&& d.username == c.username
                &&& d.class == c.class
                &&& d.level == c.level
                &&& d.exp_leftover == c.exp_leftover
                &&& d.exp_needed as int == spec_exp_required((c.level + 1) as nat)
                &&& d.streak == c.streak
                &&& d.equipped == c.equipped
            }),
    {
        proof {
            lemma_user_index_spec(self.characters@, user_id);
        }
        let kopt = self.find_user(user_id);
        if let Some(k) = kopt {
            let level = self.characters[k].level;
            let leftover = self.characters[k].exp_leftover;
            let mut count: usize = 0;
            let mut i: usize = 0;
            while i < self.characters.len()
                invariant
                    spec_store_wf(*self),
                    k == spec_user_index(self.characters@, user_id),
                    0 <= k < self.characters@.len(),
                    self.characters@[k as int].user_id == user_id,
                    level == self.characters@[k as int].level,
                    leftover == self.characters@[k as int].exp_leftover,
                    i <= self.characters@.len(),
                    count <= i,
                    count as int == spec_ranked_before_count(
                        self.characters@,
                        i as int,
                        self.characters@[k as int],
                    ),
                decreases self.characters@.len() - i,
            {
                let c = &self.characters[i];
                let before = rank_le(c.level, c.exp_leftover, c.user_id, level, leftover, user_id)
                    && c.user_id != user_id;
                if before {
                    count += 1;
                }
                i += 1;
            }
            if count >= 100 {
                return Err(crate::store::SocialError::Forbidden);
            }
            let c = &self.characters[k];
            proof {
                assert(crate::character::spec_row_wf(self.characters@[k as int]));
            }
            Ok(
                FriendDetailResponse {
                    username: c.username.clone(),
                    class: c.class.duplicate(),
                    level: c.level,
                    exp_leftover: c.exp_leftover,
                    exp_needed: exp_needed_for_level(c.level + 1),
                    streak: c.streak,
                    equipped: c.equipped,
                },
            )
        } else {
            Err(crate::store::SocialError::Forbidden)
        }
    }

    /// A friend's details: forbidden unless the id sits in the caller's
    /// friend list, and absent when that friend has no character.
    pub fn read_friend_detail(&self, user_id: i32, friend_id: i32) -> (r: Result<
        FriendDetailResponse,
        crate::store::SocialError,
    >)
        requires
            spec_store_wf(*self),
        ensures
            !spec_has_user(self.characters@, user_id) || !crate::store::spec_char_of(
                self.characters@,
                user_id,
            ).friends@.contains(friend_id) ==> r == Err::<
                FriendDetailResponse,
                crate::store::SocialError,
            >(crate::store::SocialError::Forbidden),
            spec_has_user(self.characters@, user_id) && crate::store::spec_char_of(
                self.characters@,
                user_id,
            ).friends@.contains(friend_id) && !spec_has_user(self.characters@, friend_id) ==> r
                == Err::<FriendDetailResponse, crate::store::SocialError>(
                crate::store::SocialError::NotFound,
            ),
            spec_has_user(self.characters@, user_id) && crate::store::spec_char_of(
                self.characters@,
                user_id,
            ).friends@.contains(friend_id) && spec_has_user(self.characters@, friend_id) ==> (
            r matches Ok(d) && {
                let c = crate::store::spec_char_of(self.characters@, friend_id);
                &&& d.username == c.username
                &&& d.class == c.class
                &&& d.level == c.level
                &&& d.exp_leftover == c.exp_leftover
                &&& d.exp_needed as int == spec_exp_required((c.level + 1) as nat)
                &&& d.streak == c.streak
                &&& d.equipped == c.equipped
            }),
    {
        proof {
            lemma_user_index_spec(self.characters@, user_id);
            lemma_user_index_spec(self.characters@, friend_id);
        }
        let kopt = self.find_user(user_id);
        if let Some(k) = kopt {
            if !crate::character::contains_id(&self.characters[k].friends, friend_id) {
                return Err(crate::store::SocialError::Forbidden);
            }
            let fopt = self.find_user(friend_id);
            if let Some(fk) = fopt {
                let c = &self.characters[fk];
                proof {
                    assert(crate::character::spec_row_wf(self.characters@[fk as int]));
                }
                Ok(
                    FriendDetailResponse {
                        username: c.username.clone(),
                        class: c.class.duplicate(),
                        level: c.level,
                        exp_leftover: c.exp_leftover,
                        exp_needed: exp_needed_for_level(c.level + 1),
                        streak: c.streak,
                        equipped: c.equipped,
                    },
                )
            } else {
                Err(crate::store::SocialError::NotFound)
            }
        } else {
            Err(crate::store::SocialError::Forbidden)
        }
    }

    /// The pending requests addressed to the caller, joined with each
    /// sender's public details, in listing order.
    pub fn get_incoming_requests(&self, user_id: i32) -> (r: Vec<FriendRequest>)
        requires
            spec_store_wf(*self),
        ensures
            ({
                let filtered = spec_requests_to(self.requests@, user_id);
                &&& r@.len() == filtered.len()
                &&& forall|p: int|
                    0 <= p < r@.len() ==> {
                        let req = filtered[p];
                        let c = self.characters@[spec_user_index(
                            self.characters@,
                            req.sender_id,
                        )];
                        &&& (#[trigger] r@[p]).request_id == req.id
                        &&& r@[p].sender_id == req.sender_id
                        &&& r@[p].created == req.created
                        &&& r@[p].sender_username == c.username
                        &&& r@[p].sender_class == c.class
                        &&& r@[p].sender_level == c.level
                    }
            }),
    {
        let ghost reqs = self.requests@;
        let mut out: Vec<FriendRequest> = Vec::new();
        let mut i: usize = 0;
        proof {
            assert(reqs.subrange(0, 0) =~= Seq::<crate::store::FriendRequestRow>::empty());
        }
        while i < self.requests.len()
            invariant
                spec_store_wf(*self),
                reqs == self.requests@,
                i <= reqs.len(),
                out@.len() == spec_requests_to(reqs.subrange(0, i as int), user_id).len(),
                forall|p: int|
                    0 <= p < out@.len() ==> {
                        let req = spec_requests_to(reqs.subrange(0, i as int), user_id)[p];
                        let c = self.characters@[spec_user_index(
                            self.characters@,
                            req.sender_id,
                        )];
                        &&& (#[trigger] out@[p]).request_id == req.id
                        &&& out@[p].sender_id == req.sender_id
                        &&& out@[p].created == req.created
                        &&& out@[p].sender_username == c.username
                        &&& out@[p].sender_class == c.class
                        &&& out@[p].sender_level == c.level
                    },
            decreases reqs.len() - i,
        {
            proof {
                assert(reqs.subrange(0, i + 1).drop_last() =~= reqs.subrange(0, i as int));
                assert(reqs.subrange(0, i + 1).last() == reqs[i as int]);
            }
            let req = self.requests[i];
            if req.recipient_id == user_id {
                proof {
                    assert(spec_has_user(self.characters@, reqs[i as int].sender_id));
                    lemma_user_index_spec(self.characters@, req.sender_id);
                }
                let sopt = self.find_user(req.sender_id);
                if let Some(sk) = sopt {
                    let c = &self.characters[sk];
                    let entry = FriendRequest {
                        request_id: req.id,
                        sender_id: req.sender_id,
                        sender_username: c.username.clone(),
                        sender_class: c.class.duplicate(),
                        sender_level: c.level,
                        created: req.created,
                    };
                    out.push(entry);
                } else {
                    proof {
                        assert(false);
                    }
                }
            }
            i += 1;
        }
        proof {
            assert(reqs.subrange(0, reqs.len() as int) =~= reqs);
        }
        out
    }

    /// The caller's own pending requests, joined with each recipient's
    /// public details (carried, as the wire format has it, in the
    /// sender-named fields), in listing order.
    pub fn get_outgoing_requests(&self, user_id: i32) -> (r: Vec<FriendRequest>)
        requires
            spec_store_wf(*self),
        ensures
            ({
                let filtered = spec_requests_from(self.requests@, user_id);
                &&& r@.len() == filtered.len()
                &&& forall|p: int|
                    0 <= p < r@.len() ==> {
                        let req = filtered[p];
                        let c = self.characters@[spec_user_index(
                            self.characters@,
                            req.recipient_id,
                        )];
                        &&& (#[trigger] r@[p]).request_id == req.id
                        &&& r@[p].sender_id == req.recipient_id
                        &&& r@[p].created == req.created
                        &&& r@[p].sender_username == c.username
                        &&& r@[p].sender_class == c.class
                        &&& r@[p].sender_level == c.level
                    }
            }),
    {
        let ghost reqs = self.requests@;
        let mut out: Vec<FriendRequest> = Vec::new();
        let mut i: usize = 0;
        proof {
            assert(reqs.subrange(0, 0) =~= Seq::<crate::store::FriendRequestRow>::empty());
        }
        while i < self.requests.len()
            invariant
                spec_store_wf(*self),
                reqs == self.requests@,
                i <= reqs.len(),
                out@.len() == spec_requests_from(reqs.subrange(0, i as int), user_id).len(),
                forall|p: int|
                    0 <= p < out@.len() ==> {
                        let req = spec_requests_from(reqs.subrange(0, i as int), user_id)[p];
                        let c = self.characters@[spec_user_index(
                            self.characters@,
                            req.recipient_id,
                        )];
                        &&& (#[trigger] out@[p]).request_id == req.id
                        &&& out@[p].sender_id == req.recipient_id
                        &&& out@[p].created == req.created
                        &&& out@[p].sender_username == c.username
                        &&& out@[p].sender_class == c.class
                        &&& out@[p].sender_level == c.level
                    },
            decreases reqs.len() - i,
        {
            proof {
                assert(reqs.subrange(0, i + 1).drop_last() =~= reqs.subrange(0, i as int));
                assert(reqs.subrange(0, i + 1).last() == reqs[i as int]);
            }
            let req = self.requests[i];
            if req.sender_id == user_id {
                proof {
                    assert(spec_has_user(self.characters@, reqs[i as int].recipient_id));
                    lemma_user_index_spec(self.characters@, req.recipient_id);
                }
                let ropt = self.find_user(req.recipient_id);
                if let Some(rk) = ropt {
                    let c = &self.characters[rk];
                    let entry = FriendRequest {
                        request_id: req.id,
                        sender_id: req.recipient_id,
                        sender_username: c.username.clone(),
                        sender_class: c.class.duplicate(),
                        sender_level: c.level,
                        created: req.created,
                    };
                    out.push(entry);
                } else {
                    proof {
                        assert(false);
                    }
                }
            }
            i += 1;
        }
        proof {
            assert(reqs.subrange(0, reqs.len() as int) =~= reqs);
        }
        out
    }
}

/// The character's own well-formedness, read off the store invariant.
pub open spec fn spec_row_wf_of(chars: Seq<CharactersRow>, j: int) -> bool {
    0 <= j < chars.len() && crate::character::spec_row_wf(chars[j])
}

/// With unique user ids, a row is found exactly at its own position.
pub proof fn lemma_user_index_of_own(chars: Seq<CharactersRow>, j: int)
    requires
        0 <= j < chars.len(),
        forall|i1: int, i2: int|
            0 <= i1 < i2 < chars.len() ==> #[trigger] chars[i1].user_id
                != #[trigger] chars[i2].user_id,
    ensures
        spec_user_index(chars, chars[j].user_id) == j,
{
    lemma_user_index_spec(chars, chars[j].user_id);
    let k = spec_user_index(chars, chars[j].user_id);
    if k == -1 {
        assert(chars[j].user_id != chars[j].user_id);
        assert(false);
    }
    if k < j {
        assert(chars[k].user_id != chars[j].user_id);
        assert(false);
    }
    if k > j {
        assert(chars[j].user_id != chars[k].user_id);
        assert(false);
    }
}

} // verus!
