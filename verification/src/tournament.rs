//! Freeroll tournaments: the daily entry limit, the fixed duration, the
//! prize pool minted for each tournament and the final ranking of its
//! players. The constants of the economy are passed in by the caller; a
//! player is named by an integer id.

use crate::casino::common::{sat_add, sat_mul, sat_sub, saturating_mul_u64};
use crate::settlement::PlayerAccount;
use vstd::prelude::*;

verus! {

/// Tournaments a player may join per day.
pub const MAX_TOURNAMENTS_PER_DAY: u32 = 5;

/// Seconds per block of the tournament clock.
pub const SECONDS_PER_BLOCK: u64 = 3;

/// Seconds per day.
pub const SECONDS_PER_DAY: u64 = 86_400;

/// Joining a tournament at block `view`: the count of tournaments played
/// today restarts on a new day; a sixth entry in a day is refused. Gives the
/// new count and the entry time (in seconds).
pub open spec fn join_check(played_today: u32, last_tournament_ts: u64, view: u64) -> Option<(u32, u64)> {
    let now = view * SECONDS_PER_BLOCK;
    let played = if now / (SECONDS_PER_DAY as int) > (last_tournament_ts / SECONDS_PER_DAY) as int {
        0
    } else {
        played_today
    };
    if played >= MAX_TOURNAMENTS_PER_DAY {
        None
    } else {
        Some(((played + 1) as u32, now as u64))
    }
}

/// Checks the daily tournament limit for a player joining at block `view`.
pub fn check_tournament_entry(played_today: u32, last_tournament_ts: u64, view: u64) -> (r: Option<(u32, u64)>)
    requires
        view * SECONDS_PER_BLOCK <= u64::MAX,
    ensures
        r == join_check(played_today, last_tournament_ts, view),
{
    let current_time_sec = view * SECONDS_PER_BLOCK;
    let current_day = current_time_sec / SECONDS_PER_DAY;
    let last_played_day = last_tournament_ts / SECONDS_PER_DAY;
    let played = if current_day > last_played_day {
        0
    } else {
        played_today
    };
    if played >= MAX_TOURNAMENTS_PER_DAY {
        return None;
    }
    Some((played + 1, current_time_sec))
}

/// The end of a tournament: the given end when it lies exactly the fixed
/// duration after the start, otherwise the start plus that duration.
pub open spec fn tournament_end(start_time_ms: u64, end_time_ms: u64, duration_secs: u64) -> u64 {
    let expected = sat_mul(duration_secs as int, 1000);
    if end_time_ms >= start_time_ms && end_time_ms - start_time_ms == expected {
        end_time_ms
    } else {
        sat_add(start_time_ms as int, expected) as u64
    }
}

/// Fixes the end of a tournament to its start plus the fixed duration.
pub fn tournament_end_time(start_time_ms: u64, end_time_ms: u64, duration_secs: u64) -> (e: u64)
    ensures
        e == tournament_end(start_time_ms, end_time_ms, duration_secs),
{
    let expected_duration_ms = saturating_mul_u64(duration_secs, 1000);
    if end_time_ms >= start_time_ms && end_time_ms - start_time_ms == expected_duration_ms {
        end_time_ms
    } else {
        start_time_ms.saturating_add(expected_duration_ms)
    }
}

/// The prize pool of one tournament and the house's issuance after it: the
/// annual emission (basis points of the supply) spread over the days of a
/// year and the tournaments of a day, capped by what is left of the reward
/// pool (basis points of the supply); the issuance grows by the prize, up to
/// the reward pool.
pub open spec fn prize_pool(
    total_supply: u64,
    annual_emission_bps: u64,
    tournaments_per_day: u64,
    reward_pool_bps: u64,
    total_issuance: u64,
) -> (u64, u64) {
    let cap = total_supply * reward_pool_bps / 10_000;
    let per_game = total_supply * annual_emission_bps / 10_000 / 365 / tournaments_per_day as int;
    let remaining = sat_sub(cap, total_issuance as int);
    let prize = ((if per_game <= remaining {
        per_game
    } else {
        remaining
    }) as u128) as u64;
    let grown = sat_add(total_issuance as int, prize as int);
    let cap64 = (cap as u128) as u64;
    (prize, if grown <= cap64 {
        grown as u64
    } else {
        cap64
    })
}

/// Mints the prize pool of a tournament that starts.
pub fn tournament_prize_pool(
    total_supply: u64,
    annual_emission_bps: u64,
    tournaments_per_day: u64,
    reward_pool_bps: u64,
    total_issuance: u64,
) -> (r: (u64, u64))
    requires
        tournaments_per_day > 0,
    ensures
        r == prize_pool(total_supply, annual_emission_bps, tournaments_per_day, reward_pool_bps, total_issuance),
{
    assert((total_supply as u128) * (reward_pool_bps as u128) <= u128::MAX) by (nonlinear_arith)
        requires
            total_supply <= u64::MAX,
            reward_pool_bps <= u64::MAX,
    ;
    assert((total_supply as u128) * (annual_emission_bps as u128) <= u128::MAX) by (nonlinear_arith)
        requires
            total_supply <= u64::MAX,
            annual_emission_bps <= u64::MAX,
    ;
    let reward_pool_cap: u128 = total_supply as u128 * reward_pool_bps as u128 / 10_000;
    let annual_emission: u128 = total_supply as u128 * annual_emission_bps as u128 / 10_000;
    let daily_emission = annual_emission / 365;
    let per_game_emission = daily_emission / tournaments_per_day as u128;
    let remaining_pool = reward_pool_cap.saturating_sub(total_issuance as u128);
    let capped_emission = if per_game_emission <= remaining_pool {
        per_game_emission
    } else {
        remaining_pool
    };
    let prize_pool: u64 = #[verifier::truncate] (capped_emission as u64);
    let cap: u64 = #[verifier::truncate] (reward_pool_cap as u64);
    let grown = total_issuance.saturating_add(prize_pool);
    let issuance = if grown <= cap {
        grown
    } else {
        cap
    };
    (prize_pool, issuance)
}

/// Where an entry with `chips` joins a ranking: before the first entry with
/// fewer chips, so after every entry with as many or more.
pub open spec fn join_position(ranking: Seq<(u64, u64)>, chips: u64) -> int
    decreases ranking.len(),
{
    if ranking.len() == 0 || ranking[0].1 < chips {
        0
    } else {
        1 + join_position(ranking.drop_first(), chips)
    }
}

/// The ranking of `(player, chips)` entries: from most chips to fewest,
/// entries with equal chips in the order they were given.
pub open spec fn ranking(entries: Seq<(u64, u64)>) -> Seq<(u64, u64)>
    decreases entries.len(),
{
    if entries.len() == 0 {
        entries
    } else {
        let r = ranking(entries.drop_last());
        r.insert(join_position(r, entries.last().1), entries.last())
    }
}

/// Whether entries are ordered from most chips to fewest.
pub open spec fn by_chips_descending(s: Seq<(u64, u64)>) -> bool {
    forall|i: int, j: int| 0 <= i < j < s.len() ==> s[i].1 >= s[j].1
}

/// The entries with `chips` chips.
pub open spec fn with_chips(chips: u64) -> spec_fn((u64, u64)) -> bool {
    |e: (u64, u64)| e.1 == chips
}

/// The join position is the first entry with fewer chips, or the end.
proof fn lemma_join_position(ranking: Seq<(u64, u64)>, chips: u64)
    ensures
        0 <= join_position(ranking, chips) <= ranking.len(),
        forall|j: int| 0 <= j < join_position(ranking, chips) ==> ranking[j].1 >= chips,
        join_position(ranking, chips) < ranking.len() ==> ranking[join_position(ranking, chips)].1 < chips,
    decreases ranking.len(),
{
    if ranking.len() > 0 && ranking[0].1 >= chips {
        lemma_join_position(ranking.drop_first(), chips);
        assert forall|j: int| 0 <= j < join_position(ranking, chips) implies ranking[j].1 >= chips by {
            if j > 0 {
                assert(ranking[j] == ranking.drop_first()[j - 1]);
            }
        }
    }
}

/// A position with larger-or-equal chips before it and fewer at it is the
/// join position.
proof fn lemma_join_position_at(ranking: Seq<(u64, u64)>, chips: u64, p: int)
    requires
        0 <= p <= ranking.len(),
        forall|j: int| 0 <= j < p ==> ranking[j].1 >= chips,
        p < ranking.len() ==> ranking[p].1 < chips,
    ensures
        join_position(ranking, chips) == p,
    decreases p,
{
    if p > 0 {
        assert forall|j: int| 0 <= j < p - 1 implies ranking.drop_first()[j].1 >= chips by {
            assert(ranking.drop_first()[j] == ranking[j + 1]);
        }
        if p - 1 < ranking.drop_first().len() {
            assert(ranking.drop_first()[p - 1] == ranking[p]);
        }
        lemma_join_position_at(ranking.drop_first(), chips, p - 1);
        assert(ranking[0].1 >= chips);
    }
}

/// A ranking has one entry per entry given.
proof fn lemma_ranking_len(entries: Seq<(u64, u64)>)
    ensures
        ranking(entries).len() == entries.len(),
    decreases entries.len(),
{
    if entries.len() > 0 {
        lemma_ranking_len(entries.drop_last());
        lemma_join_position(ranking(entries.drop_last()), entries.last().1);
    }
}

/// A ranking goes from most chips to fewest.
pub proof fn lemma_ranking_sorted(entries: Seq<(u64, u64)>)
    ensures
        by_chips_descending(ranking(entries)),
    decreases entries.len(),
{
    if entries.len() > 0 {
        let r = ranking(entries.drop_last());
        let e = entries.last();
        lemma_ranking_sorted(entries.drop_last());
        lemma_join_position(r, e.1);
        let p = join_position(r, e.1);
        r.insert_ensures(p, e);
        let out = r.insert(p, e);
        assert forall|i: int, j: int| 0 <= i < j < out.len() implies out[i].1 >= out[j].1 by {
            if j < p {
            } else if j == p {
            } else if i < p {
                assert(out[j] == r[j - 1]);
                assert(r[i].1 >= e.1);
                if p < r.len() {
                    assert(r[p].1 < e.1);
                }
            } else if i == p {
                assert(out[j] == r[j - 1]);
                assert(r[p].1 < e.1);
                assert(r[p].1 >= r[j - 1].1);
            } else {
                assert(out[i] == r[i - 1]);
                assert(out[j] == r[j - 1]);
            }
        }
    }
}

/// A ranking holds exactly the entries given, as many times each.
pub proof fn lemma_ranking_permutation(entries: Seq<(u64, u64)>)
    ensures
        ranking(entries).to_multiset() == entries.to_multiset(),
    decreases entries.len(),
{
    broadcast use vstd::seq_lib::group_to_multiset_ensures;

    if entries.len() == 0 {
    } else {
        let r = ranking(entries.drop_last());
        let e = entries.last();
        lemma_ranking_permutation(entries.drop_last());
        lemma_join_position(r, e.1);
        let p = join_position(r, e.1);
        r.insert_ensures(p, e);
        let out = r.insert(p, e);
        assert(out.remove(p) =~= r);
        assert(out.to_multiset().remove(e) == r.to_multiset());
        assert(out.to_multiset().count(e) > 0) by {
            assert(out.contains(e)) by {
                assert(out[p] == e);
            }
        }
        assert(entries.drop_last().push(e) =~= entries);
        assert(out.to_multiset() =~= r.to_multiset().insert(e));
    }
}

/// A ranking keeps entries with equal chips in the order they were given.
pub proof fn lemma_ranking_stable(entries: Seq<(u64, u64)>, chips: u64)
    ensures
        ranking(entries).filter(with_chips(chips)) == entries.filter(with_chips(chips)),
    decreases entries.len(),
{
    broadcast use vstd::seq_lib::group_seq_properties;

    let pred = with_chips(chips);
    if entries.len() > 0 {
        let r = ranking(entries.drop_last());
        let e = entries.last();
        lemma_ranking_stable(entries.drop_last(), chips);
        lemma_ranking_sorted(entries.drop_last());
        lemma_join_position(r, e.1);
        let p = join_position(r, e.1);
        let front = r.subrange(0, p);
        let back = r.subrange(p, r.len() as int);
        assert(r =~= front + back);
        assert(r.insert(p, e) =~= front.push(e) + back);
        Seq::filter_distributes_over_add(front, back, pred);
        Seq::filter_distributes_over_add(front.push(e), back, pred);
        front.lemma_filter_push(e, pred);
        assert(entries =~= entries.drop_last().push(e));
        entries.drop_last().lemma_filter_push(e, pred);
        if e.1 == chips {
            assert(back.all(|x: (u64, u64)| !pred(x))) by {
                assert forall|k: int| 0 <= k < back.len() implies !pred(#[trigger] back[k]) by {
                    assert(back[k] == r[p + k]);
                    assert(r[p].1 < e.1);
                    assert(r[p].1 >= r[p + k].1);
                }
            }
            back.lemma_all_neg_filter_empty(pred);
            assert(back.filter(pred) =~= Seq::<(u64, u64)>::empty());
        }
    }
}

/// Ranks players by their tournament chips, most first; players with equal
/// chips keep the order they were given in.
pub fn rank_by_chips(entries: &[(u64, u64)]) -> (r: Vec<(u64, u64)>)
    ensures
        r@ == ranking(entries@),
{
    let mut r: Vec<(u64, u64)> = Vec::new();
    let mut i: usize = 0;
    while i < entries.len()
        invariant
            i <= entries.len(),
            r@ == ranking(entries@.take(i as int)),
        decreases entries.len() - i,
    {
        let e = entries[i];
        proof {
            lemma_ranking_len(entries@.take(i as int));
        }
        let mut p: usize = 0;
        while p < r.len() && r[p].1 >= e.1
            invariant
                p <= r.len(),
                forall|j: int| 0 <= j < p ==> r@[j].1 >= e.1,
            decreases r.len() - p,
        {
            p = p + 1;
        }
        proof {
            lemma_join_position_at(r@, e.1, p as int);
            assert(entries@.take(i + 1).drop_last() =~= entries@.take(i as int));
            assert(entries@.take(i + 1).last() == e);
        }
        r.insert(p, e);
        i = i + 1;
    }
    proof {
        assert(entries@.take(entries@.len() as int) =~= entries@);
    }
    r
}

/// A player's account once a tournament is over: the tournament stack and
/// modifier pools emptied, every modifier switched off; the cash stack and
/// pools untouched.
pub fn close_tournament_account(account: &PlayerAccount) -> (a: PlayerAccount)
    ensures
        a == (PlayerAccount {
            tournament_chips: 0,
            tournament_shields: 0,
            tournament_doubles: 0,
            active_shield: false,
            active_double: false,
            active_super: false,
            ..*account
        }),
{
    PlayerAccount {
        tournament_chips: 0,
        tournament_shields: 0,
        tournament_doubles: 0,
        active_shield: false,
        active_double: false,
        active_super: false,
        ..*account
    }
}

} // verus!
