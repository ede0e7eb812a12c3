//! Decisions of the execution layer that depend on nothing but their inputs:
//! reading the progressive bets out of finished sessions, the progressive
//! jackpot meters, and the integer square root used for liquidity shares.
//! The layer keeps the writes of a block pending over the state store and
//! hands them over, in key order, when the block is committed.

use crate::casino::common::{be_u64, rank_ace_high, read_u64_be, sat_add, sat_mul, sat_sub, saturating_mul_u64};
use crate::casino::three_card::{evaluate_hand, high_cards, triple};
use crate::casino::ultimate_holdem::{evaluate_5_card_fast, rank5, HandRank};
use crate::casino::session::{GameSession, GameType};
use crate::casino::GameResult;
use crate::state::{
    btree_entries, entry_keys, expected_nonce, key_laws, lemma_overlay_delete, lemma_overlay_empty,
    lemma_overlay_update, lists, nonce_check, overlay, prepare_account, read_through, PrepareError, State, Status,
};
use std::collections::BTreeMap;
use vstd::prelude::*;

verus! {

/// Base of the Three Card Poker progressive meter.
pub const THREE_CARD_PROGRESSIVE_BASE_JACKPOT: u64 = crate::casino::three_card::THREE_CARD_PROGRESSIVE_BASE_JACKPOT;

/// Base of the Ultimate Texas Hold'em progressive meter.
pub const UTH_PROGRESSIVE_BASE_JACKPOT: u64 = crate::casino::ultimate_holdem::UTH_PROGRESSIVE_BASE_JACKPOT;

/// Which share of the Ultimate Texas Hold'em meter a hand wins.
#[derive(Clone, Copy, Debug, PartialEq, Eq, Structural)]
pub enum UthJackpotTier {
    Nothing,
    StraightFlush,
    RoyalFlush,
}

/// The big-endian `u64` at `offset`, if the bytes reach that far.
pub fn parse_u64_be_at(bytes: &[u8], offset: usize) -> (r: Option<u64>)
    requires
        offset + 8 <= usize::MAX,
    ensures
        offset + 8 <= bytes@.len() ==> r == Some(be_u64(bytes@.subrange(offset as int, offset + 8))),
        offset + 8 > bytes@.len() ==> r is None,
{
    if offset + 8 > bytes.len() {
        return None;
    }
    Some(read_u64_be(bytes, offset))
}

/// The progressive bet and player cards of a Three Card Poker blob: the
/// cards at bytes 2-4, the bet at byte 24 of a version 3 (or later) blob long
/// enough to hold it, else none.
pub open spec fn three_card_progressive_state(b: Seq<u8>) -> Option<(u64, (u8, u8, u8))> {
    if b.len() < 5 {
        None
    } else {
        let bet = if b[0] >= 3 && b.len() >= 32 {
            be_u64(b.subrange(24, 32))
        } else {
            0
        };
        Some((bet, (b[2], b[3], b[4])))
    }
}

/// Reads the progressive bet and player cards out of a Three Card Poker blob.
pub fn parse_three_card_progressive_state(state_blob: &[u8]) -> (r: Option<(u64, [u8; 3])>)
    ensures
        match three_card_progressive_state(state_blob@) {
            Some(s) => r matches Some(v) && v.0 == s.0 && triple(v.1) == s.1,
            None => r is None,
        },
{
    if state_blob.len() < 5 {
        return None;
    }
    let version = state_blob[0];
    let player: [u8; 3] = [state_blob[2], state_blob[3], state_blob[4]];
    let progressive_bet = if version >= 3 {
        match parse_u64_be_at(state_blob, 24) {
            Some(v) => v,
            None => 0,
        }
    } else {
        0
    };
    Some((progressive_bet, player))
}

/// A mini-royal in spades: three dealt spades ranking ace, king, queen.
pub open spec fn mini_royal_spades(c: (u8, u8, u8)) -> bool {
    &&& c.0 < 52 && c.1 < 52 && c.2 < 52
    &&& c.0 / 13 == 0 && c.1 / 13 == 0 && c.2 / 13 == 0
    &&& high_cards(c) == (14u8, 13u8, 12u8)
}

/// Whether three cards are a mini-royal in spades.
pub fn is_three_card_mini_royal_spades(cards: &[u8; 3]) -> (b: bool)
    ensures
        b == mini_royal_spades(triple(*cards)),
{
    if !(cards[0] < 52 && cards[1] < 52 && cards[2] < 52) {
        return false;
    }
    if !(card_suit(cards[0]) == 0 && card_suit(cards[1]) == 0 && card_suit(cards[2]) == 0) {
        return false;
    }
    let ranks = evaluate_hand(cards).1;
    ranks[0] == 14 && ranks[1] == 13 && ranks[2] == 12
}

/// The progressive bet, hole cards and flop of an Ultimate Texas Hold'em
/// blob: hole cards at bytes 2-3, flop at 4-6, the bet at byte 32 of a
/// version 3 (or later) blob long enough to hold it, else none.
pub open spec fn uth_progressive_state(b: Seq<u8>) -> Option<(u64, Seq<u8>, Seq<u8>)> {
    if b.len() < 7 {
        None
    } else {
        let bet = if b[0] >= 3 && b.len() >= 40 {
            be_u64(b.subrange(32, 40))
        } else {
            0
        };
        Some((bet, b.subrange(2, 4), b.subrange(4, 7)))
    }
}

/// Reads the progressive bet, hole cards and flop out of an Ultimate Texas
/// Hold'em blob.
pub fn parse_uth_progressive_state(state_blob: &[u8]) -> (r: Option<(u64, [u8; 2], [u8; 3])>)
    ensures
        match uth_progressive_state(state_blob@) {
            Some(s) => r matches Some(v) && v.0 == s.0 && v.1@ == s.1 && v.2@ == s.2,
            None => r is None,
        },
{
    if state_blob.len() < 7 {
        return None;
    }
    let version = state_blob[0];
    let hole: [u8; 2] = [state_blob[2], state_blob[3]];
    let flop: [u8; 3] = [state_blob[4], state_blob[5], state_blob[6]];
    assert(hole@ =~= state_blob@.subrange(2, 4));
    assert(flop@ =~= state_blob@.subrange(4, 7));
    let progressive_bet = if version >= 3 {
        match parse_u64_be_at(state_blob, 32) {
            Some(v) => v,
            None => 0,
        }
    } else {
        0
    };
    Some((progressive_bet, hole, flop))
}

/// The meter share of hole cards and flop: a royal flush or a straight flush
/// among five dealt cards, else nothing.
pub open spec fn jackpot_tier(hole: Seq<u8>, flop: Seq<u8>) -> UthJackpotTier {
    let cards = hole + flop;
    if !(cards[0] < 52 && cards[1] < 52 && cards[2] < 52 && cards[3] < 52 && cards[4] < 52) {
        UthJackpotTier::Nothing
    } else {
        match rank5(cards) {
            HandRank::RoyalFlush => UthJackpotTier::RoyalFlush,
            HandRank::StraightFlush => UthJackpotTier::StraightFlush,
            _ => UthJackpotTier::Nothing,
        }
    }
}

/// The meter share won by hole cards and a flop.
pub fn uth_progressive_jackpot_tier(hole: &[u8; 2], flop: &[u8; 3]) -> (t: UthJackpotTier)
    ensures
        t == jackpot_tier(hole@, flop@),
{
    let cards: [u8; 5] = [hole[0], hole[1], flop[0], flop[1], flop[2]];
    assert(cards@ =~= hole@ + flop@);
    if !(cards[0] < 52 && cards[1] < 52 && cards[2] < 52 && cards[3] < 52 && cards[4] < 52) {
        return UthJackpotTier::Nothing;
    }
    match evaluate_5_card_fast(&cards).0 {
        HandRank::RoyalFlush => UthJackpotTier::RoyalFlush,
        HandRank::StraightFlush => UthJackpotTier::StraightFlush,
        _ => UthJackpotTier::Nothing,
    }
}

/// Card rank (2-14, ace = 14).
pub fn card_rank_ace_high(card: u8) -> (r: u8)
    ensures
        r == rank_ace_high(card),
{
    let r = (card % 13) + 1;
    if r == 1 {
        14
    } else {
        r
    }
}

/// Card suit.
pub fn card_suit(card: u8) -> (s: u8)
    ensures
        s == card / 13,
{
    card / 13
}

/// Larger of a meter and its base.
pub open spec fn at_least(meter: u64, base: u64) -> int {
    if meter >= base {
        meter as int
    } else {
        base as int
    }
}

/// A win raised by a jackpot share, when there is one.
pub open spec fn with_share(result: GameResult, delta: int) -> GameResult {
    match result {
        GameResult::Win(p) => if delta > 0 {
            GameResult::Win(sat_add(p as int, delta) as u64)
        } else {
            result
        },
        _ => result,
    }
}

/// The Three Card Poker meter after a finished session with a progressive
/// bet, and the result: the meter (at least its base) grows by the bet; a
/// winning session with a mini-royal in spades also takes the meter above
/// the base, per unit bet, and the meter falls back to the base.
pub open spec fn three_card_meter(meter: u64, bet: u64, cards: (u8, u8, u8), result: GameResult) -> (u64, GameResult) {
    let base = THREE_CARD_PROGRESSIVE_BASE_JACKPOT;
    let jackpot = sat_add(at_least(meter, base), bet as int);
    let hit = result is Win && mini_royal_spades(cards);
    let delta = if hit {
        sat_mul(bet as int, sat_sub(jackpot, base as int))
    } else {
        0
    };
    (if hit {
        base
    } else {
        jackpot as u64
    }, with_share(result, delta))
}

/// The Ultimate Texas Hold'em meter after a finished session with a
/// progressive bet, and the result: the meter (at least its base) grows by
/// the bet; a winning royal flush takes the meter above the base and resets
/// it, a winning straight flush takes a tenth of the meter above a tenth of
/// the base.
pub open spec fn uth_meter(meter: u64, bet: u64, hole: Seq<u8>, flop: Seq<u8>, result: GameResult) -> (u64, GameResult) {
    let base = UTH_PROGRESSIVE_BASE_JACKPOT;
    let jackpot = sat_add(at_least(meter, base), bet as int);
    let tier = if result is Win {
        jackpot_tier(hole, flop)
    } else {
        UthJackpotTier::Nothing
    };
    let delta = match tier {
        UthJackpotTier::RoyalFlush => sat_mul(bet as int, sat_sub(jackpot, base as int)),
        UthJackpotTier::StraightFlush => sat_mul(bet as int, sat_sub(jackpot / 10, (base / 10) as int)),
        UthJackpotTier::Nothing => 0,
    };
    (if tier == UthJackpotTier::RoyalFlush {
        base
    } else {
        jackpot as u64
    }, with_share(result, delta))
}

/// The progressive meters of the house.
#[derive(Clone, Copy, Debug, PartialEq, Eq, Structural)]
pub struct ProgressiveMeters {
    pub three_card: u64,
    pub uth: u64,
}

/// Meters and result after a session ends: only a finished cash session of
/// Three Card Poker or Ultimate Texas Hold'em with a progressive bet touches
/// its game's meter.
pub open spec fn meters_after(m: ProgressiveMeters, s: GameSession, result: GameResult) -> (ProgressiveMeters, GameResult) {
    if s.is_tournament || !s.is_complete {
        (m, result)
    } else if s.game_type == GameType::ThreeCard {
        match three_card_progressive_state(s.state_blob@) {
            Some(st) => if st.0 == 0 {
                (m, result)
            } else {
                let o = three_card_meter(m.three_card, st.0, st.1, result);
                (ProgressiveMeters { three_card: o.0, ..m }, o.1)
            },
            None => (m, result),
        }
    } else if s.game_type == GameType::UltimateHoldem {
        match uth_progressive_state(s.state_blob@) {
            Some(st) => if st.0 == 0 {
                (m, result)
            } else {
                let o = uth_meter(m.uth, st.0, st.1, st.2, result);
                (ProgressiveMeters { uth: o.0, ..m }, o.1)
            },
            None => (m, result),
        }
    } else {
        (m, result)
    }
}

/// A win raised by a jackpot share.
fn add_share(result: GameResult, delta: u64) -> (r: GameResult)
    ensures
        r == with_share(result, delta as int),
{
    match result {
        GameResult::Win(p) => if delta > 0 {
            GameResult::Win(p.saturating_add(delta))
        } else {
            result
        },
        _ => result,
    }
}

/// Updates the Three Card Poker meter for a finished session.
pub fn apply_three_card_progressive_meter(meter: u64, bet: u64, cards: &[u8; 3], result: GameResult) -> (r: (u64, GameResult))
    ensures
        r == three_card_meter(meter, bet, triple(*cards), result),
{
    let base = THREE_CARD_PROGRESSIVE_BASE_JACKPOT;
    let mut jackpot = if meter >= base {
        meter
    } else {
        base
    };
    jackpot = jackpot.saturating_add(bet);
    let can_adjust = match result {
        GameResult::Win(_) => true,
        _ => false,
    };
    let is_jackpot = can_adjust && is_three_card_mini_royal_spades(cards);
    let delta = if is_jackpot {
        saturating_mul_u64(bet, jackpot.saturating_sub(base))
    } else {
        0
    };
    let new_meter = if is_jackpot {
        base
    } else {
        jackpot
    };
    (new_meter, add_share(result, delta))
}

/// Updates the Ultimate Texas Hold'em meter for a finished session.
pub fn apply_uth_progressive_meter(meter: u64, bet: u64, hole: &[u8; 2], flop: &[u8; 3], result: GameResult) -> (r: (u64, GameResult))
    ensures
        r == uth_meter(meter, bet, hole@, flop@, result),
{
    let base = UTH_PROGRESSIVE_BASE_JACKPOT;
    let mut jackpot = if meter >= base {
        meter
    } else {
        base
    };
    jackpot = jackpot.saturating_add(bet);
    let can_adjust = match result {
        GameResult::Win(_) => true,
        _ => false,
    };
    let tier = if can_adjust {
        uth_progressive_jackpot_tier(hole, flop)
    } else {
        UthJackpotTier::Nothing
    };
    let delta = match tier {
        UthJackpotTier::RoyalFlush => saturating_mul_u64(bet, jackpot.saturating_sub(base)),
        UthJackpotTier::StraightFlush => {
            let desired = jackpot / 10;
            let current = base / 10;
            saturating_mul_u64(bet, desired.saturating_sub(current))
        },
        UthJackpotTier::Nothing => 0,
    };
    let new_meter = if tier == UthJackpotTier::RoyalFlush {
        base
    } else {
        jackpot
    };
    (new_meter, add_share(result, delta))
}

/// Applies the progressive meters to the result of a session that just ended.
pub fn apply_progressive_meters_for_completion(
    meters: &mut ProgressiveMeters,
    session: &GameSession,
    result: GameResult,
) -> (r: GameResult)
    ensures
        (*final(meters), r) == meters_after(*old(meters), *session, result),
{
    if session.is_tournament || !session.is_complete {
        return result;
    }
    if session.game_type == GameType::ThreeCard {
        match parse_three_card_progressive_state(session.state_blob.as_slice()) {
            Some((bet, cards)) => {
                if bet == 0 {
                    return result;
                }
                let (m, r) = apply_three_card_progressive_meter(meters.three_card, bet, &cards, result);
                meters.three_card = m;
                r
            },
            None => result,
        }
    } else if session.game_type == GameType::UltimateHoldem {
        match parse_uth_progressive_state(session.state_blob.as_slice()) {
            Some((bet, hole, flop)) => {
                if bet == 0 {
                    return result;
                }
                let (m, r) = apply_uth_progressive_meter(meters.uth, bet, &hole, &flop, result);
                meters.uth = m;
                r
            },
            None => result,
        }
    } else {
        result
    }
}

/// A progressive meter never ends below its base, and a session that does not
/// win leaves its result unchanged.
pub proof fn lemma_meters_after(m: ProgressiveMeters, s: GameSession, result: GameResult)
    requires
        m.three_card >= THREE_CARD_PROGRESSIVE_BASE_JACKPOT,
        m.uth >= UTH_PROGRESSIVE_BASE_JACKPOT,
    ensures
        meters_after(m, s, result).0.three_card >= THREE_CARD_PROGRESSIVE_BASE_JACKPOT,
        meters_after(m, s, result).0.uth >= UTH_PROGRESSIVE_BASE_JACKPOT,
        !(result is Win) ==> meters_after(m, s, result).1 == result,
{
}

/// One Newton step from `x` never goes below a number whose square is at
/// most `v`: with `q = v / x`, `x + q >= 2 s`.
proof fn lemma_newton_step(v: int, x: int, q: int, s: int)
    requires
        x > 0,
        q >= 0,
        s >= 0,
        q * x <= v,
        v < (q + 1) * x,
        s * s <= v,
    ensures
        x + q >= 2 * s,
{
    if x + q + 1 <= 2 * s {
        assert((x - (q + 1)) * (x - (q + 1)) >= 0) by (nonlinear_arith);
        assert(4 * x * (q + 1) <= (x + q + 1) * (x + q + 1)) by (nonlinear_arith)
            requires
                (x - (q + 1)) * (x - (q + 1)) >= 0,
        ;
        assert((x + q + 1) * (x + q + 1) <= 4 * s * s) by (nonlinear_arith)
            requires
                0 <= x + q + 1 <= 2 * s,
        ;
        assert(4 * v < 4 * (q + 1) * x) by (nonlinear_arith)
            requires
                v < (q + 1) * x,
        ;
        assert(false) by (nonlinear_arith)
            requires
                4 * x * (q + 1) <= (x + q + 1) * (x + q + 1),
                (x + q + 1) * (x + q + 1) <= 4 * s * s,
                s * s <= v,
                4 * v < 4 * (q + 1) * x,
        ;
    }
}

/// For `1 <= x <= v`, `x + v / x <= v + 1`: a Newton step cannot overflow.
proof fn lemma_newton_sum_bound(v: int, x: int, q: int)
    requires
        1 <= x <= v,
        q >= 0,
        q * x <= v,
    ensures
        x + q <= v + 1,
{
    if q >= v + 2 - x {
        assert(q * x >= (v + 2 - x) * x) by (nonlinear_arith)
            requires
                q >= v + 2 - x,
                x >= 1,
        ;
        assert((v + 2 - x) * x - (v + 1) == (x - 1) * (v - x + 1)) by (nonlinear_arith);
        assert((x - 1) * (v - x + 1) >= 0) by (nonlinear_arith)
            requires
                1 <= x <= v,
        ;
    }
}

/// Whether the square of `s` is at most `v`.
pub open spec fn square_at_most(s: int, v: int) -> bool {
    s * s <= v
}

/// Integer square root by Newton's iteration: the largest `r` with
/// `r * r <= value`.
pub fn integer_sqrt(value: u128) -> (r: u64)
    requires
        value < u128::MAX,
    ensures
        r * r <= value,
        value < (r + 1) * (r + 1),
{
    if value == 0 {
        return 0;
    }
    let mut x: u128 = value;
    let mut y: u128 = (x + 1) / 2;
    proof {
        assert(value / value == 1) by (nonlinear_arith)
            requires
                value > 0,
        ;
        assert forall|s: int| 0 <= s && #[trigger] square_at_most(s, value as int) implies s <= value by {
            if s >= 1 {
                assert(s <= s * s) by (nonlinear_arith)
                    requires
                        s >= 1,
                ;
            }
        }
    }
    while y < x
        invariant
            0 < x <= value,
            value < u128::MAX,
            y == (x + value / x) / 2,
            forall|s: int| 0 <= s && #[trigger] square_at_most(s, value as int) ==> s <= x,
        decreases x,
    {
        proof {
            let q0 = value / x;
            assert(q0 * x <= value && value < (q0 + 1) * x) by (nonlinear_arith)
                requires
                    q0 == value / x,
                    x > 0,
            ;
            assert forall|s: int| 0 <= s && #[trigger] square_at_most(s, value as int) implies s <= y by {
                lemma_newton_step(value as int, x as int, q0 as int, s);
            }
            assert(square_at_most(1, value as int));
        }
        x = y;
        let q = value / x;
        proof {
            assert(q * x <= value && value < (q + 1) * x) by (nonlinear_arith)
                requires
                    q == value / x,
                    x > 0,
            ;
            lemma_newton_sum_bound(value as int, x as int, q as int);
        }
        y = (x + q) / 2;
    }
    proof {
        let q = value / x;
        assert(q * x <= value && value < (q + 1) * x) by (nonlinear_arith)
            requires
                q == value / x,
                x > 0,
        ;
        if x * x > value {
            assert(q < x) by (nonlinear_arith)
                requires
                    q * x <= value,
                    value < x * x,
                    x > 0,
            ;
        }
        assert(x * x <= value);
        let s = x + 1;
        if square_at_most(s as int, value as int) {
            assert(s <= x);
        }
        assert(x < 0x1_0000_0000_0000_0000) by (nonlinear_arith)
            requires
                x * x <= value,
                value < u128::MAX,
        ;
    }
    x as u64
}

/// The state as a block's transactions see it: their writes, pending over
/// the store, and the view of the block.
pub struct Layer<'a, K, V, S> {
    state: &'a S,
    pending: BTreeMap<K, Status<V>>,
    view: u64,
}

impl<'a, K: Ord + std::hash::Hash, V, S: State<K, V>> Layer<'a, K, V, S> {
    /// The store below.
    pub closed spec fn base(&self) -> Map<K, V> {
        self.state.contents()
    }

    /// The writes pending over it.
    pub closed spec fn changes(&self) -> Map<K, Status<V>> {
        self.pending@
    }

    /// The view of the block.
    pub closed spec fn block_view(&self) -> u64 {
        self.view
    }

    /// A layer over `state` for the block of `view`, with nothing written yet.
    pub fn new(state: &'a S, view: u64) -> (l: Self)
        ensures
            l.base() == state.contents(),
            l.changes() == Map::<K, Status<V>>::empty(),
            l.block_view() == view,
            l.contents() == state.contents(),
    {
        let l = Layer { state, pending: BTreeMap::new(), view };
        proof {
            lemma_overlay_empty::<K, V>(state.contents());
        }
        l
    }

    /// The view of the block.
    pub fn view(&self) -> (v: u64)
        ensures
            v == self.block_view(),
    {
        self.view
    }

    /// The layer reads as its pending writes over the store below.
    pub proof fn lemma_reads(&self)
        ensures
            self.contents() == overlay(self.base(), self.changes()),
    {
    }

    /// The pending writes, each key once, in increasing key order.
    pub fn commit(self) -> (r: Vec<(K, Status<V>)>)
        requires
            key_laws::<K>(),
        ensures
            lists(self.changes(), r@),
            vstd::std_specs::btree::increasing_seq(entry_keys(r@)),
    {
        btree_entries(self.pending)
    }
}

impl<'a, S: State<u64, u64>> Layer<'a, u64, u64, S> {
    /// Admits a transaction of `account` carrying `nonce` before it runs:
    /// refused unless the nonce is the account's expected one, which it then
    /// advances. The accounts here are held by id, each with its nonce.
    pub fn prepare(&mut self, account: u64, nonce: u64) -> (r: Result<(), PrepareError>)
        requires
            expected_nonce(old(self).contents(), account) == nonce ==> nonce < u64::MAX,
        ensures
            match nonce_check(expected_nonce(old(self).contents(), account), nonce) {
                Ok(next) => r is Ok && final(self).contents() == old(self).contents().insert(account, next),
                Err(e) => r == Err::<(), PrepareError>(e) && final(self).contents() == old(self).contents(),
            },
    {
        prepare_account(self, account, nonce)
    }
}

impl<'a, K: Ord + std::hash::Hash, V, S: State<K, V>> State<K, V> for Layer<'a, K, V, S> {
    closed spec fn contents(&self) -> Map<K, V> {
        overlay(self.state.contents(), self.pending@)
    }

    fn get(&self, key: &K) -> (r: Option<&V>) {
        read_through(self.state, &self.pending, key)
    }

    fn insert(&mut self, key: K, value: V) {
        proof {
            lemma_overlay_update(self.state.contents(), self.pending@, key, value);
        }
        self.pending.insert(key, Status::Update(value));
    }

    fn delete(&mut self, key: K) {
        proof {
            lemma_overlay_delete::<K, V>(self.state.contents(), self.pending@, key);
        }
        self.pending.insert(key, Status::Delete);
    }
}

} // verus!
