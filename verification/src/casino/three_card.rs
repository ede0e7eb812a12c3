//! Three Card Poker.
//!
//! Bets: the ante (the session bet, taken when the session starts), an optional
//! Pairplus, 6-card bonus and progressive side bet (placed before the deal), and
//! the play bet (equal to the ante, taken when the player plays). The dealer
//! qualifies with Q-6-4 or better; the ante bonus pays straight flush 5, trips 4,
//! straight 1 whenever the player plays.
//!
//! State blob, version 3 (32 bytes): `[3] [stage] [player cards: 3] [dealer
//! cards: 3] [pairplus:u64 BE] [six-card bonus:u64 BE] [progressive:u64 BE]`;
//! version 2 (24 bytes) lacks the progressive bet, version 1 (16 bytes) also the
//! six-card bonus. A card not dealt yet is `0xFF`. Stages: 0 betting, 1 decision,
//! 2 awaiting reveal, 3 complete.
//!
//! Payload: `[move] [amount:u64 BE]?` with moves 0 play, 1 fold, 2 deal (with an
//! optional Pairplus amount), 3 set Pairplus, 4 reveal, 5 set 6-card bonus,
//! 6 set progressive.

use super::common::{be_u64, rank_ace_high, read_u64_be, sat_add, sat_mul, saturating_mul_u64, u64_as_i64, u64_be_bytes, push_u64_be, wrap_i64, lemma_u64_be_roundtrip};
use super::rng::{card_draw, draw_from, lemma_remove_each_len, ordered_deck, ordered_shoe, remove_each, shuffled, GameRng, RngPoint};
use super::session::{session_fields_kept, GameSession, SuperMultiplier};
use super::super_mode::{apply_super_multiplier_cards, cards_product};
use super::{CasinoGame, GameError, GameResult};
use vstd::prelude::*;

verus! {

/// Version byte of the oldest state blob.
pub const STATE_VERSION_V1: u8 = 1;

/// Version byte of the blob with the six-card bonus.
pub const STATE_VERSION_V2: u8 = 2;

/// Version byte of the current blob.
pub const STATE_VERSION_V3: u8 = 3;

/// Marker of a card not dealt yet.
pub const CARD_UNKNOWN: u8 = 0xFF;

/// Length of a version 1 blob.
pub const STATE_LEN_V1: usize = 16;

/// Length of a version 2 blob.
pub const STATE_LEN_V2: usize = 24;

/// Length of a version 3 blob.
pub const STATE_LEN_V3: usize = 32;

/// The only progressive wager besides none.
pub const PROGRESSIVE_BET_UNIT: u64 = 1;

/// Base jackpot of the progressive, paid per unit on a mini-royal in spades.
pub const THREE_CARD_PROGRESSIVE_BASE_JACKPOT: u64 = 10_000;

/// Stages.
#[derive(Clone, Copy, Debug, PartialEq, Eq, Structural)]
pub enum Stage {
    Betting,
    Decision,
    AwaitingReveal,
    Complete,
}

/// Player moves.
#[derive(Clone, Copy, Debug, PartialEq, Eq, Structural)]
pub enum Move {
    Play,
    Fold,
    Deal,
    SetPairPlus,
    Reveal,
    SetSixCardBonus,
    SetProgressive,
}

/// Stage of a wire code.
pub open spec fn stage_of(v: u8) -> Option<Stage> {
    if v == 0 {
        Some(Stage::Betting)
    } else if v == 1 {
        Some(Stage::Decision)
    } else if v == 2 {
        Some(Stage::AwaitingReveal)
    } else if v == 3 {
        Some(Stage::Complete)
    } else {
        None
    }
}

/// Wire code of a stage.
pub open spec fn stage_code(s: Stage) -> u8 {
    match s {
        Stage::Betting => 0,
        Stage::Decision => 1,
        Stage::AwaitingReveal => 2,
        Stage::Complete => 3,
    }
}

/// Move of a wire code.
pub open spec fn move_of(v: u8) -> Option<Move> {
    if v == 0 {
        Some(Move::Play)
    } else if v == 1 {
        Some(Move::Fold)
    } else if v == 2 {
        Some(Move::Deal)
    } else if v == 3 {
        Some(Move::SetPairPlus)
    } else if v == 4 {
        Some(Move::Reveal)
    } else if v == 5 {
        Some(Move::SetSixCardBonus)
    } else if v == 6 {
        Some(Move::SetProgressive)
    } else {
        None
    }
}

impl Stage {
    /// The stage with wire code `value`, or `InvalidPayload`.
    pub fn try_from(value: u8) -> (r: Result<Stage, GameError>)
        ensures
            r == match stage_of(value) {
                Some(s) => Ok(s),
                None => Err(GameError::InvalidPayload),
            },
    {
        match value {
            0 => Ok(Stage::Betting),
            1 => Ok(Stage::Decision),
            2 => Ok(Stage::AwaitingReveal),
            3 => Ok(Stage::Complete),
            _ => Err(GameError::InvalidPayload),
        }
    }

    /// Wire code of the stage.
    pub fn code(self) -> (c: u8)
        ensures
            c == stage_code(self),
    {
        match self {
            Stage::Betting => 0,
            Stage::Decision => 1,
            Stage::AwaitingReveal => 2,
            Stage::Complete => 3,
        }
    }
}

impl Move {
    /// The move with wire code `value`, or `InvalidPayload`.
    pub fn try_from(value: u8) -> (r: Result<Move, GameError>)
        ensures
            r == match move_of(value) {
                Some(m) => Ok(m),
                None => Err(GameError::InvalidPayload),
            },
    {
        match value {
            0 => Ok(Move::Play),
            1 => Ok(Move::Fold),
            2 => Ok(Move::Deal),
            3 => Ok(Move::SetPairPlus),
            4 => Ok(Move::Reveal),
            5 => Ok(Move::SetSixCardBonus),
            6 => Ok(Move::SetProgressive),
            _ => Err(GameError::InvalidPayload),
        }
    }
}

// ============================================================================
// Three-card hands
// ============================================================================

/// Three-card hand rankings, weakest first.
#[derive(Clone, Copy, Debug, PartialEq, Eq, Structural)]
pub enum HandRank {
    HighCard,
    Pair,
    Flush,
    Straight,
    ThreeOfAKind,
    StraightFlush,
}

/// Strength of a hand rank: 0 for high card up to 5 for a straight flush.
pub open spec fn rank_level(r: HandRank) -> u8 {
    match r {
        HandRank::HighCard => 0,
        HandRank::Pair => 1,
        HandRank::Flush => 2,
        HandRank::Straight => 3,
        HandRank::ThreeOfAKind => 4,
        HandRank::StraightFlush => 5,
    }
}

/// Strength of a hand rank.
pub fn hand_rank_level(r: HandRank) -> (l: u8)
    ensures
        l == rank_level(r),
{
    match r {
        HandRank::HighCard => 0,
        HandRank::Pair => 1,
        HandRank::Flush => 2,
        HandRank::Straight => 3,
        HandRank::ThreeOfAKind => 4,
        HandRank::StraightFlush => 5,
    }
}

/// Outcome of comparing two hands.
#[derive(Clone, Copy, Debug, PartialEq, Eq, Structural)]
pub enum Comparison {
    Less,
    Equal,
    Greater,
}

/// Comparison of two numbers.
pub open spec fn compare_values(a: int, b: int) -> Comparison {
    if a < b {
        Comparison::Less
    } else if a == b {
        Comparison::Equal
    } else {
        Comparison::Greater
    }
}

/// Lexicographic comparison of two rank triples.
pub open spec fn compare_triples(a: (u8, u8, u8), b: (u8, u8, u8)) -> Comparison {
    if a.0 != b.0 {
        compare_values(a.0 as int, b.0 as int)
    } else if a.1 != b.1 {
        compare_values(a.1 as int, b.1 as int)
    } else {
        compare_values(a.2 as int, b.2 as int)
    }
}

/// Largest of three values.
pub open spec fn max3(a: u8, b: u8, c: u8) -> u8 {
    if a >= b && a >= c {
        a
    } else if b >= c {
        b
    } else {
        c
    }
}

/// Smallest of three values.
pub open spec fn min3(a: u8, b: u8, c: u8) -> u8 {
    if a <= b && a <= c {
        a
    } else if b <= c {
        b
    } else {
        c
    }
}

/// The ranks (ace high) of three cards in descending order.
pub open spec fn high_cards(c: (u8, u8, u8)) -> (u8, u8, u8) {
    let a = rank_ace_high(c.0);
    let b = rank_ace_high(c.1);
    let d = rank_ace_high(c.2);
    let hi = max3(a, b, d);
    let lo = min3(a, b, d);
    (hi, (a + b + d - hi - lo) as u8, lo)
}

/// Whether three cards share a suit.
pub open spec fn three_flush(c: (u8, u8, u8)) -> bool {
    c.0 / 13 == c.1 / 13 && c.1 / 13 == c.2 / 13
}

/// Whether descending ranks run in sequence (A-2-3 included).
pub open spec fn three_straight(h: (u8, u8, u8)) -> bool {
    (h.0 - h.2 == 2 && h.1 - h.2 == 1) || (h.2 == 2 && h.1 == 3 && h.0 == 14)
}

/// Rank of a three-card hand.
pub open spec fn three_rank(c: (u8, u8, u8)) -> HandRank {
    let h = high_cards(c);
    let flush = three_flush(c);
    let straight = three_straight(h);
    if straight && flush {
        HandRank::StraightFlush
    } else if h.0 == h.1 && h.1 == h.2 {
        HandRank::ThreeOfAKind
    } else if straight {
        HandRank::Straight
    } else if flush {
        HandRank::Flush
    } else if h.0 == h.1 || h.1 == h.2 || h.0 == h.2 {
        HandRank::Pair
    } else {
        HandRank::HighCard
    }
}

/// Order of two evaluated hands: by rank, then by the descending high cards.
pub open spec fn hand_order(a: (HandRank, (u8, u8, u8)), b: (HandRank, (u8, u8, u8))) -> Comparison {
    if rank_level(a.0) != rank_level(b.0) {
        compare_values(rank_level(a.0) as int, rank_level(b.0) as int)
    } else {
        compare_triples(a.1, b.1)
    }
}

/// Three-card hands rank, from the top: three suited cards in sequence (the
/// ace high or low), three of a kind, three in sequence, three suited, a
/// pair, and high card.
pub proof fn lemma_three_card_ranking(c: (u8, u8, u8))
    ensures
        ({
            let a = rank_ace_high(c.0) as int;
            let b = rank_ace_high(c.1) as int;
            let d = rank_ace_high(c.2) as int;
            let hi = if a >= b && a >= d {
                a
            } else if b >= d {
                b
            } else {
                d
            };
            let lo = if a <= b && a <= d {
                a
            } else if b <= d {
                b
            } else {
                d
            };
            let run = a != b && b != d && a != d && (hi - lo == 2 || (lo == 2 && hi == 14 && a + b
                + d == 19));
            let suited = c.0 / 13 == c.1 / 13 && c.1 / 13 == c.2 / 13;
            three_rank(c) == if run && suited {
                HandRank::StraightFlush
            } else if a == b && b == d {
                HandRank::ThreeOfAKind
            } else if run {
                HandRank::Straight
            } else if suited {
                HandRank::Flush
            } else if a == b || b == d || a == d {
                HandRank::Pair
            } else {
                HandRank::HighCard
            }
        }),
{
}

/// The paytables rise with the hand: Pairplus pays 1 to 1 on a pair, 3 on a
/// flush, 6 on a straight, 30 on three of a kind and 40 on a straight flush,
/// more for every stronger hand; the ante bonus pays 1 on a straight, 4 on
/// three of a kind and 5 on a straight flush, never less for a stronger hand.
/// The dealer qualifies with a pair or better, or with queen-six-four high or
/// better.
pub proof fn lemma_three_card_paytables(r1: HandRank, r2: HandRank, h: (u8, u8, u8))
    ensures
        rank_level(r1) < rank_level(r2) ==> pairplus_mult(r1) < pairplus_mult(r2),
        rank_level(r1) <= rank_level(r2) ==> ante_bonus_mult(r1) <= ante_bonus_mult(r2),
        pairplus_mult(HandRank::Pair) == 1 && pairplus_mult(HandRank::Flush) == 3
            && pairplus_mult(HandRank::Straight) == 6 && pairplus_mult(HandRank::ThreeOfAKind) == 30
            && pairplus_mult(HandRank::StraightFlush) == 40 && pairplus_mult(HandRank::HighCard) == 0,
        ante_bonus_mult(HandRank::Straight) == 1 && ante_bonus_mult(HandRank::ThreeOfAKind) == 4
            && ante_bonus_mult(HandRank::StraightFlush) == 5,
        qualifies((r1, h)) <==> (r1 != HandRank::HighCard || h.0 > 12 || (h.0 == 12 && (h.1 > 6 || (
        h.1 == 6 && h.2 >= 4)))),
{
}

/// The triple of an array of three.
pub open spec fn triple(a: [u8; 3]) -> (u8, u8, u8) {
    (a[0], a[1], a[2])
}

/// Card rank (2-14, ace = 14).
pub fn card_rank(card: u8) -> (r: u8)
    ensures
        r == rank_ace_high(card),
        2 <= r <= 14,
{
    let r = (card % 13) + 1;
    if r == 1 {
        14
    } else {
        r
    }
}

/// Card suit.
pub fn card_suit(card: u8) -> (s: u8)
    ensures
        s == card / 13,
{
    card / 13
}

/// Evaluate a 3-card hand: its rank and its ranks in descending order for
/// breaking ties.
pub fn evaluate_hand(cards: &[u8; 3]) -> (r: (HandRank, [u8; 3]))
    ensures
        r.0 == three_rank(triple(*cards)),
        triple(r.1) == high_cards(triple(*cards)),
{
    let a = card_rank(cards[0]);
    let b = card_rank(cards[1]);
    let c = card_rank(cards[2]);
    let hi = if a >= b && a >= c {
        a
    } else if b >= c {
        b
    } else {
        c
    };
    let lo = if a <= b && a <= c {
        a
    } else if b <= c {
        b
    } else {
        c
    };
    let mid = a + b + c - hi - lo;
    let high_cards = [hi, mid, lo];
    let is_flush = card_suit(cards[0]) == card_suit(cards[1]) && card_suit(cards[1]) == card_suit(
        cards[2],
    );
    let is_straight = (hi - lo == 2 && mid - lo == 1) || (lo == 2 && mid == 3 && hi == 14);
    let is_trips = hi == mid && mid == lo;
    let is_pair = hi == mid || mid == lo || hi == lo;
    let hand_rank = if is_straight && is_flush {
        HandRank::StraightFlush
    } else if is_trips {
        HandRank::ThreeOfAKind
    } else if is_straight {
        HandRank::Straight
    } else if is_flush {
        HandRank::Flush
    } else if is_pair {
        HandRank::Pair
    } else {
        HandRank::HighCard
    };
    (hand_rank, high_cards)
}

/// Comparison of two numbers.
fn compare_u8(a: u8, b: u8) -> (c: Comparison)
    ensures
        c == compare_values(a as int, b as int),
{
    if a < b {
        Comparison::Less
    } else if a == b {
        Comparison::Equal
    } else {
        Comparison::Greater
    }
}

/// Lexicographic comparison of two rank triples.
fn compare_high_cards(a: &[u8; 3], b: &[u8; 3]) -> (c: Comparison)
    ensures
        c == compare_triples(triple(*a), triple(*b)),
{
    if a[0] != b[0] {
        compare_u8(a[0], b[0])
    } else if a[1] != b[1] {
        compare_u8(a[1], b[1])
    } else {
        compare_u8(a[2], b[2])
    }
}

/// Compare two evaluated hands: rank first, then high cards.
pub fn compare_hands(h1: &(HandRank, [u8; 3]), h2: &(HandRank, [u8; 3])) -> (c: Comparison)
    ensures
        c == hand_order((h1.0, triple(h1.1)), (h2.0, triple(h2.1))),
{
    let l1 = hand_rank_level(h1.0);
    let l2 = hand_rank_level(h2.0);
    if l1 != l2 {
        compare_u8(l1, l2)
    } else {
        compare_high_cards(&h1.1, &h2.1)
    }
}

/// Ante bonus ("to 1"): straight flush 5, trips 4, straight 1.
pub open spec fn ante_bonus_mult(r: HandRank) -> u64 {
    match r {
        HandRank::StraightFlush => 5,
        HandRank::ThreeOfAKind => 4,
        HandRank::Straight => 1,
        _ => 0,
    }
}

/// Pairplus ("to 1"): straight flush 40, trips 30, straight 6, flush 3, pair 1.
pub open spec fn pairplus_mult(r: HandRank) -> u64 {
    match r {
        HandRank::StraightFlush => 40,
        HandRank::ThreeOfAKind => 30,
        HandRank::Straight => 6,
        HandRank::Flush => 3,
        HandRank::Pair => 1,
        HandRank::HighCard => 0,
    }
}

/// The ante bonus multiplier of a player hand.
pub fn ante_bonus_multiplier(hand_rank: HandRank) -> (m: u64)
    ensures
        m == ante_bonus_mult(hand_rank),
{
    match hand_rank {
        HandRank::StraightFlush => 5,
        HandRank::ThreeOfAKind => 4,
        HandRank::Straight => 1,
        _ => 0,
    }
}

/// The Pairplus multiplier of a player hand.
pub fn pairplus_multiplier(hand_rank: HandRank) -> (m: u64)
    ensures
        m == pairplus_mult(hand_rank),
{
    match hand_rank {
        HandRank::StraightFlush => 40,
        HandRank::ThreeOfAKind => 30,
        HandRank::Straight => 6,
        HandRank::Flush => 3,
        HandRank::Pair => 1,
        HandRank::HighCard => 0,
    }
}

/// The dealer qualifies with a pair or better, or a high card hand of at
/// least Q-6-4.
pub open spec fn qualifies(h: (HandRank, (u8, u8, u8))) -> bool {
    rank_level(h.0) >= 1 || compare_triples(h.1, (12, 6, 4)) != Comparison::Less
}

/// Whether the dealer's evaluated hand qualifies.
pub fn dealer_qualifies(dealer_hand: &(HandRank, [u8; 3])) -> (b: bool)
    ensures
        b == qualifies((dealer_hand.0, triple(dealer_hand.1))),
{
    if hand_rank_level(dealer_hand.0) >= 1 {
        return true;
    }
    let threshold: [u8; 3] = [12, 6, 4];
    compare_high_cards(&dealer_hand.1, &threshold) != Comparison::Less
}

// ============================================================================
// Side bets
// ============================================================================

/// Pairplus return (stake included) of a player hand: nothing when no bet or
/// no paying hand, else the stake times the multiplier plus one, saturating.
pub open spec fn pairplus_return(c: (u8, u8, u8), bet: u64) -> int {
    let m = pairplus_mult(three_rank(c));
    if bet == 0 || m == 0 {
        0
    } else {
        sat_mul(bet as int, m + 1)
    }
}

/// Resolve the Pairplus bet.
pub fn resolve_pairplus_return(player_cards: &[u8; 3], pairplus_bet: u64) -> (r: u64)
    ensures
        r == pairplus_return(triple(*player_cards), pairplus_bet),
{
    if pairplus_bet == 0 {
        return 0;
    }
    let player_hand = evaluate_hand(player_cards);
    let mult = pairplus_multiplier(player_hand.0);
    if mult == 0 {
        0
    } else {
        saturating_mul_u64(pairplus_bet, mult + 1)
    }
}

/// Five-card ranks of the 6-card bonus, weakest first.
#[derive(Clone, Copy, Debug, PartialEq, Eq, Structural)]
pub enum SixCardBonusRank {
    Nothing,
    ThreeOfAKind,
    Straight,
    Flush,
    FullHouse,
    FourOfAKind,
    StraightFlush,
    RoyalFlush,
}

/// Strength of a bonus rank: 0 for nothing up to 7 for a royal flush.
pub open spec fn bonus_level(r: SixCardBonusRank) -> u8 {
    match r {
        SixCardBonusRank::Nothing => 0,
        SixCardBonusRank::ThreeOfAKind => 1,
        SixCardBonusRank::Straight => 2,
        SixCardBonusRank::Flush => 3,
        SixCardBonusRank::FullHouse => 4,
        SixCardBonusRank::FourOfAKind => 5,
        SixCardBonusRank::StraightFlush => 6,
        SixCardBonusRank::RoyalFlush => 7,
    }
}

/// Strength of a bonus rank.
fn bonus_rank_level(r: SixCardBonusRank) -> (l: u8)
    ensures
        l == bonus_level(r),
{
    match r {
        SixCardBonusRank::Nothing => 0,
        SixCardBonusRank::ThreeOfAKind => 1,
        SixCardBonusRank::Straight => 2,
        SixCardBonusRank::Flush => 3,
        SixCardBonusRank::FullHouse => 4,
        SixCardBonusRank::FourOfAKind => 5,
        SixCardBonusRank::StraightFlush => 6,
        SixCardBonusRank::RoyalFlush => 7,
    }
}

/// How many entries of `rs` equal `r`.
pub open spec fn rank_count(rs: Seq<u8>, r: u8) -> nat
    decreases rs.len(),
{
    if rs.len() == 0 {
        0
    } else {
        rank_count(rs.drop_last(), r) + if rs.last() == r {
            1nat
        } else {
            0nat
        }
    }
}

/// Larger of two values.
pub open spec fn max2(a: u8, b: u8) -> u8 {
    if a >= b {
        a
    } else {
        b
    }
}

/// Smaller of two values.
pub open spec fn min2(a: u8, b: u8) -> u8 {
    if a <= b {
        a
    } else {
        b
    }
}

/// Rank of five cards for the 6-card bonus: counts of each rank decide
/// quads, a full house and trips; a straight needs five distinct ranks
/// spanning four (or A-2-3-4-5); a royal holds 10 through ace.
pub open spec fn bonus5(cards: Seq<u8>) -> SixCardBonusRank {
    let rs = cards.map_values(|c: u8| rank_ace_high(c));
    let n0 = rank_count(rs, rs[0]);
    let n1 = rank_count(rs, rs[1]);
    let n2 = rank_count(rs, rs[2]);
    let n3 = rank_count(rs, rs[3]);
    let n4 = rank_count(rs, rs[4]);
    let has = |r: u8| rank_count(rs, r) >= 1;
    let flush = cards[0] / 13 == cards[1] / 13 && cards[1] / 13 == cards[2] / 13 && cards[2] / 13
        == cards[3] / 13 && cards[3] / 13 == cards[4] / 13;
    let distinct = n0 == 1 && n1 == 1 && n2 == 1 && n3 == 1 && n4 == 1;
    let hi = max2(max2(max2(max2(rs[0], rs[1]), rs[2]), rs[3]), rs[4]);
    let lo = min2(min2(min2(min2(rs[0], rs[1]), rs[2]), rs[3]), rs[4]);
    let straight = distinct && (hi - lo == 4 || (has(2) && has(3) && has(4) && has(5) && has(14)));
    let royal = has(10) && has(11) && has(12) && has(13) && has(14);
    let quads = n0 == 4 || n1 == 4 || n2 == 4 || n3 == 4 || n4 == 4;
    let trips = n0 == 3 || n1 == 3 || n2 == 3 || n3 == 3 || n4 == 3;
    let pair = n0 == 2 || n1 == 2 || n2 == 2 || n3 == 2 || n4 == 2;
    if royal && flush {
        SixCardBonusRank::RoyalFlush
    } else if straight && flush {
        SixCardBonusRank::StraightFlush
    } else if quads {
        SixCardBonusRank::FourOfAKind
    } else if trips && pair {
        SixCardBonusRank::FullHouse
    } else if flush {
        SixCardBonusRank::Flush
    } else if straight {
        SixCardBonusRank::Straight
    } else if trips {
        SixCardBonusRank::ThreeOfAKind
    } else {
        SixCardBonusRank::Nothing
    }
}

/// The best bonus rank among the hands that leave out one of the first `n`
/// cards (the earliest of equal strength kept).
pub open spec fn best_bonus_upto(cards: Seq<u8>, n: nat) -> SixCardBonusRank
    decreases n,
{
    if n == 0 {
        SixCardBonusRank::Nothing
    } else {
        let prev = best_bonus_upto(cards, (n - 1) as nat);
        let cand = bonus5(cards.remove(n - 1));
        if bonus_level(cand) > bonus_level(prev) {
            cand
        } else {
            prev
        }
    }
}

/// The best five-card bonus rank of six cards.
pub open spec fn best_bonus(cards: Seq<u8>) -> SixCardBonusRank {
    best_bonus_upto(cards, 6)
}

/// How many of `ranks` equal `r`.
pub fn count_rank(ranks: &[u8; 5], r: u8) -> (n: u8)
    ensures
        n == rank_count(ranks@, r),
{
    let mut n: u8 = 0;
    let mut i: usize = 0;
    while i < 5
        invariant
            i <= 5,
            n == rank_count(ranks@.subrange(0, i as int), r),
            n <= i,
        decreases 5 - i,
    {
        proof {
            assert(ranks@.subrange(0, i as int + 1).drop_last() =~= ranks@.subrange(0, i as int));
        }
        if ranks[i] == r {
            n += 1;
        }
        i += 1;
    }
    assert(ranks@.subrange(0, 5) =~= ranks@);
    n
}

/// Whether `r` occurs among `ranks`.
pub fn has_rank(ranks: &[u8; 5], r: u8) -> (b: bool)
    ensures
        b == (rank_count(ranks@, r) >= 1),
{
    count_rank(ranks, r) >= 1
}

/// Evaluate five cards for the 6-card bonus.
pub fn evaluate_5_card_bonus_rank(cards: &[u8; 5]) -> (r: SixCardBonusRank)
    ensures
        r == bonus5(cards@),
{
    let ranks: [u8; 5] = [
        card_rank(cards[0]),
        card_rank(cards[1]),
        card_rank(cards[2]),
        card_rank(cards[3]),
        card_rank(cards[4]),
    ];
    let ghost rs = cards@.map_values(|c: u8| rank_ace_high(c));
    assert(ranks@ =~= rs);
    let is_flush = card_suit(cards[0]) == card_suit(cards[1]) && card_suit(cards[1]) == card_suit(
        cards[2],
    ) && card_suit(cards[2]) == card_suit(cards[3]) && card_suit(cards[3]) == card_suit(cards[4]);
    let n0 = count_rank(&ranks, ranks[0]);
    let n1 = count_rank(&ranks, ranks[1]);
    let n2 = count_rank(&ranks, ranks[2]);
    let n3 = count_rank(&ranks, ranks[3]);
    let n4 = count_rank(&ranks, ranks[4]);
    let distinct = n0 == 1 && n1 == 1 && n2 == 1 && n3 == 1 && n4 == 1;
    let mut hi = ranks[0];
    let mut lo = ranks[0];
    let mut i: usize = 1;
    while i < 5
        invariant
            1 <= i <= 5,
            ranks@ == rs,
            hi == (if i == 1 {
                rs[0]
            } else if i == 2 {
                max2(rs[0], rs[1])
            } else if i == 3 {
                max2(max2(rs[0], rs[1]), rs[2])
            } else if i == 4 {
                max2(max2(max2(rs[0], rs[1]), rs[2]), rs[3])
            } else {
                max2(max2(max2(max2(rs[0], rs[1]), rs[2]), rs[3]), rs[4])
            }),
            lo == (if i == 1 {
                rs[0]
            } else if i == 2 {
                min2(rs[0], rs[1])
            } else if i == 3 {
                min2(min2(rs[0], rs[1]), rs[2])
            } else if i == 4 {
                min2(min2(min2(rs[0], rs[1]), rs[2]), rs[3])
            } else {
                min2(min2(min2(min2(rs[0], rs[1]), rs[2]), rs[3]), rs[4])
            }),
        decreases 5 - i,
    {
        if ranks[i] > hi {
            hi = ranks[i];
        }
        if ranks[i] < lo {
            lo = ranks[i];
        }
        i += 1;
    }
    let is_wheel = has_rank(&ranks, 2) && has_rank(&ranks, 3) && has_rank(&ranks, 4) && has_rank(
        &ranks,
        5,
    ) && has_rank(&ranks, 14);
    let is_straight = distinct && (hi - lo == 4 || is_wheel);
    let is_royal = has_rank(&ranks, 10) && has_rank(&ranks, 11) && has_rank(&ranks, 12) && has_rank(
        &ranks,
        13,
    ) && has_rank(&ranks, 14);
    let has_quads = n0 == 4 || n1 == 4 || n2 == 4 || n3 == 4 || n4 == 4;
    let has_trips = n0 == 3 || n1 == 3 || n2 == 3 || n3 == 3 || n4 == 3;
    let has_pair = n0 == 2 || n1 == 2 || n2 == 2 || n3 == 2 || n4 == 2;
    if is_royal && is_flush {
        SixCardBonusRank::RoyalFlush
    } else if is_straight && is_flush {
        SixCardBonusRank::StraightFlush
    } else if has_quads {
        SixCardBonusRank::FourOfAKind
    } else if has_trips && has_pair {
        SixCardBonusRank::FullHouse
    } else if is_flush {
        SixCardBonusRank::Flush
    } else if is_straight {
        SixCardBonusRank::Straight
    } else if has_trips {
        SixCardBonusRank::ThreeOfAKind
    } else {
        SixCardBonusRank::Nothing
    }
}

/// The five cards left when card `skip` of six is set aside.
fn without_card(cards: &[u8; 6], skip: usize) -> (h: [u8; 5])
    requires
        skip < 6,
    ensures
        h@ == cards@.remove(skip as int),
{
    let h: [u8; 5] = [
        cards[if skip > 0 {
            0
        } else {
            1
        }],
        cards[if skip > 1 {
            1
        } else {
            2
        }],
        cards[if skip > 2 {
            2
        } else {
            3
        }],
        cards[if skip > 3 {
            3
        } else {
            4
        }],
        cards[if skip > 4 {
            4
        } else {
            5
        }],
    ];
    assert(h@ =~= cards@.remove(skip as int));
    h
}

/// Best 6-card bonus rank: the strongest five-card hand of the six cards.
pub fn evaluate_best_5_of_6_bonus_rank(cards: &[u8; 6]) -> (r: SixCardBonusRank)
    ensures
        r == best_bonus(cards@),
{
    let mut best = SixCardBonusRank::Nothing;
    let mut skip: usize = 0;
    while skip < 6
        invariant
            skip <= 6,
            best == best_bonus_upto(cards@, skip as nat),
        decreases 6 - skip,
    {
        let hand = without_card(cards, skip);
        let rank = evaluate_5_card_bonus_rank(&hand);
        if bonus_rank_level(rank) > bonus_rank_level(best) {
            best = rank;
        }
        skip += 1;
    }
    best
}

/// 6-card bonus pay table ("to 1"): royal 1000, straight flush 200, quads 100,
/// full house 20, flush 15, straight 10, trips 7.
pub open spec fn six_card_mult(r: SixCardBonusRank) -> u64 {
    match r {
        SixCardBonusRank::RoyalFlush => 1000,
        SixCardBonusRank::StraightFlush => 200,
        SixCardBonusRank::FourOfAKind => 100,
        SixCardBonusRank::FullHouse => 20,
        SixCardBonusRank::Flush => 15,
        SixCardBonusRank::Straight => 10,
        SixCardBonusRank::ThreeOfAKind => 7,
        SixCardBonusRank::Nothing => 0,
    }
}

/// The 6-card bonus multiplier of a rank.
pub fn six_card_bonus_multiplier(rank: SixCardBonusRank) -> (m: u64)
    ensures
        m == six_card_mult(rank),
{
    match rank {
        SixCardBonusRank::RoyalFlush => 1000,
        SixCardBonusRank::StraightFlush => 200,
        SixCardBonusRank::FourOfAKind => 100,
        SixCardBonusRank::FullHouse => 20,
        SixCardBonusRank::Flush => 15,
        SixCardBonusRank::Straight => 10,
        SixCardBonusRank::ThreeOfAKind => 7,
        SixCardBonusRank::Nothing => 0,
    }
}

/// The six cards of the bonus: the player's three, then the dealer's three.
pub open spec fn six_cards(p: (u8, u8, u8), d: (u8, u8, u8)) -> Seq<u8> {
    seq![p.0, p.1, p.2, d.0, d.1, d.2]
}

/// 6-card bonus return (stake included).
pub open spec fn six_card_return(p: (u8, u8, u8), d: (u8, u8, u8), bet: u64) -> int {
    let m = six_card_mult(best_bonus(six_cards(p, d)));
    if bet == 0 || m == 0 {
        0
    } else {
        sat_mul(bet as int, m + 1)
    }
}

/// Resolve the 6-card bonus on the player's and dealer's cards.
pub fn resolve_six_card_bonus_return(player_cards: &[u8; 3], dealer_cards: &[u8; 3], bet: u64) -> (r: u64)
    ensures
        r == six_card_return(triple(*player_cards), triple(*dealer_cards), bet),
{
    if bet == 0 {
        return 0;
    }
    let cards: [u8; 6] = [
        player_cards[0],
        player_cards[1],
        player_cards[2],
        dealer_cards[0],
        dealer_cards[1],
        dealer_cards[2],
    ];
    assert(cards@ =~= six_cards(triple(*player_cards), triple(*dealer_cards)));
    let rank = evaluate_best_5_of_6_bonus_rank(&cards);
    let mult = six_card_bonus_multiplier(rank);
    if mult == 0 {
        0
    } else {
        saturating_mul_u64(bet, mult + 1)
    }
}

/// Progressive return per the for-one pay table: mini-royal (A-K-Q suited) in
/// spades the base jackpot, other mini-royal 500, other straight flush 70,
/// trips 60, straight 6, times the stake, saturating.
pub open spec fn progressive_return(c: (u8, u8, u8), bet: u64) -> int {
    if bet == 0 {
        0
    } else {
        match three_rank(c) {
            HandRank::StraightFlush => if high_cards(c) == (14u8, 13u8, 12u8) {
                if c.0 / 13 == 0 && c.1 / 13 == 0 && c.2 / 13 == 0 {
                    sat_mul(bet as int, THREE_CARD_PROGRESSIVE_BASE_JACKPOT as int)
                } else {
                    sat_mul(bet as int, 500)
                }
            } else {
                sat_mul(bet as int, 70)
            },
            HandRank::ThreeOfAKind => sat_mul(bet as int, 60),
            HandRank::Straight => sat_mul(bet as int, 6),
            _ => 0,
        }
    }
}

/// Resolve the progressive bet on the player's cards.
pub fn resolve_progressive_return(player_cards: &[u8; 3], progressive_bet: u64) -> (r: u64)
    ensures
        r == progressive_return(triple(*player_cards), progressive_bet),
{
    if progressive_bet == 0 {
        return 0;
    }
    let player_hand = evaluate_hand(player_cards);
    match player_hand.0 {
        HandRank::StraightFlush => {
            if player_hand.1[0] == 14 && player_hand.1[1] == 13 && player_hand.1[2] == 12 {
                let is_spades = card_suit(player_cards[0]) == 0 && card_suit(player_cards[1]) == 0
                    && card_suit(player_cards[2]) == 0;
                if is_spades {
                    saturating_mul_u64(progressive_bet, THREE_CARD_PROGRESSIVE_BASE_JACKPOT)
                } else {
                    saturating_mul_u64(progressive_bet, 500)
                }
            } else {
                saturating_mul_u64(progressive_bet, 70)
            }
        },
        HandRank::ThreeOfAKind => saturating_mul_u64(progressive_bet, 60),
        HandRank::Straight => saturating_mul_u64(progressive_bet, 6),
        _ => 0,
    }
}

// ============================================================================
// State
// ============================================================================

/// Game state.
#[derive(Clone, Copy, Debug)]
pub struct TcState {
    pub stage: Stage,
    pub player: [u8; 3],
    pub dealer: [u8; 3],
    pub pairplus_bet: u64,
    pub six_card_bonus_bet: u64,
    pub progressive_bet: u64,
}

/// Abstract game state.
pub struct TcView {
    pub stage: Stage,
    pub player: (u8, u8, u8),
    pub dealer: (u8, u8, u8),
    pub pairplus_bet: u64,
    pub six_card_bonus_bet: u64,
    pub progressive_bet: u64,
}

impl View for TcState {
    type V = TcView;

    open spec fn view(&self) -> TcView {
        TcView {
            stage: self.stage,
            player: triple(self.player),
            dealer: triple(self.dealer),
            pairplus_bet: self.pairplus_bet,
            six_card_bonus_bet: self.six_card_bonus_bet,
            progressive_bet: self.progressive_bet,
        }
    }
}

/// The state a blob encodes: a version 1, 2 or 3 blob of exactly its length;
/// bets a version lacks are zero.
pub open spec fn parse_blob(b: Seq<u8>) -> Option<TcView> {
    let v1 = b.len() == STATE_LEN_V1 && b[0] == STATE_VERSION_V1;
    let v2 = b.len() == STATE_LEN_V2 && b[0] == STATE_VERSION_V2;
    let v3 = b.len() == STATE_LEN_V3 && b[0] == STATE_VERSION_V3;
    if !(v1 || v2 || v3) {
        None
    } else {
        match stage_of(b[1]) {
            None => None,
            Some(stage) => Some(
                TcView {
                    stage,
                    player: (b[2], b[3], b[4]),
                    dealer: (b[5], b[6], b[7]),
                    pairplus_bet: be_u64(b.subrange(8, 16)),
                    six_card_bonus_bet: if v1 {
                        0
                    } else {
                        be_u64(b.subrange(16, 24))
                    },
                    progressive_bet: if v3 {
                        be_u64(b.subrange(24, 32))
                    } else {
                        0
                    },
                },
            ),
        }
    }
}

/// The version 3 blob of a state.
pub open spec fn state_bytes(v: TcView) -> Seq<u8> {
    seq![
        STATE_VERSION_V3,
        stage_code(v.stage),
        v.player.0,
        v.player.1,
        v.player.2,
        v.dealer.0,
        v.dealer.1,
        v.dealer.2,
    ] + u64_be_bytes(v.pairplus_bet) + u64_be_bytes(v.six_card_bonus_bet) + u64_be_bytes(
        v.progressive_bet,
    )
}

/// Parsing a serialized state gives it back.
pub proof fn lemma_state_roundtrip(v: TcView)
    ensures
        parse_blob(state_bytes(v)) == Some(v),
{
    let b = state_bytes(v);
    lemma_u64_be_roundtrip(v.pairplus_bet);
    lemma_u64_be_roundtrip(v.six_card_bonus_bet);
    lemma_u64_be_roundtrip(v.progressive_bet);
    assert(b.subrange(8, 16) =~= u64_be_bytes(v.pairplus_bet));
    assert(b.subrange(16, 24) =~= u64_be_bytes(v.six_card_bonus_bet));
    assert(b.subrange(24, 32) =~= u64_be_bytes(v.progressive_bet));
}

/// Parses a state blob.
pub fn parse_state(state: &[u8]) -> (r: Option<TcState>)
    ensures
        match r {
            Some(s) => parse_blob(state@) == Some(s@),
            None => parse_blob(state@) is None,
        },
{
    let len = state.len();
    let version: u8 = if len == STATE_LEN_V1 && state[0] == STATE_VERSION_V1 {
        1
    } else if len == STATE_LEN_V2 && state[0] == STATE_VERSION_V2 {
        2
    } else if len == STATE_LEN_V3 && state[0] == STATE_VERSION_V3 {
        3
    } else {
        return None;
    };
    let stage = match Stage::try_from(state[1]) {
        Ok(s) => s,
        Err(_) => return None,
    };
    let pairplus_bet = read_u64_be(state, 8);
    let six_card_bonus_bet = if version >= 2 {
        read_u64_be(state, 16)
    } else {
        0
    };
    let progressive_bet = if version == 3 {
        read_u64_be(state, 24)
    } else {
        0
    };
    Some(
        TcState {
            stage,
            player: [state[2], state[3], state[4]],
            dealer: [state[5], state[6], state[7]],
            pairplus_bet,
            six_card_bonus_bet,
            progressive_bet,
        },
    )
}

/// Serializes a state (always version 3).
pub fn serialize_state(state: &TcState) -> (out: Vec<u8>)
    ensures
        out@ == state_bytes(state@),
{
    let mut out: Vec<u8> = Vec::new();
    out.push(STATE_VERSION_V3);
    out.push(state.stage.code());
    out.push(state.player[0]);
    out.push(state.player[1]);
    out.push(state.player[2]);
    out.push(state.dealer[0]);
    out.push(state.dealer[1]);
    out.push(state.dealer[2]);
    push_u64_be(&mut out, state.pairplus_bet);
    push_u64_be(&mut out, state.six_card_bonus_bet);
    push_u64_be(&mut out, state.progressive_bet);
    assert(out@ =~= state_bytes(state@));
    out
}

/// Reads the big-endian `u64` at `offset` of a payload.
pub fn parse_u64_be(payload: &[u8], offset: usize) -> (r: Result<u64, GameError>)
    ensures
        offset + 8 <= payload@.len() ==> r == Ok::<u64, GameError>(
            be_u64(payload@.subrange(offset as int, offset + 8)),
        ),
        offset + 8 > payload@.len() ==> r == Err::<u64, GameError>(GameError::InvalidPayload),
{
    if offset > payload.len() || payload.len() - offset < 8 {
        return Err(GameError::InvalidPayload);
    }
    Ok(read_u64_be(payload, offset))
}

/// Balance change of moving a side bet from `old` to `new`: minus the
/// difference, or nothing when the difference does not fit in an `i64`.
pub open spec fn bet_change(old: u64, new: u64) -> Option<int> {
    let delta = new - old;
    if delta > i64::MAX || delta < i64::MIN {
        None
    } else {
        Some(-delta)
    }
}

/// The balance change of moving a side bet, or `InvalidMove`.
pub fn bet_delta(old: u64, new: u64) -> (r: Result<i64, GameError>)
    requires
        old - new != 0x8000_0000_0000_0000,
    ensures
        match bet_change(old, new) {
            Some(c) => r == Ok::<i64, GameError>(c as i64),
            None => r == Err::<i64, GameError>(GameError::InvalidMove),
        },
{
    let delta: i128 = new as i128 - old as i128;
    if delta > 0x7fff_ffff_ffff_ffff || delta < -0x8000_0000_0000_0000 {
        return Err(GameError::InvalidMove);
    }
    Ok(-(delta as i64))
}

/// Sets the Pairplus bet; returns the balance change.
pub fn apply_pairplus_update(state: &mut TcState, new_bet: u64) -> (r: Result<i64, GameError>)
    requires
        old(state).pairplus_bet - new_bet != 0x8000_0000_0000_0000,
    ensures
        match bet_change(old(state).pairplus_bet, new_bet) {
            Some(c) => r == Ok::<i64, GameError>(c as i64) && final(state)@ == TcView {
                pairplus_bet: new_bet,
                ..old(state)@
            },
            None => r == Err::<i64, GameError>(GameError::InvalidMove) && final(state)@ == old(state)@,
        },
{
    let change = bet_delta(state.pairplus_bet, new_bet)?;
    state.pairplus_bet = new_bet;
    Ok(change)
}

/// Sets the 6-card bonus bet; returns the balance change.
pub fn apply_six_card_bonus_update(state: &mut TcState, new_bet: u64) -> (r: Result<i64, GameError>)
    requires
        old(state).six_card_bonus_bet - new_bet != 0x8000_0000_0000_0000,
    ensures
        match bet_change(old(state).six_card_bonus_bet, new_bet) {
            Some(c) => r == Ok::<i64, GameError>(c as i64) && final(state)@ == TcView {
                six_card_bonus_bet: new_bet,
                ..old(state)@
            },
            None => r == Err::<i64, GameError>(GameError::InvalidMove) && final(state)@ == old(state)@,
        },
{
    let change = bet_delta(state.six_card_bonus_bet, new_bet)?;
    state.six_card_bonus_bet = new_bet;
    Ok(change)
}

/// Sets the progressive bet; returns the balance change.
pub fn apply_progressive_update(state: &mut TcState, new_bet: u64) -> (r: Result<i64, GameError>)
    requires
        old(state).progressive_bet - new_bet != 0x8000_0000_0000_0000,
    ensures
        match bet_change(old(state).progressive_bet, new_bet) {
            Some(c) => r == Ok::<i64, GameError>(c as i64) && final(state)@ == TcView {
                progressive_bet: new_bet,
                ..old(state)@
            },
            None => r == Err::<i64, GameError>(GameError::InvalidMove) && final(state)@ == old(state)@,
        },
{
    let change = bet_delta(state.progressive_bet, new_bet)?;
    state.progressive_bet = new_bet;
    Ok(change)
}

/// Whether a card byte is a dealt card.
pub fn is_known_card(card: u8) -> (b: bool)
    ensures
        b == (card < 52),
{
    card < 52
}

// ============================================================================
// Moves
// ============================================================================

/// A continuing result with a balance change (none when it is zero).
pub open spec fn continue_with(payout: int) -> GameResult {
    if payout == 0 {
        GameResult::Continue
    } else {
        GameResult::ContinueWithUpdate { payout: payout as i64 }
    }
}

/// Three cards dealt from a deck, and the stream point after.
pub open spec fn deal_three(deck: Seq<u8>, p: RngPoint) -> ((u8, u8, u8), RngPoint) {
    let a = card_draw(deck, p);
    let b = card_draw(a.1, a.2);
    let c = card_draw(b.1, b.2);
    ((a.0, b.0, c.0), c.2)
}

/// The player's cards: three from a freshly shuffled deck.
pub open spec fn player_deal(p: RngPoint) -> ((u8, u8, u8), RngPoint) {
    let s = shuffled(ordered_deck(), p);
    deal_three(s.0, s.1)
}

/// The dealer's cards: three from a shuffled deck without the player's cards.
pub open spec fn dealer_deal(player: (u8, u8, u8), p: RngPoint) -> ((u8, u8, u8), RngPoint) {
    let s = shuffled(remove_each(ordered_shoe(1), seq![player.0, player.1, player.2]), p);
    deal_three(s.0, s.1)
}

/// A total return, times the super multipliers of the player's cards when
/// super mode is active and something is returned.
pub open spec fn super_boost(total: int, player: (u8, u8, u8), super_active: bool, mults: Seq<SuperMultiplier>) -> int {
    if super_active && total > 0 {
        sat_mul(total, cards_product(seq![player.0, player.1, player.2], mults))
    } else {
        total
    }
}

/// The final result: a win of the total return, or a loss of all wagers.
pub open spec fn settle(total: int, wagered: int) -> GameResult {
    if total == 0 {
        GameResult::LossPreDeducted(wagered as u64)
    } else {
        GameResult::Win(total as u64)
    }
}

/// Result of folding: the ante is lost; the side bets still resolve.
pub open spec fn fold_result(
    st: TcView,
    dealer: (u8, u8, u8),
    bet: u64,
    super_active: bool,
    mults: Seq<SuperMultiplier>,
) -> GameResult {
    let total = sat_add(
        sat_add(
            pairplus_return(st.player, st.pairplus_bet),
            six_card_return(st.player, dealer, st.six_card_bonus_bet),
        ),
        progressive_return(st.player, st.progressive_bet),
    );
    let wagered = sat_add(
        sat_add(sat_add(bet as int, st.pairplus_bet as int), st.six_card_bonus_bet as int),
        st.progressive_bet as int,
    );
    settle(super_boost(total, st.player, super_active, mults), wagered)
}

/// Return of the ante and play bets (both already taken): dealer not
/// qualifying pays the ante even money and pushes the play; otherwise a win
/// pays both even money, a tie pushes both, a loss returns nothing.
pub open spec fn main_return(player: (u8, u8, u8), dealer: (u8, u8, u8), bet: u64) -> int {
    let ph = (three_rank(player), high_cards(player));
    let dh = (three_rank(dealer), high_cards(dealer));
    if !qualifies(dh) {
        sat_add(sat_mul(bet as int, 2), bet as int)
    } else {
        match hand_order(ph, dh) {
            Comparison::Greater => sat_add(sat_mul(bet as int, 2), sat_mul(bet as int, 2)),
            Comparison::Equal => sat_add(bet as int, bet as int),
            Comparison::Less => 0,
        }
    }
}

/// Result of the reveal after playing.
pub open spec fn reveal_result(
    st: TcView,
    dealer: (u8, u8, u8),
    bet: u64,
    super_active: bool,
    mults: Seq<SuperMultiplier>,
) -> GameResult {
    let ante_bonus = sat_mul(bet as int, ante_bonus_mult(three_rank(st.player)) as int);
    let total = sat_add(
        sat_add(
            sat_add(
                sat_add(pairplus_return(st.player, st.pairplus_bet), main_return(st.player, dealer, bet)),
                ante_bonus,
            ),
            six_card_return(st.player, dealer, st.six_card_bonus_bet),
        ),
        progressive_return(st.player, st.progressive_bet),
    );
    let wagered = sat_add(
        sat_add(sat_add(sat_mul(bet as int, 2), st.pairplus_bet as int), st.six_card_bonus_bet as int),
        st.progressive_bet as int,
    );
    settle(super_boost(total, st.player, super_active, mults), wagered)
}

/// The amount of a payload, if it holds one.
pub open spec fn payload_amount(payload: Seq<u8>) -> u64 {
    be_u64(payload.subrange(1, 9))
}

/// Outcome of a move on a parsed state: result, new state (on success) and
/// stream point.
pub open spec fn tc_outcome(
    st: TcView,
    mv: Move,
    payload: Seq<u8>,
    bet: u64,
    p: RngPoint,
    super_active: bool,
    mults: Seq<SuperMultiplier>,
) -> (Result<GameResult, GameError>, Option<TcView>, RngPoint) {
    match st.stage {
        Stage::Betting => if mv == Move::SetPairPlus || mv == Move::SetSixCardBonus || mv
            == Move::SetProgressive {
            if payload.len() < 9 {
                (Err(GameError::InvalidPayload), None, p)
            } else {
                let nb = payload_amount(payload);
                if mv == Move::SetProgressive && nb != 0 && nb != PROGRESSIVE_BET_UNIT {
                    (Err(GameError::InvalidMove), None, p)
                } else {
                    let old = if mv == Move::SetPairPlus {
                        st.pairplus_bet
                    } else if mv == Move::SetSixCardBonus {
                        st.six_card_bonus_bet
                    } else {
                        st.progressive_bet
                    };
                    match bet_change(old, nb) {
                        None => (Err(GameError::InvalidMove), None, p),
                        Some(pay) => (
                            Ok(continue_with(pay)),
                            Some(
                                if mv == Move::SetPairPlus {
                                    TcView { pairplus_bet: nb, ..st }
                                } else if mv == Move::SetSixCardBonus {
                                    TcView { six_card_bonus_bet: nb, ..st }
                                } else {
                                    TcView { progressive_bet: nb, ..st }
                                },
                            ),
                            p,
                        ),
                    }
                }
            }
        } else if mv == Move::Deal {
            if st.player.0 < 52 {
                (Err(GameError::InvalidMove), None, p)
            } else if payload.len() != 9 && payload.len() != 1 {
                (Err(GameError::InvalidPayload), None, p)
            } else {
                let change = if payload.len() == 9 {
                    bet_change(st.pairplus_bet, payload_amount(payload))
                } else {
                    Some(0int)
                };
                let pairplus = if payload.len() == 9 {
                    payload_amount(payload)
                } else {
                    st.pairplus_bet
                };
                match change {
                    None => (Err(GameError::InvalidMove), None, p),
                    Some(pay) => {
                        let d = player_deal(p);
                        (
                            Ok(continue_with(pay)),
                            Some(TcView { stage: Stage::Decision, player: d.0, pairplus_bet: pairplus, ..st }),
                            d.1,
                        )
                    },
                }
            }
        } else {
            (Err(GameError::InvalidMove), None, p)
        },
        Stage::Decision => if mv == Move::Fold {
            let d = dealer_deal(st.player, p);
            (
                Ok(fold_result(st, d.0, bet, super_active, mults)),
                Some(TcView { stage: Stage::Complete, dealer: d.0, ..st }),
                d.1,
            )
        } else if mv == Move::Play {
            (
                Ok(GameResult::ContinueWithUpdate { payout: (-wrap_i64(bet)) as i64 }),
                Some(TcView { stage: Stage::AwaitingReveal, ..st }),
                p,
            )
        } else {
            (Err(GameError::InvalidMove), None, p)
        },
        Stage::AwaitingReveal => if mv == Move::Reveal {
            let d = dealer_deal(st.player, p);
            (
                Ok(reveal_result(st, d.0, bet, super_active, mults)),
                Some(TcView { stage: Stage::Complete, dealer: d.0, ..st }),
                d.1,
            )
        } else {
            (Err(GameError::InvalidMove), None, p)
        },
        Stage::Complete => (Err(GameError::GameAlreadyComplete), None, p),
    }
}

/// The inputs on which a move is defined: no side-bet change and no play
/// deduction that would negate the least `i64`.
pub open spec fn move_defined(st: TcView, mv: Move, payload: Seq<u8>, bet: u64) -> bool {
    match st.stage {
        Stage::Betting => payload.len() >= 9 ==> {
            let nb = payload_amount(payload);
            &&& mv == Move::SetPairPlus ==> st.pairplus_bet - nb != 0x8000_0000_0000_0000
            &&& mv == Move::SetSixCardBonus ==> st.six_card_bonus_bet - nb != 0x8000_0000_0000_0000
            &&& (mv == Move::SetProgressive && (nb == 0 || nb == PROGRESSIVE_BET_UNIT))
                ==> st.progressive_bet - nb != 0x8000_0000_0000_0000
            &&& (mv == Move::Deal && st.player.0 >= 52 && payload.len() == 9) ==> st.pairplus_bet
                - nb != 0x8000_0000_0000_0000
        },
        Stage::Decision => mv == Move::Play ==> bet != 0x8000_0000_0000_0000,
        _ => true,
    }
}

/// The error a move is refused with before its state is looked at, if any.
pub open spec fn move_error(is_complete: bool, blob: Seq<u8>, payload: Seq<u8>) -> Option<GameError> {
    if is_complete {
        Some(GameError::GameAlreadyComplete)
    } else if payload.len() == 0 || move_of(payload[0]) is None || parse_blob(blob) is None {
        Some(GameError::InvalidPayload)
    } else {
        None
    }
}

/// The state a session starts in: betting, no cards, no side bets.
pub open spec fn initial_view() -> TcView {
    TcView {
        stage: Stage::Betting,
        player: (CARD_UNKNOWN, CARD_UNKNOWN, CARD_UNKNOWN),
        dealer: (CARD_UNKNOWN, CARD_UNKNOWN, CARD_UNKNOWN),
        pairplus_bet: 0,
        six_card_bonus_bet: 0,
        progressive_bet: 0,
    }
}

/// A continuing result for a balance change.
pub fn continue_result(payout: i64) -> (r: GameResult)
    ensures
        r == continue_with(payout as int),
{
    if payout == 0 {
        GameResult::Continue
    } else {
        GameResult::ContinueWithUpdate { payout }
    }
}

/// Three cards drawn from a deck of at least three.
fn draw_three(rng: &mut GameRng, deck: &mut Vec<u8>) -> (c: [u8; 3])
    requires
        old(deck)@.len() >= 3,
    ensures
        (triple(c), final(rng)@) == deal_three(old(deck)@, old(rng)@),
{
    let a = draw_from(rng, deck);
    let b = draw_from(rng, deck);
    let c = draw_from(rng, deck);
    [a, b, c]
}

/// The dealer's three cards from a deck without the player's.
fn deal_dealer(rng: &mut GameRng, player: &[u8; 3]) -> (c: [u8; 3])
    ensures
        (triple(c), final(rng)@) == dealer_deal(triple(*player), old(rng)@),
{
    let used: [u8; 3] = [player[0], player[1], player[2]];
    let ghost excluded = seq![player[0], player[1], player[2]];
    assert(used@ =~= excluded);
    let mut deck = rng.create_deck_excluding(&used);
    proof {
        lemma_remove_each_len(ordered_shoe(1), excluded);
    }
    draw_three(rng, &mut deck)
}

/// The total return, boosted in super mode.
fn boost(total: u64, player: &[u8; 3], super_active: bool, multipliers: &[SuperMultiplier]) -> (r: u64)
    ensures
        r == super_boost(total as int, triple(*player), super_active, multipliers@),
{
    if super_active && total > 0 {
        let cards: [u8; 3] = [player[0], player[1], player[2]];
        assert(cards@ =~= seq![player[0], player[1], player[2]]);
        apply_super_multiplier_cards(&cards, multipliers, total)
    } else {
        total
    }
}

/// Three Card Poker.
pub struct ThreeCardPoker;

impl ThreeCardPoker {
    /// A move in the betting stage.
    fn betting_move(state: TcState, mv: Move, payload: &[u8], bet: u64, rng: &mut GameRng) -> (r: (
        Result<GameResult, GameError>,
        TcState,
    ))
        requires
            state@.stage == Stage::Betting,
            payload@.len() >= 1,
            move_defined(state@, mv, payload@, bet),
        ensures
            ({
                let o = tc_outcome(state@, mv, payload@, bet, old(rng)@, false, Seq::empty());
                &&& r.0 == o.0
                &&& final(rng)@ == o.2
                &&& o.1 matches Some(v) ==> r.1@ == v
            }),
    {
        let mut state = state;
        if mv == Move::SetPairPlus || mv == Move::SetSixCardBonus || mv == Move::SetProgressive {
            let new_bet = match parse_u64_be(payload, 1) {
                Ok(b) => b,
                Err(e) => return (Err(e), state),
            };
            if mv == Move::SetProgressive && new_bet != 0 && new_bet != PROGRESSIVE_BET_UNIT {
                return (Err(GameError::InvalidMove), state);
            }
            let change = if mv == Move::SetPairPlus {
                apply_pairplus_update(&mut state, new_bet)
            } else if mv == Move::SetSixCardBonus {
                apply_six_card_bonus_update(&mut state, new_bet)
            } else {
                apply_progressive_update(&mut state, new_bet)
            };
            match change {
                Ok(payout) => (Ok(continue_result(payout)), state),
                Err(e) => (Err(e), state),
            }
        } else if mv == Move::Deal {
            if is_known_card(state.player[0]) {
                return (Err(GameError::InvalidMove), state);
            }
            let mut payout_update: i64 = 0;
            if payload.len() == 9 {
                let new_bet = read_u64_be(payload, 1);
                match apply_pairplus_update(&mut state, new_bet) {
                    Ok(p) => {
                        payout_update = p;
                    },
                    Err(e) => return (Err(e), state),
                }
            } else if payload.len() != 1 {
                return (Err(GameError::InvalidPayload), state);
            }
            let mut deck = rng.create_deck();
            state.player = draw_three(rng, &mut deck);
            state.stage = Stage::Decision;
            (Ok(continue_result(payout_update)), state)
        } else {
            (Err(GameError::InvalidMove), state)
        }
    }

    /// Folding: the dealer's cards are revealed for display and the side bets resolve.
    fn fold(state: TcState, bet: u64, super_active: bool, multipliers: &[SuperMultiplier], rng: &mut GameRng) -> (r: (
        GameResult,
        TcState,
    ))
        ensures
            ({
                let d = dealer_deal(state@.player, old(rng)@);
                &&& r.0 == fold_result(state@, d.0, bet, super_active, multipliers@)
                &&& r.1@ == TcView { stage: Stage::Complete, dealer: d.0, ..state@ }
                &&& final(rng)@ == d.1
            }),
    {
        let mut state = state;
        state.dealer = deal_dealer(rng, &state.player);
        state.stage = Stage::Complete;
        let pairplus_return = resolve_pairplus_return(&state.player, state.pairplus_bet);
        let six_card_return = resolve_six_card_bonus_return(
            &state.player,
            &state.dealer,
            state.six_card_bonus_bet,
        );
        let progressive_return = resolve_progressive_return(&state.player, state.progressive_bet);
        let total_return = pairplus_return.saturating_add(six_card_return).saturating_add(
            progressive_return,
        );
        let total_return = boost(total_return, &state.player, super_active, multipliers);
        let total_wagered = bet.saturating_add(state.pairplus_bet).saturating_add(
            state.six_card_bonus_bet,
        ).saturating_add(state.progressive_bet);
        if total_return == 0 {
            (GameResult::LossPreDeducted(total_wagered), state)
        } else {
            (GameResult::Win(total_return), state)
        }
    }

    /// The ante and play return against the dealer's hand.
    fn main_bets_return(player: &[u8; 3], dealer: &[u8; 3], bet: u64) -> (r: u64)
        ensures
            r == main_return(triple(*player), triple(*dealer), bet),
    {
        let player_hand = evaluate_hand(player);
        let dealer_hand = evaluate_hand(dealer);
        if !dealer_qualifies(&dealer_hand) {
            saturating_mul_u64(bet, 2).saturating_add(bet)
        } else {
            match compare_hands(&player_hand, &dealer_hand) {
                Comparison::Greater => saturating_mul_u64(bet, 2).saturating_add(
                    saturating_mul_u64(bet, 2),
                ),
                Comparison::Equal => bet.saturating_add(bet),
                Comparison::Less => 0,
            }
        }
    }

    /// Revealing after playing: the dealer's cards are dealt and every bet resolves.
    fn reveal_dealer(state: TcState, bet: u64, super_active: bool, multipliers: &[SuperMultiplier], rng: &mut GameRng) -> (r: (
        GameResult,
        TcState,
    ))
        ensures
            ({
                let d = dealer_deal(state@.player, old(rng)@);
                &&& r.0 == reveal_result(state@, d.0, bet, super_active, multipliers@)
                &&& r.1@ == TcView { stage: Stage::Complete, dealer: d.0, ..state@ }
                &&& final(rng)@ == d.1
            }),
    {
        let mut state = state;
        state.dealer = deal_dealer(rng, &state.player);
        state.stage = Stage::Complete;
        let player_hand = evaluate_hand(&state.player);
        let pairplus_return = resolve_pairplus_return(&state.player, state.pairplus_bet);
        let six_card_return = resolve_six_card_bonus_return(
            &state.player,
            &state.dealer,
            state.six_card_bonus_bet,
        );
        let progressive_return = resolve_progressive_return(&state.player, state.progressive_bet);
        let ante_bonus = saturating_mul_u64(bet, ante_bonus_multiplier(player_hand.0));
        let main_return = Self::main_bets_return(&state.player, &state.dealer, bet);
        let total_return = pairplus_return.saturating_add(main_return).saturating_add(
            ante_bonus,
        ).saturating_add(six_card_return).saturating_add(progressive_return);
        let total_return = boost(total_return, &state.player, super_active, multipliers);
        let total_wagered = saturating_mul_u64(bet, 2).saturating_add(
            state.pairplus_bet,
        ).saturating_add(state.six_card_bonus_bet).saturating_add(state.progressive_bet);
        if total_return == 0 {
            (GameResult::LossPreDeducted(total_wagered), state)
        } else {
            (GameResult::Win(total_return), state)
        }
    }
}

impl CasinoGame for ThreeCardPoker {
    open spec fn init_requires(s0: GameSession) -> bool {
        init_requires(s0)
    }

    open spec fn init_ensures(s0: GameSession, p0: RngPoint, r: GameResult, s1: GameSession, p1: RngPoint) -> bool {
        init_ensures(s0, p0, r, s1, p1)
    }

    open spec fn move_requires(s0: GameSession, payload: Seq<u8>, p0: RngPoint) -> bool {
        move_requires(s0, payload, p0)
    }

    open spec fn move_ensures(
        s0: GameSession,
        payload: Seq<u8>,
        p0: RngPoint,
        r: Result<GameResult, GameError>,
        s1: GameSession,
        p1: RngPoint,
    ) -> bool {
        move_ensures(s0, payload, p0, r, s1, p1)
    }

    /// Starts a session in the betting stage, so side bets can be placed
    /// before any card is dealt.
    fn init(session: &mut GameSession, rng: &mut GameRng) -> (r: GameResult) {
        let state = TcState {
            stage: Stage::Betting,
            player: [CARD_UNKNOWN, CARD_UNKNOWN, CARD_UNKNOWN],
            dealer: [CARD_UNKNOWN, CARD_UNKNOWN, CARD_UNKNOWN],
            pairplus_bet: 0,
            six_card_bonus_bet: 0,
            progressive_bet: 0,
        };
        session.state_blob = serialize_state(&state);
        GameResult::Continue
    }

    /// Processes one move.
    #[verifier::spinoff_prover]
    #[verifier::rlimit(40)]
    fn process_move(session: &mut GameSession, payload: &[u8], rng: &mut GameRng) -> (r: Result<
        GameResult,
        GameError,
    >) {
        if session.is_complete {
            return Err(GameError::GameAlreadyComplete);
        }
        if payload.len() == 0 {
            return Err(GameError::InvalidPayload);
        }
        let mv = match Move::try_from(payload[0]) {
            Ok(m) => m,
            Err(e) => return Err(e),
        };
        let state = match parse_state(session.state_blob.as_slice()) {
            Some(s) => s,
            None => return Err(GameError::InvalidPayload),
        };
        let (result, next) = match state.stage {
            Stage::Betting => Self::betting_move(state, mv, payload, session.bet, rng),
            Stage::Decision => {
                if mv == Move::Fold {
                    let (res, next) = Self::fold(
                        state,
                        session.bet,
                        session.super_mode.is_active,
                        session.super_mode.multipliers.as_slice(),
                        rng,
                    );
                    (Ok(res), next)
                } else if mv == Move::Play {
                    let mut next = state;
                    next.stage = Stage::AwaitingReveal;
                    let wager = u64_as_i64(session.bet);
                    (Ok(GameResult::ContinueWithUpdate { payout: -wager }), next)
                } else {
                    (Err(GameError::InvalidMove), state)
                }
            },
            Stage::AwaitingReveal => {
                if mv == Move::Reveal {
                    let (res, next) = Self::reveal_dealer(
                        state,
                        session.bet,
                        session.super_mode.is_active,
                        session.super_mode.multipliers.as_slice(),
                        rng,
                    );
                    (Ok(res), next)
                } else {
                    (Err(GameError::InvalidMove), state)
                }
            },
            Stage::Complete => (Err(GameError::GameAlreadyComplete), state),
        };
        match result {
            Ok(res) => {
                session.state_blob = serialize_state(&next);
                if next.stage == Stage::Complete {
                    session.is_complete = true;
                }
                Ok(res)
            },
            Err(e) => Err(e),
        }
    }
}

/// What `process_move` requires of a session, a payload and a stream point.
pub open spec fn move_requires(s0: GameSession, payload: Seq<u8>, p0: RngPoint) -> bool {
    &&& move_error(s0.is_complete, s0.state_blob@, payload) is None
                ==> move_defined(
                parse_blob(s0.state_blob@).unwrap(),
                move_of(payload[0]).unwrap(),
                payload,
                s0.bet,
            )
}

/// What `process_move` ensures of a session, a payload and a stream point
/// before (`s0`, `p0`) and after (`s1`, `p1`) the move, with result `r`.
pub open spec fn move_ensures(
    s0: GameSession,
    payload: Seq<u8>,
    p0: RngPoint,
    r: Result<GameResult, GameError>,
    s1: GameSession,
    p1: RngPoint,
) -> bool {
    &&& match move_error(s0.is_complete, s0.state_blob@, payload) {
                Some(e) => r == Err::<GameResult, GameError>(e) && s1 == s0
                    && p1 == p0,
                None => {
                    let o = tc_outcome(
                        parse_blob(s0.state_blob@).unwrap(),
                        move_of(payload[0]).unwrap(),
                        payload,
                        s0.bet,
                        p0,
                        s0.super_mode.is_active,
                        s0.super_mode.multipliers@,
                    );
                    &&& r == o.0
                    &&& p1 == o.2
                    &&& session_fields_kept(s0, s1)
                    &&& s1.move_count == s0.move_count
                    &&& match o.1 {
                        Some(v) => s1.state_blob@ == state_bytes(v)
                            && s1.is_complete == (v.stage == Stage::Complete),
                        None => s1.state_blob@ == s0.state_blob@
                            && s1.is_complete == s0.is_complete,
                    }
                },
            }
}

/// What `init` requires of a session.
pub open spec fn init_requires(s0: GameSession) -> bool {
    true
}

/// What `init` ensures of a session and a stream point before (`s0`, `p0`)
/// and after (`s1`, `p1`), with result `r`.
pub open spec fn init_ensures(s0: GameSession, p0: RngPoint, r: GameResult, s1: GameSession, p1: RngPoint) -> bool {
    &&& r == GameResult::Continue
    &&& s1.state_blob@ == state_bytes(initial_view())
    &&& session_fields_kept(s0, s1)
    &&& s1.is_complete == s0.is_complete
    &&& s1.move_count == s0.move_count
    &&& p1 == p0
}

} // verus!
