//! Video Poker (Jacks or Better).
//!
//! State blob: `[stage:u8] [card1..card5]`, stage 0 = dealt, 1 = drawn.
//!
//! Payload: `[hold_mask:u8]`, bit `i` holding card `i + 1`; the other cards are
//! replaced from a fresh deck without the held cards, and the hand is paid.

use super::rng::{
    card_draw, draw_from, lemma_remove_each_len, ordered_deck, ordered_shoe, remove_each, shuffled, GameRng,
    RngPoint,
};
use super::session::{session_fields_kept, GameSession};
use super::super_mode::{apply_super_multiplier_cards, cards_product};
use super::common::{sat_mul, saturating_mul_u64};
use super::{CasinoGame, GameError, GameResult};
use vstd::prelude::*;

verus! {

/// Video Poker stages.
#[derive(Clone, Copy, Debug, PartialEq, Eq, Structural)]
pub enum Stage {
    Deal,
    Draw,
}

/// Stage of a wire code, if it names one.
pub open spec fn stage_of(code: u8) -> Option<Stage> {
    if code == 0 {
        Some(Stage::Deal)
    } else if code == 1 {
        Some(Stage::Draw)
    } else {
        None
    }
}

impl Stage {
    /// The stage with wire code `value`, or `InvalidPayload`.
    pub fn try_from(value: u8) -> (r: Result<Stage, GameError>)
        ensures
            r == match stage_of(value) {
                Some(s) => Ok(s),
                None => Err(GameError::InvalidPayload),
            },
    {
        match value {
            0 => Ok(Stage::Deal),
            1 => Ok(Stage::Draw),
            _ => Err(GameError::InvalidPayload),
        }
    }
}

/// Poker hand rankings, lowest first.
#[derive(Clone, Copy, Debug, PartialEq, Eq, Structural, PartialOrd, Ord)]
pub enum Hand {
    HighCard,
    JacksOrBetter,
    TwoPair,
    ThreeOfAKind,
    Straight,
    Flush,
    FullHouse,
    FourOfAKind,
    StraightFlush,
    RoyalFlush,
}

/// Rank 1-13 of a card (ace 1).
pub open spec fn rank1(card: u8) -> int {
    card % 13 + 1
}

/// Card rank (1-13, Ace = 1).
pub fn card_rank(card: u8) -> (r: u8)
    ensures
        r == rank1(card),
{
    (card % 13) + 1
}

/// Card suit (0-3 for cards 0-51).
pub fn card_suit(card: u8) -> (s: u8)
    ensures
        s == card / 13,
{
    card / 13
}

/// How many of the five cards have rank `r`.
pub open spec fn rank_count(c: Seq<u8>, r: int) -> int {
    (if rank1(c[0]) == r {
        1int
    } else {
        0
    }) + (if rank1(c[1]) == r {
        1int
    } else {
        0
    }) + (if rank1(c[2]) == r {
        1int
    } else {
        0
    }) + (if rank1(c[3]) == r {
        1int
    } else {
        0
    }) + (if rank1(c[4]) == r {
        1int
    } else {
        0
    })
}

/// All five cards share a suit.
pub open spec fn flush(c: Seq<u8>) -> bool {
    c[0] / 13 == c[1] / 13 && c[1] / 13 == c[2] / 13 && c[2] / 13 == c[3] / 13 && c[3] / 13
        == c[4] / 13
}

/// No two cards share a rank.
pub open spec fn ranks_distinct(c: Seq<u8>) -> bool {
    forall|i: int, j: int| 0 <= i < j < 5 ==> rank1(#[trigger] c[i]) != rank1(#[trigger] c[j])
}

/// Smaller of two integers.
pub open spec fn min_int(a: int, b: int) -> int {
    if a <= b {
        a
    } else {
        b
    }
}

/// Larger of two integers.
pub open spec fn max_int(a: int, b: int) -> int {
    if a >= b {
        a
    } else {
        b
    }
}

/// Lowest rank of the hand.
pub open spec fn low_rank(c: Seq<u8>) -> int {
    min_int(min_int(min_int(min_int(rank1(c[0]), rank1(c[1])), rank1(c[2])), rank1(c[3])), rank1(c[4]))
}

/// Highest rank of the hand.
pub open spec fn high_rank(c: Seq<u8>) -> int {
    max_int(max_int(max_int(max_int(rank1(c[0]), rank1(c[1])), rank1(c[2])), rank1(c[3])), rank1(c[4]))
}

/// The ranks are exactly 10, J, Q, K, A.
pub open spec fn royal_ranks(c: Seq<u8>) -> bool {
    rank_count(c, 1) == 1 && rank_count(c, 10) == 1 && rank_count(c, 11) == 1 && rank_count(c, 12)
        == 1 && rank_count(c, 13) == 1
}

/// The ranks are exactly A, 2, 3, 4, 5.
pub open spec fn wheel_ranks(c: Seq<u8>) -> bool {
    rank_count(c, 1) == 1 && rank_count(c, 2) == 1 && rank_count(c, 3) == 1 && rank_count(c, 4) == 1
        && rank_count(c, 5) == 1
}

/// Five consecutive ranks, the ace counting high (10-A) or low (A-5).
pub open spec fn straight(c: Seq<u8>) -> bool {
    ranks_distinct(c) && (royal_ranks(c) || wheel_ranks(c) || high_rank(c) - low_rank(c) == 4)
}

/// Number of ranks below `r` (from 1) held exactly twice.
pub open spec fn pairs_below(c: Seq<u8>, r: nat) -> int
    decreases r,
{
    if r <= 1 {
        0
    } else {
        pairs_below(c, (r - 1) as nat) + if rank_count(c, r - 1) == 2 {
            1int
        } else {
            0
        }
    }
}

/// Some rank below `r` (from 1) is held exactly `k` times.
pub open spec fn some_count_below(c: Seq<u8>, k: int, r: nat) -> bool
    decreases r,
{
    r > 1 && (some_count_below(c, k, (r - 1) as nat) || rank_count(c, r - 1) == k)
}

/// Some rank below `r` among J, Q, K, A is held exactly twice.
pub open spec fn high_pair_below(c: Seq<u8>, r: nat) -> bool
    decreases r,
{
    r > 1 && (high_pair_below(c, (r - 1) as nat) || (rank_count(c, r - 1) == 2 && (r - 1 >= 11 || r
        - 1 == 1)))
}

/// The Jacks-or-Better hand of five cards.
pub open spec fn hand_of(c: Seq<u8>) -> Hand {
    let pairs = pairs_below(c, 14);
    let three = some_count_below(c, 3, 14);
    if royal_ranks(c) && flush(c) {
        Hand::RoyalFlush
    } else if straight(c) && flush(c) {
        Hand::StraightFlush
    } else if some_count_below(c, 4, 14) {
        Hand::FourOfAKind
    } else if three && pairs == 1 {
        Hand::FullHouse
    } else if flush(c) {
        Hand::Flush
    } else if straight(c) {
        Hand::Straight
    } else if three {
        Hand::ThreeOfAKind
    } else if pairs == 2 {
        Hand::TwoPair
    } else if pairs == 1 && high_pair_below(c, 14) {
        Hand::JacksOrBetter
    } else {
        Hand::HighCard
    }
}

/// Rank counts of a hand with one pair of rank `q` and no other repeated
/// rank: no pair below rank 1, and one pair below `n` exactly when `q` is.
proof fn lemma_one_pair_counts(c: Seq<u8>, q: int, n: nat)
    requires
        1 <= q <= 13,
        n <= 14,
        rank_count(c, q) == 2,
        forall|r: int| 1 <= r <= 13 && r != q ==> #[trigger] rank_count(c, r) <= 1,
    ensures
        pairs_below(c, n) == (if q < n {
            1int
        } else {
            0
        }),
        !some_count_below(c, 3, n),
        !some_count_below(c, 4, n),
        high_pair_below(c, n) == (q < n && (q >= 11 || q == 1)),
    decreases n,
{
    if n > 1 {
        lemma_one_pair_counts(c, q, (n - 1) as nat);
        assert(rank_count(c, n - 1) <= 2);
    }
}

/// A hand of five different cards whose only two cards of one rank are a
/// pair of jacks, queens, kings or aces is Jacks or Better; with any lower
/// pair (twos to tens) it is a high-card hand, which pays nothing.
pub proof fn lemma_single_pair(c: Seq<u8>, i: int, j: int)
    requires
        c.len() == 5,
        forall|k: int| 0 <= k < 5 ==> c[k] < 52,
        c.no_duplicates(),
        0 <= i < j < 5,
        c[i] % 13 == c[j] % 13,
        forall|a: int, b: int| 0 <= a < b < 5 && !(a == i && b == j) ==> c[a] % 13 != c[b] % 13,
    ensures
        (c[i] % 13 == 0 || c[i] % 13 >= 10) ==> hand_of(c) == Hand::JacksOrBetter,
        1 <= c[i] % 13 <= 9 ==> hand_of(c) == Hand::HighCard,
{
    assert((0 == i && 1 == j) || c[0] % 13 != c[1] % 13);
    assert((0 == i && 2 == j) || c[0] % 13 != c[2] % 13);
    assert((0 == i && 3 == j) || c[0] % 13 != c[3] % 13);
    assert((0 == i && 4 == j) || c[0] % 13 != c[4] % 13);
    assert((1 == i && 2 == j) || c[1] % 13 != c[2] % 13);
    assert((1 == i && 3 == j) || c[1] % 13 != c[3] % 13);
    assert((1 == i && 4 == j) || c[1] % 13 != c[4] % 13);
    assert((2 == i && 3 == j) || c[2] % 13 != c[3] % 13);
    assert((2 == i && 4 == j) || c[2] % 13 != c[4] % 13);
    assert((3 == i && 4 == j) || c[3] % 13 != c[4] % 13);
    let q = rank1(c[i]);
    assert(rank1(c[j]) == q);
    assert(rank_count(c, q) == 2);
    assert forall|r: int| 1 <= r <= 13 && r != q implies #[trigger] rank_count(c, r) <= 1 by {
    }
    lemma_one_pair_counts(c, q, 14);
    assert(c[i] != c[j]);
    assert(c[i] / 13 != c[j] / 13);
    assert(!flush(c));
    assert(!ranks_distinct(c)) by {
        assert(rank1(c[i]) == rank1(c[j]));
    }
    assert(!straight(c));
}

/// Some rank below `n` held `k` times, once rank `q` below `n` is.
proof fn lemma_count_below(c: Seq<u8>, k: int, q: int, n: nat)
    requires
        1 <= q < n,
        rank_count(c, q) == k,
    ensures
        some_count_below(c, k, n),
    decreases n,
{
    if q < n - 1 {
        lemma_count_below(c, k, q, (n - 1) as nat);
    }
}

/// With no rank held twice, no rank below `n` is paired, tripled or quadrupled.
proof fn lemma_no_repeat_counts(c: Seq<u8>, n: nat)
    requires
        forall|r: int| 1 <= r <= 13 ==> #[trigger] rank_count(c, r) <= 1,
        n <= 14,
    ensures
        pairs_below(c, n) == 0,
        !some_count_below(c, 3, n),
        !some_count_below(c, 4, n),
        !high_pair_below(c, n),
    decreases n,
{
    if n > 1 {
        lemma_no_repeat_counts(c, (n - 1) as nat);
        assert(rank_count(c, n - 1) <= 1);
    }
}

/// Four cards of one rank and a fifth of another make four of a kind.
pub proof fn lemma_four_of_a_kind(c: Seq<u8>)
    requires
        c.len() == 5,
        forall|k: int| 0 <= k < 5 ==> c[k] < 52,
        c.no_duplicates(),
        c[0] % 13 == c[1] % 13 && c[1] % 13 == c[2] % 13 && c[2] % 13 == c[3] % 13,
        c[4] % 13 != c[0] % 13,
    ensures
        hand_of(c) == Hand::FourOfAKind,
{
    let q = rank1(c[0]);
    assert(c[0] != c[1]);
    assert(c[0] / 13 != c[1] / 13);
    assert(!flush(c));
    assert(rank_count(c, q) == 4);
    lemma_count_below(c, 4, q, 14);
}

/// Five cards of five different ranks: a royal flush when they are ten to
/// ace of one suit, a straight flush when otherwise in sequence (the ace high
/// or low) and of one suit, a flush when of one suit only, a straight when in
/// sequence only, and a high-card hand, which pays nothing, otherwise.
pub proof fn lemma_unpaired_hands(c: Seq<u8>)
    requires
        c.len() == 5,
        forall|i: int, j: int| 0 <= i < j < 5 ==> c[i] % 13 != c[j] % 13,
    ensures
        ({
            let suited = c[0] / 13 == c[1] / 13 && c[1] / 13 == c[2] / 13 && c[2] / 13 == c[3] / 13
                && c[3] / 13 == c[4] / 13;
            let in_sequence = royal_ranks(c) || wheel_ranks(c) || high_rank(c) - low_rank(c) == 4;
            hand_of(c) == if suited && royal_ranks(c) {
                Hand::RoyalFlush
            } else if suited && in_sequence {
                Hand::StraightFlush
            } else if suited {
                Hand::Flush
            } else if in_sequence {
                Hand::Straight
            } else {
                Hand::HighCard
            }
        }),
{
    assert(ranks_distinct(c));
    assert forall|r: int| 1 <= r <= 13 implies #[trigger] rank_count(c, r) <= 1 by {
    }
    lemma_no_repeat_counts(c, 14);
}

/// The paytable rises with the hand: a pair of jacks or better pays 1 to 1,
/// two pair 2, three of a kind 3, a straight 4, a flush 6, a full house 9,
/// four of a kind 25, a straight flush 50 and a royal flush 800; a lower
/// hand pays nothing.
pub proof fn lemma_paytable(h1: Hand, h2: Hand)
    ensures
        hand_level(h1) < hand_level(h2) ==> hand_multiplier(h1) < hand_multiplier(h2),
        hand_multiplier(Hand::HighCard) == 0 && hand_multiplier(Hand::JacksOrBetter) == 1
            && hand_multiplier(Hand::TwoPair) == 2 && hand_multiplier(Hand::ThreeOfAKind) == 3
            && hand_multiplier(Hand::Straight) == 4 && hand_multiplier(Hand::Flush) == 6
            && hand_multiplier(Hand::FullHouse) == 9 && hand_multiplier(Hand::FourOfAKind) == 25
            && hand_multiplier(Hand::StraightFlush) == 50 && hand_multiplier(Hand::RoyalFlush) == 800,
{
}

/// Position of a hand in the ranking, from 0 for high card to 9 for a royal
/// flush.
pub open spec fn hand_level(h: Hand) -> int {
    match h {
        Hand::HighCard => 0,
        Hand::JacksOrBetter => 1,
        Hand::TwoPair => 2,
        Hand::ThreeOfAKind => 3,
        Hand::Straight => 4,
        Hand::Flush => 5,
        Hand::FullHouse => 6,
        Hand::FourOfAKind => 7,
        Hand::StraightFlush => 8,
        Hand::RoyalFlush => 9,
    }
}

/// How many of the five cards have rank `r`.
fn count_rank(cards: &[u8; 5], r: u8) -> (n: u8)
    ensures
        n == rank_count(cards@, r as int),
{
    let mut n: u8 = 0;
    if card_rank(cards[0]) == r {
        n += 1;
    }
    if card_rank(cards[1]) == r {
        n += 1;
    }
    if card_rank(cards[2]) == r {
        n += 1;
    }
    if card_rank(cards[3]) == r {
        n += 1;
    }
    if card_rank(cards[4]) == r {
        n += 1;
    }
    n
}

/// Whether no two cards share a rank.
fn distinct_ranks(cards: &[u8; 5]) -> (b: bool)
    ensures
        b == ranks_distinct(cards@),
{
    let r0 = card_rank(cards[0]);
    let r1 = card_rank(cards[1]);
    let r2 = card_rank(cards[2]);
    let r3 = card_rank(cards[3]);
    let r4 = card_rank(cards[4]);
    let b = r0 != r1 && r0 != r2 && r0 != r3 && r0 != r4 && r1 != r2 && r1 != r3 && r1 != r4 && r2
        != r3 && r2 != r4 && r3 != r4;
    proof {
        let c = cards@;
        if b {
            assert forall|i: int, j: int| 0 <= i < j < 5 implies rank1(#[trigger] c[i]) != rank1(
                #[trigger] c[j],
            ) by {}
        } else {
            if r0 == r1 {
                assert(rank1(c[0]) == rank1(c[1]));
            } else if r0 == r2 {
                assert(rank1(c[0]) == rank1(c[2]));
            } else if r0 == r3 {
                assert(rank1(c[0]) == rank1(c[3]));
            } else if r0 == r4 {
                assert(rank1(c[0]) == rank1(c[4]));
            } else if r1 == r2 {
                assert(rank1(c[1]) == rank1(c[2]));
            } else if r1 == r3 {
                assert(rank1(c[1]) == rank1(c[3]));
            } else if r1 == r4 {
                assert(rank1(c[1]) == rank1(c[4]));
            } else if r2 == r3 {
                assert(rank1(c[2]) == rank1(c[3]));
            } else if r2 == r4 {
                assert(rank1(c[2]) == rank1(c[4]));
            } else {
                assert(rank1(c[3]) == rank1(c[4]));
            }
        }
    }
    b
}

/// Evaluate a 5-card poker hand.
pub fn evaluate_hand(cards: &[u8; 5]) -> (h: Hand)
    ensures
        h == hand_of(cards@),
{
    let r0 = card_rank(cards[0]);
    let r1 = card_rank(cards[1]);
    let r2 = card_rank(cards[2]);
    let r3 = card_rank(cards[3]);
    let r4 = card_rank(cards[4]);
    let mut lo = r0;
    let mut hi = r0;
    if r1 < lo {
        lo = r1;
    }
    if r1 > hi {
        hi = r1;
    }
    if r2 < lo {
        lo = r2;
    }
    if r2 > hi {
        hi = r2;
    }
    if r3 < lo {
        lo = r3;
    }
    if r3 > hi {
        hi = r3;
    }
    if r4 < lo {
        lo = r4;
    }
    if r4 > hi {
        hi = r4;
    }
    assert(lo == low_rank(cards@) && hi == high_rank(cards@));
    let is_flush = card_suit(cards[0]) == card_suit(cards[1]) && card_suit(cards[1]) == card_suit(
        cards[2],
    ) && card_suit(cards[2]) == card_suit(cards[3]) && card_suit(cards[3]) == card_suit(cards[4]);
    let has_duplicates = !distinct_ranks(cards);
    let is_royal = count_rank(cards, 1) == 1 && count_rank(cards, 10) == 1 && count_rank(cards, 11)
        == 1 && count_rank(cards, 12) == 1 && count_rank(cards, 13) == 1;
    let is_wheel = count_rank(cards, 1) == 1 && count_rank(cards, 2) == 1 && count_rank(cards, 3)
        == 1 && count_rank(cards, 4) == 1 && count_rank(cards, 5) == 1;
    let is_straight = if has_duplicates {
        false
    } else if is_royal {
        true
    } else if is_wheel {
        true
    } else {
        hi - lo == 4
    };
    let mut pairs: u8 = 0;
    let mut three_kind = false;
    let mut four_kind = false;
    let mut high_pair = false;
    let mut rank: u8 = 1;
    while rank < 14
        invariant
            1 <= rank <= 14,
            pairs == pairs_below(cards@, rank as nat),
            pairs < rank,
            three_kind == some_count_below(cards@, 3, rank as nat),
            four_kind == some_count_below(cards@, 4, rank as nat),
            high_pair == high_pair_below(cards@, rank as nat),
        decreases 14 - rank,
    {
        let count = count_rank(cards, rank);
        if count == 2 {
            pairs += 1;
            if rank >= 11 || rank == 1 {
                high_pair = true;
            }
        } else if count == 3 {
            three_kind = true;
        } else if count == 4 {
            four_kind = true;
        }
        rank += 1;
    }
    if is_royal && is_flush {
        Hand::RoyalFlush
    } else if is_straight && is_flush {
        Hand::StraightFlush
    } else if four_kind {
        Hand::FourOfAKind
    } else if three_kind && pairs == 1 {
        Hand::FullHouse
    } else if is_flush {
        Hand::Flush
    } else if is_straight {
        Hand::Straight
    } else if three_kind {
        Hand::ThreeOfAKind
    } else if pairs == 2 {
        Hand::TwoPair
    } else if pairs == 1 && high_pair {
        Hand::JacksOrBetter
    } else {
        Hand::HighCard
    }
}

/// Units paid per unit bet for each hand.
pub open spec fn hand_multiplier(hand: Hand) -> u64 {
    match hand {
        Hand::HighCard => 0,
        Hand::JacksOrBetter => 1,
        Hand::TwoPair => 2,
        Hand::ThreeOfAKind => 3,
        Hand::Straight => 4,
        Hand::Flush => 6,
        Hand::FullHouse => 9,
        Hand::FourOfAKind => 25,
        Hand::StraightFlush => 50,
        Hand::RoyalFlush => 800,
    }
}

/// Payout multiplier for each hand (Jacks or Better paytable).
pub fn payout_multiplier(hand: Hand) -> (m: u64)
    ensures
        m == hand_multiplier(hand),
{
    match hand {
        Hand::HighCard => 0,
        Hand::JacksOrBetter => 1,
        Hand::TwoPair => 2,
        Hand::ThreeOfAKind => 3,
        Hand::Straight => 4,
        Hand::Flush => 6,
        Hand::FullHouse => 9,
        Hand::FourOfAKind => 25,
        Hand::StraightFlush => 50,
        Hand::RoyalFlush => 800,
    }
}

/// Wire code of a stage.
pub open spec fn stage_code(s: Stage) -> u8 {
    match s {
        Stage::Deal => 0,
        Stage::Draw => 1,
    }
}

/// The state blob: the stage code and the five cards.
pub open spec fn state_bytes(stage: Stage, cards: Seq<u8>) -> Seq<u8> {
    seq![stage_code(stage)] + cards
}

/// The stage and cards of a blob: at least six bytes, a valid stage code
/// (further bytes are ignored).
pub open spec fn parse_blob(b: Seq<u8>) -> Option<(Stage, Seq<u8>)> {
    if b.len() < 6 {
        None
    } else {
        match stage_of(b[0]) {
            Some(s) => Some((s, b.subrange(1, 6))),
            None => None,
        }
    }
}

/// A blob written from a stage and five cards reads back as them.
pub proof fn lemma_state_roundtrip(stage: Stage, cards: Seq<u8>)
    requires
        cards.len() == 5,
    ensures
        parse_blob(state_bytes(stage, cards)) == Some((stage, cards)),
{
    assert(state_bytes(stage, cards).subrange(1, 6) =~= cards);
    assert(stage_of(stage_code(stage)) == Some(stage));
}

/// Stage and cards of a state blob; `None` when it is malformed.
pub fn parse_state(state: &[u8]) -> (r: Option<(Stage, [u8; 5])>)
    ensures
        match r {
            Some((s, c)) => parse_blob(state@) == Some((s, c@)),
            None => parse_blob(state@) is None,
        },
{
    if state.len() < 6 {
        return None;
    }
    let stage = match Stage::try_from(state[0]) {
        Ok(s) => s,
        Err(_) => return None,
    };
    let cards = [state[1], state[2], state[3], state[4], state[5]];
    assert(cards@ =~= state@.subrange(1, 6));
    Some((stage, cards))
}

/// The blob of a stage and five cards.
pub fn serialize_state(stage: Stage, cards: &[u8; 5]) -> (b: Vec<u8>)
    ensures
        b@ == state_bytes(stage, cards@),
{
    let code: u8 = match stage {
        Stage::Deal => 0,
        Stage::Draw => 1,
    };
    let v = vec![code, cards[0], cards[1], cards[2], cards[3], cards[4]];
    assert(v@ =~= state_bytes(stage, cards@));
    v
}

/// The five cards dealt from a shuffled deck at `p`, and the point after.
pub open spec fn initial_hand(p: RngPoint) -> (Seq<u8>, RngPoint) {
    let s0 = shuffled(ordered_deck(), p);
    let d1 = card_draw(s0.0, s0.1);
    let d2 = card_draw(d1.1, d1.2);
    let d3 = card_draw(d2.1, d2.2);
    let d4 = card_draw(d3.1, d3.2);
    let d5 = card_draw(d4.1, d4.2);
    (seq![d1.0, d2.0, d3.0, d4.0, d5.0], d5.2)
}

/// Whether the mask holds card `i` (from 0).
pub open spec fn hold_bit(mask: u8, i: int) -> bool {
    mask & (1u8 << (i as u8)) != 0
}

/// The held cards among the first `n`, in order.
pub open spec fn held_cards(c: Seq<u8>, mask: u8, n: nat) -> Seq<u8>
    decreases n,
{
    if n == 0 {
        Seq::empty()
    } else {
        let prev = held_cards(c, mask, (n - 1) as nat);
        if hold_bit(mask, n - 1) {
            prev.push(c[n - 1])
        } else {
            prev
        }
    }
}

/// Replacing the cards that are not held among the first `n`, in order, from
/// `deck` at point `q`: the cards, the deck left and the point after.
pub open spec fn redraw(c: Seq<u8>, mask: u8, deck: Seq<u8>, q: RngPoint, n: nat) -> (
    Seq<u8>,
    Seq<u8>,
    RngPoint,
)
    decreases n,
{
    if n == 0 {
        (c, deck, q)
    } else {
        let prev = redraw(c, mask, deck, q, (n - 1) as nat);
        if hold_bit(mask, n - 1) {
            prev
        } else {
            let d = card_draw(prev.1, prev.2);
            (prev.0.update(n - 1, d.0), d.1, d.2)
        }
    }
}

/// The final cards: held cards kept, the others drawn from a shuffled deck
/// without the held cards; also the point after.
pub open spec fn final_hand(c: Seq<u8>, mask: u8, p: RngPoint) -> (Seq<u8>, RngPoint) {
    let s = shuffled(remove_each(ordered_shoe(1), held_cards(c, mask, 5)), p);
    let r = redraw(c, mask, s.0, s.1, 5);
    (r.0, r.2)
}

/// Result of a final hand: a win of the bet times the paytable multiplier
/// (times the super multipliers of the five cards when super mode is active),
/// or a loss.
pub open spec fn hand_result(bet: u64, cards: Seq<u8>, super_active: bool, mults: Seq<super::session::SuperMultiplier>) -> GameResult {
    let m = hand_multiplier(hand_of(cards));
    if m > 0 {
        let base = sat_mul(bet as int, m as int);
        if super_active {
            GameResult::Win(sat_mul(base, cards_product(cards, mults)) as u64)
        } else {
            GameResult::Win(base as u64)
        }
    } else {
        GameResult::Loss
    }
}

/// The error a move is refused with, if any, checked in order.
pub open spec fn move_error(is_complete: bool, blob: Seq<u8>, payload: Seq<u8>) -> Option<
    GameError,
> {
    if is_complete {
        Some(GameError::GameAlreadyComplete)
    } else if payload.len() == 0 {
        Some(GameError::InvalidPayload)
    } else {
        match parse_blob(blob) {
            None => Some(GameError::InvalidPayload),
            Some(st) => if st.0 != Stage::Deal {
                Some(GameError::GameAlreadyComplete)
            } else {
                None
            },
        }
    }
}

/// Video Poker.
pub struct VideoPoker;

impl CasinoGame for VideoPoker {
    open spec fn init_requires(s0: GameSession) -> bool {
        init_requires(s0)
    }

    open spec fn init_ensures(s0: GameSession, p0: RngPoint, r: GameResult, s1: GameSession, p1: RngPoint) -> bool {
        init_ensures(s0, p0, r, s1, p1)
    }

    open spec fn move_requires(s0: GameSession, payload: Seq<u8>, p0: RngPoint) -> bool {
        move_requires(s0, payload, p0)
    }

    open spec fn move_ensures(
        s0: GameSession,
        payload: Seq<u8>,
        p0: RngPoint,
        r: Result<GameResult, GameError>,
        s1: GameSession,
        p1: RngPoint,
    ) -> bool {
        move_ensures(s0, payload, p0, r, s1, p1)
    }

    /// Deals five cards from a shuffled deck.
    fn init(session: &mut GameSession, rng: &mut GameRng) -> (r: GameResult) {
        let mut deck = rng.create_deck();
        let c1 = draw_from(rng, &mut deck);
        let c2 = draw_from(rng, &mut deck);
        let c3 = draw_from(rng, &mut deck);
        let c4 = draw_from(rng, &mut deck);
        let c5 = draw_from(rng, &mut deck);
        let cards: [u8; 5] = [c1, c2, c3, c4, c5];
        assert(cards@ =~= seq![c1, c2, c3, c4, c5]);
        session.state_blob = serialize_state(Stage::Deal, &cards);
        GameResult::Continue
    }

    /// Holds the masked cards, replaces the others and pays the final hand.
    fn process_move(session: &mut GameSession, payload: &[u8], rng: &mut GameRng) -> (r: Result<
        GameResult,
        GameError,
    >) {
        if session.is_complete {
            return Err(GameError::GameAlreadyComplete);
        }
        if payload.len() == 0 {
            return Err(GameError::InvalidPayload);
        }
        let (stage, cards0) = match parse_state(session.state_blob.as_slice()) {
            Some(x) => x,
            None => return Err(GameError::InvalidPayload),
        };
        if stage != Stage::Deal {
            return Err(GameError::GameAlreadyComplete);
        }
        let hold_mask = payload[0];
        session.move_count += 1;
        let ghost c0 = cards0@;
        let mut held: Vec<u8> = Vec::new();
        let mut i: u8 = 0;
        while i < 5
            invariant
                i <= 5,
                c0 == cards0@,
                held@ == held_cards(c0, hold_mask, i as nat),
                held@.len() <= i,
            decreases 5 - i,
        {
            if hold_mask & (1u8 << i) != 0 {
                held.push(cards0[i as usize]);
            }
            i += 1;
        }
        let ghost p0 = rng@;
        let mut deck = rng.create_deck_excluding(held.as_slice());
        proof {
            lemma_remove_each_len(ordered_shoe(1), held@);
        }
        let ghost deck0 = deck@;
        let ghost q0 = rng@;
        let mut cards: Vec<u8> = Vec::new();
        cards.push(cards0[0]);
        cards.push(cards0[1]);
        cards.push(cards0[2]);
        cards.push(cards0[3]);
        cards.push(cards0[4]);
        assert(cards@ =~= c0);
        let mut i: u8 = 0;
        while i < 5
            invariant
                i <= 5,
                (cards@, deck@, rng@) == redraw(c0, hold_mask, deck0, q0, i as nat),
                cards@.len() == 5,
                deck@.len() >= 47 - i,
            decreases 5 - i,
        {
            if hold_mask & (1u8 << i) == 0 {
                let c = draw_from(rng, &mut deck);
                cards.set(i as usize, c);
            }
            i += 1;
        }
        let final_cards: [u8; 5] = [cards[0], cards[1], cards[2], cards[3], cards[4]];
        assert(final_cards@ =~= cards@);
        session.state_blob = serialize_state(Stage::Draw, &final_cards);
        session.is_complete = true;
        let hand = evaluate_hand(&final_cards);
        let multiplier = payout_multiplier(hand);
        if multiplier > 0 {
            let base_winnings = saturating_mul_u64(session.bet, multiplier);
            let final_winnings = if session.super_mode.is_active {
                apply_super_multiplier_cards(
                    &final_cards,
                    session.super_mode.multipliers.as_slice(),
                    base_winnings,
                )
            } else {
                base_winnings
            };
            Ok(GameResult::Win(final_winnings))
        } else {
            Ok(GameResult::Loss)
        }
    }
}

/// What `process_move` requires of a session, a payload and a stream point.
pub open spec fn move_requires(s0: GameSession, payload: Seq<u8>, p0: RngPoint) -> bool {
    &&& move_error(s0.is_complete, s0.state_blob@, payload) is None
                ==> s0.move_count < u32::MAX
}

/// What `process_move` ensures of a session, a payload and a stream point
/// before (`s0`, `p0`) and after (`s1`, `p1`) the move, with result `r`.
pub open spec fn move_ensures(
    s0: GameSession,
    payload: Seq<u8>,
    p0: RngPoint,
    r: Result<GameResult, GameError>,
    s1: GameSession,
    p1: RngPoint,
) -> bool {
    &&& match move_error(s0.is_complete, s0.state_blob@, payload) {
                Some(e) => r == Err::<GameResult, GameError>(e) && s1 == s0
                    && p1 == p0,
                None => {
                    let c = parse_blob(s0.state_blob@).unwrap().1;
                    let f = final_hand(c, payload[0], p0);
                    &&& session_fields_kept(s0, s1)
                    &&& s1.state_blob@ == state_bytes(Stage::Draw, f.0)
                    &&& s1.is_complete
                    &&& s1.move_count == s0.move_count + 1
                    &&& p1 == f.1
                    &&& r == Ok::<GameResult, GameError>(
                        hand_result(
                            s0.bet,
                            f.0,
                            s0.super_mode.is_active,
                            s0.super_mode.multipliers@,
                        ),
                    )
                },
            }
}

/// What `init` requires of a session.
pub open spec fn init_requires(s0: GameSession) -> bool {
    true
}

/// What `init` ensures of a session and a stream point before (`s0`, `p0`)
/// and after (`s1`, `p1`), with result `r`.
pub open spec fn init_ensures(s0: GameSession, p0: RngPoint, r: GameResult, s1: GameSession, p1: RngPoint) -> bool {
    &&& r == GameResult::Continue
    &&& s1.state_blob@ == state_bytes(Stage::Deal, initial_hand(p0).0)
    &&& p1 == initial_hand(p0).1
    &&& session_fields_kept(s0, s1)
    &&& s1.is_complete == s0.is_complete
    &&& s1.move_count == s0.move_count
}

} // verus!
