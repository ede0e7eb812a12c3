//! Blackjack: main wager, splits (up to four hands), doubles and the 21+3 side bet.
//!
//! House rules: 8-deck shoe, dealer hits soft 17, no surrender, no insurance,
//! no peek (the hole card is drawn at reveal).
//!
//! State blob (version 2):
//! `[2] [stage] [side_bet_21plus3:u64 BE] [initial_card1] [initial_card2]
//! [active_hand_idx] [hand_count]`, then per hand
//! `[bet_mult] [status] [was_split] [card_count] [cards...]`, then
//! `[dealer_count] [dealer_cards...]`.
//!
//! Payload: `[move]` or `[5, amount:u64 BE]`; moves 0 Hit, 1 Stand, 2 Double,
//! 3 Split, 4 Deal, 5 Set 21+3, 6 Reveal.

use super::common::{wrap_i64, u64_as_i64, be_u64, lemma_u64_be_roundtrip, push_all, push_u64_be, read_u64_be, sat_add, sat_mul, saturating_mul_u64, u64_be_bytes};
use super::rng::{card_draw, draw_from, ordered_shoe, remove_each, shuffled, lemma_remove_each_len, GameRng, RngPoint};
use super::session::{session_fields_kept, GameSession, SuperMultiplier};
use super::super_mode::{apply_super_multiplier_cards, cards_product};
use super::{CasinoGame, GameError, GameResult};
use vstd::prelude::*;

verus! {

/// Most cards a stored hand may hold.
pub const MAX_HAND_SIZE: usize = 11;

/// Most hands (after splits).
pub const MAX_HANDS: usize = 4;

/// State blob version.
pub const STATE_VERSION: u8 = 2;

/// Marker of a card not dealt yet.
pub const CARD_UNKNOWN: u8 = 0xFF;

/// Decks in the shoe.
pub const BLACKJACK_DECKS: u8 = 8;

/// Blackjack game stages.
#[derive(Clone, Copy, Debug, PartialEq, Eq, Structural)]
pub enum Stage {
    Betting,
    PlayerTurn,
    AwaitingReveal,
    Complete,
}

/// Blackjack moves.
#[derive(Clone, Copy, Debug, PartialEq, Eq, Structural)]
pub enum Move {
    Hit,
    Stand,
    Double,
    Split,
    Deal,
    Set21Plus3,
    Reveal,
}

/// Status of one hand.
#[derive(Clone, Copy, Debug, PartialEq, Eq, Structural)]
pub enum HandStatus {
    Playing,
    Standing,
    Busted,
    Blackjack,
}

/// Stage of a wire code.
pub open spec fn stage_of(v: u8) -> Option<Stage> {
    if v == 0 {
        Some(Stage::Betting)
    } else if v == 1 {
        Some(Stage::PlayerTurn)
    } else if v == 2 {
        Some(Stage::AwaitingReveal)
    } else if v == 3 {
        Some(Stage::Complete)
    } else {
        None
    }
}

/// Wire code of a stage.
pub open spec fn stage_code(s: Stage) -> u8 {
    match s {
        Stage::Betting => 0,
        Stage::PlayerTurn => 1,
        Stage::AwaitingReveal => 2,
        Stage::Complete => 3,
    }
}

/// Move of a wire code.
pub open spec fn move_of(v: u8) -> Option<Move> {
    if v == 0 {
        Some(Move::Hit)
    } else if v == 1 {
        Some(Move::Stand)
    } else if v == 2 {
        Some(Move::Double)
    } else if v == 3 {
        Some(Move::Split)
    } else if v == 4 {
        Some(Move::Deal)
    } else if v == 5 {
        Some(Move::Set21Plus3)
    } else if v == 6 {
        Some(Move::Reveal)
    } else {
        None
    }
}

/// Hand status of a wire code.
pub open spec fn status_of(v: u8) -> Option<HandStatus> {
    if v == 0 {
        Some(HandStatus::Playing)
    } else if v == 1 {
        Some(HandStatus::Standing)
    } else if v == 2 {
        Some(HandStatus::Busted)
    } else if v == 3 {
        Some(HandStatus::Blackjack)
    } else {
        None
    }
}

/// Wire code of a hand status.
pub open spec fn status_code(s: HandStatus) -> u8 {
    match s {
        HandStatus::Playing => 0,
        HandStatus::Standing => 1,
        HandStatus::Busted => 2,
        HandStatus::Blackjack => 3,
    }
}

impl Stage {
    /// The stage with wire code `value`, or `InvalidPayload`.
    pub fn try_from(value: u8) -> (r: Result<Stage, GameError>)
        ensures
            r == match stage_of(value) {
                Some(s) => Ok(s),
                None => Err(GameError::InvalidPayload),
            },
    {
        match value {
            0 => Ok(Stage::Betting),
            1 => Ok(Stage::PlayerTurn),
            2 => Ok(Stage::AwaitingReveal),
            3 => Ok(Stage::Complete),
            _ => Err(GameError::InvalidPayload),
        }
    }

    /// Wire code.
    pub fn to_u8(self) -> (c: u8)
        ensures
            c == stage_code(self),
    {
        match self {
            Stage::Betting => 0,
            Stage::PlayerTurn => 1,
            Stage::AwaitingReveal => 2,
            Stage::Complete => 3,
        }
    }
}

impl Move {
    /// The move with wire code `value`, or `InvalidPayload`.
    pub fn try_from(value: u8) -> (r: Result<Move, GameError>)
        ensures
            r == match move_of(value) {
                Some(m) => Ok(m),
                None => Err(GameError::InvalidPayload),
            },
    {
        match value {
            0 => Ok(Move::Hit),
            1 => Ok(Move::Stand),
            2 => Ok(Move::Double),
            3 => Ok(Move::Split),
            4 => Ok(Move::Deal),
            5 => Ok(Move::Set21Plus3),
            6 => Ok(Move::Reveal),
            _ => Err(GameError::InvalidPayload),
        }
    }
}

impl HandStatus {
    /// The status with wire code `v`, or `InvalidPayload`.
    pub fn try_from(v: u8) -> (r: Result<HandStatus, GameError>)
        ensures
            r == match status_of(v) {
                Some(s) => Ok(s),
                None => Err(GameError::InvalidPayload),
            },
    {
        match v {
            0 => Ok(HandStatus::Playing),
            1 => Ok(HandStatus::Standing),
            2 => Ok(HandStatus::Busted),
            3 => Ok(HandStatus::Blackjack),
            _ => Err(GameError::InvalidPayload),
        }
    }

    /// Wire code.
    pub fn to_u8(self) -> (c: u8)
        ensures
            c == status_code(self),
    {
        match self {
            HandStatus::Playing => 0,
            HandStatus::Standing => 1,
            HandStatus::Busted => 2,
            HandStatus::Blackjack => 3,
        }
    }
}

// ============================================================================
// Hand values
// ============================================================================

/// Points of a card with aces counted as 11.
pub open spec fn card_points(card: u8) -> int {
    let rank = card % 13 + 1;
    if rank == 1 {
        11
    } else if rank >= 10 {
        10
    } else {
        rank as int
    }
}

/// Sum of the cards with aces counted as 11.
pub open spec fn raw_points(cards: Seq<u8>) -> int
    decreases cards.len(),
{
    if cards.len() == 0 {
        0
    } else {
        raw_points(cards.drop_last()) + card_points(cards.last())
    }
}

/// Number of aces.
pub open spec fn ace_count(cards: Seq<u8>) -> int
    decreases cards.len(),
{
    if cards.len() == 0 {
        0
    } else {
        ace_count(cards.drop_last()) + if cards.last() % 13 == 0 {
            1int
        } else {
            0
        }
    }
}

/// Counting aces as 1 instead of 11, one at a time, while the total is over 21:
/// the total and the aces still counted as 11.
pub open spec fn soften(value: int, aces: int) -> (int, int)
    decreases aces,
{
    if value > 21 && aces > 0 {
        soften(value - 10, aces - 1)
    } else {
        (value, aces)
    }
}

/// Blackjack value of a hand and whether it is soft.
pub open spec fn hand_val(cards: Seq<u8>) -> (int, bool) {
    let r = soften(raw_points(cards), ace_count(cards));
    (if r.0 > 255 {
        255
    } else {
        r.0
    }, r.1 > 0 && r.0 <= 21)
}

/// The counts of a hand stay within what `hand_value` accumulates.
pub open spec fn countable(cards: Seq<u8>) -> bool {
    raw_points(cards) <= u16::MAX && ace_count(cards) <= u8::MAX
}

/// Partial counts never exceed the full counts.
proof fn lemma_counts_prefix(cards: Seq<u8>, i: int)
    requires
        0 <= i <= cards.len(),
    ensures
        0 <= raw_points(cards.subrange(0, i)) <= raw_points(cards),
        0 <= ace_count(cards.subrange(0, i)) <= ace_count(cards),
        raw_points(cards) <= 11 * cards.len(),
        ace_count(cards) <= cards.len(),
        raw_points(cards) - 10 * ace_count(cards) >= cards.len(),
    decreases cards.len(),
{
    if cards.len() > 0 {
        if i == cards.len() {
            assert(cards.subrange(0, i) =~= cards);
            lemma_counts_prefix(cards.drop_last(), i - 1);
        } else {
            lemma_counts_prefix(cards.drop_last(), i);
            assert(cards.drop_last().subrange(0, i) =~= cards.subrange(0, i));
        }
    }
}

/// A hand of at most 255 cards can be counted.
proof fn lemma_countable(cards: Seq<u8>)
    requires
        cards.len() <= 255,
    ensures
        countable(cards),
{
    lemma_counts_prefix(cards, 0);
}

/// Softening keeps the total at least the hard total.
proof fn lemma_soften_bounds(value: int, aces: int)
    requires
        aces >= 0,
    ensures
        soften(value, aces).0 >= value - 10 * aces,
        0 <= soften(value, aces).1 <= aces,
        soften(value, aces).0 <= value,
    decreases aces,
{
    if value > 21 && aces > 0 {
        lemma_soften_bounds(value - 10, aces - 1);
    }
}

/// Calculate the value of a blackjack hand and whether it is soft.
pub fn hand_value(cards: &[u8]) -> (r: (u8, bool))
    requires
        countable(cards@),
    ensures
        (r.0 as int, r.1) == hand_val(cards@),
{
    let mut value: u16 = 0;
    let mut aces: u8 = 0;
    let mut i: usize = 0;
    while i < cards.len()
        invariant
            i <= cards@.len(),
            countable(cards@),
            value == raw_points(cards@.subrange(0, i as int)),
            aces == ace_count(cards@.subrange(0, i as int)),
        decreases cards@.len() - i,
    {
        proof {
            let s = cards@.subrange(0, i as int + 1);
            assert(s.drop_last() =~= cards@.subrange(0, i as int));
            lemma_counts_prefix(cards@, i as int + 1);
        }
        let card = cards[i];
        let rank = (card % 13) + 1;
        if rank == 1 {
            aces += 1;
            value += 11;
        } else if rank >= 10 {
            value += 10;
        } else {
            value += rank as u16;
        }
        i += 1;
    }
    assert(cards@.subrange(0, cards@.len() as int) =~= cards@);
    let ghost v0 = value as int;
    let ghost a0 = aces as int;
    while value > 21 && aces > 0
        invariant
            soften(value as int, aces as int) == soften(v0, a0),
        decreases aces,
    {
        value -= 10;
        aces -= 1;
    }
    let is_soft = aces > 0 && value <= 21;
    let v: u8 = if value > 255 {
        255
    } else {
        value as u8
    };
    (v, is_soft)
}

/// A two-card 21.
pub open spec fn blackjack_hand(cards: Seq<u8>) -> bool {
    cards.len() == 2 && hand_val(cards).0 == 21
}

/// Two cards can always be counted.
proof fn lemma_two_cards_countable(cards: Seq<u8>)
    requires
        cards.len() == 2,
    ensures
        countable(cards),
{
    let d1 = cards.drop_last();
    let d0 = d1.drop_last();
    assert(d0.len() == 0);
    assert(raw_points(d0) == 0 && ace_count(d0) == 0);
    assert(raw_points(d1) == card_points(d1.last()));
    assert(ace_count(d1) <= 1);
    assert(raw_points(cards) == raw_points(d1) + card_points(cards.last()));
}

/// Check if hand is a blackjack (21 with 2 cards).
pub fn is_blackjack(cards: &[u8]) -> (b: bool)
    ensures
        b == blackjack_hand(cards@),
{
    if cards.len() != 2 {
        return false;
    }
    proof {
        lemma_two_cards_countable(cards@);
    }
    hand_value(cards).0 == 21
}

/// Pip value of a card with the ace counted as one: two to nine their pips,
/// tens and faces ten.
pub open spec fn pip_value(card: u8) -> int {
    let r = card % 13;
    if r == 0 {
        1
    } else if r >= 9 {
        10
    } else {
        r + 1
    }
}

/// Sum of the pip values of a hand, aces counted as one.
pub open spec fn pip_total(cards: Seq<u8>) -> int
    decreases cards.len(),
{
    if cards.len() == 0 {
        0
    } else {
        pip_total(cards.drop_last()) + pip_value(cards.last())
    }
}

/// Some card of the hand is an ace.
pub open spec fn holds_ace(cards: Seq<u8>) -> bool {
    exists|i: int| 0 <= i < cards.len() && #[trigger] cards[i] % 13 == 0
}

/// The aces-as-eleven total is the pip total plus ten per ace.
proof fn lemma_points_split(cards: Seq<u8>)
    ensures
        raw_points(cards) == pip_total(cards) + 10 * ace_count(cards),
        pip_total(cards) >= ace_count(cards) >= 0,
        ace_count(cards) > 0 <==> holds_ace(cards),
    decreases cards.len(),
{
    if cards.len() > 0 {
        let d = cards.drop_last();
        lemma_points_split(d);
        if holds_ace(d) {
            let i = choose|i: int| 0 <= i < d.len() && #[trigger] d[i] % 13 == 0;
            assert(cards[i] == d[i]);
        }
        if holds_ace(cards) && cards.last() % 13 != 0 {
            let i = choose|i: int| 0 <= i < cards.len() && #[trigger] cards[i] % 13 == 0;
            assert(i < d.len());
            assert(d[i] == cards[i]);
        }
        if cards.last() % 13 == 0 {
            assert(cards[cards.len() - 1] % 13 == 0);
        }
    }
}

/// Softening a total of `p` pips and `a` aces leaves one ace at eleven when
/// that fits in 21, and none otherwise.
proof fn lemma_soften_pips(p: int, a: int)
    requires
        0 <= a <= p,
    ensures
        soften(p + 10 * a, a) == if a > 0 && p <= 11 {
            (p + 10, 1int)
        } else {
            (p, 0int)
        },
    decreases a,
{
    if p + 10 * a > 21 && a > 0 {
        lemma_soften_pips(p, a - 1);
    }
}

/// The value of a blackjack hand: aces count one and the other cards their
/// pips, tens and faces ten, and one ace counts eleven instead when that
/// keeps the total at 21 or under; the hand is soft exactly then. The value
/// is capped at 255.
pub proof fn lemma_hand_value_rule(cards: Seq<u8>)
    ensures
        hand_val(cards).1 == (holds_ace(cards) && pip_total(cards) <= 11),
        hand_val(cards).0 == if holds_ace(cards) && pip_total(cards) <= 11 {
            pip_total(cards) + 10
        } else if pip_total(cards) > 255 {
            255
        } else {
            pip_total(cards)
        },
{
    lemma_points_split(cards);
    lemma_soften_pips(pip_total(cards), ace_count(cards));
}

/// Card rank (0-12).
pub fn card_rank(card: u8) -> (r: u8)
    ensures
        r == card % 13,
{
    card % 13
}

/// Rank with the ace high: 2-13, ace 14.
pub open spec fn rank_hi(card: u8) -> int {
    let r = card % 13 + 1;
    if r == 1 {
        14
    } else {
        r as int
    }
}

/// Card rank with the ace high (2-14).
pub fn card_rank_ace_high(card: u8) -> (r: u8)
    ensures
        r == rank_hi(card),
{
    let r = (card % 13) + 1;
    if r == 1 {
        14
    } else {
        r
    }
}

/// Card suit.
pub fn card_suit(card: u8) -> (s: u8)
    ensures
        s == card / 13,
{
    card / 13
}

// ============================================================================
// 21+3
// ============================================================================

/// Three ranks (ace high) in a row, or A-2-3.
pub open spec fn three_straight(a: int, b: int, c: int) -> bool {
    let lo = if a <= b && a <= c {
        a
    } else if b <= c {
        b
    } else {
        c
    };
    let hi = if a >= b && a >= c {
        a
    } else if b >= c {
        b
    } else {
        c
    };
    let distinct = a != b && a != c && b != c;
    distinct && (hi - lo == 2 || (lo == 2 && hi == 14 && a + b + c == 19))
}

/// 21+3 pay table ("to 1"): straight flush 30, trips 20, straight 10, flush 5.
pub open spec fn plus3_mult(c0: u8, c1: u8, c2: u8) -> u64 {
    let flush = c0 / 13 == c1 / 13 && c1 / 13 == c2 / 13;
    let trips = c0 % 13 == c1 % 13 && c1 % 13 == c2 % 13;
    let straight = three_straight(rank_hi(c0), rank_hi(c1), rank_hi(c2));
    if trips {
        20
    } else if straight && flush {
        30
    } else if straight {
        10
    } else if flush {
        5
    } else {
        0
    }
}

/// Whether three ranks (ace high) form a straight.
fn is_21plus3_straight(r0: u8, r1: u8, r2: u8) -> (b: bool)
    requires
        r0 <= 14 && r1 <= 14 && r2 <= 14,
    ensures
        b == three_straight(r0 as int, r1 as int, r2 as int),
{
    let lo = if r0 <= r1 && r0 <= r2 {
        r0
    } else if r1 <= r2 {
        r1
    } else {
        r2
    };
    let hi = if r0 >= r1 && r0 >= r2 {
        r0
    } else if r1 >= r2 {
        r1
    } else {
        r2
    };
    let distinct = r0 != r1 && r0 != r2 && r1 != r2;
    let is_wheel = distinct && lo == 2 && hi == 14 && r0 + r1 + r2 == 19;
    let is_run = distinct && hi - lo == 2;
    is_wheel || is_run
}

/// 21+3 multiplier ("to 1") of the player's two cards and the dealer's up card.
pub fn eval_21plus3_multiplier(cards: [u8; 3]) -> (m: u64)
    ensures
        m == plus3_mult(cards[0], cards[1], cards[2]),
{
    let is_flush = card_suit(cards[0]) == card_suit(cards[1]) && card_suit(cards[1]) == card_suit(
        cards[2],
    );
    let r1 = card_rank(cards[0]);
    let r2 = card_rank(cards[1]);
    let r3 = card_rank(cards[2]);
    let is_trips = r1 == r2 && r2 == r3;
    let is_straight = is_21plus3_straight(
        card_rank_ace_high(cards[0]),
        card_rank_ace_high(cards[1]),
        card_rank_ace_high(cards[2]),
    );
    if is_trips {
        20
    } else if is_straight && is_flush {
        30
    } else if is_straight {
        10
    } else if is_flush {
        5
    } else {
        0
    }
}

// ============================================================================
// State
// ============================================================================

/// One hand.
#[derive(Clone, Debug)]
pub struct HandState {
    pub cards: Vec<u8>,
    pub bet_mult: u8,
    pub status: HandStatus,
    pub was_split: bool,
}

/// Abstract hand: cards, bet multiplier, status, split flag.
pub type HandView = (Seq<u8>, u8, HandStatus, bool);

impl View for HandState {
    type V = HandView;

    open spec fn view(&self) -> HandView {
        (self.cards@, self.bet_mult, self.status, self.was_split)
    }
}

/// Game state.
pub struct BlackjackState {
    pub stage: Stage,
    pub side_bet_21plus3: u64,
    pub initial_player_cards: [u8; 2],
    pub active_hand_idx: usize,
    pub hands: Vec<HandState>,
    pub dealer_cards: Vec<u8>,
}

/// Abstract game state.
pub struct BlackjackView {
    pub stage: Stage,
    pub side_bet: u64,
    pub initial: (u8, u8),
    pub active: nat,
    pub hands: Seq<HandView>,
    pub dealer: Seq<u8>,
}

impl View for BlackjackState {
    type V = BlackjackView;

    open spec fn view(&self) -> BlackjackView {
        BlackjackView {
            stage: self.stage,
            side_bet: self.side_bet_21plus3,
            initial: (self.initial_player_cards[0], self.initial_player_cards[1]),
            active: self.active_hand_idx as nat,
            hands: self.hands@.map_values(|h: HandState| h@),
            dealer: self.dealer_cards@,
        }
    }
}

/// A natural blackjack: a two-card 21 on a hand that was not split.
pub open spec fn natural(h: HandView) -> bool {
    !h.3 && blackjack_hand(h.0)
}

/// Whether a hand is a natural blackjack.
pub fn is_natural_blackjack(hand: &HandState) -> (b: bool)
    ensures
        b == natural(hand@),
{
    !hand.was_split && is_blackjack(hand.cards.as_slice())
}

/// The encoding of one hand.
pub open spec fn hand_bytes(h: HandView) -> Seq<u8> {
    seq![h.1, status_code(h.2), if h.3 {
        1u8
    } else {
        0u8
    }, (h.0.len() % 256) as u8] + h.0
}

/// The encodings of a list of hands.
pub open spec fn hands_bytes(hands: Seq<HandView>) -> Seq<u8>
    decreases hands.len(),
{
    if hands.len() == 0 {
        Seq::empty()
    } else {
        hands_bytes(hands.drop_last()) + hand_bytes(hands.last())
    }
}

/// The state blob.
pub open spec fn state_bytes(v: BlackjackView) -> Seq<u8> {
    seq![STATE_VERSION, stage_code(v.stage)] + u64_be_bytes(v.side_bet) + seq![
        v.initial.0,
        v.initial.1,
        (v.active % 256) as u8,
        (v.hands.len() % 256) as u8,
    ] + hands_bytes(v.hands) + seq![(v.dealer.len() % 256) as u8] + v.dealer
}

/// The first `k` hands of a blob and the offset after them.
pub open spec fn parse_hands(b: Seq<u8>, k: nat) -> Option<(Seq<HandView>, int)>
    decreases k,
{
    if k == 0 {
        Some((Seq::empty(), 14))
    } else {
        match parse_hands(b, (k - 1) as nat) {
            None => None,
            Some((hs, off)) => if off + 4 > b.len() {
                None
            } else {
                match status_of(b[off + 1]) {
                    None => None,
                    Some(st) => {
                        let n = b[off + 3] as int;
                        if n > MAX_HAND_SIZE || off + 4 + n > b.len() {
                            None
                        } else {
                            Some(
                                (
                                    hs.push((b.subrange(off + 4, off + 4 + n), b[off], st, b[off + 2] != 0)),
                                    off + 4 + n,
                                ),
                            )
                        }
                    },
                }
            },
        }
    }
}

/// The state a blob encodes: version 2, at most four hands of at most 11 cards,
/// a dealer hand of at most 11 cards, and nothing after it.
pub open spec fn parse_blob(b: Seq<u8>) -> Option<BlackjackView> {
    if b.len() < 14 || b[0] != STATE_VERSION {
        None
    } else {
        match stage_of(b[1]) {
            None => None,
            Some(stage) => if b[13] > MAX_HANDS {
                None
            } else {
                match parse_hands(b, b[13] as nat) {
                    None => None,
                    Some((hands, off)) => if off >= b.len() {
                        None
                    } else {
                        let dl = b[off] as int;
                        if dl > MAX_HAND_SIZE || off + 1 + dl > b.len() || off + 1 + dl != b.len() {
                            None
                        } else {
                            Some(
                                BlackjackView {
                                    stage,
                                    side_bet: be_u64(b.subrange(2, 10)),
                                    initial: (b[10], b[11]),
                                    active: b[12] as nat,
                                    hands,
                                    dealer: b.subrange(off + 1, off + 1 + dl),
                                },
                            )
                        }
                    },
                }
            },
        }
    }
}

/// One hand's encoding is four header bytes and its cards.
proof fn lemma_hand_bytes_len(h: HandView)
    ensures
        hand_bytes(h).len() == 4 + h.0.len(),
{
}

/// The hands of an encoded list read back one by one, after 14 header bytes.
#[verifier::spinoff_prover]
#[verifier::rlimit(60)]
proof fn lemma_parse_hands_of_bytes(pre: Seq<u8>, hands: Seq<HandView>, rest: Seq<u8>, k: nat)
    requires
        pre.len() == 14,
        k <= hands.len(),
        forall|i: int| 0 <= i < hands.len() ==> (#[trigger] hands[i]).0.len() <= MAX_HAND_SIZE,
    ensures
        parse_hands(pre + hands_bytes(hands) + rest, k) == Some(
            (hands.subrange(0, k as int), 14 + hands_bytes(hands.subrange(0, k as int)).len() as int),
        ),
    decreases hands.len(),
{
    let b = pre + hands_bytes(hands) + rest;
    if hands.len() == 0 {
        assert(hands.subrange(0, 0) =~= Seq::<HandView>::empty());
    } else {
        let init = hands.drop_last();
        let last = hands.last();
        let rest2 = hand_bytes(last) + rest;
        assert(b =~= pre + hands_bytes(init) + rest2);
        assert forall|i: int| 0 <= i < init.len() implies (#[trigger] init[i]).0.len() <= MAX_HAND_SIZE by {
            assert(init[i] == hands[i]);
        }
        if k == hands.len() {
            lemma_parse_hands_of_bytes(pre, init, rest2, (k - 1) as nat);
            assert(init.subrange(0, k - 1) =~= init);
            let off: int = 14 + hands_bytes(init).len() as int;
            let n: int = last.0.len() as int;
            assert(hands[hands.len() - 1] == last);
            lemma_hand_bytes_len(last);
            assert(b[off] == last.1);
            assert(b[off + 1] == status_code(last.2));
            assert(b[off + 2] == (if last.3 {
                1u8
            } else {
                0u8
            }));
            assert(b[off + 3] == (n % 256) as u8);
            assert(b.subrange(off + 4, off + 4 + n) =~= last.0);
            assert(hands.subrange(0, k as int) =~= init.push(last));
            assert(hands_bytes(hands.subrange(0, k as int)) =~= hands_bytes(init) + hand_bytes(last)) by {
                assert(hands.subrange(0, k as int).drop_last() =~= init);
            }
        } else {
            lemma_parse_hands_of_bytes(pre, init, rest2, k);
            assert(init.subrange(0, k as int) =~= hands.subrange(0, k as int));
        }
    }
}

/// Decoding the blob of a state gives the state back, for any state with at
/// most four hands and eleven cards in a hand and an active hand index below
/// 256.
#[verifier::spinoff_prover]
#[verifier::rlimit(60)]
pub proof fn lemma_state_roundtrip(v: BlackjackView)
    requires
        table_bounded(v),
        v.active < 256,
    ensures
        parse_blob(state_bytes(v)) == Some(v),
{
    let b = state_bytes(v);
    let pre = seq![STATE_VERSION, stage_code(v.stage)] + u64_be_bytes(v.side_bet) + seq![
        v.initial.0,
        v.initial.1,
        (v.active % 256) as u8,
        (v.hands.len() % 256) as u8,
    ];
    lemma_u64_be_roundtrip(v.side_bet);
    assert(pre.len() == 14);
    let tail = seq![(v.dealer.len() % 256) as u8] + v.dealer;
    assert(b =~= pre + hands_bytes(v.hands) + tail);
    let n: nat = v.hands.len();
    lemma_parse_hands_of_bytes(pre, v.hands, tail, n);
    assert(v.hands.subrange(0, n as int) =~= v.hands);
    let off: int = 14 + hands_bytes(v.hands).len() as int;
    assert(b[13] == n);
    assert(b.subrange(2, 10) =~= u64_be_bytes(v.side_bet));
    assert(b[off] == v.dealer.len());
    assert(b.subrange(off + 1, off + 1 + v.dealer.len()) =~= v.dealer);
}

/// Serialize state to blob.
pub fn serialize_state(state: &BlackjackState) -> (blob: Vec<u8>)
    ensures
        blob@ == state_bytes(state@),
{
    let mut blob: Vec<u8> = Vec::new();
    blob.push(STATE_VERSION);
    blob.push(state.stage.to_u8());
    push_u64_be(&mut blob, state.side_bet_21plus3);
    blob.push(state.initial_player_cards[0]);
    blob.push(state.initial_player_cards[1]);
    blob.push((state.active_hand_idx % 256) as u8);
    blob.push((state.hands.len() % 256) as u8);
    let ghost head = blob@;
    let ghost hv = state@.hands;
    let mut i: usize = 0;
    while i < state.hands.len()
        invariant
            i <= state.hands@.len(),
            hv == state.hands@.map_values(|h: HandState| h@),
            blob@ == head + hands_bytes(hv.subrange(0, i as int)),
        decreases state.hands@.len() - i,
    {
        let hand = &state.hands[i];
        blob.push(hand.bet_mult);
        blob.push(hand.status.to_u8());
        blob.push(if hand.was_split {
            1
        } else {
            0
        });
        blob.push((hand.cards.len() % 256) as u8);
        push_all(&mut blob, hand.cards.as_slice());
        proof {
            let s = hv.subrange(0, i as int + 1);
            assert(s.drop_last() =~= hv.subrange(0, i as int));
            assert(s.last() == hand@);
            assert(blob@ =~= head + hands_bytes(s));
        }
        i += 1;
    }
    assert(hv.subrange(0, hv.len() as int) =~= hv);
    blob.push((state.dealer_cards.len() % 256) as u8);
    push_all(&mut blob, state.dealer_cards.as_slice());
    assert(blob@ =~= state_bytes(state@));
    blob
}

/// One more hand extends the parsed hands.
proof fn lemma_parse_hands_step(b: Seq<u8>, k: nat)
    requires
        k > 0,
    ensures
        parse_hands(b, k) == match parse_hands(b, (k - 1) as nat) {
            None => None,
            Some((hs, off)) => if off + 4 > b.len() {
                None
            } else {
                match status_of(b[off + 1]) {
                    None => None,
                    Some(st) => {
                        let n = b[off + 3] as int;
                        if n > MAX_HAND_SIZE || off + 4 + n > b.len() {
                            None
                        } else {
                            Some(
                                (
                                    hs.push((b.subrange(off + 4, off + 4 + n), b[off], st, b[off + 2] != 0)),
                                    off + 4 + n,
                                ),
                            )
                        }
                    },
                }
            },
        },
{
}

/// Once a hand fails to parse, every longer list fails too.
proof fn lemma_parse_hands_none(b: Seq<u8>, k: nat, n: nat)
    requires
        parse_hands(b, k) is None,
        k <= n,
    ensures
        parse_hands(b, n) is None,
    decreases n - k,
{
    if k < n {
        lemma_parse_hands_none(b, k, (n - 1) as nat);
    }
}

/// Parse state from blob; `None` when it is malformed.
pub fn parse_state(blob: &[u8]) -> (r: Option<BlackjackState>)
    ensures
        match r {
            Some(s) => parse_blob(blob@) == Some(s@),
            None => parse_blob(blob@) is None,
        },
{
    if blob.len() < 14 {
        return None;
    }
    if blob[0] != STATE_VERSION {
        return None;
    }
    let stage = match Stage::try_from(blob[1]) {
        Ok(s) => s,
        Err(_) => return None,
    };
    let side_bet_21plus3 = read_u64_be(blob, 2);
    let initial_player_cards = [blob[10], blob[11]];
    let active_hand_idx = blob[12] as usize;
    let hand_count = blob[13] as usize;
    if hand_count > MAX_HANDS {
        return None;
    }
    let mut idx: usize = 14;
    let mut hands: Vec<HandState> = Vec::new();
    let mut k: usize = 0;
    while k < hand_count
        invariant
            hand_count <= MAX_HANDS,
            hand_count == blob@[13],
            blob@.len() >= 14,
            blob@[0] == STATE_VERSION,
            stage_of(blob@[1]) is Some,
            k <= hand_count,
            14 <= idx <= blob@.len(),
            idx <= 14 + 15 * k,
            parse_hands(blob@, k as nat) == Some((hands@.map_values(|h: HandState| h@), idx as int)),
        decreases hand_count - k,
    {
        proof {
            lemma_parse_hands_step(blob@, (k + 1) as nat);
        }
        if idx + 4 > blob.len() {
            proof {
                lemma_parse_hands_none(blob@, (k + 1) as nat, hand_count as nat);
            }
            return None;
        }
        let bet_mult = blob[idx];
        let status = match HandStatus::try_from(blob[idx + 1]) {
            Ok(st) => st,
            Err(_) => {
                proof {
                    lemma_parse_hands_none(blob@, (k + 1) as nat, hand_count as nat);
                }
                return None;
            },
        };
        let was_split = blob[idx + 2] != 0;
        let c_len = blob[idx + 3] as usize;
        if c_len > MAX_HAND_SIZE || idx + 4 + c_len > blob.len() {
            proof {
                lemma_parse_hands_none(blob@, (k + 1) as nat, hand_count as nat);
            }
            return None;
        }
        let cards = super::common::copy_range(blob, idx + 4, idx + 4 + c_len);
        let ghost before = hands@;
        hands.push(HandState { cards, bet_mult, status, was_split });
        proof {
            assert(hands@.map_values(|h: HandState| h@) =~= before.map_values(|h: HandState| h@).push(
                hands@.last()@,
            ));
        }
        idx = idx + 4 + c_len;
        k += 1;
    }
    if idx >= blob.len() {
        return None;
    }
    let d_len = blob[idx] as usize;
    if d_len > MAX_HAND_SIZE || idx + 1 + d_len > blob.len() {
        return None;
    }
    let dealer_cards = super::common::copy_range(blob, idx + 1, idx + 1 + d_len);
    if idx + 1 + d_len != blob.len() {
        return None;
    }
    Some(
        BlackjackState {
            stage,
            side_bet_21plus3,
            initial_player_cards,
            active_hand_idx,
            hands,
            dealer_cards,
        },
    )
}

// ============================================================================
// Game rules
// ============================================================================

/// Index of the first playing hand from `idx` on, or `idx` itself when it is
/// past the last hand.
pub open spec fn advance(hands: Seq<HandView>, idx: nat) -> nat
    decreases hands.len() - idx,
{
    if idx >= hands.len() {
        idx
    } else if hands[idx as int].2 == HandStatus::Playing {
        idx
    } else {
        advance(hands, idx + 1)
    }
}

/// The cards of all hands, hand after hand.
pub open spec fn flatten_cards(hands: Seq<HandView>) -> Seq<u8>
    decreases hands.len(),
{
    if hands.len() == 0 {
        Seq::empty()
    } else {
        flatten_cards(hands.drop_last()) + hands.last().0
    }
}

/// The cards on the table: the player's hands, then the dealer's.
pub open spec fn known_cards(v: BlackjackView) -> Seq<u8> {
    flatten_cards(v.hands) + v.dealer
}

/// Every hand busted.
pub open spec fn all_busted(hands: Seq<HandView>) -> bool {
    forall|i: int| 0 <= i < hands.len() ==> (#[trigger] hands[i]).2 == HandStatus::Busted
}

/// Return of the 21+3 side bet: the bet times its multiplier plus one, when
/// the two first player cards and the dealer's up card are real cards.
pub open spec fn side_return(v: BlackjackView) -> int {
    if v.side_bet == 0 || !(v.initial.0 < 52 && v.initial.1 < 52) || v.dealer.len() == 0
        || v.dealer[0] >= 52 {
        0
    } else {
        let m = plus3_mult(v.initial.0, v.initial.1, v.dealer[0]);
        if m == 0 {
            0
        } else {
            sat_mul(v.side_bet as int, m + 1)
        }
    }
}

/// Total staked on the hands (bet times multiplier, each saturating).
pub open spec fn main_wagered(bet: u64, hands: Seq<HandView>) -> int
    decreases hands.len(),
{
    if hands.len() == 0 {
        0
    } else {
        main_wagered(bet, hands.drop_last()) + sat_mul(bet as int, hands.last().1 as int)
    }
}

/// Final result: a win of the total return (times the super multipliers of the
/// first hand's cards when super mode is active), or a loss of all stakes.
pub open spec fn finalize(
    bet: u64,
    v: BlackjackView,
    total_return: int,
    super_active: bool,
    mults: Seq<SuperMultiplier>,
) -> GameResult {
    let wagered = sat_add(main_wagered(bet, v.hands), v.side_bet as int);
    let ret = if !super_active || total_return == 0 || v.hands.len() == 0 {
        total_return
    } else {
        sat_mul(total_return, cards_product(v.hands[0].0, mults))
    };
    if ret == 0 {
        GameResult::LossPreDeducted(wagered as u64)
    } else {
        GameResult::Win(ret as u64)
    }
}

/// The dealer draws until standing on hard 17 or any 18+ (hitting soft 17):
/// the dealer's cards, the deck left, the stream point, and whether the
/// dealer stood (false when the deck ran out first).
pub open spec fn dealer_play(dealer: Seq<u8>, deck: Seq<u8>, p: RngPoint) -> (
    Seq<u8>,
    Seq<u8>,
    RngPoint,
    bool,
)
    decreases deck.len(),
{
    let v = hand_val(dealer);
    if v.0 > 17 || (v.0 == 17 && !v.1) {
        (dealer, deck, p, true)
    } else if deck.len() == 0 {
        (dealer, deck, p, false)
    } else {
        let d = card_draw(deck, p);
        dealer_play(dealer.push(d.0), d.1, d.2)
    }
}

/// The dealer takes another card on this hand: under 17, or a soft 17.
pub open spec fn dealer_hits(hand: Seq<u8>) -> bool {
    hand_val(hand).0 < 17 || (hand_val(hand).0 == 17 && hand_val(hand).1)
}

/// The dealer hits soft 17: drawing from the deck, the dealer takes a card
/// exactly while the hand is under 17 or a soft 17, keeping the cards held
/// before in order, and a dealer who stands holds more than 17 or a hard 17.
pub proof fn lemma_dealer_hits_soft_17(dealer: Seq<u8>, deck: Seq<u8>, p: RngPoint)
    ensures
        dealer_play(dealer, deck, p).0.len() >= dealer.len(),
        dealer_play(dealer, deck, p).0.subrange(0, dealer.len() as int) == dealer,
        forall|j: int|
            dealer.len() <= j < dealer_play(dealer, deck, p).0.len() ==> dealer_hits(
                #[trigger] dealer_play(dealer, deck, p).0.subrange(0, j),
            ),
        dealer_play(dealer, deck, p).3 ==> !dealer_hits(dealer_play(dealer, deck, p).0),
    decreases deck.len(),
{
    let v = hand_val(dealer);
    if v.0 > 17 || (v.0 == 17 && !v.1) {
        assert(dealer.subrange(0, dealer.len() as int) =~= dealer);
    } else if deck.len() == 0 {
        assert(dealer.subrange(0, dealer.len() as int) =~= dealer);
    } else {
        let d = card_draw(deck, p);
        let next = dealer.push(d.0);
        assert(d.1.len() < deck.len());
        lemma_dealer_hits_soft_17(next, d.1, d.2);
        let r = dealer_play(dealer, deck, p);
        assert(r == dealer_play(next, d.1, d.2));
        assert(r.0.subrange(0, next.len() as int) == next);
        assert(r.0.subrange(0, dealer.len() as int) =~= next.subrange(0, dealer.len() as int));
        assert(next.subrange(0, dealer.len() as int) =~= dealer);
        assert forall|j: int| dealer.len() <= j < r.0.len() implies dealer_hits(
            #[trigger] r.0.subrange(0, j),
        ) by {
            if j == dealer.len() {
                assert(r.0.subrange(0, j) =~= dealer);
            }
        }
    }
}

/// Return of one hand against the dealer.
pub open spec fn hand_return(bet: u64, h: HandView, d_val: int, d_bj: bool) -> int {
    let b = sat_mul(bet as int, h.1 as int);
    let p_val = hand_val(h.0).0;
    if h.2 == HandStatus::Busted {
        0
    } else if natural(h) && d_bj {
        b
    } else if natural(h) {
        sat_mul(b, 5) / 2
    } else if d_bj {
        0
    } else if d_val > 21 {
        sat_mul(b, 2)
    } else if p_val > d_val {
        sat_mul(b, 2)
    } else if p_val == d_val {
        b
    } else {
        0
    }
}

/// How a hand settles against the dealer, for a stake `s` (the bet times the
/// hand's multiplier): a busted hand returns nothing; a natural blackjack
/// returns the stake and 3 to 2 on it, or pushes against a dealer blackjack,
/// which beats every other hand; otherwise a dealer bust or a higher total
/// returns twice the stake, an equal total the stake, and a lower nothing.
pub proof fn lemma_hand_settlement(bet: u64, h: HandView, d_val: int, d_bj: bool)
    requires
        bet * h.1 * 5 <= u64::MAX,
    ensures
        h.2 == HandStatus::Busted ==> hand_return(bet, h, d_val, d_bj) == 0,
        h.2 != HandStatus::Busted && natural(h) ==> hand_return(bet, h, d_val, d_bj) == if d_bj {
            bet * h.1
        } else {
            bet * h.1 + (bet * h.1 * 3) / 2
        },
        h.2 != HandStatus::Busted && !natural(h) && d_bj ==> hand_return(bet, h, d_val, d_bj) == 0,
        h.2 != HandStatus::Busted && !natural(h) && !d_bj ==> hand_return(bet, h, d_val, d_bj) == if d_val
            > 21 || hand_val(h.0).0 > d_val {
            2 * bet * h.1
        } else if hand_val(h.0).0 == d_val {
            bet * h.1
        } else {
            0
        },
{
    let b = bet * h.1;
    assert(bet * h.1 * 5 == b * 5 && 2 * bet * h.1 == b * 2 && b >= 0) by (nonlinear_arith)
        requires
            b == bet * h.1,
            bet >= 0,
            h.1 >= 0,
    ;
    assert((b * 5) / 2 == b + (b * 3) / 2) by (nonlinear_arith)
        requires
            b >= 0,
    ;
}

/// Saturating sum of the hands' returns.
pub open spec fn hands_return(bet: u64, hands: Seq<HandView>, d_val: int, d_bj: bool) -> int
    decreases hands.len(),
{
    if hands.len() == 0 {
        0
    } else {
        sat_add(hands_return(bet, hands.drop_last(), d_val, d_bj), hand_return(bet, hands.last(), d_val, d_bj))
    }
}

/// The shoe a move draws from: eight decks without the cards on the table, shuffled.
pub open spec fn table_shoe(v: BlackjackView, p: RngPoint) -> (Seq<u8>, RngPoint) {
    shuffled(remove_each(ordered_shoe(BLACKJACK_DECKS as nat), known_cards(v)), p)
}

/// After a hand finishes: move to the next playing hand, or to the reveal (or,
/// when `may_end` and every hand busted, complete the game with only the side bet).
pub open spec fn after_hand(
    v: BlackjackView,
    bet: u64,
    may_end: bool,
    super_active: bool,
    mults: Seq<SuperMultiplier>,
) -> (BlackjackView, Option<GameResult>) {
    let adv = advance(v.hands, v.active);
    let v1 = BlackjackView { active: adv, ..v };
    if adv < v.hands.len() {
        (v1, None)
    } else if may_end && all_busted(v.hands) {
        let v2 = BlackjackView { stage: Stage::Complete, ..v1 };
        (v2, Some(finalize(bet, v2, side_return(v2), super_active, mults)))
    } else {
        (BlackjackView { stage: Stage::AwaitingReveal, ..v1 }, None)
    }
}

/// Outcome of a move in the betting stage: result, state, stream point.
pub open spec fn betting_outcome(v: BlackjackView, mv: Move, payload: Seq<u8>, p: RngPoint) -> (
    Result<GameResult, GameError>,
    BlackjackView,
    RngPoint,
) {
    if mv == Move::Set21Plus3 {
        if payload.len() < 9 {
            (Err(GameError::InvalidPayload), v, p)
        } else {
            let new_bet = be_u64(payload.subrange(1, 9));
            let delta = new_bet - v.side_bet;
            if delta > i64::MAX || delta < i64::MIN {
                (Err(GameError::InvalidMove), v, p)
            } else {
                (
                    Ok(if delta == 0 {
                        GameResult::Continue
                    } else {
                        GameResult::ContinueWithUpdate { payout: (-delta) as i64 }
                    }),
                    BlackjackView { side_bet: new_bet, ..v },
                    p,
                )
            }
        }
    } else if mv == Move::Deal {
        if payload.len() != 1 {
            (Err(GameError::InvalidPayload), v, p)
        } else if v.hands.len() != 0 || v.dealer.len() != 0 {
            (Err(GameError::InvalidMove), v, p)
        } else {
            let s0 = shuffled(ordered_shoe(BLACKJACK_DECKS as nat), p);
            let d1 = card_draw(s0.0, s0.1);
            let d2 = card_draw(d1.1, d1.2);
            let d3 = card_draw(d2.1, d2.2);
            let cards = seq![d1.0, d2.0];
            let bj = blackjack_hand(cards);
            (
                Ok(GameResult::Continue),
                BlackjackView {
                    stage: if bj {
                        Stage::AwaitingReveal
                    } else {
                        Stage::PlayerTurn
                    },
                    side_bet: v.side_bet,
                    initial: (d1.0, d2.0),
                    active: 0,
                    hands: seq![
                        (
                            cards,
                            1u8,
                            if bj {
                                HandStatus::Blackjack
                            } else {
                                HandStatus::Playing
                            },
                            false,
                        ),
                    ],
                    dealer: seq![d3.0],
                },
                d3.2,
            )
        }
    } else {
        (Err(GameError::InvalidMove), v, p)
    }
}

/// Outcome of a move in the player's turn: result, state, whether it counts
/// as a move, stream point. The shoe is shuffled before any check.
pub open spec fn turn_outcome(
    v: BlackjackView,
    mv: Move,
    bet: u64,
    p: RngPoint,
    super_active: bool,
    mults: Seq<SuperMultiplier>,
) -> (Result<GameResult, GameError>, BlackjackView, bool, RngPoint) {
    let s0 = table_shoe(v, p);
    let q0 = s0.1;
    let i = v.active as int;
    if !(mv == Move::Hit || mv == Move::Stand || mv == Move::Double || mv == Move::Split) {
        (Err(GameError::InvalidMove), v, false, q0)
    } else if i >= v.hands.len() {
        (Err(GameError::InvalidState), v, false, q0)
    } else if mv == Move::Split && v.hands.len() >= MAX_HANDS {
        (Err(GameError::InvalidMove), v, false, q0)
    } else {
        let h = v.hands[i];
        if h.2 != HandStatus::Playing {
            (Err(GameError::InvalidMove), v, false, q0)
        } else if mv == Move::Stand {
            let v1 = BlackjackView { hands: v.hands.update(i, (h.0, h.1, HandStatus::Standing, h.3)), ..v };
            let a = after_hand(v1, bet, false, super_active, mults);
            (Ok(GameResult::Continue), a.0, true, q0)
        } else if mv == Move::Hit {
            let d = card_draw(s0.0, q0);
            let cards = h.0.push(d.0);
            let val = hand_val(cards).0;
            if val > 21 {
                let v1 = BlackjackView { hands: v.hands.update(i, (cards, h.1, HandStatus::Busted, h.3)), ..v };
                let a = after_hand(v1, bet, true, super_active, mults);
                (Ok(
                    match a.1 {
                        Some(r) => r,
                        None => GameResult::Continue,
                    },
                ), a.0, true, d.2)
            } else if val == 21 {
                let v1 = BlackjackView { hands: v.hands.update(i, (cards, h.1, HandStatus::Standing, h.3)), ..v };
                let a = after_hand(v1, bet, false, super_active, mults);
                (Ok(GameResult::Continue), a.0, true, d.2)
            } else {
                (
                    Ok(GameResult::Continue),
                    BlackjackView { hands: v.hands.update(i, (cards, h.1, h.2, h.3)), ..v },
                    true,
                    d.2,
                )
            }
        } else if mv == Move::Double {
            if h.0.len() != 2 || h.1 != 1 {
                (Err(GameError::InvalidMove), v, false, q0)
            } else {
                let d = card_draw(s0.0, q0);
                let cards = h.0.push(d.0);
                let st = if hand_val(cards).0 > 21 {
                    HandStatus::Busted
                } else {
                    HandStatus::Standing
                };
                let v1 = BlackjackView { hands: v.hands.update(i, (cards, 2u8, st, h.3)), ..v };
                let a = after_hand(v1, bet, true, super_active, mults);
                (Ok(
                    match a.1 {
                        Some(r) => r,
                        None => GameResult::ContinueWithUpdate { payout: (-wrap_i64(bet)) as i64 },
                    },
                ), a.0, true, d.2)
            }
        } else {
            if h.0.len() != 2 || h.0[0] % 13 != h.0[1] % 13 {
                (Err(GameError::InvalidMove), v, false, q0)
            } else {
                let d1 = card_draw(s0.0, q0);
                let d2 = card_draw(d1.1, d1.2);
                let first = (seq![h.0[0], d1.0], h.1, h.2, true);
                let second = (seq![h.0[1], d2.0], 1u8, HandStatus::Playing, true);
                let hands = v.hands.update(i, first).insert(i + 1, second);
                (
                    Ok(GameResult::ContinueWithUpdate { payout: (-wrap_i64(bet)) as i64 }),
                    BlackjackView { hands, ..v },
                    true,
                    d2.2,
                )
            }
        }
    }
}

/// Outcome of a move while awaiting the reveal: result, state, stream point.
pub open spec fn reveal_outcome(
    v: BlackjackView,
    mv: Move,
    payload: Seq<u8>,
    bet: u64,
    p: RngPoint,
    super_active: bool,
    mults: Seq<SuperMultiplier>,
) -> (Result<GameResult, GameError>, BlackjackView, RngPoint) {
    if mv != Move::Reveal {
        (Err(GameError::InvalidMove), v, p)
    } else if payload.len() != 1 {
        (Err(GameError::InvalidPayload), v, p)
    } else {
        let s0 = table_shoe(v, p);
        let hole = card_draw(s0.0, s0.1);
        let dealer1 = v.dealer.push(hole.0);
        let played = if all_busted(v.hands) {
            (dealer1, hole.1, hole.2, true)
        } else {
            dealer_play(dealer1, hole.1, hole.2)
        };
        if !played.3 {
            (Err(GameError::DeckExhausted), v, played.2)
        } else {
            let dealer = played.0;
            let d_val = hand_val(dealer).0;
            let d_bj = blackjack_hand(dealer);
            let v2 = BlackjackView { stage: Stage::Complete, dealer, ..v };
            let total = sat_add(hands_return(bet, v.hands, d_val, d_bj), side_return(v2));
            (Ok(finalize(bet, v2, total, super_active, mults)), v2, played.2)
        }
    }
}

/// The state a parsed blob can hold: at most four hands of at most 11 cards
/// and a dealer hand of at most 11 cards.
pub open spec fn table_bounded(v: BlackjackView) -> bool {
    &&& v.hands.len() <= MAX_HANDS
    &&& forall|i: int| 0 <= i < v.hands.len() ==> (#[trigger] v.hands[i]).0.len() <= MAX_HAND_SIZE
    &&& v.dealer.len() <= MAX_HAND_SIZE
}

/// A parsed state is bounded.
proof fn lemma_parsed_bounded(b: Seq<u8>)
    requires
        parse_blob(b) is Some,
    ensures
        table_bounded(parse_blob(b).unwrap()),
{
    lemma_parse_hands_bounded(b, b[13] as nat);
}

/// Parsed hands are bounded.
proof fn lemma_parse_hands_bounded(b: Seq<u8>, k: nat)
    requires
        parse_hands(b, k) is Some,
    ensures
        parse_hands(b, k).unwrap().0.len() == k,
        14 <= parse_hands(b, k).unwrap().1,
        forall|i: int|
            0 <= i < k ==> (#[trigger] parse_hands(b, k).unwrap().0[i]).0.len() <= MAX_HAND_SIZE,
    decreases k,
{
    if k > 0 {
        lemma_parse_hands_bounded(b, (k - 1) as nat);
        lemma_parse_hands_step(b, k);
        let prev = parse_hands(b, (k - 1) as nat).unwrap().0;
        let cur = parse_hands(b, k).unwrap().0;
        assert forall|i: int| 0 <= i < k implies (#[trigger] cur[i]).0.len() <= MAX_HAND_SIZE by {
            if i < k - 1 {
                assert(cur[i] == prev[i]);
            } else {
                let off = parse_hands(b, (k - 1) as nat).unwrap().1;
                let n = b[off + 3] as int;
                assert(cur[i].0 == b.subrange(off + 4, off + 4 + n));
            }
        }
    }
}

/// The cards of `n` bounded hands number at most 11 per hand.
proof fn lemma_flatten_len(hands: Seq<HandView>)
    requires
        forall|i: int| 0 <= i < hands.len() ==> (#[trigger] hands[i]).0.len() <= MAX_HAND_SIZE,
    ensures
        flatten_cards(hands).len() <= 11 * hands.len(),
    decreases hands.len(),
{
    if hands.len() > 0 {
        assert(hands.last().0.len() <= MAX_HAND_SIZE);
        lemma_flatten_len(hands.drop_last());
    }
}

/// The shoe left on a bounded table holds at least 361 cards.
proof fn lemma_shoe_size(v: BlackjackView)
    requires
        table_bounded(v),
    ensures
        remove_each(ordered_shoe(BLACKJACK_DECKS as nat), known_cards(v)).len() >= 361,
{
    lemma_flatten_len(v.hands);
    lemma_remove_each_len(ordered_shoe(BLACKJACK_DECKS as nat), known_cards(v));
}

/// A hand worth at most 17 has at most 17 cards.
proof fn lemma_small_value_few_cards(cards: Seq<u8>)
    ensures
        hand_val(cards).0 <= 17 ==> cards.len() <= 17,
{
    lemma_counts_prefix(cards, 0);
    lemma_soften_bounds(raw_points(cards), ace_count(cards));
}

/// The cards on the table.
fn table_cards(state: &BlackjackState) -> (cards: Vec<u8>)
    ensures
        cards@ == known_cards(state@),
{
    let mut cards: Vec<u8> = Vec::new();
    let ghost hv = state@.hands;
    let mut i: usize = 0;
    while i < state.hands.len()
        invariant
            i <= state.hands@.len(),
            hv == state.hands@.map_values(|h: HandState| h@),
            cards@ == flatten_cards(hv.subrange(0, i as int)),
        decreases state.hands@.len() - i,
    {
        push_all(&mut cards, state.hands[i].cards.as_slice());
        proof {
            let s = hv.subrange(0, i as int + 1);
            assert(s.drop_last() =~= hv.subrange(0, i as int));
        }
        i += 1;
    }
    assert(hv.subrange(0, hv.len() as int) =~= hv);
    push_all(&mut cards, state.dealer_cards.as_slice());
    cards
}

/// Advance the active hand to the next playing hand; whether there is one.
fn advance_turn(state: &mut BlackjackState) -> (b: bool)
    ensures
        final(state)@ == (BlackjackView { active: advance(old(state)@.hands, old(state)@.active), ..old(state)@ }),
        b == (advance(old(state)@.hands, old(state)@.active) < old(state)@.hands.len()),
{
    let ghost hv = state@.hands;
    let ghost start = state@.active;
    loop
        invariant
            hv == old(state)@.hands,
            start == old(state)@.active,
            state@ == (BlackjackView { active: state@.active, ..old(state)@ }),
            state.hands@.len() == hv.len(),
            advance(hv, state@.active) == advance(hv, start),
        decreases state.hands@.len() - state.active_hand_idx,
    {
        if state.active_hand_idx >= state.hands.len() {
            return false;
        }
        if state.hands[state.active_hand_idx].status == HandStatus::Playing {
            assert(hv[state@.active as int].2 == HandStatus::Playing);
            return true;
        }
        assert(hv[state@.active as int].2 != HandStatus::Playing);
        state.active_hand_idx += 1;
    }
}

/// Whether every hand busted.
fn every_hand_busted(hands: &Vec<HandState>) -> (b: bool)
    ensures
        b == all_busted(hands@.map_values(|h: HandState| h@)),
{
    let ghost hv = hands@.map_values(|h: HandState| h@);
    let mut i: usize = 0;
    while i < hands.len()
        invariant
            i <= hands@.len(),
            hv == hands@.map_values(|h: HandState| h@),
            forall|j: int| 0 <= j < i ==> (#[trigger] hv[j]).2 == HandStatus::Busted,
        decreases hands@.len() - i,
    {
        if hands[i].status != HandStatus::Busted {
            assert(hv[i as int].2 != HandStatus::Busted);
            return false;
        }
        i += 1;
    }
    true
}

/// Return of the 21+3 side bet.
fn resolve_21plus3_return(state: &BlackjackState) -> (r: u64)
    ensures
        r == side_return(state@),
{
    let bet = state.side_bet_21plus3;
    if bet == 0 {
        return 0;
    }
    if !(state.initial_player_cards[0] < 52 && state.initial_player_cards[1] < 52) {
        return 0;
    }
    if state.dealer_cards.len() == 0 || state.dealer_cards[0] >= 52 {
        return 0;
    }
    let cards = [state.initial_player_cards[0], state.initial_player_cards[1], state.dealer_cards[0]];
    let mult = eval_21plus3_multiplier(cards);
    if mult == 0 {
        0
    } else {
        saturating_mul_u64(bet, mult + 1)
    }
}

/// Total staked, hands plus side bet.
fn total_wagered(bet: u64, state: &BlackjackState) -> (w: u64)
    requires
        main_wagered(bet, state@.hands) <= u64::MAX,
    ensures
        w == sat_add(main_wagered(bet, state@.hands), state@.side_bet as int),
{
    let ghost hv = state@.hands;
    let mut sum: u64 = 0;
    let mut i: usize = 0;
    while i < state.hands.len()
        invariant
            i <= state.hands@.len(),
            hv == state.hands@.map_values(|h: HandState| h@),
            main_wagered(bet, hv) <= u64::MAX,
            sum == main_wagered(bet, hv.subrange(0, i as int)),
        decreases state.hands@.len() - i,
    {
        proof {
            let s = hv.subrange(0, i as int + 1);
            assert(s.drop_last() =~= hv.subrange(0, i as int));
            lemma_wagered_prefix(bet, hv, i as int + 1);
        }
        sum = sum + saturating_mul_u64(bet, state.hands[i].bet_mult as u64);
        i += 1;
    }
    assert(hv.subrange(0, hv.len() as int) =~= hv);
    sum.saturating_add(state.side_bet_21plus3)
}

/// Partial stakes never exceed the whole.
proof fn lemma_wagered_prefix(bet: u64, hands: Seq<HandView>, i: int)
    requires
        0 <= i <= hands.len(),
    ensures
        0 <= main_wagered(bet, hands.subrange(0, i)) <= main_wagered(bet, hands),
    decreases hands.len(),
{
    if hands.len() > 0 {
        if i == hands.len() {
            assert(hands.subrange(0, i) =~= hands);
            lemma_wagered_prefix(bet, hands.drop_last(), i - 1);
        } else {
            lemma_wagered_prefix(bet, hands.drop_last(), i);
            assert(hands.drop_last().subrange(0, i) =~= hands.subrange(0, i));
        }
    }
}

/// The total return boosted by the super multipliers of the first hand's
/// cards, when super mode is active, something is returned and a hand exists.
fn apply_super_multiplier(state: &BlackjackState, total_return: u64, super_active: bool, multipliers: &[SuperMultiplier]) -> (r: u64)
    ensures
        r == (if !super_active || total_return == 0 || state@.hands.len() == 0 {
            total_return as int
        } else {
            sat_mul(total_return as int, cards_product(state@.hands[0].0, multipliers@))
        }),
{
    if !super_active || total_return == 0 || state.hands.len() == 0 {
        total_return
    } else {
        apply_super_multiplier_cards(state.hands[0].cards.as_slice(), multipliers, total_return)
    }
}

/// Sets the 21+3 side bet; returns the balance change (minus the
/// difference), or `InvalidMove` when it does not fit in an `i64`.
fn apply_21plus3_update(state: &mut BlackjackState, new_bet: u64) -> (r: Result<i64, GameError>)
    requires
        new_bet - old(state).side_bet_21plus3 != i64::MIN,
    ensures
        ({
            let delta = new_bet - old(state).side_bet_21plus3;
            if delta > i64::MAX || delta < i64::MIN {
                r == Err::<i64, GameError>(GameError::InvalidMove) && *final(state) == *old(state)
            } else {
                r == Ok::<i64, GameError>((-delta) as i64) && final(state)@ == BlackjackView {
                    side_bet: new_bet,
                    ..old(state)@
                } && final(state).hands@ == old(state).hands@
            }
        }),
{
    let old_bet = state.side_bet_21plus3 as i128;
    let delta: i128 = new_bet as i128 - old_bet;
    if delta > 0x7fff_ffff_ffff_ffff || delta < -0x8000_0000_0000_0000 {
        return Err(GameError::InvalidMove);
    }
    state.side_bet_21plus3 = new_bet;
    Ok(-(delta as i64))
}

/// Final result of a completed game.
fn finalize_game_result(
    bet: u64,
    state: &BlackjackState,
    total_return: u64,
    super_active: bool,
    multipliers: &[SuperMultiplier],
) -> (r: GameResult)
    requires
        main_wagered(bet, state@.hands) <= u64::MAX,
    ensures
        r == finalize(bet, state@, total_return as int, super_active, multipliers@),
{
    let wagered = total_wagered(bet, state);
    let ret = apply_super_multiplier(state, total_return, super_active, multipliers);
    if ret == 0 {
        GameResult::LossPreDeducted(wagered)
    } else {
        GameResult::Win(ret)
    }
}

/// A 21+3 update can report its deduction: the change is not exactly `i64::MIN`.
pub open spec fn side_change_ok(v: BlackjackView, payload: Seq<u8>) -> bool {
    payload.len() >= 9 ==> be_u64(payload.subrange(1, 9)) - v.side_bet != i64::MIN
}

/// Blackjack.
pub struct Blackjack;

impl Blackjack {
    /// A move in the betting stage: set the 21+3 side bet, or deal.
    fn betting_move(state: &mut BlackjackState, mv: Move, payload: &[u8], rng: &mut GameRng) -> (r:
        Result<GameResult, GameError>)
        requires
            old(state)@.stage == Stage::Betting,
            mv == Move::Set21Plus3 ==> side_change_ok(old(state)@, payload@),
        ensures
            ({
                let o = betting_outcome(old(state)@, mv, payload@, old(rng)@);
                &&& r == o.0
                &&& final(rng)@ == o.2
                &&& r is Ok ==> final(state)@ == o.1
            }),
    {
        if mv == Move::Set21Plus3 {
            if payload.len() < 9 {
                return Err(GameError::InvalidPayload);
            }
            let new_bet = read_u64_be(payload, 1);
            let payout = match apply_21plus3_update(state, new_bet) {
                Ok(p) => p,
                Err(e) => return Err(e),
            };
            if payout == 0 {
                Ok(GameResult::Continue)
            } else {
                Ok(GameResult::ContinueWithUpdate { payout })
            }
        } else if mv == Move::Deal {
            if payload.len() != 1 {
                return Err(GameError::InvalidPayload);
            }
            if state.hands.len() != 0 || state.dealer_cards.len() != 0 {
                return Err(GameError::InvalidMove);
            }
            let mut deck = rng.create_shoe(BLACKJACK_DECKS);
            let p1 = draw_from(rng, &mut deck);
            let p2 = draw_from(rng, &mut deck);
            let dealer_up = draw_from(rng, &mut deck);
            state.initial_player_cards = [p1, p2];
            let mut player_cards: Vec<u8> = Vec::new();
            player_cards.push(p1);
            player_cards.push(p2);
            assert(player_cards@ =~= seq![p1, p2]);
            proof {
                lemma_countable(player_cards@);
            }
            let player_bj = is_blackjack(player_cards.as_slice());
            let mut hands: Vec<HandState> = Vec::new();
            hands.push(
                HandState {
                    cards: player_cards,
                    bet_mult: 1,
                    status: if player_bj {
                        HandStatus::Blackjack
                    } else {
                        HandStatus::Playing
                    },
                    was_split: false,
                },
            );
            state.hands = hands;
            let mut dealer: Vec<u8> = Vec::new();
            dealer.push(dealer_up);
            state.dealer_cards = dealer;
            state.active_hand_idx = 0;
            state.stage = if player_bj {
                Stage::AwaitingReveal
            } else {
                Stage::PlayerTurn
            };
            if state.stage == Stage::PlayerTurn && !advance_turn(state) {
                state.stage = Stage::AwaitingReveal;
            }
            proof {
                let v = state@;
                assert(v.hands =~= betting_outcome(old(state)@, mv, payload@, old(rng)@).1.hands);
                assert(v.dealer =~= seq![dealer_up]);
            }
            Ok(GameResult::Continue)
        } else {
            Err(GameError::InvalidMove)
        }
    }
}

/// Anything a turn move can finish in range: the reported extra bet is not
/// 2^63, and the stakes add up within `u64` when the game completes.
pub open spec fn turn_defined(
    v: BlackjackView,
    mv: Move,
    bet: u64,
    p: RngPoint,
    super_active: bool,
    mults: Seq<SuperMultiplier>,
) -> bool {
    let o = turn_outcome(v, mv, bet, p, super_active, mults);
    &&& (mv == Move::Double || mv == Move::Split) ==> bet != 0x8000_0000_0000_0000u64
    &&& o.1.stage == Stage::Complete ==> main_wagered(bet, o.1.hands) <= u64::MAX
}

impl Blackjack {
    /// A move in the player's turn: hit, stand, double or split the active
    /// hand; returns the result and whether it counts as a move.
    #[verifier::spinoff_prover]
    #[verifier::rlimit(60)]
    fn turn_move(
        state: &mut BlackjackState,
        mv: Move,
        bet: u64,
        rng: &mut GameRng,
        super_active: bool,
        multipliers: &[SuperMultiplier],
    ) -> (r: (Result<GameResult, GameError>, bool))
        requires
            old(state)@.stage == Stage::PlayerTurn,
            table_bounded(old(state)@),
            turn_defined(old(state)@, mv, bet, old(rng)@, super_active, multipliers@),
        ensures
            ({
                let o = turn_outcome(old(state)@, mv, bet, old(rng)@, super_active, multipliers@);
                &&& r.0 == o.0
                &&& r.1 == o.2
                &&& final(rng)@ == o.3
                &&& r.0 is Ok ==> final(state)@ == o.1
            }),
    {
        let ghost v0 = state@;
        let known = table_cards(state);
        let mut deck = rng.create_shoe_excluding(known.as_slice(), BLACKJACK_DECKS);
        proof {
            lemma_shoe_size(v0);
        }
        if !(mv == Move::Hit || mv == Move::Stand || mv == Move::Double || mv == Move::Split) {
            return (Err(GameError::InvalidMove), false);
        }
        let i = state.active_hand_idx;
        if i >= state.hands.len() {
            return (Err(GameError::InvalidState), false);
        }
        if mv == Move::Split && state.hands.len() >= MAX_HANDS {
            return (Err(GameError::InvalidMove), false);
        }
        if state.hands[i].status != HandStatus::Playing {
            assert(v0.hands[i as int].2 != HandStatus::Playing);
            return (Err(GameError::InvalidMove), false);
        }
        let ghost h = v0.hands[i as int];
        assert(state.hands@[i as int]@ == h);
        assert(h.0.len() <= MAX_HAND_SIZE);
        if mv == Move::Stand {
            let mut hand = state.hands.remove(i);
            hand.status = HandStatus::Standing;
            state.hands.insert(i, hand);
            assert(state@.hands =~= v0.hands.update(i as int, (h.0, h.1, HandStatus::Standing, h.3)));
            if !advance_turn(state) {
                state.stage = Stage::AwaitingReveal;
            }
            return (Ok(GameResult::Continue), true);
        }
        if mv == Move::Hit {
            let card = draw_from(rng, &mut deck);
            let mut hand = state.hands.remove(i);
            hand.cards.push(card);
            proof {
                lemma_countable(hand.cards@);
            }
            let (val, _) = hand_value(hand.cards.as_slice());
            if val > 21 {
                hand.status = HandStatus::Busted;
                state.hands.insert(i, hand);
                assert(state@.hands =~= v0.hands.update(i as int, (h.0.push(card), h.1, HandStatus::Busted, h.3)));
                if !advance_turn(state) {
                    if every_hand_busted(&state.hands) {
                        state.stage = Stage::Complete;
                        let total_return = resolve_21plus3_return(state);
                        let res = finalize_game_result(bet, state, total_return, super_active, multipliers);
                        return (Ok(res), true);
                    }
                    state.stage = Stage::AwaitingReveal;
                }
            } else if val == 21 {
                hand.status = HandStatus::Standing;
                state.hands.insert(i, hand);
                assert(state@.hands =~= v0.hands.update(i as int, (h.0.push(card), h.1, HandStatus::Standing, h.3)));
                if !advance_turn(state) {
                    state.stage = Stage::AwaitingReveal;
                }
            } else {
                state.hands.insert(i, hand);
                assert(state@.hands =~= v0.hands.update(i as int, (h.0.push(card), h.1, h.2, h.3)));
            }
            return (Ok(GameResult::Continue), true);
        }
        if mv == Move::Double {
            if state.hands[i].cards.len() != 2 || state.hands[i].bet_mult != 1 {
                return (Err(GameError::InvalidMove), false);
            }
            let card = draw_from(rng, &mut deck);
            let mut hand = state.hands.remove(i);
            hand.bet_mult = 2;
            hand.cards.push(card);
            proof {
                lemma_countable(hand.cards@);
            }
            let (val, _) = hand_value(hand.cards.as_slice());
            hand.status = if val > 21 {
                HandStatus::Busted
            } else {
                HandStatus::Standing
            };
            let ghost st = hand.status;
            state.hands.insert(i, hand);
            assert(state@.hands =~= v0.hands.update(i as int, (h.0.push(card), 2u8, st, h.3)));
            if !advance_turn(state) {
                if every_hand_busted(&state.hands) {
                    state.stage = Stage::Complete;
                    let total_return = resolve_21plus3_return(state);
                    let res = finalize_game_result(bet, state, total_return, super_active, multipliers);
                    return (Ok(res), true);
                }
                state.stage = Stage::AwaitingReveal;
            }
            return (Ok(GameResult::ContinueWithUpdate { payout: -u64_as_i64(bet) }), true);
        }
        // Split
        if state.hands[i].cards.len() != 2 {
            return (Err(GameError::InvalidMove), false);
        }
        let r1 = card_rank(state.hands[i].cards[0]);
        let r2 = card_rank(state.hands[i].cards[1]);
        if r1 != r2 {
            return (Err(GameError::InvalidMove), false);
        }
        let c1 = draw_from(rng, &mut deck);
        let c2 = draw_from(rng, &mut deck);
        let mut hand = state.hands.remove(i);
        let first_card = hand.cards[0];
        let split_card = hand.cards[1];
        let mut first_cards: Vec<u8> = Vec::new();
        first_cards.push(first_card);
        first_cards.push(c1);
        assert(first_cards@ =~= seq![h.0[0], c1]);
        hand.cards = first_cards;
        hand.was_split = true;
        let mut second_cards: Vec<u8> = Vec::new();
        second_cards.push(split_card);
        second_cards.push(c2);
        assert(second_cards@ =~= seq![h.0[1], c2]);
        let new_hand = HandState {
            cards: second_cards,
            bet_mult: 1,
            status: HandStatus::Playing,
            was_split: true,
        };
        let ghost hv1 = hand@;
        let ghost hv2 = new_hand@;
        let ghost mid = state.hands@;
        state.hands.insert(i, hand);
        state.hands.insert(i + 1, new_hand);
        proof {
            assert(hv1 == (seq![h.0[0], c1], h.1, h.2, true));
            assert(hv2 == (seq![h.0[1], c2], 1u8, HandStatus::Playing, true));
            let first = (seq![h.0[0], c1], h.1, h.2, true);
            let second = (seq![h.0[1], c2], 1u8, HandStatus::Playing, true);
            assert(state@.hands =~= v0.hands.update(i as int, first).insert(i + 1, second));
        }
        (Ok(GameResult::ContinueWithUpdate { payout: -u64_as_i64(bet) }), true)
    }
}

/// Return of one hand against the dealer.
fn settle_hand(bet: u64, hand: &HandState, d_val: u8, d_bj: bool) -> (r: u64)
    requires
        hand.cards@.len() <= MAX_HAND_SIZE,
    ensures
        r == hand_return(bet, hand@, d_val as int, d_bj),
{
    let b = saturating_mul_u64(bet, hand.bet_mult as u64);
    if hand.status == HandStatus::Busted {
        return 0;
    }
    proof {
        lemma_countable(hand.cards@);
    }
    let (p_val, _) = hand_value(hand.cards.as_slice());
    let p_bj = is_natural_blackjack(hand);
    if p_bj && d_bj {
        b
    } else if p_bj {
        saturating_mul_u64(b, 5) / 2
    } else if d_bj {
        0
    } else if d_val > 21 {
        saturating_mul_u64(b, 2)
    } else if p_val > d_val {
        saturating_mul_u64(b, 2)
    } else if p_val == d_val {
        b
    } else {
        0
    }
}

/// The dealer draws until standing on hard 17 or any 18+; false when the
/// deck runs out first.
fn play_dealer(dealer: &mut Vec<u8>, deck: &mut Vec<u8>, rng: &mut GameRng) -> (stood: bool)
    requires
        old(dealer)@.len() <= 12,
    ensures
        (final(dealer)@, final(deck)@, final(rng)@, stood) == dealer_play(old(dealer)@, old(deck)@, old(rng)@),
        final(dealer)@.len() <= 18,
{
    loop
        invariant
            dealer_play(dealer@, deck@, rng@) == dealer_play(old(dealer)@, old(deck)@, old(rng)@),
            dealer@.len() <= 18,
        decreases deck@.len(),
    {
        proof {
            lemma_countable(dealer@);
            lemma_small_value_few_cards(dealer@);
        }
        let (val, is_soft) = hand_value(dealer.as_slice());
        if val > 17 || (val == 17 && !is_soft) {
            return true;
        }
        if deck.len() == 0 {
            return false;
        }
        let c = draw_from(rng, deck);
        dealer.push(c);
    }
}

impl Blackjack {
    /// The reveal: draw the hole card, play the dealer's hand when a player
    /// hand is live, settle every hand and the side bet.
    #[verifier::spinoff_prover]
    #[verifier::rlimit(60)]
    fn reveal_move(
        state: &mut BlackjackState,
        mv: Move,
        payload: &[u8],
        bet: u64,
        rng: &mut GameRng,
        super_active: bool,
        multipliers: &[SuperMultiplier],
    ) -> (r: Result<GameResult, GameError>)
        requires
            old(state)@.stage == Stage::AwaitingReveal,
            table_bounded(old(state)@),
            main_wagered(bet, old(state)@.hands) <= u64::MAX,
        ensures
            ({
                let o = reveal_outcome(old(state)@, mv, payload@, bet, old(rng)@, super_active, multipliers@);
                &&& r == o.0
                &&& final(rng)@ == o.2
                &&& r is Ok ==> final(state)@ == o.1
            }),
    {
        if mv != Move::Reveal {
            return Err(GameError::InvalidMove);
        }
        if payload.len() != 1 {
            return Err(GameError::InvalidPayload);
        }
        let ghost v0 = state@;
        let known = table_cards(state);
        let mut deck = rng.create_shoe_excluding(known.as_slice(), BLACKJACK_DECKS);
        proof {
            lemma_shoe_size(v0);
        }
        let hole = draw_from(rng, &mut deck);
        state.dealer_cards.push(hole);
        let ghost dealer1 = state.dealer_cards@;
        let ghost deck1 = deck@;
        let ghost q1 = rng@;
        let any_live = !every_hand_busted(&state.hands);
        if any_live {
            if !play_dealer(&mut state.dealer_cards, &mut deck, rng) {
                return Err(GameError::DeckExhausted);
            }
        }
        assert(state@ == (BlackjackView { dealer: state.dealer_cards@, ..v0 }));
        proof {
            lemma_countable(state.dealer_cards@);
        }
        let (d_val, _) = hand_value(state.dealer_cards.as_slice());
        let d_bj = is_blackjack(state.dealer_cards.as_slice());
        let ghost hv = v0.hands;
        let mut total_return: u64 = 0;
        let mut i: usize = 0;
        while i < state.hands.len()
            invariant
                i <= state.hands@.len(),
                hv == state.hands@.map_values(|h: HandState| h@),
                table_bounded(v0),
                hv == v0.hands,
                total_return == hands_return(bet, hv.subrange(0, i as int), d_val as int, d_bj),
            decreases state.hands@.len() - i,
        {
            proof {
                let s = hv.subrange(0, i as int + 1);
                assert(s.drop_last() =~= hv.subrange(0, i as int));
                assert(hv[i as int].0.len() <= MAX_HAND_SIZE);
            }
            total_return = total_return.saturating_add(settle_hand(bet, &state.hands[i], d_val, d_bj));
            i += 1;
        }
        assert(hv.subrange(0, hv.len() as int) =~= hv);
        total_return = total_return.saturating_add(resolve_21plus3_return(state));
        state.stage = Stage::Complete;
        Ok(finalize_game_result(bet, state, total_return, super_active, multipliers))
    }
}

/// The state a session starts in: betting, no cards.
pub open spec fn initial_view() -> BlackjackView {
    BlackjackView {
        stage: Stage::Betting,
        side_bet: 0,
        initial: (CARD_UNKNOWN, CARD_UNKNOWN),
        active: 0,
        hands: Seq::empty(),
        dealer: Seq::empty(),
    }
}

/// The error a move is refused with before anything happens, if any.
pub open spec fn move_error(is_complete: bool, blob: Seq<u8>, payload: Seq<u8>) -> Option<GameError> {
    if is_complete {
        Some(GameError::GameAlreadyComplete)
    } else if payload.len() == 0 || move_of(payload[0]) is None {
        Some(GameError::InvalidPayload)
    } else {
        match parse_blob(blob) {
            None => Some(GameError::InvalidPayload),
            Some(v) => if v.stage == Stage::Complete {
                Some(GameError::GameAlreadyComplete)
            } else {
                None
            },
        }
    }
}

/// Outcome of an accepted move by stage: result, state, whether it counts as
/// a move, stream point.
pub open spec fn move_outcome(
    v: BlackjackView,
    mv: Move,
    payload: Seq<u8>,
    bet: u64,
    p: RngPoint,
    super_active: bool,
    mults: Seq<SuperMultiplier>,
) -> (Result<GameResult, GameError>, BlackjackView, bool, RngPoint) {
    match v.stage {
        Stage::Betting => {
            let o = betting_outcome(v, mv, payload, p);
            (o.0, o.1, false, o.2)
        },
        Stage::PlayerTurn => turn_outcome(v, mv, bet, p, super_active, mults),
        _ => {
            let o = reveal_outcome(v, mv, payload, bet, p, super_active, mults);
            (o.0, o.1, false, o.2)
        },
    }
}

/// An accepted move stays within the ranges the arithmetic needs.
pub open spec fn move_defined(s: GameSession, payload: Seq<u8>, p: RngPoint) -> bool {
    move_error(s.is_complete, s.state_blob@, payload) is None ==> {
        let v = parse_blob(s.state_blob@).unwrap();
        let mv = move_of(payload[0]).unwrap();
        match v.stage {
            Stage::Betting => mv == Move::Set21Plus3 ==> side_change_ok(v, payload),
            Stage::PlayerTurn => turn_defined(
                v,
                mv,
                s.bet,
                p,
                s.super_mode.is_active,
                s.super_mode.multipliers@,
            ),
            _ => main_wagered(s.bet, v.hands) <= u64::MAX,
        }
    }
}

impl CasinoGame for Blackjack {
    open spec fn init_requires(s0: GameSession) -> bool {
        init_requires(s0)
    }

    open spec fn init_ensures(s0: GameSession, p0: RngPoint, r: GameResult, s1: GameSession, p1: RngPoint) -> bool {
        init_ensures(s0, p0, r, s1, p1)
    }

    open spec fn move_requires(s0: GameSession, payload: Seq<u8>, p0: RngPoint) -> bool {
        move_requires(s0, payload, p0)
    }

    open spec fn move_ensures(
        s0: GameSession,
        payload: Seq<u8>,
        p0: RngPoint,
        r: Result<GameResult, GameError>,
        s1: GameSession,
        p1: RngPoint,
    ) -> bool {
        move_ensures(s0, payload, p0, r, s1, p1)
    }

    /// Starts a session in the betting stage with no cards.
    fn init(session: &mut GameSession, rng: &mut GameRng) -> (r: GameResult) {
        let state = BlackjackState {
            stage: Stage::Betting,
            side_bet_21plus3: 0,
            initial_player_cards: [CARD_UNKNOWN, CARD_UNKNOWN],
            active_hand_idx: 0,
            hands: Vec::new(),
            dealer_cards: Vec::new(),
        };
        proof {
            assert(state@.hands =~= Seq::<HandView>::empty());
            assert(state@ == initial_view());
        }
        session.state_blob = serialize_state(&state);
        GameResult::Continue
    }

    /// Processes one move.
    fn process_move(session: &mut GameSession, payload: &[u8], rng: &mut GameRng) -> (r: Result<
        GameResult,
        GameError,
    >) {
        if session.is_complete {
            return Err(GameError::GameAlreadyComplete);
        }
        if payload.len() == 0 {
            return Err(GameError::InvalidPayload);
        }
        let mv = match Move::try_from(payload[0]) {
            Ok(m) => m,
            Err(e) => return Err(e),
        };
        let mut state = match parse_state(session.state_blob.as_slice()) {
            Some(s) => s,
            None => return Err(GameError::InvalidPayload),
        };
        if state.stage == Stage::Complete {
            return Err(GameError::GameAlreadyComplete);
        }
        proof {
            lemma_parsed_bounded(session.state_blob@);
        }
        match state.stage {
            Stage::Betting => {
                let r = Self::betting_move(&mut state, mv, payload, rng);
                if r.is_ok() {
                    session.state_blob = serialize_state(&state);
                }
                r
            },
            Stage::PlayerTurn => {
                let (r, moved) = Self::turn_move(
                    &mut state,
                    mv,
                    session.bet,
                    rng,
                    session.super_mode.is_active,
                    session.super_mode.multipliers.as_slice(),
                );
                if moved {
                    session.move_count = session.move_count.saturating_add(1);
                }
                if r.is_ok() {
                    if state.stage == Stage::Complete {
                        session.is_complete = true;
                    }
                    session.state_blob = serialize_state(&state);
                }
                r
            },
            _ => {
                let r = Self::reveal_move(
                    &mut state,
                    mv,
                    payload,
                    session.bet,
                    rng,
                    session.super_mode.is_active,
                    session.super_mode.multipliers.as_slice(),
                );
                if r.is_ok() {
                    session.is_complete = true;
                    session.state_blob = serialize_state(&state);
                }
                r
            },
        }
    }
}

/// What `process_move` requires of a session, a payload and a stream point.
pub open spec fn move_requires(s0: GameSession, payload: Seq<u8>, p0: RngPoint) -> bool {
    &&& move_defined(s0, payload, p0)
}

/// What `process_move` ensures of a session, a payload and a stream point
/// before (`s0`, `p0`) and after (`s1`, `p1`) the move, with result `r`.
pub open spec fn move_ensures(
    s0: GameSession,
    payload: Seq<u8>,
    p0: RngPoint,
    r: Result<GameResult, GameError>,
    s1: GameSession,
    p1: RngPoint,
) -> bool {
    &&& match move_error(s0.is_complete, s0.state_blob@, payload) {
                Some(e) => r == Err::<GameResult, GameError>(e) && s1 == s0
                    && p1 == p0,
                None => {
                    let v = parse_blob(s0.state_blob@).unwrap();
                    let o = move_outcome(
                        v,
                        move_of(payload[0]).unwrap(),
                        payload,
                        s0.bet,
                        p0,
                        s0.super_mode.is_active,
                        s0.super_mode.multipliers@,
                    );
                    &&& r == o.0
                    &&& p1 == o.3
                    &&& session_fields_kept(s0, s1)
                    &&& s1.move_count == if o.2 {
                        if s0.move_count == u32::MAX {
                            u32::MAX as int
                        } else {
                            s0.move_count + 1
                        }
                    } else {
                        s0.move_count as int
                    }
                    &&& if o.0 is Ok {
                        &&& s1.state_blob@ == state_bytes(o.1)
                        &&& s1.is_complete == (o.1.stage == Stage::Complete)
                    } else {
                        &&& s1.state_blob == s0.state_blob
                        &&& s1.is_complete == s0.is_complete
                    }
                },
            }
}

/// What `init` requires of a session.
pub open spec fn init_requires(s0: GameSession) -> bool {
    true
}

/// What `init` ensures of a session and a stream point before (`s0`, `p0`)
/// and after (`s1`, `p1`), with result `r`.
pub open spec fn init_ensures(s0: GameSession, p0: RngPoint, r: GameResult, s1: GameSession, p1: RngPoint) -> bool {
    &&& r == GameResult::Continue
    &&& s1.state_blob@ == state_bytes(initial_view())
    &&& session_fields_kept(s0, s1)
    &&& s1.is_complete == s0.is_complete
    &&& s1.move_count == s0.move_count
    &&& p1 == p0
}

} // verus!
