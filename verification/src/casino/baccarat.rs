//! Baccarat with several bets per hand.
//!
//! State blob:
//! `[bet_count:u8] [bets: 9 bytes each] [player_len:u8] [player cards] [banker_len:u8] [banker cards]`,
//! each bet being `[bet_type:u8] [amount:u64 BE]`.
//!
//! Payload:
//! `[0, bet_type, amount:u64 BE]` places a bet (adding to a bet of the same type),
//! `[1]` deals and settles every bet, `[2]` clears the pending bets.
//!
//! Bet types: 0 Player (1:1), 1 Banker (0.95:1), 2 Tie (8:1),
//! 3 Player Pair (11:1), 4 Banker Pair (11:1).

use super::common::{
    be_u64, len_byte, lemma_u64_be_roundtrip, push_all, push_u64_be, read_u64_be, sat_add, sat_i64, sat_mul,
    saturating_add_i64, u64_as_i64, u64_be_bytes, wrap_i64,
};
use super::rng::{card_draw, draw_from, ordered_deck, shuffled, GameRng, RngPoint};
use super::session::{session_fields_kept, GameSession, SuperMultiplier};
use super::super_mode::{apply_super_multiplier_cards, cards_product};
use super::{CasinoGame, GameError, GameResult};
use vstd::prelude::*;

verus! {

/// Most cards a hand can hold.
pub const MAX_HAND_SIZE: usize = 3;

/// Most bets a hand can carry (one of each type).
pub const MAX_BETS: usize = 5;

/// Bet types in Baccarat.
#[derive(Clone, Copy, Debug, PartialEq, Eq, Structural)]
pub enum BetType {
    /// 1:1
    Player,
    /// 0.95:1 (5% commission)
    Banker,
    /// 8:1
    Tie,
    /// 11:1
    PlayerPair,
    /// 11:1
    BankerPair,
}

/// Wire code of a bet type.
pub open spec fn bet_type_code(t: BetType) -> u8 {
    match t {
        BetType::Player => 0,
        BetType::Banker => 1,
        BetType::Tie => 2,
        BetType::PlayerPair => 3,
        BetType::BankerPair => 4,
    }
}

/// Bet type of a wire code, if it names one.
pub open spec fn bet_type_of(code: u8) -> Option<BetType> {
    if code == 0 {
        Some(BetType::Player)
    } else if code == 1 {
        Some(BetType::Banker)
    } else if code == 2 {
        Some(BetType::Tie)
    } else if code == 3 {
        Some(BetType::PlayerPair)
    } else if code == 4 {
        Some(BetType::BankerPair)
    } else {
        None
    }
}

impl BetType {
    /// The bet type with wire code `value`, or `InvalidPayload`.
    pub fn try_from(value: u8) -> (r: Result<BetType, GameError>)
        ensures
            r == match bet_type_of(value) {
                Some(t) => Ok(t),
                None => Err(GameError::InvalidPayload),
            },
    {
        match value {
            0 => Ok(BetType::Player),
            1 => Ok(BetType::Banker),
            2 => Ok(BetType::Tie),
            3 => Ok(BetType::PlayerPair),
            4 => Ok(BetType::BankerPair),
            _ => Err(GameError::InvalidPayload),
        }
    }

    /// Wire code of this bet type.
    pub fn to_u8(self) -> (c: u8)
        ensures
            c == bet_type_code(self),
            bet_type_of(c) == Some(self),
    {
        match self {
            BetType::Player => 0,
            BetType::Banker => 1,
            BetType::Tie => 2,
            BetType::PlayerPair => 3,
            BetType::BankerPair => 4,
        }
    }
}

/// Baccarat value of a card: ace 1, 2-9 face value, tens and faces 0.
pub open spec fn card_points(card: u8) -> int {
    let rank = card % 13 + 1;
    if rank == 1 {
        1
    } else if rank <= 9 {
        rank as int
    } else {
        0
    }
}

/// Sum of the card values of a hand.
pub open spec fn hand_points(cards: Seq<u8>) -> int
    decreases cards.len(),
{
    if cards.len() == 0 {
        0
    } else {
        hand_points(cards.drop_last()) + card_points(cards.last())
    }
}

/// Baccarat total of a hand: its value modulo 10.
pub open spec fn hand_score(cards: Seq<u8>) -> u8 {
    (hand_points(cards) % 10) as u8
}

/// A prefix of a hand never counts more than the hand.
proof fn lemma_hand_points_prefix(cards: Seq<u8>, i: int)
    requires
        0 <= i <= cards.len(),
    ensures
        0 <= hand_points(cards.subrange(0, i)) <= hand_points(cards),
        hand_points(cards) <= 9 * cards.len(),
    decreases cards.len(),
{
    if cards.len() > 0 {
        if i == cards.len() {
            assert(cards.subrange(0, i) =~= cards);
            lemma_hand_points_prefix(cards.drop_last(), i - 1);
        } else {
            lemma_hand_points_prefix(cards.drop_last(), i);
            assert(cards.drop_last().subrange(0, i) =~= cards.subrange(0, i));
        }
    }
}

/// Baccarat value of a card (0-9).
pub fn card_value(card: u8) -> (v: u8)
    ensures
        v == card_points(card),
{
    let rank = (card % 13) + 1;
    match rank {
        1 => 1,
        2..=9 => rank,
        _ => 0,
    }
}

/// Hand total modulo 10; the running sum is a `u8`, so the card values must
/// add up to at most 255.
pub fn hand_total(cards: &[u8]) -> (t: u8)
    requires
        hand_points(cards@) <= 255,
    ensures
        t == hand_score(cards@),
{
    let mut sum: u8 = 0;
    let mut i: usize = 0;
    while i < cards.len()
        invariant
            i <= cards@.len(),
            hand_points(cards@) <= 255,
            sum == hand_points(cards@.subrange(0, i as int)),
        decreases cards@.len() - i,
    {
        proof {
            let s = cards@.subrange(0, i as int + 1);
            assert(s.drop_last() =~= cards@.subrange(0, i as int));
            lemma_hand_points_prefix(cards@, i as int + 1);
        }
        sum = sum + card_value(cards[i]);
        i += 1;
    }
    assert(cards@.subrange(0, cards@.len() as int) =~= cards@);
    sum % 10
}

/// Card rank 0-12 (A-K).
pub fn card_rank(card: u8) -> (r: u8)
    ensures
        r == card % 13,
{
    card % 13
}

/// The first two cards of a hand form a pair (same rank).
pub open spec fn hand_has_pair(cards: Seq<u8>) -> bool {
    cards.len() >= 2 && cards[0] % 13 == cards[1] % 13
}

/// Whether the first two cards are a pair.
pub fn is_pair(cards: &[u8]) -> (b: bool)
    ensures
        b == hand_has_pair(cards@),
{
    cards.len() >= 2 && card_rank(cards[0]) == card_rank(cards[1])
}

/// Player draws a third card on 0-5 and stands on 6-7.
pub fn player_draws(player_total: u8) -> (b: bool)
    ensures
        b == (player_total <= 5),
{
    player_total <= 5
}

/// The banker's third-card rule, from the banker's total and the player's
/// third card (if the player drew one).
pub open spec fn banker_draw_rule(banker_total: u8, player_third: Option<u8>) -> bool {
    if banker_total <= 2 {
        true
    } else if banker_total <= 6 {
        match player_third {
            None => banker_total <= 5,
            Some(c) => {
                let v = card_points(c);
                if banker_total == 3 {
                    v != 8
                } else if banker_total == 4 {
                    2 <= v <= 7
                } else if banker_total == 5 {
                    4 <= v <= 7
                } else {
                    v == 6 || v == 7
                }
            },
        }
    } else {
        false
    }
}

/// Baccarat value of a card: the ace counts 1, two to nine their pips, ten
/// and the faces nothing.
pub open spec fn baccarat_value(card: u8) -> int {
    let r = card % 13;
    if r <= 8 {
        r + 1
    } else {
        0
    }
}

/// Sum of the baccarat values of a hand's cards.
pub open spec fn baccarat_sum(cards: Seq<u8>) -> int
    decreases cards.len(),
{
    if cards.len() == 0 {
        0
    } else {
        baccarat_sum(cards.drop_last()) + baccarat_value(cards.last())
    }
}

/// A baccarat hand counts the last digit of the sum of its cards' values:
/// aces one, two to nine their pips, tens and faces nothing.
pub proof fn lemma_hand_score_last_digit(cards: Seq<u8>)
    ensures
        hand_points(cards) == baccarat_sum(cards),
        hand_score(cards) == baccarat_sum(cards) % 10,
    decreases cards.len(),
{
    if cards.len() > 0 {
        lemma_hand_score_last_digit(cards.drop_last());
    }
}

/// The banker's third-card tableau. A banker on 0-2 always draws and on 7 or
/// more stands. When the player stood, the banker draws on 3-5 and stands on
/// 6. When the player drew a third card of value `v`, the banker draws on 3
/// unless `v` is 8, on 4 when `v` is 2-7, on 5 when `v` is 4-7 and on 6 when
/// `v` is 6 or 7.
pub proof fn lemma_third_card_tableau(banker_total: u8, third: u8)
    ensures
        banker_total <= 2 ==> banker_draw_rule(banker_total, None) && banker_draw_rule(banker_total, Some(third)),
        banker_total >= 7 ==> !banker_draw_rule(banker_total, None) && !banker_draw_rule(banker_total, Some(third)),
        3 <= banker_total <= 5 ==> banker_draw_rule(banker_total, None),
        !banker_draw_rule(6, None),
        banker_draw_rule(3, Some(third)) <==> baccarat_value(third) != 8,
        banker_draw_rule(4, Some(third)) <==> 2 <= baccarat_value(third) <= 7,
        banker_draw_rule(5, Some(third)) <==> 4 <= baccarat_value(third) <= 7,
        banker_draw_rule(6, Some(third)) <==> (baccarat_value(third) == 6 || baccarat_value(third) == 7),
{
}

/// Whether the banker draws a third card.
pub fn banker_draws(banker_total: u8, player_third_card: Option<u8>) -> (b: bool)
    ensures
        b == banker_draw_rule(banker_total, player_third_card),
{
    match banker_total {
        0..=2 => true,
        3 => match player_third_card {
            None => true,
            Some(c) => card_value(c) != 8,
        },
        4 => match player_third_card {
            None => true,
            Some(c) => {
                let v = card_value(c);
                v >= 2 && v <= 7
            },
        },
        5 => match player_third_card {
            None => true,
            Some(c) => {
                let v = card_value(c);
                v >= 4 && v <= 7
            },
        },
        6 => match player_third_card {
            None => false,
            Some(c) => {
                let v = card_value(c);
                v == 6 || v == 7
            },
        },
        _ => false,
    }
}

/// One bet of a hand.
#[derive(Clone, Copy, Debug, PartialEq, Eq, Structural)]
pub struct BaccaratBet {
    pub bet_type: BetType,
    pub amount: u64,
}

/// The 9-byte encoding of a bet.
pub open spec fn bet_bytes(b: BaccaratBet) -> Seq<u8> {
    seq![bet_type_code(b.bet_type)] + u64_be_bytes(b.amount)
}

/// The bet encoded at `off`, if its type byte is valid (9 bytes must be there).
pub open spec fn bet_at(b: Seq<u8>, off: int) -> Option<BaccaratBet> {
    match bet_type_of(b[off]) {
        Some(t) => Some(BaccaratBet { bet_type: t, amount: be_u64(b.subrange(off + 1, off + 9)) }),
        None => None,
    }
}

/// Reads the bet encoded at `offset`.
fn read_bet(bytes: &[u8], offset: usize) -> (r: Option<BaccaratBet>)
    requires
        offset + 9 <= bytes@.len(),
    ensures
        r == bet_at(bytes@, offset as int),
{
    match BetType::try_from(bytes[offset]) {
        Ok(bet_type) => {
            let amount = read_u64_be(bytes, offset + 1);
            Some(BaccaratBet { bet_type, amount })
        },
        Err(_) => None,
    }
}

impl BaccaratBet {
    /// The 9-byte encoding `[bet_type:u8] [amount:u64 BE]`.
    pub fn to_bytes(&self) -> (bytes: Vec<u8>)
        ensures
            bytes@ == bet_bytes(*self),
    {
        let mut bytes: Vec<u8> = Vec::new();
        bytes.push(self.bet_type.to_u8());
        push_u64_be(&mut bytes, self.amount);
        bytes
    }

    /// Decodes the first 9 bytes; `None` when there are fewer or the type is invalid.
    pub fn from_bytes(bytes: &[u8]) -> (r: Option<Self>)
        ensures
            r == if bytes@.len() < 9 {
                None
            } else {
                bet_at(bytes@, 0)
            },
    {
        if bytes.len() < 9 {
            return None;
        }
        read_bet(bytes, 0)
    }
}

/// Decoding an encoded bet gives it back.
pub proof fn lemma_bet_roundtrip(b: BaccaratBet, pre: Seq<u8>, post: Seq<u8>)
    ensures
        bet_at(pre + bet_bytes(b) + post, pre.len() as int) == Some(b),
{
    let s = pre + bet_bytes(b) + post;
    lemma_u64_be_roundtrip(b.amount);
    assert(s.subrange(pre.len() as int + 1, pre.len() as int + 9) =~= u64_be_bytes(b.amount));
    assert(s[pre.len() as int] == bet_type_code(b.bet_type));
}

/// Abstract state: the bets, the player's cards and the banker's cards.
pub type BaccaratView = (Seq<BaccaratBet>, Seq<u8>, Seq<u8>);

/// Game state for multi-bet baccarat.
pub struct BaccaratState {
    pub bets: Vec<BaccaratBet>,
    pub player_cards: Vec<u8>,
    pub banker_cards: Vec<u8>,
}

impl View for BaccaratState {
    type V = BaccaratView;

    open spec fn view(&self) -> BaccaratView {
        (self.bets@, self.player_cards@, self.banker_cards@)
    }
}

/// Concatenated encodings of a list of bets.
pub open spec fn bets_bytes(bets: Seq<BaccaratBet>) -> Seq<u8>
    decreases bets.len(),
{
    if bets.len() == 0 {
        Seq::empty()
    } else {
        bets_bytes(bets.drop_last()) + bet_bytes(bets.last())
    }
}

/// The state blob of a state.
pub open spec fn state_bytes(v: BaccaratView) -> Seq<u8> {
    seq![len_byte(v.0.len())] + bets_bytes(v.0) + seq![len_byte(v.1.len())] + v.1 + seq![
        len_byte(v.2.len()),
    ] + v.2
}

/// The first `count` bets of a blob (after the count byte), or `None` when one
/// is cut short or has an invalid type.
pub open spec fn parse_bets(b: Seq<u8>, count: nat) -> Option<Seq<BaccaratBet>>
    decreases count,
{
    if count == 0 {
        Some(Seq::empty())
    } else {
        match parse_bets(b, (count - 1) as nat) {
            Some(prev) => {
                let off = 1 + 9 * (count - 1);
                if off + 9 > b.len() {
                    None
                } else {
                    match bet_at(b, off) {
                        Some(bet) => Some(prev.push(bet)),
                        None => None,
                    }
                }
            },
            None => None,
        }
    }
}

/// The state a blob encodes, if it is well formed. An empty blob is the empty
/// state, and a blob that ends after the bets has no cards.
pub open spec fn parse_state(b: Seq<u8>) -> Option<BaccaratView> {
    if b.len() == 0 {
        Some((Seq::empty(), Seq::empty(), Seq::empty()))
    } else {
        match parse_bets(b, b[0] as nat) {
            None => None,
            Some(bets) => {
                let off = 1 + 9 * b[0];
                if off >= b.len() {
                    Some((bets, Seq::empty(), Seq::empty()))
                } else {
                    let pl = b[off] as int;
                    let off1 = off + 1;
                    if pl > 3 || off1 + pl > b.len() {
                        None
                    } else {
                        let off2 = off1 + pl;
                        if off2 >= b.len() {
                            None
                        } else {
                            let bl = b[off2] as int;
                            let off3 = off2 + 1;
                            if bl > 3 || off3 + bl > b.len() {
                                None
                            } else {
                                Some(
                                    (bets, b.subrange(off1, off1 + pl), b.subrange(off3, off3 + bl)),
                                )
                            }
                        }
                    }
                }
            },
        }
    }
}

/// Once a bet fails to parse, every longer list fails too.
proof fn lemma_parse_bets_none(b: Seq<u8>, k: nat, n: nat)
    requires
        parse_bets(b, k) is None,
        k <= n,
    ensures
        parse_bets(b, n) is None,
    decreases n - k,
{
    if k < n {
        lemma_parse_bets_none(b, k, (n - 1) as nat);
    }
}

/// The encoding of a list of bets is 9 bytes per bet.
proof fn lemma_bets_bytes_len(bets: Seq<BaccaratBet>)
    ensures
        bets_bytes(bets).len() == 9 * bets.len(),
    decreases bets.len(),
{
    if bets.len() > 0 {
        lemma_bets_bytes_len(bets.drop_last());
    }
}

/// The bets of an encoded list read back one by one.
#[verifier::spinoff_prover]
#[verifier::rlimit(40)]
proof fn lemma_parse_bets_of_bytes(bets: Seq<BaccaratBet>, k: nat, rest: Seq<u8>, head: u8)
    requires
        k <= bets.len(),
    ensures
        parse_bets(seq![head] + bets_bytes(bets) + rest, k) == Some(bets.subrange(0, k as int)),
    decreases bets.len(),
{
    let b = seq![head] + bets_bytes(bets) + rest;
    if bets.len() == 0 {
        assert(bets.subrange(0, 0) =~= Seq::<BaccaratBet>::empty());
    } else if k == bets.len() {
        let init = bets.drop_last();
        let rest2 = bet_bytes(bets.last()) + rest;
        assert(b =~= seq![head] + bets_bytes(init) + rest2);
        lemma_parse_bets_of_bytes(init, (k - 1) as nat, rest2, head);
        assert(init.subrange(0, k - 1) =~= init);
        lemma_bets_bytes_len(init);
        let pre = seq![head] + bets_bytes(init);
        assert(b =~= pre + bet_bytes(bets.last()) + rest);
        lemma_bet_roundtrip(bets.last(), pre, rest);
        assert(pre.len() == 1 + 9 * (k - 1));
        lemma_bets_bytes_len(bets);
        assert(bets.subrange(0, k as int) =~= init.push(bets.last()));
    } else {
        let init = bets.drop_last();
        let rest2 = bet_bytes(bets.last()) + rest;
        assert(b =~= seq![head] + bets_bytes(init) + rest2);
        lemma_parse_bets_of_bytes(init, k, rest2, head);
        assert(init.subrange(0, k as int) =~= bets.subrange(0, k as int));
    }
}

/// Decoding the blob of a state gives the state back, for any state with
/// fewer than 256 bets and at most three cards per hand.
#[verifier::spinoff_prover]
#[verifier::rlimit(40)]
pub proof fn lemma_state_roundtrip(v: BaccaratView)
    requires
        v.0.len() < 256,
        v.1.len() <= 3,
        v.2.len() <= 3,
    ensures
        parse_state(state_bytes(v)) == Some(v),
{
    let b = state_bytes(v);
    let n = v.0.len();
    let tail = seq![len_byte(v.1.len())] + v.1 + seq![len_byte(v.2.len())] + v.2;
    assert(b =~= seq![len_byte(n)] + bets_bytes(v.0) + tail);
    lemma_parse_bets_of_bytes(v.0, n, tail, len_byte(n));
    assert(v.0.subrange(0, n as int) =~= v.0);
    lemma_bets_bytes_len(v.0);
    let off: int = 1 + 9 * n as int;
    assert(b[0] == n);
    assert(b[off] == v.1.len());
    assert(b.subrange(off + 1, off + 1 + v.1.len()) =~= v.1);
    let off2: int = off + 1 + v.1.len();
    assert(b[off2] == v.2.len());
    assert(b.subrange(off2 + 1, off2 + 1 + v.2.len()) =~= v.2);
}

impl BaccaratState {
    /// No bets and no cards.
    pub fn new() -> (s: Self)
        ensures
            s@ == (Seq::<BaccaratBet>::empty(), Seq::<u8>::empty(), Seq::<u8>::empty()),
    {
        BaccaratState { bets: Vec::new(), player_cards: Vec::new(), banker_cards: Vec::new() }
    }

    /// Serialize the state to its blob.
    pub fn to_blob(&self) -> (blob: Vec<u8>)
        ensures
            blob@ == state_bytes(self@),
    {
        let mut blob: Vec<u8> = Vec::new();
        blob.push((self.bets.len() % 256) as u8);
        let mut i: usize = 0;
        while i < self.bets.len()
            invariant
                i <= self.bets@.len(),
                blob@ == seq![len_byte(self.bets@.len())] + bets_bytes(self.bets@.subrange(0, i as int)),
            decreases self.bets@.len() - i,
        {
            let bytes = self.bets[i].to_bytes();
            push_all(&mut blob, bytes.as_slice());
            proof {
                let s = self.bets@.subrange(0, i as int + 1);
                assert(s.drop_last() =~= self.bets@.subrange(0, i as int));
                assert(blob@ =~= seq![len_byte(self.bets@.len())] + bets_bytes(s));
            }
            i += 1;
        }
        assert(self.bets@.subrange(0, self.bets@.len() as int) =~= self.bets@);
        blob.push((self.player_cards.len() % 256) as u8);
        push_all(&mut blob, self.player_cards.as_slice());
        blob.push((self.banker_cards.len() % 256) as u8);
        push_all(&mut blob, self.banker_cards.as_slice());
        assert(blob@ =~= state_bytes(self@));
        blob
    }

    /// Deserialize a state from its blob; `None` when the blob is malformed.
    pub fn from_blob(blob: &[u8]) -> (r: Option<Self>)
        ensures
            match r {
                Some(s) => parse_state(blob@) == Some(s@),
                None => parse_state(blob@) is None,
            },
    {
        if blob.len() == 0 {
            return Some(BaccaratState::new());
        }
        let bet_count = blob[0] as usize;
        let mut offset: usize = 1;
        let mut bets: Vec<BaccaratBet> = Vec::new();
        let mut i: usize = 0;
        while i < bet_count
            invariant
                blob@.len() > 0,
                bet_count == blob@[0],
                i <= bet_count,
                offset == 1 + 9 * i,
                parse_bets(blob@, i as nat) == Some(bets@),
            decreases bet_count - i,
        {
            if offset + 9 > blob.len() {
                proof {
                    lemma_parse_bets_none(blob@, (i + 1) as nat, bet_count as nat);
                }
                return None;
            }
            match read_bet(blob, offset) {
                Some(bet) => {
                    bets.push(bet);
                },
                None => {
                    proof {
                        lemma_parse_bets_none(blob@, (i + 1) as nat, bet_count as nat);
                    }
                    return None;
                },
            }
            offset += 9;
            i += 1;
        }
        if offset >= blob.len() {
            return Some(BaccaratState { bets, player_cards: Vec::new(), banker_cards: Vec::new() });
        }
        let player_len = blob[offset] as usize;
        offset += 1;
        if player_len > MAX_HAND_SIZE || offset + player_len > blob.len() {
            return None;
        }
        let player_cards = super::common::copy_range(blob, offset, offset + player_len);
        offset += player_len;
        if offset >= blob.len() {
            return None;
        }
        let banker_len = blob[offset] as usize;
        offset += 1;
        if banker_len > MAX_HAND_SIZE || offset + banker_len > blob.len() {
            return None;
        }
        let banker_cards = super::common::copy_range(blob, offset, offset + banker_len);
        Some(BaccaratState { bets, player_cards, banker_cards })
    }
}

/// Net result of one bet and whether it is a push: winnings for a win, minus
/// the stake for a loss, 0 for a push. Amounts go through `as i64`, so a stake
/// above `i64::MAX` reads as negative.
pub open spec fn bet_outcome(bet: BaccaratBet, pt: u8, bt: u8, pp: bool, bp: bool) -> (int, bool) {
    let a = bet.amount;
    let lose = -wrap_i64(a);
    match bet.bet_type {
        BetType::PlayerPair => if pp {
            (wrap_i64(sat_mul(a as int, 11) as u64), false)
        } else {
            (lose, false)
        },
        BetType::BankerPair => if bp {
            (wrap_i64(sat_mul(a as int, 11) as u64), false)
        } else {
            (lose, false)
        },
        BetType::Tie => if pt == bt {
            (wrap_i64(sat_mul(a as int, 8) as u64), false)
        } else {
            (lose, false)
        },
        BetType::Player => if pt == bt {
            (0, true)
        } else if pt > bt {
            (wrap_i64(a), false)
        } else {
            (lose, false)
        },
        BetType::Banker => if pt == bt {
            (0, true)
        } else if bt > pt {
            let w = sat_mul(a as int, 95) / 100;
            if w > 0 {
                (w, false)
            } else {
                (0, true)
            }
        } else {
            (lose, false)
        },
    }
}

/// How each bet settles against the player's total `pt` and the banker's
/// `bt`: a player bet wins even money when the player's total is higher, a
/// banker bet even money less a 5% commission (rounded down; a win rounded to
/// nothing is a push) when the banker's is higher, and both push on a tie
/// and lose their stake otherwise. A tie bet pays 8 to 1, a pair bet 11 to 1
/// when its hand's first two cards pair, and each loses its stake otherwise.
pub proof fn lemma_bet_settlement(amount: u64, pt: u8, bt: u8, pp: bool, bp: bool)
    requires
        amount * 95 <= u64::MAX,
    ensures
        bet_outcome(BaccaratBet { bet_type: BetType::Player, amount }, pt, bt, pp, bp) == if pt
            > bt {
            (amount as int, false)
        } else if pt == bt {
            (0int, true)
        } else {
            (-amount, false)
        },
        bet_outcome(BaccaratBet { bet_type: BetType::Banker, amount }, pt, bt, pp, bp) == if bt
            > pt && amount * 95 / 100 > 0 {
            (amount * 95 / 100, false)
        } else if bt >= pt {
            (0int, true)
        } else {
            (-amount, false)
        },
        bet_outcome(BaccaratBet { bet_type: BetType::Tie, amount }, pt, bt, pp, bp) == if pt
            == bt {
            (8 * amount, false)
        } else {
            (-amount, false)
        },
        bet_outcome(BaccaratBet { bet_type: BetType::PlayerPair, amount }, pt, bt, pp, bp) == if pp {
            (11 * amount, false)
        } else {
            (-amount, false)
        },
        bet_outcome(BaccaratBet { bet_type: BetType::BankerPair, amount }, pt, bt, pp, bp) == if bp {
            (11 * amount, false)
        } else {
            (-amount, false)
        },
{
    let a = amount as int;
    assert(0 <= a * 8 <= a * 11 && a * 95 / 100 <= a * 11) by (nonlinear_arith)
        requires
            a >= 0,
    ;
}

/// Payout of one bet given the totals and the pairs: `(delta, is_push)`.
/// A losing stake of exactly 2^63 cannot be negated in `i64`, so such an
/// outcome is excluded.
pub fn calculate_bet_payout(
    bet: &BaccaratBet,
    player_total: u8,
    banker_total: u8,
    player_has_pair: bool,
    banker_has_pair: bool,
) -> (r: (i64, bool))
    requires
        bet_outcome(*bet, player_total, banker_total, player_has_pair, banker_has_pair).0
            <= i64::MAX,
    ensures
        (r.0 as int, r.1) == bet_outcome(
            *bet,
            player_total,
            banker_total,
            player_has_pair,
            banker_has_pair,
        ),
{
    match bet.bet_type {
        BetType::PlayerPair => {
            if player_has_pair {
                (u64_as_i64(super::common::saturating_mul_u64(bet.amount, 11)), false)
            } else {
                (-u64_as_i64(bet.amount), false)
            }
        },
        BetType::BankerPair => {
            if banker_has_pair {
                (u64_as_i64(super::common::saturating_mul_u64(bet.amount, 11)), false)
            } else {
                (-u64_as_i64(bet.amount), false)
            }
        },
        BetType::Tie => {
            if player_total == banker_total {
                (u64_as_i64(super::common::saturating_mul_u64(bet.amount, 8)), false)
            } else {
                (-u64_as_i64(bet.amount), false)
            }
        },
        BetType::Player => {
            if player_total == banker_total {
                (0, true)
            } else if player_total > banker_total {
                (u64_as_i64(bet.amount), false)
            } else {
                (-u64_as_i64(bet.amount), false)
            }
        },
        BetType::Banker => {
            if player_total == banker_total {
                (0, true)
            } else if banker_total > player_total {
                let winnings = super::common::saturating_mul_u64(bet.amount, 95) / 100;
                if winnings > 0 {
                    (u64_as_i64(winnings), false)
                } else {
                    (0, true)
                }
            } else {
                (-u64_as_i64(bet.amount), false)
            }
        },
    }
}

/// Settling a list of bets in order: saturating net result, saturating total
/// staked, and whether every bet pushed.
pub open spec fn settle(bets: Seq<BaccaratBet>, pt: u8, bt: u8, pp: bool, bp: bool) -> (
    int,
    int,
    bool,
)
    decreases bets.len(),
{
    if bets.len() == 0 {
        (0, 0, true)
    } else {
        let prev = settle(bets.drop_last(), pt, bt, pp, bp);
        let o = bet_outcome(bets.last(), pt, bt, pp, bp);
        (sat_i64(prev.0 + o.0), sat_add(prev.1, bets.last().amount as int), prev.2 && o.1)
    }
}

/// Settlement stays in range: no losing stake of 2^63 and a net result above `i64::MIN`.
pub open spec fn deal_settles(bets: Seq<BaccaratBet>, pc: Seq<u8>, bc: Seq<u8>) -> bool {
    let pt = hand_score(pc);
    let bt = hand_score(bc);
    &&& forall|i: int|
        0 <= i < bets.len() ==> #[trigger] bet_outcome(
            bets[i],
            pt,
            bt,
            hand_has_pair(pc),
            hand_has_pair(bc),
        ).0 <= i64::MAX
    &&& settle(bets, pt, bt, hand_has_pair(pc), hand_has_pair(bc)).0 != i64::MIN
}

/// Result from the net, the total staked and the all-push flag: a push when
/// every bet pushed, else the amount returned (total plus net), a loss when
/// nothing comes back.
pub open spec fn base_result(net: int, total: int, all_push: bool) -> GameResult {
    if all_push && net == 0 {
        GameResult::Push
    } else if net > 0 {
        GameResult::Win(sat_add(total, net) as u64)
    } else if net < 0 {
        if -net >= total {
            GameResult::Loss
        } else {
            GameResult::Win((total + net) as u64)
        }
    } else {
        GameResult::Win(total as u64)
    }
}

/// Final result of a dealt hand, with the super multipliers of all dealt cards
/// applied to a win when super mode is active.
pub open spec fn deal_result(
    bets: Seq<BaccaratBet>,
    pc: Seq<u8>,
    bc: Seq<u8>,
    super_active: bool,
    mults: Seq<SuperMultiplier>,
) -> GameResult {
    let s = settle(bets, hand_score(pc), hand_score(bc), hand_has_pair(pc), hand_has_pair(bc));
    let base = base_result(s.0, s.1, s.2);
    if super_active {
        match base {
            GameResult::Win(x) => GameResult::Win(
                sat_mul(x as int, cards_product(pc + bc, mults)) as u64,
            ),
            _ => base,
        }
    } else {
        base
    }
}

/// The cards dealt from the stream at `p`: a shuffled deck, two cards to the
/// player, two to the banker, then the third-card rules unless either hand is
/// a natural (8 or 9). Also the stream point afterwards.
pub open spec fn deal_spec(p: RngPoint) -> (Seq<u8>, Seq<u8>, RngPoint) {
    let s0 = shuffled(ordered_deck(), p);
    let d1 = card_draw(s0.0, s0.1);
    let d2 = card_draw(d1.1, d1.2);
    let d3 = card_draw(d2.1, d2.2);
    let d4 = card_draw(d3.1, d3.2);
    let player = seq![d1.0, d2.0];
    let banker = seq![d3.0, d4.0];
    let pt = hand_score(player);
    let bt = hand_score(banker);
    if pt >= 8 || bt >= 8 {
        (player, banker, d4.2)
    } else if pt <= 5 {
        let d5 = card_draw(d4.1, d4.2);
        if banker_draw_rule(bt, Some(d5.0)) {
            let d6 = card_draw(d5.1, d5.2);
            (player.push(d5.0), banker.push(d6.0), d6.2)
        } else {
            (player.push(d5.0), banker, d5.2)
        }
    } else if banker_draw_rule(bt, None) {
        let d6 = card_draw(d4.1, d4.2);
        (player, banker.push(d6.0), d6.2)
    } else {
        (player, banker, d4.2)
    }
}

/// Index of the first bet of type `t`, or -1.
pub open spec fn bet_index(bets: Seq<BaccaratBet>, t: BetType) -> int {
    if exists|i: int| 0 <= i < bets.len() && bets[i].bet_type == t {
        choose|i: int|
            0 <= i < bets.len() && bets[i].bet_type == t && forall|j: int|
                0 <= j < i ==> bets[j].bet_type != t
    } else {
        -1
    }
}

/// The bets after placing `amount` on `t`: added (saturating) to the first bet
/// of that type, or appended.
pub open spec fn placed_bets(bets: Seq<BaccaratBet>, t: BetType, amount: u64) -> Seq<
    BaccaratBet,
> {
    let i = bet_index(bets, t);
    if i >= 0 {
        bets.update(i, BaccaratBet { bet_type: t, amount: sat_add(bets[i].amount as int, amount as int) as u64 })
    } else {
        bets.push(BaccaratBet { bet_type: t, amount })
    }
}

/// The error a command is refused with on a parsed state, if any.
pub open spec fn command_error(st: BaccaratView, payload: Seq<u8>) -> Option<GameError> {
    if payload[0] == 0 {
        if payload.len() < 10 {
            Some(GameError::InvalidPayload)
        } else if st.1.len() > 0 {
            Some(GameError::InvalidMove)
        } else {
            match bet_type_of(payload[1]) {
                None => Some(GameError::InvalidPayload),
                Some(t) => if be_u64(payload.subrange(2, 10)) == 0 {
                    Some(GameError::InvalidPayload)
                } else if bet_index(st.0, t) < 0 && st.0.len() >= MAX_BETS {
                    Some(GameError::InvalidMove)
                } else {
                    None
                },
            }
        }
    } else if payload[0] == 1 {
        if st.0.len() == 0 || st.1.len() > 0 {
            Some(GameError::InvalidMove)
        } else {
            None
        }
    } else if payload[0] == 2 {
        if st.1.len() > 0 {
            Some(GameError::InvalidMove)
        } else {
            None
        }
    } else {
        Some(GameError::InvalidPayload)
    }
}

/// The error a move is refused with, if any, checked in order.
pub open spec fn move_error(is_complete: bool, blob: Seq<u8>, payload: Seq<u8>) -> Option<
    GameError,
> {
    if is_complete {
        Some(GameError::GameAlreadyComplete)
    } else if payload.len() == 0 {
        Some(GameError::InvalidPayload)
    } else {
        match parse_state(blob) {
            None => Some(GameError::InvalidPayload),
            Some(st) => command_error(st, payload),
        }
    }
}

/// A deal can be carried out without overflow: the move count can grow and
/// the bets settle in range.
pub open spec fn move_defined(s: GameSession, payload: Seq<u8>, p: RngPoint) -> bool {
    match parse_state(s.state_blob@) {
        Some(st) => (move_error(s.is_complete, s.state_blob@, payload) is None && payload[0] == 1)
            ==> {
            let d = deal_spec(p);
            s.move_count < u32::MAX && deal_settles(st.0, d.0, d.1)
        },
        None => true,
    }
}

/// What an accepted move does to the session, the stream and the result.
pub open spec fn move_applied(
    old_s: GameSession,
    new_s: GameSession,
    payload: Seq<u8>,
    p0: RngPoint,
    p1: RngPoint,
    r: Result<GameResult, GameError>,
) -> bool {
    let st = parse_state(old_s.state_blob@).unwrap();
    &&& session_fields_kept(old_s, new_s)
    &&& if payload[0] == 0 {
        let t = bet_type_of(payload[1]).unwrap();
        let amount = be_u64(payload.subrange(2, 10));
        &&& new_s.state_blob@ == state_bytes((placed_bets(st.0, t, amount), st.1, st.2))
        &&& new_s.is_complete == old_s.is_complete
        &&& new_s.move_count == old_s.move_count
        &&& p1 == p0
        &&& r == Ok::<GameResult, GameError>(GameResult::Continue)
    } else if payload[0] == 2 {
        &&& new_s.state_blob@ == state_bytes((Seq::empty(), st.1, st.2))
        &&& new_s.is_complete == old_s.is_complete
        &&& new_s.move_count == old_s.move_count
        &&& p1 == p0
        &&& r == Ok::<GameResult, GameError>(GameResult::Continue)
    } else {
        let d = deal_spec(p0);
        &&& new_s.state_blob@ == state_bytes((st.0, d.0, d.1))
        &&& new_s.is_complete
        &&& new_s.move_count == old_s.move_count + 1
        &&& p1 == d.2
        &&& r == Ok::<GameResult, GameError>(
            deal_result(st.0, d.0, d.1, old_s.super_mode.is_active, old_s.super_mode.multipliers@),
        )
    }
}

/// Baccarat.
pub struct Baccarat;

impl Baccarat {
    /// Places the bet of a `[0, bet_type, amount]` payload.
    fn place(state: &mut BaccaratState, payload: &[u8]) -> (r: Result<(), GameError>)
        requires
            payload@.len() > 0,
            payload@[0] == 0,
        ensures
            match command_error(old(state)@, payload@) {
                Some(e) => r == Err::<(), GameError>(e),
                None => r is Ok && final(state)@ == (
                    placed_bets(
                        old(state)@.0,
                        bet_type_of(payload@[1]).unwrap(),
                        be_u64(payload@.subrange(2, 10)),
                    ),
                    old(state)@.1,
                    old(state)@.2,
                ),
            },
    {
        if payload.len() < 10 {
            return Err(GameError::InvalidPayload);
        }
        if state.player_cards.len() != 0 {
            return Err(GameError::InvalidMove);
        }
        let bet_type = match BetType::try_from(payload[1]) {
            Ok(t) => t,
            Err(e) => return Err(e),
        };
        let amount = read_u64_be(payload, 2);
        if amount == 0 {
            return Err(GameError::InvalidPayload);
        }
        let idx = find_bet(state.bets.as_slice(), bet_type);
        if idx < state.bets.len() {
            let mut b = state.bets[idx];
            b.amount = b.amount.saturating_add(amount);
            state.bets.set(idx, b);
        } else {
            if state.bets.len() >= MAX_BETS {
                return Err(GameError::InvalidMove);
            }
            state.bets.push(BaccaratBet { bet_type, amount });
        }
        assert(state.bets@ =~= placed_bets(old(state)@.0, bet_type, amount));
        Ok(())
    }

    /// Deals the hands into `state` and settles its bets.
    fn deal(
        state: &mut BaccaratState,
        rng: &mut GameRng,
        super_active: bool,
        multipliers: &[SuperMultiplier],
    ) -> (r: GameResult)
        requires
            old(state)@.1.len() == 0,
            deal_settles(old(state)@.0, deal_spec(old(rng)@).0, deal_spec(old(rng)@).1),
        ensures
            final(state)@ == (old(state)@.0, deal_spec(old(rng)@).0, deal_spec(old(rng)@).1),
            final(rng)@ == deal_spec(old(rng)@).2,
            r == deal_result(
                old(state)@.0,
                deal_spec(old(rng)@).0,
                deal_spec(old(rng)@).1,
                super_active,
                multipliers@,
            ),
    {
        let ghost p0 = rng@;
        let ghost dspec = deal_spec(p0);
        let mut deck = rng.create_deck();
        let c1 = draw_from(rng, &mut deck);
        let c2 = draw_from(rng, &mut deck);
        let c3 = draw_from(rng, &mut deck);
        let c4 = draw_from(rng, &mut deck);
        let mut player_cards: Vec<u8> = Vec::new();
        player_cards.push(c1);
        player_cards.push(c2);
        let mut banker_cards: Vec<u8> = Vec::new();
        banker_cards.push(c3);
        banker_cards.push(c4);
        assert(player_cards@ =~= seq![c1, c2]);
        assert(banker_cards@ =~= seq![c3, c4]);
        proof {
            lemma_hand_points_prefix(player_cards@, 0);
            lemma_hand_points_prefix(banker_cards@, 0);
        }
        let mut player_total = hand_total(player_cards.as_slice());
        let mut banker_total = hand_total(banker_cards.as_slice());
        let natural = player_total >= 8 || banker_total >= 8;
        let mut player_third: Option<u8> = None;
        if !natural {
            if player_draws(player_total) {
                let card = draw_from(rng, &mut deck);
                player_cards.push(card);
                player_third = Some(card);
                proof {
                    lemma_hand_points_prefix(player_cards@, 0);
                }
                player_total = hand_total(player_cards.as_slice());
            }
            if banker_draws(banker_total, player_third) {
                let card = draw_from(rng, &mut deck);
                banker_cards.push(card);
                proof {
                    lemma_hand_points_prefix(banker_cards@, 0);
                }
                banker_total = hand_total(banker_cards.as_slice());
            }
        }
        assert(player_cards@ == dspec.0 && banker_cards@ == dspec.1 && rng@ == dspec.2);
        state.player_cards = player_cards;
        state.banker_cards = banker_cards;
        let player_has_pair = is_pair(state.player_cards.as_slice());
        let banker_has_pair = is_pair(state.banker_cards.as_slice());
        let ghost bets = state.bets@;
        let mut total_wagered: u64 = 0;
        let mut net_payout: i64 = 0;
        let mut all_push = true;
        let mut i: usize = 0;
        while i < state.bets.len()
            invariant
                bets == state.bets@,
                i <= bets.len(),
                deal_settles(bets, state.player_cards@, state.banker_cards@),
                player_total == hand_score(state.player_cards@),
                banker_total == hand_score(state.banker_cards@),
                player_has_pair == hand_has_pair(state.player_cards@),
                banker_has_pair == hand_has_pair(state.banker_cards@),
                (net_payout as int, total_wagered as int, all_push) == settle(
                    bets.subrange(0, i as int),
                    player_total,
                    banker_total,
                    player_has_pair,
                    banker_has_pair,
                ),
            decreases bets.len() - i,
        {
            let bet = state.bets[i];
            total_wagered = total_wagered.saturating_add(bet.amount);
            assert(bet_outcome(bets[i as int], player_total, banker_total, player_has_pair, banker_has_pair).0 <= i64::MAX);
            let (payout_delta, is_push) = calculate_bet_payout(
                &bet,
                player_total,
                banker_total,
                player_has_pair,
                banker_has_pair,
            );
            net_payout = saturating_add_i64(net_payout, payout_delta);
            if !is_push {
                all_push = false;
            }
            proof {
                let s = bets.subrange(0, i as int + 1);
                assert(s.drop_last() =~= bets.subrange(0, i as int));
            }
            i += 1;
        }
        assert(bets.subrange(0, bets.len() as int) =~= bets);
        let base_result = if all_push && net_payout == 0 {
            GameResult::Push
        } else if net_payout > 0 {
            GameResult::Win(total_wagered.saturating_add(net_payout as u64))
        } else if net_payout < 0 {
            let loss_amount = (-net_payout) as u64;
            if loss_amount >= total_wagered {
                GameResult::Loss
            } else {
                GameResult::Win(total_wagered.saturating_sub(loss_amount))
            }
        } else {
            GameResult::Win(total_wagered)
        };
        if super_active {
            if let GameResult::Win(base_payout) = base_result {
                let mut all_cards: Vec<u8> = Vec::new();
                push_all(&mut all_cards, state.player_cards.as_slice());
                push_all(&mut all_cards, state.banker_cards.as_slice());
                let boosted = apply_super_multiplier_cards(all_cards.as_slice(), multipliers, base_payout);
                return GameResult::Win(boosted);
            }
        }
        base_result
    }
}

impl CasinoGame for Baccarat {
    open spec fn init_requires(s0: GameSession) -> bool {
        init_requires(s0)
    }

    open spec fn init_ensures(s0: GameSession, p0: RngPoint, r: GameResult, s1: GameSession, p1: RngPoint) -> bool {
        init_ensures(s0, p0, r, s1, p1)
    }

    open spec fn move_requires(s0: GameSession, payload: Seq<u8>, p0: RngPoint) -> bool {
        move_requires(s0, payload, p0)
    }

    open spec fn move_ensures(
        s0: GameSession,
        payload: Seq<u8>,
        p0: RngPoint,
        r: Result<GameResult, GameError>,
        s1: GameSession,
        p1: RngPoint,
    ) -> bool {
        move_ensures(s0, payload, p0, r, s1, p1)
    }

    /// Starts a session with no bets and no cards.
    fn init(session: &mut GameSession, rng: &mut GameRng) -> (r: GameResult) {
        let state = BaccaratState::new();
        session.state_blob = state.to_blob();
        GameResult::Continue
    }

    /// Processes one move: place a bet, deal and settle, or clear the bets.
    #[verifier::spinoff_prover]
    #[verifier::rlimit(40)]
    fn process_move(session: &mut GameSession, payload: &[u8], rng: &mut GameRng) -> (r: Result<
        GameResult,
        GameError,
    >) {
        if session.is_complete {
            return Err(GameError::GameAlreadyComplete);
        }
        if payload.len() == 0 {
            return Err(GameError::InvalidPayload);
        }
        let mut state = match BaccaratState::from_blob(session.state_blob.as_slice()) {
            Some(s) => s,
            None => return Err(GameError::InvalidPayload),
        };
        let ghost st = state@;
        proof {
            lemma_bets_bound(session.state_blob@);
        }
        if payload[0] == 0 {
            match Self::place(&mut state, payload) {
                Ok(()) => {},
                Err(e) => return Err(e),
            }
            session.state_blob = state.to_blob();
            Ok(GameResult::Continue)
        } else if payload[0] == 1 {
            if state.bets.len() == 0 {
                return Err(GameError::InvalidMove);
            }
            if state.player_cards.len() != 0 {
                return Err(GameError::InvalidMove);
            }
            let mult = Self::deal(&mut state, rng, session.super_mode.is_active, session.super_mode.multipliers.as_slice());
            session.state_blob = state.to_blob();
            session.move_count += 1;
            session.is_complete = true;
            Ok(mult)
        } else if payload[0] == 2 {
            if state.player_cards.len() != 0 {
                return Err(GameError::InvalidMove);
            }
            state.bets.clear();
            assert(state.bets@ =~= Seq::<BaccaratBet>::empty());
            session.state_blob = state.to_blob();
            Ok(GameResult::Continue)
        } else {
            Err(GameError::InvalidPayload)
        }
    }
}

/// Index of the first bet of type `t`, or the length when there is none.
fn find_bet(bets: &[BaccaratBet], t: BetType) -> (i: usize)
    ensures
        i <= bets@.len(),
        i < bets@.len() ==> bet_index(bets@, t) == i && bets@[i as int].bet_type == t,
        i == bets@.len() ==> bet_index(bets@, t) == -1,
{
    let mut i: usize = 0;
    while i < bets.len() && bets[i].bet_type != t
        invariant
            i <= bets@.len(),
            forall|j: int| 0 <= j < i ==> bets@[j].bet_type != t,
        decreases bets@.len() - i,
    {
        i += 1;
    }
    proof {
        if i < bets@.len() {
            let k = bet_index(bets@, t);
            assert(0 <= k < bets@.len() && bets@[k].bet_type == t && forall|j: int| 0 <= j < k ==> bets@[j].bet_type != t) by {
                assert(bets@[i as int].bet_type == t);
            }
            if k < i {
                assert(bets@[k].bet_type != t);
            }
            if i < k {
                assert(bets@[i as int].bet_type != t);
            }
        }
    }
    i
}

/// A parsed state has fewer than 256 bets and at most three cards per hand.
proof fn lemma_bets_bound(b: Seq<u8>)
    requires
        parse_state(b) is Some,
    ensures
        parse_state(b).unwrap().0.len() < 256,
        parse_state(b).unwrap().1.len() <= 3,
        parse_state(b).unwrap().2.len() <= 3,
{
    if b.len() > 0 {
        lemma_parse_bets_len(b, b[0] as nat);
    }
}

/// A parsed list of `count` bets has `count` bets.
proof fn lemma_parse_bets_len(b: Seq<u8>, count: nat)
    requires
        parse_bets(b, count) is Some,
    ensures
        parse_bets(b, count).unwrap().len() == count,
    decreases count,
{
    if count > 0 {
        lemma_parse_bets_len(b, (count - 1) as nat);
    }
}

/// What `process_move` requires of a session, a payload and a stream point.
pub open spec fn move_requires(s0: GameSession, payload: Seq<u8>, p0: RngPoint) -> bool {
    &&& move_defined(s0, payload, p0)
}

/// What `process_move` ensures of a session, a payload and a stream point
/// before (`s0`, `p0`) and after (`s1`, `p1`) the move, with result `r`.
pub open spec fn move_ensures(
    s0: GameSession,
    payload: Seq<u8>,
    p0: RngPoint,
    r: Result<GameResult, GameError>,
    s1: GameSession,
    p1: RngPoint,
) -> bool {
    &&& match move_error(s0.is_complete, s0.state_blob@, payload) {
                Some(e) => r == Err::<GameResult, GameError>(e) && s1 == s0
                    && p1 == p0,
                None => move_applied(s0, s1, payload, p0, p1, r),
            }
}

/// What `init` requires of a session.
pub open spec fn init_requires(s0: GameSession) -> bool {
    true
}

/// What `init` ensures of a session and a stream point before (`s0`, `p0`)
/// and after (`s1`, `p1`), with result `r`.
pub open spec fn init_ensures(s0: GameSession, p0: RngPoint, r: GameResult, s1: GameSession, p1: RngPoint) -> bool {
    &&& r == GameResult::Continue
    &&& s1.state_blob@ == state_bytes(
                (Seq::<BaccaratBet>::empty(), Seq::<u8>::empty(), Seq::<u8>::empty()),
            )
    &&& session_fields_kept(s0, s1)
    &&& s1.is_complete == s0.is_complete
    &&& s1.move_count == s0.move_count
    &&& p1 == p0
}

} // verus!
