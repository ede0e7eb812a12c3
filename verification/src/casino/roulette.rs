//! Roulette with several bets per spin.
//!
//! State blob: `[bet_count:u8] [bets: 10 bytes each] [result:u8]?`,
//! each bet being `[bet_type:u8] [number:u8] [amount:u64 BE]`.
//!
//! Payload: `[0, bet_type, number, amount:u64 BE]` places a bet, `[1]` spins and
//! settles, `[2]` clears the pending bets.
//!
//! Bet types: 0 Straight (35:1), 1 Red, 2 Black, 3 Even, 4 Odd, 5 Low (1-18),
//! 6 High (19-36) (all 1:1), 7 Dozen and 8 Column (2:1, number 0-2).

use super::common::{
    be_u64, len_byte, lemma_u64_be_roundtrip, push_all, push_u64_be, read_u64_be, sat_add, sat_mul,
    saturating_mul_u64, u64_be_bytes,
};
use super::rng::{bounded_draw, GameRng, RngPoint};
use super::session::{session_fields_kept, GameSession, SuperMultiplier, SuperType};
use super::super_mode::{apply_super_multiplier_number, keyed_multiplier};
use super::{CasinoGame, GameError, GameResult};
use vstd::prelude::*;

verus! {

/// Most bets a spin can carry.
pub const MAX_BETS: usize = 20;

/// Roulette bet types.
#[derive(Clone, Copy, Debug, PartialEq, Eq, Structural)]
pub enum BetType {
    /// Single number (35:1)
    Straight,
    /// Red (1:1)
    Red,
    /// Black (1:1)
    Black,
    /// Even (1:1)
    Even,
    /// Odd (1:1)
    Odd,
    /// 1-18 (1:1)
    Low,
    /// 19-36 (1:1)
    High,
    /// 1-12, 13-24, 25-36 (2:1)
    Dozen,
    /// First, second, third column (2:1)
    Column,
}

/// Wire code of a bet type.
pub open spec fn bet_type_code(t: BetType) -> u8 {
    match t {
        BetType::Straight => 0,
        BetType::Red => 1,
        BetType::Black => 2,
        BetType::Even => 3,
        BetType::Odd => 4,
        BetType::Low => 5,
        BetType::High => 6,
        BetType::Dozen => 7,
        BetType::Column => 8,
    }
}

/// Bet type of a wire code, if it names one.
pub open spec fn bet_type_of(code: u8) -> Option<BetType> {
    if code == 0 {
        Some(BetType::Straight)
    } else if code == 1 {
        Some(BetType::Red)
    } else if code == 2 {
        Some(BetType::Black)
    } else if code == 3 {
        Some(BetType::Even)
    } else if code == 4 {
        Some(BetType::Odd)
    } else if code == 5 {
        Some(BetType::Low)
    } else if code == 6 {
        Some(BetType::High)
    } else if code == 7 {
        Some(BetType::Dozen)
    } else if code == 8 {
        Some(BetType::Column)
    } else {
        None
    }
}

impl BetType {
    /// The bet type with wire code `value`, or `InvalidPayload`.
    pub fn try_from(value: u8) -> (r: Result<BetType, GameError>)
        ensures
            r == match bet_type_of(value) {
                Some(t) => Ok(t),
                None => Err(GameError::InvalidPayload),
            },
    {
        match value {
            0 => Ok(BetType::Straight),
            1 => Ok(BetType::Red),
            2 => Ok(BetType::Black),
            3 => Ok(BetType::Even),
            4 => Ok(BetType::Odd),
            5 => Ok(BetType::Low),
            6 => Ok(BetType::High),
            7 => Ok(BetType::Dozen),
            8 => Ok(BetType::Column),
            _ => Err(GameError::InvalidPayload),
        }
    }

    /// Wire code of this bet type.
    pub fn to_u8(self) -> (c: u8)
        ensures
            c == bet_type_code(self),
            bet_type_of(c) == Some(self),
    {
        match self {
            BetType::Straight => 0,
            BetType::Red => 1,
            BetType::Black => 2,
            BetType::Even => 3,
            BetType::Odd => 4,
            BetType::Low => 5,
            BetType::High => 6,
            BetType::Dozen => 7,
            BetType::Column => 8,
        }
    }
}

/// The red numbers of the wheel.
pub open spec fn red_number(n: u8) -> bool {
    n == 1 || n == 3 || n == 5 || n == 7 || n == 9 || n == 12 || n == 14 || n == 16 || n == 18
        || n == 19 || n == 21 || n == 23 || n == 25 || n == 27 || n == 30 || n == 32 || n == 34
        || n == 36
}

/// Whether a number is red.
pub fn is_red(number: u8) -> (b: bool)
    ensures
        b == red_number(number),
{
    matches!(number, 1 | 3 | 5 | 7 | 9 | 12 | 14 | 16 | 18 | 19 | 21 | 23 | 25 | 27 | 30 | 32 | 34 | 36)
}

/// How many of the numbers `1..=k` are red.
pub open spec fn reds_up_to(k: nat) -> nat
    decreases k,
{
    if k == 0 {
        0
    } else {
        reds_up_to((k - 1) as nat) + if red_number(k as u8) {
            1nat
        } else {
            0
        }
    }
}

/// The colours of the wheel: zero is green; from 1 to 10 and from 19 to 28
/// the odd numbers are red and the even black, from 11 to 18 and from 29 to
/// 36 the even numbers are red and the odd black; so half of 1 to 36, 18
/// numbers, are red. A red bet wins exactly on the red numbers, a black bet
/// exactly on the others from 1 to 36.
pub proof fn lemma_wheel_colours(n: u8, number: u8)
    ensures
        !red_number(0),
        1 <= n <= 36 ==> (red_number(n) <==> (((1 <= n <= 10) || (19 <= n <= 28)) <==> n % 2 == 1)),
        n > 36 ==> !red_number(n),
        reds_up_to(36) == 18,
        wins(BetType::Red, number, n) <==> red_number(n),
        1 <= n <= 36 ==> (wins(BetType::Black, number, n) <==> !red_number(n)),
        !wins(BetType::Black, number, 0),
{
    reveal_with_fuel(reds_up_to, 37);
    assert(reds_up_to(36) == 18);
}

/// Whether a bet wins on `result`: zero loses everything but a straight on 0.
pub open spec fn wins(bet_type: BetType, number: u8, result: u8) -> bool {
    if result == 0 {
        bet_type == BetType::Straight && number == 0
    } else {
        match bet_type {
            BetType::Straight => number == result,
            BetType::Red => red_number(result),
            BetType::Black => !red_number(result),
            BetType::Even => result % 2 == 0,
            BetType::Odd => result % 2 == 1,
            BetType::Low => 1 <= result <= 18,
            BetType::High => 19 <= result <= 36,
            BetType::Dozen => (result - 1) / 12 == number,
            BetType::Column => (result - 1) % 3 == number,
        }
    }
}

/// Whether a bet wins for a given result.
pub fn bet_wins(bet_type: BetType, bet_number: u8, result: u8) -> (b: bool)
    ensures
        b == wins(bet_type, bet_number, result),
{
    if result == 0 {
        return bet_type == BetType::Straight && bet_number == 0;
    }
    match bet_type {
        BetType::Straight => bet_number == result,
        BetType::Red => is_red(result),
        BetType::Black => !is_red(result),
        BetType::Even => result % 2 == 0,
        BetType::Odd => result % 2 == 1,
        BetType::Low => result >= 1 && result <= 18,
        BetType::High => result >= 19 && result <= 36,
        BetType::Dozen => {
            let dozen = (result - 1) / 12;
            dozen == bet_number
        },
        BetType::Column => {
            let column = (result - 1) % 3;
            column == bet_number
        },
    }
}

/// Winnings per unit staked (the stake itself excluded).
pub open spec fn multiplier_of(t: BetType) -> u64 {
    match t {
        BetType::Straight => 35,
        BetType::Dozen | BetType::Column => 2,
        _ => 1,
    }
}

/// Payout multiplier of a bet type (excluding the stake).
pub fn payout_multiplier(bet_type: BetType) -> (m: u64)
    ensures
        m == multiplier_of(bet_type),
{
    match bet_type {
        BetType::Straight => 35,
        BetType::Red | BetType::Black | BetType::Even | BetType::Odd | BetType::Low
        | BetType::High => 1,
        BetType::Dozen | BetType::Column => 2,
    }
}

/// How many of the numbers `1..=k` a bet wins on.
pub open spec fn numbers_covered(t: BetType, number: u8, k: nat) -> nat
    decreases k,
{
    if k == 0 {
        0
    } else {
        numbers_covered(t, number, (k - 1) as nat) + if wins(t, number, k as u8) {
            1nat
        } else {
            0
        }
    }
}

/// A straight bet on `number` covers it alone.
proof fn lemma_straight_covers_one(number: u8, k: nat)
    requires
        k <= 36,
    ensures
        numbers_covered(BetType::Straight, number, k) == if 1 <= number <= k {
            1nat
        } else {
            0
        },
    decreases k,
{
    if k > 0 {
        lemma_straight_covers_one(number, (k - 1) as nat);
    }
}

/// Roulette pays what a wheel without the zero would pay fairly: a winning
/// bet returns its stake times 36 over the count of numbers from 1 to 36 it
/// covers (36 for 1 on a straight, 3 for 1 on a dozen or column of 12, 2 for
/// 1 on the even-money bets of 18). The even-money bets, dozens and columns
/// cover the numbers their names say, and on zero every bet loses but a
/// straight on 0.
pub proof fn lemma_payouts_fair_without_zero(t: BetType, number: u8, n: u8)
    requires
        number_valid(t, number),
        t == BetType::Straight ==> number >= 1,
    ensures
        (multiplier_of(t) + 1) * numbers_covered(t, number, 36) == 36,
        !(t == BetType::Straight && number == 0) ==> !wins(t, number, 0),
        1 <= n <= 36 ==> (wins(BetType::Even, number, n) <==> n % 2 == 0),
        1 <= n <= 36 ==> (wins(BetType::Odd, number, n) <==> n % 2 == 1),
        1 <= n <= 36 ==> (wins(BetType::Low, number, n) <==> n <= 18),
        1 <= n <= 36 ==> (wins(BetType::High, number, n) <==> n >= 19),
        1 <= n <= 36 && number <= 2 ==> (wins(BetType::Dozen, number, n) <==> 12 * number < n
            <= 12 * number + 12),
        1 <= n <= 36 && number <= 2 ==> (wins(BetType::Column, number, n) <==> n % 3 == (number
            + 1) % 3),
{
    match t {
        BetType::Straight => {
            lemma_straight_covers_one(number, 36);
        },
        BetType::Dozen | BetType::Column => {
            lemma_twelve_covered(t, number);
        },
        _ => {
            lemma_eighteen_covered(t, number);
        },
    }
}

/// How many of `1..=k` each bet covers.
proof fn lemma_cover_counts(number: u8, k: nat)
    requires
        k <= 36,
        number <= 2,
    ensures
        numbers_covered(BetType::Red, number, k) == reds_up_to(k),
        numbers_covered(BetType::Black, number, k) == k - reds_up_to(k),
        numbers_covered(BetType::Even, number, k) == k / 2,
        numbers_covered(BetType::Odd, number, k) == (k + 1) / 2,
        numbers_covered(BetType::Low, number, k) == if k <= 18 {
            k as int
        } else {
            18
        },
        numbers_covered(BetType::High, number, k) == if k <= 18 {
            0
        } else {
            k - 18
        },
        numbers_covered(BetType::Dozen, number, k) == if k <= 12 * number {
            0
        } else if k >= 12 * number + 12 {
            12
        } else {
            k - 12 * number
        },
        numbers_covered(BetType::Column, number, k) == (k + 2 - number) / 3,
        reds_up_to(k) <= k,
    decreases k,
{
    if k > 0 {
        lemma_cover_counts(number, (k - 1) as nat);
    }
}

/// A dozen or a column covers twelve numbers.
proof fn lemma_twelve_covered(t: BetType, number: u8)
    requires
        t == BetType::Dozen || t == BetType::Column,
        number <= 2,
    ensures
        numbers_covered(t, number, 36) == 12,
{
    lemma_cover_counts(number, 36);
}

/// An even-money bet covers eighteen numbers.
proof fn lemma_eighteen_covered(t: BetType, number: u8)
    requires
        t != BetType::Straight && t != BetType::Dozen && t != BetType::Column,
    ensures
        numbers_covered(t, number, 36) == 18,
{
    lemma_cover_counts(0, 36);
    lemma_wheel_colours(0, 0);
    assert(numbers_covered(t, number, 36) == numbers_covered(t, 0, 36)) by {
        lemma_cover_same(t, number, 36);
    }
}

/// An even-money bet covers the same numbers whatever its number byte.
proof fn lemma_cover_same(t: BetType, number: u8, k: nat)
    requires
        t != BetType::Straight && t != BetType::Dozen && t != BetType::Column,
    ensures
        numbers_covered(t, number, k) == numbers_covered(t, 0, k),
    decreases k,
{
    if k > 0 {
        lemma_cover_same(t, number, (k - 1) as nat);
    }
}

/// One roulette bet.
#[derive(Clone, Copy, Debug, PartialEq, Eq, Structural)]
pub struct RouletteBet {
    pub bet_type: BetType,
    pub number: u8,
    pub amount: u64,
}

/// The 10-byte encoding of a bet.
pub open spec fn bet_bytes(b: RouletteBet) -> Seq<u8> {
    seq![bet_type_code(b.bet_type), b.number] + u64_be_bytes(b.amount)
}

/// The bet encoded at `off`, if its type byte is valid (10 bytes must be there).
pub open spec fn bet_at(b: Seq<u8>, off: int) -> Option<RouletteBet> {
    match bet_type_of(b[off]) {
        Some(t) => Some(
            RouletteBet { bet_type: t, number: b[off + 1], amount: be_u64(b.subrange(off + 2, off + 10)) },
        ),
        None => None,
    }
}

/// Reads the bet encoded at `offset`.
fn read_bet(bytes: &[u8], offset: usize) -> (r: Option<RouletteBet>)
    requires
        offset + 10 <= bytes@.len(),
    ensures
        r == bet_at(bytes@, offset as int),
{
    match BetType::try_from(bytes[offset]) {
        Ok(bet_type) => {
            let number = bytes[offset + 1];
            let amount = read_u64_be(bytes, offset + 2);
            Some(RouletteBet { bet_type, number, amount })
        },
        Err(_) => None,
    }
}

impl RouletteBet {
    /// The 10-byte encoding `[bet_type:u8] [number:u8] [amount:u64 BE]`.
    pub fn to_bytes(&self) -> (bytes: Vec<u8>)
        ensures
            bytes@ == bet_bytes(*self),
    {
        let mut bytes: Vec<u8> = Vec::new();
        bytes.push(self.bet_type.to_u8());
        bytes.push(self.number);
        push_u64_be(&mut bytes, self.amount);
        assert(bytes@ =~= bet_bytes(*self));
        bytes
    }

    /// Decodes the first 10 bytes; `None` when there are fewer or the type is invalid.
    pub fn from_bytes(bytes: &[u8]) -> (r: Option<Self>)
        ensures
            r == if bytes@.len() < 10 {
                None
            } else {
                bet_at(bytes@, 0)
            },
    {
        if bytes.len() < 10 {
            return None;
        }
        read_bet(bytes, 0)
    }
}

/// Decoding an encoded bet gives it back.
pub proof fn lemma_bet_roundtrip(b: RouletteBet, pre: Seq<u8>, post: Seq<u8>)
    ensures
        bet_at(pre + bet_bytes(b) + post, pre.len() as int) == Some(b),
{
    let s = pre + bet_bytes(b) + post;
    lemma_u64_be_roundtrip(b.amount);
    assert(s.subrange(pre.len() as int + 2, pre.len() as int + 10) =~= u64_be_bytes(b.amount));
    assert(s[pre.len() as int] == bet_type_code(b.bet_type));
    assert(s[pre.len() as int + 1] == b.number);
}

/// Abstract state: the bets and the spin result, once spun.
pub type RouletteView = (Seq<RouletteBet>, Option<u8>);

/// Game state for multi-bet roulette.
pub struct RouletteState {
    pub bets: Vec<RouletteBet>,
    pub result: Option<u8>,
}

impl View for RouletteState {
    type V = RouletteView;

    open spec fn view(&self) -> RouletteView {
        (self.bets@, self.result)
    }
}

/// Concatenated encodings of a list of bets.
pub open spec fn bets_bytes(bets: Seq<RouletteBet>) -> Seq<u8>
    decreases bets.len(),
{
    if bets.len() == 0 {
        Seq::empty()
    } else {
        bets_bytes(bets.drop_last()) + bet_bytes(bets.last())
    }
}

/// The state blob of a state.
pub open spec fn state_bytes(v: RouletteView) -> Seq<u8> {
    seq![len_byte(v.0.len())] + bets_bytes(v.0) + match v.1 {
        Some(r) => seq![r],
        None => Seq::empty(),
    }
}

/// The first `count` bets of a blob (after the count byte), or `None` when one
/// is cut short or has an invalid type.
pub open spec fn parse_bets(b: Seq<u8>, count: nat) -> Option<Seq<RouletteBet>>
    decreases count,
{
    if count == 0 {
        Some(Seq::empty())
    } else {
        match parse_bets(b, (count - 1) as nat) {
            Some(prev) => {
                let off = 1 + 10 * (count - 1);
                if off + 10 > b.len() {
                    None
                } else {
                    match bet_at(b, off) {
                        Some(bet) => Some(prev.push(bet)),
                        None => None,
                    }
                }
            },
            None => None,
        }
    }
}

/// The state a blob encodes: at most 20 bets, then the result byte if any
/// byte follows (bytes after it are ignored). An empty blob is the empty state.
pub open spec fn parse_state(b: Seq<u8>) -> Option<RouletteView> {
    if b.len() == 0 {
        Some((Seq::empty(), None))
    } else if b[0] > MAX_BETS || b.len() < 1 + 10 * b[0] {
        None
    } else {
        match parse_bets(b, b[0] as nat) {
            None => None,
            Some(bets) => {
                let off = 1 + 10 * b[0];
                if off < b.len() {
                    Some((bets, Some(b[off])))
                } else {
                    Some((bets, None))
                }
            },
        }
    }
}

/// Once a bet fails to parse, every longer list fails too.
proof fn lemma_parse_bets_none(b: Seq<u8>, k: nat, n: nat)
    requires
        parse_bets(b, k) is None,
        k <= n,
    ensures
        parse_bets(b, n) is None,
    decreases n - k,
{
    if k < n {
        lemma_parse_bets_none(b, k, (n - 1) as nat);
    }
}

/// A parsed list of `count` bets has `count` bets.
proof fn lemma_parse_bets_len(b: Seq<u8>, count: nat)
    requires
        parse_bets(b, count) is Some,
    ensures
        parse_bets(b, count).unwrap().len() == count,
    decreases count,
{
    if count > 0 {
        lemma_parse_bets_len(b, (count - 1) as nat);
    }
}

/// The encoding of a list of bets is 10 bytes per bet.
proof fn lemma_bets_bytes_len(bets: Seq<RouletteBet>)
    ensures
        bets_bytes(bets).len() == 10 * bets.len(),
    decreases bets.len(),
{
    if bets.len() > 0 {
        lemma_bets_bytes_len(bets.drop_last());
    }
}

/// The bets of an encoded list read back one by one.
#[verifier::spinoff_prover]
#[verifier::rlimit(40)]
proof fn lemma_parse_bets_of_bytes(bets: Seq<RouletteBet>, k: nat, rest: Seq<u8>, head: u8)
    requires
        k <= bets.len(),
    ensures
        parse_bets(seq![head] + bets_bytes(bets) + rest, k) == Some(bets.subrange(0, k as int)),
    decreases bets.len(),
{
    let b = seq![head] + bets_bytes(bets) + rest;
    if bets.len() == 0 {
        assert(bets.subrange(0, 0) =~= Seq::<RouletteBet>::empty());
    } else if k == bets.len() {
        let init = bets.drop_last();
        let rest2 = bet_bytes(bets.last()) + rest;
        assert(b =~= seq![head] + bets_bytes(init) + rest2);
        lemma_parse_bets_of_bytes(init, (k - 1) as nat, rest2, head);
        assert(init.subrange(0, k - 1) =~= init);
        lemma_bets_bytes_len(init);
        let pre = seq![head] + bets_bytes(init);
        assert(b =~= pre + bet_bytes(bets.last()) + rest);
        lemma_bet_roundtrip(bets.last(), pre, rest);
        lemma_bets_bytes_len(bets);
        assert(bets.subrange(0, k as int) =~= init.push(bets.last()));
    } else {
        let init = bets.drop_last();
        let rest2 = bet_bytes(bets.last()) + rest;
        assert(b =~= seq![head] + bets_bytes(init) + rest2);
        lemma_parse_bets_of_bytes(init, k, rest2, head);
        assert(init.subrange(0, k as int) =~= bets.subrange(0, k as int));
    }
}

/// Decoding the blob of a state gives the state back, for any state with at
/// most 20 bets.
#[verifier::spinoff_prover]
#[verifier::rlimit(40)]
pub proof fn lemma_state_roundtrip(v: RouletteView)
    requires
        v.0.len() <= MAX_BETS,
    ensures
        parse_state(state_bytes(v)) == Some(v),
{
    let b = state_bytes(v);
    let n = v.0.len();
    let tail: Seq<u8> = match v.1 {
        Some(r) => seq![r],
        None => Seq::empty(),
    };
    assert(b =~= seq![len_byte(n)] + bets_bytes(v.0) + tail);
    lemma_parse_bets_of_bytes(v.0, n, tail, len_byte(n));
    assert(v.0.subrange(0, n as int) =~= v.0);
    lemma_bets_bytes_len(v.0);
    assert(b[0] == n);
}

impl RouletteState {
    /// No bets, not spun.
    pub fn new() -> (s: Self)
        ensures
            s@ == (Seq::<RouletteBet>::empty(), None::<u8>),
    {
        RouletteState { bets: Vec::new(), result: None }
    }

    /// Serialize the state to its blob.
    pub fn to_blob(&self) -> (blob: Vec<u8>)
        ensures
            blob@ == state_bytes(self@),
    {
        let mut blob: Vec<u8> = Vec::new();
        blob.push((self.bets.len() % 256) as u8);
        let mut i: usize = 0;
        while i < self.bets.len()
            invariant
                i <= self.bets@.len(),
                blob@ == seq![len_byte(self.bets@.len())] + bets_bytes(self.bets@.subrange(0, i as int)),
            decreases self.bets@.len() - i,
        {
            let bytes = self.bets[i].to_bytes();
            push_all(&mut blob, bytes.as_slice());
            proof {
                let s = self.bets@.subrange(0, i as int + 1);
                assert(s.drop_last() =~= self.bets@.subrange(0, i as int));
                assert(blob@ =~= seq![len_byte(self.bets@.len())] + bets_bytes(s));
            }
            i += 1;
        }
        assert(self.bets@.subrange(0, self.bets@.len() as int) =~= self.bets@);
        if let Some(result) = self.result {
            blob.push(result);
        }
        assert(blob@ =~= state_bytes(self@));
        blob
    }

    /// Deserialize a state from its blob; `None` when the blob is malformed.
    pub fn from_blob(blob: &[u8]) -> (r: Option<Self>)
        ensures
            match r {
                Some(s) => parse_state(blob@) == Some(s@),
                None => parse_state(blob@) is None,
            },
    {
        if blob.len() == 0 {
            return Some(RouletteState::new());
        }
        let bet_count = blob[0] as usize;
        if bet_count > MAX_BETS {
            return None;
        }
        let required_len = 1 + bet_count * 10;
        if blob.len() < required_len {
            return None;
        }
        let mut offset: usize = 1;
        let mut bets: Vec<RouletteBet> = Vec::new();
        let mut i: usize = 0;
        while i < bet_count
            invariant
                blob@.len() > 0,
                bet_count == blob@[0],
                bet_count <= MAX_BETS,
                i <= bet_count,
                offset == 1 + 10 * i,
                parse_bets(blob@, i as nat) == Some(bets@),
            decreases bet_count - i,
        {
            if offset + 10 > blob.len() {
                proof {
                    lemma_parse_bets_none(blob@, (i + 1) as nat, bet_count as nat);
                }
                return None;
            }
            match read_bet(blob, offset) {
                Some(bet) => {
                    bets.push(bet);
                },
                None => {
                    proof {
                        lemma_parse_bets_none(blob@, (i + 1) as nat, bet_count as nat);
                    }
                    return None;
                },
            }
            offset += 10;
            i += 1;
        }
        let result = if offset < blob.len() {
            Some(blob[offset])
        } else {
            None
        };
        Some(RouletteState { bets, result })
    }
}

/// Total returned by a spin: for each winning bet, its stake times the
/// multiplier plus one, all sums and products saturating.
pub open spec fn spin_winnings(bets: Seq<RouletteBet>, result: u8) -> int
    decreases bets.len(),
{
    if bets.len() == 0 {
        0
    } else {
        let prev = spin_winnings(bets.drop_last(), result);
        let b = bets.last();
        if wins(b.bet_type, b.number, result) {
            sat_add(prev, sat_mul(b.amount as int, multiplier_of(b.bet_type) + 1))
        } else {
            prev
        }
    }
}

/// Result of a spin: a win of the winnings (multiplied by the super
/// multiplier of the number when super mode is active), or a loss.
pub open spec fn spin_result(
    bets: Seq<RouletteBet>,
    result: u8,
    super_active: bool,
    mults: Seq<SuperMultiplier>,
) -> GameResult {
    let w = spin_winnings(bets, result);
    if w > 0 {
        if super_active {
            GameResult::Win(sat_mul(w, keyed_multiplier(mults, SuperType::Number, result)) as u64)
        } else {
            GameResult::Win(w as u64)
        }
    } else {
        GameResult::Loss
    }
}

/// Whether the number of a bet is valid for its type.
pub open spec fn number_valid(t: BetType, number: u8) -> bool {
    match t {
        BetType::Straight => number <= 36,
        BetType::Dozen | BetType::Column => number <= 2,
        _ => true,
    }
}

/// The error a command is refused with on a parsed state, if any.
pub open spec fn command_error(st: RouletteView, payload: Seq<u8>) -> Option<GameError> {
    if payload[0] == 0 {
        if payload.len() < 11 {
            Some(GameError::InvalidPayload)
        } else if st.1 is Some {
            Some(GameError::InvalidMove)
        } else {
            match bet_type_of(payload[1]) {
                None => Some(GameError::InvalidPayload),
                Some(t) => if be_u64(payload.subrange(3, 11)) == 0 {
                    Some(GameError::InvalidPayload)
                } else if !number_valid(t, payload[2]) {
                    Some(GameError::InvalidPayload)
                } else if st.0.len() >= MAX_BETS {
                    Some(GameError::InvalidMove)
                } else {
                    None
                },
            }
        }
    } else if payload[0] == 1 {
        if st.0.len() == 0 || st.1 is Some {
            Some(GameError::InvalidMove)
        } else {
            None
        }
    } else if payload[0] == 2 {
        if st.1 is Some {
            Some(GameError::InvalidMove)
        } else {
            None
        }
    } else {
        Some(GameError::InvalidPayload)
    }
}

/// The error a move is refused with, if any, checked in order.
pub open spec fn move_error(is_complete: bool, blob: Seq<u8>, payload: Seq<u8>) -> Option<
    GameError,
> {
    if is_complete {
        Some(GameError::GameAlreadyComplete)
    } else if payload.len() == 0 {
        Some(GameError::InvalidPayload)
    } else {
        match parse_state(blob) {
            None => Some(GameError::InvalidPayload),
            Some(st) => command_error(st, payload),
        }
    }
}

/// What an accepted move does to the session, the stream and the result.
pub open spec fn move_applied(
    old_s: GameSession,
    new_s: GameSession,
    payload: Seq<u8>,
    p0: RngPoint,
    p1: RngPoint,
    r: Result<GameResult, GameError>,
) -> bool {
    let st = parse_state(old_s.state_blob@).unwrap();
    &&& session_fields_kept(old_s, new_s)
    &&& if payload[0] == 0 {
        let bet = RouletteBet {
            bet_type: bet_type_of(payload[1]).unwrap(),
            number: payload[2],
            amount: be_u64(payload.subrange(3, 11)),
        };
        &&& new_s.state_blob@ == state_bytes((st.0.push(bet), st.1))
        &&& new_s.is_complete == old_s.is_complete
        &&& new_s.move_count == old_s.move_count
        &&& p1 == p0
        &&& r == Ok::<GameResult, GameError>(GameResult::Continue)
    } else if payload[0] == 2 {
        &&& new_s.state_blob@ == state_bytes((Seq::empty(), st.1))
        &&& new_s.is_complete == old_s.is_complete
        &&& new_s.move_count == old_s.move_count
        &&& p1 == p0
        &&& r == Ok::<GameResult, GameError>(GameResult::Continue)
    } else {
        let d = bounded_draw(p0, 37);
        &&& new_s.state_blob@ == state_bytes((st.0, Some(d.0)))
        &&& new_s.is_complete
        &&& new_s.move_count == old_s.move_count + 1
        &&& p1 == d.1
        &&& r == Ok::<GameResult, GameError>(
            spin_result(st.0, d.0, old_s.super_mode.is_active, old_s.super_mode.multipliers@),
        )
    }
}

/// Roulette.
pub struct Roulette;

impl Roulette {
    /// Places the bet of a `[0, bet_type, number, amount]` payload.
    fn place(state: &mut RouletteState, payload: &[u8]) -> (r: Result<(), GameError>)
        requires
            payload@.len() > 0,
            payload@[0] == 0,
        ensures
            match command_error(old(state)@, payload@) {
                Some(e) => r == Err::<(), GameError>(e),
                None => r is Ok && final(state)@ == (
                    old(state)@.0.push(
                        RouletteBet {
                            bet_type: bet_type_of(payload@[1]).unwrap(),
                            number: payload@[2],
                            amount: be_u64(payload@.subrange(3, 11)),
                        },
                    ),
                    old(state)@.1,
                ),
            },
    {
        if payload.len() < 11 {
            return Err(GameError::InvalidPayload);
        }
        if state.result.is_some() {
            return Err(GameError::InvalidMove);
        }
        let bet_type = match BetType::try_from(payload[1]) {
            Ok(t) => t,
            Err(e) => return Err(e),
        };
        let number = payload[2];
        let amount = read_u64_be(payload, 3);
        if amount == 0 {
            return Err(GameError::InvalidPayload);
        }
        match bet_type {
            BetType::Straight => {
                if number > 36 {
                    return Err(GameError::InvalidPayload);
                }
            },
            BetType::Dozen | BetType::Column => {
                if number > 2 {
                    return Err(GameError::InvalidPayload);
                }
            },
            _ => {},
        }
        if state.bets.len() >= MAX_BETS {
            return Err(GameError::InvalidMove);
        }
        state.bets.push(RouletteBet { bet_type, number, amount });
        Ok(())
    }

    /// Total returned for the bets on `result`.
    fn winnings(bets: &[RouletteBet], result: u8) -> (w: u64)
        ensures
            w == spin_winnings(bets@, result),
    {
        let mut total_wagered: u64 = 0;
        let mut total_winnings: u64 = 0;
        let mut i: usize = 0;
        while i < bets.len()
            invariant
                i <= bets@.len(),
                total_winnings == spin_winnings(bets@.subrange(0, i as int), result),
            decreases bets@.len() - i,
        {
            let bet = bets[i];
            total_wagered = total_wagered.saturating_add(bet.amount);
            if bet_wins(bet.bet_type, bet.number, result) {
                let multiplier = payout_multiplier(bet.bet_type).saturating_add(1);
                total_winnings = total_winnings.saturating_add(
                    saturating_mul_u64(bet.amount, multiplier),
                );
            }
            proof {
                let s = bets@.subrange(0, i as int + 1);
                assert(s.drop_last() =~= bets@.subrange(0, i as int));
            }
            i += 1;
        }
        assert(bets@.subrange(0, bets@.len() as int) =~= bets@);
        total_winnings
    }
}

impl CasinoGame for Roulette {
    open spec fn init_requires(s0: GameSession) -> bool {
        init_requires(s0)
    }

    open spec fn init_ensures(s0: GameSession, p0: RngPoint, r: GameResult, s1: GameSession, p1: RngPoint) -> bool {
        init_ensures(s0, p0, r, s1, p1)
    }

    open spec fn move_requires(s0: GameSession, payload: Seq<u8>, p0: RngPoint) -> bool {
        move_requires(s0, payload, p0)
    }

    open spec fn move_ensures(
        s0: GameSession,
        payload: Seq<u8>,
        p0: RngPoint,
        r: Result<GameResult, GameError>,
        s1: GameSession,
        p1: RngPoint,
    ) -> bool {
        move_ensures(s0, payload, p0, r, s1, p1)
    }

    /// Starts a session with no bets.
    fn init(session: &mut GameSession, rng: &mut GameRng) -> (r: GameResult) {
        let state = RouletteState::new();
        session.state_blob = state.to_blob();
        GameResult::Continue
    }

    /// Processes one move: place a bet, spin and settle, or clear the bets.
    fn process_move(session: &mut GameSession, payload: &[u8], rng: &mut GameRng) -> (r: Result<
        GameResult,
        GameError,
    >) {
        if session.is_complete {
            return Err(GameError::GameAlreadyComplete);
        }
        if payload.len() == 0 {
            return Err(GameError::InvalidPayload);
        }
        let mut state = match RouletteState::from_blob(session.state_blob.as_slice()) {
            Some(s) => s,
            None => return Err(GameError::InvalidPayload),
        };
        if payload[0] == 0 {
            match Self::place(&mut state, payload) {
                Ok(()) => {},
                Err(e) => return Err(e),
            }
            session.state_blob = state.to_blob();
            Ok(GameResult::Continue)
        } else if payload[0] == 1 {
            if state.bets.len() == 0 {
                return Err(GameError::InvalidMove);
            }
            if state.result.is_some() {
                return Err(GameError::InvalidMove);
            }
            let result = rng.spin_roulette();
            state.result = Some(result);
            let total_winnings = Self::winnings(state.bets.as_slice(), result);
            session.state_blob = state.to_blob();
            session.move_count += 1;
            session.is_complete = true;
            if total_winnings > 0 {
                let final_winnings = if session.super_mode.is_active {
                    apply_super_multiplier_number(
                        result,
                        session.super_mode.multipliers.as_slice(),
                        total_winnings,
                    )
                } else {
                    total_winnings
                };
                Ok(GameResult::Win(final_winnings))
            } else {
                Ok(GameResult::Loss)
            }
        } else if payload[0] == 2 {
            if state.result.is_some() {
                return Err(GameError::InvalidMove);
            }
            state.bets.clear();
            assert(state.bets@ =~= Seq::<RouletteBet>::empty());
            session.state_blob = state.to_blob();
            Ok(GameResult::Continue)
        } else {
            Err(GameError::InvalidPayload)
        }
    }
}

/// What `process_move` requires of a session, a payload and a stream point.
pub open spec fn move_requires(s0: GameSession, payload: Seq<u8>, p0: RngPoint) -> bool {
    &&& move_error(s0.is_complete, s0.state_blob@, payload) is None
                && payload[0] == 1 ==> s0.move_count < u32::MAX
}

/// What `process_move` ensures of a session, a payload and a stream point
/// before (`s0`, `p0`) and after (`s1`, `p1`) the move, with result `r`.
pub open spec fn move_ensures(
    s0: GameSession,
    payload: Seq<u8>,
    p0: RngPoint,
    r: Result<GameResult, GameError>,
    s1: GameSession,
    p1: RngPoint,
) -> bool {
    &&& match move_error(s0.is_complete, s0.state_blob@, payload) {
                Some(e) => r == Err::<GameResult, GameError>(e) && s1 == s0
                    && p1 == p0,
                None => move_applied(s0, s1, payload, p0, p1, r),
            }
}

/// What `init` requires of a session.
pub open spec fn init_requires(s0: GameSession) -> bool {
    true
}

/// What `init` ensures of a session and a stream point before (`s0`, `p0`)
/// and after (`s1`, `p1`), with result `r`.
pub open spec fn init_ensures(s0: GameSession, p0: RngPoint, r: GameResult, s1: GameSession, p1: RngPoint) -> bool {
    &&& r == GameResult::Continue
    &&& s1.state_blob@ == state_bytes((Seq::<RouletteBet>::empty(), None::<u8>))
    &&& session_fields_kept(s0, s1)
    &&& s1.is_complete == s0.is_complete
    &&& s1.move_count == s0.move_count
    &&& p1 == p0
}

} // verus!
