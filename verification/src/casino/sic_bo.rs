//! Sic Bo with several bets per roll.
//!
//! State blob: `[bet_count:u8] [bets: 10 bytes each] [die1 die2 die3]?`,
//! each bet being `[bet_type:u8] [number:u8] [amount:u64 BE]`.
//!
//! Payload: `[0, bet_type, number, amount:u64 BE]` places a bet (its stake is
//! deducted at once), `[1]` rolls and settles, `[2]` clears the bets.
//!
//! Bet types: 0 Small (4-10), 1 Big (11-17), 2 Odd, 3 Even (all 1:1, lose on a
//! triple), 4 Specific triple (150:1), 5 Any triple (24:1), 6 Specific double
//! (8:1), 7 Total (table), 8 Single (1:1 to 3:1), 9 Domino `(min<<4)|max` (5:1),
//! 10 Three-number easy hop, a 3-bit mask (30:1), 11 Three-number hard hop
//! `(double<<4)|single` (50:1), 12 Four-number easy hop, a 4-bit mask (7:1).

use super::common::{
    be_u64, len_byte, lemma_u64_be_roundtrip, push_all, push_u64_be, read_u64_be, sat_mul,
    saturating_mul_u64, u64_as_i64, u64_be_bytes, wrap_i64,
};
use super::rng::{dice_rolls, GameRng, RngPoint};
use super::session::{session_fields_kept, GameSession, SuperMultiplier, SuperType};
use super::super_mode::{apply_super_multiplier_total, keyed_multiplier};
use super::{CasinoGame, GameError, GameResult};
use vstd::prelude::*;

verus! {

/// Most bets a stored state may hold.
pub const MAX_BETS: usize = 20;

/// Sic Bo bet types.
#[derive(Clone, Copy, Debug, PartialEq, Eq, Structural)]
pub enum BetType {
    /// Total 4-10, loses on a triple (1:1)
    Small,
    /// Total 11-17, loses on a triple (1:1)
    Big,
    /// Odd total (1:1)
    Odd,
    /// Even total (1:1)
    Even,
    /// All three dice show the number (150:1)
    SpecificTriple,
    /// Any triple (24:1)
    AnyTriple,
    /// At least two dice show the number (8:1)
    SpecificDouble,
    /// A specific total (table)
    Total,
    /// The number appears (1:1 to 3:1)
    Single,
    /// Two faces both appear (5:1)
    Domino,
    /// Three distinct numbers from a chosen three (30:1)
    ThreeNumberEasyHop,
    /// Two of one number and one of another (50:1)
    ThreeNumberHardHop,
    /// Three distinct numbers from a chosen four (7:1)
    FourNumberEasyHop,
}

/// Wire code of a bet type.
pub open spec fn bet_type_code(t: BetType) -> u8 {
    match t {
        BetType::Small => 0,
        BetType::Big => 1,
        BetType::Odd => 2,
        BetType::Even => 3,
        BetType::SpecificTriple => 4,
        BetType::AnyTriple => 5,
        BetType::SpecificDouble => 6,
        BetType::Total => 7,
        BetType::Single => 8,
        BetType::Domino => 9,
        BetType::ThreeNumberEasyHop => 10,
        BetType::ThreeNumberHardHop => 11,
        BetType::FourNumberEasyHop => 12,
    }
}

/// Bet type of a wire code, if it names one.
pub open spec fn bet_type_of(code: u8) -> Option<BetType> {
    if code == 0 {
        Some(BetType::Small)
    } else if code == 1 {
        Some(BetType::Big)
    } else if code == 2 {
        Some(BetType::Odd)
    } else if code == 3 {
        Some(BetType::Even)
    } else if code == 4 {
        Some(BetType::SpecificTriple)
    } else if code == 5 {
        Some(BetType::AnyTriple)
    } else if code == 6 {
        Some(BetType::SpecificDouble)
    } else if code == 7 {
        Some(BetType::Total)
    } else if code == 8 {
        Some(BetType::Single)
    } else if code == 9 {
        Some(BetType::Domino)
    } else if code == 10 {
        Some(BetType::ThreeNumberEasyHop)
    } else if code == 11 {
        Some(BetType::ThreeNumberHardHop)
    } else if code == 12 {
        Some(BetType::FourNumberEasyHop)
    } else {
        None
    }
}

impl BetType {
    /// The bet type with wire code `value`, or `InvalidPayload`.
    pub fn try_from(value: u8) -> (r: Result<BetType, GameError>)
        ensures
            r == match bet_type_of(value) {
                Some(t) => Ok(t),
                None => Err(GameError::InvalidPayload),
            },
    {
        match value {
            0 => Ok(BetType::Small),
            1 => Ok(BetType::Big),
            2 => Ok(BetType::Odd),
            3 => Ok(BetType::Even),
            4 => Ok(BetType::SpecificTriple),
            5 => Ok(BetType::AnyTriple),
            6 => Ok(BetType::SpecificDouble),
            7 => Ok(BetType::Total),
            8 => Ok(BetType::Single),
            9 => Ok(BetType::Domino),
            10 => Ok(BetType::ThreeNumberEasyHop),
            11 => Ok(BetType::ThreeNumberHardHop),
            12 => Ok(BetType::FourNumberEasyHop),
            _ => Err(GameError::InvalidPayload),
        }
    }

    /// Wire code of this bet type.
    pub fn to_u8(self) -> (c: u8)
        ensures
            c == bet_type_code(self),
            bet_type_of(c) == Some(self),
    {
        match self {
            BetType::Small => 0,
            BetType::Big => 1,
            BetType::Odd => 2,
            BetType::Even => 3,
            BetType::SpecificTriple => 4,
            BetType::AnyTriple => 5,
            BetType::SpecificDouble => 6,
            BetType::Total => 7,
            BetType::Single => 8,
            BetType::Domino => 9,
            BetType::ThreeNumberEasyHop => 10,
            BetType::ThreeNumberHardHop => 11,
            BetType::FourNumberEasyHop => 12,
        }
    }
}

/// One Sic Bo bet.
#[derive(Clone, Copy, Debug, PartialEq, Eq, Structural)]
pub struct SicBoBet {
    pub bet_type: BetType,
    pub number: u8,
    pub amount: u64,
}

/// The 10-byte encoding of a bet.
pub open spec fn bet_bytes(b: SicBoBet) -> Seq<u8> {
    seq![bet_type_code(b.bet_type), b.number] + u64_be_bytes(b.amount)
}

/// The bet encoded at `off`, if its type byte is valid (10 bytes must be there).
pub open spec fn bet_at(b: Seq<u8>, off: int) -> Option<SicBoBet> {
    match bet_type_of(b[off]) {
        Some(t) => Some(
            SicBoBet { bet_type: t, number: b[off + 1], amount: be_u64(b.subrange(off + 2, off + 10)) },
        ),
        None => None,
    }
}

/// Reads the bet encoded at `offset`.
fn read_bet(bytes: &[u8], offset: usize) -> (r: Option<SicBoBet>)
    requires
        offset + 10 <= bytes@.len(),
    ensures
        r == bet_at(bytes@, offset as int),
{
    match BetType::try_from(bytes[offset]) {
        Ok(bet_type) => {
            let number = bytes[offset + 1];
            let amount = read_u64_be(bytes, offset + 2);
            Some(SicBoBet { bet_type, number, amount })
        },
        Err(_) => None,
    }
}

impl SicBoBet {
    /// The 10-byte encoding `[bet_type:u8] [number:u8] [amount:u64 BE]`.
    pub fn to_bytes(&self) -> (bytes: Vec<u8>)
        ensures
            bytes@ == bet_bytes(*self),
    {
        let mut bytes: Vec<u8> = Vec::new();
        bytes.push(self.bet_type.to_u8());
        bytes.push(self.number);
        push_u64_be(&mut bytes, self.amount);
        assert(bytes@ =~= bet_bytes(*self));
        bytes
    }

    /// Decodes the first 10 bytes; `None` when there are fewer or the type is invalid.
    pub fn from_bytes(bytes: &[u8]) -> (r: Option<Self>)
        ensures
            r == if bytes@.len() < 10 {
                None
            } else {
                bet_at(bytes@, 0)
            },
    {
        if bytes.len() < 10 {
            return None;
        }
        read_bet(bytes, 0)
    }
}

/// Decoding an encoded bet gives it back.
pub proof fn lemma_bet_roundtrip(b: SicBoBet, pre: Seq<u8>, post: Seq<u8>)
    ensures
        bet_at(pre + bet_bytes(b) + post, pre.len() as int) == Some(b),
{
    let s = pre + bet_bytes(b) + post;
    lemma_u64_be_roundtrip(b.amount);
    assert(s.subrange(pre.len() as int + 2, pre.len() as int + 10) =~= u64_be_bytes(b.amount));
    assert(s[pre.len() as int] == bet_type_code(b.bet_type));
    assert(s[pre.len() as int + 1] == b.number);
}

/// Three dice.
pub type Dice = (u8, u8, u8);

/// Abstract state: the bets and the dice, once rolled.
pub type SicBoView = (Seq<SicBoBet>, Option<Dice>);

/// Sic Bo game state.
pub struct SicBoState {
    pub bets: Vec<SicBoBet>,
    pub dice: Option<[u8; 3]>,
}

impl View for SicBoState {
    type V = SicBoView;

    open spec fn view(&self) -> SicBoView {
        (
            self.bets@,
            match self.dice {
                Some(d) => Some((d[0], d[1], d[2])),
                None => None,
            },
        )
    }
}

/// Concatenated encodings of a list of bets.
pub open spec fn bets_bytes(bets: Seq<SicBoBet>) -> Seq<u8>
    decreases bets.len(),
{
    if bets.len() == 0 {
        Seq::empty()
    } else {
        bets_bytes(bets.drop_last()) + bet_bytes(bets.last())
    }
}

/// The state blob of a state.
pub open spec fn state_bytes(v: SicBoView) -> Seq<u8> {
    seq![len_byte(v.0.len())] + bets_bytes(v.0) + match v.1 {
        Some(d) => seq![d.0, d.1, d.2],
        None => Seq::empty(),
    }
}

/// The first `count` bets of a blob (after the count byte), or `None` when one
/// has an invalid type (the length is checked beforehand).
pub open spec fn parse_bets(b: Seq<u8>, count: nat) -> Option<Seq<SicBoBet>>
    decreases count,
{
    if count == 0 {
        Some(Seq::empty())
    } else {
        match parse_bets(b, (count - 1) as nat) {
            Some(prev) => match bet_at(b, 1 + 10 * (count - 1)) {
                Some(bet) => Some(prev.push(bet)),
                None => None,
            },
            None => None,
        }
    }
}

/// The state a blob encodes: at most 20 bets, then the dice if three more
/// bytes follow (any further bytes are ignored). An empty blob is the empty state.
pub open spec fn parse_state(b: Seq<u8>) -> Option<SicBoView> {
    if b.len() == 0 {
        Some((Seq::empty(), None))
    } else if b[0] > MAX_BETS || b.len() < 1 + 10 * b[0] {
        None
    } else {
        match parse_bets(b, b[0] as nat) {
            None => None,
            Some(bets) => {
                let off = 1 + 10 * b[0];
                if b.len() >= off + 3 {
                    Some((bets, Some((b[off], b[off + 1], b[off + 2]))))
                } else {
                    Some((bets, None))
                }
            },
        }
    }
}

/// Once a bet fails to parse, every longer list fails too.
proof fn lemma_parse_bets_none(b: Seq<u8>, k: nat, n: nat)
    requires
        parse_bets(b, k) is None,
        k <= n,
    ensures
        parse_bets(b, n) is None,
    decreases n - k,
{
    if k < n {
        lemma_parse_bets_none(b, k, (n - 1) as nat);
    }
}

/// The encoding of a list of bets is 10 bytes per bet.
proof fn lemma_bets_bytes_len(bets: Seq<SicBoBet>)
    ensures
        bets_bytes(bets).len() == 10 * bets.len(),
    decreases bets.len(),
{
    if bets.len() > 0 {
        lemma_bets_bytes_len(bets.drop_last());
    }
}

/// The bets of an encoded list read back one by one.
#[verifier::spinoff_prover]
#[verifier::rlimit(40)]
proof fn lemma_parse_bets_of_bytes(bets: Seq<SicBoBet>, k: nat, rest: Seq<u8>, head: u8)
    requires
        k <= bets.len(),
    ensures
        parse_bets(seq![head] + bets_bytes(bets) + rest, k) == Some(bets.subrange(0, k as int)),
    decreases bets.len(),
{
    let b = seq![head] + bets_bytes(bets) + rest;
    if bets.len() == 0 {
        assert(bets.subrange(0, 0) =~= Seq::<SicBoBet>::empty());
    } else if k == bets.len() {
        let init = bets.drop_last();
        let rest2 = bet_bytes(bets.last()) + rest;
        assert(b =~= seq![head] + bets_bytes(init) + rest2);
        lemma_parse_bets_of_bytes(init, (k - 1) as nat, rest2, head);
        assert(init.subrange(0, k - 1) =~= init);
        lemma_bets_bytes_len(init);
        let pre = seq![head] + bets_bytes(init);
        assert(b =~= pre + bet_bytes(bets.last()) + rest);
        lemma_bet_roundtrip(bets.last(), pre, rest);
        assert(bets.subrange(0, k as int) =~= init.push(bets.last()));
    } else {
        let init = bets.drop_last();
        let rest2 = bet_bytes(bets.last()) + rest;
        assert(b =~= seq![head] + bets_bytes(init) + rest2);
        lemma_parse_bets_of_bytes(init, k, rest2, head);
        assert(init.subrange(0, k as int) =~= bets.subrange(0, k as int));
    }
}

/// Decoding the blob of a state gives the state back, for any state with at
/// most 20 bets.
#[verifier::spinoff_prover]
#[verifier::rlimit(40)]
pub proof fn lemma_state_roundtrip(v: SicBoView)
    requires
        v.0.len() <= MAX_BETS,
    ensures
        parse_state(state_bytes(v)) == Some(v),
{
    let b = state_bytes(v);
    let n = v.0.len();
    let tail: Seq<u8> = match v.1 {
        Some(d) => seq![d.0, d.1, d.2],
        None => Seq::empty(),
    };
    assert(b =~= seq![len_byte(n)] + bets_bytes(v.0) + tail);
    lemma_parse_bets_of_bytes(v.0, n, tail, len_byte(n));
    assert(v.0.subrange(0, n as int) =~= v.0);
    lemma_bets_bytes_len(v.0);
    assert(b[0] == n);
}

impl SicBoState {
    /// No bets, not rolled.
    pub fn new() -> (s: Self)
        ensures
            s@ == (Seq::<SicBoBet>::empty(), None::<Dice>),
    {
        SicBoState { bets: Vec::new(), dice: None }
    }

    /// Deserialize a state from its blob; `None` when the blob is malformed.
    pub fn from_bytes(bytes: &[u8]) -> (r: Option<Self>)
        ensures
            match r {
                Some(s) => parse_state(bytes@) == Some(s@),
                None => parse_state(bytes@) is None,
            },
    {
        if bytes.len() == 0 {
            return Some(SicBoState::new());
        }
        let bet_count = bytes[0] as usize;
        if bet_count > MAX_BETS {
            return None;
        }
        if bytes.len() < 1 + bet_count * 10 {
            return None;
        }
        let mut bets: Vec<SicBoBet> = Vec::new();
        let mut offset: usize = 1;
        let mut i: usize = 0;
        while i < bet_count
            invariant
                bytes@.len() > 0,
                bet_count == bytes@[0],
                bet_count <= MAX_BETS,
                bytes@.len() >= 1 + 10 * bet_count,
                i <= bet_count,
                offset == 1 + 10 * i,
                parse_bets(bytes@, i as nat) == Some(bets@),
            decreases bet_count - i,
        {
            match read_bet(bytes, offset) {
                Some(bet) => {
                    bets.push(bet);
                },
                None => {
                    proof {
                        lemma_parse_bets_none(bytes@, (i + 1) as nat, bet_count as nat);
                    }
                    return None;
                },
            }
            offset += 10;
            i += 1;
        }
        let dice = if bytes.len() >= offset + 3 {
            Some([bytes[offset], bytes[offset + 1], bytes[offset + 2]])
        } else {
            None
        };
        Some(SicBoState { bets, dice })
    }

    /// Serialize the state to its blob.
    pub fn to_bytes(&self) -> (bytes: Vec<u8>)
        ensures
            bytes@ == state_bytes(self@),
    {
        let mut bytes: Vec<u8> = Vec::new();
        bytes.push((self.bets.len() % 256) as u8);
        let mut i: usize = 0;
        while i < self.bets.len()
            invariant
                i <= self.bets@.len(),
                bytes@ == seq![len_byte(self.bets@.len())] + bets_bytes(self.bets@.subrange(0, i as int)),
            decreases self.bets@.len() - i,
        {
            let b = self.bets[i].to_bytes();
            push_all(&mut bytes, b.as_slice());
            proof {
                let s = self.bets@.subrange(0, i as int + 1);
                assert(s.drop_last() =~= self.bets@.subrange(0, i as int));
                assert(bytes@ =~= seq![len_byte(self.bets@.len())] + bets_bytes(s));
            }
            i += 1;
        }
        assert(self.bets@.subrange(0, self.bets@.len() as int) =~= self.bets@);
        if let Some(dice) = self.dice {
            bytes.push(dice[0]);
            bytes.push(dice[1]);
            bytes.push(dice[2]);
        }
        assert(bytes@ =~= state_bytes(self@));
        bytes
    }
}

/// Odds paid on a total bet (the stake excluded).
pub open spec fn total_odds(total: u8) -> u64 {
    if total == 3 || total == 18 {
        180
    } else if total == 4 || total == 17 {
        50
    } else if total == 5 || total == 16 {
        18
    } else if total == 6 || total == 15 {
        14
    } else if total == 7 || total == 14 {
        12
    } else if total == 8 || total == 13 {
        8
    } else if 9 <= total <= 12 {
        6
    } else {
        0
    }
}

/// Payout table for total bets.
pub fn total_payout(total: u8) -> (p: u64)
    ensures
        p == total_odds(total),
{
    match total {
        3 | 18 => 180,
        4 | 17 => 50,
        5 | 16 => 18,
        6 | 15 => 14,
        7 | 14 => 12,
        8 | 13 => 8,
        9 | 12 => 6,
        10 | 11 => 6,
        _ => 0,
    }
}

/// All three dice show the same face.
pub open spec fn triple(d: Dice) -> bool {
    d.0 == d.1 && d.1 == d.2
}

/// How many of the dice show `n`.
pub open spec fn count_of(d: Dice, n: u8) -> int {
    (if d.0 == n {
        1int
    } else {
        0
    }) + (if d.1 == n {
        1int
    } else {
        0
    }) + (if d.2 == n {
        1int
    } else {
        0
    })
}

/// The dice show three different faces.
pub open spec fn all_distinct(d: Dice) -> bool {
    d.0 != d.1 && d.0 != d.2 && d.1 != d.2
}

/// Bit of a face in a 6-bit mask (faces outside 1-6 set no bit).
pub open spec fn face_bit(f: u8) -> u8 {
    if 1 <= f <= 6 {
        (1u8 << ((f - 1) as u8)) as u8
    } else {
        0
    }
}

/// The mask of the faces shown.
pub open spec fn faces_mask(d: Dice) -> u8 {
    face_bit(d.0) | face_bit(d.1) | face_bit(d.2)
}

/// Number of set bits among the low `k` bits of `x`.
pub open spec fn bits_set(x: u8, k: nat) -> int
    decreases k,
{
    if k == 0 {
        0
    } else {
        bits_set(x, (k - 1) as nat) + ((x >> ((k - 1) as u8)) & 1u8) as int
    }
}

/// Whether the three dice all show faces of the masked numbers, all different.
pub open spec fn hop_hit(d: Dice, mask: u8) -> bool {
    all_distinct(d) && (faces_mask(d) & mask) == faces_mask(d)
}

/// Whether an easy-hop mask is well formed: only the six low bits, `k` of them set.
pub open spec fn hop_mask_ok(mask: u8, k: int) -> bool {
    mask & 0xC0u8 == 0 && bits_set(mask, 8) == k
}

/// Amount returned by one bet on a roll (stake included), 0 when it loses.
pub open spec fn bet_return(bet: SicBoBet, d: Dice) -> int {
    let total = d.0 + d.1 + d.2;
    let a = bet.amount as int;
    let n = bet.number;
    match bet.bet_type {
        BetType::Small => if !triple(d) && 4 <= total <= 10 {
            sat_mul(a, 2)
        } else {
            0
        },
        BetType::Big => if !triple(d) && 11 <= total <= 17 {
            sat_mul(a, 2)
        } else {
            0
        },
        BetType::Odd => if total % 2 == 1 && !triple(d) {
            sat_mul(a, 2)
        } else {
            0
        },
        BetType::Even => if total % 2 == 0 && !triple(d) {
            sat_mul(a, 2)
        } else {
            0
        },
        BetType::SpecificTriple => if triple(d) && d.0 == n {
            sat_mul(a, 151)
        } else {
            0
        },
        BetType::AnyTriple => if triple(d) {
            sat_mul(a, 25)
        } else {
            0
        },
        BetType::SpecificDouble => if count_of(d, n) >= 2 {
            sat_mul(a, 9)
        } else {
            0
        },
        BetType::Total => if total == n {
            sat_mul(a, total_odds(n) + 1)
        } else {
            0
        },
        BetType::Single => {
            let c = count_of(d, n);
            if c == 1 {
                sat_mul(a, 2)
            } else if c == 2 {
                sat_mul(a, 3)
            } else if c == 3 {
                sat_mul(a, 4)
            } else {
                0
            }
        },
        BetType::Domino => {
            let lo = (n >> 4u8) & 0x0fu8;
            let hi = n & 0x0fu8;
            if lo < 1 || lo > 6 || hi < 1 || hi > 6 || lo >= hi {
                0
            } else if count_of(d, lo) >= 1 && count_of(d, hi) >= 1 {
                sat_mul(a, 6)
            } else {
                0
            }
        },
        BetType::ThreeNumberEasyHop => if !hop_mask_ok(n, 3) {
            0
        } else if hop_hit(d, n) {
            sat_mul(a, 31)
        } else {
            0
        },
        BetType::ThreeNumberHardHop => {
            let dbl = (n >> 4u8) & 0x0fu8;
            let sgl = n & 0x0fu8;
            if dbl < 1 || dbl > 6 || sgl < 1 || sgl > 6 || dbl == sgl {
                0
            } else if count_of(d, dbl) == 2 && count_of(d, sgl) == 1 {
                sat_mul(a, 51)
            } else {
                0
            }
        },
        BetType::FourNumberEasyHop => if !hop_mask_ok(n, 4) {
            0
        } else if hop_hit(d, n) {
            sat_mul(a, 8)
        } else {
            0
        },
    }
}

/// A double bet on `n` pays 8 to 1 (nine times its amount back) when at
/// least two of the three dice show `n`, and returns nothing when fewer do.
/// A single-number bet on `n` returns its amount plus its amount once for
/// every die showing `n`, and nothing when none does.
pub proof fn lemma_number_bets(amount: u64, n: u8, d: Dice)
    requires
        amount * 9 <= u64::MAX,
    ensures
        bet_return(SicBoBet { bet_type: BetType::SpecificDouble, number: n, amount }, d) == if (d.0 == n
            && d.1 == n) || (d.0 == n && d.2 == n) || (d.1 == n && d.2 == n) {
            amount * 9
        } else {
            0
        },
        bet_return(SicBoBet { bet_type: BetType::Single, number: n, amount }, d) == if d.0 != n && d.1 != n
            && d.2 != n {
            0
        } else {
            amount * (1 + (if d.0 == n {
                1int
            } else {
                0
            }) + (if d.1 == n {
                1int
            } else {
                0
            }) + (if d.2 == n {
                1int
            } else {
                0
            }))
        },
{
    let c = count_of(d, n);
    assert(c == (if d.0 == n {
        1int
    } else {
        0
    }) + (if d.1 == n {
        1int
    } else {
        0
    }) + (if d.2 == n {
        1int
    } else {
        0
    }));
    let a = amount as int;
    assert(a * (1 + 1) == a * 2 && a * (1 + 2) == a * 3 && a * (1 + 3) == a * 4) by (nonlinear_arith);
}

/// A bet of `amount` of type `t` on `number`.
pub open spec fn bet_of(t: BetType, number: u8, amount: u64) -> SicBoBet {
    SicBoBet { bet_type: t, number, amount }
}

/// The dice read from below: a die's bottom face is seven less its top.
pub open spec fn upside_down(d: Dice) -> Dice {
    ((7 - d.0) as u8, (7 - d.1) as u8, (7 - d.2) as u8)
}

/// The even-money bets pay 1 to 1 (twice the stake back) and all lose on a
/// triple: small on totals 4 to 10, big on 11 to 17, odd and even by the
/// parity of the total. Any triple pays 24 to 1, a triple of the chosen
/// number 150 to 1. Reading the dice from below turns small into big, odd
/// into even and a total t into 21 - t, and the bets pay alike across that
/// mirror.
pub proof fn lemma_total_bets_mirror(amount: u64, n: u8, d: Dice)
    requires
        1 <= d.0 <= 6,
        1 <= d.1 <= 6,
        1 <= d.2 <= 6,
        amount * 181 <= u64::MAX,
    ensures
        bet_return(bet_of(BetType::Small, n, amount), d) == if d.0 + d.1 + d.2 <= 10 && !(d.0
            == d.1 && d.1 == d.2) {
            2 * amount
        } else {
            0
        },
        bet_return(bet_of(BetType::Big, n, amount), d) == if d.0 + d.1 + d.2 >= 11 && !(d.0 == d.1
            && d.1 == d.2) {
            2 * amount
        } else {
            0
        },
        bet_return(bet_of(BetType::Odd, n, amount), d) == if (d.0 + d.1 + d.2) % 2 == 1 && !(d.0
            == d.1 && d.1 == d.2) {
            2 * amount
        } else {
            0
        },
        bet_return(bet_of(BetType::Even, n, amount), d) == if (d.0 + d.1 + d.2) % 2 == 0 && !(d.0
            == d.1 && d.1 == d.2) {
            2 * amount
        } else {
            0
        },
        bet_return(bet_of(BetType::AnyTriple, n, amount), d) == if d.0 == d.1 && d.1 == d.2 {
            25 * amount
        } else {
            0
        },
        bet_return(bet_of(BetType::SpecificTriple, n, amount), d) == if d.0 == n && d.1 == n && d.2
            == n {
            151 * amount
        } else {
            0
        },
        bet_return(bet_of(BetType::Big, n, amount), d) == bet_return(
            bet_of(BetType::Small, n, amount),
            upside_down(d),
        ),
        bet_return(bet_of(BetType::Even, n, amount), d) == bet_return(
            bet_of(BetType::Odd, n, amount),
            upside_down(d),
        ),
        3 <= n <= 18 ==> bet_return(bet_of(BetType::Total, n, amount), d) == bet_return(
            bet_of(BetType::Total, (21 - n) as u8, amount),
            upside_down(d),
        ),
{
    let a = amount as int;
    assert(0 <= a * 2 <= a * 181 && a * 25 <= a * 181 && a * 151 <= a * 181) by (nonlinear_arith)
        requires
            a >= 0,
    ;
    if 3 <= n <= 18 {
        assert(total_odds(n) == total_odds((21 - n) as u8));
        assert(total_odds(n) <= 180);
        assert(0 <= a * (total_odds(n) + 1) <= a * 181) by (nonlinear_arith)
            requires
                a >= 0,
                total_odds(n) <= 180,
        ;
    }
}

/// A total bet pays by the table when the dice add up to its number: 180 to
/// 1 on 3 or 18, 50 on 4 or 17, 18 on 5 or 16, 14 on 6 or 15, 12 on 7 or 14,
/// 8 on 8 or 13 and 6 on 9 to 12, with the stake back, and nothing otherwise.
/// A domino on two faces `lo < hi` (written `lo * 16 + hi`) pays 5 to 1 when
/// both faces show; a hard hop on a double face and a single face (written
/// `double * 16 + single`) pays 50 to 1 when exactly two dice show the double
/// face and the third the single one.
pub proof fn lemma_table_and_pair_bets(amount: u64, n: u8, lo: u8, hi: u8, d: Dice)
    requires
        amount * 181 <= u64::MAX,
        1 <= lo <= 6,
        1 <= hi <= 6,
    ensures
        total_odds(3) == 180 && total_odds(18) == 180 && total_odds(4) == 50 && total_odds(17) == 50
            && total_odds(5) == 18 && total_odds(16) == 18 && total_odds(6) == 14 && total_odds(15)
            == 14 && total_odds(7) == 12 && total_odds(14) == 12 && total_odds(8) == 8 && total_odds(
            13,
        ) == 8 && total_odds(9) == 6 && total_odds(10) == 6 && total_odds(11) == 6 && total_odds(12)
            == 6,
        3 <= n <= 18 ==> bet_return(bet_of(BetType::Total, n, amount), d) == if d.0 + d.1 + d.2 == n {
            amount * (total_odds(n) + 1)
        } else {
            0
        },
        lo < hi ==> bet_return(bet_of(BetType::Domino, (lo * 16 + hi) as u8, amount), d) == if (d.0
            == lo || d.1 == lo || d.2 == lo) && (d.0 == hi || d.1 == hi || d.2 == hi) {
            6 * amount
        } else {
            0
        },
        lo != hi ==> bet_return(bet_of(BetType::ThreeNumberHardHop, (lo * 16 + hi) as u8, amount), d)
            == if count_of(d, lo) == 2 && count_of(d, hi) == 1 {
            51 * amount
        } else {
            0
        },
{
    let a = amount as int;
    assert(0 <= a * 6 <= a * 181 && a * 51 <= a * 181) by (nonlinear_arith)
        requires
            a >= 0,
    ;
    if 3 <= n <= 18 {
        assert(total_odds(n) <= 180);
        assert(0 <= a * (total_odds(n) + 1) <= a * 181) by (nonlinear_arith)
            requires
                a >= 0,
                total_odds(n) <= 180,
        ;
    }
    let code: u8 = (lo * 16 + hi) as u8;
    assert((code >> 4u8) & 0x0fu8 == lo && code & 0x0fu8 == hi) by (bit_vector)
        requires
            1 <= lo <= 6,
            1 <= hi <= 6,
            code == lo * 16 + hi,
    ;
}

/// Whether the dice form a triple.
pub fn is_triple(dice: &[u8; 3]) -> (b: bool)
    ensures
        b == triple((dice[0], dice[1], dice[2])),
{
    dice[0] == dice[1] && dice[1] == dice[2]
}

/// How many dice show `number`.
pub fn count_number(dice: &[u8; 3], number: u8) -> (c: u8)
    ensures
        c == count_of((dice[0], dice[1], dice[2]), number),
{
    let mut c: u8 = 0;
    if dice[0] == number {
        c += 1;
    }
    if dice[1] == number {
        c += 1;
    }
    if dice[2] == number {
        c += 1;
    }
    c
}

/// Whether the three dice all differ.
fn dice_all_distinct(dice: &[u8; 3]) -> (b: bool)
    ensures
        b == all_distinct((dice[0], dice[1], dice[2])),
{
    dice[0] != dice[1] && dice[0] != dice[2] && dice[1] != dice[2]
}

/// Bit of one face in a 6-bit mask.
fn face_mask_bit(d: u8) -> (b: u8)
    ensures
        b == face_bit(d),
{
    if 1 <= d && d <= 6 {
        1u8 << (d - 1)
    } else {
        0
    }
}

/// The 6-bit mask of the faces shown.
fn dice_mask(dice: &[u8; 3]) -> (m: u8)
    ensures
        m == faces_mask((dice[0], dice[1], dice[2])),
{
    face_mask_bit(dice[0]) | face_mask_bit(dice[1]) | face_mask_bit(dice[2])
}

/// Number of set bits of a byte.
fn count_ones(x: u8) -> (c: u32)
    ensures
        c == bits_set(x, 8),
{
    let mut c: u32 = 0;
    let mut k: u8 = 0;
    while k < 8
        invariant
            k <= 8,
            c == bits_set(x, k as nat),
            c <= k,
        decreases 8 - k,
    {
        let bit = (x >> k) & 1;
        assert(bit <= 1) by (bit_vector)
            requires
                bit == (x >> k) & 1u8,
        ;
        c += bit as u32;
        k += 1;
    }
    c
}

/// Amount returned by a bet on a roll (stake included); 0 when it loses. The
/// dice are summed as `u8`, so their sum must fit.
pub fn calculate_bet_payout(bet: &SicBoBet, dice: &[u8; 3]) -> (p: u64)
    requires
        dice[0] + dice[1] + dice[2] <= 255,
    ensures
        p == bet_return(*bet, (dice[0], dice[1], dice[2])),
{
    let total: u8 = dice[0] + dice[1] + dice[2];
    let triple = is_triple(dice);
    let n = bet.number;
    match bet.bet_type {
        BetType::Small => {
            if !triple && total >= 4 && total <= 10 {
                saturating_mul_u64(bet.amount, 2)
            } else {
                0
            }
        },
        BetType::Big => {
            if !triple && total >= 11 && total <= 17 {
                saturating_mul_u64(bet.amount, 2)
            } else {
                0
            }
        },
        BetType::Odd => {
            if total % 2 == 1 && !triple {
                saturating_mul_u64(bet.amount, 2)
            } else {
                0
            }
        },
        BetType::Even => {
            if total % 2 == 0 && !triple {
                saturating_mul_u64(bet.amount, 2)
            } else {
                0
            }
        },
        BetType::SpecificTriple => {
            if triple && dice[0] == n {
                saturating_mul_u64(bet.amount, 151)
            } else {
                0
            }
        },
        BetType::AnyTriple => {
            if triple {
                saturating_mul_u64(bet.amount, 25)
            } else {
                0
            }
        },
        BetType::SpecificDouble => {
            if count_number(dice, n) >= 2 {
                saturating_mul_u64(bet.amount, 9)
            } else {
                0
            }
        },
        BetType::Total => {
            if total == n {
                saturating_mul_u64(bet.amount, total_payout(n) + 1)
            } else {
                0
            }
        },
        BetType::Single => {
            let count = count_number(dice, n);
            match count {
                1 => saturating_mul_u64(bet.amount, 2),
                2 => saturating_mul_u64(bet.amount, 3),
                3 => saturating_mul_u64(bet.amount, 4),
                _ => 0,
            }
        },
        BetType::Domino => {
            let min = (n >> 4) & 0x0f;
            let max = n & 0x0f;
            if min < 1 || min > 6 || max < 1 || max > 6 || min >= max {
                return 0;
            }
            if count_number(dice, min) >= 1 && count_number(dice, max) >= 1 {
                saturating_mul_u64(bet.amount, 6)
            } else {
                0
            }
        },
        BetType::ThreeNumberEasyHop => {
            if n & 0xC0 != 0 || count_ones(n) != 3 {
                return 0;
            }
            let m = dice_mask(dice);
            if dice_all_distinct(dice) && (m & n) == m {
                saturating_mul_u64(bet.amount, 31)
            } else {
                0
            }
        },
        BetType::ThreeNumberHardHop => {
            let double = (n >> 4) & 0x0f;
            let single = n & 0x0f;
            if double < 1 || double > 6 || single < 1 || single > 6 || double == single {
                return 0;
            }
            if count_number(dice, double) == 2 && count_number(dice, single) == 1 {
                saturating_mul_u64(bet.amount, 51)
            } else {
                0
            }
        },
        BetType::FourNumberEasyHop => {
            if n & 0xC0 != 0 || count_ones(n) != 4 {
                return 0;
            }
            let m = dice_mask(dice);
            if dice_all_distinct(dice) && (m & n) == m {
                saturating_mul_u64(bet.amount, 8)
            } else {
                0
            }
        },
    }
}

/// Whether the number of a bet is valid for its type.
pub open spec fn number_valid(t: BetType, n: u8) -> bool {
    match t {
        BetType::SpecificTriple | BetType::SpecificDouble | BetType::Single => 1 <= n <= 6,
        BetType::Total => 3 <= n <= 18,
        BetType::Domino => {
            let lo = (n >> 4u8) & 0x0fu8;
            let hi = n & 0x0fu8;
            !(lo < 1 || lo > 6 || hi < 1 || hi > 6 || lo >= hi)
        },
        BetType::ThreeNumberEasyHop => hop_mask_ok(n, 3),
        BetType::ThreeNumberHardHop => {
            let dbl = (n >> 4u8) & 0x0fu8;
            let sgl = n & 0x0fu8;
            !(dbl < 1 || dbl > 6 || sgl < 1 || sgl > 6 || dbl == sgl)
        },
        BetType::FourNumberEasyHop => hop_mask_ok(n, 4),
        _ => true,
    }
}

/// Whether a bet number is valid for its type.
fn check_number(t: BetType, number: u8) -> (b: bool)
    ensures
        b == number_valid(t, number),
{
    match t {
        BetType::SpecificTriple | BetType::SpecificDouble | BetType::Single => {
            !(number < 1 || number > 6)
        },
        BetType::Total => !(number < 3 || number > 18),
        BetType::Domino => {
            let min = (number >> 4) & 0x0f;
            let max = number & 0x0f;
            !(min < 1 || min > 6 || max < 1 || max > 6 || min >= max)
        },
        BetType::ThreeNumberEasyHop => !(number & 0xC0 != 0 || count_ones(number) != 3),
        BetType::ThreeNumberHardHop => {
            let double = (number >> 4) & 0x0f;
            let single = number & 0x0f;
            !(double < 1 || double > 6 || single < 1 || single > 6 || double == single)
        },
        BetType::FourNumberEasyHop => !(number & 0xC0 != 0 || count_ones(number) != 4),
        _ => true,
    }
}

/// Sum of the stakes.
pub open spec fn stakes_sum(bets: Seq<SicBoBet>) -> int
    decreases bets.len(),
{
    if bets.len() == 0 {
        0
    } else {
        stakes_sum(bets.drop_last()) + bets.last().amount
    }
}

/// Sum of the amounts returned on a roll.
pub open spec fn returns_sum(bets: Seq<SicBoBet>, d: Dice) -> int
    decreases bets.len(),
{
    if bets.len() == 0 {
        0
    } else {
        returns_sum(bets.drop_last(), d) + bet_return(bets.last(), d)
    }
}

/// Partial sums of non-negative terms never exceed the whole.
proof fn lemma_sums_prefix(bets: Seq<SicBoBet>, d: Dice, i: int)
    requires
        0 <= i <= bets.len(),
    ensures
        0 <= stakes_sum(bets.subrange(0, i)) <= stakes_sum(bets),
        0 <= returns_sum(bets.subrange(0, i), d) <= returns_sum(bets, d),
    decreases bets.len(),
{
    if bets.len() > 0 {
        if i == bets.len() {
            assert(bets.subrange(0, i) =~= bets);
            lemma_sums_prefix(bets.drop_last(), d, i - 1);
        } else {
            lemma_sums_prefix(bets.drop_last(), d, i);
            assert(bets.drop_last().subrange(0, i) =~= bets.subrange(0, i));
        }
    }
}

/// The three dice of a roll.
pub open spec fn roll_of(p: RngPoint) -> Dice {
    let r = dice_rolls(p, 3).0;
    (r[0], r[1], r[2])
}

/// Result of a roll: a win of everything returned (multiplied by the super
/// multiplier of the dice total when super mode is active), or a loss of the
/// stakes already deducted.
pub open spec fn roll_result(
    bets: Seq<SicBoBet>,
    d: Dice,
    super_active: bool,
    mults: Seq<SuperMultiplier>,
) -> GameResult {
    let w = returns_sum(bets, d);
    if w > 0 {
        if super_active {
            GameResult::Win(
                sat_mul(w, keyed_multiplier(mults, SuperType::Total, (d.0 + d.1 + d.2) as u8)) as u64,
            )
        } else {
            GameResult::Win(w as u64)
        }
    } else {
        GameResult::LossPreDeducted(stakes_sum(bets) as u64)
    }
}

/// The error a command is refused with on a parsed state, if any.
pub open spec fn command_error(st: SicBoView, payload: Seq<u8>) -> Option<GameError> {
    if payload[0] == 0 {
        if payload.len() < 11 {
            Some(GameError::InvalidPayload)
        } else {
            match bet_type_of(payload[1]) {
                None => Some(GameError::InvalidPayload),
                Some(t) => if !number_valid(t, payload[2]) {
                    Some(GameError::InvalidPayload)
                } else if be_u64(payload.subrange(3, 11)) == 0 {
                    Some(GameError::InvalidPayload)
                } else {
                    None
                },
            }
        }
    } else if payload[0] == 1 {
        if st.0.len() == 0 {
            Some(GameError::InvalidPayload)
        } else {
            None
        }
    } else if payload[0] == 2 {
        None
    } else {
        Some(GameError::InvalidPayload)
    }
}

/// The error a move is refused with, if any, checked in order; a malformed
/// state is an invalid move.
pub open spec fn move_error(is_complete: bool, blob: Seq<u8>, payload: Seq<u8>) -> Option<
    GameError,
> {
    if is_complete {
        Some(GameError::GameAlreadyComplete)
    } else if payload.len() == 0 {
        Some(GameError::InvalidPayload)
    } else {
        match parse_state(blob) {
            None => Some(GameError::InvalidMove),
            Some(st) => command_error(st, payload),
        }
    }
}

/// An accepted move can be carried out without overflow: the move count can
/// grow, a placed stake is not 2^63 (it is reported negated as an `i64`), and
/// the stakes and returns of a roll add up within `u64`.
pub open spec fn move_defined(s: GameSession, payload: Seq<u8>, p: RngPoint) -> bool {
    match parse_state(s.state_blob@) {
        Some(st) => move_error(s.is_complete, s.state_blob@, payload) is None ==> {
            if payload[0] == 0 {
                s.move_count < u32::MAX && be_u64(payload.subrange(3, 11)) != 0x8000_0000_0000_0000u64
            } else if payload[0] == 1 {
                &&& s.move_count < u32::MAX
                &&& stakes_sum(st.0) <= u64::MAX
                &&& returns_sum(st.0, roll_of(p)) <= u64::MAX
            } else {
                true
            }
        },
        None => true,
    }
}

/// What an accepted move does to the session, the stream and the result.
pub open spec fn move_applied(
    old_s: GameSession,
    new_s: GameSession,
    payload: Seq<u8>,
    p0: RngPoint,
    p1: RngPoint,
    r: Result<GameResult, GameError>,
) -> bool {
    let st = parse_state(old_s.state_blob@).unwrap();
    &&& session_fields_kept(old_s, new_s)
    &&& if payload[0] == 0 {
        let bet = SicBoBet {
            bet_type: bet_type_of(payload[1]).unwrap(),
            number: payload[2],
            amount: be_u64(payload.subrange(3, 11)),
        };
        &&& new_s.state_blob@ == state_bytes((st.0.push(bet), st.1))
        &&& new_s.is_complete == old_s.is_complete
        &&& new_s.move_count == old_s.move_count + 1
        &&& p1 == p0
        &&& r == Ok::<GameResult, GameError>(
            GameResult::ContinueWithUpdate { payout: (-wrap_i64(bet.amount)) as i64 },
        )
    } else if payload[0] == 2 {
        &&& new_s.state_blob@ == state_bytes((Seq::empty(), st.1))
        &&& new_s.is_complete == old_s.is_complete
        &&& new_s.move_count == old_s.move_count
        &&& p1 == p0
        &&& r == Ok::<GameResult, GameError>(GameResult::Continue)
    } else {
        let d = roll_of(p0);
        &&& new_s.state_blob@ == state_bytes((st.0, Some(d)))
        &&& new_s.is_complete
        &&& new_s.move_count == old_s.move_count + 1
        &&& p1 == dice_rolls(p0, 3).1
        &&& r == Ok::<GameResult, GameError>(
            roll_result(st.0, d, old_s.super_mode.is_active, old_s.super_mode.multipliers@),
        )
    }
}

/// Sic Bo.
pub struct SicBo;

impl SicBo {
    /// The total staked and the total returned on a roll.
    fn sums(bets: &[SicBoBet], dice: &[u8; 3]) -> (r: (u64, u64))
        requires
            1 <= dice[0] <= 6,
            1 <= dice[1] <= 6,
            1 <= dice[2] <= 6,
            stakes_sum(bets@) <= u64::MAX,
            returns_sum(bets@, (dice[0], dice[1], dice[2])) <= u64::MAX,
        ensures
            r.0 == stakes_sum(bets@),
            r.1 == returns_sum(bets@, (dice[0], dice[1], dice[2])),
    {
        let ghost d = (dice[0], dice[1], dice[2]);
        let mut total_bet: u64 = 0;
        let mut total_winnings: u64 = 0;
        let mut i: usize = 0;
        while i < bets.len()
            invariant
                i <= bets@.len(),
                d == (dice[0], dice[1], dice[2]),
                1 <= dice[0] <= 6,
                1 <= dice[1] <= 6,
                1 <= dice[2] <= 6,
                stakes_sum(bets@) <= u64::MAX,
                returns_sum(bets@, d) <= u64::MAX,
                total_bet == stakes_sum(bets@.subrange(0, i as int)),
                total_winnings == returns_sum(bets@.subrange(0, i as int), d),
            decreases bets@.len() - i,
        {
            proof {
                let s = bets@.subrange(0, i as int + 1);
                assert(s.drop_last() =~= bets@.subrange(0, i as int));
                lemma_sums_prefix(bets@, d, i as int + 1);
            }
            total_bet = total_bet + bets[i].amount;
            total_winnings = total_winnings + calculate_bet_payout(&bets[i], dice);
            i += 1;
        }
        assert(bets@.subrange(0, bets@.len() as int) =~= bets@);
        (total_bet, total_winnings)
    }
}

impl CasinoGame for SicBo {
    open spec fn init_requires(s0: GameSession) -> bool {
        init_requires(s0)
    }

    open spec fn init_ensures(s0: GameSession, p0: RngPoint, r: GameResult, s1: GameSession, p1: RngPoint) -> bool {
        init_ensures(s0, p0, r, s1, p1)
    }

    open spec fn move_requires(s0: GameSession, payload: Seq<u8>, p0: RngPoint) -> bool {
        move_requires(s0, payload, p0)
    }

    open spec fn move_ensures(
        s0: GameSession,
        payload: Seq<u8>,
        p0: RngPoint,
        r: Result<GameResult, GameError>,
        s1: GameSession,
        p1: RngPoint,
    ) -> bool {
        move_ensures(s0, payload, p0, r, s1, p1)
    }

    /// Starts a session with no bets.
    fn init(session: &mut GameSession, rng: &mut GameRng) -> (r: GameResult) {
        let state = SicBoState::new();
        session.state_blob = state.to_bytes();
        GameResult::Continue
    }

    /// Processes one move: place a bet, roll and settle, or clear the bets.
    fn process_move(session: &mut GameSession, payload: &[u8], rng: &mut GameRng) -> (r: Result<
        GameResult,
        GameError,
    >) {
        if session.is_complete {
            return Err(GameError::GameAlreadyComplete);
        }
        if payload.len() == 0 {
            return Err(GameError::InvalidPayload);
        }
        let action = payload[0];
        let mut state = match SicBoState::from_bytes(session.state_blob.as_slice()) {
            Some(s) => s,
            None => return Err(GameError::InvalidMove),
        };
        if action == 0 {
            if payload.len() < 11 {
                return Err(GameError::InvalidPayload);
            }
            let bet_type = match BetType::try_from(payload[1]) {
                Ok(t) => t,
                Err(e) => return Err(e),
            };
            let number = payload[2];
            let amount = read_u64_be(payload, 3);
            if !check_number(bet_type, number) {
                return Err(GameError::InvalidPayload);
            }
            if amount == 0 {
                return Err(GameError::InvalidPayload);
            }
            state.bets.push(SicBoBet { bet_type, number, amount });
            session.state_blob = state.to_bytes();
            session.move_count += 1;
            Ok(GameResult::ContinueWithUpdate { payout: -u64_as_i64(amount) })
        } else if action == 1 {
            if state.bets.len() == 0 {
                return Err(GameError::InvalidPayload);
            }
            let ghost p0 = rng@;
            let d0 = rng.roll_die();
            let d1 = rng.roll_die();
            let d2 = rng.roll_die();
            proof {
                reveal_with_fuel(dice_rolls, 4);
            }
            let dice: [u8; 3] = [d0, d1, d2];
            state.dice = Some(dice);
            let (total_bet, total_winnings) = Self::sums(state.bets.as_slice(), &dice);
            session.state_blob = state.to_bytes();
            session.move_count += 1;
            session.is_complete = true;
            if total_winnings > 0 {
                let final_winnings = if session.super_mode.is_active {
                    let dice_total = d0 + d1 + d2;
                    apply_super_multiplier_total(
                        dice_total,
                        session.super_mode.multipliers.as_slice(),
                        total_winnings,
                    )
                } else {
                    total_winnings
                };
                Ok(GameResult::Win(final_winnings))
            } else {
                Ok(GameResult::LossPreDeducted(total_bet))
            }
        } else if action == 2 {
            state.bets.clear();
            assert(state.bets@ =~= Seq::<SicBoBet>::empty());
            session.state_blob = state.to_bytes();
            Ok(GameResult::Continue)
        } else {
            Err(GameError::InvalidPayload)
        }
    }
}

/// What `process_move` requires of a session, a payload and a stream point.
pub open spec fn move_requires(s0: GameSession, payload: Seq<u8>, p0: RngPoint) -> bool {
    &&& move_defined(s0, payload, p0)
}

/// What `process_move` ensures of a session, a payload and a stream point
/// before (`s0`, `p0`) and after (`s1`, `p1`) the move, with result `r`.
pub open spec fn move_ensures(
    s0: GameSession,
    payload: Seq<u8>,
    p0: RngPoint,
    r: Result<GameResult, GameError>,
    s1: GameSession,
    p1: RngPoint,
) -> bool {
    &&& match move_error(s0.is_complete, s0.state_blob@, payload) {
                Some(e) => r == Err::<GameResult, GameError>(e) && s1 == s0
                    && p1 == p0,
                None => move_applied(s0, s1, payload, p0, p1, r),
            }
}

/// What `init` requires of a session.
pub open spec fn init_requires(s0: GameSession) -> bool {
    true
}

/// What `init` ensures of a session and a stream point before (`s0`, `p0`)
/// and after (`s1`, `p1`), with result `r`.
pub open spec fn init_ensures(s0: GameSession, p0: RngPoint, r: GameResult, s1: GameSession, p1: RngPoint) -> bool {
    &&& r == GameResult::Continue
    &&& s1.state_blob@ == state_bytes((Seq::<SicBoBet>::empty(), None::<Dice>))
    &&& session_fields_kept(s0, s1)
    &&& s1.is_complete == s0.is_complete
    &&& s1.move_count == s0.move_count
    &&& p1 == p0
}

} // verus!
