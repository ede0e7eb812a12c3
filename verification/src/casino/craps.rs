//! Craps with a multi-bet menu.
//!
//! State blob (version 2):
//! `[2] [phase] [main_point] [d1] [d2] [made_points_mask] [epoch_point_established]
//! [bet_count] [bets: 19 bytes each] [field_paytable]? [buy_commission_timing]?`;
//! version 1 has no epoch byte, which is then derived. Each bet is
//! `[bet_type] [target] [status] [amount:u64 BE] [odds_amount:u64 BE]`.
//!
//! Payload: `[0, bet_type, target, amount:u64 BE]` places a bet, `[1, amount:u64 BE]`
//! adds odds to the last working contract bet, `[2]` rolls, `[3]` clears the bets
//! before the first roll.

use super::common::{
    be_u64, lemma_u64_be_roundtrip, push_all, push_u64_be, read_u64_be, sat_add, sat_mul, sat_sub,
    saturating_mul_u64, u64_be_bytes,
};
use super::rng::{dice_rolls, GameRng, RngPoint};
use super::session::{session_fields_kept, GameSession, SuperMultiplier, SuperType};
use super::super_mode::{apply_super_multiplier_total, keyed_multiplier};
use super::common::wrap_i64;
use super::common::u64_as_i64;
use super::{CasinoGame, GameError, GameResult};
use vstd::prelude::*;

verus! {

/// Current state blob version.
pub const STATE_VERSION: u8 = 2;

/// Legacy state blob version (no epoch byte).
pub const STATE_VERSION_V1: u8 = 1;

/// Most bets a state may hold.
pub const MAX_BETS: usize = 20;

/// Buy commission in basis points (5%).
pub const BUY_COMMISSION_BPS: u64 = 500;

/// Basis-point denominator.
pub const BUY_COMMISSION_DENOM: u64 = 10_000;

/// ATS Small pays 34 to 1.
pub const ATS_SMALL_PAYOUT_TO_1: u64 = 34;

/// ATS Tall pays 34 to 1.
pub const ATS_TALL_PAYOUT_TO_1: u64 = 34;

/// ATS All pays 175 to 1.
pub const ATS_ALL_PAYOUT_TO_1: u64 = 175;

/// Progress bits of the small totals 2-6.
pub const ATS_SMALL_MASK: u64 = 0x1f;

/// Progress bits of the tall totals 8-12.
pub const ATS_TALL_MASK: u64 = 0x3e0;

/// Progress bits of all totals but 7.
pub const ATS_ALL_MASK: u64 = 0x3ff;

/// Field paytable.
#[derive(Clone, Copy, Debug, PartialEq, Eq, Structural)]
pub enum FieldPaytable {
    /// 2 and 12 pay double (2:1).
    Double2And12,
    /// 2 pays double (2:1) and 12 pays triple (3:1).
    Double2Triple12,
}

/// When the buy commission is charged.
#[derive(Clone, Copy, Debug, PartialEq, Eq, Structural)]
pub enum BuyCommissionTiming {
    /// Commission is charged at bet placement (up-front).
    AtPlacement,
    /// Commission is charged only when the buy bet wins.
    OnWin,
}

impl Default for FieldPaytable {
    fn default() -> (p: Self)
        ensures
            p == FieldPaytable::Double2And12,
    {
        FieldPaytable::Double2And12
    }
}

impl Default for BuyCommissionTiming {
    fn default() -> (t: Self)
        ensures
            t == BuyCommissionTiming::AtPlacement,
    {
        BuyCommissionTiming::AtPlacement
    }
}

/// Craps phases.
#[derive(Clone, Copy, Debug, PartialEq, Eq, Structural)]
pub enum Phase {
    ComeOut,
    Point,
}

/// Supported bet types.
#[derive(Clone, Copy, Debug, PartialEq, Eq, Structural)]
pub enum BetType {
    /// Come-out: 7/11 win, 2/3/12 lose, else point
    Pass,
    /// Come-out: 2/3 win, 7/11 lose, 12 push
    DontPass,
    /// Like Pass but during the point phase
    Come,
    /// Like Don't Pass but during the point phase
    DontCome,
    /// Single roll: 2, 12 pay double, 3, 4, 9, 10, 11 even
    Field,
    /// Place bet: target hits before 7
    Yes,
    /// Lay bet: 7 hits before target
    No,
    /// Hop bet: exact total on the next roll
    Next,
    /// 2+2 before 7 or easy 4
    Hardway4,
    /// 3+3 before 7 or easy 6
    Hardway6,
    /// 4+4 before 7 or easy 8
    Hardway8,
    /// 5+5 before 7 or easy 10
    Hardway10,
    /// Fire Bet side bet (Pay Table A)
    Fire,
    /// Buy bet: place-style, fair odds with commission
    Buy,
    /// All Tall Small: Small (2-6) before seven-out
    AtsSmall,
    /// All Tall Small: Tall (8-12) before seven-out
    AtsTall,
    /// All Tall Small: All before seven-out
    AtsAll,
}

/// Status of a contract bet.
#[derive(Clone, Copy, Debug, PartialEq, Eq, Structural)]
pub enum BetStatus {
    /// Working
    On,
    /// Come/Don't Come waiting to travel
    Pending,
}

/// Field paytable of a wire code.
pub open spec fn paytable_of(v: u8) -> Option<FieldPaytable> {
    if v == 0 {
        Some(FieldPaytable::Double2And12)
    } else if v == 1 {
        Some(FieldPaytable::Double2Triple12)
    } else {
        None
    }
}

/// Commission timing of a wire code.
pub open spec fn timing_of(v: u8) -> Option<BuyCommissionTiming> {
    if v == 0 {
        Some(BuyCommissionTiming::AtPlacement)
    } else if v == 1 {
        Some(BuyCommissionTiming::OnWin)
    } else {
        None
    }
}

/// Phase of a wire code.
pub open spec fn phase_of(v: u8) -> Option<Phase> {
    if v == 0 {
        Some(Phase::ComeOut)
    } else if v == 1 {
        Some(Phase::Point)
    } else {
        None
    }
}

/// Status of a wire code.
pub open spec fn status_of(v: u8) -> Option<BetStatus> {
    if v == 0 {
        Some(BetStatus::On)
    } else if v == 1 {
        Some(BetStatus::Pending)
    } else {
        None
    }
}

/// Bet type of a wire code (14 is unused).
pub open spec fn bet_type_of(v: u8) -> Option<BetType> {
    if v == 0 {
        Some(BetType::Pass)
    } else if v == 1 {
        Some(BetType::DontPass)
    } else if v == 2 {
        Some(BetType::Come)
    } else if v == 3 {
        Some(BetType::DontCome)
    } else if v == 4 {
        Some(BetType::Field)
    } else if v == 5 {
        Some(BetType::Yes)
    } else if v == 6 {
        Some(BetType::No)
    } else if v == 7 {
        Some(BetType::Next)
    } else if v == 8 {
        Some(BetType::Hardway4)
    } else if v == 9 {
        Some(BetType::Hardway6)
    } else if v == 10 {
        Some(BetType::Hardway8)
    } else if v == 11 {
        Some(BetType::Hardway10)
    } else if v == 12 {
        Some(BetType::Fire)
    } else if v == 13 {
        Some(BetType::Buy)
    } else if v == 15 {
        Some(BetType::AtsSmall)
    } else if v == 16 {
        Some(BetType::AtsTall)
    } else if v == 17 {
        Some(BetType::AtsAll)
    } else {
        None
    }
}

/// Wire code of a bet type.
pub open spec fn bet_type_code(t: BetType) -> u8 {
    match t {
        BetType::Pass => 0,
        BetType::DontPass => 1,
        BetType::Come => 2,
        BetType::DontCome => 3,
        BetType::Field => 4,
        BetType::Yes => 5,
        BetType::No => 6,
        BetType::Next => 7,
        BetType::Hardway4 => 8,
        BetType::Hardway6 => 9,
        BetType::Hardway8 => 10,
        BetType::Hardway10 => 11,
        BetType::Fire => 12,
        BetType::Buy => 13,
        BetType::AtsSmall => 15,
        BetType::AtsTall => 16,
        BetType::AtsAll => 17,
    }
}

/// Wire code of a phase.
pub open spec fn phase_code(p: Phase) -> u8 {
    match p {
        Phase::ComeOut => 0,
        Phase::Point => 1,
    }
}

/// Wire code of a status.
pub open spec fn status_code(s: BetStatus) -> u8 {
    match s {
        BetStatus::On => 0,
        BetStatus::Pending => 1,
    }
}

/// Wire code of a paytable.
pub open spec fn paytable_code(p: FieldPaytable) -> u8 {
    match p {
        FieldPaytable::Double2And12 => 0,
        FieldPaytable::Double2Triple12 => 1,
    }
}

/// Wire code of a commission timing.
pub open spec fn timing_code(t: BuyCommissionTiming) -> u8 {
    match t {
        BuyCommissionTiming::AtPlacement => 0,
        BuyCommissionTiming::OnWin => 1,
    }
}

impl FieldPaytable {
    /// The paytable with wire code `v`.
    pub fn try_from(v: u8) -> (r: Result<FieldPaytable, ()>)
        ensures
            r == match paytable_of(v) {
                Some(p) => Ok(p),
                None => Err(()),
            },
    {
        match v {
            0 => Ok(FieldPaytable::Double2And12),
            1 => Ok(FieldPaytable::Double2Triple12),
            _ => Err(()),
        }
    }

    /// Wire code.
    pub fn to_u8(self) -> (c: u8)
        ensures
            c == paytable_code(self),
    {
        match self {
            FieldPaytable::Double2And12 => 0,
            FieldPaytable::Double2Triple12 => 1,
        }
    }
}

impl BuyCommissionTiming {
    /// The timing with wire code `v`.
    pub fn try_from(v: u8) -> (r: Result<BuyCommissionTiming, ()>)
        ensures
            r == match timing_of(v) {
                Some(t) => Ok(t),
                None => Err(()),
            },
    {
        match v {
            0 => Ok(BuyCommissionTiming::AtPlacement),
            1 => Ok(BuyCommissionTiming::OnWin),
            _ => Err(()),
        }
    }

    /// Wire code.
    pub fn to_u8(self) -> (c: u8)
        ensures
            c == timing_code(self),
    {
        match self {
            BuyCommissionTiming::AtPlacement => 0,
            BuyCommissionTiming::OnWin => 1,
        }
    }
}

impl Phase {
    /// The phase with wire code `v`.
    pub fn try_from(v: u8) -> (r: Result<Phase, ()>)
        ensures
            r == match phase_of(v) {
                Some(p) => Ok(p),
                None => Err(()),
            },
    {
        match v {
            0 => Ok(Phase::ComeOut),
            1 => Ok(Phase::Point),
            _ => Err(()),
        }
    }

    /// Wire code.
    pub fn to_u8(self) -> (c: u8)
        ensures
            c == phase_code(self),
    {
        match self {
            Phase::ComeOut => 0,
            Phase::Point => 1,
        }
    }
}

impl BetStatus {
    /// The status with wire code `v`.
    pub fn try_from(v: u8) -> (r: Result<BetStatus, ()>)
        ensures
            r == match status_of(v) {
                Some(s) => Ok(s),
                None => Err(()),
            },
    {
        match v {
            0 => Ok(BetStatus::On),
            1 => Ok(BetStatus::Pending),
            _ => Err(()),
        }
    }

    /// Wire code.
    pub fn to_u8(self) -> (c: u8)
        ensures
            c == status_code(self),
    {
        match self {
            BetStatus::On => 0,
            BetStatus::Pending => 1,
        }
    }
}

impl BetType {
    /// The bet type with wire code `v`.
    pub fn try_from(v: u8) -> (r: Result<BetType, ()>)
        ensures
            r == match bet_type_of(v) {
                Some(t) => Ok(t),
                None => Err(()),
            },
    {
        match v {
            0 => Ok(BetType::Pass),
            1 => Ok(BetType::DontPass),
            2 => Ok(BetType::Come),
            3 => Ok(BetType::DontCome),
            4 => Ok(BetType::Field),
            5 => Ok(BetType::Yes),
            6 => Ok(BetType::No),
            7 => Ok(BetType::Next),
            8 => Ok(BetType::Hardway4),
            9 => Ok(BetType::Hardway6),
            10 => Ok(BetType::Hardway8),
            11 => Ok(BetType::Hardway10),
            12 => Ok(BetType::Fire),
            13 => Ok(BetType::Buy),
            15 => Ok(BetType::AtsSmall),
            16 => Ok(BetType::AtsTall),
            17 => Ok(BetType::AtsAll),
            _ => Err(()),
        }
    }

    /// Wire code.
    pub fn to_u8(self) -> (c: u8)
        ensures
            c == bet_type_code(self),
            bet_type_of(c) == Some(self),
    {
        match self {
            BetType::Pass => 0,
            BetType::DontPass => 1,
            BetType::Come => 2,
            BetType::DontCome => 3,
            BetType::Field => 4,
            BetType::Yes => 5,
            BetType::No => 6,
            BetType::Next => 7,
            BetType::Hardway4 => 8,
            BetType::Hardway6 => 9,
            BetType::Hardway8 => 10,
            BetType::Hardway10 => 11,
            BetType::Fire => 12,
            BetType::Buy => 13,
            BetType::AtsSmall => 15,
            BetType::AtsTall => 16,
            BetType::AtsAll => 17,
        }
    }
}

/// One craps bet.
#[derive(Clone, Copy, Debug, PartialEq, Eq, Structural)]
pub struct CrapsBet {
    pub bet_type: BetType,
    /// Point for Come/Yes/No/Buy, number for Next.
    pub target: u8,
    pub status: BetStatus,
    pub amount: u64,
    /// Free odds behind contract bets (progress bits for ATS bets).
    pub odds_amount: u64,
}

/// The 19-byte encoding of a bet.
pub open spec fn bet_bytes(b: CrapsBet) -> Seq<u8> {
    seq![bet_type_code(b.bet_type), b.target, status_code(b.status)] + u64_be_bytes(b.amount)
        + u64_be_bytes(b.odds_amount)
}

/// The bet encoded at `off`, if its type and status bytes are valid.
pub open spec fn bet_at(b: Seq<u8>, off: int) -> Option<CrapsBet> {
    match bet_type_of(b[off]) {
        Some(t) => match status_of(b[off + 2]) {
            Some(s) => Some(
                CrapsBet {
                    bet_type: t,
                    target: b[off + 1],
                    status: s,
                    amount: be_u64(b.subrange(off + 3, off + 11)),
                    odds_amount: be_u64(b.subrange(off + 11, off + 19)),
                },
            ),
            None => None,
        },
        None => None,
    }
}

/// Reads the bet encoded at `offset`.
fn read_bet(bytes: &[u8], offset: usize) -> (r: Option<CrapsBet>)
    requires
        offset + 19 <= bytes@.len(),
    ensures
        r == bet_at(bytes@, offset as int),
{
    let bet_type = match BetType::try_from(bytes[offset]) {
        Ok(t) => t,
        Err(_) => return None,
    };
    let target = bytes[offset + 1];
    let status = match BetStatus::try_from(bytes[offset + 2]) {
        Ok(s) => s,
        Err(_) => return None,
    };
    let amount = read_u64_be(bytes, offset + 3);
    let odds_amount = read_u64_be(bytes, offset + 11);
    Some(CrapsBet { bet_type, target, status, amount, odds_amount })
}

impl CrapsBet {
    /// The 19-byte encoding.
    pub fn to_bytes(&self) -> (bytes: Vec<u8>)
        ensures
            bytes@ == bet_bytes(*self),
    {
        let mut bytes: Vec<u8> = Vec::new();
        bytes.push(self.bet_type.to_u8());
        bytes.push(self.target);
        bytes.push(self.status.to_u8());
        push_u64_be(&mut bytes, self.amount);
        push_u64_be(&mut bytes, self.odds_amount);
        assert(bytes@ =~= bet_bytes(*self));
        bytes
    }

    /// Decodes the first 19 bytes; `None` when there are fewer or a code is invalid.
    pub fn from_bytes(bytes: &[u8]) -> (r: Option<Self>)
        ensures
            r == if bytes@.len() < 19 {
                None
            } else {
                bet_at(bytes@, 0)
            },
    {
        if bytes.len() < 19 {
            return None;
        }
        read_bet(bytes, 0)
    }
}

/// Decoding an encoded bet gives it back.
pub proof fn lemma_bet_roundtrip(b: CrapsBet, pre: Seq<u8>, post: Seq<u8>)
    ensures
        bet_at(pre + bet_bytes(b) + post, pre.len() as int) == Some(b),
{
    let s = pre + bet_bytes(b) + post;
    let o = pre.len() as int;
    lemma_u64_be_roundtrip(b.amount);
    lemma_u64_be_roundtrip(b.odds_amount);
    assert(s.subrange(o + 3, o + 11) =~= u64_be_bytes(b.amount));
    assert(s.subrange(o + 11, o + 19) =~= u64_be_bytes(b.odds_amount));
    assert(s[o] == bet_type_code(b.bet_type));
    assert(s[o + 1] == b.target);
    assert(s[o + 2] == status_code(b.status));
}

/// Result of a bet after a roll.
#[derive(Clone, Copy, Debug, PartialEq, Eq, Structural)]
pub struct BetResult {
    pub bet_idx: usize,
    /// Amount credited back (stakes were deducted at placement).
    pub return_amount: u64,
    /// Amount wagered on the bet (reported for losses).
    pub wagered: u64,
    pub resolved: bool,
}

/// Game state.
pub struct CrapsState {
    pub phase: Phase,
    pub main_point: u8,
    pub d1: u8,
    pub d2: u8,
    pub made_points_mask: u8,
    pub epoch_point_established: bool,
    pub field_paytable: FieldPaytable,
    pub buy_commission_timing: BuyCommissionTiming,
    pub bets: Vec<CrapsBet>,
}

/// The state apart from its bets.
#[derive(Clone, Copy, Debug, PartialEq, Eq, Structural)]
pub struct CrapsHeader {
    pub phase: Phase,
    pub main_point: u8,
    pub d1: u8,
    pub d2: u8,
    pub made_points_mask: u8,
    pub epoch_point_established: bool,
    pub field_paytable: FieldPaytable,
    pub buy_commission_timing: BuyCommissionTiming,
}

impl CrapsState {
    /// The header of the state.
    pub open spec fn header(&self) -> CrapsHeader {
        CrapsHeader {
            phase: self.phase,
            main_point: self.main_point,
            d1: self.d1,
            d2: self.d2,
            made_points_mask: self.made_points_mask,
            epoch_point_established: self.epoch_point_established,
            field_paytable: self.field_paytable,
            buy_commission_timing: self.buy_commission_timing,
        }
    }
}

/// Concatenated encodings of a list of bets.
pub open spec fn bets_bytes(bets: Seq<CrapsBet>) -> Seq<u8>
    decreases bets.len(),
{
    if bets.len() == 0 {
        Seq::empty()
    } else {
        bets_bytes(bets.drop_last()) + bet_bytes(bets.last())
    }
}

/// The version-2 blob of a header and bets.
pub open spec fn state_bytes(h: CrapsHeader, bets: Seq<CrapsBet>) -> Seq<u8> {
    seq![
        STATE_VERSION,
        phase_code(h.phase),
        h.main_point,
        h.d1,
        h.d2,
        h.made_points_mask,
        if h.epoch_point_established {
            1u8
        } else {
            0u8
        },
        (bets.len() % 256) as u8,
    ] + bets_bytes(bets) + seq![paytable_code(h.field_paytable), timing_code(h.buy_commission_timing)]
}

/// The header fields, bet count and header length of a blob, if its version
/// and phase are valid (version 1 derives the epoch flag).
pub open spec fn parse_head(b: Seq<u8>) -> Option<(CrapsHeader, nat, nat)> {
    if b.len() < 7 {
        None
    } else if b[0] == STATE_VERSION {
        if b.len() < 8 {
            None
        } else {
            match phase_of(b[1]) {
                Some(ph) => Some(
                    (
                        CrapsHeader {
                            phase: ph,
                            main_point: b[2],
                            d1: b[3],
                            d2: b[4],
                            made_points_mask: b[5],
                            epoch_point_established: b[6] != 0,
                            field_paytable: FieldPaytable::Double2And12,
                            buy_commission_timing: BuyCommissionTiming::AtPlacement,
                        },
                        b[7] as nat,
                        8,
                    ),
                ),
                None => None,
            }
        }
    } else if b[0] == STATE_VERSION_V1 {
        match phase_of(b[1]) {
            Some(ph) => Some(
                (
                    CrapsHeader {
                        phase: ph,
                        main_point: b[2],
                        d1: b[3],
                        d2: b[4],
                        made_points_mask: b[5],
                        epoch_point_established: ph == Phase::Point || b[2] != 0 || b[5] != 0,
                        field_paytable: FieldPaytable::Double2And12,
                        buy_commission_timing: BuyCommissionTiming::AtPlacement,
                    },
                    b[6] as nat,
                    7,
                ),
            ),
            None => None,
        }
    } else {
        None
    }
}

/// The first `count` bets after a header of `hl` bytes, or `None` when one is
/// invalid (the length is checked beforehand).
pub open spec fn parse_bets(b: Seq<u8>, hl: nat, count: nat) -> Option<Seq<CrapsBet>>
    decreases count,
{
    if count == 0 {
        Some(Seq::empty())
    } else {
        match parse_bets(b, hl, (count - 1) as nat) {
            Some(prev) => match bet_at(b, hl + 19 * (count - 1)) {
                Some(bet) => Some(prev.push(bet)),
                None => None,
            },
            None => None,
        }
    }
}

/// The header and bets a blob encodes: at most 20 bets, then the two rules
/// bytes when present (both must be valid), else the default rules.
pub open spec fn parse_state(b: Seq<u8>) -> Option<(CrapsHeader, Seq<CrapsBet>)> {
    match parse_head(b) {
        None => None,
        Some((h, count, hl)) => if count > MAX_BETS || b.len() < hl + 19 * count {
            None
        } else {
            match parse_bets(b, hl, count) {
                None => None,
                Some(bets) => {
                    let off: int = (hl + 19 * count) as int;
                    if b.len() >= off + 2 {
                        match (paytable_of(b[off]), timing_of(b[off + 1])) {
                            (Some(p), Some(t)) => Some(
                                (
                                    CrapsHeader {
                                        field_paytable: p,
                                        buy_commission_timing: t,
                                        ..h
                                    },
                                    bets,
                                ),
                            ),
                            _ => None,
                        }
                    } else {
                        Some((h, bets))
                    }
                },
            }
        },
    }
}

/// Once a bet fails to parse, every longer list fails too.
proof fn lemma_parse_bets_none(b: Seq<u8>, hl: nat, k: nat, n: nat)
    requires
        parse_bets(b, hl, k) is None,
        k <= n,
    ensures
        parse_bets(b, hl, n) is None,
    decreases n - k,
{
    if k < n {
        lemma_parse_bets_none(b, hl, k, (n - 1) as nat);
    }
}

/// One more bet extends the parsed list by the bet at its offset.
proof fn lemma_parse_bets_step(b: Seq<u8>, hl: nat, n: nat)
    requires
        n > 0,
    ensures
        parse_bets(b, hl, n) == match parse_bets(b, hl, (n - 1) as nat) {
            Some(prev) => match bet_at(b, hl + 19 * (n - 1)) {
                Some(bet) => Some(prev.push(bet)),
                None => None,
            },
            None => None,
        },
{
}

/// A parsed list of `count` bets has `count` bets.
proof fn lemma_parse_bets_len(b: Seq<u8>, hl: nat, count: nat)
    requires
        parse_bets(b, hl, count) is Some,
    ensures
        parse_bets(b, hl, count).unwrap().len() == count,
    decreases count,
{
    if count > 0 {
        lemma_parse_bets_len(b, hl, (count - 1) as nat);
    }
}

/// The encoding of a list of bets is 19 bytes per bet.
proof fn lemma_bets_bytes_len(bets: Seq<CrapsBet>)
    ensures
        bets_bytes(bets).len() == 19 * bets.len(),
    decreases bets.len(),
{
    if bets.len() > 0 {
        lemma_bets_bytes_len(bets.drop_last());
    }
}

/// The bets of an encoded list read back one by one.
#[verifier::spinoff_prover]
#[verifier::rlimit(40)]
proof fn lemma_parse_bets_of_bytes(bets: Seq<CrapsBet>, k: nat, head: Seq<u8>, rest: Seq<u8>)
    requires
        k <= bets.len(),
    ensures
        parse_bets(head + bets_bytes(bets) + rest, head.len(), k) == Some(bets.subrange(0, k as int)),
    decreases bets.len(),
{
    let b = head + bets_bytes(bets) + rest;
    if bets.len() == 0 {
        assert(bets.subrange(0, 0) =~= Seq::<CrapsBet>::empty());
    } else if k == bets.len() {
        let init = bets.drop_last();
        let rest2 = bet_bytes(bets.last()) + rest;
        assert(b =~= head + bets_bytes(init) + rest2);
        lemma_parse_bets_of_bytes(init, (k - 1) as nat, head, rest2);
        assert(init.subrange(0, k - 1) =~= init);
        lemma_bets_bytes_len(init);
        let pre = head + bets_bytes(init);
        assert(b =~= pre + bet_bytes(bets.last()) + rest);
        lemma_bet_roundtrip(bets.last(), pre, rest);
        assert(bets.subrange(0, k as int) =~= init.push(bets.last()));
    } else {
        let init = bets.drop_last();
        let rest2 = bet_bytes(bets.last()) + rest;
        assert(b =~= head + bets_bytes(init) + rest2);
        lemma_parse_bets_of_bytes(init, k, head, rest2);
        assert(init.subrange(0, k as int) =~= bets.subrange(0, k as int));
    }
}

/// Decoding the blob of a state gives the state back, for any state with at
/// most 20 bets.
#[verifier::spinoff_prover]
#[verifier::rlimit(40)]
pub proof fn lemma_state_roundtrip(h: CrapsHeader, bets: Seq<CrapsBet>)
    requires
        bets.len() <= MAX_BETS,
    ensures
        parse_state(state_bytes(h, bets)) == Some((h, bets)),
{
    let b = state_bytes(h, bets);
    let head = b.subrange(0, 8);
    let rules = seq![paytable_code(h.field_paytable), timing_code(h.buy_commission_timing)];
    assert(b =~= head + bets_bytes(bets) + rules);
    lemma_parse_bets_of_bytes(bets, bets.len(), head, rules);
    assert(bets.subrange(0, bets.len() as int) =~= bets);
    lemma_bets_bytes_len(bets);
    let off: int = (8 + 19 * bets.len()) as int;
    assert(b[off] == paytable_code(h.field_paytable));
    assert(b[off + 1] == timing_code(h.buy_commission_timing));
}

impl CrapsState {
    /// Serialize the state to its (version 2) blob.
    pub fn to_blob(&self) -> (blob: Vec<u8>)
        ensures
            blob@ == state_bytes(self.header(), self.bets@),
    {
        let mut blob: Vec<u8> = Vec::new();
        blob.push(STATE_VERSION);
        blob.push(self.phase.to_u8());
        blob.push(self.main_point);
        blob.push(self.d1);
        blob.push(self.d2);
        blob.push(self.made_points_mask);
        blob.push(if self.epoch_point_established {
            1
        } else {
            0
        });
        blob.push((self.bets.len() % 256) as u8);
        let ghost head = blob@;
        let mut i: usize = 0;
        while i < self.bets.len()
            invariant
                i <= self.bets@.len(),
                blob@ == head + bets_bytes(self.bets@.subrange(0, i as int)),
            decreases self.bets@.len() - i,
        {
            let bytes = self.bets[i].to_bytes();
            push_all(&mut blob, bytes.as_slice());
            proof {
                let s = self.bets@.subrange(0, i as int + 1);
                assert(s.drop_last() =~= self.bets@.subrange(0, i as int));
                assert(blob@ =~= head + bets_bytes(s));
            }
            i += 1;
        }
        assert(self.bets@.subrange(0, self.bets@.len() as int) =~= self.bets@);
        blob.push(self.field_paytable.to_u8());
        blob.push(self.buy_commission_timing.to_u8());
        assert(blob@ =~= state_bytes(self.header(), self.bets@));
        blob
    }

    /// Deserialize a state from its blob (version 1 or 2); `None` when malformed.
    pub fn from_blob(blob: &[u8]) -> (r: Option<Self>)
        ensures
            match r {
                Some(s) => parse_state(blob@) == Some((s.header(), s.bets@)),
                None => parse_state(blob@) is None,
            },
    {
        if blob.len() < 7 {
            return None;
        }
        let version = blob[0];
        let phase;
        let epoch_point_established;
        let bet_count: usize;
        let header_len: usize;
        if version == STATE_VERSION {
            if blob.len() < 8 {
                return None;
            }
            phase = match Phase::try_from(blob[1]) {
                Ok(p) => p,
                Err(_) => return None,
            };
            epoch_point_established = blob[6] != 0;
            bet_count = blob[7] as usize;
            header_len = 8;
        } else if version == STATE_VERSION_V1 {
            phase = match Phase::try_from(blob[1]) {
                Ok(p) => p,
                Err(_) => return None,
            };
            epoch_point_established = phase == Phase::Point || blob[2] != 0 || blob[5] != 0;
            bet_count = blob[6] as usize;
            header_len = 7;
        } else {
            return None;
        }
        let main_point = blob[2];
        let d1 = blob[3];
        let d2 = blob[4];
        let made_points_mask = blob[5];
        let ghost hd = parse_head(blob@).unwrap();
        assert(hd.1 == bet_count && hd.2 == header_len);
        if bet_count > MAX_BETS {
            return None;
        }
        let required_len = header_len + bet_count * 19;
        if blob.len() < required_len {
            return None;
        }
        let mut bets: Vec<CrapsBet> = Vec::new();
        let mut offset = header_len;
        let mut i: usize = 0;
        while i < bet_count
            invariant
                bet_count <= MAX_BETS,
                header_len <= 8,
                parse_head(blob@) is Some,
                parse_head(blob@).unwrap().1 == bet_count,
                parse_head(blob@).unwrap().2 == header_len,
                blob@.len() >= header_len + 19 * bet_count,
                i <= bet_count,
                offset == header_len + 19 * i,
                parse_bets(blob@, header_len as nat, i as nat) == Some(bets@),
            decreases bet_count - i,
        {
            assert(offset + 19 <= blob@.len()) by (nonlinear_arith)
                requires
                    offset == header_len + 19 * i,
                    i < bet_count,
                    blob@.len() >= header_len + 19 * bet_count,
            ;
            proof {
                lemma_parse_bets_step(blob@, header_len as nat, (i + 1) as nat);
            }
            match read_bet(blob, offset) {
                Some(bet) => {
                    bets.push(bet);
                },
                None => {
                    proof {
                        lemma_parse_bets_none(blob@, header_len as nat, (i + 1) as nat, bet_count as nat);
                    }
                    return None;
                },
            }
            offset += 19;
            i += 1;
        }
        let field_paytable;
        let buy_commission_timing;
        if blob.len() >= offset + 2 {
            field_paytable = match FieldPaytable::try_from(blob[offset]) {
                Ok(p) => p,
                Err(_) => return None,
            };
            buy_commission_timing = match BuyCommissionTiming::try_from(blob[offset + 1]) {
                Ok(t) => t,
                Err(_) => return None,
            };
        } else {
            field_paytable = FieldPaytable::Double2And12;
            buy_commission_timing = BuyCommissionTiming::AtPlacement;
        }
        Some(
            CrapsState {
                phase,
                main_point,
                d1,
                d2,
                made_points_mask,
                epoch_point_established,
                field_paytable,
                buy_commission_timing,
                bets,
            },
        )
    }
}

// ============================================================================
// Payouts
// ============================================================================

/// True-odds winnings on `odds` behind a point (pass side pays the odds,
/// don't side lays them).
pub open spec fn odds_win(point: u8, odds: u64, is_pass: bool) -> int {
    let o = odds as int;
    if point == 4 || point == 10 {
        if is_pass {
            sat_mul(o, 2)
        } else {
            o / 2
        }
    } else if point == 5 || point == 9 {
        if is_pass {
            sat_mul(o, 3) / 2
        } else {
            sat_mul(o, 2) / 3
        }
    } else if point == 6 || point == 8 {
        if is_pass {
            sat_mul(o, 6) / 5
        } else {
            sat_mul(o, 5) / 6
        }
    } else {
        0
    }
}

/// True odds payout (winnings only).
pub fn calculate_odds_payout(point: u8, odds_amount: u64, is_pass: bool) -> (w: u64)
    ensures
        w == odds_win(point, odds_amount, is_pass),
{
    match point {
        4 | 10 => {
            if is_pass {
                saturating_mul_u64(odds_amount, 2)
            } else {
                odds_amount / 2
            }
        },
        5 | 9 => {
            if is_pass {
                saturating_mul_u64(odds_amount, 3) / 2
            } else {
                saturating_mul_u64(odds_amount, 2) / 3
            }
        },
        6 | 8 => {
            if is_pass {
                saturating_mul_u64(odds_amount, 6) / 5
            } else {
                saturating_mul_u64(odds_amount, 5) / 6
            }
        },
        _ => 0,
    }
}

/// Total return of a winning pass/don't pass bet: double the flat stake, plus
/// the odds and their winnings when odds are down behind a point.
pub open spec fn pass_return(bet: CrapsBet, won: bool, is_pass: bool) -> int {
    if !won {
        0
    } else {
        let odds_ret = if bet.odds_amount > 0 && bet.target > 0 {
            sat_add(bet.odds_amount as int, odds_win(bet.target, bet.odds_amount, is_pass))
        } else {
            0
        };
        sat_add(sat_mul(bet.amount as int, 2), odds_ret)
    }
}

/// Pass/don't pass return (stake + winnings).
pub fn calculate_pass_return(bet: &CrapsBet, won: bool, is_pass: bool) -> (r: u64)
    ensures
        r == pass_return(*bet, won, is_pass),
{
    if !won {
        return 0;
    }
    let flat_return = saturating_mul_u64(bet.amount, 2);
    let odds_return = if bet.odds_amount > 0 && bet.target > 0 {
        let winnings = calculate_odds_payout(bet.target, bet.odds_amount, is_pass);
        bet.odds_amount.saturating_add(winnings)
    } else {
        0
    };
    flat_return.saturating_add(odds_return)
}

/// The number of ways two six-sided dice show `total`.
pub open spec fn dice_ways(total: int) -> int {
    (if 1 <= total - 1 <= 6 {
        1int
    } else {
        0
    }) + (if 1 <= total - 2 <= 6 {
        1int
    } else {
        0
    }) + (if 1 <= total - 3 <= 6 {
        1int
    } else {
        0
    }) + (if 1 <= total - 4 <= 6 {
        1int
    } else {
        0
    }) + (if 1 <= total - 5 <= 6 {
        1int
    } else {
        0
    }) + (if 1 <= total - 6 <= 6 {
        1int
    } else {
        0
    })
}

/// Odds behind a point pay true odds, rounded down: the pass side wins the
/// odds times the ways to roll a seven over the ways to roll the point (so
/// at least the odds staked), the don't side the odds times the ways to roll
/// the point over the ways to roll a seven (so less than the odds laid).
pub proof fn lemma_odds_pay_true_odds(point: u8, odds: u64)
    requires
        point == 4 || point == 5 || point == 6 || point == 8 || point == 9 || point == 10,
        odds * 6 <= u64::MAX,
    ensures
        odds_win(point, odds, true) == (odds * dice_ways(7)) / dice_ways(point as int),
        odds_win(point, odds, false) == (odds * dice_ways(point as int)) / dice_ways(7),
        odds_win(point, odds, true) >= odds,
        odds > 0 ==> odds_win(point, odds, false) < odds,
{
    let o = odds as int;
    assert(dice_ways(7) == 6);
    if point == 4 || point == 10 {
        assert(dice_ways(point as int) == 3);
        assert((o * 6) / 3 == o * 2) by (nonlinear_arith);
        assert((o * 3) / 6 == o / 2) by (nonlinear_arith)
            requires
                o >= 0,
        ;
    } else if point == 5 || point == 9 {
        assert(dice_ways(point as int) == 4);
        assert((o * 6) / 4 == (o * 3) / 2) by (nonlinear_arith)
            requires
                o >= 0,
        ;
        assert((o * 4) / 6 == (o * 2) / 3) by (nonlinear_arith)
            requires
                o >= 0,
        ;
        assert((o * 3) / 2 >= o) by (nonlinear_arith)
            requires
                o >= 0,
        ;
        assert(o > 0 ==> (o * 2) / 3 < o) by (nonlinear_arith)
            requires
                o >= 0,
        ;
    } else {
        assert(dice_ways(point as int) == 5);
        assert((o * 6) / 5 >= o) by (nonlinear_arith)
            requires
                o >= 0,
        ;
        assert(o > 0 ==> (o * 5) / 6 < o) by (nonlinear_arith)
            requires
                o >= 0,
        ;
    }
}

/// A won pass-line (or come) bet returns twice its stake, and with odds
/// behind its point the odds staked plus their true-odds winnings; a lost
/// one returns nothing.
pub proof fn lemma_pass_return_true_odds(bet: CrapsBet)
    requires
        bet.target == 4 || bet.target == 5 || bet.target == 6 || bet.target == 8 || bet.target == 9
            || bet.target == 10,
        bet.amount * 2 + bet.odds_amount * 6 <= u64::MAX,
    ensures
        pass_return(bet, false, true) == 0,
        pass_return(bet, true, true) == bet.amount * 2 + bet.odds_amount + (bet.odds_amount * dice_ways(7))
            / dice_ways(bet.target as int),
{
    lemma_odds_pay_true_odds(bet.target, bet.odds_amount);
    let o = bet.odds_amount as int;
    assert((o * 6) / 3 <= o * 2 && (o * 6) / 4 <= o * 2 && (o * 6) / 5 <= o * 2) by (nonlinear_arith)
        requires
            o >= 0,
    ;
    assert(dice_ways(7) == 6);
    if bet.odds_amount == 0 {
        assert((0 * dice_ways(7)) / dice_ways(bet.target as int) == 0);
    }
}

/// Field return (stake + winnings).
pub open spec fn field_return(total: u8, amount: u64, paytable: FieldPaytable) -> int {
    let a = amount as int;
    if total == 2 {
        sat_mul(a, 3)
    } else if total == 12 {
        match paytable {
            FieldPaytable::Double2And12 => sat_mul(a, 3),
            FieldPaytable::Double2Triple12 => sat_mul(a, 4),
        }
    } else if total == 3 || total == 4 || total == 9 || total == 10 || total == 11 {
        sat_mul(a, 2)
    } else {
        0
    }
}

/// Field bet return (stake + winnings).
pub fn calculate_field_payout(total: u8, amount: u64, paytable: FieldPaytable) -> (r: u64)
    ensures
        r == field_return(total, amount, paytable),
{
    match paytable {
        FieldPaytable::Double2And12 => match total {
            2 | 12 => saturating_mul_u64(amount, 3),
            3 | 4 | 9 | 10 | 11 => saturating_mul_u64(amount, 2),
            _ => 0,
        },
        FieldPaytable::Double2Triple12 => match total {
            2 => saturating_mul_u64(amount, 3),
            12 => saturating_mul_u64(amount, 4),
            3 | 4 | 9 | 10 | 11 => saturating_mul_u64(amount, 2),
            _ => 0,
        },
    }
}

/// Stake plus winnings less a 1% commission on the winnings.
pub open spec fn less_commission(amount: u64, winnings: int) -> int {
    sat_add(amount as int, winnings - winnings / 100)
}

/// Yes (place) return: stake plus true-odds winnings less 1%.
pub open spec fn yes_return(target: u8, amount: u64, hit: bool) -> int {
    let a = amount as int;
    if !hit {
        0
    } else {
        let t = if target == 4 || target == 10 {
            sat_mul(a, 2)
        } else if target == 5 || target == 9 {
            sat_mul(a, 3) / 2
        } else if target == 6 || target == 8 {
            sat_mul(a, 6) / 5
        } else {
            a
        };
        less_commission(amount, t)
    }
}

/// YES (place) bet return with a 1% commission on winnings.
pub fn calculate_yes_payout(target: u8, amount: u64, hit: bool) -> (r: u64)
    ensures
        r == yes_return(target, amount, hit),
{
    if !hit {
        return 0;
    }
    let true_odds = match target {
        4 | 10 => saturating_mul_u64(amount, 2),
        5 | 9 => saturating_mul_u64(amount, 3) / 2,
        6 | 8 => saturating_mul_u64(amount, 6) / 5,
        _ => amount,
    };
    let commission = true_odds / 100;
    let winnings = true_odds.saturating_sub(commission);
    amount.saturating_add(winnings)
}

/// No (lay) return: stake plus laid-odds winnings less 1%.
pub open spec fn no_return(target: u8, amount: u64, seven_hit: bool) -> int {
    let a = amount as int;
    if !seven_hit {
        0
    } else {
        let t = if target == 4 || target == 10 {
            a / 2
        } else if target == 5 || target == 9 {
            sat_mul(a, 2) / 3
        } else if target == 6 || target == 8 {
            sat_mul(a, 5) / 6
        } else {
            a
        };
        less_commission(amount, t)
    }
}

/// NO (lay) bet return with a 1% commission on winnings.
pub fn calculate_no_payout(target: u8, amount: u64, seven_hit: bool) -> (r: u64)
    ensures
        r == no_return(target, amount, seven_hit),
{
    if !seven_hit {
        return 0;
    }
    let true_odds = match target {
        4 | 10 => amount / 2,
        5 | 9 => saturating_mul_u64(amount, 2) / 3,
        6 | 8 => saturating_mul_u64(amount, 5) / 6,
        _ => amount,
    };
    let commission = true_odds / 100;
    let winnings = true_odds.saturating_sub(commission);
    amount.saturating_add(winnings)
}

/// 5% commission on a buy bet, rounded up.
pub open spec fn buy_commission(amount: u64) -> int {
    sat_add(sat_mul(amount as int, 500), 9999) / 10000
}

/// Buy commission: 5% of the bet, rounded up to the nearest chip.
pub fn calculate_buy_commission(amount: u64) -> (c: u64)
    ensures
        c == buy_commission(amount),
{
    saturating_mul_u64(amount, BUY_COMMISSION_BPS).saturating_add(BUY_COMMISSION_DENOM - 1)
        / BUY_COMMISSION_DENOM
}

/// Buy return: stake plus fair-odds winnings (commission charged separately).
pub open spec fn buy_return(target: u8, amount: u64, hit: bool) -> int {
    let a = amount as int;
    if !hit {
        0
    } else {
        let w = if target == 4 || target == 10 {
            sat_mul(a, 2)
        } else if target == 5 || target == 9 {
            sat_mul(a, 3) / 2
        } else if target == 6 || target == 8 {
            sat_mul(a, 6) / 5
        } else {
            0
        };
        sat_add(a, w)
    }
}

/// BUY bet return (stake + winnings).
pub fn calculate_buy_payout(target: u8, amount: u64, hit: bool) -> (r: u64)
    ensures
        r == buy_return(target, amount, hit),
{
    if !hit {
        return 0;
    }
    let winnings = match target {
        4 | 10 => saturating_mul_u64(amount, 2),
        5 | 9 => saturating_mul_u64(amount, 3) / 2,
        6 | 8 => saturating_mul_u64(amount, 6) / 5,
        _ => 0,
    };
    amount.saturating_add(winnings)
}

/// Number of ways two dice make a total (0 outside 2-12).
pub open spec fn ways_of(total: u8) -> u8 {
    if 2 <= total <= 7 {
        (total - 1) as u8
    } else if 8 <= total <= 12 {
        (13 - total) as u8
    } else {
        0
    }
}

/// Number of ways to roll each total with two dice (totals 0-12).
pub fn ways(total: u8) -> (w: u8)
    requires
        total <= 12,
    ensures
        w == ways_of(total),
{
    match total {
        2 | 12 => 1,
        3 | 11 => 2,
        4 | 10 => 3,
        5 | 9 => 4,
        6 | 8 => 5,
        7 => 6,
        _ => 0,
    }
}

/// Next (hop) return: stake plus winnings at odds by the number of ways, less 1%.
pub open spec fn next_return(target: u8, total: u8, amount: u64) -> int {
    if total != target {
        0
    } else {
        let w = ways_of(target);
        let m: int = if w == 1 {
            35
        } else if w == 2 {
            17
        } else if w == 3 {
            11
        } else if w == 4 {
            8
        } else if w == 5 {
            6
        } else if w == 6 {
            5
        } else {
            1
        };
        less_commission(amount, sat_mul(amount as int, m))
    }
}

/// NEXT bet return with a 1% commission on winnings; the ways table covers
/// totals up to 12.
pub fn calculate_next_payout(target: u8, total: u8, amount: u64) -> (r: u64)
    requires
        total == target ==> target <= 12,
    ensures
        r == next_return(target, total, amount),
{
    if total != target {
        return 0;
    }
    let w = ways(target);
    let multiplier: u64 = match w {
        1 => 35,
        2 => 17,
        3 => 11,
        4 => 8,
        5 => 6,
        6 => 5,
        _ => 1,
    };
    let winnings = saturating_mul_u64(amount, multiplier);
    let commission = winnings / 100;
    let winnings = winnings.saturating_sub(commission);
    amount.saturating_add(winnings)
}

/// ATS progress bit of a total (none for 7 and impossible totals).
pub open spec fn ats_bit_of(total: u8) -> u64 {
    if total == 2 {
        1
    } else if total == 3 {
        2
    } else if total == 4 {
        4
    } else if total == 5 {
        8
    } else if total == 6 {
        16
    } else if total == 8 {
        32
    } else if total == 9 {
        64
    } else if total == 10 {
        128
    } else if total == 11 {
        256
    } else if total == 12 {
        512
    } else {
        0
    }
}

/// ATS progress bit of a total.
pub fn ats_bit_for_total(total: u8) -> (b: u64)
    ensures
        b == ats_bit_of(total),
{
    match total {
        2 => 1,
        3 => 2,
        4 => 4,
        5 => 8,
        6 => 16,
        8 => 32,
        9 => 64,
        10 => 128,
        11 => 256,
        12 => 512,
        _ => 0,
    }
}

/// Whether a bet is one of the All Tall Small bets.
pub open spec fn is_ats(t: BetType) -> bool {
    t == BetType::AtsSmall || t == BetType::AtsTall || t == BetType::AtsAll
}

/// Bits an ATS bet needs.
pub open spec fn ats_mask_of(t: BetType) -> u64 {
    match t {
        BetType::AtsSmall => ATS_SMALL_MASK,
        BetType::AtsTall => ATS_TALL_MASK,
        BetType::AtsAll => ATS_ALL_MASK,
        _ => 0,
    }
}

/// "To 1" payout of an ATS bet.
pub open spec fn ats_pay_of(t: BetType) -> u64 {
    match t {
        BetType::AtsSmall => ATS_SMALL_PAYOUT_TO_1,
        BetType::AtsTall => ATS_TALL_PAYOUT_TO_1,
        BetType::AtsAll => ATS_ALL_PAYOUT_TO_1,
        _ => 0,
    }
}

/// Bits an ATS bet needs.
pub fn ats_required_mask(bet_type: BetType) -> (m: u64)
    ensures
        m == ats_mask_of(bet_type),
{
    match bet_type {
        BetType::AtsSmall => ATS_SMALL_MASK,
        BetType::AtsTall => ATS_TALL_MASK,
        BetType::AtsAll => ATS_ALL_MASK,
        _ => 0,
    }
}

/// "To 1" payout of an ATS bet.
pub fn ats_payout_to_1(bet_type: BetType) -> (p: u64)
    ensures
        p == ats_pay_of(bet_type),
{
    match bet_type {
        BetType::AtsSmall => ATS_SMALL_PAYOUT_TO_1,
        BetType::AtsTall => ATS_TALL_PAYOUT_TO_1,
        BetType::AtsAll => ATS_ALL_PAYOUT_TO_1,
        _ => 0,
    }
}

/// Twice a die, saturating at 255.
pub open spec fn double_die(d: u8) -> int {
    if d > 127 {
        255
    } else {
        2 * d
    }
}

/// Hardway outcome: the return when it resolves (0 when it loses), `None`
/// while it is still working.
pub open spec fn hardway_outcome(target: u8, d1: u8, d2: u8, total: u8, amount: u64) -> Option<int> {
    let is_hard = d1 == d2 && double_die(d1) == target;
    let a = amount as int;
    if is_hard {
        let w = if target == 4 || target == 10 {
            sat_mul(a, 7)
        } else if target == 6 || target == 8 {
            sat_mul(a, 9)
        } else {
            a
        };
        Some(sat_add(a, w))
    } else if total == target || total == 7 {
        Some(0)
    } else {
        None
    }
}

/// Hardway bet payout: `Some(return)` when resolved, `None` while working.
pub fn calculate_hardway_payout(target: u8, d1: u8, d2: u8, total: u8, amount: u64) -> (r: Option<u64>)
    ensures
        match hardway_outcome(target, d1, d2, total, amount) {
            Some(x) => r == Some(x as u64),
            None => r is None,
        },
{
    let doubled: u8 = if d1 > 127 {
        255
    } else {
        d1 * 2
    };
    let is_hard = d1 == d2 && doubled == target;
    let is_easy = !is_hard && total == target;
    let is_seven = total == 7;
    if is_hard {
        let winnings = match target {
            4 | 10 => saturating_mul_u64(amount, 7),
            6 | 8 => saturating_mul_u64(amount, 9),
            _ => amount,
        };
        Some(amount.saturating_add(winnings))
    } else if is_easy || is_seven {
        Some(0)
    } else {
        None
    }
}

/// Winnings less the 1% commission a yes, no or next bet gives up.
pub open spec fn after_commission(winnings: int) -> int {
    winnings - winnings / 100
}

/// Bets on a point number pay true odds, rounded down: a yes (place) or buy
/// bet wins its stake times the ways to roll a seven over the ways to roll
/// its number, a no (lay) bet the inverse; yes and no bets give up 1% of those
/// winnings (a buy bet pays its commission apart). Each returns its stake with
/// the winnings when it wins and nothing when it loses.
pub proof fn lemma_point_bets_pay_true_odds(target: u8, amount: u64)
    requires
        is_point_number(target),
        amount * 6 <= u64::MAX,
    ensures
        buy_return(target, amount, false) == 0,
        yes_return(target, amount, false) == 0,
        no_return(target, amount, false) == 0,
        buy_return(target, amount, true) == amount + (amount * dice_ways(7)) / dice_ways(
            target as int,
        ),
        yes_return(target, amount, true) == amount + after_commission(
            (amount * dice_ways(7)) / dice_ways(target as int),
        ),
        no_return(target, amount, true) == amount + after_commission(
            (amount * dice_ways(target as int)) / dice_ways(7),
        ),
        buy_return(target, amount, true) >= 2 * amount,
{
    let a = amount as int;
    assert(dice_ways(7) == 6);
    if target == 4 || target == 10 {
        assert(dice_ways(target as int) == 3);
        assert((a * 6) / 3 == a * 2) by (nonlinear_arith);
        assert((a * 3) / 6 == a / 2) by (nonlinear_arith)
            requires
                a >= 0,
        ;
    } else if target == 5 || target == 9 {
        assert(dice_ways(target as int) == 4);
        assert((a * 6) / 4 == (a * 3) / 2) by (nonlinear_arith)
            requires
                a >= 0,
        ;
        assert((a * 4) / 6 == (a * 2) / 3) by (nonlinear_arith)
            requires
                a >= 0,
        ;
        assert((a * 3) / 2 >= a) by (nonlinear_arith)
            requires
                a >= 0,
        ;
        assert((a * 2) / 3 <= a) by (nonlinear_arith)
            requires
                a >= 0,
        ;
    } else {
        assert(dice_ways(target as int) == 5);
        assert((a * 6) / 5 >= a) by (nonlinear_arith)
            requires
                a >= 0,
        ;
        assert((a * 6) / 5 <= a * 2) by (nonlinear_arith)
            requires
                a >= 0,
        ;
        assert((a * 5) / 6 <= a) by (nonlinear_arith)
            requires
                a >= 0,
        ;
    }
}

/// A next (hop) bet on a total pays fair odds for that total, rounded down
/// to whole multiples: (36 - ways) / ways to 1, where ways counts the ways two
/// dice make it (35 to 1 on 2 or 12 down to 5 to 1 on 7), less 1% of the
/// winnings, with the stake back; any other total returns nothing.
pub proof fn lemma_next_pays_fair_odds(target: u8, total: u8, amount: u64)
    requires
        2 <= target <= 12,
        amount * 36 <= u64::MAX,
    ensures
        total != target ==> next_return(target, total, amount) == 0,
        total == target ==> next_return(target, total, amount) == amount + after_commission(
            amount * ((36 - dice_ways(target as int)) / dice_ways(target as int)),
        ),
{
    let a = amount as int;
    let w = dice_ways(target as int);
    assert(ways_of(target) == w);
    assert(1 <= w <= 6);
    assert(0 <= a * ((36 - w) / w) <= a * 35) by (nonlinear_arith)
        requires
            1 <= w <= 6,
            a >= 0,
    ;
    if w == 1 {
        assert((36 - w) / w == 35) by (nonlinear_arith)
            requires
                w == 1,
        ;
    } else if w == 2 {
        assert((36 - w) / w == 17) by (nonlinear_arith)
            requires
                w == 2,
        ;
    } else if w == 3 {
        assert((36 - w) / w == 11) by (nonlinear_arith)
            requires
                w == 3,
        ;
    } else if w == 4 {
        assert((36 - w) / w == 8) by (nonlinear_arith)
            requires
                w == 4,
        ;
    } else if w == 5 {
        assert((36 - w) / w == 6) by (nonlinear_arith)
            requires
                w == 5,
        ;
    } else {
        assert((36 - w) / w == 5) by (nonlinear_arith)
            requires
                w == 6,
        ;
    }
}

/// A hardway bet wins when its number comes up as a pair: 7 to 1 on hard 4
/// or 10, 9 to 1 on hard 6 or 8, with the stake back. Rolled the easy way, or
/// on a seven, it loses (returns nothing); on any other roll it keeps working.
pub proof fn lemma_hardway_pays(target: u8, d1: u8, d2: u8, amount: u64)
    requires
        target == 4 || target == 6 || target == 8 || target == 10,
        1 <= d1 <= 6,
        1 <= d2 <= 6,
        amount * 10 <= u64::MAX,
    ensures
        d1 == d2 && d1 + d2 == target && (target == 4 || target == 10) ==> hardway_outcome(
            target,
            d1,
            d2,
            (d1 + d2) as u8,
            amount,
        ) == Some(amount * 8),
        d1 == d2 && d1 + d2 == target && (target == 6 || target == 8) ==> hardway_outcome(
            target,
            d1,
            d2,
            (d1 + d2) as u8,
            amount,
        ) == Some(amount * 10),
        d1 != d2 && d1 + d2 == target ==> hardway_outcome(target, d1, d2, (d1 + d2) as u8, amount)
            == Some(0int),
        d1 + d2 == 7 ==> hardway_outcome(target, d1, d2, (d1 + d2) as u8, amount) == Some(0int),
        d1 + d2 != target && d1 + d2 != 7 ==> hardway_outcome(
            target,
            d1,
            d2,
            (d1 + d2) as u8,
            amount,
        ) is None,
{
}

/// The field wins on 2, 3, 4, 9, 10, 11 and 12 and loses on 5 to 8: even
/// money on 3, 4, 9, 10 and 11, double on 2, and on 12 double or triple as
/// the paytable says, each with the stake back.
pub proof fn lemma_field_pays(total: u8, amount: u64, paytable: FieldPaytable)
    requires
        amount * 4 <= u64::MAX,
    ensures
        5 <= total <= 8 ==> field_return(total, amount, paytable) == 0,
        total == 3 || total == 4 || total == 9 || total == 10 || total == 11 ==> field_return(
            total,
            amount,
            paytable,
        ) == 2 * amount,
        total == 2 ==> field_return(total, amount, paytable) == 3 * amount,
        total == 12 && paytable == FieldPaytable::Double2And12 ==> field_return(
            total,
            amount,
            paytable,
        ) == 3 * amount,
        total == 12 && paytable == FieldPaytable::Double2Triple12 ==> field_return(
            total,
            amount,
            paytable,
        ) == 4 * amount,
{
}

/// All Tall Small: the small bet needs every total from 2 to 6, the tall bet
/// every total from 8 to 12 and the all bet both (a seven marks nothing);
/// small and tall pay 34 to 1 and all 175 to 1, with the stake back, once
/// every total of the range has been rolled.
pub proof fn lemma_ats_ranges(b: CrapsBet, i: int)
    requires
        is_ats(b.bet_type),
        b.amount * 176 <= u64::MAX,
    ensures
        ats_mask_of(BetType::AtsSmall) == ats_bit_of(2) | ats_bit_of(3) | ats_bit_of(4) | ats_bit_of(5)
            | ats_bit_of(6),
        ats_mask_of(BetType::AtsTall) == ats_bit_of(8) | ats_bit_of(9) | ats_bit_of(10) | ats_bit_of(11)
            | ats_bit_of(12),
        ats_mask_of(BetType::AtsAll) == ats_mask_of(BetType::AtsSmall) | ats_mask_of(BetType::AtsTall),
        ats_bit_of(7) == 0,
        ats_pay_of(BetType::AtsSmall) == 34 && ats_pay_of(BetType::AtsTall) == 34 && ats_pay_of(
            BetType::AtsAll,
        ) == 175,
        ats_item(b, i) == if (b.odds_amount & ats_mask_of(b.bet_type)) == ats_mask_of(b.bet_type) {
            Some(resolved(i, b.amount * (ats_pay_of(b.bet_type) + 1), b.amount as int))
        } else {
            None
        },
{
    assert(1u64 | 2u64 | 4u64 | 8u64 | 16u64 == 0x1fu64) by (bit_vector);
    assert(32u64 | 64u64 | 128u64 | 256u64 | 512u64 == 0x3e0u64) by (bit_vector);
    assert(0x1fu64 | 0x3e0u64 == 0x3ffu64) by (bit_vector);
    let a = b.amount as int;
    assert(0 <= a * 35 <= a * 176 && a * 176 <= a * 176) by (nonlinear_arith)
        requires
            a >= 0,
    ;
}

/// A fire bet pays 24 to 1 for four different points made, 249 to 1 for
/// five and 999 to 1 for all six, and nothing for fewer.
pub proof fn lemma_fire_paytable(made: u8)
    ensures
        made < 4 ==> fire_mult_of(made) == 0,
        fire_mult_of(4) == 24 && fire_mult_of(5) == 249 && fire_mult_of(6) == 999,
{
}

/// Fire bet bit of a point (4, 5, 6, 8, 9, 10).
pub open spec fn fire_bit_of(point: u8) -> Option<u8> {
    if point == 4 {
        Some(0)
    } else if point == 5 {
        Some(1)
    } else if point == 6 {
        Some(2)
    } else if point == 8 {
        Some(3)
    } else if point == 9 {
        Some(4)
    } else if point == 10 {
        Some(5)
    } else {
        None
    }
}

/// Fire bet bit of a point.
pub fn point_to_fire_bit(point: u8) -> (b: Option<u8>)
    ensures
        b == fire_bit_of(point),
{
    match point {
        4 => Some(0),
        5 => Some(1),
        6 => Some(2),
        8 => Some(3),
        9 => Some(4),
        10 => Some(5),
        _ => None,
    }
}

/// Fire bet pay table A ("to 1") by points made: 4 pays 24, 5 pays 249, 6 pays 999.
pub open spec fn fire_mult_of(points_made: u8) -> u64 {
    if points_made == 4 {
        24
    } else if points_made == 5 {
        249
    } else if points_made == 6 {
        999
    } else {
        0
    }
}

/// Fire bet multiplier ("to 1").
pub fn fire_bet_multiplier(points_made: u8) -> (m: u64)
    ensures
        m == fire_mult_of(points_made),
{
    match points_made {
        4 => 24,
        5 => 249,
        6 => 999,
        _ => 0,
    }
}

/// Number of set bits of a byte.
pub open spec fn popcount(x: u8) -> int {
    (x & 1u8) as int + ((x >> 1u8) & 1u8) as int + ((x >> 2u8) & 1u8) as int + ((x >> 3u8) & 1u8) as int
        + ((x >> 4u8) & 1u8) as int + ((x >> 5u8) & 1u8) as int + ((x >> 6u8) & 1u8) as int + ((x
        >> 7u8) & 1u8) as int
}

/// Number of set bits of a byte.
fn count_ones(x: u8) -> (c: u8)
    ensures
        c == popcount(x),
{
    let b0 = x & 1;
    let b1 = (x >> 1) & 1;
    let b2 = (x >> 2) & 1;
    let b3 = (x >> 3) & 1;
    let b4 = (x >> 4) & 1;
    let b5 = (x >> 5) & 1;
    let b6 = (x >> 6) & 1;
    let b7 = (x >> 7) & 1;
    assert(b0 <= 1 && b1 <= 1 && b2 <= 1 && b3 <= 1 && b4 <= 1 && b5 <= 1 && b6 <= 1 && b7 <= 1)
        by (bit_vector)
        requires
            b0 == x & 1,
            b1 == (x >> 1) & 1,
            b2 == (x >> 2) & 1,
            b3 == (x >> 3) & 1,
            b4 == (x >> 4) & 1,
            b5 == (x >> 5) & 1,
            b6 == (x >> 6) & 1,
            b7 == (x >> 7) & 1,
    ;
    b0 + b1 + b2 + b3 + b4 + b5 + b6 + b7
}

// ============================================================================
// Roll processing
// ============================================================================

/// A resolved result for bet `i`.
pub open spec fn resolved(i: int, ret: int, wagered: int) -> BetResult {
    BetResult { bet_idx: i as usize, return_amount: ret as u64, wagered: wagered as u64, resolved: true }
}

/// Single-roll bets: Field and Next always resolve.
pub open spec fn single_item(b: CrapsBet, i: int, total: u8, pt: FieldPaytable) -> Option<BetResult> {
    if b.bet_type == BetType::Field {
        Some(resolved(i, field_return(total, b.amount, pt), b.amount as int))
    } else if b.bet_type == BetType::Next {
        Some(resolved(i, next_return(b.target, total, b.amount), b.amount as int))
    } else {
        None
    }
}

/// Number a hardway bet needs.
pub open spec fn hardway_target(t: BetType) -> Option<u8> {
    match t {
        BetType::Hardway4 => Some(4u8),
        BetType::Hardway6 => Some(6u8),
        BetType::Hardway8 => Some(8u8),
        BetType::Hardway10 => Some(10u8),
        _ => None,
    }
}

/// Hardway bets resolve on the hard number, the easy number or a seven.
pub open spec fn hard_item(b: CrapsBet, i: int, d1: u8, d2: u8, total: u8) -> Option<BetResult> {
    match hardway_target(b.bet_type) {
        Some(t) => match hardway_outcome(t, d1, d2, total, b.amount) {
            Some(ret) => Some(resolved(i, ret, b.amount as int)),
            None => None,
        },
        None => None,
    }
}

/// Working Yes/No/Buy bets resolve on their number or a seven.
pub open spec fn work_item(b: CrapsBet, i: int, total: u8, timing: BuyCommissionTiming) -> Option<
    BetResult,
> {
    let a = b.amount as int;
    if b.status != BetStatus::On {
        None
    } else {
        match b.bet_type {
            BetType::Yes => if total == b.target {
                Some(resolved(i, yes_return(b.target, b.amount, true), a))
            } else if total == 7 {
                Some(resolved(i, 0, a))
            } else {
                None
            },
            BetType::No => if total == 7 {
                Some(resolved(i, no_return(b.target, b.amount, true), a))
            } else if total == b.target {
                Some(resolved(i, 0, a))
            } else {
                None
            },
            BetType::Buy => {
                let comm = buy_commission(b.amount);
                let wagered = match timing {
                    BuyCommissionTiming::AtPlacement => sat_add(a, comm),
                    BuyCommissionTiming::OnWin => a,
                };
                if total == b.target {
                    let ret = match timing {
                        BuyCommissionTiming::AtPlacement => buy_return(b.target, b.amount, true),
                        BuyCommissionTiming::OnWin => sat_sub(
                            buy_return(b.target, b.amount, true),
                            comm,
                        ),
                    };
                    Some(resolved(i, ret, wagered))
                } else if total == 7 {
                    Some(resolved(i, 0, wagered))
                } else {
                    None
                }
            },
            _ => None,
        }
    }
}

/// An ATS bet with the progress bit of the roll recorded.
pub open spec fn ats_marked(b: CrapsBet, bit: u64) -> CrapsBet {
    if is_ats(b.bet_type) {
        CrapsBet { odds_amount: b.odds_amount | bit, ..b }
    } else {
        b
    }
}

/// An ATS bet (already marked) resolves once all its bits are made.
pub open spec fn ats_item(b: CrapsBet, i: int) -> Option<BetResult> {
    let req = ats_mask_of(b.bet_type);
    if is_ats(b.bet_type) && req != 0 && (b.odds_amount & req) == req {
        Some(resolved(i, sat_mul(b.amount as int, ats_pay_of(b.bet_type) + 1), b.amount as int))
    } else {
        None
    }
}

/// A pending Come/Don't Come bet travels to the rolled number when it does not resolve.
pub open spec fn come_moved(b: CrapsBet, total: u8) -> CrapsBet {
    if b.status == BetStatus::Pending && ((b.bet_type == BetType::Come && !(total == 7 || total == 11
        || total == 2 || total == 3 || total == 12)) || (b.bet_type == BetType::DontCome && !(total
        == 2 || total == 3 || total == 12 || total == 7 || total == 11))) {
        CrapsBet { target: total, status: BetStatus::On, ..b }
    } else {
        b
    }
}

/// Come/Don't Come bets: pending ones act like a come-out roll, working ones
/// like a point.
pub open spec fn come_item(b: CrapsBet, i: int, total: u8) -> Option<BetResult> {
    let a = b.amount as int;
    let both = sat_add(a, b.odds_amount as int);
    if b.bet_type == BetType::Come {
        if b.status == BetStatus::Pending {
            if total == 7 || total == 11 {
                Some(resolved(i, sat_mul(a, 2), a))
            } else if total == 2 || total == 3 || total == 12 {
                Some(resolved(i, 0, a))
            } else {
                None
            }
        } else if total == b.target {
            Some(
                resolved(
                    i,
                    sat_add(
                        sat_add(sat_mul(a, 2), b.odds_amount as int),
                        odds_win(b.target, b.odds_amount, true),
                    ),
                    both,
                ),
            )
        } else if total == 7 {
            Some(resolved(i, 0, both))
        } else {
            None
        }
    } else if b.bet_type == BetType::DontCome {
        if b.status == BetStatus::Pending {
            if total == 2 || total == 3 {
                Some(resolved(i, sat_mul(a, 2), a))
            } else if total == 12 {
                Some(resolved(i, a, a))
            } else if total == 7 || total == 11 {
                Some(resolved(i, 0, a))
            } else {
                None
            }
        } else if total == 7 {
            Some(
                resolved(
                    i,
                    sat_add(
                        sat_add(sat_mul(a, 2), b.odds_amount as int),
                        odds_win(b.target, b.odds_amount, false),
                    ),
                    both,
                ),
            )
        } else if total == b.target {
            Some(resolved(i, 0, both))
        } else {
            None
        }
    } else {
        None
    }
}

/// Pass/Don't Pass bets against the phase and main point before the roll.
pub open spec fn pass_item(b: CrapsBet, i: int, phase: Phase, main_point: u8, total: u8) -> Option<
    BetResult,
> {
    let a = b.amount as int;
    let both = sat_add(a, b.odds_amount as int);
    if b.bet_type == BetType::Pass {
        if phase == Phase::ComeOut {
            if total == 7 || total == 11 {
                Some(resolved(i, sat_mul(a, 2), a))
            } else if total == 2 || total == 3 || total == 12 {
                Some(resolved(i, 0, a))
            } else {
                None
            }
        } else if total == main_point {
            Some(resolved(i, pass_return(b, true, true), both))
        } else if total == 7 {
            Some(resolved(i, 0, both))
        } else {
            None
        }
    } else if b.bet_type == BetType::DontPass {
        if phase == Phase::ComeOut {
            if total == 7 || total == 11 {
                Some(resolved(i, 0, a))
            } else if total == 2 || total == 3 {
                Some(resolved(i, sat_mul(a, 2), a))
            } else if total == 12 {
                Some(resolved(i, a, a))
            } else {
                None
            }
        } else if total == 7 {
            Some(resolved(i, pass_return(b, true, false), both))
        } else if total == main_point {
            Some(resolved(i, 0, both))
        } else {
            None
        }
    } else {
        None
    }
}

/// Fire bets resolve on a seven-out, paying by the points made.
pub open spec fn fire_item(b: CrapsBet, i: int, mask: u8) -> Option<BetResult> {
    if b.bet_type == BetType::Fire {
        let m = fire_mult_of(popcount(mask) as u8);
        Some(resolved(i, if m == 0 {
            0
        } else {
            sat_mul(b.amount as int, m + 1)
        }, b.amount as int))
    } else {
        None
    }
}

/// ATS bets still open lose on a seven-out.
pub open spec fn ats_lost_item(b: CrapsBet, i: int) -> Option<BetResult> {
    if is_ats(b.bet_type) {
        Some(resolved(i, 0, b.amount as int))
    } else {
        None
    }
}

/// Which per-bet rule a pass over the bets applies.
pub enum RollStep {
    Single(u8, FieldPaytable),
    Hard(u8, u8, u8),
    Work(u8, BuyCommissionTiming),
    Ats,
    Come(u8),
    Pass(Phase, u8, u8),
    Fire(u8),
    AtsLost,
}

/// The result, if any, of one bet under a rule.
pub open spec fn step_item(step: RollStep, b: CrapsBet, i: int) -> Option<BetResult> {
    match step {
        RollStep::Single(total, pt) => single_item(b, i, total, pt),
        RollStep::Hard(d1, d2, total) => hard_item(b, i, d1, d2, total),
        RollStep::Work(total, timing) => work_item(b, i, total, timing),
        RollStep::Ats => ats_item(b, i),
        RollStep::Come(total) => come_item(b, i, total),
        RollStep::Pass(phase, mp, total) => pass_item(b, i, phase, mp, total),
        RollStep::Fire(mask) => fire_item(b, i, mask),
        RollStep::AtsLost => ats_lost_item(b, i),
    }
}

/// The results of a rule over the first `n` bets, in order.
pub open spec fn step_results(step: RollStep, bets: Seq<CrapsBet>, n: nat) -> Seq<BetResult>
    decreases n,
{
    if n == 0 {
        Seq::empty()
    } else {
        let prev = step_results(step, bets, (n - 1) as nat);
        match step_item(step, bets[n - 1], n - 1) {
            Some(r) => prev.push(r),
            None => prev,
        }
    }
}

/// The results of a rule over all the bets.
pub open spec fn all_results(step: RollStep, bets: Seq<CrapsBet>) -> Seq<BetResult> {
    step_results(step, bets, bets.len())
}

/// Phase changes a roll causes.
#[derive(Clone, Copy, Debug, PartialEq, Eq, Structural)]
pub enum PhaseEvent {
    NoChange,
    PointEstablished(u8),
    PointMade(u8),
    SevenOut,
}

/// The phase, main point and epoch flag after a roll, and the event.
pub open spec fn phase_after(phase: Phase, main_point: u8, epoch: bool, total: u8) -> (
    Phase,
    u8,
    bool,
    PhaseEvent,
) {
    match phase {
        Phase::ComeOut => if !(total == 2 || total == 3 || total == 7 || total == 11 || total
            == 12) {
            (Phase::Point, total, true, PhaseEvent::PointEstablished(total))
        } else {
            (phase, main_point, epoch, PhaseEvent::NoChange)
        },
        Phase::Point => if total == main_point {
            (Phase::ComeOut, 0, epoch, PhaseEvent::PointMade(main_point))
        } else if total == 7 {
            (Phase::ComeOut, 0, false, PhaseEvent::SevenOut)
        } else {
            (phase, main_point, epoch, PhaseEvent::NoChange)
        },
    }
}

/// The line bets. On the come-out roll a pass bet wins even money on 7 or 11
/// and loses on 2, 3 or 12, and a don't pass bet does the opposite but for
/// 12, on which it pushes (its stake comes back); any other total sets the
/// point and both keep working. Once a point is on, the point wins for pass
/// and loses for don't pass, a seven does the opposite and ends the point,
/// and other totals leave both working.
pub proof fn lemma_line_bets(b: CrapsBet, i: int, point: u8, epoch: bool, total: u8)
    requires
        0 <= i <= usize::MAX,
        b.amount * 2 <= u64::MAX,
        is_point_number(point),
    ensures
        ({
            let pass = CrapsBet { bet_type: BetType::Pass, ..b };
            let dont = CrapsBet { bet_type: BetType::DontPass, ..b };
            let a = b.amount as int;
            let both = sat_add(a, b.odds_amount as int);
            &&& (total == 7 || total == 11) ==> pass_item(pass, i, Phase::ComeOut, point, total)
                == Some(resolved(i, 2 * a, a)) && pass_item(dont, i, Phase::ComeOut, point, total)
                == Some(resolved(i, 0, a))
            &&& (total == 2 || total == 3) ==> pass_item(pass, i, Phase::ComeOut, point, total)
                == Some(resolved(i, 0, a)) && pass_item(dont, i, Phase::ComeOut, point, total)
                == Some(resolved(i, 2 * a, a))
            &&& total == 12 ==> pass_item(pass, i, Phase::ComeOut, point, total) == Some(
                resolved(i, 0, a),
            ) && pass_item(dont, i, Phase::ComeOut, point, total) == Some(resolved(i, a, a))
            &&& is_point_number(total) ==> pass_item(pass, i, Phase::ComeOut, point, total) is None
                && pass_item(dont, i, Phase::ComeOut, point, total) is None && phase_after(
                Phase::ComeOut,
                0,
                epoch,
                total,
            ) == (Phase::Point, total, true, PhaseEvent::PointEstablished(total))
            &&& total == point ==> pass_item(pass, i, Phase::Point, point, total) == Some(
                resolved(i, pass_return(pass, true, true), both),
            ) && pass_item(dont, i, Phase::Point, point, total) == Some(resolved(i, 0, both))
                && phase_after(Phase::Point, point, epoch, total) == (
                Phase::ComeOut,
                0u8,
                epoch,
                PhaseEvent::PointMade(point),
            )
            &&& total == 7 ==> pass_item(pass, i, Phase::Point, point, total) == Some(
                resolved(i, 0, both),
            ) && pass_item(dont, i, Phase::Point, point, total) == Some(
                resolved(i, pass_return(dont, true, false), both),
            ) && phase_after(Phase::Point, point, epoch, total) == (
                Phase::ComeOut,
                0u8,
                false,
                PhaseEvent::SevenOut,
            )
            &&& total != point && total != 7 ==> pass_item(pass, i, Phase::Point, point, total) is None
                && pass_item(dont, i, Phase::Point, point, total) is None
        }),
{
}

/// Working pass/don't pass bets take the new point as their target.
pub open spec fn point_set(b: CrapsBet, point: u8) -> CrapsBet {
    if (b.bet_type == BetType::Pass || b.bet_type == BetType::DontPass) && b.status == BetStatus::On {
        CrapsBet { target: point, ..b }
    } else {
        b
    }
}

/// Sum of two dice as `u8::saturating_add` computes it.
pub open spec fn dice_total(d1: u8, d2: u8) -> u8 {
    if d1 + d2 > 255 {
        255
    } else {
        (d1 + d2) as u8
    }
}

/// Everything a roll does: the results in the order they are produced, the
/// header after it and the bets after it.
pub open spec fn roll_outcome(h: CrapsHeader, bets: Seq<CrapsBet>, d1: u8, d2: u8) -> (
    Seq<BetResult>,
    CrapsHeader,
    Seq<CrapsBet>,
) {
    let total = dice_total(d1, d2);
    let r1 = all_results(RollStep::Single(total, h.field_paytable), bets);
    let r2 = all_results(RollStep::Hard(d1, d2, total), bets);
    let r3 = all_results(RollStep::Work(total, h.buy_commission_timing), bets);
    let bit = ats_bit_of(total);
    let bets1 = if bit != 0 {
        bets.map_values(|b: CrapsBet| ats_marked(b, bit))
    } else {
        bets
    };
    let r4 = if bit != 0 {
        all_results(RollStep::Ats, bets1)
    } else {
        Seq::empty()
    };
    let r5 = all_results(RollStep::Come(total), bets1);
    let bets2 = bets1.map_values(|b: CrapsBet| come_moved(b, total));
    let r6 = all_results(RollStep::Pass(h.phase, h.main_point, total), bets2);
    let ph = phase_after(h.phase, h.main_point, h.epoch_point_established, total);
    let bets3 = match ph.3 {
        PhaseEvent::PointEstablished(p) => bets2.map_values(|b: CrapsBet| point_set(b, p)),
        _ => bets2,
    };
    let mask = match ph.3 {
        PhaseEvent::PointMade(p) => match fire_bit_of(p) {
            Some(bit) => h.made_points_mask | (1u8 << bit),
            None => h.made_points_mask,
        },
        _ => h.made_points_mask,
    };
    let r7 = if ph.3 == PhaseEvent::SevenOut {
        all_results(RollStep::Fire(mask), bets3) + all_results(RollStep::AtsLost, bets3)
    } else {
        Seq::empty()
    };
    (
        r1 + r2 + r3 + r4 + r5 + r6 + r7,
        CrapsHeader {
            phase: ph.0,
            main_point: ph.1,
            epoch_point_established: ph.2,
            made_points_mask: mask,
            ..h
        },
        bets3,
    )
}

/// No Next bet names a total beyond the ways table that the roll makes.
pub open spec fn next_targets_ok(bets: Seq<CrapsBet>, total: u8) -> bool {
    forall|i: int|
        0 <= i < bets.len() && (#[trigger] bets[i]).bet_type == BetType::Next && bets[i].target
            == total ==> bets[i].target <= 12
}

/// The result of one bet under a rule.
fn step_item_exec(step: &RollStep, b: &CrapsBet, i: usize) -> (r: Option<BetResult>)
    requires
        step matches RollStep::Single(total, _) ==> (b.bet_type == BetType::Next && b.target
            == total ==> b.target <= 12),
    ensures
        r == step_item(*step, *b, i as int),
{
    let a = b.amount;
    match step {
        RollStep::Single(total, pt) => {
            let total = *total;
            if b.bet_type == BetType::Field {
                Some(BetResult { bet_idx: i, return_amount: calculate_field_payout(total, a, *pt), wagered: a, resolved: true })
            } else if b.bet_type == BetType::Next {
                Some(BetResult { bet_idx: i, return_amount: calculate_next_payout(b.target, total, a), wagered: a, resolved: true })
            } else {
                None
            }
        },
        RollStep::Hard(d1, d2, total) => {
            let target: u8 = match b.bet_type {
                BetType::Hardway4 => 4,
                BetType::Hardway6 => 6,
                BetType::Hardway8 => 8,
                BetType::Hardway10 => 10,
                _ => return None,
            };
            match calculate_hardway_payout(target, *d1, *d2, *total, a) {
                Some(p) => Some(BetResult { bet_idx: i, return_amount: p, wagered: a, resolved: true }),
                None => None,
            }
        },
        RollStep::Work(total, timing) => {
            let total = *total;
            if b.status != BetStatus::On {
                return None;
            }
            match b.bet_type {
                BetType::Yes => {
                    if total == b.target {
                        Some(BetResult { bet_idx: i, return_amount: calculate_yes_payout(b.target, a, true), wagered: a, resolved: true })
                    } else if total == 7 {
                        Some(BetResult { bet_idx: i, return_amount: calculate_yes_payout(b.target, a, false), wagered: a, resolved: true })
                    } else {
                        None
                    }
                },
                BetType::No => {
                    if total == 7 {
                        Some(BetResult { bet_idx: i, return_amount: calculate_no_payout(b.target, a, true), wagered: a, resolved: true })
                    } else if total == b.target {
                        Some(BetResult { bet_idx: i, return_amount: calculate_no_payout(b.target, a, false), wagered: a, resolved: true })
                    } else {
                        None
                    }
                },
                BetType::Buy => {
                    let commission = calculate_buy_commission(a);
                    let wagered = match timing {
                        BuyCommissionTiming::AtPlacement => a.saturating_add(commission),
                        BuyCommissionTiming::OnWin => a,
                    };
                    if total == b.target {
                        let return_amount = match timing {
                            BuyCommissionTiming::AtPlacement => calculate_buy_payout(b.target, a, true),
                            BuyCommissionTiming::OnWin => calculate_buy_payout(b.target, a, true).saturating_sub(commission),
                        };
                        Some(BetResult { bet_idx: i, return_amount, wagered, resolved: true })
                    } else if total == 7 {
                        Some(BetResult { bet_idx: i, return_amount: 0, wagered, resolved: true })
                    } else {
                        None
                    }
                },
                _ => None,
            }
        },
        RollStep::Ats => {
            if !(b.bet_type == BetType::AtsSmall || b.bet_type == BetType::AtsTall || b.bet_type == BetType::AtsAll) {
                return None;
            }
            let required = ats_required_mask(b.bet_type);
            if required != 0 && (b.odds_amount & required) == required {
                let mult = ats_payout_to_1(b.bet_type);
                Some(BetResult { bet_idx: i, return_amount: saturating_mul_u64(a, mult + 1), wagered: a, resolved: true })
            } else {
                None
            }
        },
        RollStep::Come(total) => {
            let total = *total;
            if b.bet_type == BetType::Come {
                if b.status == BetStatus::Pending {
                    if total == 7 || total == 11 {
                        Some(BetResult { bet_idx: i, return_amount: saturating_mul_u64(a, 2), wagered: a, resolved: true })
                    } else if total == 2 || total == 3 || total == 12 {
                        Some(BetResult { bet_idx: i, return_amount: 0, wagered: a, resolved: true })
                    } else {
                        None
                    }
                } else if total == b.target {
                    let odds_payout = calculate_odds_payout(b.target, b.odds_amount, true);
                    let total_payout = saturating_mul_u64(a, 2).saturating_add(b.odds_amount).saturating_add(odds_payout);
                    Some(BetResult { bet_idx: i, return_amount: total_payout, wagered: a.saturating_add(b.odds_amount), resolved: true })
                } else if total == 7 {
                    Some(BetResult { bet_idx: i, return_amount: 0, wagered: a.saturating_add(b.odds_amount), resolved: true })
                } else {
                    None
                }
            } else if b.bet_type == BetType::DontCome {
                if b.status == BetStatus::Pending {
                    if total == 2 || total == 3 {
                        Some(BetResult { bet_idx: i, return_amount: saturating_mul_u64(a, 2), wagered: a, resolved: true })
                    } else if total == 12 {
                        Some(BetResult { bet_idx: i, return_amount: a, wagered: a, resolved: true })
                    } else if total == 7 || total == 11 {
                        Some(BetResult { bet_idx: i, return_amount: 0, wagered: a, resolved: true })
                    } else {
                        None
                    }
                } else if total == 7 {
                    let odds_payout = calculate_odds_payout(b.target, b.odds_amount, false);
                    let total_payout = saturating_mul_u64(a, 2).saturating_add(b.odds_amount).saturating_add(odds_payout);
                    Some(BetResult { bet_idx: i, return_amount: total_payout, wagered: a.saturating_add(b.odds_amount), resolved: true })
                } else if total == b.target {
                    Some(BetResult { bet_idx: i, return_amount: 0, wagered: a.saturating_add(b.odds_amount), resolved: true })
                } else {
                    None
                }
            } else {
                None
            }
        },
        RollStep::Pass(phase, main_point, total) => {
            let total = *total;
            if b.bet_type == BetType::Pass {
                if *phase == Phase::ComeOut {
                    if total == 7 || total == 11 {
                        Some(BetResult { bet_idx: i, return_amount: saturating_mul_u64(a, 2), wagered: a, resolved: true })
                    } else if total == 2 || total == 3 || total == 12 {
                        Some(BetResult { bet_idx: i, return_amount: 0, wagered: a, resolved: true })
                    } else {
                        None
                    }
                } else if total == *main_point {
                    Some(BetResult { bet_idx: i, return_amount: calculate_pass_return(b, true, true), wagered: a.saturating_add(b.odds_amount), resolved: true })
                } else if total == 7 {
                    Some(BetResult { bet_idx: i, return_amount: 0, wagered: a.saturating_add(b.odds_amount), resolved: true })
                } else {
                    None
                }
            } else if b.bet_type == BetType::DontPass {
                if *phase == Phase::ComeOut {
                    if total == 7 || total == 11 {
                        Some(BetResult { bet_idx: i, return_amount: 0, wagered: a, resolved: true })
                    } else if total == 2 || total == 3 {
                        Some(BetResult { bet_idx: i, return_amount: saturating_mul_u64(a, 2), wagered: a, resolved: true })
                    } else if total == 12 {
                        Some(BetResult { bet_idx: i, return_amount: a, wagered: a, resolved: true })
                    } else {
                        None
                    }
                } else if total == 7 {
                    Some(BetResult { bet_idx: i, return_amount: calculate_pass_return(b, true, false), wagered: a.saturating_add(b.odds_amount), resolved: true })
                } else if total == *main_point {
                    Some(BetResult { bet_idx: i, return_amount: 0, wagered: a.saturating_add(b.odds_amount), resolved: true })
                } else {
                    None
                }
            } else {
                None
            }
        },
        RollStep::Fire(mask) => {
            if b.bet_type != BetType::Fire {
                return None;
            }
            let points_made = count_ones(*mask);
            let mult = fire_bet_multiplier(points_made);
            let return_amount = if mult == 0 {
                0
            } else {
                saturating_mul_u64(a, mult + 1)
            };
            Some(BetResult { bet_idx: i, return_amount, wagered: a, resolved: true })
        },
        RollStep::AtsLost => {
            if b.bet_type == BetType::AtsSmall || b.bet_type == BetType::AtsTall || b.bet_type == BetType::AtsAll {
                Some(BetResult { bet_idx: i, return_amount: 0, wagered: a, resolved: true })
            } else {
                None
            }
        },
    }
}

/// Appends the results of a rule over all the bets.
fn run_step(step: &RollStep, bets: &[CrapsBet], results: &mut Vec<BetResult>)
    requires
        *step matches RollStep::Single(total, _) ==> next_targets_ok(bets@, total),
    ensures
        final(results)@ == old(results)@ + all_results(*step, bets@),
{
    let mut i: usize = 0;
    while i < bets.len()
        invariant
            i <= bets@.len(),
            *step matches RollStep::Single(total, _) ==> next_targets_ok(bets@, total),
            results@ == old(results)@ + step_results(*step, bets@, i as nat),
        decreases bets@.len() - i,
    {
        proof {
            if let RollStep::Single(total, _) = *step {
                assert(bets@[i as int].bet_type == BetType::Next && bets@[i as int].target == total
                    ==> bets@[i as int].target <= 12);
            }
        }
        match step_item_exec(step, &bets[i], i) {
            Some(r) => {
                results.push(r);
            },
            None => {},
        }
        proof {
            assert(results@ =~= old(results)@ + step_results(*step, bets@, (i + 1) as nat));
        }
        i += 1;
    }
}

/// Resolves the pass and don't pass bets of a roll, appending their results.
fn process_pass_bets(state: &CrapsState, total: u8, results: &mut Vec<BetResult>)
    ensures
        final(results)@ == old(results)@ + all_results(RollStep::Pass(state.phase, state.main_point, total), state.bets@),
{
    run_step(&RollStep::Pass(state.phase, state.main_point, total), state.bets.as_slice(), results);
}

/// Records the progress bit on every ATS bet.
fn mark_ats(bets: &mut Vec<CrapsBet>, bit: u64)
    ensures
        final(bets)@ == old(bets)@.map_values(|b: CrapsBet| ats_marked(b, bit)),
{
    let ghost orig = bets@;
    let mut i: usize = 0;
    while i < bets.len()
        invariant
            i <= bets@.len(),
            bets@.len() == orig.len(),
            orig == old(bets)@,
            forall|j: int| 0 <= j < i ==> bets@[j] == ats_marked(orig[j], bit),
            forall|j: int| i <= j < bets@.len() ==> bets@[j] == orig[j],
        decreases bets@.len() - i,
    {
        let mut b = bets[i];
        if b.bet_type == BetType::AtsSmall || b.bet_type == BetType::AtsTall || b.bet_type == BetType::AtsAll {
            b.odds_amount = b.odds_amount | bit;
        }
        bets.set(i, b);
        i += 1;
    }
    assert(bets@ =~= orig.map_values(|b: CrapsBet| ats_marked(b, bit)));
}

/// Moves pending Come/Don't Come bets that do not resolve to the rolled number.
fn move_come_bets(bets: &mut Vec<CrapsBet>, total: u8)
    ensures
        final(bets)@ == old(bets)@.map_values(|b: CrapsBet| come_moved(b, total)),
{
    let ghost orig = bets@;
    let mut i: usize = 0;
    while i < bets.len()
        invariant
            i <= bets@.len(),
            bets@.len() == orig.len(),
            orig == old(bets)@,
            forall|j: int| 0 <= j < i ==> bets@[j] == come_moved(orig[j], total),
            forall|j: int| i <= j < bets@.len() ==> bets@[j] == orig[j],
        decreases bets@.len() - i,
    {
        let mut b = bets[i];
        if b.status == BetStatus::Pending {
            if b.bet_type == BetType::Come {
                if !(total == 7 || total == 11 || total == 2 || total == 3 || total == 12) {
                    b.target = total;
                    b.status = BetStatus::On;
                }
            } else if b.bet_type == BetType::DontCome {
                if !(total == 2 || total == 3 || total == 12 || total == 7 || total == 11) {
                    b.target = total;
                    b.status = BetStatus::On;
                }
            }
        }
        bets.set(i, b);
        i += 1;
    }
    assert(bets@ =~= orig.map_values(|b: CrapsBet| come_moved(b, total)));
}

/// Gives working pass/don't pass bets the new point as their target.
fn set_point_targets(bets: &mut Vec<CrapsBet>, point: u8)
    ensures
        final(bets)@ == old(bets)@.map_values(|b: CrapsBet| point_set(b, point)),
{
    let ghost orig = bets@;
    let mut i: usize = 0;
    while i < bets.len()
        invariant
            i <= bets@.len(),
            bets@.len() == orig.len(),
            orig == old(bets)@,
            forall|j: int| 0 <= j < i ==> bets@[j] == point_set(orig[j], point),
            forall|j: int| i <= j < bets@.len() ==> bets@[j] == orig[j],
        decreases bets@.len() - i,
    {
        let mut b = bets[i];
        if (b.bet_type == BetType::Pass || b.bet_type == BetType::DontPass) && b.status == BetStatus::On {
            b.target = point;
        }
        bets.set(i, b);
        i += 1;
    }
    assert(bets@ =~= orig.map_values(|b: CrapsBet| point_set(b, point)));
}

/// Update phase and main point after a roll.
fn update_phase(state: &mut CrapsState, total: u8) -> (e: PhaseEvent)
    ensures
        ({
            let ph = phase_after(
                old(state).phase,
                old(state).main_point,
                old(state).epoch_point_established,
                total,
            );
            &&& final(state).phase == ph.0
            &&& final(state).main_point == ph.1
            &&& final(state).epoch_point_established == ph.2
            &&& e == ph.3
        }),
        final(state).bets == old(state).bets,
        final(state).d1 == old(state).d1,
        final(state).d2 == old(state).d2,
        final(state).made_points_mask == old(state).made_points_mask,
        final(state).field_paytable == old(state).field_paytable,
        final(state).buy_commission_timing == old(state).buy_commission_timing,
{
    match state.phase {
        Phase::ComeOut => {
            if !(total == 2 || total == 3 || total == 7 || total == 11 || total == 12) {
                state.phase = Phase::Point;
                state.main_point = total;
                state.epoch_point_established = true;
                PhaseEvent::PointEstablished(total)
            } else {
                PhaseEvent::NoChange
            }
        },
        Phase::Point => {
            if total == state.main_point {
                let point = state.main_point;
                state.phase = Phase::ComeOut;
                state.main_point = 0;
                PhaseEvent::PointMade(point)
            } else if total == 7 {
                state.phase = Phase::ComeOut;
                state.main_point = 0;
                state.epoch_point_established = false;
                PhaseEvent::SevenOut
            } else {
                PhaseEvent::NoChange
            }
        },
    }
}

/// Process a roll: resolve the bets it settles (in rule order), record ATS
/// progress, move come bets, update the phase, main point and Fire bet mask.
pub fn process_roll(state: &mut CrapsState, d1: u8, d2: u8) -> (results: Vec<BetResult>)
    requires
        next_targets_ok(old(state).bets@, dice_total(d1, d2)),
    ensures
        (results@, final(state).header(), final(state).bets@) == roll_outcome(
            old(state).header(),
            old(state).bets@,
            d1,
            d2,
        ),
{
    let total = d1.saturating_add(d2);
    let mut results: Vec<BetResult> = Vec::new();
    run_step(&RollStep::Single(total, state.field_paytable), state.bets.as_slice(), &mut results);
    run_step(&RollStep::Hard(d1, d2, total), state.bets.as_slice(), &mut results);
    run_step(&RollStep::Work(total, state.buy_commission_timing), state.bets.as_slice(), &mut results);
    let ats_bit = ats_bit_for_total(total);
    if ats_bit != 0 {
        mark_ats(&mut state.bets, ats_bit);
        run_step(&RollStep::Ats, state.bets.as_slice(), &mut results);
    }
    run_step(&RollStep::Come(total), state.bets.as_slice(), &mut results);
    move_come_bets(&mut state.bets, total);
    process_pass_bets(state, total, &mut results);
    let phase_event = update_phase(state, total);
    match phase_event {
        PhaseEvent::PointEstablished(point) => {
            set_point_targets(&mut state.bets, point);
        },
        PhaseEvent::PointMade(point) => {
            if let Some(bit) = point_to_fire_bit(point) {
                state.made_points_mask = state.made_points_mask | (1u8 << bit);
            }
        },
        _ => {},
    }
    if phase_event == PhaseEvent::SevenOut {
        run_step(&RollStep::Fire(state.made_points_mask), state.bets.as_slice(), &mut results);
        run_step(&RollStep::AtsLost, state.bets.as_slice(), &mut results);
    }
    proof {
        assert(results@ =~= roll_outcome(old(state).header(), old(state).bets@, d1, d2).0);
    }
    results
}

// ============================================================================
// Moves
// ============================================================================

/// The header of a fresh table: come-out, no point, no roll yet, default rules.
pub open spec fn initial_header() -> CrapsHeader {
    CrapsHeader {
        phase: Phase::ComeOut,
        main_point: 0,
        d1: 0,
        d2: 0,
        made_points_mask: 0,
        epoch_point_established: false,
        field_paytable: FieldPaytable::Double2And12,
        buy_commission_timing: BuyCommissionTiming::AtPlacement,
    }
}

/// A fresh table with no bets.
fn initial_state() -> (s: CrapsState)
    ensures
        s.header() == initial_header(),
        s.bets@.len() == 0,
{
    CrapsState {
        phase: Phase::ComeOut,
        main_point: 0,
        d1: 0,
        d2: 0,
        made_points_mask: 0,
        epoch_point_established: false,
        field_paytable: FieldPaytable::Double2And12,
        buy_commission_timing: BuyCommissionTiming::AtPlacement,
        bets: Vec::new(),
    }
}

/// The table a session is at: a fresh one for an empty blob, else the parsed one.
pub open spec fn session_table(blob: Seq<u8>) -> Option<(CrapsHeader, Seq<CrapsBet>)> {
    if blob.len() == 0 {
        Some((initial_header(), Seq::empty()))
    } else {
        parse_state(blob)
    }
}

/// A point number (4, 5, 6, 8, 9, 10).
pub open spec fn is_point_number(t: u8) -> bool {
    t == 4 || t == 5 || t == 6 || t == 8 || t == 9 || t == 10
}

/// Whether some bet is a Fire bet.
pub open spec fn has_fire(bets: Seq<CrapsBet>) -> bool {
    exists|i: int| 0 <= i < bets.len() && (#[trigger] bets[i]).bet_type == BetType::Fire
}

/// Why a bet of type `t` on `target` cannot be placed, if it cannot.
pub open spec fn place_error(h: CrapsHeader, bets: Seq<CrapsBet>, t: BetType, target: u8) -> Option<
    GameError,
> {
    if bets.len() >= MAX_BETS {
        Some(GameError::InvalidMove)
    } else if (t == BetType::Pass || t == BetType::DontPass || t == BetType::Field || t
        == BetType::Fire || is_ats(t) || hardway_target(t) is Some || t == BetType::Come || t
        == BetType::DontCome) && target != 0 {
        Some(GameError::InvalidPayload)
    } else if (t == BetType::Come || t == BetType::DontCome) && h.phase != Phase::Point {
        Some(GameError::InvalidMove)
    } else if (t == BetType::Yes || t == BetType::No || t == BetType::Buy) && !is_point_number(
        target,
    ) {
        Some(GameError::InvalidPayload)
    } else if t == BetType::Next && !(2 <= target <= 12) {
        Some(GameError::InvalidPayload)
    } else if t == BetType::Fire && (h.d1 != 0 || h.d2 != 0 || h.made_points_mask != 0 || has_fire(
        bets,
    )) {
        Some(GameError::InvalidMove)
    } else if is_ats(t) && !(!h.epoch_point_established && ((h.d1 == 0 && h.d2 == 0) || (h.phase
        == Phase::ComeOut && dice_total(h.d1, h.d2) == 7))) {
        Some(GameError::InvalidMove)
    } else {
        None
    }
}

/// Amount deducted when a bet is placed (a buy bet also pays its commission
/// up front under that rule).
pub open spec fn deduction_of(t: BetType, amount: u64, timing: BuyCommissionTiming) -> int {
    if t == BetType::Buy && timing == BuyCommissionTiming::AtPlacement {
        sat_add(amount as int, buy_commission(amount))
    } else {
        amount as int
    }
}

/// The bet a valid place payload adds.
pub open spec fn placed_bet(payload: Seq<u8>) -> CrapsBet {
    let t = bet_type_of(payload[1]).unwrap();
    CrapsBet {
        bet_type: t,
        target: payload[2],
        status: if t == BetType::Come || t == BetType::DontCome {
            BetStatus::Pending
        } else {
            BetStatus::On
        },
        amount: be_u64(payload.subrange(3, 11)),
        odds_amount: 0,
    }
}

/// A contract bet that can carry odds.
pub open spec fn is_contract_on(b: CrapsBet) -> bool {
    (b.bet_type == BetType::Pass || b.bet_type == BetType::DontPass || b.bet_type == BetType::Come
        || b.bet_type == BetType::DontCome) && b.status == BetStatus::On
}

/// Index of the last working contract bet, or -1.
pub open spec fn last_contract(bets: Seq<CrapsBet>) -> int
    decreases bets.len(),
{
    if bets.len() == 0 {
        -1
    } else if is_contract_on(bets.last()) {
        bets.len() - 1
    } else {
        last_contract(bets.drop_last())
    }
}

/// The error a move is refused with before anything changes, if any.
pub open spec fn move_error(is_complete: bool, blob: Seq<u8>, payload: Seq<u8>) -> Option<
    GameError,
> {
    if is_complete {
        Some(GameError::GameAlreadyComplete)
    } else {
        match session_table(blob) {
            None => Some(GameError::InvalidPayload),
            Some((h, bets)) => if payload.len() == 0 {
                Some(GameError::InvalidPayload)
            } else if payload[0] == 0 {
                if payload.len() < 11 {
                    Some(GameError::InvalidPayload)
                } else {
                    match bet_type_of(payload[1]) {
                        None => Some(GameError::InvalidPayload),
                        Some(t) => if be_u64(payload.subrange(3, 11)) == 0 {
                            Some(GameError::InvalidPayload)
                        } else {
                            place_error(h, bets, t, payload[2])
                        },
                    }
                }
            } else if payload[0] == 1 {
                if payload.len() < 9 || be_u64(payload.subrange(1, 9)) == 0 {
                    Some(GameError::InvalidPayload)
                } else {
                    let i = last_contract(bets);
                    if i < 0 || !is_point_number(bets[i].target) {
                        Some(GameError::InvalidMove)
                    } else {
                        None
                    }
                }
            } else if payload[0] == 2 {
                if bets.len() == 0 {
                    Some(GameError::InvalidMove)
                } else {
                    None
                }
            } else if payload[0] == 3 {
                if h.d1 != 0 || h.d2 != 0 {
                    Some(GameError::InvalidMove)
                } else {
                    None
                }
            } else {
                Some(GameError::InvalidPayload)
            },
        }
    }
}

/// Whether some resolved result names bet `i`.
pub open spec fn is_resolved(results: Seq<BetResult>, i: int) -> bool {
    exists|k: int| 0 <= k < results.len() && (#[trigger] results[k]).resolved && results[k].bet_idx == i
}

/// The first `n` bets that no result resolves, in order.
pub open spec fn unresolved(bets: Seq<CrapsBet>, results: Seq<BetResult>, n: nat) -> Seq<CrapsBet>
    decreases n,
{
    if n == 0 {
        Seq::empty()
    } else {
        let prev = unresolved(bets, results, (n - 1) as nat);
        if is_resolved(results, n - 1) {
            prev
        } else {
            prev.push(bets[n - 1])
        }
    }
}

/// Saturating totals of the first `n` results: amount returned, and amount
/// wagered on those that returned nothing.
pub open spec fn result_totals(results: Seq<BetResult>, n: nat) -> (int, int)
    decreases n,
{
    if n == 0 {
        (0, 0)
    } else {
        let prev = result_totals(results, (n - 1) as nat);
        let r = results[n - 1];
        if r.resolved {
            (
                sat_add(prev.0, r.return_amount as int),
                if r.return_amount == 0 {
                    sat_add(prev.1, r.wagered as int)
                } else {
                    prev.1
                },
            )
        } else {
            prev
        }
    }
}

/// What a roll of `d1`, `d2` does: the header and bets left, and the result
/// (or the error when a credit does not fit in an `i64`).
pub open spec fn roll_move(
    h: CrapsHeader,
    bets: Seq<CrapsBet>,
    d1: u8,
    d2: u8,
    super_active: bool,
    mults: Seq<SuperMultiplier>,
) -> (CrapsHeader, Seq<CrapsBet>, Result<GameResult, GameError>) {
    let o = roll_outcome(CrapsHeader { d1, d2, ..h }, bets, d1, d2);
    let left = unresolved(o.2, o.0, o.2.len());
    let t = result_totals(o.0, o.0.len());
    let r = if left.len() == 0 {
        if t.0 > 0 {
            if super_active {
                Ok(
                    GameResult::Win(
                        sat_mul(t.0, keyed_multiplier(mults, SuperType::Total, dice_total(d1, d2)))
                            as u64,
                    ),
                )
            } else {
                Ok(GameResult::Win(t.0 as u64))
            }
        } else {
            Ok(GameResult::LossPreDeducted(t.1 as u64))
        }
    } else if t.0 > 0 {
        if t.0 > i64::MAX {
            Err(GameError::InvalidMove)
        } else {
            Ok(GameResult::ContinueWithUpdate { payout: t.0 as i64 })
        }
    } else {
        Ok(GameResult::Continue)
    };
    (o.1, left, r)
}

/// An accepted odds move can report its deduction (the odds are not 2^63).
pub open spec fn move_defined(s: GameSession, payload: Seq<u8>) -> bool {
    (move_error(s.is_complete, s.state_blob@, payload) is None && payload[0] == 1) ==> be_u64(
        payload.subrange(1, 9),
    ) != 0x8000_0000_0000_0000u64
}

/// What an accepted move does to the session, the stream and the result.
pub open spec fn move_applied(
    old_s: GameSession,
    new_s: GameSession,
    payload: Seq<u8>,
    p0: RngPoint,
    p1: RngPoint,
    r: Result<GameResult, GameError>,
) -> bool {
    let (h, bets) = session_table(old_s.state_blob@).unwrap();
    &&& session_fields_kept(old_s, new_s)
    &&& new_s.move_count == old_s.move_count
    &&& if payload[0] == 2 {
        let dice = dice_rolls(p0, 2);
        let m = roll_move(
            h,
            bets,
            dice.0[0],
            dice.0[1],
            old_s.super_mode.is_active,
            old_s.super_mode.multipliers@,
        );
        &&& p1 == dice.1
        &&& new_s.state_blob@ == state_bytes(m.0, m.1)
        &&& new_s.is_complete == (m.1.len() == 0)
        &&& r == m.2
    } else {
        &&& p1 == p0
        &&& new_s.is_complete == old_s.is_complete
        &&& if payload[0] == 0 {
            let bet = placed_bet(payload);
            let d = deduction_of(bet.bet_type, bet.amount, h.buy_commission_timing);
            &&& new_s.state_blob@ == state_bytes(h, bets.push(bet))
            &&& r == if d > i64::MAX {
                Err(GameError::InvalidPayload)
            } else {
                Ok(GameResult::ContinueWithUpdate { payout: -d as i64 })
            }
        } else if payload[0] == 1 {
            let i = last_contract(bets);
            let odds = be_u64(payload.subrange(1, 9));
            let b = bets[i];
            &&& new_s.state_blob@ == state_bytes(
                h,
                bets.update(i, CrapsBet { odds_amount: sat_add(b.odds_amount as int, odds as int) as u64, ..b }),
            )
            &&& r == Ok::<GameResult, GameError>(
                GameResult::ContinueWithUpdate { payout: (-wrap_i64(odds)) as i64 },
            )
        } else {
            &&& new_s.state_blob@ == state_bytes(h, Seq::empty())
            &&& r == Ok::<GameResult, GameError>(GameResult::Continue)
        }
    }
}

/// Craps.
pub struct Craps;

impl Craps {
    /// Adds the odds of a `[1, amount]` payload to the last working contract bet.
    fn add_odds(state: &mut CrapsState, payload: &[u8]) -> (r: Result<u64, GameError>)
        requires
            payload@.len() > 0,
            payload@[0] == 1,
        ensures
            payload@.len() < 9 || be_u64(payload@.subrange(1, 9)) == 0 ==> r == Err::<u64, GameError>(
                GameError::InvalidPayload,
            ),
            !(payload@.len() < 9 || be_u64(payload@.subrange(1, 9)) == 0) ==> {
                let i = last_contract(old(state).bets@);
                if i < 0 || !is_point_number(old(state).bets@[i].target) {
                    r == Err::<u64, GameError>(GameError::InvalidMove)
                } else {
                    let odds = be_u64(payload@.subrange(1, 9));
                    let b = old(state).bets@[i];
                    &&& r == Ok::<u64, GameError>(odds)
                    &&& final(state).bets@ == old(state).bets@.update(
                        i,
                        CrapsBet { odds_amount: sat_add(b.odds_amount as int, odds as int) as u64, ..b },
                    )
                    &&& final(state).header() == old(state).header()
                }
            },
    {
        if payload.len() < 9 {
            return Err(GameError::InvalidPayload);
        }
        let odds_amount = read_u64_be(payload, 1);
        if odds_amount == 0 {
            return Err(GameError::InvalidPayload);
        }
        let idx = find_last_contract(state.bets.as_slice());
        if idx == state.bets.len() {
            return Err(GameError::InvalidMove);
        }
        let mut b = state.bets[idx];
        if !(b.target == 4 || b.target == 5 || b.target == 6 || b.target == 8 || b.target == 9
            || b.target == 10) {
            return Err(GameError::InvalidMove);
        }
        b.odds_amount = b.odds_amount.saturating_add(odds_amount);
        state.bets.set(idx, b);
        Ok(odds_amount)
    }

    /// Rolls two dice and settles the bets they resolve.
    fn roll(
        state: &mut CrapsState,
        rng: &mut GameRng,
        super_active: bool,
        multipliers: &[SuperMultiplier],
    ) -> (r: Result<GameResult, GameError>)
        ensures
            ({
                let dice = dice_rolls(old(rng)@, 2);
                let m = roll_move(
                    old(state).header(),
                    old(state).bets@,
                    dice.0[0],
                    dice.0[1],
                    super_active,
                    multipliers@,
                );
                &&& final(rng)@ == dice.1
                &&& final(state).header() == m.0
                &&& final(state).bets@ == m.1
                &&& r == m.2
            }),
    {
        let ghost p0 = rng@;
        let d1 = rng.roll_die();
        let d2 = rng.roll_die();
        proof {
            reveal_with_fuel(dice_rolls, 3);
        }
        state.d1 = d1;
        state.d2 = d2;
        proof {
            assert forall|i: int|
                0 <= i < state.bets@.len() && (#[trigger] state.bets@[i]).bet_type == BetType::Next
                    && state.bets@[i].target == dice_total(d1, d2) implies state.bets@[i].target
                <= 12 by {}
        }
        let results = process_roll(state, d1, d2);
        let (total_return, total_loss) = totals_of(results.as_slice());
        let kept = keep_unresolved(state.bets.as_slice(), results.as_slice());
        state.bets = kept;
        if state.bets.len() == 0 {
            if total_return > 0 {
                let final_return = if super_active {
                    let dice_total = d1.saturating_add(d2);
                    apply_super_multiplier_total(dice_total, multipliers, total_return)
                } else {
                    total_return
                };
                Ok(GameResult::Win(final_return))
            } else {
                Ok(GameResult::LossPreDeducted(total_loss))
            }
        } else {
            if total_return > 0 {
                if total_return > 0x7fff_ffff_ffff_ffff {
                    return Err(GameError::InvalidMove);
                }
                Ok(GameResult::ContinueWithUpdate { payout: total_return as i64 })
            } else {
                Ok(GameResult::Continue)
            }
        }
    }

    /// Validates a place payload against the table; the bet to add.
    fn check_place(state: &CrapsState, payload: &[u8]) -> (r: Result<CrapsBet, GameError>)
        requires
            payload@.len() > 0,
            payload@[0] == 0,
        ensures
            match (if payload@.len() < 11 {
                Some(GameError::InvalidPayload)
            } else {
                match bet_type_of(payload@[1]) {
                    None => Some(GameError::InvalidPayload),
                    Some(t) => if be_u64(payload@.subrange(3, 11)) == 0 {
                        Some(GameError::InvalidPayload)
                    } else {
                        place_error(state.header(), state.bets@, t, payload@[2])
                    },
                }
            }) {
                Some(e) => r == Err::<CrapsBet, GameError>(e),
                None => r == Ok::<CrapsBet, GameError>(placed_bet(payload@)),
            },
    {
        if payload.len() < 11 {
            return Err(GameError::InvalidPayload);
        }
        let bet_type = match BetType::try_from(payload[1]) {
            Ok(t) => t,
            Err(_) => return Err(GameError::InvalidPayload),
        };
        let target = payload[2];
        let amount = read_u64_be(payload, 3);
        if amount == 0 {
            return Err(GameError::InvalidPayload);
        }
        if state.bets.len() >= MAX_BETS {
            return Err(GameError::InvalidMove);
        }
        match bet_type {
            BetType::Pass | BetType::DontPass | BetType::Field | BetType::Fire | BetType::AtsSmall
            | BetType::AtsTall | BetType::AtsAll => {
                if target != 0 {
                    return Err(GameError::InvalidPayload);
                }
            },
            BetType::Come | BetType::DontCome => {
                if target != 0 {
                    return Err(GameError::InvalidPayload);
                }
                if state.phase != Phase::Point {
                    return Err(GameError::InvalidMove);
                }
            },
            BetType::Yes | BetType::No | BetType::Buy => {
                if !(target == 4 || target == 5 || target == 6 || target == 8 || target == 9
                    || target == 10) {
                    return Err(GameError::InvalidPayload);
                }
            },
            BetType::Next => {
                if !(2 <= target && target <= 12) {
                    return Err(GameError::InvalidPayload);
                }
            },
            BetType::Hardway4 | BetType::Hardway6 | BetType::Hardway8 | BetType::Hardway10 => {
                if target != 0 {
                    return Err(GameError::InvalidPayload);
                }
            },
        }
        if bet_type == BetType::Fire {
            if state.d1 != 0 || state.d2 != 0 || state.made_points_mask != 0 {
                return Err(GameError::InvalidMove);
            }
            if any_fire(state.bets.as_slice()) {
                return Err(GameError::InvalidMove);
            }
        }
        if bet_type == BetType::AtsSmall || bet_type == BetType::AtsTall || bet_type == BetType::AtsAll {
            let has_rolled = state.d1 != 0 || state.d2 != 0;
            let last_total = state.d1.saturating_add(state.d2);
            let can_place = !state.epoch_point_established && (!has_rolled || (state.phase
                == Phase::ComeOut && last_total == 7));
            if !can_place {
                return Err(GameError::InvalidMove);
            }
        }
        let status = if bet_type == BetType::Come || bet_type == BetType::DontCome {
            BetStatus::Pending
        } else {
            BetStatus::On
        };
        Ok(CrapsBet { bet_type, target, status, amount, odds_amount: 0 })
    }
}

impl CasinoGame for Craps {
    open spec fn init_requires(s0: GameSession) -> bool {
        init_requires(s0)
    }

    open spec fn init_ensures(s0: GameSession, p0: RngPoint, r: GameResult, s1: GameSession, p1: RngPoint) -> bool {
        init_ensures(s0, p0, r, s1, p1)
    }

    open spec fn move_requires(s0: GameSession, payload: Seq<u8>, p0: RngPoint) -> bool {
        move_requires(s0, payload, p0)
    }

    open spec fn move_ensures(
        s0: GameSession,
        payload: Seq<u8>,
        p0: RngPoint,
        r: Result<GameResult, GameError>,
        s1: GameSession,
        p1: RngPoint,
    ) -> bool {
        move_ensures(s0, payload, p0, r, s1, p1)
    }

    /// Starts a fresh table with no bets.
    fn init(session: &mut GameSession, rng: &mut GameRng) -> (r: GameResult) {
        let state = initial_state();
        session.state_blob = state.to_blob();
        GameResult::Continue
    }

    /// Processes one move: place a bet, add odds, roll, or clear the bets.
    #[verifier::spinoff_prover]
    #[verifier::rlimit(100)]
    fn process_move(session: &mut GameSession, payload: &[u8], rng: &mut GameRng) -> (r: Result<
        GameResult,
        GameError,
    >) {
        if session.is_complete {
            return Err(GameError::GameAlreadyComplete);
        }
        let mut state = if session.state_blob.len() == 0 {
            initial_state()
        } else {
            match CrapsState::from_blob(session.state_blob.as_slice()) {
                Some(s) => s,
                None => return Err(GameError::InvalidPayload),
            }
        };
        assert(session_table(session.state_blob@) == Some((state.header(), state.bets@)));
        if payload.len() == 0 {
            return Err(GameError::InvalidPayload);
        }
        if payload[0] == 0 {
            let bet = match Self::check_place(&state, payload) {
                Ok(b) => b,
                Err(e) => return Err(e),
            };
            state.bets.push(bet);
            session.state_blob = state.to_blob();
            let deduction = placement_deduction(&bet, state.buy_commission_timing);
            if deduction > 0x7fff_ffff_ffff_ffff {
                return Err(GameError::InvalidPayload);
            }
            let deduction_i64 = deduction as i64;
            Ok(GameResult::ContinueWithUpdate { payout: -deduction_i64 })
        } else if payload[0] == 1 {
            let odds_amount = match Self::add_odds(&mut state, payload) {
                Ok(o) => o,
                Err(e) => return Err(e),
            };
            session.state_blob = state.to_blob();
            Ok(GameResult::ContinueWithUpdate { payout: -u64_as_i64(odds_amount) })
        } else if payload[0] == 2 {
            if state.bets.len() == 0 {
                return Err(GameError::InvalidMove);
            }
            let r = Self::roll(
                &mut state,
                rng,
                session.super_mode.is_active,
                session.super_mode.multipliers.as_slice(),
            );
            session.state_blob = state.to_blob();
            if state.bets.len() == 0 {
                session.is_complete = true;
            }
            r
        } else if payload[0] == 3 {
            if state.d1 != 0 || state.d2 != 0 {
                return Err(GameError::InvalidMove);
            }
            state.bets.clear();
            assert(state.bets@ =~= Seq::<CrapsBet>::empty());
            session.state_blob = state.to_blob();
            Ok(GameResult::Continue)
        } else {
            Err(GameError::InvalidPayload)
        }
    }
}

/// Amount deducted when a bet is placed.
fn placement_deduction(bet: &CrapsBet, timing: BuyCommissionTiming) -> (d: u64)
    ensures
        d == deduction_of(bet.bet_type, bet.amount, timing),
{
    if bet.bet_type == BetType::Buy {
        match timing {
            BuyCommissionTiming::AtPlacement => bet.amount.saturating_add(
                calculate_buy_commission(bet.amount),
            ),
            BuyCommissionTiming::OnWin => bet.amount,
        }
    } else {
        bet.amount
    }
}

/// Whether some bet is a Fire bet.
fn any_fire(bets: &[CrapsBet]) -> (b: bool)
    ensures
        b == has_fire(bets@),
{
    let mut i: usize = 0;
    while i < bets.len()
        invariant
            i <= bets@.len(),
            forall|j: int| 0 <= j < i ==> bets@[j].bet_type != BetType::Fire,
        decreases bets@.len() - i,
    {
        if bets[i].bet_type == BetType::Fire {
            return true;
        }
        i += 1;
    }
    false
}

/// Index of the last working contract bet, or the length when there is none.
fn find_last_contract(bets: &[CrapsBet]) -> (i: usize)
    ensures
        i <= bets@.len(),
        i == bets@.len() <==> last_contract(bets@) < 0,
        i < bets@.len() ==> i == last_contract(bets@),
{
    let mut k: usize = bets.len();
    assert(bets@.subrange(0, bets@.len() as int) =~= bets@);
    while k > 0
        invariant
            k <= bets@.len(),
            last_contract(bets@) == last_contract(bets@.subrange(0, k as int)),
        decreases k,
    {
        let b = bets[k - 1];
        proof {
            assert(bets@.subrange(0, k as int).drop_last() =~= bets@.subrange(0, k - 1));
        }
        if (b.bet_type == BetType::Pass || b.bet_type == BetType::DontPass || b.bet_type == BetType::Come
            || b.bet_type == BetType::DontCome) && b.status == BetStatus::On {
            return k - 1;
        }
        k -= 1;
    }
    proof {
        lemma_last_contract_range(bets@);
    }
    bets.len()
}

/// The last working contract bet, when there is one, is a valid index.
proof fn lemma_last_contract_range(bets: Seq<CrapsBet>)
    ensures
        -1 <= last_contract(bets) < bets.len(),
    decreases bets.len(),
{
    if bets.len() > 0 {
        lemma_last_contract_range(bets.drop_last());
    }
}

/// The saturating return and loss totals of the results.
fn totals_of(results: &[BetResult]) -> (t: (u64, u64))
    ensures
        (t.0 as int, t.1 as int) == result_totals(results@, results@.len()),
{
    let mut total_return: u64 = 0;
    let mut total_loss: u64 = 0;
    let mut i: usize = 0;
    while i < results.len()
        invariant
            i <= results@.len(),
            (total_return as int, total_loss as int) == result_totals(results@, i as nat),
        decreases results@.len() - i,
    {
        let r = results[i];
        if r.resolved {
            total_return = total_return.saturating_add(r.return_amount);
            if r.return_amount == 0 {
                total_loss = total_loss.saturating_add(r.wagered);
            }
        }
        i += 1;
    }
    (total_return, total_loss)
}

/// The bets no resolved result names, in order.
fn keep_unresolved(bets: &[CrapsBet], results: &[BetResult]) -> (kept: Vec<CrapsBet>)
    ensures
        kept@ == unresolved(bets@, results@, bets@.len()),
{
    let n = bets.len();
    let mut flags: Vec<bool> = Vec::new();
    let mut i: usize = 0;
    while i < n
        invariant
            n == bets@.len(),
            i <= n,
            flags@.len() == i,
            forall|j: int| 0 <= j < i ==> !flags@[j],
        decreases n - i,
    {
        flags.push(false);
        i += 1;
    }
    let mut k: usize = 0;
    while k < results.len()
        invariant
            n == bets@.len(),
            flags@.len() == n,
            k <= results@.len(),
            forall|j: int|
                0 <= j < n ==> (flags@[j] <==> exists|m: int|
                    0 <= m < k && (#[trigger] results@[m]).resolved && results@[m].bet_idx == j),
        decreases results@.len() - k,
    {
        let r = results[k];
        if r.resolved && r.bet_idx < n {
            flags.set(r.bet_idx, true);
        }
        proof {
            assert forall|j: int| 0 <= j < n implies (flags@[j] <==> exists|m: int|
                0 <= m < k + 1 && (#[trigger] results@[m]).resolved && results@[m].bet_idx == j) by {
                if flags@[j] && !(r.resolved && r.bet_idx == j) {
                    let m = choose|m: int| 0 <= m < k && (#[trigger] results@[m]).resolved && results@[m].bet_idx == j;
                    assert(0 <= m < k + 1 && results@[m].resolved && results@[m].bet_idx == j);
                }
                if r.resolved && r.bet_idx == j {
                    assert(results@[k as int].resolved && results@[k as int].bet_idx == j);
                }
            }
        }
        k += 1;
    }
    let mut kept: Vec<CrapsBet> = Vec::new();
    let mut i: usize = 0;
    while i < n
        invariant
            n == bets@.len(),
            flags@.len() == n,
            i <= n,
            forall|j: int| 0 <= j < n ==> (flags@[j] <==> is_resolved(results@, j)),
            kept@ == unresolved(bets@, results@, i as nat),
        decreases n - i,
    {
        if !flags[i] {
            kept.push(bets[i]);
        }
        i += 1;
    }
    kept
}

/// What `process_move` requires of a session, a payload and a stream point.
pub open spec fn move_requires(s0: GameSession, payload: Seq<u8>, p0: RngPoint) -> bool {
    &&& move_defined(s0, payload)
}

/// What `process_move` ensures of a session, a payload and a stream point
/// before (`s0`, `p0`) and after (`s1`, `p1`) the move, with result `r`.
pub open spec fn move_ensures(
    s0: GameSession,
    payload: Seq<u8>,
    p0: RngPoint,
    r: Result<GameResult, GameError>,
    s1: GameSession,
    p1: RngPoint,
) -> bool {
    &&& match move_error(s0.is_complete, s0.state_blob@, payload) {
                Some(e) => r == Err::<GameResult, GameError>(e) && s1 == s0
                    && p1 == p0,
                None => move_applied(s0, s1, payload, p0, p1, r),
            }
}

/// What `init` requires of a session.
pub open spec fn init_requires(s0: GameSession) -> bool {
    true
}

/// What `init` ensures of a session and a stream point before (`s0`, `p0`)
/// and after (`s1`, `p1`), with result `r`.
pub open spec fn init_ensures(s0: GameSession, p0: RngPoint, r: GameResult, s1: GameSession, p1: RngPoint) -> bool {
    &&& r == GameResult::Continue
    &&& s1.state_blob@ == state_bytes(initial_header(), Seq::<CrapsBet>::empty())
    &&& session_fields_kept(s0, s1)
    &&& s1.is_complete == s0.is_complete
    &&& s1.move_count == s0.move_count
    &&& p1 == p0
}

} // verus!
