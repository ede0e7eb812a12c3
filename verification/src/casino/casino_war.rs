//! Casino War.
//!
//! State blob, version 1: `[1] [stage] [player_card] [dealer_card] [tie_bet:u64 BE]`
//! (stage 0 betting, 1 war after a tie, 2 complete); legacy:
//! `[player_card] [dealer_card] [stage]` (stage 0 initial, 1 war).
//!
//! Payload: `[0]` play, `[1]` go to war, `[2]` surrender, `[3, tie_bet:u64 BE]`
//! set the tie bet (version 1 betting stage only).

use super::common::{be_u64, push_u64_be, read_u64_be, sat_add, sat_mul, saturating_mul_u64};
use super::rng::{card_draw, draw_from, lemma_remove_each_len, ordered_shoe, remove_each, shuffled, GameRng, RngPoint};
use super::session::{session_fields_kept, GameSession, SuperMultiplier};
use super::super_mode::{apply_super_multiplier_cards, cards_product};
use super::{CasinoGame, GameError, GameResult};
use vstd::prelude::*;

verus! {

/// Version byte of the current state blob.
pub const STATE_VERSION_V1: u8 = 1;

/// Marker of a card not dealt yet.
pub const HIDDEN_CARD: u8 = 0xFF;

/// The tie bet pays 10 to 1.
pub const TIE_BET_PAYOUT_TO_1: u64 = 10;

/// Bonus (in antes) for a tie after going to war.
pub const TIE_AFTER_TIE_BONUS_MULTIPLIER: u64 = 1;

/// Decks in the shoe.
pub const CASINO_WAR_DECKS: u8 = 6;

/// War rank of a card: 2-13, ace high (14).
pub open spec fn war_rank(card: u8) -> int {
    let r = card % 13 + 1;
    if r == 1 {
        14
    } else {
        r as int
    }
}

/// Card rank for war (ace high = 14).
pub fn card_rank(card: u8) -> (r: u8)
    ensures
        r == war_rank(card),
{
    let rank = (card % 13) + 1;
    if rank == 1 {
        14
    } else {
        rank
    }
}

/// Version 1 stages.
#[derive(Clone, Copy, Debug, PartialEq, Eq, Structural)]
pub enum StageV1 {
    Betting,
    War,
    Complete,
}

/// Legacy stages.
#[derive(Clone, Copy, Debug, PartialEq, Eq, Structural)]
pub enum StageV0 {
    Initial,
    War,
}

/// Player moves.
#[derive(Clone, Copy, Debug, PartialEq, Eq, Structural)]
pub enum Move {
    /// Initial play
    Play,
    /// Go to war (on a tie)
    War,
    /// Surrender on a tie
    Surrender,
    /// Set the optional tie bet (version 1 betting stage only)
    SetTieBet,
}

/// Version 1 stage of a wire code.
pub open spec fn stage_v1_of(v: u8) -> Option<StageV1> {
    if v == 0 {
        Some(StageV1::Betting)
    } else if v == 1 {
        Some(StageV1::War)
    } else if v == 2 {
        Some(StageV1::Complete)
    } else {
        None
    }
}

/// Wire code of a version 1 stage.
pub open spec fn stage_v1_code(s: StageV1) -> u8 {
    match s {
        StageV1::Betting => 0,
        StageV1::War => 1,
        StageV1::Complete => 2,
    }
}

/// Legacy stage of a wire code.
pub open spec fn stage_v0_of(v: u8) -> Option<StageV0> {
    if v == 0 {
        Some(StageV0::Initial)
    } else if v == 1 {
        Some(StageV0::War)
    } else {
        None
    }
}

/// Move of a wire code.
pub open spec fn move_of(v: u8) -> Option<Move> {
    if v == 0 {
        Some(Move::Play)
    } else if v == 1 {
        Some(Move::War)
    } else if v == 2 {
        Some(Move::Surrender)
    } else if v == 3 {
        Some(Move::SetTieBet)
    } else {
        None
    }
}

impl StageV1 {
    /// The stage with wire code `value`, or `InvalidPayload`.
    pub fn try_from(value: u8) -> (r: Result<StageV1, GameError>)
        ensures
            r == match stage_v1_of(value) {
                Some(s) => Ok(s),
                None => Err(GameError::InvalidPayload),
            },
    {
        match value {
            0 => Ok(StageV1::Betting),
            1 => Ok(StageV1::War),
            2 => Ok(StageV1::Complete),
            _ => Err(GameError::InvalidPayload),
        }
    }
}

impl StageV0 {
    /// The legacy stage with wire code `value`, or `InvalidPayload`.
    pub fn try_from(value: u8) -> (r: Result<StageV0, GameError>)
        ensures
            r == match stage_v0_of(value) {
                Some(s) => Ok(s),
                None => Err(GameError::InvalidPayload),
            },
    {
        match value {
            0 => Ok(StageV0::Initial),
            1 => Ok(StageV0::War),
            _ => Err(GameError::InvalidPayload),
        }
    }
}

impl Move {
    /// The move with wire code `value`, or `InvalidPayload`.
    pub fn try_from(value: u8) -> (r: Result<Move, GameError>)
        ensures
            r == match move_of(value) {
                Some(m) => Ok(m),
                None => Err(GameError::InvalidPayload),
            },
    {
        match value {
            0 => Ok(Move::Play),
            1 => Ok(Move::War),
            2 => Ok(Move::Surrender),
            3 => Ok(Move::SetTieBet),
            _ => Err(GameError::InvalidPayload),
        }
    }
}

/// Version 1 state.
#[derive(Clone, Copy, Debug, PartialEq, Eq, Structural)]
pub struct CasinoWarStateV1 {
    pub player_card: u8,
    pub dealer_card: u8,
    pub stage: StageV1,
    pub tie_bet: u64,
}

/// A parsed state: version 1, or the legacy player card, dealer card and stage.
pub type ParsedState = Result<CasinoWarStateV1, (u8, u8, StageV0)>;

/// The state a blob encodes: version 1 when it is at least 12 bytes and
/// starts with the version byte, else legacy (at least 3 bytes).
pub open spec fn parse_blob(b: Seq<u8>) -> Option<ParsedState> {
    if b.len() >= 12 && b[0] == STATE_VERSION_V1 {
        match stage_v1_of(b[1]) {
            Some(stage) => Some(
                Ok(
                    CasinoWarStateV1 {
                        player_card: b[2],
                        dealer_card: b[3],
                        stage,
                        tie_bet: be_u64(b.subrange(4, 12)),
                    },
                ),
            ),
            None => None,
        }
    } else if b.len() < 3 {
        None
    } else {
        match stage_v0_of(b[2]) {
            Some(stage) => Some(Err((b[0], b[1], stage))),
            None => None,
        }
    }
}

/// Parses a state blob.
pub fn parse_state(state: &[u8]) -> (r: Option<ParsedState>)
    ensures
        r == parse_blob(state@),
{
    if state.len() >= 12 && state[0] == STATE_VERSION_V1 {
        let stage = match StageV1::try_from(state[1]) {
            Ok(s) => s,
            Err(_) => return None,
        };
        let tie_bet = read_u64_be(state, 4);
        return Some(Ok(CasinoWarStateV1 { player_card: state[2], dealer_card: state[3], stage, tie_bet }));
    }
    if state.len() < 3 {
        return None;
    }
    let stage = match StageV0::try_from(state[2]) {
        Ok(s) => s,
        Err(_) => return None,
    };
    Some(Err((state[0], state[1], stage)))
}

/// The version 1 blob of a state.
pub open spec fn v1_bytes(s: CasinoWarStateV1) -> Seq<u8> {
    seq![STATE_VERSION_V1, stage_v1_code(s.stage), s.player_card, s.dealer_card] + super::common::u64_be_bytes(s.tie_bet)
}

/// The legacy blob.
pub open spec fn legacy_bytes(player_card: u8, dealer_card: u8, stage: StageV0) -> Seq<u8> {
    seq![player_card, dealer_card, match stage {
        StageV0::Initial => 0u8,
        StageV0::War => 1u8,
    }]
}

/// A version 1 blob reads back as the state it was written from.
pub proof fn lemma_state_v1_roundtrip(s: CasinoWarStateV1)
    ensures
        parse_blob(v1_bytes(s)) == Some(Ok::<CasinoWarStateV1, (u8, u8, StageV0)>(s)),
{
    let b = v1_bytes(s);
    super::common::lemma_u64_be_roundtrip(s.tie_bet);
    assert(b.subrange(4, 12) =~= super::common::u64_be_bytes(s.tie_bet));
    assert(stage_v1_of(stage_v1_code(s.stage)) == Some(s.stage));
}

/// A legacy blob reads back as the cards and stage it was written from.
pub proof fn lemma_state_legacy_roundtrip(player_card: u8, dealer_card: u8, stage: StageV0)
    ensures
        parse_blob(legacy_bytes(player_card, dealer_card, stage)) == Some(
            Err::<CasinoWarStateV1, (u8, u8, StageV0)>((player_card, dealer_card, stage)),
        ),
{
}

/// Serializes a version 1 state.
pub fn serialize_state_v1(state: &CasinoWarStateV1) -> (out: Vec<u8>)
    ensures
        out@ == v1_bytes(*state),
{
    let mut out: Vec<u8> = Vec::new();
    out.push(STATE_VERSION_V1);
    out.push(match state.stage {
        StageV1::Betting => 0,
        StageV1::War => 1,
        StageV1::Complete => 2,
    });
    out.push(state.player_card);
    out.push(state.dealer_card);
    push_u64_be(&mut out, state.tie_bet);
    assert(out@ =~= v1_bytes(*state));
    out
}

/// Serializes a legacy state.
pub fn serialize_state_legacy(player_card: u8, dealer_card: u8, stage: StageV0) -> (out: Vec<u8>)
    ensures
        out@ == legacy_bytes(player_card, dealer_card, stage),
{
    let code: u8 = match stage {
        StageV0::Initial => 0,
        StageV0::War => 1,
    };
    let v = vec![player_card, dealer_card, code];
    assert(v@ =~= legacy_bytes(player_card, dealer_card, stage));
    v
}

/// A win paying `base`, times the super multipliers of `card` when super mode is active.
pub open spec fn boosted(base: int, card: u8, super_active: bool, mults: Seq<SuperMultiplier>) -> GameResult {
    if super_active {
        GameResult::Win(sat_mul(base, cards_product(seq![card], mults)) as u64)
    } else {
        GameResult::Win(base as u64)
    }
}

/// The war after a tie: three cards burnt from a shoe without the tied cards,
/// then a card each; the new cards and the point after.
pub open spec fn war_cards(player_card: u8, dealer_card: u8, p: RngPoint) -> (u8, u8, RngPoint) {
    let s = shuffled(remove_each(ordered_shoe(CASINO_WAR_DECKS as nat), seq![player_card, dealer_card]), p);
    let b1 = card_draw(s.0, s.1);
    let b2 = card_draw(b1.1, b1.2);
    let b3 = card_draw(b2.1, b2.2);
    let np = card_draw(b3.1, b3.2);
    let nd = card_draw(np.1, np.2);
    (np.0, nd.0, nd.2)
}

/// The initial deal: a card each from a fresh six-deck shoe.
pub open spec fn deal_cards(p: RngPoint) -> (u8, u8, RngPoint) {
    let s = shuffled(ordered_shoe(CASINO_WAR_DECKS as nat), p);
    let a = card_draw(s.0, s.1);
    let b = card_draw(a.1, a.2);
    (a.0, b.0, b.2)
}

/// Outcome of a move once the payload and state are accepted (after the move
/// count has grown): result, new blob if written, whether the game completes,
/// stream point.
pub open spec fn war_outcome(
    parsed: ParsedState,
    mv: Move,
    payload: Seq<u8>,
    bet: u64,
    p: RngPoint,
    super_active: bool,
    mults: Seq<SuperMultiplier>,
) -> (Result<GameResult, GameError>, Option<Seq<u8>>, bool, RngPoint) {
    match parsed {
        Ok(st) => match st.stage {
            StageV1::Betting => if mv == Move::SetTieBet {
                if payload.len() != 9 {
                    (Err(GameError::InvalidPayload), None, false, p)
                } else {
                    let next = be_u64(payload.subrange(1, 9));
                    let delta = next - st.tie_bet;
                    if delta > i64::MAX || -delta > i64::MAX {
                        (Err(GameError::InvalidPayload), None, false, p)
                    } else {
                        (
                            Ok(GameResult::ContinueWithUpdate { payout: (-delta) as i64 }),
                            Some(v1_bytes(CasinoWarStateV1 { tie_bet: next, ..st })),
                            false,
                            p,
                        )
                    }
                }
            } else if mv == Move::Play {
                if payload.len() != 1 {
                    (Err(GameError::InvalidPayload), None, false, p)
                } else {
                    let d = deal_cards(p);
                    let pr = war_rank(d.0);
                    let dr = war_rank(d.1);
                    let credited = sat_mul(st.tie_bet as int, 11);
                    let dealt = CasinoWarStateV1 { player_card: d.0, dealer_card: d.1, ..st };
                    if st.tie_bet > 0 && pr == dr && credited > i64::MAX {
                        (Err(GameError::InvalidPayload), None, false, d.2)
                    } else if pr > dr {
                        (
                            Ok(boosted(sat_mul(bet as int, 2), d.0, super_active, mults)),
                            Some(v1_bytes(CasinoWarStateV1 { stage: StageV1::Complete, ..dealt })),
                            true,
                            d.2,
                        )
                    } else if pr < dr {
                        (
                            Ok(GameResult::Loss),
                            Some(v1_bytes(CasinoWarStateV1 { stage: StageV1::Complete, ..dealt })),
                            true,
                            d.2,
                        )
                    } else {
                        (
                            Ok(if st.tie_bet > 0 {
                                GameResult::ContinueWithUpdate { payout: credited as i64 }
                            } else {
                                GameResult::Continue
                            }),
                            Some(v1_bytes(CasinoWarStateV1 { stage: StageV1::War, ..dealt })),
                            false,
                            d.2,
                        )
                    }
                }
            } else {
                (Err(GameError::InvalidMove), None, false, p)
            },
            StageV1::War => if mv == Move::Surrender {
                (
                    Ok(GameResult::Win(bet / 2)),
                    Some(v1_bytes(CasinoWarStateV1 { stage: StageV1::Complete, ..st })),
                    true,
                    p,
                )
            } else if mv == Move::War {
                let w = war_cards(st.player_card, st.dealer_card, p);
                let blob = v1_bytes(
                    CasinoWarStateV1 { stage: StageV1::Complete, player_card: w.0, dealer_card: w.1, ..st },
                );
                if war_rank(w.0) >= war_rank(w.1) {
                    let base = if war_rank(w.0) == war_rank(w.1) {
                        sat_add(sat_mul(bet as int, 2), sat_mul(bet as int, 1))
                    } else {
                        sat_mul(bet as int, 2)
                    };
                    (Ok(boosted(base, w.0, super_active, mults)), Some(blob), true, w.2)
                } else {
                    (Ok(GameResult::LossWithExtraDeduction(bet)), Some(blob), true, w.2)
                }
            } else {
                (Err(GameError::InvalidMove), None, false, p)
            },
            StageV1::Complete => (Err(GameError::GameAlreadyComplete), None, false, p),
        },
        Err((pc, dc, stage)) => match stage {
            StageV0::Initial => if mv != Move::Play {
                (Err(GameError::InvalidMove), None, false, p)
            } else if war_rank(pc) > war_rank(dc) {
                (Ok(boosted(sat_mul(bet as int, 2), pc, super_active, mults)), None, true, p)
            } else if war_rank(pc) < war_rank(dc) {
                (Ok(GameResult::Loss), None, true, p)
            } else {
                (Ok(GameResult::Continue), Some(legacy_bytes(pc, dc, StageV0::War)), false, p)
            },
            StageV0::War => if mv == Move::Surrender {
                (Ok(GameResult::Win(bet / 2)), None, true, p)
            } else if mv == Move::War {
                let w = war_cards(pc, dc, p);
                let blob = legacy_bytes(w.0, w.1, StageV0::War);
                if war_rank(w.0) >= war_rank(w.1) {
                    (Ok(boosted(sat_mul(bet as int, 2), w.0, super_active, mults)), Some(blob), true, w.2)
                } else {
                    (Ok(GameResult::LossWithExtraDeduction(bet)), Some(blob), true, w.2)
                }
            } else {
                (Err(GameError::InvalidMove), None, false, p)
            },
        },
    }
}

/// Casino War pays even money: on the deal, a higher card (aces high) returns
/// twice the bet and a lower one loses; a tie goes to war and pays a tie bet
/// 10 to 1 (eleven times it credited). At war, surrendering returns half the
/// bet; going to war, a higher card returns twice the bet, a tie three times
/// (a 1 to 1 bonus), and a lower card loses the raise too.
pub proof fn lemma_war_payouts(
    st: CasinoWarStateV1,
    payload: Seq<u8>,
    bet: u64,
    p: RngPoint,
    mults: Seq<SuperMultiplier>,
)
    requires
        bet * 3 <= u64::MAX,
        st.tie_bet * 11 <= i64::MAX,
        payload.len() == 1,
    ensures
        st.stage == StageV1::Betting ==> ({
            let d = deal_cards(p);
            let r = war_outcome(Ok(st), Move::Play, payload, bet, p, false, mults).0;
            &&& d.0 % 13 == 0 && d.1 % 13 != 0 ==> r == Ok::<GameResult, GameError>(
                GameResult::Win((2 * bet) as u64),
            )
            &&& war_rank(d.0) > war_rank(d.1) ==> r == Ok::<GameResult, GameError>(
                GameResult::Win((2 * bet) as u64),
            )
            &&& war_rank(d.0) < war_rank(d.1) ==> r == Ok::<GameResult, GameError>(GameResult::Loss)
            &&& war_rank(d.0) == war_rank(d.1) && st.tie_bet > 0 ==> r == Ok::<GameResult, GameError>(
                GameResult::ContinueWithUpdate { payout: (11 * st.tie_bet) as i64 },
            )
        }),
        st.stage == StageV1::War ==> war_outcome(Ok(st), Move::Surrender, payload, bet, p, false, mults).0
            == Ok::<GameResult, GameError>(GameResult::Win(bet / 2)),
        st.stage == StageV1::War ==> ({
            let w = war_cards(st.player_card, st.dealer_card, p);
            let r = war_outcome(Ok(st), Move::War, payload, bet, p, false, mults).0;
            &&& war_rank(w.0) > war_rank(w.1) ==> r == Ok::<GameResult, GameError>(
                GameResult::Win((2 * bet) as u64),
            )
            &&& war_rank(w.0) == war_rank(w.1) ==> r == Ok::<GameResult, GameError>(
                GameResult::Win((3 * bet) as u64),
            )
            &&& war_rank(w.0) < war_rank(w.1) ==> r == Ok::<GameResult, GameError>(
                GameResult::LossWithExtraDeduction(bet),
            )
        }),
{
}

/// The error a move is refused with before the move count grows, if any.
pub open spec fn move_error(is_complete: bool, blob: Seq<u8>, payload: Seq<u8>) -> Option<GameError> {
    if is_complete {
        Some(GameError::GameAlreadyComplete)
    } else if payload.len() == 0 || move_of(payload[0]) is None || parse_blob(blob) is None {
        Some(GameError::InvalidPayload)
    } else {
        None
    }
}

/// Casino War.
pub struct CasinoWar;

/// A super-boosted win on one card.
fn boosted_win(base: u64, card: u8, super_active: bool, multipliers: &[SuperMultiplier]) -> (r: GameResult)
    ensures
        r == boosted(base as int, card, super_active, multipliers@),
{
    if super_active {
        let cards = [card];
        assert(cards@ =~= seq![card]);
        GameResult::Win(apply_super_multiplier_cards(&cards, multipliers, base))
    } else {
        GameResult::Win(base)
    }
}

/// Burns three cards from a shoe without the tied cards and deals one each.
fn war_deal(rng: &mut GameRng, player_card: u8, dealer_card: u8) -> (r: (u8, u8))
    ensures
        (r.0, r.1, final(rng)@) == war_cards(player_card, dealer_card, old(rng)@),
{
    let excluded = [player_card, dealer_card];
    assert(excluded@ =~= seq![player_card, dealer_card]);
    let mut deck = rng.create_shoe_excluding(&excluded, CASINO_WAR_DECKS);
    proof {
        lemma_remove_each_len(ordered_shoe(CASINO_WAR_DECKS as nat), seq![player_card, dealer_card]);
    }
    let _b1 = draw_from(rng, &mut deck);
    let _b2 = draw_from(rng, &mut deck);
    let _b3 = draw_from(rng, &mut deck);
    let np = draw_from(rng, &mut deck);
    let nd = draw_from(rng, &mut deck);
    (np, nd)
}

impl CasinoGame for CasinoWar {
    open spec fn init_requires(s0: GameSession) -> bool {
        init_requires(s0)
    }

    open spec fn init_ensures(s0: GameSession, p0: RngPoint, r: GameResult, s1: GameSession, p1: RngPoint) -> bool {
        init_ensures(s0, p0, r, s1, p1)
    }

    open spec fn move_requires(s0: GameSession, payload: Seq<u8>, p0: RngPoint) -> bool {
        move_requires(s0, payload, p0)
    }

    open spec fn move_ensures(
        s0: GameSession,
        payload: Seq<u8>,
        p0: RngPoint,
        r: Result<GameResult, GameError>,
        s1: GameSession,
        p1: RngPoint,
    ) -> bool {
        move_ensures(s0, payload, p0, r, s1, p1)
    }

    /// Starts a version 1 session in the betting stage.
    fn init(session: &mut GameSession, rng: &mut GameRng) -> (r: GameResult) {
        let state = CasinoWarStateV1 {
            player_card: HIDDEN_CARD,
            dealer_card: HIDDEN_CARD,
            stage: StageV1::Betting,
            tie_bet: 0,
        };
        session.state_blob = serialize_state_v1(&state);
        GameResult::Continue
    }

    /// Processes one move. Every move that gets past the payload and state
    /// checks counts, even one refused later.
    #[verifier::spinoff_prover]
    #[verifier::rlimit(60)]
    fn process_move(session: &mut GameSession, payload: &[u8], rng: &mut GameRng) -> (r: Result<
        GameResult,
        GameError,
    >) {
        if session.is_complete {
            return Err(GameError::GameAlreadyComplete);
        }
        if payload.len() == 0 {
            return Err(GameError::InvalidPayload);
        }
        let mv = match Move::try_from(payload[0]) {
            Ok(m) => m,
            Err(e) => return Err(e),
        };
        let parsed = match parse_state(session.state_blob.as_slice()) {
            Some(p) => p,
            None => return Err(GameError::InvalidPayload),
        };
        session.move_count += 1;
        match parsed {
            Ok(state) => {
                let mut state = state;
                match state.stage {
                    StageV1::Betting => {
                        if mv == Move::SetTieBet {
                            if payload.len() != 9 {
                                return Err(GameError::InvalidPayload);
                            }
                            let next_amount = read_u64_be(payload, 1);
                            let prev_amount = state.tie_bet;
                            let payout: i64;
                            if next_amount >= prev_amount {
                                let delta = next_amount - prev_amount;
                                if delta > 0x7fff_ffff_ffff_ffff {
                                    return Err(GameError::InvalidPayload);
                                }
                                payout = -(delta as i64);
                            } else {
                                let delta = prev_amount - next_amount;
                                if delta > 0x7fff_ffff_ffff_ffff {
                                    return Err(GameError::InvalidPayload);
                                }
                                payout = delta as i64;
                            }
                            state.tie_bet = next_amount;
                            session.state_blob = serialize_state_v1(&state);
                            Ok(GameResult::ContinueWithUpdate { payout })
                        } else if mv == Move::Play {
                            if payload.len() != 1 {
                                return Err(GameError::InvalidPayload);
                            }
                            let mut deck = rng.create_shoe(CASINO_WAR_DECKS);
                            let player_card = draw_from(rng, &mut deck);
                            let dealer_card = draw_from(rng, &mut deck);
                            let player_rank = card_rank(player_card);
                            let dealer_rank = card_rank(dealer_card);
                            let tie_bet_return: i64 = if state.tie_bet > 0 && player_rank == dealer_rank {
                                let credited = saturating_mul_u64(state.tie_bet, TIE_BET_PAYOUT_TO_1 + 1);
                                if credited > 0x7fff_ffff_ffff_ffff {
                                    return Err(GameError::InvalidPayload);
                                }
                                credited as i64
                            } else {
                                0
                            };
                            state.player_card = player_card;
                            state.dealer_card = dealer_card;
                            if player_rank > dealer_rank {
                                state.stage = StageV1::Complete;
                                session.state_blob = serialize_state_v1(&state);
                                session.is_complete = true;
                                let base_winnings = saturating_mul_u64(session.bet, 2);
                                Ok(boosted_win(base_winnings, player_card, session.super_mode.is_active, session.super_mode.multipliers.as_slice()))
                            } else if player_rank < dealer_rank {
                                state.stage = StageV1::Complete;
                                session.state_blob = serialize_state_v1(&state);
                                session.is_complete = true;
                                Ok(GameResult::Loss)
                            } else {
                                state.stage = StageV1::War;
                                session.state_blob = serialize_state_v1(&state);
                                if tie_bet_return != 0 {
                                    Ok(GameResult::ContinueWithUpdate { payout: tie_bet_return })
                                } else {
                                    Ok(GameResult::Continue)
                                }
                            }
                        } else {
                            Err(GameError::InvalidMove)
                        }
                    },
                    StageV1::War => {
                        if mv == Move::Surrender {
                            state.stage = StageV1::Complete;
                            session.state_blob = serialize_state_v1(&state);
                            session.is_complete = true;
                            Ok(GameResult::Win(session.bet / 2))
                        } else if mv == Move::War {
                            let war_bet = session.bet;
                            let (new_player_card, new_dealer_card) = war_deal(rng, state.player_card, state.dealer_card);
                            let new_player_rank = card_rank(new_player_card);
                            let new_dealer_rank = card_rank(new_dealer_card);
                            state.stage = StageV1::Complete;
                            state.player_card = new_player_card;
                            state.dealer_card = new_dealer_card;
                            session.state_blob = serialize_state_v1(&state);
                            session.is_complete = true;
                            if new_player_rank >= new_dealer_rank {
                                let base_winnings = if new_player_rank == new_dealer_rank {
                                    saturating_mul_u64(session.bet, 2).saturating_add(
                                        saturating_mul_u64(session.bet, TIE_AFTER_TIE_BONUS_MULTIPLIER),
                                    )
                                } else {
                                    saturating_mul_u64(session.bet, 2)
                                };
                                Ok(boosted_win(base_winnings, new_player_card, session.super_mode.is_active, session.super_mode.multipliers.as_slice()))
                            } else {
                                Ok(GameResult::LossWithExtraDeduction(war_bet))
                            }
                        } else {
                            Err(GameError::InvalidMove)
                        }
                    },
                    StageV1::Complete => Err(GameError::GameAlreadyComplete),
                }
            },
            Err((player_card, dealer_card, stage)) => {
                let player_rank = card_rank(player_card);
                let dealer_rank = card_rank(dealer_card);
                match stage {
                    StageV0::Initial => {
                        if mv != Move::Play {
                            return Err(GameError::InvalidMove);
                        }
                        if player_rank > dealer_rank {
                            session.is_complete = true;
                            let base_winnings = saturating_mul_u64(session.bet, 2);
                            Ok(boosted_win(base_winnings, player_card, session.super_mode.is_active, session.super_mode.multipliers.as_slice()))
                        } else if player_rank < dealer_rank {
                            session.is_complete = true;
                            Ok(GameResult::Loss)
                        } else {
                            session.state_blob = serialize_state_legacy(player_card, dealer_card, StageV0::War);
                            Ok(GameResult::Continue)
                        }
                    },
                    StageV0::War => {
                        if mv == Move::Surrender {
                            session.is_complete = true;
                            Ok(GameResult::Win(session.bet / 2))
                        } else if mv == Move::War {
                            let war_bet = session.bet;
                            let (new_player_card, new_dealer_card) = war_deal(rng, player_card, dealer_card);
                            let new_player_rank = card_rank(new_player_card);
                            let new_dealer_rank = card_rank(new_dealer_card);
                            session.state_blob = serialize_state_legacy(new_player_card, new_dealer_card, StageV0::War);
                            session.is_complete = true;
                            if new_player_rank >= new_dealer_rank {
                                let base_winnings = saturating_mul_u64(session.bet, 2);
                                Ok(boosted_win(base_winnings, new_player_card, session.super_mode.is_active, session.super_mode.multipliers.as_slice()))
                            } else {
                                Ok(GameResult::LossWithExtraDeduction(war_bet))
                            }
                        } else {
                            Err(GameError::InvalidMove)
                        }
                    },
                }
            },
        }
    }
}

/// What `process_move` requires of a session, a payload and a stream point.
pub open spec fn move_requires(s0: GameSession, payload: Seq<u8>, p0: RngPoint) -> bool {
    &&& move_error(s0.is_complete, s0.state_blob@, payload) is None
                ==> s0.move_count < u32::MAX
}

/// What `process_move` ensures of a session, a payload and a stream point
/// before (`s0`, `p0`) and after (`s1`, `p1`) the move, with result `r`.
pub open spec fn move_ensures(
    s0: GameSession,
    payload: Seq<u8>,
    p0: RngPoint,
    r: Result<GameResult, GameError>,
    s1: GameSession,
    p1: RngPoint,
) -> bool {
    &&& match move_error(s0.is_complete, s0.state_blob@, payload) {
                Some(e) => r == Err::<GameResult, GameError>(e) && s1 == s0
                    && p1 == p0,
                None => {
                    let o = war_outcome(
                        parse_blob(s0.state_blob@).unwrap(),
                        move_of(payload[0]).unwrap(),
                        payload,
                        s0.bet,
                        p0,
                        s0.super_mode.is_active,
                        s0.super_mode.multipliers@,
                    );
                    &&& r == o.0
                    &&& p1 == o.3
                    &&& session_fields_kept(s0, s1)
                    &&& s1.move_count == s0.move_count + 1
                    &&& s1.state_blob@ == match o.1 {
                        Some(b) => b,
                        None => s0.state_blob@,
                    }
                    &&& s1.is_complete == o.2
                },
            }
}

/// What `init` requires of a session.
pub open spec fn init_requires(s0: GameSession) -> bool {
    true
}

/// What `init` ensures of a session and a stream point before (`s0`, `p0`)
/// and after (`s1`, `p1`), with result `r`.
pub open spec fn init_ensures(s0: GameSession, p0: RngPoint, r: GameResult, s1: GameSession, p1: RngPoint) -> bool {
    &&& r == GameResult::Continue
    &&& s1.state_blob@ == v1_bytes(
                CasinoWarStateV1 { player_card: HIDDEN_CARD, dealer_card: HIDDEN_CARD, stage: StageV1::Betting, tie_bet: 0 },
            )
    &&& session_fields_kept(s0, s1)
    &&& s1.is_complete == s0.is_complete
    &&& s1.move_count == s0.move_count
    &&& p1 == p0
}

} // verus!
