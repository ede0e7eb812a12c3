//! Casino game execution: the deterministic random stream, the outcome and
//! error types shared by all games, and the game modules themselves.

pub mod baccarat;
pub mod blackjack;
pub mod casino_war;
pub mod common;
pub mod craps;
pub mod rng;
pub mod roulette;
pub mod session;
pub mod sic_bo;
pub mod super_mode;
pub mod three_card;
pub mod ultimate_holdem;
pub mod video_poker;

pub use rng::{GameRng, RngPoint};
pub use session::{GameSession, GameType, Player, SuperModeState, SuperMultiplier, SuperType};

use vstd::prelude::*;

verus! {

/// Result of processing a game move.
#[derive(PartialEq, Eq, Structural, Debug, Clone, Copy)]
pub enum GameResult {
    /// Game is still in progress, state updated.
    Continue,
    /// Game is still in progress and the player's balance moves by `payout`
    /// (negative for an extra wager, positive for a credit).
    ContinueWithUpdate { payout: i64 },
    /// Game completed; the value is the total amount credited back.
    Win(u64),
    /// Game completed with a loss of the stake already deducted at start.
    Loss,
    /// Game completed with a push (tie, bet returned).
    Push,
    /// Game completed with a loss that also forfeits an extra wager not yet deducted.
    LossWithExtraDeduction(u64),
    /// Game completed with a loss whose wagers were all deducted as they were placed;
    /// the value reports the total amount lost.
    LossPreDeducted(u64),
    /// Loss where most chips were already deducted but an extra deduction remains.
    LossPreDeductedWithExtraDeduction { total_loss: u64, extra_deduction: u64 },
    /// Completed win that still needs an additional deduction.
    WinWithExtraDeduction { payout: u64, extra_deduction: u64 },
}

/// Error during game execution.
#[derive(PartialEq, Eq, Structural, Debug, Clone, Copy)]
pub enum GameError {
    InvalidPayload,
    InsufficientChips,
    InvalidMove,
    GameAlreadyComplete,
    NoActiveSession,
    SessionNotFound,
    NotSessionOwner,
    PlayerNotFound,
    PlayerAlreadyExists,
    DeckExhausted,
    InvalidState,
}

/// Apply modifiers (shield/double) to a game outcome.
///
/// A shield turns a loss into break-even, a double doubles a win; each is
/// consumed only when it applies, and both activation flags are cleared.
/// Returns the final payout and whether the shield and the double applied.
pub fn apply_modifiers(player: &mut Player, payout: i64) -> (r: (i64, bool, bool))
    requires
        payout > 0 && old(player).active_double && old(player).doubles > 0 ==> payout * 2
            <= i64::MAX,
    ensures
        ({
            let shielded = payout < 0 && old(player).active_shield && old(player).shields > 0;
            let doubled = payout > 0 && old(player).active_double && old(player).doubles > 0;
            &&& r.1 == shielded
            &&& r.2 == doubled
            &&& r.0 == if shielded {
                0
            } else if doubled {
                payout * 2
            } else {
                payout as int
            }
            &&& final(player).shields == if shielded {
                old(player).shields - 1
            } else {
                old(player).shields as int
            }
            &&& final(player).doubles == if doubled {
                old(player).doubles - 1
            } else {
                old(player).doubles as int
            }
        }),
        !final(player).active_shield,
        !final(player).active_double,
        final(player).chips == old(player).chips,
        final(player).name == old(player).name,
        final(player).active_super == old(player).active_super,
        final(player).aura_meter == old(player).aura_meter,
{
    let mut final_payout = payout;
    let mut was_shielded = false;
    let mut was_doubled = false;

    // Shield: converts loss to break-even
    if payout < 0 && player.active_shield && player.shields > 0 {
        player.shields -= 1;
        player.active_shield = false;
        final_payout = 0;
        was_shielded = true;
    }
    // Double: doubles wins
    if payout > 0 && player.active_double && player.doubles > 0 {
        player.doubles -= 1;
        player.active_double = false;
        final_payout = payout * 2;
        was_doubled = true;
    }
    // Reset modifiers after use
    player.active_shield = false;
    player.active_double = false;

    (final_payout, was_shielded, was_doubled)
}

/// A casino game: how a session of it starts and how it takes a move. Each
/// game states, in the four spec functions, what these require and ensure.
pub trait CasinoGame {
    /// What `init` requires of a session.
    spec fn init_requires(s0: GameSession) -> bool;

    /// What `init` ensures of a session and a stream point before (`s0`,
    /// `p0`) and after (`s1`, `p1`), with result `r`.
    spec fn init_ensures(s0: GameSession, p0: RngPoint, r: GameResult, s1: GameSession, p1: RngPoint) -> bool;

    /// What `process_move` requires of a session, a payload and a stream point.
    spec fn move_requires(s0: GameSession, payload: Seq<u8>, p0: RngPoint) -> bool;

    /// What `process_move` ensures of a session, a payload and a stream point
    /// before (`s0`, `p0`) and after (`s1`, `p1`) the move, with result `r`.
    spec fn move_ensures(
        s0: GameSession,
        payload: Seq<u8>,
        p0: RngPoint,
        r: Result<GameResult, GameError>,
        s1: GameSession,
        p1: RngPoint,
    ) -> bool;

    /// Sets up the state of a session that starts.
    fn init(session: &mut GameSession, rng: &mut GameRng) -> (r: GameResult)
        requires
            Self::init_requires(*old(session)),
        ensures
            Self::init_ensures(*old(session), old(rng)@, r, *final(session), final(rng)@),
    ;

    /// Processes a player's move.
    fn process_move(session: &mut GameSession, payload: &[u8], rng: &mut GameRng) -> (r: Result<
        GameResult,
        GameError,
    >)
        requires
            Self::move_requires(*old(session), payload@, old(rng)@),
        ensures
            Self::move_ensures(*old(session), payload@, old(rng)@, r, *final(session), final(rng)@),
    ;
}

/// What `init_game` requires: a game this library implements (Hi-Lo is not
/// one of them) and what that game's `init` requires.
pub open spec fn game_init_requires(s0: GameSession) -> bool {
    match s0.game_type {
        GameType::Baccarat => baccarat::init_requires(s0),
        GameType::Blackjack => blackjack::init_requires(s0),
        GameType::CasinoWar => casino_war::init_requires(s0),
        GameType::Craps => craps::init_requires(s0),
        GameType::HiLo => false,
        GameType::Roulette => roulette::init_requires(s0),
        GameType::SicBo => sic_bo::init_requires(s0),
        GameType::ThreeCard => three_card::init_requires(s0),
        GameType::UltimateHoldem => ultimate_holdem::init_requires(s0),
        GameType::VideoPoker => video_poker::init_requires(s0),
    }
}

/// What `init_game` ensures: what the session's game's `init` ensures.
pub open spec fn game_init_ensures(s0: GameSession, p0: RngPoint, r: GameResult, s1: GameSession, p1: RngPoint) -> bool {
    match s0.game_type {
        GameType::Baccarat => baccarat::init_ensures(s0, p0, r, s1, p1),
        GameType::Blackjack => blackjack::init_ensures(s0, p0, r, s1, p1),
        GameType::CasinoWar => casino_war::init_ensures(s0, p0, r, s1, p1),
        GameType::Craps => craps::init_ensures(s0, p0, r, s1, p1),
        GameType::HiLo => false,
        GameType::Roulette => roulette::init_ensures(s0, p0, r, s1, p1),
        GameType::SicBo => sic_bo::init_ensures(s0, p0, r, s1, p1),
        GameType::ThreeCard => three_card::init_ensures(s0, p0, r, s1, p1),
        GameType::UltimateHoldem => ultimate_holdem::init_ensures(s0, p0, r, s1, p1),
        GameType::VideoPoker => video_poker::init_ensures(s0, p0, r, s1, p1),
    }
}

/// What `process_game_move` requires: a game this library implements and
/// what that game's `process_move` requires.
pub open spec fn game_move_requires(s0: GameSession, payload: Seq<u8>, p0: RngPoint) -> bool {
    match s0.game_type {
        GameType::Baccarat => baccarat::move_requires(s0, payload, p0),
        GameType::Blackjack => blackjack::move_requires(s0, payload, p0),
        GameType::CasinoWar => casino_war::move_requires(s0, payload, p0),
        GameType::Craps => craps::move_requires(s0, payload, p0),
        GameType::HiLo => false,
        GameType::Roulette => roulette::move_requires(s0, payload, p0),
        GameType::SicBo => sic_bo::move_requires(s0, payload, p0),
        GameType::ThreeCard => three_card::move_requires(s0, payload, p0),
        GameType::UltimateHoldem => ultimate_holdem::move_requires(s0, payload, p0),
        GameType::VideoPoker => video_poker::move_requires(s0, payload, p0),
    }
}

/// What `process_game_move` ensures: what the session's game's
/// `process_move` ensures.
pub open spec fn game_move_ensures(
    s0: GameSession,
    payload: Seq<u8>,
    p0: RngPoint,
    r: Result<GameResult, GameError>,
    s1: GameSession,
    p1: RngPoint,
) -> bool {
    match s0.game_type {
        GameType::Baccarat => baccarat::move_ensures(s0, payload, p0, r, s1, p1),
        GameType::Blackjack => blackjack::move_ensures(s0, payload, p0, r, s1, p1),
        GameType::CasinoWar => casino_war::move_ensures(s0, payload, p0, r, s1, p1),
        GameType::Craps => craps::move_ensures(s0, payload, p0, r, s1, p1),
        GameType::HiLo => false,
        GameType::Roulette => roulette::move_ensures(s0, payload, p0, r, s1, p1),
        GameType::SicBo => sic_bo::move_ensures(s0, payload, p0, r, s1, p1),
        GameType::ThreeCard => three_card::move_ensures(s0, payload, p0, r, s1, p1),
        GameType::UltimateHoldem => ultimate_holdem::move_ensures(s0, payload, p0, r, s1, p1),
        GameType::VideoPoker => video_poker::move_ensures(s0, payload, p0, r, s1, p1),
    }
}

/// Dispatch game initialization to the session's game.
pub fn init_game(session: &mut GameSession, rng: &mut GameRng) -> (r: GameResult)
    requires
        game_init_requires(*old(session)),
    ensures
        game_init_ensures(*old(session), old(rng)@, r, *final(session), final(rng)@),
{
    match session.game_type {
        GameType::Baccarat => baccarat::Baccarat::init(session, rng),
        GameType::Blackjack => blackjack::Blackjack::init(session, rng),
        GameType::CasinoWar => casino_war::CasinoWar::init(session, rng),
        GameType::Craps => craps::Craps::init(session, rng),
        GameType::HiLo => GameResult::Continue,
        GameType::Roulette => roulette::Roulette::init(session, rng),
        GameType::SicBo => sic_bo::SicBo::init(session, rng),
        GameType::ThreeCard => three_card::ThreeCardPoker::init(session, rng),
        GameType::UltimateHoldem => ultimate_holdem::UltimateHoldem::init(session, rng),
        GameType::VideoPoker => video_poker::VideoPoker::init(session, rng),
    }
}

/// Dispatch a move to the session's game.
pub fn process_game_move(session: &mut GameSession, payload: &[u8], rng: &mut GameRng) -> (r: Result<
    GameResult,
    GameError,
>)
    requires
        game_move_requires(*old(session), payload@, old(rng)@),
    ensures
        game_move_ensures(*old(session), payload@, old(rng)@, r, *final(session), final(rng)@),
{
    match session.game_type {
        GameType::Baccarat => baccarat::Baccarat::process_move(session, payload, rng),
        GameType::Blackjack => blackjack::Blackjack::process_move(session, payload, rng),
        GameType::CasinoWar => casino_war::CasinoWar::process_move(session, payload, rng),
        GameType::Craps => craps::Craps::process_move(session, payload, rng),
        GameType::HiLo => Err(GameError::InvalidMove),
        GameType::Roulette => roulette::Roulette::process_move(session, payload, rng),
        GameType::SicBo => sic_bo::SicBo::process_move(session, payload, rng),
        GameType::ThreeCard => three_card::ThreeCardPoker::process_move(session, payload, rng),
        GameType::UltimateHoldem => ultimate_holdem::UltimateHoldem::process_move(session, payload, rng),
        GameType::VideoPoker => video_poker::VideoPoker::process_move(session, payload, rng),
    }
}

} // verus!
