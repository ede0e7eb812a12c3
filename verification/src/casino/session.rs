//! Game sessions, players and the super-mode data they carry.

use vstd::prelude::*;

verus! {

/// The casino games.
#[derive(PartialEq, Eq, Structural, Debug, Clone, Copy)]
pub enum GameType {
    Baccarat,
    Blackjack,
    CasinoWar,
    Craps,
    HiLo,
    Roulette,
    SicBo,
    ThreeCard,
    UltimateHoldem,
    VideoPoker,
}

/// What a super-mode multiplier is keyed on.
#[derive(PartialEq, Eq, Structural, Debug, Clone, Copy)]
pub enum SuperType {
    /// A specific card (0-51).
    Card,
    /// A roulette number (0-36).
    Number,
    /// A dice total.
    Total,
    /// A card rank (0-12), any suit.
    Rank,
    /// A card suit (0-3), any rank.
    Suit,
}

/// One super-mode multiplier.
#[derive(PartialEq, Eq, Structural, Debug, Clone, Copy)]
pub struct SuperMultiplier {
    pub id: u8,
    pub multiplier: u16,
    pub super_type: SuperType,
}

/// Super-mode state of a session.
#[derive(Debug, Clone)]
pub struct SuperModeState {
    pub is_active: bool,
    pub multipliers: Vec<SuperMultiplier>,
    pub streak_level: u8,
}

impl SuperModeState {
    /// Inactive super mode with no multipliers.
    pub fn new() -> (s: Self)
        ensures
            !s.is_active,
            s.multipliers@.len() == 0,
            s.streak_level == 0,
    {
        SuperModeState { is_active: false, multipliers: Vec::new(), streak_level: 0 }
    }
}

impl Default for SuperModeState {
    fn default() -> (s: Self)
        ensures
            !s.is_active,
            s.multipliers@.len() == 0,
            s.streak_level == 0,
    {
        SuperModeState::new()
    }
}

/// A game session: the wager, the game's encoded state and its progress.
#[derive(Debug, Clone)]
pub struct GameSession {
    pub id: u64,
    /// The player's public key bytes.
    pub player: Vec<u8>,
    pub game_type: GameType,
    pub bet: u64,
    pub state_blob: Vec<u8>,
    pub move_count: u32,
    pub created_at: u64,
    pub is_complete: bool,
    pub super_mode: SuperModeState,
    pub is_tournament: bool,
    pub tournament_id: Option<u64>,
}

/// Two sessions agree on everything a move leaves alone: all fields but the
/// state blob, the move count and the completion flag.
pub open spec fn session_fields_kept(a: GameSession, b: GameSession) -> bool {
    &&& a.id == b.id
    &&& a.player == b.player
    &&& a.game_type == b.game_type
    &&& a.bet == b.bet
    &&& a.created_at == b.created_at
    &&& a.super_mode == b.super_mode
    &&& a.is_tournament == b.is_tournament
    &&& a.tournament_id == b.tournament_id
}

/// A casino player's balance and modifiers.
#[derive(Debug, Clone)]
pub struct Player {
    pub name: String,
    pub chips: u64,
    pub shields: u32,
    pub doubles: u32,
    pub active_shield: bool,
    pub active_double: bool,
    pub active_super: bool,
    pub aura_meter: u8,
}

impl Player {
    /// A new player with the given name, no chips, no modifiers.
    pub fn new(name: String) -> (p: Self)
        ensures
            p.name@ == name@,
            p.chips == 0,
            p.shields == 0,
            p.doubles == 0,
            !p.active_shield,
            !p.active_double,
            !p.active_super,
            p.aura_meter == 0,
    {
        Player {
            name,
            chips: 0,
            shields: 0,
            doubles: 0,
            active_shield: false,
            active_double: false,
            active_super: false,
            aura_meter: 0,
        }
    }
}

} // verus!
