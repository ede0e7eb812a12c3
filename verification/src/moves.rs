//! A player's move in a casino session, as the execution layer runs it: the
//! session is looked up and checked, its move count advances, the game takes
//! the move with the random stream of that move, the progressive meters see
//! the result, and the result is settled against the player's account. The
//! layer reads the session, the account and the meters from its store, seeds
//! the stream from the block seed, the session id and the new move count,
//! and writes back what these functions give.

use crate::casino::session::{GameSession, GameType, SuperModeState, SuperMultiplier};
use crate::casino::super_mode::{enhance_multipliers_for_aura_round, is_boosted, is_super_aura_round};
use crate::casino::{
    game_init_ensures, game_init_requires, game_move_ensures, game_move_requires, init_game, process_game_move, GameError,
    GameResult, GameRng, RngPoint,
};
use crate::layer::{apply_progressive_meters_for_completion, meters_after, ProgressiveMeters};
use crate::settlement::{
    charge_game_start, settle_defined, settle_game_result, settle_spec, settle_start_result, start_charge,
    start_result_spec, Completion, PlayerAccount, Shortfall, StartError,
};
use vstd::prelude::*;

verus! {

/// Whether two byte strings are equal.
fn same_bytes(a: &[u8], b: &[u8]) -> (r: bool)
    ensures
        r == (a@ == b@),
{
    if a.len() != b.len() {
        return false;
    }
    let mut i: usize = 0;
    while i < a.len()
        invariant
            i <= a.len(),
            a.len() == b.len(),
            forall|j: int| 0 <= j < i ==> a@[j] == b@[j],
        decreases a.len() - i,
    {
        if a[i] != b[i] {
            return false;
        }
        i = i + 1;
    }
    assert(a@ =~= b@);
    true
}

/// What the session's game requires of a move (`game_move_requires`), kept
/// folded here.
#[verifier::opaque]
pub open spec fn move_allowed(s0: GameSession, payload: Seq<u8>, p0: RngPoint) -> bool {
    game_move_requires(s0, payload, p0)
}

/// What the session's game ensures of a move (`game_move_ensures`), kept
/// folded here.
#[verifier::opaque]
pub open spec fn move_played(
    s0: GameSession,
    payload: Seq<u8>,
    p0: RngPoint,
    r: Result<GameResult, GameError>,
    s1: GameSession,
    p1: RngPoint,
) -> bool {
    game_move_ensures(s0, payload, p0, r, s1, p1)
}

/// The game takes the move.
fn play(session: &mut GameSession, payload: &[u8], rng: &mut GameRng) -> (r: Result<GameResult, GameError>)
    requires
        move_allowed(*old(session), payload@, old(rng)@),
    ensures
        move_played(*old(session), payload@, old(rng)@, r, *final(session), final(rng)@),
{
    proof {
        reveal(move_allowed);
        reveal(move_played);
    }
    process_game_move(session, payload, rng)
}

/// Why a move is refused before the game sees it, if it is: no session, a
/// session of another player, or one already complete.
pub open spec fn move_check(session: Option<GameSession>, player: Seq<u8>) -> Option<GameError> {
    match session {
        None => Some(GameError::SessionNotFound),
        Some(s) => if s.player@ != player {
            Some(GameError::NotSessionOwner)
        } else if s.is_complete {
            Some(GameError::GameAlreadyComplete)
        } else {
            None
        },
    }
}

/// Checks that `player` may move in `session` and counts the move: the
/// session with its move count advanced by one, whose new count seeds the
/// random stream of the move.
pub fn begin_game_move(session: Option<GameSession>, player: &[u8]) -> (r: Result<GameSession, GameError>)
    requires
        move_check(session, player@) is None ==> session.unwrap().move_count < u32::MAX,
    ensures
        match move_check(session, player@) {
            Some(e) => r == Err::<GameSession, GameError>(e),
            None => r == Ok::<GameSession, GameError>(
                GameSession { move_count: (session.unwrap().move_count + 1) as u32, ..session.unwrap() },
            ),
        },
{
    match session {
        None => Err(GameError::SessionNotFound),
        Some(s) => {
            if !same_bytes(s.player.as_slice(), player) {
                return Err(GameError::NotSessionOwner);
            }
            if s.is_complete {
                return Err(GameError::GameAlreadyComplete);
            }
            let mut s = s;
            s.move_count = s.move_count + 1;
            Ok(s)
        },
    }
}

/// What a move that the game took leaves to be written: the session after
/// the move (complete when the result ends it) and whether it is written
/// back, the player's account (when it changes), the progressive meters,
/// the change to the house's profit and loss, the result as the game gave
/// it and as the meters leave it, the completion report, and the shortfall
/// that refused an extra wager.
#[derive(Clone, Debug)]
pub struct MoveStep {
    pub session: GameSession,
    pub write_session: bool,
    pub account: Option<PlayerAccount>,
    pub meters: ProgressiveMeters,
    pub house_pnl: i128,
    pub game_result: GameResult,
    pub result: GameResult,
    pub completion: Option<Completion>,
    pub shortfall: Option<Shortfall>,
}

/// Whether a result ends the session.
pub open spec fn completes(result: GameResult) -> bool {
    !(result is Continue || result is ContinueWithUpdate)
}

/// The session as written back after a result.
pub open spec fn written_session(s: GameSession, result: GameResult) -> GameSession {
    if completes(result) {
        GameSession { is_complete: true, ..s }
    } else {
        s
    }
}

/// What a move leaves once the game gave `result` and the session `moved`:
/// the meters see the result first. Without an account the session alone is
/// written. A settled result writes the session and the account. A shortfall
/// writes nothing but the meters, except after a loss with an extra wager,
/// whose session is written complete before the wager is taken.
pub open spec fn step_spec(
    moved: GameSession,
    result: GameResult,
    account: Option<PlayerAccount>,
    meters: ProgressiveMeters,
    fee: u64,
) -> MoveStep {
    let (m, res) = meters_after(meters, moved, result);
    let base = MoveStep {
        session: written_session(moved, res),
        write_session: true,
        account: None,
        meters: m,
        house_pnl: 0,
        game_result: result,
        result: res,
        completion: None,
        shortfall: None,
    };
    match account {
        None => base,
        Some(a) => match settle_spec(a, moved.bet, moved.is_tournament, moved.super_mode.is_active, res, fee) {
            Ok(st) => MoveStep { account: Some(st.account), house_pnl: st.house_pnl, completion: st.completion, ..base },
            Err(sh) => MoveStep { write_session: res is LossWithExtraDeduction, shortfall: Some(sh), ..base },
        },
    }
}

/// What `finish_game_move` requires: what the game requires of the move, and,
/// for every outcome the game may give, that settling its result against the
/// account is defined.
pub open spec fn finish_requires(
    session: GameSession,
    account: Option<PlayerAccount>,
    meters: ProgressiveMeters,
    payload: Seq<u8>,
    p0: RngPoint,
    fee: u64,
) -> bool {
    &&& move_allowed(session, payload, p0)
    &&& forall|res: GameResult, s1: GameSession, p1: RngPoint|
        #[trigger] move_played(session, payload, p0, Ok(res), s1, p1) ==> (account matches Some(a) ==> settle_defined(
            a,
            s1.bet,
            s1.is_tournament,
            s1.super_mode.is_active,
            meters_after(meters, s1, res).1,
            fee,
        ))
}

/// Lets the game take the move of a counted session (see
/// [`begin_game_move`]) with the stream `rng`, runs the progressive meters on
/// the result and settles it against the player's account, when there is
/// one. A move the game refuses is refused as an invalid move and leaves
/// everything as it was. `super_fee` is the super-mode fee on the result's
/// extra wager.
pub fn finish_game_move(
    session: GameSession,
    account: Option<PlayerAccount>,
    meters: ProgressiveMeters,
    payload: &[u8],
    rng: &mut GameRng,
    super_fee: u64,
) -> (r: Result<MoveStep, GameError>)
    requires
        finish_requires(session, account, meters, payload@, old(rng)@, super_fee),
    ensures
        match r {
            Ok(step) => exists|s1: GameSession|
                {
                    &&& #[trigger] move_played(
                        session,
                        payload@,
                        old(rng)@,
                        Ok(step.game_result),
                        s1,
                        final(rng)@,
                    )
                    &&& step == step_spec(s1, step.game_result, account, meters, super_fee)
                },
            Err(e) => {
                &&& e == GameError::InvalidMove
                &&& exists|ge: GameError, s1: GameSession|
                    #[trigger] move_played(session, payload@, old(rng)@, Err(ge), s1, final(rng)@)
            },
        },
{
    let ghost s0 = session;
    let mut moved = session;
    let played = play(&mut moved, payload, rng);
    let game_result = match played {
        Ok(res) => res,
        Err(ge) => {
            assert(move_played(s0, payload@, old(rng)@, Err(ge), moved, rng@));
            return Err(GameError::InvalidMove);
        },
    };
    let ghost s1 = moved;
    assert(move_played(s0, payload@, old(rng)@, Ok(game_result), s1, rng@));
    let mut m = meters;
    let result = apply_progressive_meters_for_completion(&mut m, &moved, game_result);
    let completes_now = match result {
        GameResult::Continue => false,
        GameResult::ContinueWithUpdate { .. } => false,
        _ => true,
    };
    let settled = match account {
        None => None,
        Some(a) => Some(settle_game_result(&a, &moved, result, super_fee)),
    };
    if completes_now {
        moved.is_complete = true;
    }
    let step = match settled {
        None => MoveStep {
            session: moved,
            write_session: true,
            account: None,
            meters: m,
            house_pnl: 0,
            game_result,
            result,
            completion: None,
            shortfall: None,
        },
        Some(Ok(st)) => MoveStep {
            session: moved,
            write_session: true,
            account: Some(st.account),
            meters: m,
            house_pnl: st.house_pnl,
            game_result,
            result,
            completion: st.completion,
            shortfall: None,
        },
        Some(Err(sh)) => {
            let write_session = match result {
                GameResult::LossWithExtraDeduction(_) => true,
                _ => false,
            };
            MoveStep {
                session: moved,
                write_session,
                account: None,
                meters: m,
                house_pnl: 0,
                game_result,
                result,
                completion: None,
                shortfall: Some(sh),
            }
        },
    };
    assert(step == step_spec(s1, game_result, account, meters, super_fee));
    Ok(step)
}

/// What the session's game requires of its start (`game_init_requires`),
/// kept folded here.
#[verifier::opaque]
pub open spec fn start_allowed(s0: GameSession) -> bool {
    game_init_requires(s0)
}

/// What the session's game ensures of its start (`game_init_ensures`), kept
/// folded here.
#[verifier::opaque]
pub open spec fn start_played(s0: GameSession, p0: RngPoint, r: GameResult, s1: GameSession, p1: RngPoint) -> bool {
    game_init_ensures(s0, p0, r, s1, p1)
}

/// The game sets up its session.
fn start(session: &mut GameSession, rng: &mut GameRng) -> (r: GameResult)
    requires
        start_allowed(*old(session)),
    ensures
        start_played(*old(session), old(rng)@, r, *final(session), final(rng)@),
{
    proof {
        reveal(start_allowed);
        reveal(start_played);
    }
    init_game(session, rng)
}

/// Why a game cannot start: no player, a zero bet where the game needs one,
/// a stack short of the bet and the super-mode fee, or a session id already
/// taken (checked in that order).
pub open spec fn start_refusal(
    account: Option<PlayerAccount>,
    tournament_active: Option<bool>,
    game: GameType,
    bet: u64,
    fee: u64,
    session_exists: bool,
) -> Option<StartError> {
    match account {
        None => Some(StartError::PlayerNotFound),
        Some(a) => match start_charge(a, game, bet, tournament_active == Some(true), fee) {
            Err(e) => Some(e),
            Ok(_) => if session_exists {
                Some(StartError::SessionExists)
            } else {
                None
            },
        },
    }
}

/// The super-mode multipliers a session starts with: those drawn for it,
/// raised by half in a Super Aura Round.
pub open spec fn started_multipliers(drawn: Seq<SuperMultiplier>, got: Seq<SuperMultiplier>, aura_round: bool) -> bool {
    &&& got.len() == drawn.len()
    &&& forall|i: int|
        0 <= i < drawn.len() ==> if aura_round {
            is_boosted(#[trigger] got[i], drawn[i])
        } else {
            got[i] == drawn[i]
        }
}

/// Whether `s` is the session a game starts with: the player's, with no state
/// and no move yet, created at block `view`, in the mode of the player's
/// active tournament when that tournament runs, and with super mode (and its
/// multipliers) when the player asked for it.
pub open spec fn created_session(
    s: GameSession,
    a: PlayerAccount,
    tournament: Option<u64>,
    tournament_active: Option<bool>,
    game: GameType,
    bet: u64,
    session_id: u64,
    player: Seq<u8>,
    view: u64,
    drawn: Seq<SuperMultiplier>,
) -> bool {
    let t = tournament_active == Some(true);
    &&& s.id == session_id
    &&& s.player@ == player
    &&& s.game_type == game
    &&& s.bet == bet
    &&& s.state_blob@.len() == 0
    &&& s.move_count == 0
    &&& s.created_at == view
    &&& !s.is_complete
    &&& s.is_tournament == t
    &&& s.tournament_id == (if t {
        tournament
    } else {
        None
    })
    &&& s.super_mode.is_active == a.active_super
    &&& s.super_mode.streak_level == 0
    &&& if a.active_super {
        started_multipliers(drawn, s.super_mode.multipliers@, a.aura_meter >= 5)
    } else {
        s.super_mode.multipliers@.len() == 0
    }
}

/// A game that started: the session after its game set it up, the account
/// after the charge (and after the result, when the game ended at once), the
/// change to the house's profit and loss, the game's result, its completion
/// report, and whether the player's active tournament still stands.
#[derive(Clone, Debug)]
pub struct StartStep {
    pub session: GameSession,
    pub account: PlayerAccount,
    pub house_pnl: i128,
    pub result: GameResult,
    pub completion: Option<Completion>,
    pub keep_tournament: bool,
}

/// What `start_game` requires: for every session it may create, what its
/// game requires of the start, that settling any result the game may give at
/// once is defined, and that a Super Aura Round can raise the multipliers.
pub open spec fn start_requires(
    account: Option<PlayerAccount>,
    tournament: Option<u64>,
    tournament_active: Option<bool>,
    game: GameType,
    bet: u64,
    session_id: u64,
    player: Seq<u8>,
    view: u64,
    fee: u64,
    session_exists: bool,
    drawn: Seq<SuperMultiplier>,
    p0: RngPoint,
) -> bool {
    start_refusal(account, tournament_active, game, bet, fee, session_exists) is None ==> {
        let a = account.unwrap();
        let charged = start_charge(a, game, bet, tournament_active == Some(true), fee).unwrap().0;
        &&& a.active_super && a.aura_meter >= 5 ==> forall|i: int|
            0 <= i < drawn.len() ==> #[trigger] drawn[i].multiplier <= u16::MAX / 3
        &&& forall|s0: GameSession|
            #[trigger] created_session(s0, a, tournament, tournament_active, game, bet, session_id, player, view, drawn)
                ==> start_allowed(s0)
        &&& forall|s0: GameSession, r: GameResult, s1: GameSession, p1: RngPoint|
            #[trigger] start_played(s0, p0, r, s1, p1) ==> settle_defined(
                charged,
                s1.bet,
                s1.is_tournament,
                s1.super_mode.is_active,
                r,
                0,
            )
    }
}

/// Starts a game for a player, as the execution layer does: the player must
/// exist; the session plays in the player's active tournament when it runs
/// (`tournament_active` tells whether the tournament the player is in, if
/// any, runs); the bet and the super-mode fee `super_fee` are charged; the
/// session is created, with super mode and the multipliers `drawn` for it
/// when the player asked for it; its game sets it up with the stream `rng`
/// (of the session's move zero); and a result that ends the game at once is
/// settled.
pub fn start_game(
    account: Option<PlayerAccount>,
    tournament: Option<u64>,
    tournament_active: Option<bool>,
    game_type: GameType,
    bet: u64,
    session_id: u64,
    player: &[u8],
    view: u64,
    super_fee: u64,
    session_exists: bool,
    drawn: Vec<SuperMultiplier>,
    rng: &mut GameRng,
) -> (r: Result<StartStep, StartError>)
    requires
        start_requires(
            account,
            tournament,
            tournament_active,
            game_type,
            bet,
            session_id,
            player@,
            view,
            super_fee,
            session_exists,
            drawn@,
            old(rng)@,
        ),
    ensures
        match start_refusal(account, tournament_active, game_type, bet, super_fee, session_exists) {
            Some(e) => r == Err::<StartStep, StartError>(e) && final(rng)@ == old(rng)@,
            None => r matches Ok(step) && {
                let a = account.unwrap();
                let charge = start_charge(a, game_type, bet, tournament_active == Some(true), super_fee).unwrap();
                &&& step.keep_tournament == (tournament_active != Some(false))
                &&& exists|s0: GameSession|
                    {
                        &&& created_session(
                            s0,
                            a,
                            tournament,
                            tournament_active,
                            game_type,
                            bet,
                            session_id,
                            player@,
                            view,
                            drawn@,
                        )
                        &&& #[trigger] start_played(s0, old(rng)@, step.result, step.session, final(rng)@)
                    }
                &&& match start_result_spec(
                    charge.0,
                    step.session.bet,
                    step.session.is_tournament,
                    step.session.super_mode.is_active,
                    step.result,
                ) {
                    Some(st) => step.account == st.account && step.house_pnl == charge.1 + st.house_pnl
                        && step.completion == st.completion,
                    None => step.account == charge.0 && step.house_pnl == charge.1 && step.completion is None,
                }
            },
        },
{
    let a = match account {
        None => {
            return Err(StartError::PlayerNotFound);
        },
        Some(a) => a,
    };
    let is_tournament = match tournament_active {
        Some(true) => true,
        _ => false,
    };
    let (charged, charge_pnl) = match charge_game_start(&a, game_type, bet, is_tournament, super_fee) {
        Err(e) => {
            return Err(e);
        },
        Ok(c) => c,
    };
    if session_exists {
        return Err(StartError::SessionExists);
    }
    let mut multipliers = drawn;
    let wants_super = a.active_super;
    if wants_super {
        if is_super_aura_round(a.aura_meter) {
            enhance_multipliers_for_aura_round(multipliers.as_mut_slice());
        }
    } else {
        multipliers = Vec::new();
    }
    let mut id_bytes: Vec<u8> = Vec::new();
    let mut i: usize = 0;
    while i < player.len()
        invariant
            i <= player.len(),
            id_bytes@ == player@.subrange(0, i as int),
        decreases player.len() - i,
    {
        id_bytes.push(player[i]);
        i = i + 1;
    }
    assert(id_bytes@ =~= player@);
    let mut session = GameSession {
        id: session_id,
        player: id_bytes,
        game_type,
        bet,
        state_blob: Vec::new(),
        move_count: 0,
        created_at: view,
        is_complete: false,
        super_mode: SuperModeState { is_active: wants_super, multipliers, streak_level: 0 },
        is_tournament,
        tournament_id: if is_tournament {
            tournament
        } else {
            None
        },
    };
    let ghost s0 = session;
    assert(created_session(s0, a, tournament, tournament_active, game_type, bet, session_id, player@, view, drawn@));
    let result = start(&mut session, rng);
    assert(start_played(s0, old(rng)@, result, session, rng@));
    let settled = settle_start_result(&charged, &session, result);
    let (account_after, pnl, completion) = match settled {
        Some(st) => (st.account, charge_pnl + st.house_pnl, st.completion),
        None => (charged, charge_pnl, None),
    };
    let keep_tournament = match tournament_active {
        Some(false) => false,
        _ => true,
    };
    Ok(StartStep { session, account: account_after, house_pnl: pnl, result, completion, keep_tournament })
}

} // verus!
