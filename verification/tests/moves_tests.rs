use nullspace_execution::casino::roulette::BetType;
use nullspace_execution::casino::{init_game, GameError, GameResult, GameRng, GameSession, GameType, SuperModeState};
use nullspace_execution::layer::ProgressiveMeters;
use nullspace_execution::moves::{begin_game_move, finish_game_move, start_game};
use nullspace_execution::settlement::{PlayerAccount, Shortfall, StartError};

const SEED: &[u8] = b"game-move-test-seed";

fn roulette_session() -> GameSession {
    GameSession {
        id: 9,
        player: vec![5u8; 32],
        game_type: GameType::Roulette,
        bet: 100,
        state_blob: vec![],
        move_count: 0,
        created_at: 0,
        is_complete: false,
        super_mode: SuperModeState::default(),
        is_tournament: false,
        tournament_id: None,
    }
}

fn account(chips: u64) -> PlayerAccount {
    PlayerAccount {
        chips,
        shields: 0,
        doubles: 0,
        tournament_chips: 0,
        tournament_shields: 0,
        tournament_doubles: 0,
        active_shield: false,
        active_double: false,
        active_super: false,
        aura_meter: 0,
    }
}

fn red_bet(amount: u64) -> Vec<u8> {
    let mut payload = vec![0, BetType::Red as u8, 0];
    payload.extend_from_slice(&amount.to_be_bytes());
    payload
}

fn started() -> GameSession {
    let mut s = roulette_session();
    let mut rng = GameRng::new(SEED, s.id, 0);
    init_game(&mut s, &mut rng);
    s
}

#[test]
fn test_begin_game_move_checks() {
    assert_eq!(begin_game_move(None, &[5u8; 32]).unwrap_err(), GameError::SessionNotFound);
    assert_eq!(begin_game_move(Some(started()), &[6u8; 32]).unwrap_err(), GameError::NotSessionOwner);
    let mut done = started();
    done.is_complete = true;
    assert_eq!(begin_game_move(Some(done), &[5u8; 32]).unwrap_err(), GameError::GameAlreadyComplete);
    let counted = begin_game_move(Some(started()), &[5u8; 32]).unwrap();
    assert_eq!(counted.move_count, 1);
}

fn craps_started() -> GameSession {
    let mut s = GameSession { game_type: GameType::Craps, ..roulette_session() };
    let mut rng = GameRng::new(SEED, s.id, 0);
    init_game(&mut s, &mut rng);
    s
}

fn pass_bet(amount: u64) -> Vec<u8> {
    let mut payload = vec![0, 0, 0];
    payload.extend_from_slice(&amount.to_be_bytes());
    payload
}

#[test]
fn test_finish_game_move_places_then_completes() {
    let meters = ProgressiveMeters { three_card: 0, uth: 0 };
    let s = begin_game_move(Some(started()), &[5u8; 32]).unwrap();
    let mut rng = GameRng::new(SEED, s.id, s.move_count);
    let step = finish_game_move(s, Some(account(1_000)), meters, &red_bet(100), &mut rng, 0).unwrap();
    assert_eq!(step.result, GameResult::Continue);
    assert_eq!(step.account, Some(account(1_000)));
    assert_eq!(step.house_pnl, 0);
    assert!(step.write_session);
    assert!(!step.session.is_complete);

    let s = begin_game_move(Some(step.session), &[5u8; 32]).unwrap();
    assert_eq!(s.move_count, 2);
    let mut rng = GameRng::new(SEED, s.id, s.move_count);
    let spin = finish_game_move(s, step.account, meters, &[1], &mut rng, 0).unwrap();
    assert!(spin.session.is_complete);
    assert!(spin.write_session);
    assert!(spin.completion.is_some());
    match spin.result {
        GameResult::Win(w) => {
            assert_eq!(spin.account.unwrap().chips, 1_000 + w);
            assert_eq!(spin.house_pnl, -(w as i128));
        },
        GameResult::Loss => {
            assert_eq!(spin.account.unwrap().chips, 1_000);
            assert_eq!(spin.completion.unwrap().payout, -100);
        },
        other => panic!("unexpected result {:?}", other),
    }
}

#[test]
fn test_finish_game_move_charges_a_table_bet() {
    let meters = ProgressiveMeters { three_card: 0, uth: 0 };
    let s = begin_game_move(Some(craps_started()), &[5u8; 32]).unwrap();
    let mut rng = GameRng::new(SEED, s.id, s.move_count);
    let step = finish_game_move(s, Some(account(1_000)), meters, &pass_bet(100), &mut rng, 0).unwrap();
    assert_eq!(step.result, GameResult::ContinueWithUpdate { payout: -100 });
    assert_eq!(step.account.unwrap().chips, 900);
    assert_eq!(step.house_pnl, 100);
    assert!(step.write_session);
}

#[test]
fn test_finish_game_move_shortfall_and_refusal() {
    let meters = ProgressiveMeters { three_card: 0, uth: 0 };
    let s = begin_game_move(Some(craps_started()), &[5u8; 32]).unwrap();
    let mut rng = GameRng::new(SEED, s.id, s.move_count);
    let step = finish_game_move(s, Some(account(50)), meters, &pass_bet(100), &mut rng, 0).unwrap();
    assert_eq!(step.shortfall, Some(Shortfall { have: 50, need: 100 }));
    assert!(!step.write_session);
    assert!(step.account.is_none());

    let s = begin_game_move(Some(started()), &[5u8; 32]).unwrap();
    let mut rng = GameRng::new(SEED, s.id, s.move_count);
    assert_eq!(finish_game_move(s, Some(account(50)), meters, &[9], &mut rng, 0).unwrap_err(), GameError::InvalidMove);
}

#[test]
fn test_start_game_refusals() {
    let mut rng = GameRng::new(SEED, 3, 0);
    let none = start_game(None, None, None, GameType::Roulette, 0, 3, &[5u8; 32], 7, 0, false, vec![], &mut rng);
    assert_eq!(none.unwrap_err(), StartError::PlayerNotFound);
    let zero = start_game(Some(account(1_000)), None, None, GameType::Blackjack, 0, 3, &[5u8; 32], 7, 0, false, vec![], &mut rng);
    assert_eq!(zero.unwrap_err(), StartError::InvalidBet);
    let short = start_game(Some(account(10)), None, None, GameType::Blackjack, 100, 3, &[5u8; 32], 7, 0, false, vec![], &mut rng);
    assert_eq!(short.unwrap_err(), StartError::InsufficientFunds { have: 10, need: 100 });
    let taken = start_game(Some(account(1_000)), None, None, GameType::Blackjack, 100, 3, &[5u8; 32], 7, 0, true, vec![], &mut rng);
    assert_eq!(taken.unwrap_err(), StartError::SessionExists);
}

#[test]
fn test_start_game_creates_and_charges() {
    let mut rng = GameRng::new(SEED, 4, 0);
    let step = start_game(Some(account(1_000)), Some(77), Some(false), GameType::Roulette, 0, 4, &[5u8; 32], 12, 0, false, vec![], &mut rng)
        .unwrap();
    assert_eq!(step.result, GameResult::Continue);
    assert_eq!(step.account, account(1_000));
    assert_eq!(step.house_pnl, 0);
    assert!(!step.keep_tournament);
    assert_eq!(step.session.id, 4);
    assert_eq!(step.session.player, vec![5u8; 32]);
    assert_eq!(step.session.created_at, 12);
    assert!(!step.session.is_tournament);
    assert_eq!(step.session.tournament_id, None);
    assert!(!step.session.is_complete);

    let mut rng = GameRng::new(SEED, 5, 0);
    let t = PlayerAccount { tournament_chips: 500, ..account(0) };
    let step = start_game(Some(t), Some(77), Some(true), GameType::CasinoWar, 100, 5, &[5u8; 32], 12, 0, false, vec![], &mut rng)
        .unwrap();
    assert!(step.session.is_tournament);
    assert_eq!(step.session.tournament_id, Some(77));
    assert!(step.keep_tournament);
    assert_eq!(step.account.tournament_chips, 400);
    assert_eq!(step.house_pnl, 0);
}
