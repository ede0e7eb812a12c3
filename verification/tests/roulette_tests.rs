use nullspace_execution::casino::roulette::{
    bet_wins, is_red, payout_multiplier, BetType, Roulette, RouletteState,
};
use nullspace_execution::casino::{CasinoGame, GameError, GameResult, GameRng, GameSession, GameType, SuperModeState};

const SEED: &[u8] = b"roulette-test-seed";

fn create_test_session(bet: u64) -> GameSession {
    GameSession {
        id: 1,
        player: vec![2u8; 32],
        game_type: GameType::Roulette,
        bet,
        state_blob: vec![],
        move_count: 0,
        created_at: 0,
        is_complete: false,
        super_mode: SuperModeState::default(),
        is_tournament: false,
        tournament_id: None,
    }
}

fn place_bet_payload(bet_type: BetType, number: u8, amount: u64) -> Vec<u8> {
    let mut payload = vec![0, bet_type as u8, number];
    payload.extend_from_slice(&amount.to_be_bytes());
    payload
}

#[test]
fn test_is_red() {
    assert!(is_red(1));
    assert!(is_red(3));
    assert!(is_red(32));
    assert!(!is_red(2));
    assert!(!is_red(4));
    assert!(!is_red(0));
}

#[test]
fn test_bet_wins_straight() {
    assert!(bet_wins(BetType::Straight, 17, 17));
    assert!(!bet_wins(BetType::Straight, 17, 18));
    assert!(bet_wins(BetType::Straight, 0, 0));
    assert!(!bet_wins(BetType::Straight, 1, 0));
}

#[test]
fn test_bet_wins_colors() {
    assert!(bet_wins(BetType::Red, 0, 1));
    assert!(bet_wins(BetType::Red, 0, 3));
    assert!(!bet_wins(BetType::Red, 0, 2));
    assert!(!bet_wins(BetType::Red, 0, 0));
    assert!(bet_wins(BetType::Black, 0, 2));
    assert!(bet_wins(BetType::Black, 0, 4));
    assert!(!bet_wins(BetType::Black, 0, 1));
    assert!(!bet_wins(BetType::Black, 0, 0));
}

#[test]
fn test_bet_wins_even_odd() {
    assert!(bet_wins(BetType::Even, 0, 2));
    assert!(bet_wins(BetType::Even, 0, 36));
    assert!(!bet_wins(BetType::Even, 0, 1));
    assert!(!bet_wins(BetType::Even, 0, 0));
    assert!(bet_wins(BetType::Odd, 0, 1));
    assert!(bet_wins(BetType::Odd, 0, 35));
    assert!(!bet_wins(BetType::Odd, 0, 2));
    assert!(!bet_wins(BetType::Odd, 0, 0));
}

#[test]
fn test_bet_wins_low_high() {
    assert!(bet_wins(BetType::Low, 0, 1));
    assert!(bet_wins(BetType::Low, 0, 18));
    assert!(!bet_wins(BetType::Low, 0, 19));
    assert!(!bet_wins(BetType::Low, 0, 0));
    assert!(bet_wins(BetType::High, 0, 19));
    assert!(bet_wins(BetType::High, 0, 36));
    assert!(!bet_wins(BetType::High, 0, 18));
    assert!(!bet_wins(BetType::High, 0, 0));
}

#[test]
fn test_bet_wins_dozen() {
    assert!(bet_wins(BetType::Dozen, 0, 1));
    assert!(bet_wins(BetType::Dozen, 0, 12));
    assert!(!bet_wins(BetType::Dozen, 0, 13));
    assert!(bet_wins(BetType::Dozen, 1, 13));
    assert!(bet_wins(BetType::Dozen, 1, 24));
    assert!(!bet_wins(BetType::Dozen, 1, 12));
    assert!(bet_wins(BetType::Dozen, 2, 25));
    assert!(bet_wins(BetType::Dozen, 2, 36));
    assert!(!bet_wins(BetType::Dozen, 2, 24));
}

#[test]
fn test_bet_wins_column() {
    assert!(bet_wins(BetType::Column, 0, 1));
    assert!(bet_wins(BetType::Column, 0, 4));
    assert!(bet_wins(BetType::Column, 0, 34));
    assert!(!bet_wins(BetType::Column, 0, 2));
    assert!(bet_wins(BetType::Column, 1, 2));
    assert!(bet_wins(BetType::Column, 1, 35));
    assert!(!bet_wins(BetType::Column, 1, 3));
    assert!(bet_wins(BetType::Column, 2, 3));
    assert!(bet_wins(BetType::Column, 2, 36));
    assert!(!bet_wins(BetType::Column, 2, 1));
}

#[test]
fn roulette_test_payout_multipliers() {
    assert_eq!(payout_multiplier(BetType::Straight), 35);
    assert_eq!(payout_multiplier(BetType::Red), 1);
    assert_eq!(payout_multiplier(BetType::Black), 1);
    assert_eq!(payout_multiplier(BetType::Dozen), 2);
    assert_eq!(payout_multiplier(BetType::Column), 2);
}

#[test]
fn roulette_test_place_bet() {
    let mut session = create_test_session(100);
    let mut rng = GameRng::new(SEED, session.id, 0);
    Roulette::init(&mut session, &mut rng);
    assert!(!session.is_complete);

    let mut rng = GameRng::new(SEED, session.id, 1);
    let result = Roulette::process_move(&mut session, &place_bet_payload(BetType::Red, 0, 100), &mut rng);
    assert!(result.is_ok());
    assert!(!session.is_complete);

    let state = RouletteState::from_blob(&session.state_blob).expect("Failed to parse state");
    assert_eq!(state.bets.len(), 1);
    assert_eq!(state.bets[0].bet_type, BetType::Red);
    assert_eq!(state.bets[0].amount, 100);
}

#[test]
fn test_game_completes_after_spin() {
    let mut session = create_test_session(100);
    let mut rng = GameRng::new(SEED, session.id, 0);
    Roulette::init(&mut session, &mut rng);
    assert!(!session.is_complete);

    let mut rng = GameRng::new(SEED, session.id, 1);
    Roulette::process_move(&mut session, &place_bet_payload(BetType::Red, 0, 100), &mut rng).expect("move");

    let mut rng = GameRng::new(SEED, session.id, 2);
    let result = Roulette::process_move(&mut session, &[1], &mut rng);
    assert!(result.is_ok());
    assert!(session.is_complete);

    let state = RouletteState::from_blob(&session.state_blob).expect("Failed to parse state");
    assert!(state.result.is_some());
    assert!(state.result.expect("Result should be set") <= 36);
}

#[test]
fn roulette_test_multi_bet() {
    let mut session = create_test_session(100);
    let mut rng = GameRng::new(SEED, session.id, 0);
    Roulette::init(&mut session, &mut rng);

    let mut rng = GameRng::new(SEED, session.id, 1);
    Roulette::process_move(&mut session, &place_bet_payload(BetType::Red, 0, 50), &mut rng).expect("move");
    let mut rng = GameRng::new(SEED, session.id, 2);
    Roulette::process_move(&mut session, &place_bet_payload(BetType::Straight, 17, 25), &mut rng).expect("move");
    let mut rng = GameRng::new(SEED, session.id, 3);
    Roulette::process_move(&mut session, &place_bet_payload(BetType::Odd, 0, 25), &mut rng).expect("move");

    let state = RouletteState::from_blob(&session.state_blob).expect("Failed to parse state");
    assert_eq!(state.bets.len(), 3);

    let mut rng = GameRng::new(SEED, session.id, 4);
    let result = Roulette::process_move(&mut session, &[1], &mut rng);
    assert!(result.is_ok());
    assert!(session.is_complete);
}

#[test]
fn test_invalid_bet_number() {
    let mut session = create_test_session(100);
    let mut rng = GameRng::new(SEED, session.id, 0);
    Roulette::init(&mut session, &mut rng);

    let mut rng = GameRng::new(SEED, session.id, 1);
    let result = Roulette::process_move(&mut session, &place_bet_payload(BetType::Straight, 37, 100), &mut rng);
    assert!(matches!(result, Err(GameError::InvalidPayload)));

    let result = Roulette::process_move(&mut session, &place_bet_payload(BetType::Dozen, 3, 100), &mut rng);
    assert!(matches!(result, Err(GameError::InvalidPayload)));
}

#[test]
fn test_spin_without_bets() {
    let mut session = create_test_session(100);
    let mut rng = GameRng::new(SEED, session.id, 0);
    Roulette::init(&mut session, &mut rng);

    let mut rng = GameRng::new(SEED, session.id, 1);
    let result = Roulette::process_move(&mut session, &[1], &mut rng);
    assert!(matches!(result, Err(GameError::InvalidMove)));
}

#[test]
fn roulette_test_clear_bets() {
    let mut session = create_test_session(100);
    let mut rng = GameRng::new(SEED, session.id, 0);
    Roulette::init(&mut session, &mut rng);

    let mut rng = GameRng::new(SEED, session.id, 1);
    Roulette::process_move(&mut session, &place_bet_payload(BetType::Red, 0, 100), &mut rng).expect("move");

    let mut rng = GameRng::new(SEED, session.id, 2);
    let result = Roulette::process_move(&mut session, &[2], &mut rng);
    assert!(result.is_ok());

    let state = RouletteState::from_blob(&session.state_blob).expect("Failed to parse state");
    assert!(state.bets.is_empty());
}

#[test]
fn test_straight_win_payout() {
    for session_id in 1..100 {
        let mut test_session = create_test_session(100);
        test_session.id = session_id;
        let mut rng = GameRng::new(SEED, session_id, 0);
        Roulette::init(&mut test_session, &mut rng);

        let mut rng = GameRng::new(SEED, session_id, 1);
        Roulette::process_move(&mut test_session, &place_bet_payload(BetType::Straight, 0, 100), &mut rng).expect("move");

        let mut rng = GameRng::new(SEED, session_id, 2);
        let result = Roulette::process_move(&mut test_session, &[1], &mut rng);
        if let Ok(GameResult::Win(amount)) = result {
            assert_eq!(amount, 100 * 36);
            return;
        }
    }
}

#[test]
fn roulette_spin_matches_bounded_draw() {
    // The spin is the first bounded draw from the move's stream.
    let mut session = create_test_session(100);
    let mut rng = GameRng::new(SEED, 11, 0);
    Roulette::init(&mut session, &mut rng);
    Roulette::process_move(&mut session, &place_bet_payload(BetType::Red, 0, 10), &mut rng).expect("move");
    let mut rng = GameRng::new(SEED, 11, 1);
    let mut probe = GameRng::new(SEED, 11, 1);
    let expected = probe.spin_roulette();
    let result = Roulette::process_move(&mut session, &[1], &mut rng).expect("spin");
    let state = RouletteState::from_blob(&session.state_blob).unwrap();
    assert_eq!(state.result, Some(expected));
    let red = is_red(expected);
    match result {
        GameResult::Win(w) => {
            assert!(red);
            assert_eq!(w, 20);
        }
        GameResult::Loss => assert!(!red),
        other => panic!("unexpected {:?}", other),
    }
}
