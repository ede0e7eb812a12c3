use nullspace_execution::casino::{init_game, process_game_move, GameResult, GameRng, GameSession, GameType, SuperModeState};

const SEED: &[u8] = b"dispatch-test-seed";

fn create_session(game_type: GameType, bet: u64, session_id: u64) -> GameSession {
    GameSession {
        id: session_id,
        player: vec![1u8; 32],
        game_type,
        bet,
        state_blob: vec![],
        move_count: 0,
        created_at: 0,
        is_complete: false,
        super_mode: SuperModeState::default(),
        is_tournament: false,
        tournament_id: None,
    }
}

/// Every game this library implements starts without completing.
#[test]
fn test_all_games_initialize() {
    for (i, game_type) in [
        GameType::Baccarat,
        GameType::Blackjack,
        GameType::CasinoWar,
        GameType::Craps,
        GameType::Roulette,
        GameType::SicBo,
        GameType::ThreeCard,
        GameType::UltimateHoldem,
        GameType::VideoPoker,
    ]
    .iter()
    .enumerate()
    {
        let mut session = create_session(*game_type, 100, i as u64 + 1);
        let mut rng = GameRng::new(SEED, session.id, 0);
        init_game(&mut session, &mut rng);
        assert!(!session.is_complete, "Game {:?} should not be complete after init", game_type);
        assert!(!session.state_blob.is_empty());
    }
}

#[test]
fn test_video_poker_hold_all() {
    let mut session = create_session(GameType::VideoPoker, 100, 1);
    let mut rng = GameRng::new(SEED, session.id, 0);
    init_game(&mut session, &mut rng);

    // Stage + 5 cards.
    assert_eq!(session.state_blob.len(), 6);

    let mut rng = GameRng::new(SEED, session.id, 1);
    let result = process_game_move(&mut session, &[0b11111], &mut rng);
    assert!(result.is_ok());
    assert!(session.is_complete);
}

#[test]
fn test_casino_war_tie() {
    for session_id in 1..200 {
        let mut session = create_session(GameType::CasinoWar, 100, session_id);
        let mut rng = GameRng::new(SEED, session_id, 0);
        init_game(&mut session, &mut rng);

        let mut rng = GameRng::new(SEED, session_id, 1);
        let result = process_game_move(&mut session, &[0], &mut rng);

        if matches!(result, Ok(GameResult::Continue)) {
            let mut rng = GameRng::new(SEED, session_id, 2);
            let result = process_game_move(&mut session, &[1], &mut rng);
            assert!(result.is_ok());
            assert!(session.is_complete);
            return;
        }
    }
}

#[test]
fn test_deterministic_outcomes() {
    for _ in 0..2 {
        let mut session1 = create_session(GameType::Blackjack, 100, 42);
        let mut session2 = create_session(GameType::Blackjack, 100, 42);

        let mut rng1 = GameRng::new(SEED, 42, 0);
        let mut rng2 = GameRng::new(SEED, 42, 0);
        init_game(&mut session1, &mut rng1);
        init_game(&mut session2, &mut rng2);
        assert_eq!(session1.state_blob, session2.state_blob);

        let mut rng1 = GameRng::new(SEED, 42, 1);
        let mut rng2 = GameRng::new(SEED, 42, 1);
        let result1 = process_game_move(&mut session1, &[4], &mut rng1);
        let result2 = process_game_move(&mut session2, &[4], &mut rng2);
        assert_eq!(result1, result2);
        assert_eq!(session1.state_blob, session2.state_blob);
        assert_eq!(session1.is_complete, session2.is_complete);
    }
}

#[test]
fn test_dispatch_matches_the_game() {
    // Three Card Poker through the dispatcher: deal, play, reveal.
    let mut session = create_session(GameType::ThreeCard, 100, 9);
    let mut rng = GameRng::new(SEED, 9, 0);
    assert_eq!(init_game(&mut session, &mut rng), GameResult::Continue);
    let mut rng = GameRng::new(SEED, 9, 1);
    assert_eq!(process_game_move(&mut session, &[2], &mut rng), Ok(GameResult::Continue));
    let mut rng = GameRng::new(SEED, 9, 2);
    assert_eq!(
        process_game_move(&mut session, &[0], &mut rng),
        Ok(GameResult::ContinueWithUpdate { payout: -100 })
    );
    let mut rng = GameRng::new(SEED, 9, 3);
    assert!(process_game_move(&mut session, &[4], &mut rng).is_ok());
    assert!(session.is_complete);
    // Ultimate Texas Hold'em takes the blind when it starts.
    let mut session = create_session(GameType::UltimateHoldem, 100, 10);
    let mut rng = GameRng::new(SEED, 10, 0);
    assert_eq!(init_game(&mut session, &mut rng), GameResult::ContinueWithUpdate { payout: -100 });
}
