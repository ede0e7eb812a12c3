use nullspace_execution::casino::casino_war::{
    card_rank, parse_state, serialize_state_legacy, serialize_state_v1, CasinoWar, CasinoWarStateV1, StageV0,
    StageV1, HIDDEN_CARD,
};
use nullspace_execution::casino::{CasinoGame, GameError, GameResult, GameRng, GameSession, GameType, SuperModeState};

const SEED: &[u8] = b"casino-war-test-seed";

fn create_test_session(bet: u64) -> GameSession {
    GameSession {
        id: 1,
        player: vec![1u8; 32],
        game_type: GameType::CasinoWar,
        bet,
        state_blob: vec![],
        move_count: 0,
        created_at: 0,
        is_complete: false,
        super_mode: SuperModeState::default(),
        is_tournament: false,
        tournament_id: None,
    }
}

#[test]
fn casino_war_test_card_rank() {
    // Ace is high (14)
    assert_eq!(card_rank(0), 14);
    assert_eq!(card_rank(13), 14);

    // Regular ranks
    assert_eq!(card_rank(1), 2);
    assert_eq!(card_rank(12), 13);
}

#[test]
fn test_player_wins_higher_card() {
    let mut session = create_test_session(100);
    session.state_blob = serialize_state_legacy(0, 12, StageV0::Initial);

    let mut rng = GameRng::new(SEED, session.id, 1);
    let result = CasinoWar::process_move(&mut session, &[0], &mut rng);

    // Win(200) = stake(100) + winnings(100) for 1:1 payout
    assert!(matches!(result, Ok(GameResult::Win(200))));
    assert!(session.is_complete);
}

#[test]
fn test_dealer_wins_higher_card() {
    let mut session = create_test_session(100);
    session.state_blob = serialize_state_legacy(12, 0, StageV0::Initial);

    let mut rng = GameRng::new(SEED, session.id, 1);
    let result = CasinoWar::process_move(&mut session, &[0], &mut rng);

    assert!(matches!(result, Ok(GameResult::Loss)));
    assert!(session.is_complete);
}

#[test]
fn test_tie_triggers_war_stage() {
    let mut session = create_test_session(100);
    session.state_blob = serialize_state_legacy(12, 25, StageV0::Initial);

    let mut rng = GameRng::new(SEED, session.id, 1);
    let result = CasinoWar::process_move(&mut session, &[0], &mut rng);

    assert!(matches!(result, Ok(GameResult::Continue)));
    assert!(!session.is_complete);

    let parsed = parse_state(&session.state_blob).expect("Failed to parse state");
    let Err((_, _, stage)) = parsed else {
        panic!("expected legacy state after tie");
    };
    assert_eq!(stage, StageV0::War);
}

#[test]
fn test_surrender_after_tie() {
    let mut session = create_test_session(100);
    session.state_blob = serialize_state_legacy(12, 25, StageV0::War);

    let mut rng = GameRng::new(SEED, session.id, 1);
    let result = CasinoWar::process_move(&mut session, &[2], &mut rng);

    // Surrender forfeits half the ante.
    assert!(matches!(result, Ok(GameResult::Win(50))));
    assert!(session.is_complete);
}

#[test]
fn test_go_to_war() {
    let mut session = create_test_session(100);
    session.state_blob = serialize_state_legacy(12, 25, StageV0::War);

    let mut rng = GameRng::new(SEED, session.id, 1);
    let result = CasinoWar::process_move(&mut session, &[1], &mut rng);

    assert!(result.is_ok());
    assert!(session.is_complete);

    match result.expect("Failed to process war") {
        GameResult::Win(_) | GameResult::Loss | GameResult::LossWithExtraDeduction(_) => {}
        _ => panic!("Expected Win, Loss, or LossWithExtraDeduction after war"),
    }
}

#[test]
fn test_invalid_move_in_initial_stage() {
    let mut session = create_test_session(100);
    session.state_blob = serialize_state_legacy(1, 2, StageV0::Initial);

    let mut rng = GameRng::new(SEED, session.id, 1);

    let result = CasinoWar::process_move(&mut session, &[1], &mut rng);
    assert!(matches!(result, Err(GameError::InvalidMove)));

    let result = CasinoWar::process_move(&mut session, &[2], &mut rng);
    assert!(matches!(result, Err(GameError::InvalidMove)));
}

#[test]
fn test_invalid_move_in_war_stage() {
    let mut session = create_test_session(100);
    session.state_blob = serialize_state_legacy(12, 25, StageV0::War);

    let mut rng = GameRng::new(SEED, session.id, 1);

    let result = CasinoWar::process_move(&mut session, &[0], &mut rng);
    assert!(matches!(result, Err(GameError::InvalidMove)));
}

#[test]
fn test_init_starts_in_betting_stage() {
    let mut session = create_test_session(100);
    let mut rng = GameRng::new(SEED, session.id, 0);

    CasinoWar::init(&mut session, &mut rng);

    let parsed = parse_state(&session.state_blob).expect("Failed to parse state");
    let Ok(state) = parsed else {
        panic!("expected v1 state from init");
    };
    assert_eq!(state.stage, StageV1::Betting);
    assert_eq!(state.player_card, HIDDEN_CARD);
    assert_eq!(state.dealer_card, HIDDEN_CARD);
    assert_eq!(state.tie_bet, 0);
}

#[test]
fn test_set_tie_bet_updates_state() {
    let mut session = create_test_session(100);
    let mut rng = GameRng::new(SEED, session.id, 0);

    CasinoWar::init(&mut session, &mut rng);

    let mut payload = vec![3];
    payload.extend_from_slice(&10u64.to_be_bytes());
    let mut rng = GameRng::new(SEED, session.id, 1);
    let result = CasinoWar::process_move(&mut session, &payload, &mut rng);
    assert!(matches!(result, Ok(GameResult::ContinueWithUpdate { payout: -10 })));

    let parsed = parse_state(&session.state_blob).expect("Failed to parse state");
    let Ok(state) = parsed else {
        panic!("expected v1 state");
    };
    assert_eq!(state.tie_bet, 10);
    assert_eq!(state.stage, StageV1::Betting);
}

#[test]
fn test_tie_bet_pays_on_tie() {
    for session_id in 1..300 {
        let mut session = create_test_session(100);
        session.id = session_id;
        let mut rng = GameRng::new(SEED, session.id, 0);
        CasinoWar::init(&mut session, &mut rng);

        let mut payload = vec![3];
        payload.extend_from_slice(&10u64.to_be_bytes());
        let mut rng = GameRng::new(SEED, session.id, 1);
        CasinoWar::process_move(&mut session, &payload, &mut rng).expect("set tie bet");

        let mut rng = GameRng::new(SEED, session.id, 2);
        let result = CasinoWar::process_move(&mut session, &[0], &mut rng);

        if matches!(result, Ok(GameResult::ContinueWithUpdate { payout: 110 })) {
            let parsed = parse_state(&session.state_blob).expect("Failed to parse state");
            let Ok(state) = parsed else {
                panic!("expected v1 state");
            };
            assert_eq!(state.stage, StageV1::War);
            assert!(state.player_card < 52);
            assert!(state.dealer_card < 52);
            assert_eq!(card_rank(state.player_card), card_rank(state.dealer_card));
            return;
        }
    }

    panic!("failed to find a tie in 300 trials");
}

#[test]
fn test_tie_after_tie_awards_bonus() {
    for session_id in 1..10_000 {
        let mut session = create_test_session(100);
        session.id = session_id;
        let mut rng = GameRng::new(SEED, session.id, 0);
        CasinoWar::init(&mut session, &mut rng);

        let mut rng = GameRng::new(SEED, session.id, 1);
        let _ = CasinoWar::process_move(&mut session, &[0], &mut rng).expect("deal");

        let parsed = parse_state(&session.state_blob).expect("parse state");
        let Ok(state) = parsed else {
            continue;
        };
        if state.stage != StageV1::War {
            continue;
        }

        let mut rng = GameRng::new(SEED, session.id, 2);
        let result = CasinoWar::process_move(&mut session, &[1], &mut rng).expect("war");

        let parsed = parse_state(&session.state_blob).expect("parse final state");
        let Ok(final_state) = parsed else {
            panic!("expected v1 state");
        };
        assert_eq!(final_state.stage, StageV1::Complete);

        if card_rank(final_state.player_card) == card_rank(final_state.dealer_card) {
            // Bonus is equal to the ante, so the win credits 3x the ante.
            assert!(matches!(result, GameResult::Win(300)));
            return;
        }
    }

    panic!("failed to find a tie-after-tie in 10,000 trials");
}

#[test]
fn test_move_count_and_completed_game() {
    let mut session = create_test_session(100);
    session.state_blob = serialize_state_legacy(0, 12, StageV0::Initial);
    let mut rng = GameRng::new(SEED, session.id, 1);
    CasinoWar::process_move(&mut session, &[0], &mut rng).unwrap();
    assert_eq!(session.move_count, 1);
    let result = CasinoWar::process_move(&mut session, &[0], &mut rng);
    assert_eq!(result, Err(GameError::GameAlreadyComplete));
    assert_eq!(session.move_count, 1);
}

#[test]
fn test_state_v1_roundtrip() {
    let state = CasinoWarStateV1 { player_card: 12, dealer_card: 25, stage: StageV1::War, tie_bet: 0x0102_0304_0506_0708 };
    let blob = serialize_state_v1(&state);
    assert_eq!(blob, vec![1, 1, 12, 25, 1, 2, 3, 4, 5, 6, 7, 8]);
    assert_eq!(parse_state(&blob), Some(Ok(state)));
    assert_eq!(parse_state(&serialize_state_legacy(3, 4, StageV0::War)), Some(Err((3, 4, StageV0::War))));
}
