use nullspace_execution::casino::baccarat::{
    banker_draws, calculate_bet_payout, card_value, hand_total, player_draws, Baccarat,
    BaccaratBet, BaccaratState, BetType,
};
use nullspace_execution::casino::{CasinoGame, GameError, GameResult, GameRng, GameSession, GameType, SuperModeState};

const SEED: &[u8] = b"baccarat-test-seed";

fn create_test_session(bet: u64) -> GameSession {
    GameSession {
        id: 1,
        player: vec![1u8; 32],
        game_type: GameType::Baccarat,
        bet,
        state_blob: vec![],
        move_count: 0,
        created_at: 0,
        is_complete: false,
        super_mode: SuperModeState::default(),
        is_tournament: false,
        tournament_id: None,
    }
}

fn place_bet_payload(bet_type: BetType, amount: u64) -> Vec<u8> {
    let mut payload = vec![0, bet_type as u8];
    payload.extend_from_slice(&amount.to_be_bytes());
    payload
}

#[test]
fn test_card_value() {
    assert_eq!(card_value(0), 1);
    assert_eq!(card_value(13), 1);
    assert_eq!(card_value(1), 2);
    assert_eq!(card_value(8), 9);
    assert_eq!(card_value(9), 0);
    assert_eq!(card_value(10), 0);
    assert_eq!(card_value(11), 0);
    assert_eq!(card_value(12), 0);
}

#[test]
fn test_hand_total() {
    assert_eq!(hand_total(&[6, 7]), 5);
    assert_eq!(hand_total(&[0, 2]), 4);
    assert_eq!(hand_total(&[12, 11]), 0);
    assert_eq!(hand_total(&[8, 21]), 8);
}

#[test]
fn test_player_draws() {
    assert!(player_draws(0));
    assert!(player_draws(5));
    assert!(!player_draws(6));
    assert!(!player_draws(7));
}

#[test]
fn test_banker_draws_no_player_third() {
    assert!(banker_draws(0, None));
    assert!(banker_draws(5, None));
    assert!(!banker_draws(6, None));
    assert!(!banker_draws(7, None));
}

#[test]
fn test_banker_draws_with_player_third() {
    assert!(!banker_draws(3, Some(7)));
    assert!(banker_draws(4, Some(1)));
    assert!(banker_draws(6, Some(5)));
}

#[test]
fn test_state_serialize_parse_roundtrip() {
    let state = BaccaratState {
        bets: vec![
            BaccaratBet { bet_type: BetType::Player, amount: 100 },
            BaccaratBet { bet_type: BetType::Tie, amount: 50 },
        ],
        player_cards: vec![1, 2, 3],
        banker_cards: vec![4, 5],
    };
    let blob = state.to_blob();
    let parsed = BaccaratState::from_blob(&blob).expect("Failed to parse state");
    assert_eq!(parsed.bets.len(), 2);
    assert_eq!(parsed.bets[0].bet_type, BetType::Player);
    assert_eq!(parsed.bets[0].amount, 100);
    assert_eq!(parsed.bets[1].bet_type, BetType::Tie);
    assert_eq!(parsed.bets[1].amount, 50);
    assert_eq!(parsed.player_cards, vec![1, 2, 3]);
    assert_eq!(parsed.banker_cards, vec![4, 5]);
}

#[test]
fn baccarat_test_place_bet() {
    let mut session = create_test_session(100);
    let mut rng = GameRng::new(SEED, session.id, 0);
    Baccarat::init(&mut session, &mut rng);
    assert!(!session.is_complete);

    let mut rng = GameRng::new(SEED, session.id, 1);
    let payload = place_bet_payload(BetType::Player, 100);
    let result = Baccarat::process_move(&mut session, &payload, &mut rng);
    assert!(result.is_ok());
    assert!(!session.is_complete);

    let state = BaccaratState::from_blob(&session.state_blob).expect("Failed to parse state");
    assert_eq!(state.bets.len(), 1);
    assert_eq!(state.bets[0].bet_type, BetType::Player);
    assert_eq!(state.bets[0].amount, 100);
}

#[test]
fn baccarat_test_game_completes() {
    let mut session = create_test_session(100);
    let mut rng = GameRng::new(SEED, session.id, 0);
    Baccarat::init(&mut session, &mut rng);

    let mut rng = GameRng::new(SEED, session.id, 1);
    let payload = place_bet_payload(BetType::Player, 100);
    Baccarat::process_move(&mut session, &payload, &mut rng).expect("Failed to process move");

    let mut rng = GameRng::new(SEED, session.id, 2);
    let result = Baccarat::process_move(&mut session, &[1], &mut rng);
    assert!(result.is_ok());
    assert!(session.is_complete);

    let state = BaccaratState::from_blob(&session.state_blob).expect("Failed to parse state");
    assert!(state.player_cards.len() >= 2);
    assert!(state.banker_cards.len() >= 2);
}

#[test]
fn baccarat_test_multi_bet() {
    let mut session = create_test_session(100);
    let mut rng = GameRng::new(SEED, session.id, 0);
    Baccarat::init(&mut session, &mut rng);

    let mut rng = GameRng::new(SEED, session.id, 1);
    Baccarat::process_move(&mut session, &place_bet_payload(BetType::Player, 100), &mut rng).expect("move");
    let mut rng = GameRng::new(SEED, session.id, 2);
    Baccarat::process_move(&mut session, &place_bet_payload(BetType::Tie, 50), &mut rng).expect("move");
    let mut rng = GameRng::new(SEED, session.id, 3);
    Baccarat::process_move(&mut session, &place_bet_payload(BetType::PlayerPair, 25), &mut rng).expect("move");

    let state = BaccaratState::from_blob(&session.state_blob).expect("Failed to parse state");
    assert_eq!(state.bets.len(), 3);

    let mut rng = GameRng::new(SEED, session.id, 4);
    let result = Baccarat::process_move(&mut session, &[1], &mut rng);
    assert!(result.is_ok());
    assert!(session.is_complete);
}

#[test]
fn test_add_to_existing_bet() {
    let mut session = create_test_session(100);
    let mut rng = GameRng::new(SEED, session.id, 0);
    Baccarat::init(&mut session, &mut rng);

    let mut rng = GameRng::new(SEED, session.id, 1);
    Baccarat::process_move(&mut session, &place_bet_payload(BetType::Player, 100), &mut rng).expect("move");
    let mut rng = GameRng::new(SEED, session.id, 2);
    Baccarat::process_move(&mut session, &place_bet_payload(BetType::Player, 50), &mut rng).expect("move");

    let state = BaccaratState::from_blob(&session.state_blob).expect("Failed to parse state");
    assert_eq!(state.bets.len(), 1);
    assert_eq!(state.bets[0].amount, 150);
}

#[test]
fn test_invalid_bet_type() {
    let mut session = create_test_session(100);
    let mut rng = GameRng::new(SEED, session.id, 0);
    Baccarat::init(&mut session, &mut rng);

    let mut rng = GameRng::new(SEED, session.id, 1);
    let mut payload = vec![0, 6];
    payload.extend_from_slice(&100u64.to_be_bytes());
    let result = Baccarat::process_move(&mut session, &payload, &mut rng);
    assert!(matches!(result, Err(GameError::InvalidPayload)));
}

#[test]
fn test_deal_without_bets() {
    let mut session = create_test_session(100);
    let mut rng = GameRng::new(SEED, session.id, 0);
    Baccarat::init(&mut session, &mut rng);

    let mut rng = GameRng::new(SEED, session.id, 1);
    let result = Baccarat::process_move(&mut session, &[1], &mut rng);
    assert!(matches!(result, Err(GameError::InvalidMove)));
}

#[test]
fn baccarat_test_clear_bets() {
    let mut session = create_test_session(100);
    let mut rng = GameRng::new(SEED, session.id, 0);
    Baccarat::init(&mut session, &mut rng);

    let mut rng = GameRng::new(SEED, session.id, 1);
    Baccarat::process_move(&mut session, &place_bet_payload(BetType::Player, 100), &mut rng).expect("move");

    let mut rng = GameRng::new(SEED, session.id, 2);
    let result = Baccarat::process_move(&mut session, &[2], &mut rng);
    assert!(result.is_ok());

    let state = BaccaratState::from_blob(&session.state_blob).expect("Failed to parse state");
    assert!(state.bets.is_empty());
}

#[test]
fn test_banker_commission() {
    let bet = BaccaratBet { bet_type: BetType::Banker, amount: 100 };
    let (payout, is_push) = calculate_bet_payout(&bet, 4, 9, false, false);
    assert!(!is_push);
    assert_eq!(payout, 95);
}

#[test]
fn test_tie_payout() {
    let bet = BaccaratBet { bet_type: BetType::Tie, amount: 100 };
    let (payout, is_push) = calculate_bet_payout(&bet, 5, 5, false, false);
    assert!(!is_push);
    assert_eq!(payout, 800);
}

#[test]
fn test_player_pair_payout() {
    let bet = BaccaratBet { bet_type: BetType::PlayerPair, amount: 100 };
    let (payout, _) = calculate_bet_payout(&bet, 5, 7, true, false);
    assert_eq!(payout, 1100);
}

#[test]
fn baccarat_test_various_outcomes() {
    for session_id in 1..20 {
        let mut session = create_test_session(100);
        session.id = session_id;
        let mut rng = GameRng::new(SEED, session_id, 0);
        Baccarat::init(&mut session, &mut rng);

        let mut rng = GameRng::new(SEED, session_id, 1);
        Baccarat::process_move(&mut session, &place_bet_payload(BetType::Player, 100), &mut rng).expect("move");

        let mut rng = GameRng::new(SEED, session_id, 2);
        let result = Baccarat::process_move(&mut session, &[1], &mut rng);
        assert!(result.is_ok());
        assert!(session.is_complete);
        match result.expect("Failed to process move") {
            GameResult::Win(_) | GameResult::Loss | GameResult::Push => {}
            other => panic!("Baccarat should complete after deal, got {:?}", other),
        }
    }
}

#[test]
fn baccarat_small_banker_win_pushes() {
    // 95% of 1 rounds down to nothing: the bet is treated as a push.
    let bet = BaccaratBet { bet_type: BetType::Banker, amount: 1 };
    assert_eq!(calculate_bet_payout(&bet, 2, 7, false, false), (0, true));
    let lose = BaccaratBet { bet_type: BetType::Player, amount: 30 };
    assert_eq!(calculate_bet_payout(&lose, 2, 7, false, false), (-30, false));
    let push = BaccaratBet { bet_type: BetType::Player, amount: 30 };
    assert_eq!(calculate_bet_payout(&push, 6, 6, false, false), (0, true));
}

#[test]
fn baccarat_rejects_moves_after_completion_and_bad_payloads() {
    let mut session = create_test_session(100);
    let mut rng = GameRng::new(SEED, 7, 0);
    Baccarat::init(&mut session, &mut rng);
    assert!(matches!(Baccarat::process_move(&mut session, &[], &mut rng), Err(GameError::InvalidPayload)));
    assert!(matches!(Baccarat::process_move(&mut session, &[9], &mut rng), Err(GameError::InvalidPayload)));
    assert!(matches!(Baccarat::process_move(&mut session, &[0, 0, 1], &mut rng), Err(GameError::InvalidPayload)));
    assert!(matches!(
        Baccarat::process_move(&mut session, &place_bet_payload(BetType::Tie, 0), &mut rng),
        Err(GameError::InvalidPayload)
    ));
    Baccarat::process_move(&mut session, &place_bet_payload(BetType::Tie, 10), &mut rng).expect("move");
    Baccarat::process_move(&mut session, &[1], &mut rng).expect("deal");
    let before = session.state_blob.clone();
    assert!(matches!(Baccarat::process_move(&mut session, &[1], &mut rng), Err(GameError::GameAlreadyComplete)));
    assert_eq!(session.state_blob, before);
}

#[test]
fn baccarat_six_bet_types_cannot_exceed_limit() {
    let mut session = create_test_session(100);
    let mut rng = GameRng::new(SEED, 8, 0);
    Baccarat::init(&mut session, &mut rng);
    for t in [BetType::Player, BetType::Banker, BetType::Tie, BetType::PlayerPair, BetType::BankerPair] {
        Baccarat::process_move(&mut session, &place_bet_payload(t, 5), &mut rng).expect("move");
    }
    // All five types present: adding to one of them still works.
    Baccarat::process_move(&mut session, &place_bet_payload(BetType::Tie, 5), &mut rng).expect("move");
    let state = BaccaratState::from_blob(&session.state_blob).unwrap();
    assert_eq!(state.bets.len(), 5);
    assert_eq!(state.bets[2].amount, 10);
}
