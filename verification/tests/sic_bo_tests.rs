use nullspace_execution::casino::sic_bo::{
    calculate_bet_payout, count_number, is_triple, total_payout, BetType, SicBo, SicBoBet,
    SicBoState,
};
use nullspace_execution::casino::{CasinoGame, GameError, GameResult, GameRng, GameSession, GameType, SuperModeState};

const SEED: &[u8] = b"sic-bo-test-seed";

fn create_test_session(bet: u64) -> GameSession {
    GameSession {
        id: 1,
        player: vec![3u8; 32],
        game_type: GameType::SicBo,
        bet,
        state_blob: vec![],
        move_count: 0,
        created_at: 0,
        is_complete: false,
        super_mode: SuperModeState::default(),
        is_tournament: false,
        tournament_id: None,
    }
}

fn place_bet_payload(bet_type: u8, number: u8, amount: u64) -> Vec<u8> {
    let mut payload = vec![0, bet_type, number];
    payload.extend_from_slice(&amount.to_be_bytes());
    payload
}

#[test]
fn test_is_triple() {
    assert!(is_triple(&[1, 1, 1]));
    assert!(is_triple(&[6, 6, 6]));
    assert!(!is_triple(&[1, 1, 2]));
    assert!(!is_triple(&[1, 2, 3]));
}

#[test]
fn test_count_number() {
    assert_eq!(count_number(&[1, 1, 1], 1), 3);
    assert_eq!(count_number(&[1, 1, 2], 1), 2);
    assert_eq!(count_number(&[1, 2, 3], 1), 1);
    assert_eq!(count_number(&[2, 2, 3], 1), 0);
}

#[test]
fn test_total_payout() {
    assert_eq!(total_payout(3), 180);
    assert_eq!(total_payout(4), 50);
    assert_eq!(total_payout(17), 50);
    assert_eq!(total_payout(18), 180);
    assert_eq!(total_payout(5), 18);
    assert_eq!(total_payout(10), 6);
    assert_eq!(total_payout(11), 6);
}

#[test]
fn test_domino_two_faces_payout() {
    let bet = SicBoBet { bet_type: BetType::Domino, number: (2 << 4) | 5, amount: 10 };
    assert_eq!(calculate_bet_payout(&bet, &[1, 2, 5]), 10 * 6);
    assert_eq!(calculate_bet_payout(&bet, &[2, 2, 5]), 10 * 6);
    assert_eq!(calculate_bet_payout(&bet, &[2, 5, 5]), 10 * 6);
    assert_eq!(calculate_bet_payout(&bet, &[2, 2, 2]), 0);
    assert_eq!(calculate_bet_payout(&bet, &[5, 5, 5]), 0);
    assert_eq!(calculate_bet_payout(&bet, &[1, 3, 4]), 0);
}

#[test]
fn test_three_number_easy_hop_payout() {
    let bet = SicBoBet {
        bet_type: BetType::ThreeNumberEasyHop,
        number: (1u8 << 0) | (1u8 << 2) | (1u8 << 4),
        amount: 10,
    };
    assert_eq!(calculate_bet_payout(&bet, &[1, 3, 5]), 10 * 31);
    assert_eq!(calculate_bet_payout(&bet, &[5, 1, 3]), 10 * 31);
    assert_eq!(calculate_bet_payout(&bet, &[1, 1, 5]), 0);
    assert_eq!(calculate_bet_payout(&bet, &[1, 3, 6]), 0);
}

#[test]
fn test_three_number_hard_hop_payout() {
    let bet = SicBoBet { bet_type: BetType::ThreeNumberHardHop, number: (2u8 << 4) | 4u8, amount: 10 };
    assert_eq!(calculate_bet_payout(&bet, &[2, 2, 4]), 10 * 51);
    assert_eq!(calculate_bet_payout(&bet, &[2, 4, 2]), 10 * 51);
    assert_eq!(calculate_bet_payout(&bet, &[2, 4, 4]), 0);
    assert_eq!(calculate_bet_payout(&bet, &[2, 2, 2]), 0);
}

#[test]
fn test_four_number_easy_hop_payout() {
    let bet = SicBoBet {
        bet_type: BetType::FourNumberEasyHop,
        number: (1u8 << 0) | (1u8 << 2) | (1u8 << 3) | (1u8 << 5),
        amount: 10,
    };
    assert_eq!(calculate_bet_payout(&bet, &[1, 3, 4]), 10 * 8);
    assert_eq!(calculate_bet_payout(&bet, &[6, 4, 3]), 10 * 8);
    assert_eq!(calculate_bet_payout(&bet, &[1, 3, 5]), 0);
    assert_eq!(calculate_bet_payout(&bet, &[1, 1, 4]), 0);
}

#[test]
fn test_small_bet() {
    let dice = [1u8, 2, 3];
    let total: u8 = dice.iter().sum();
    let triple = is_triple(&dice);
    assert!(!triple && total >= 4 && total <= 10);
}

#[test]
fn test_big_bet() {
    let dice = [4u8, 5, 6];
    let total: u8 = dice.iter().sum();
    let triple = is_triple(&dice);
    assert!(!triple && total >= 11 && total <= 17);
}

#[test]
fn sic_bo_test_place_bet() {
    let mut session = create_test_session(100);
    let mut rng = GameRng::new(SEED, session.id, 0);
    SicBo::init(&mut session, &mut rng);
    assert!(!session.is_complete);

    let mut rng = GameRng::new(SEED, session.id, 1);
    let result = SicBo::process_move(&mut session, &place_bet_payload(0, 0, 100), &mut rng);
    assert!(result.is_ok());
    assert!(!session.is_complete);
    assert!(matches!(
        result.expect("Failed to process move"),
        GameResult::Continue | GameResult::ContinueWithUpdate { .. }
    ));

    let state = SicBoState::from_bytes(&session.state_blob).expect("Failed to parse state");
    assert_eq!(state.bets.len(), 1);
    assert_eq!(state.bets[0].bet_type, BetType::Small);
    assert_eq!(state.bets[0].amount, 100);
}

#[test]
fn sic_bo_test_game_completes() {
    let mut session = create_test_session(100);
    let mut rng = GameRng::new(SEED, session.id, 0);
    SicBo::init(&mut session, &mut rng);

    let mut rng = GameRng::new(SEED, session.id, 1);
    assert!(SicBo::process_move(&mut session, &place_bet_payload(0, 0, 100), &mut rng).is_ok());
    assert!(!session.is_complete);

    let mut rng = GameRng::new(SEED, session.id, 2);
    let result = SicBo::process_move(&mut session, &[1], &mut rng);
    assert!(result.is_ok());
    assert!(session.is_complete);

    let state = SicBoState::from_bytes(&session.state_blob).expect("Failed to parse state");
    let dice = state.dice.expect("Dice should be rolled");
    for die in dice.iter() {
        assert!(*die >= 1 && *die <= 6);
    }
}

#[test]
fn test_invalid_number() {
    let mut session = create_test_session(100);
    let mut rng = GameRng::new(SEED, session.id, 0);
    SicBo::init(&mut session, &mut rng);
    let mut rng = GameRng::new(SEED, session.id, 1);

    for payload in [
        place_bet_payload(8, 0, 100),
        place_bet_payload(8, 7, 100),
        place_bet_payload(7, 2, 100),
        place_bet_payload(7, 19, 100),
        place_bet_payload(9, (3 << 4) | 3, 100),
    ] {
        let result = SicBo::process_move(&mut session, &payload, &mut rng);
        assert!(matches!(result, Err(GameError::InvalidPayload)));
    }
}

#[test]
fn test_roll_without_bets() {
    let mut session = create_test_session(100);
    let mut rng = GameRng::new(SEED, session.id, 0);
    SicBo::init(&mut session, &mut rng);
    let mut rng = GameRng::new(SEED, session.id, 1);
    let result = SicBo::process_move(&mut session, &[1], &mut rng);
    assert!(matches!(result, Err(GameError::InvalidPayload)));
}

#[test]
fn sic_bo_test_clear_bets() {
    let mut session = create_test_session(100);
    let mut rng = GameRng::new(SEED, session.id, 0);
    SicBo::init(&mut session, &mut rng);

    let mut rng = GameRng::new(SEED, session.id, 1);
    SicBo::process_move(&mut session, &place_bet_payload(0, 0, 100), &mut rng).expect("move");
    let state = SicBoState::from_bytes(&session.state_blob).expect("Failed to parse state");
    assert_eq!(state.bets.len(), 1);

    let mut rng = GameRng::new(SEED, session.id, 2);
    assert!(SicBo::process_move(&mut session, &[2], &mut rng).is_ok());
    let state = SicBoState::from_bytes(&session.state_blob).expect("Failed to parse state");
    assert_eq!(state.bets.len(), 0);
}

#[test]
fn sic_bo_test_multi_bet() {
    let mut session = create_test_session(100);
    let mut rng = GameRng::new(SEED, session.id, 0);
    SicBo::init(&mut session, &mut rng);

    let mut rng = GameRng::new(SEED, session.id, 1);
    SicBo::process_move(&mut session, &place_bet_payload(0, 0, 50), &mut rng).expect("move");
    let mut rng = GameRng::new(SEED, session.id, 2);
    SicBo::process_move(&mut session, &place_bet_payload(1, 0, 50), &mut rng).expect("move");

    let state = SicBoState::from_bytes(&session.state_blob).expect("Failed to parse state");
    assert_eq!(state.bets.len(), 2);
    assert_eq!(state.bets[0].bet_type, BetType::Small);
    assert_eq!(state.bets[1].bet_type, BetType::Big);

    let mut rng = GameRng::new(SEED, session.id, 3);
    let result = SicBo::process_move(&mut session, &[1], &mut rng);
    assert!(result.is_ok());
    assert!(session.is_complete);
}

#[test]
fn sic_bo_test_various_outcomes() {
    for session_id in 1..30 {
        let mut session = create_test_session(100);
        session.id = session_id;
        let mut rng = GameRng::new(SEED, session_id, 0);
        SicBo::init(&mut session, &mut rng);

        let mut rng = GameRng::new(SEED, session_id, 1);
        SicBo::process_move(&mut session, &place_bet_payload(0, 0, 100), &mut rng).expect("move");

        let mut rng = GameRng::new(SEED, session_id, 2);
        let result = SicBo::process_move(&mut session, &[1], &mut rng);
        assert!(result.is_ok());
        assert!(session.is_complete);
        match result.expect("Failed to process move") {
            GameResult::Win(_) | GameResult::LossPreDeducted(_) => {}
            _ => panic!("SicBo should complete with Win or LossPreDeducted"),
        }
    }
}

#[test]
fn sic_bo_place_deducts_stake_and_counts_move() {
    let mut session = create_test_session(100);
    let mut rng = GameRng::new(SEED, 5, 0);
    SicBo::init(&mut session, &mut rng);
    let result = SicBo::process_move(&mut session, &place_bet_payload(7, 10, 40), &mut rng).unwrap();
    assert_eq!(result, GameResult::ContinueWithUpdate { payout: -40 });
    assert_eq!(session.move_count, 1);
    // Total bet: 6:1 plus the stake when the dice make 10.
    let bet = SicBoBet { bet_type: BetType::Total, number: 10, amount: 40 };
    assert_eq!(calculate_bet_payout(&bet, &[3, 3, 4]), 280);
    assert_eq!(calculate_bet_payout(&bet, &[3, 3, 5]), 0);
}

#[test]
fn sic_bo_malformed_state_is_invalid_move() {
    let mut session = create_test_session(100);
    session.state_blob = vec![21];
    let mut rng = GameRng::new(SEED, 6, 0);
    assert!(matches!(SicBo::process_move(&mut session, &[2], &mut rng), Err(GameError::InvalidMove)));
}
