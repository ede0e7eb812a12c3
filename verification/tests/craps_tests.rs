use nullspace_execution::casino::craps::{
    calculate_buy_commission, calculate_buy_payout, calculate_field_payout,
    calculate_hardway_payout, calculate_next_payout, calculate_yes_payout, process_roll, ways,
    BetStatus, BetType, BuyCommissionTiming, Craps, CrapsBet, CrapsState, FieldPaytable, Phase,
    STATE_VERSION,
};
use nullspace_execution::casino::{CasinoGame, GameError, GameResult, GameRng, GameSession, GameType, SuperModeState};

const SEED: &[u8] = b"craps-test-seed";

fn create_test_session(bet: u64) -> GameSession {
    GameSession {
        id: 1,
        player: vec![5u8; 32],
        game_type: GameType::Craps,
        bet,
        state_blob: vec![],
        move_count: 0,
        created_at: 0,
        is_complete: false,
        super_mode: SuperModeState::default(),
        is_tournament: false,
        tournament_id: None,
    }
}

fn fresh_state(phase: Phase, main_point: u8, epoch: bool, bets: Vec<CrapsBet>) -> CrapsState {
    CrapsState {
        phase,
        main_point,
        d1: 0,
        d2: 0,
        made_points_mask: 0,
        epoch_point_established: epoch,
        field_paytable: FieldPaytable::default(),
        buy_commission_timing: BuyCommissionTiming::default(),
        bets,
    }
}

fn bet(bet_type: BetType, amount: u64) -> CrapsBet {
    CrapsBet { bet_type, target: 0, status: BetStatus::On, amount, odds_amount: 0 }
}

#[test]
fn test_bet_serialization() {
    let bet = CrapsBet { bet_type: BetType::Pass, target: 6, status: BetStatus::On, amount: 100, odds_amount: 50 };
    let bytes = bet.to_bytes();
    assert_eq!(bytes.len(), 19);
    let deserialized = CrapsBet::from_bytes(&bytes).expect("Failed to parse bet");
    assert_eq!(deserialized, bet);
}

#[test]
fn test_state_serialization() {
    let state = CrapsState {
        phase: Phase::Point,
        main_point: 6,
        d1: 3,
        d2: 3,
        made_points_mask: 0b001011,
        epoch_point_established: true,
        field_paytable: FieldPaytable::default(),
        buy_commission_timing: BuyCommissionTiming::default(),
        bets: vec![
            CrapsBet { bet_type: BetType::Pass, target: 0, status: BetStatus::On, amount: 100, odds_amount: 50 },
            CrapsBet { bet_type: BetType::Field, target: 0, status: BetStatus::On, amount: 25, odds_amount: 0 },
        ],
    };
    let blob = state.to_blob();
    assert_eq!(blob[0], STATE_VERSION);
    assert_eq!(blob[1], Phase::Point as u8);
    assert_eq!(blob[2], 6);
    assert_eq!(blob[5], state.made_points_mask);
    assert_eq!(blob[6], 1);
    assert_eq!(blob[7], 2);

    let deserialized = CrapsState::from_blob(&blob).expect("Failed to parse state");
    assert_eq!(deserialized.phase, state.phase);
    assert_eq!(deserialized.main_point, state.main_point);
    assert_eq!(deserialized.made_points_mask, state.made_points_mask);
    assert_eq!(deserialized.epoch_point_established, state.epoch_point_established);
    assert_eq!(deserialized.bets.len(), 2);
}

#[test]
fn test_field_payout() {
    assert_eq!(calculate_field_payout(2, 100, FieldPaytable::Double2And12), 300);
    assert_eq!(calculate_field_payout(12, 100, FieldPaytable::Double2And12), 300);
    assert_eq!(calculate_field_payout(3, 100, FieldPaytable::Double2And12), 200);
    assert_eq!(calculate_field_payout(11, 100, FieldPaytable::Double2And12), 200);
    assert_eq!(calculate_field_payout(7, 100, FieldPaytable::Double2And12), 0);
}

#[test]
fn test_yes_payout() {
    assert_eq!(calculate_yes_payout(6, 60, true), 132);
    assert_eq!(calculate_yes_payout(6, 60, false), 0);
}

#[test]
fn test_next_payout() {
    assert_eq!(calculate_next_payout(7, 7, 100), 595);
    assert_eq!(calculate_next_payout(2, 2, 100), 3565);
    assert_eq!(calculate_next_payout(7, 6, 100), 0);
}

#[test]
fn test_buy_commission_rounds_up() {
    assert_eq!(calculate_buy_commission(100), 5);
    assert_eq!(calculate_buy_commission(1), 1);
    assert_eq!(calculate_buy_commission(20), 1);
}

#[test]
fn test_buy_payout() {
    assert_eq!(calculate_buy_payout(4, 100, true), 300);
    assert_eq!(calculate_buy_payout(5, 100, true), 250);
    assert_eq!(calculate_buy_payout(6, 100, true), 220);
    assert_eq!(calculate_buy_payout(4, 100, false), 0);
}

#[test]
fn test_ats_small_completes_and_pays() {
    let mut state = fresh_state(Phase::ComeOut, 0, false, vec![bet(BetType::AtsSmall, 10)]);
    for (d1, d2) in [(1, 1), (1, 2), (2, 2), (2, 3), (3, 3)] {
        let results = process_roll(&mut state, d1, d2);
        let resolved: Vec<_> = results.into_iter().filter(|r| r.resolved).collect();
        if d1 + d2 == 6 {
            assert_eq!(resolved.len(), 1);
            assert_eq!(resolved[0].return_amount, 350);
            assert_eq!(resolved[0].bet_idx, 0);
            state.bets.clear();
        } else {
            assert!(resolved.is_empty());
        }
    }
}

#[test]
fn test_ats_loses_on_seven_out() {
    let mut state = fresh_state(Phase::Point, 6, true, vec![bet(BetType::AtsTall, 10)]);
    let results = process_roll(&mut state, 3, 4);
    let ats = results
        .into_iter()
        .find(|r| r.resolved && r.bet_idx == 0)
        .expect("expected ATS bet to resolve on seven-out");
    assert_eq!(ats.return_amount, 0);
    assert_eq!(ats.wagered, 10);
}

#[test]
fn test_hardway_payout() {
    assert_eq!(calculate_hardway_payout(6, 3, 3, 6, 100), Some(1000));
    assert_eq!(calculate_hardway_payout(6, 2, 4, 6, 100), Some(0));
    assert_eq!(calculate_hardway_payout(6, 4, 3, 7, 100), Some(0));
    assert_eq!(calculate_hardway_payout(6, 2, 3, 5, 100), None);
}

fn place(session: &mut GameSession, bet_type: BetType, target: u8, amount: u64, move_number: u32) -> Result<GameResult, GameError> {
    let mut payload = vec![0, bet_type as u8, target];
    payload.extend_from_slice(&amount.to_be_bytes());
    let mut rng = GameRng::new(SEED, session.id, move_number);
    Craps::process_move(session, &payload, &mut rng)
}

#[test]
fn craps_test_place_bet() {
    let mut session = create_test_session(100);
    let mut rng = GameRng::new(SEED, session.id, 0);
    Craps::init(&mut session, &mut rng);
    let result = place(&mut session, BetType::Field, 0, 100, 1);
    assert!(result.is_ok());
    assert!(!session.is_complete);
    let state = CrapsState::from_blob(&session.state_blob).expect("Failed to parse state");
    assert_eq!(state.bets.len(), 1);
    assert_eq!(state.bets[0].bet_type, BetType::Field);
}

#[test]
fn test_roll_resolves_field_bet() {
    let mut session = create_test_session(100);
    let mut rng = GameRng::new(SEED, session.id, 0);
    Craps::init(&mut session, &mut rng);
    place(&mut session, BetType::Field, 0, 100, 1).expect("move");
    let mut rng = GameRng::new(SEED, session.id, 2);
    assert!(Craps::process_move(&mut session, &[2], &mut rng).is_ok());
    assert!(session.is_complete);
}

#[test]
fn test_pass_line_flow() {
    let mut session = create_test_session(100);
    let mut rng = GameRng::new(SEED, session.id, 0);
    Craps::init(&mut session, &mut rng);
    place(&mut session, BetType::Pass, 0, 100, 1).expect("move");
    let mut move_num = 2;
    while !session.is_complete && move_num < 100 {
        let mut rng = GameRng::new(SEED, session.id, move_num);
        assert!(Craps::process_move(&mut session, &[2], &mut rng).is_ok());
        move_num += 1;
    }
    assert!(session.is_complete);
}

#[test]
fn test_add_odds() {
    let mut session = create_test_session(100);
    let mut rng = GameRng::new(SEED, session.id, 0);
    Craps::init(&mut session, &mut rng);
    place(&mut session, BetType::Pass, 0, 100, 1).expect("move");
    let mut rng = GameRng::new(SEED, session.id, 2);
    Craps::process_move(&mut session, &[2], &mut rng).expect("roll");
    let state = CrapsState::from_blob(&session.state_blob).expect("Failed to parse state");
    if state.phase == Phase::Point {
        let mut odds_payload = vec![1];
        odds_payload.extend_from_slice(&200u64.to_be_bytes());
        let mut rng = GameRng::new(SEED, session.id, 3);
        assert!(Craps::process_move(&mut session, &odds_payload, &mut rng).is_ok());
        let state = CrapsState::from_blob(&session.state_blob).expect("Failed to parse state");
        assert_eq!(state.bets[0].odds_amount, 200);
    }
}

#[test]
fn test_come_bet_pending_to_on() {
    let mut session = create_test_session(100);
    let mut rng = GameRng::new(SEED, session.id, 0);
    Craps::init(&mut session, &mut rng);
    let mut state = CrapsState::from_blob(&session.state_blob).expect("Failed to parse state");
    state.phase = Phase::Point;
    state.main_point = 4;
    session.state_blob = state.to_blob();

    place(&mut session, BetType::Come, 0, 100, 1).expect("move");
    let state = CrapsState::from_blob(&session.state_blob).expect("Failed to parse state");
    assert_eq!(state.bets[0].status, BetStatus::Pending);

    let mut state = CrapsState::from_blob(&session.state_blob).expect("Failed to parse state");
    process_roll(&mut state, 3, 3);
    assert_eq!(state.bets[0].status, BetStatus::On);
    assert_eq!(state.bets[0].target, 6);
}

#[test]
fn craps_test_clear_bets() {
    let mut session = create_test_session(100);
    let mut rng = GameRng::new(SEED, session.id, 0);
    Craps::init(&mut session, &mut rng);
    place(&mut session, BetType::Field, 0, 100, 1).expect("move");
    let mut rng = GameRng::new(SEED, session.id, 2);
    assert!(Craps::process_move(&mut session, &[3], &mut rng).is_ok());
    let state = CrapsState::from_blob(&session.state_blob).expect("Failed to parse state");
    assert!(state.bets.is_empty());

    place(&mut session, BetType::Field, 0, 100, 3).expect("move");
    let mut rng = GameRng::new(SEED, session.id, 4);
    Craps::process_move(&mut session, &[2], &mut rng).expect("roll");
    // The field bet resolved and the game completed; a clear is refused either way.
    let mut rng = GameRng::new(SEED, session.id, 5);
    assert!(Craps::process_move(&mut session, &[3], &mut rng).is_err());
}

#[test]
fn test_multiple_bets() {
    let mut session = create_test_session(500);
    let mut rng = GameRng::new(SEED, session.id, 0);
    Craps::init(&mut session, &mut rng);
    let bets = vec![(BetType::Pass, 0, 100u64), (BetType::Field, 0, 50u64)];
    for (idx, (bet_type, target, amount)) in bets.iter().enumerate() {
        assert!(place(&mut session, *bet_type, *target, *amount, (idx + 1) as u32).is_ok());
    }
    let state = CrapsState::from_blob(&session.state_blob).expect("Failed to parse state");
    assert_eq!(state.bets.len(), 2);
    assert!(state.bets.iter().any(|b| b.bet_type == BetType::Pass));
    assert!(state.bets.iter().any(|b| b.bet_type == BetType::Field));

    let initial_bet_count = state.bets.len();
    let mut rng = GameRng::new(SEED, session.id, 3);
    Craps::process_move(&mut session, &[2], &mut rng).expect("roll");
    let state = CrapsState::from_blob(&session.state_blob).expect("Failed to parse state");
    assert!(state.bets.len() < initial_bet_count, "At least field bet should resolve");
    assert!(!state.bets.iter().any(|b| b.bet_type == BetType::Field));
}

#[test]
fn test_ways_constant() {
    assert_eq!(ways(2), 1);
    assert_eq!(ways(7), 6);
    assert_eq!(ways(12), 1);
}

#[test]
fn test_fire_bet_pays_on_seven_out() {
    let mut state = fresh_state(Phase::ComeOut, 0, false, vec![bet(BetType::Fire, 10)]);
    for (d1, d2) in [(2, 2), (2, 2), (2, 3), (2, 3), (3, 3), (3, 3), (4, 4), (4, 4)] {
        process_roll(&mut state, d1, d2);
    }
    assert_eq!(state.made_points_mask.count_ones(), 4);
    process_roll(&mut state, 4, 5);
    let results = process_roll(&mut state, 3, 4);
    assert_eq!(results.len(), 1);
    assert!(results[0].resolved);
    assert_eq!(results[0].return_amount, 250);
}

#[test]
fn test_fire_bet_loses_under_four_points() {
    let mut state = fresh_state(Phase::ComeOut, 0, false, vec![bet(BetType::Fire, 10)]);
    for (d1, d2) in [(2, 2), (2, 2), (2, 3), (2, 3), (3, 3), (3, 3)] {
        process_roll(&mut state, d1, d2);
    }
    assert_eq!(state.made_points_mask.count_ones(), 3);
    process_roll(&mut state, 4, 5);
    let results = process_roll(&mut state, 3, 4);
    assert_eq!(results.len(), 1);
    assert_eq!(results[0].return_amount, 0);
}

#[test]
fn craps_legacy_v1_blob_derives_epoch() {
    // v1 header: [1][phase][main_point][d1][d2][mask][bet_count]
    let blob = vec![1u8, 1, 6, 3, 3, 0, 0];
    let state = CrapsState::from_blob(&blob).expect("v1 parses");
    assert_eq!(state.phase, Phase::Point);
    assert!(state.epoch_point_established);
    assert_eq!(state.field_paytable, FieldPaytable::Double2And12);
    assert!(CrapsState::from_blob(&[3u8, 0, 0, 0, 0, 0, 0, 0]).is_none());
}

#[test]
fn craps_place_rules() {
    let mut session = create_test_session(100);
    let mut rng = GameRng::new(SEED, 9, 0);
    Craps::init(&mut session, &mut rng);
    // Come bets need a point.
    assert!(matches!(place(&mut session, BetType::Come, 0, 10, 1), Err(GameError::InvalidMove)));
    // Yes bets need a point number.
    assert!(matches!(place(&mut session, BetType::Yes, 7, 10, 1), Err(GameError::InvalidPayload)));
    // Buy pays its commission up front.
    assert_eq!(place(&mut session, BetType::Buy, 4, 100, 1), Ok(GameResult::ContinueWithUpdate { payout: -105 }));
    // One Fire bet only.
    assert!(place(&mut session, BetType::Fire, 0, 10, 2).is_ok());
    assert!(matches!(place(&mut session, BetType::Fire, 0, 10, 3), Err(GameError::InvalidMove)));
    // Odds need a working contract bet on a point.
    let mut odds = vec![1u8];
    odds.extend_from_slice(&5u64.to_be_bytes());
    assert!(matches!(Craps::process_move(&mut session, &odds, &mut rng), Err(GameError::InvalidMove)));
}
