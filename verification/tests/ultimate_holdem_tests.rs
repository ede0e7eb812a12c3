use nullspace_execution::casino::ultimate_holdem::{
    evaluate_5_card_fast, evaluate_best_6_card_bonus, evaluate_best_hand, is_known_card,
    parse_state, resolve_showdown, serialize_state, uth_progressive_return, Action, HandRank, Stage, UltimateHoldem,
    UthState, CARD_UNKNOWN, PROGRESSIVE_BET_UNIT, UTH_PROGRESSIVE_BASE_JACKPOT,
};
use nullspace_execution::casino::{CasinoGame, GameError, GameResult, GameRng, GameSession, GameType, SuperModeState};

const SEED: &[u8] = b"ultimate-holdem-test-seed";

fn create_test_session(bet: u64) -> GameSession {
    GameSession {
        id: 1,
        player: vec![1u8; 32],
        game_type: GameType::UltimateHoldem,
        bet,
        state_blob: vec![],
        move_count: 0,
        created_at: 0,
        is_complete: false,
        super_mode: SuperModeState::default(),
        is_tournament: false,
        tournament_id: None,
    }
}

fn amount_payload(action: Action, amount: u64) -> Vec<u8> {
    let mut payload = vec![action as u8];
    payload.extend_from_slice(&amount.to_be_bytes());
    payload
}

#[test]
fn test_init_starts_in_betting_and_deducts_blind() {
    let mut session = create_test_session(100);
    let mut rng = GameRng::new(SEED, session.id, 0);

    let result = UltimateHoldem::init(&mut session, &mut rng);
    assert!(matches!(result, GameResult::ContinueWithUpdate { payout: -100 }));

    let state = parse_state(&session.state_blob).expect("Failed to parse state");
    assert_eq!(state.stage, Stage::Betting);
    assert_eq!(state.player, [CARD_UNKNOWN; 2]);
}

#[test]
fn test_set_trips_then_deal() {
    let mut session = create_test_session(100);
    let mut rng = GameRng::new(SEED, session.id, 0);
    UltimateHoldem::init(&mut session, &mut rng);

    let payload = amount_payload(Action::SetTrips, 25);
    let mut rng = GameRng::new(SEED, session.id, 1);
    let res = UltimateHoldem::process_move(&mut session, &payload, &mut rng).unwrap();
    assert!(matches!(res, GameResult::ContinueWithUpdate { payout: -25 }));

    let mut rng = GameRng::new(SEED, session.id, 2);
    let res = UltimateHoldem::process_move(&mut session, &[Action::Deal as u8], &mut rng).unwrap();
    assert!(matches!(res, GameResult::Continue));

    let state = parse_state(&session.state_blob).expect("Failed to parse state");
    assert_eq!(state.stage, Stage::Preflop);
    assert!(state.player.iter().all(|&c| is_known_card(c)));
    assert_eq!(state.trips_bet, 25);
}

#[test]
fn test_trips_refund_on_decrease() {
    let mut session = create_test_session(100);
    let mut rng = GameRng::new(SEED, session.id, 0);
    UltimateHoldem::init(&mut session, &mut rng);

    let payload = amount_payload(Action::SetTrips, 25);
    let mut rng = GameRng::new(SEED, session.id, 1);
    let res = UltimateHoldem::process_move(&mut session, &payload, &mut rng).unwrap();
    assert!(matches!(res, GameResult::ContinueWithUpdate { payout: -25 }));

    let payload = amount_payload(Action::SetTrips, 0);
    let mut rng = GameRng::new(SEED, session.id, 2);
    let res = UltimateHoldem::process_move(&mut session, &payload, &mut rng).unwrap();
    assert!(matches!(res, GameResult::ContinueWithUpdate { payout: 25 }));

    let state = parse_state(&session.state_blob).expect("Failed to parse state");
    assert_eq!(state.trips_bet, 0);
}

#[test]
fn test_set_six_card_bonus_then_reveal_draws_bonus_cards() {
    let mut session = create_test_session(100);
    let mut rng = GameRng::new(SEED, session.id, 0);
    UltimateHoldem::init(&mut session, &mut rng);

    let payload = amount_payload(Action::SetSixCardBonus, 25);
    let mut rng = GameRng::new(SEED, session.id, 1);
    let res = UltimateHoldem::process_move(&mut session, &payload, &mut rng).unwrap();
    assert!(matches!(res, GameResult::ContinueWithUpdate { payout: -25 }));

    let mut rng = GameRng::new(SEED, session.id, 2);
    UltimateHoldem::process_move(&mut session, &[Action::Deal as u8], &mut rng).unwrap();

    let mut rng = GameRng::new(SEED, session.id, 3);
    UltimateHoldem::process_move(&mut session, &[Action::Bet4x as u8], &mut rng).unwrap();

    let mut rng = GameRng::new(SEED, session.id, 4);
    UltimateHoldem::process_move(&mut session, &[Action::Reveal as u8], &mut rng).unwrap();

    let state = parse_state(&session.state_blob).expect("Failed to parse state");
    assert!(state.bonus.iter().all(|&c| is_known_card(c)));
    assert_eq!(state.six_card_bonus_bet, 25);
}

#[test]
fn test_preflop_bet_then_reveal_completes() {
    let mut session = create_test_session(100);
    let mut rng = GameRng::new(SEED, session.id, 0);
    UltimateHoldem::init(&mut session, &mut rng);

    let mut rng = GameRng::new(SEED, session.id, 1);
    UltimateHoldem::process_move(&mut session, &[Action::Deal as u8], &mut rng).unwrap();

    let mut rng = GameRng::new(SEED, session.id, 2);
    let res = UltimateHoldem::process_move(&mut session, &[Action::Bet4x as u8], &mut rng).unwrap();
    assert!(matches!(res, GameResult::ContinueWithUpdate { payout: -400 }));

    let mut rng = GameRng::new(SEED, session.id, 3);
    let res = UltimateHoldem::process_move(&mut session, &[Action::Reveal as u8], &mut rng).unwrap();
    assert!(matches!(res, GameResult::Win(_) | GameResult::LossPreDeducted(_)));
    assert!(session.is_complete);
}

#[test]
fn test_preflop_bet3x_then_reveal_completes() {
    let mut session = create_test_session(100);
    let mut rng = GameRng::new(SEED, session.id, 0);
    UltimateHoldem::init(&mut session, &mut rng);

    let mut rng = GameRng::new(SEED, session.id, 1);
    UltimateHoldem::process_move(&mut session, &[Action::Deal as u8], &mut rng).unwrap();

    let mut rng = GameRng::new(SEED, session.id, 2);
    let res = UltimateHoldem::process_move(&mut session, &[Action::Bet3x as u8], &mut rng).unwrap();
    assert!(matches!(res, GameResult::ContinueWithUpdate { payout: -300 }));

    let mut rng = GameRng::new(SEED, session.id, 3);
    let res = UltimateHoldem::process_move(&mut session, &[Action::Reveal as u8], &mut rng).unwrap();
    assert!(matches!(res, GameResult::Win(_) | GameResult::LossPreDeducted(_)));
    assert!(session.is_complete);
}

#[test]
fn test_check_check_fold_flow() {
    let mut session = create_test_session(100);
    let mut rng = GameRng::new(SEED, session.id, 0);
    UltimateHoldem::init(&mut session, &mut rng);

    let mut rng = GameRng::new(SEED, session.id, 1);
    UltimateHoldem::process_move(&mut session, &[Action::Deal as u8], &mut rng).unwrap();

    let mut rng = GameRng::new(SEED, session.id, 2);
    UltimateHoldem::process_move(&mut session, &[Action::Check as u8], &mut rng).unwrap();

    let mut rng = GameRng::new(SEED, session.id, 3);
    UltimateHoldem::process_move(&mut session, &[Action::Check as u8], &mut rng).unwrap();

    let mut rng = GameRng::new(SEED, session.id, 4);
    let res = UltimateHoldem::process_move(&mut session, &[Action::Fold as u8], &mut rng).unwrap();
    assert!(matches!(res, GameResult::Win(_) | GameResult::LossPreDeducted(_)));
    assert!(session.is_complete);
}

#[test]
fn ultimate_holdem_test_progressive_paytable_examples() {
    // Royal flush: 10 J (hole) + Q K A (flop), all spades.
    let hole = [9u8, 10u8];
    let flop = [11u8, 12u8, 0u8];
    assert_eq!(
        uth_progressive_return(&hole, &flop, PROGRESSIVE_BET_UNIT),
        UTH_PROGRESSIVE_BASE_JACKPOT
    );

    // Quads: four aces + 2.
    let hole = [0u8, 13u8];
    let flop = [26u8, 39u8, 1u8];
    assert_eq!(uth_progressive_return(&hole, &flop, PROGRESSIVE_BET_UNIT), 300);
}

#[test]
fn test_five_card_ranks_and_kickers() {
    // Two pair: 5 5 9 9 K, kickers sorted high to low.
    assert_eq!(evaluate_5_card_fast(&[4, 17, 8, 21, 12]), (HandRank::TwoPair, [13, 9, 9, 5, 5]));
    // Full house: 3 3 3 7 7.
    assert_eq!(evaluate_5_card_fast(&[2, 15, 28, 6, 19]).0, HandRank::FullHouse);
    // Wheel straight: A 2 3 4 5 offsuit.
    assert_eq!(evaluate_5_card_fast(&[0, 14, 28, 42, 4]), (HandRank::Straight, [14, 5, 4, 3, 2]));
    // Flush: spades, not a straight.
    assert_eq!(evaluate_5_card_fast(&[0, 2, 4, 6, 8]).0, HandRank::Flush);
    // High card.
    assert_eq!(evaluate_5_card_fast(&[0, 15, 30, 45, 8]), (HandRank::HighCard, [14, 9, 7, 5, 3]));
}

#[test]
fn test_best_hand_of_seven_and_six() {
    // Hole A K of spades, board Q J 10 of spades + two blanks: royal flush.
    let cards = [0u8, 12, 11, 10, 9, 27, 40];
    assert_eq!(evaluate_best_hand(&cards), (HandRank::RoyalFlush, [14, 13, 12, 11, 10]));
    // Pair of aces with the best kickers.
    let cards = [0u8, 13, 2, 17, 33, 47, 24];
    assert_eq!(evaluate_best_hand(&cards), (HandRank::Pair, [14, 14, 12, 9, 8]));
    // Six cards with trips.
    assert_eq!(evaluate_best_6_card_bonus(&[0, 13, 26, 1, 16, 31]), HandRank::ThreeOfAKind);
}

#[test]
fn test_state_roundtrip_and_errors() {
    let state = UthState {
        stage: Stage::Flop,
        player: [1, 2],
        community: [3, 4, 5, CARD_UNKNOWN, CARD_UNKNOWN],
        dealer: [CARD_UNKNOWN; 2],
        play_mult: 0,
        trips_bet: 5,
        bonus: [CARD_UNKNOWN; 4],
        six_card_bonus_bet: 6,
        progressive_bet: 1,
    };
    let blob = serialize_state(&state);
    assert_eq!(blob.len(), 40);
    let parsed = parse_state(&blob).unwrap();
    assert_eq!(parsed.stage, Stage::Flop);
    assert_eq!(parsed.community, [3, 4, 5, CARD_UNKNOWN, CARD_UNKNOWN]);
    assert_eq!(parsed.trips_bet, 5);
    assert_eq!(parsed.six_card_bonus_bet, 6);
    assert_eq!(parsed.progressive_bet, 1);

    let mut session = create_test_session(100);
    session.state_blob = blob;
    let mut rng = GameRng::new(SEED, session.id, 1);
    // Betting 4x is only allowed before the flop.
    let res = UltimateHoldem::process_move(&mut session, &[Action::Bet4x as u8], &mut rng);
    assert_eq!(res, Err(GameError::InvalidMove));
    // Revealing needs a play bet.
    let res = UltimateHoldem::process_move(&mut session, &[Action::Reveal as u8], &mut rng);
    assert_eq!(res, Err(GameError::InvalidMove));
    // Checking reveals the turn and river.
    let res = UltimateHoldem::process_move(&mut session, &[Action::Check as u8], &mut rng);
    assert_eq!(res, Ok(GameResult::Continue));
    let parsed = parse_state(&session.state_blob).unwrap();
    assert_eq!(parsed.stage, Stage::River);
    assert!(parsed.community.iter().all(|&c| is_known_card(c)));
    assert_eq!(&parsed.community[..3], &[3, 4, 5]);
}

#[test]
fn test_fold_with_unknown_hole_cards_is_invalid_state() {
    let state = UthState {
        stage: Stage::River,
        player: [CARD_UNKNOWN; 2],
        community: [CARD_UNKNOWN; 5],
        dealer: [CARD_UNKNOWN; 2],
        play_mult: 0,
        trips_bet: 0,
        bonus: [CARD_UNKNOWN; 4],
        six_card_bonus_bet: 0,
        progressive_bet: 0,
    };
    let mut session = create_test_session(100);
    session.state_blob = serialize_state(&state);
    let mut rng = GameRng::new(SEED, session.id, 1);
    let res = UltimateHoldem::process_move(&mut session, &[Action::Fold as u8], &mut rng);
    assert_eq!(res, Err(GameError::InvalidState));
    assert!(!session.is_complete);
}

#[test]
fn test_resolve_showdown_fold_completes_session() {
    let mut session = create_test_session(50);
    let mut state = UthState {
        stage: Stage::River,
        player: [0, 14],
        community: [2, 17, 32, 47, 10],
        dealer: [25, 38],
        play_mult: 0,
        trips_bet: 0,
        bonus: [CARD_UNKNOWN; 4],
        six_card_bonus_bet: 0,
        progressive_bet: 0,
    };
    let result = resolve_showdown(&mut session, &mut state);
    assert_eq!(result, Ok(GameResult::LossPreDeducted(100)));
    assert!(session.is_complete);
    assert_eq!(state.stage, Stage::Showdown);

    let mut session = create_test_session(50);
    let mut hidden = UthState { player: [CARD_UNKNOWN, 14], ..state };
    hidden.stage = Stage::River;
    assert_eq!(resolve_showdown(&mut session, &mut hidden), Err(GameError::InvalidState));
    assert!(!session.is_complete);
    assert_eq!(hidden.stage, Stage::River);
}

#[test]
fn test_best_hand_unbeaten_by_any_five() {
    let hands: [[u8; 7]; 3] = [[0, 13, 26, 5, 18, 44, 9], [12, 11, 10, 9, 8, 30, 45], [1, 14, 27, 40, 2, 15, 28]];
    for cards in hands.iter() {
        let best = evaluate_best_hand(cards);
        for i in 0..7 {
            for j in (i + 1)..7 {
                let five: Vec<u8> = (0..7).filter(|k| *k != i && *k != j).map(|k| cards[k]).collect();
                let five: [u8; 5] = [five[0], five[1], five[2], five[3], five[4]];
                let h = evaluate_5_card_fast(&five);
                assert!((h.0 as u8, h.1) <= (best.0 as u8, best.1));
            }
        }
    }
}
