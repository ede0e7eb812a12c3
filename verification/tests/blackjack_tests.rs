use nullspace_execution::casino::blackjack::{
    eval_21plus3_multiplier, hand_value, is_blackjack, is_natural_blackjack, parse_state, serialize_state,
    Blackjack, BlackjackState, HandState, HandStatus, Move, Stage,
};
use nullspace_execution::casino::{CasinoGame, GameError, GameResult, GameRng, GameSession, GameType, SuperModeState};

const SEED: &[u8] = b"blackjack-test-seed";

fn session_with_state(state: &BlackjackState, bet: u64) -> GameSession {
    GameSession {
        id: 0,
        player: vec![1u8; 32],
        game_type: GameType::Blackjack,
        bet,
        state_blob: serialize_state(state),
        move_count: 1,
        created_at: 0,
        is_complete: false,
        super_mode: SuperModeState::default(),
        is_tournament: false,
        tournament_id: None,
    }
}

#[test]
fn test_21plus3_multiplier_table() {
    // Straight flush (2-3-4 suited)
    assert_eq!(eval_21plus3_multiplier([1, 2, 3]), 30);

    // Trips (three 7s)
    assert_eq!(eval_21plus3_multiplier([6, 19, 32]), 20);

    // Straight (10-J-Q unsuited)
    assert_eq!(eval_21plus3_multiplier([9, 23, 37]), 10);

    // Flush (A-5-9 suited, not straight)
    assert_eq!(eval_21plus3_multiplier([0, 4, 8]), 5);

    // Nothing
    assert_eq!(eval_21plus3_multiplier([0, 10, 25]), 0);
}

#[test]
fn test_split_hand_is_not_natural_blackjack() {
    let hand = HandState {
        cards: vec![0, 9], // A + 10
        bet_mult: 1,
        status: HandStatus::Standing,
        was_split: true,
    };
    assert!(!is_natural_blackjack(&hand));
}

#[test]
fn test_hit_all_busted_returns_loss_prededucted() {
    let state = BlackjackState {
        stage: Stage::PlayerTurn,
        side_bet_21plus3: 0,
        initial_player_cards: [9, 12],
        active_hand_idx: 0,
        hands: vec![HandState {
            cards: vec![9, 12], // 10 + K = 20
            bet_mult: 1,
            status: HandStatus::Playing,
            was_split: false,
        }],
        dealer_cards: vec![0],
    };
    let base_session = session_with_state(&state, 100);

    let mut found = None;
    for session_id in 0u64..64 {
        let mut session = base_session.clone();
        session.id = session_id;
        let mut rng = GameRng::new(SEED, session_id, 1);
        match Blackjack::process_move(&mut session, &[Move::Hit as u8], &mut rng).unwrap() {
            GameResult::LossPreDeducted(total_wagered) => {
                found = Some(total_wagered);
                break;
            }
            _ => continue,
        }
    }

    assert_eq!(found, Some(100));
}

#[test]
fn test_hit_all_busted_side_bet_win_returns_win() {
    let state = BlackjackState {
        stage: Stage::PlayerTurn,
        side_bet_21plus3: 10,
        initial_player_cards: [1, 2],
        active_hand_idx: 0,
        hands: vec![HandState {
            cards: vec![1, 2, 9, 4], // 2 + 3 + 10 + 5 = 20
            bet_mult: 1,
            status: HandStatus::Playing,
            was_split: false,
        }],
        dealer_cards: vec![3],
    };
    let base_session = session_with_state(&state, 100);

    let mut found = None;
    for session_id in 0u64..64 {
        let mut session = base_session.clone();
        session.id = session_id;
        let mut rng = GameRng::new(SEED, session_id, 1);
        match Blackjack::process_move(&mut session, &[Move::Hit as u8], &mut rng).unwrap() {
            GameResult::Win(total_return) => {
                found = Some(total_return);
                break;
            }
            _ => continue,
        }
    }

    assert_eq!(found, Some(310));
}

#[test]
fn test_hand_value_soft_and_hard() {
    // A + 6 is soft 17.
    assert_eq!(hand_value(&[0, 5]), (17, true));
    // A + 6 + 10 is hard 17.
    assert_eq!(hand_value(&[0, 5, 9]), (17, false));
    // Two aces: soft 12.
    assert_eq!(hand_value(&[0, 13]), (12, true));
    // K + Q + 5 busts at 25.
    assert_eq!(hand_value(&[12, 11, 4]), (25, false));
}

#[test]
fn test_state_roundtrip() {
    let state = BlackjackState {
        stage: Stage::PlayerTurn,
        side_bet_21plus3: 7,
        initial_player_cards: [9, 12],
        active_hand_idx: 0,
        hands: vec![HandState {
            cards: vec![9, 12],
            bet_mult: 1,
            status: HandStatus::Playing,
            was_split: false,
        }],
        dealer_cards: vec![0],
    };
    let blob = serialize_state(&state);
    let parsed = parse_state(&blob).unwrap();
    assert_eq!(parsed.stage, Stage::PlayerTurn);
    assert_eq!(parsed.side_bet_21plus3, 7);
    assert_eq!(parsed.initial_player_cards, [9, 12]);
    assert_eq!(parsed.hands.len(), 1);
    assert_eq!(parsed.hands[0].cards, vec![9, 12]);
    assert_eq!(parsed.dealer_cards, vec![0]);
}

#[test]
fn test_full_flow_and_completed_game() {
    let mut session = GameSession {
        id: 5,
        player: vec![1u8; 32],
        game_type: GameType::Blackjack,
        bet: 100,
        state_blob: vec![],
        move_count: 0,
        created_at: 0,
        is_complete: false,
        super_mode: SuperModeState::default(),
        is_tournament: false,
        tournament_id: None,
    };
    let mut rng = GameRng::new(SEED, session.id, 0);
    Blackjack::init(&mut session, &mut rng);
    let mut rng = GameRng::new(SEED, session.id, 1);
    Blackjack::process_move(&mut session, &[Move::Deal as u8], &mut rng).unwrap();
    let mut move_number = 2;
    while !session.is_complete && move_number < 20 {
        let mut rng = GameRng::new(SEED, session.id, move_number);
        let state = parse_state(&session.state_blob).unwrap();
        let mv = if state.stage == Stage::AwaitingReveal { Move::Reveal } else { Move::Stand };
        Blackjack::process_move(&mut session, &[mv as u8], &mut rng).unwrap();
        move_number += 1;
    }
    assert!(session.is_complete);
    let mut rng = GameRng::new(SEED, session.id, move_number);
    let res = Blackjack::process_move(&mut session, &[Move::Hit as u8], &mut rng);
    assert_eq!(res, Err(GameError::GameAlreadyComplete));
}

#[test]
fn test_is_blackjack_only_two_cards() {
    assert!(is_blackjack(&[0, 9]));
    assert!(is_blackjack(&[12, 13]));
    assert!(!is_blackjack(&[0, 4, 17]));
    assert!(!is_blackjack(&[0]));
    assert!(!is_blackjack(&vec![0u8; 300]));
}
