use nullspace_execution::casino::video_poker::{
    card_rank, card_suit, evaluate_hand, parse_state, payout_multiplier, serialize_state, Hand, Stage, VideoPoker,
};
use nullspace_execution::casino::{CasinoGame, GameError, GameResult, GameRng, GameSession, GameType, SuperModeState};

const SEED: &[u8] = b"video-poker-test-seed";

fn create_test_session(bet: u64) -> GameSession {
    GameSession {
        id: 1,
        player: vec![4u8; 32],
        game_type: GameType::VideoPoker,
        bet,
        state_blob: vec![],
        move_count: 0,
        created_at: 0,
        is_complete: false,
        super_mode: SuperModeState::default(),
        is_tournament: false,
        tournament_id: None,
    }
}

#[test]
fn video_poker_test_card_rank() {
    assert_eq!(card_rank(0), 1);
    assert_eq!(card_rank(1), 2);
    assert_eq!(card_rank(12), 13);
}

#[test]
fn test_card_suit() {
    assert_eq!(card_suit(0), 0);
    assert_eq!(card_suit(13), 1);
    assert_eq!(card_suit(26), 2);
    assert_eq!(card_suit(39), 3);
}

#[test]
fn test_evaluate_royal_flush() {
    assert_eq!(evaluate_hand(&[9, 10, 11, 12, 0]), Hand::RoyalFlush);
}

#[test]
fn test_evaluate_straight_flush() {
    assert_eq!(evaluate_hand(&[4, 5, 6, 7, 8]), Hand::StraightFlush);
}

#[test]
fn test_evaluate_four_of_a_kind() {
    assert_eq!(evaluate_hand(&[0, 13, 26, 39, 1]), Hand::FourOfAKind);
}

#[test]
fn test_evaluate_full_house() {
    assert_eq!(evaluate_hand(&[12, 25, 38, 11, 24]), Hand::FullHouse);
}

#[test]
fn test_evaluate_flush() {
    assert_eq!(evaluate_hand(&[0, 2, 4, 6, 8]), Hand::Flush);
}

#[test]
fn test_evaluate_straight() {
    assert_eq!(evaluate_hand(&[4, 18, 32, 7, 21]), Hand::Straight);
}

#[test]
fn test_evaluate_three_of_a_kind() {
    assert_eq!(evaluate_hand(&[0, 13, 26, 1, 2]), Hand::ThreeOfAKind);
}

#[test]
fn test_evaluate_two_pair() {
    assert_eq!(evaluate_hand(&[0, 13, 1, 14, 2]), Hand::TwoPair);
}

#[test]
fn test_evaluate_jacks_or_better() {
    assert_eq!(evaluate_hand(&[10, 23, 1, 2, 3]), Hand::JacksOrBetter);
}

#[test]
fn test_evaluate_low_pair() {
    assert_eq!(evaluate_hand(&[1, 14, 3, 4, 5]), Hand::HighCard);
}

#[test]
fn video_poker_test_payout_multipliers() {
    assert_eq!(payout_multiplier(Hand::HighCard), 0);
    assert_eq!(payout_multiplier(Hand::JacksOrBetter), 1);
    assert_eq!(payout_multiplier(Hand::TwoPair), 2);
    assert_eq!(payout_multiplier(Hand::RoyalFlush), 800);
}

#[test]
fn test_game_flow() {
    let mut session = create_test_session(100);
    let mut rng = GameRng::new(SEED, session.id, 0);
    VideoPoker::init(&mut session, &mut rng);
    assert!(!session.is_complete);

    let (stage, cards) = parse_state(&session.state_blob).expect("Failed to parse state");
    assert_eq!(stage, Stage::Deal);
    for card in cards {
        assert!(card < 52);
    }

    let mut rng = GameRng::new(SEED, session.id, 1);
    let result = VideoPoker::process_move(&mut session, &[0b11111], &mut rng);
    assert!(result.is_ok());
    assert!(session.is_complete);
}

#[test]
fn test_discard_all() {
    let mut session = create_test_session(100);
    let mut rng = GameRng::new(SEED, session.id, 0);
    VideoPoker::init(&mut session, &mut rng);
    let (_, dealt_cards) = parse_state(&session.state_blob).expect("Failed to parse state");

    let mut rng = GameRng::new(SEED, session.id, 1);
    let result = VideoPoker::process_move(&mut session, &[0], &mut rng);
    assert!(result.is_ok());
    let (_, new_cards) = parse_state(&session.state_blob).expect("Failed to parse state");
    let same_count = dealt_cards.iter().filter(|c| new_cards.contains(c)).count();
    assert!(same_count < 5 || dealt_cards == new_cards);
}

#[test]
fn test_ace_low_straight() {
    assert_eq!(evaluate_hand(&[0, 1, 2, 3, 4]), Hand::StraightFlush);
}

#[test]
fn video_poker_hold_all_keeps_cards_and_pays_by_hand() {
    let mut session = create_test_session(10);
    // A royal flush already dealt: holding everything pays 800 units.
    session.state_blob = vec![0, 9, 10, 11, 12, 0];
    let mut rng = GameRng::new(SEED, 3, 1);
    let result = VideoPoker::process_move(&mut session, &[0b11111], &mut rng).unwrap();
    assert_eq!(result, GameResult::Win(8000));
    assert_eq!(session.state_blob, vec![1, 9, 10, 11, 12, 0]);
    assert_eq!(session.move_count, 1);
    assert!(matches!(
        VideoPoker::process_move(&mut session, &[0], &mut rng),
        Err(GameError::GameAlreadyComplete)
    ));
}

#[test]
fn video_poker_drawn_cards_avoid_held_cards() {
    for id in 1..20u64 {
        let mut session = create_test_session(10);
        let mut rng = GameRng::new(SEED, id, 0);
        VideoPoker::init(&mut session, &mut rng);
        let (_, before) = parse_state(&session.state_blob).unwrap();
        let mut rng = GameRng::new(SEED, id, 1);
        VideoPoker::process_move(&mut session, &[0b00101], &mut rng).unwrap();
        let (stage, after) = parse_state(&session.state_blob).unwrap();
        assert_eq!(stage, Stage::Draw);
        assert_eq!(after[0], before[0]);
        assert_eq!(after[2], before[2]);
        for i in [1usize, 3, 4] {
            assert!(after[i] != before[0] && after[i] != before[2]);
        }
    }
}

#[test]
fn video_poker_bad_state_and_empty_payload() {
    let mut session = create_test_session(10);
    let mut rng = GameRng::new(SEED, 1, 0);
    session.state_blob = vec![0, 1, 2];
    assert!(matches!(VideoPoker::process_move(&mut session, &[1], &mut rng), Err(GameError::InvalidPayload)));
    session.state_blob = vec![0, 1, 2, 3, 4, 5];
    assert!(matches!(VideoPoker::process_move(&mut session, &[], &mut rng), Err(GameError::InvalidPayload)));
}

#[test]
fn test_state_roundtrip_five_cards() {
    let cards = [0u8, 13, 26, 39, 51];
    let blob = serialize_state(Stage::Draw, &cards);
    assert_eq!(blob, vec![1, 0, 13, 26, 39, 51]);
    assert_eq!(parse_state(&blob), Some((Stage::Draw, cards)));
    assert_eq!(parse_state(&blob[..5]), None);
}
