use nullspace_execution::casino::three_card::serialize_state as serialize_three_card;
use nullspace_execution::casino::three_card::{Stage as TcStage, TcState};
use nullspace_execution::casino::{GameResult, GameSession, GameType, SuperModeState};
use nullspace_execution::layer::{
    apply_progressive_meters_for_completion, apply_three_card_progressive_meter,
    apply_uth_progressive_meter, card_rank_ace_high, card_suit, integer_sqrt,
    is_three_card_mini_royal_spades, parse_three_card_progressive_state, parse_u64_be_at,
    parse_uth_progressive_state, uth_progressive_jackpot_tier, ProgressiveMeters, UthJackpotTier,
    THREE_CARD_PROGRESSIVE_BASE_JACKPOT, UTH_PROGRESSIVE_BASE_JACKPOT,
};

fn finished_session(game_type: GameType, state_blob: Vec<u8>) -> GameSession {
    GameSession {
        id: 1,
        player: vec![1u8; 32],
        game_type,
        bet: 100,
        state_blob,
        move_count: 3,
        created_at: 0,
        is_complete: true,
        super_mode: SuperModeState::default(),
        is_tournament: false,
        tournament_id: None,
    }
}

#[test]
fn test_card_helpers() {
    assert_eq!(card_rank_ace_high(0), 14);
    assert_eq!(card_rank_ace_high(12), 13);
    assert_eq!(card_rank_ace_high(14), 2);
    assert_eq!(card_suit(0), 0);
    assert_eq!(card_suit(51), 3);
}

#[test]
fn test_parse_u64_be_at() {
    let bytes = [0u8, 0, 0, 0, 0, 0, 0, 1, 2];
    assert_eq!(parse_u64_be_at(&bytes, 0), Some(1));
    assert_eq!(parse_u64_be_at(&bytes, 1), Some(258));
    assert_eq!(parse_u64_be_at(&bytes, 2), None);
}

#[test]
fn test_parse_progressive_states() {
    let state = TcState {
        stage: TcStage::Complete,
        player: [0, 12, 11],
        dealer: [1, 2, 3],
        pairplus_bet: 0,
        six_card_bonus_bet: 0,
        progressive_bet: 1,
    };
    let blob = serialize_three_card(&state);
    assert_eq!(parse_three_card_progressive_state(&blob), Some((1, [0, 12, 11])));
    // Older blobs carry no progressive bet.
    assert_eq!(parse_three_card_progressive_state(&[2, 3, 4, 5, 6]), Some((0, [4, 5, 6])));
    assert_eq!(parse_three_card_progressive_state(&[3, 3, 4, 5]), None);

    let mut uth = vec![3u8, 5, 9, 10, 11, 12, 0];
    uth.resize(32, 0);
    uth.extend_from_slice(&1u64.to_be_bytes());
    assert_eq!(parse_uth_progressive_state(&uth), Some((1, [9, 10], [11, 12, 0])));
    assert_eq!(parse_uth_progressive_state(&[3, 5, 9, 10, 11, 12]), None);
}

#[test]
fn test_jackpot_hands() {
    assert!(is_three_card_mini_royal_spades(&[0, 12, 11]));
    assert!(!is_three_card_mini_royal_spades(&[13, 25, 24]));
    assert!(!is_three_card_mini_royal_spades(&[0, 12, 10]));
    assert_eq!(uth_progressive_jackpot_tier(&[9, 10], &[11, 12, 0]), UthJackpotTier::RoyalFlush);
    assert_eq!(uth_progressive_jackpot_tier(&[1, 2], &[3, 4, 5]), UthJackpotTier::StraightFlush);
    assert_eq!(uth_progressive_jackpot_tier(&[0, 13], &[26, 39, 1]), UthJackpotTier::Nothing);
    assert_eq!(uth_progressive_jackpot_tier(&[9, 10], &[11, 12, 255]), UthJackpotTier::Nothing);
}

#[test]
fn test_three_card_meter() {
    let base = THREE_CARD_PROGRESSIVE_BASE_JACKPOT;
    // A losing session only grows the meter.
    let (meter, result) = apply_three_card_progressive_meter(base + 50, 1, &[1, 2, 3], GameResult::LossPreDeducted(101));
    assert_eq!(meter, base + 51);
    assert_eq!(result, GameResult::LossPreDeducted(101));
    // A winning mini-royal in spades takes what the meter holds above the base.
    let (meter, result) = apply_three_card_progressive_meter(base + 50, 1, &[0, 12, 11], GameResult::Win(base));
    assert_eq!(meter, base);
    assert_eq!(result, GameResult::Win(base + 51));
}

#[test]
fn test_uth_meter() {
    let base = UTH_PROGRESSIVE_BASE_JACKPOT;
    let (meter, result) = apply_uth_progressive_meter(base + 99, 1, &[1, 2], &[3, 4, 5], GameResult::Win(700));
    // Straight flush: a tenth of the meter above a tenth of the base.
    assert_eq!(meter, base + 100);
    assert_eq!(result, GameResult::Win(710));
    let (meter, result) = apply_uth_progressive_meter(base + 99, 1, &[9, 10], &[11, 12, 0], GameResult::Win(base));
    assert_eq!(meter, base);
    assert_eq!(result, GameResult::Win(base + 100));
}

#[test]
fn test_meters_for_completion() {
    let state = TcState {
        stage: TcStage::Complete,
        player: [0, 12, 11],
        dealer: [1, 2, 3],
        pairplus_bet: 0,
        six_card_bonus_bet: 0,
        progressive_bet: 1,
    };
    let session = finished_session(GameType::ThreeCard, serialize_three_card(&state));
    let mut meters = ProgressiveMeters { three_card: THREE_CARD_PROGRESSIVE_BASE_JACKPOT, uth: UTH_PROGRESSIVE_BASE_JACKPOT };
    let result = apply_progressive_meters_for_completion(&mut meters, &session, GameResult::Win(10));
    assert_eq!(result, GameResult::Win(11));
    assert_eq!(meters.three_card, THREE_CARD_PROGRESSIVE_BASE_JACKPOT);

    // Tournament sessions leave the meters alone.
    let mut tournament = session.clone();
    tournament.is_tournament = true;
    let result = apply_progressive_meters_for_completion(&mut meters, &tournament, GameResult::Win(10));
    assert_eq!(result, GameResult::Win(10));

    // Other games leave the meters alone.
    let other = finished_session(GameType::Roulette, vec![3, 0, 0, 0, 0, 0, 0]);
    let before = meters;
    apply_progressive_meters_for_completion(&mut meters, &other, GameResult::Win(10));
    assert_eq!(meters, before);
}

#[test]
fn test_integer_sqrt() {
    assert_eq!(integer_sqrt(0), 0);
    assert_eq!(integer_sqrt(1), 1);
    assert_eq!(integer_sqrt(15), 3);
    assert_eq!(integer_sqrt(16), 4);
    assert_eq!(integer_sqrt(1_000_000), 1000);
    assert_eq!(integer_sqrt((u64::MAX as u128) * (u64::MAX as u128)), u64::MAX);
    assert_eq!(integer_sqrt(u128::MAX - 1), u64::MAX);
}
