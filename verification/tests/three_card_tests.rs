use nullspace_execution::casino::three_card::{
    dealer_qualifies, evaluate_best_5_of_6_bonus_rank, evaluate_hand, pairplus_multiplier,
    parse_state, resolve_pairplus_return, resolve_progressive_return,
    resolve_six_card_bonus_return, serialize_state, six_card_bonus_multiplier, HandRank, Move,
    SixCardBonusRank, Stage, TcState, ThreeCardPoker, CARD_UNKNOWN, PROGRESSIVE_BET_UNIT,
    THREE_CARD_PROGRESSIVE_BASE_JACKPOT,
};
use nullspace_execution::casino::{CasinoGame, GameError, GameResult, GameRng, GameSession, GameType, SuperModeState};

const SEED: &[u8] = b"three-card-test-seed";

fn create_test_session(bet: u64) -> GameSession {
    GameSession {
        id: 1,
        player: vec![1u8; 32],
        game_type: GameType::ThreeCard,
        bet,
        state_blob: vec![],
        move_count: 0,
        created_at: 0,
        is_complete: false,
        super_mode: SuperModeState::default(),
        is_tournament: false,
        tournament_id: None,
    }
}

fn amount_payload(mv: Move, amount: u64) -> Vec<u8> {
    let mut payload = vec![mv as u8];
    payload.extend_from_slice(&amount.to_be_bytes());
    payload
}

#[test]
fn test_dealer_qualification_threshold() {
    // Q-6-4 qualifies; Q-6-3 does not.
    let qualifies = dealer_qualifies(&(HandRank::HighCard, [12, 6, 4]));
    assert!(qualifies);
    let qualifies = dealer_qualifies(&(HandRank::HighCard, [12, 6, 3]));
    assert!(!qualifies);
}

#[test]
fn test_pairplus_multiplier_table() {
    assert_eq!(pairplus_multiplier(HandRank::StraightFlush), 40);
    assert_eq!(pairplus_multiplier(HandRank::ThreeOfAKind), 30);
    assert_eq!(pairplus_multiplier(HandRank::Straight), 6);
    assert_eq!(pairplus_multiplier(HandRank::Flush), 3);
    assert_eq!(pairplus_multiplier(HandRank::Pair), 1);
    assert_eq!(pairplus_multiplier(HandRank::HighCard), 0);
}

#[test]
fn test_basic_flow_deal_play_reveal() {
    let mut session = create_test_session(100);

    let mut rng = GameRng::new(SEED, session.id, 0);
    ThreeCardPoker::init(&mut session, &mut rng);

    // Deal (no pairplus)
    let mut rng = GameRng::new(SEED, session.id, 1);
    ThreeCardPoker::process_move(&mut session, &[Move::Deal as u8], &mut rng).unwrap();

    // Play (deduct play bet)
    let mut rng = GameRng::new(SEED, session.id, 2);
    let res = ThreeCardPoker::process_move(&mut session, &[Move::Play as u8], &mut rng).unwrap();
    assert!(matches!(res, GameResult::ContinueWithUpdate { payout: -100 }));

    // Reveal resolves
    let mut rng = GameRng::new(SEED, session.id, 3);
    let res = ThreeCardPoker::process_move(&mut session, &[Move::Reveal as u8], &mut rng).unwrap();
    assert!(matches!(res, GameResult::Win(_) | GameResult::LossPreDeducted(_)));
    assert!(session.is_complete);
}

#[test]
fn test_six_card_bonus_multiplier_examples() {
    // Royal flush in diamonds + junk.
    let cards = [26u8, 35u8, 36u8, 37u8, 38u8, 0u8];
    assert_eq!(evaluate_best_5_of_6_bonus_rank(&cards), SixCardBonusRank::RoyalFlush);
    assert_eq!(six_card_bonus_multiplier(SixCardBonusRank::RoyalFlush), 1000);

    // Quads (four aces) + junk.
    let cards = [0u8, 13u8, 26u8, 39u8, 1u8, 2u8];
    assert_eq!(evaluate_best_5_of_6_bonus_rank(&cards), SixCardBonusRank::FourOfAKind);
    assert_eq!(six_card_bonus_multiplier(SixCardBonusRank::FourOfAKind), 100);
}

#[test]
fn three_card_test_progressive_paytable_examples() {
    // Mini-royal in spades: A K Q of spades.
    let player = [0u8, 12u8, 11u8];
    assert_eq!(
        resolve_progressive_return(&player, PROGRESSIVE_BET_UNIT),
        THREE_CARD_PROGRESSIVE_BASE_JACKPOT
    );

    // Mini-royal in hearts.
    let player = [13u8, 25u8, 24u8];
    assert_eq!(resolve_progressive_return(&player, PROGRESSIVE_BET_UNIT), 500);

    // Straight flush: 2 3 4 of spades.
    let player = [1u8, 2u8, 3u8];
    assert_eq!(resolve_progressive_return(&player, PROGRESSIVE_BET_UNIT), 70);

    // Trips: three fives.
    let player = [4u8, 17u8, 30u8];
    assert_eq!(resolve_progressive_return(&player, PROGRESSIVE_BET_UNIT), 60);

    // Straight: 2 3 4 offsuit.
    let player = [1u8, 15u8, 29u8];
    assert_eq!(resolve_progressive_return(&player, PROGRESSIVE_BET_UNIT), 6);
}

#[test]
fn test_evaluate_hand_ranks_and_high_cards() {
    assert_eq!(evaluate_hand(&[0, 12, 11]), (HandRank::StraightFlush, [14, 13, 12]));
    assert_eq!(evaluate_hand(&[4, 17, 30]), (HandRank::ThreeOfAKind, [5, 5, 5]));
    // A-2-3 is a straight.
    assert_eq!(evaluate_hand(&[0, 14, 28]), (HandRank::Straight, [14, 3, 2]));
    assert_eq!(evaluate_hand(&[0, 4, 8]), (HandRank::Flush, [14, 9, 5]));
    assert_eq!(evaluate_hand(&[1, 14, 30]), (HandRank::Pair, [5, 2, 2]));
    assert_eq!(evaluate_hand(&[0, 17, 35]), (HandRank::HighCard, [14, 10, 5]));
}

#[test]
fn test_pairplus_return_includes_stake() {
    // Pair pays 1 to 1: stake plus winnings.
    assert_eq!(resolve_pairplus_return(&[1, 14, 30], 10), 20);
    // High card loses.
    assert_eq!(resolve_pairplus_return(&[0, 17, 35], 10), 0);
    // No bet, nothing back.
    assert_eq!(resolve_pairplus_return(&[0, 12, 11], 0), 0);
}

#[test]
fn test_six_card_bonus_return_uses_all_six_cards() {
    // Player 2-3-4 of spades, dealer 5-6 of spades: straight flush.
    assert_eq!(resolve_six_card_bonus_return(&[1, 2, 3], &[4, 5, 20], 5), 5 * 201);
    // Nothing.
    assert_eq!(resolve_six_card_bonus_return(&[0, 15, 30], &[45, 8, 23], 5), 0);
}

#[test]
fn test_state_roundtrip_and_legacy_blobs() {
    let state = TcState {
        stage: Stage::Decision,
        player: [1, 2, 3],
        dealer: [CARD_UNKNOWN; 3],
        pairplus_bet: 7,
        six_card_bonus_bet: 8,
        progressive_bet: 1,
    };
    let blob = serialize_state(&state);
    assert_eq!(blob.len(), 32);
    let parsed = parse_state(&blob).unwrap();
    assert_eq!(parsed.stage, Stage::Decision);
    assert_eq!(parsed.player, [1, 2, 3]);
    assert_eq!(parsed.pairplus_bet, 7);
    assert_eq!(parsed.six_card_bonus_bet, 8);
    assert_eq!(parsed.progressive_bet, 1);

    // A version 1 blob has no six-card or progressive bet.
    let mut v1 = vec![1u8, 0, 255, 255, 255, 255, 255, 255];
    v1.extend_from_slice(&9u64.to_be_bytes());
    let parsed = parse_state(&v1).unwrap();
    assert_eq!(parsed.pairplus_bet, 9);
    assert_eq!(parsed.six_card_bonus_bet, 0);
    assert_eq!(parsed.progressive_bet, 0);

    // Wrong length for the version.
    assert!(parse_state(&blob[..24]).is_none());
}

#[test]
fn test_side_bets_and_errors() {
    let mut session = create_test_session(100);
    let mut rng = GameRng::new(SEED, session.id, 0);
    ThreeCardPoker::init(&mut session, &mut rng);

    // Pairplus 10 is deducted; lowering it to 4 refunds 6.
    let res = ThreeCardPoker::process_move(&mut session, &amount_payload(Move::SetPairPlus, 10), &mut rng);
    assert_eq!(res, Ok(GameResult::ContinueWithUpdate { payout: -10 }));
    let res = ThreeCardPoker::process_move(&mut session, &amount_payload(Move::SetPairPlus, 4), &mut rng);
    assert_eq!(res, Ok(GameResult::ContinueWithUpdate { payout: 6 }));

    // The progressive only takes one unit.
    let res = ThreeCardPoker::process_move(&mut session, &amount_payload(Move::SetProgressive, 2), &mut rng);
    assert_eq!(res, Err(GameError::InvalidMove));

    // Missing amount.
    let res = ThreeCardPoker::process_move(&mut session, &[Move::SetSixCardBonus as u8], &mut rng);
    assert_eq!(res, Err(GameError::InvalidPayload));

    // Play before the deal.
    let res = ThreeCardPoker::process_move(&mut session, &[Move::Play as u8], &mut rng);
    assert_eq!(res, Err(GameError::InvalidMove));

    // Unknown move and empty payload.
    assert_eq!(ThreeCardPoker::process_move(&mut session, &[9], &mut rng), Err(GameError::InvalidPayload));
    assert_eq!(ThreeCardPoker::process_move(&mut session, &[], &mut rng), Err(GameError::InvalidPayload));

    let parsed = parse_state(&session.state_blob).unwrap();
    assert_eq!(parsed.pairplus_bet, 4);
    assert_eq!(parsed.stage, Stage::Betting);
}

#[test]
fn test_fold_completes_and_rejects_further_moves() {
    let mut session = create_test_session(100);
    let mut rng = GameRng::new(SEED, session.id, 0);
    ThreeCardPoker::init(&mut session, &mut rng);
    let mut rng = GameRng::new(SEED, session.id, 1);
    ThreeCardPoker::process_move(&mut session, &[Move::Deal as u8], &mut rng).unwrap();
    let mut rng = GameRng::new(SEED, session.id, 2);
    let res = ThreeCardPoker::process_move(&mut session, &[Move::Fold as u8], &mut rng).unwrap();
    // No side bets: folding loses the ante only.
    assert_eq!(res, GameResult::LossPreDeducted(100));
    assert!(session.is_complete);
    let parsed = parse_state(&session.state_blob).unwrap();
    assert_eq!(parsed.stage, Stage::Complete);
    for c in parsed.dealer.iter() {
        assert!(*c < 52);
        assert!(!parsed.player.contains(c));
    }
    let res = ThreeCardPoker::process_move(&mut session, &[Move::Reveal as u8], &mut rng);
    assert_eq!(res, Err(GameError::GameAlreadyComplete));
}
