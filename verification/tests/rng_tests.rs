use nullspace_execution::casino::{apply_modifiers, GameRng, Player};

const SEED: &[u8] = b"rng-test-seed";

#[test]
fn test_game_rng_deterministic() {
    let mut rng1 = GameRng::new(SEED, 1, 0);
    let mut rng2 = GameRng::new(SEED, 1, 0);
    for _ in 0..100 {
        assert_eq!(rng1.next_u8(), rng2.next_u8());
    }
}

#[test]
fn test_game_rng_different_sessions() {
    let mut rng1 = GameRng::new(SEED, 1, 0);
    let mut rng2 = GameRng::new(SEED, 2, 0);
    let seq1: Vec<u8> = (0..10).map(|_| rng1.next_u8()).collect();
    let seq2: Vec<u8> = (0..10).map(|_| rng2.next_u8()).collect();
    assert_ne!(seq1, seq2);
}

#[test]
fn test_game_rng_bounded() {
    let mut rng = GameRng::new(SEED, 1, 0);
    for _ in 0..1000 {
        assert!(rng.next_bounded(52) < 52);
    }
}

#[test]
fn test_game_rng_deck() {
    let mut rng = GameRng::new(SEED, 1, 0);
    let deck = rng.create_deck();
    assert_eq!(deck.len(), 52);
    let mut seen = [false; 52];
    for card in &deck {
        assert!(!seen[*card as usize], "Duplicate card: {}", card);
        seen[*card as usize] = true;
    }
}

#[test]
fn test_game_rng_draw_card() {
    let mut rng = GameRng::new(SEED, 1, 0);
    let mut deck = rng.create_deck();
    let initial_len = deck.len();
    let card = rng.draw_card(&mut deck).unwrap();
    assert!(card < 52);
    assert_eq!(deck.len(), initial_len - 1);
    assert!(!deck.contains(&card));
}

#[test]
fn test_game_rng_dice() {
    let mut rng = GameRng::new(SEED, 1, 0);
    for _ in 0..1000 {
        let roll = rng.roll_die();
        assert!(roll >= 1 && roll <= 6);
    }
}

#[test]
fn test_game_rng_roulette() {
    let mut rng = GameRng::new(SEED, 1, 0);
    for _ in 0..1000 {
        assert!(rng.spin_roulette() <= 36);
    }
}

#[test]
fn rng_stream_rehashes_after_32_bytes() {
    let mut rng = GameRng::new(SEED, 3, 4);
    let first: Vec<u8> = (0..32).map(|_| rng.next_u8()).collect();
    let second: Vec<u8> = (0..32).map(|_| rng.next_u8()).collect();
    assert_ne!(first, second);
    let mut again = GameRng::from_state([0u8; 32]);
    assert_eq!(again.next_u8(), 0);
}

#[test]
fn rng_from_state_reads_the_state_in_order() {
    let mut state = [0u8; 32];
    for (i, b) in state.iter_mut().enumerate() {
        *b = i as u8;
    }
    let mut rng = GameRng::from_state(state);
    assert_eq!(rng.next_u8(), 0);
    assert_eq!(rng.next_u8(), 1);
    assert_eq!(rng.next_u16(), 2 * 256 + 3);
}

#[test]
fn rng_new_hashes_seed_session_and_move() {
    let mut a = GameRng::new(SEED, 1, 0);
    let mut b = GameRng::new(SEED, 1, 1);
    let sa: Vec<u8> = (0..8).map(|_| a.next_u8()).collect();
    let sb: Vec<u8> = (0..8).map(|_| b.next_u8()).collect();
    assert_ne!(sa, sb);
    // The state is a digest, not the seed bytes themselves.
    let mut c = GameRng::new(&[0u8; 0], 0, 0);
    let sc: Vec<u8> = (0..12).map(|_| c.next_u8()).collect();
    assert_ne!(sc, vec![0u8; 12]);
}

#[test]
fn shuffle_keeps_every_element() {
    let mut rng = GameRng::new(SEED, 9, 9);
    let mut v: Vec<u32> = (0..20).collect();
    rng.shuffle(&mut v);
    let mut sorted = v.clone();
    sorted.sort();
    assert_eq!(sorted, (0..20).collect::<Vec<u32>>());
}

#[test]
fn shoe_excluding_removes_one_copy_per_card() {
    let mut rng = GameRng::new(SEED, 2, 2);
    let shoe = rng.create_shoe_excluding(&[0, 0, 51], 2);
    assert_eq!(shoe.len(), 101);
    assert_eq!(shoe.iter().filter(|&&c| c == 0).count(), 0);
    assert_eq!(shoe.iter().filter(|&&c| c == 51).count(), 1);
    let deck = rng.create_deck_excluding(&[5, 6]);
    assert_eq!(deck.len(), 50);
    assert!(!deck.contains(&5) && !deck.contains(&6));
}

#[test]
fn roll_dice_gives_count_faces() {
    let mut rng = GameRng::new(SEED, 4, 4);
    let dice = rng.roll_dice(5);
    assert_eq!(dice.len(), 5);
    assert!(dice.iter().all(|&d| (1..=6).contains(&d)));
}

#[test]
fn test_apply_modifiers_shield() {
    let mut player = Player::new("Test".to_string());
    player.shields = 2;
    player.active_shield = true;
    let (payout, was_shielded, was_doubled) = apply_modifiers(&mut player, -100);
    assert_eq!(payout, 0);
    assert!(was_shielded);
    assert!(!was_doubled);
    assert_eq!(player.shields, 1);
    assert!(!player.active_shield);
}

#[test]
fn test_apply_modifiers_double() {
    let mut player = Player::new("Test".to_string());
    player.doubles = 2;
    player.active_double = true;
    let (payout, was_shielded, was_doubled) = apply_modifiers(&mut player, 100);
    assert_eq!(payout, 200);
    assert!(!was_shielded);
    assert!(was_doubled);
    assert_eq!(player.doubles, 1);
    assert!(!player.active_double);
}

#[test]
fn test_apply_modifiers_no_effect_on_opposite() {
    let mut player = Player::new("Test".to_string());
    player.shields = 2;
    player.active_shield = true;
    let (payout, was_shielded, _) = apply_modifiers(&mut player, 100);
    assert_eq!(payout, 100);
    assert!(!was_shielded);
    assert_eq!(player.shields, 2);

    let mut player = Player::new("Test".to_string());
    player.doubles = 2;
    player.active_double = true;
    let (payout, _, was_doubled) = apply_modifiers(&mut player, -100);
    assert_eq!(payout, -100);
    assert!(!was_doubled);
    assert_eq!(player.doubles, 2);
}
