use nullspace_execution::casino::super_mode::{
    apply_casino_war_strike_multiplier, apply_hilo_streak_multiplier, apply_super_multiplier_cards,
    apply_super_multiplier_number, apply_super_multiplier_total, apply_video_poker_mega_multiplier,
    check_aura_element_presence, enhance_multipliers_for_aura_round, generate_casino_war_multipliers,
    generate_hilo_state, generate_sic_bo_multipliers, generate_three_card_multipliers,
    generate_uth_multipliers, generate_video_poker_multipliers, is_super_aura_round,
    reset_aura_meter, update_aura_meter,
};
use nullspace_execution::casino::{GameRng, SuperMultiplier, SuperType};

fn create_test_rng(session_id: u64) -> GameRng {
    GameRng::new(b"super-mode-test-seed", session_id, 0)
}

#[test]
fn test_generate_sic_bo_multipliers() {
    let mut rng = create_test_rng(5);
    let mults = generate_sic_bo_multipliers(&mut rng);
    assert_eq!(mults.len(), 3);
    for m in &mults {
        assert!(m.id >= 4 && m.id <= 17);
        assert!(m.multiplier >= 3 && m.multiplier <= 50);
        assert_eq!(m.super_type, SuperType::Total);
    }
}

#[test]
fn test_generate_video_poker_multipliers() {
    let mut rng = create_test_rng(6);
    let mults = generate_video_poker_multipliers(&mut rng);
    assert_eq!(mults.len(), 4);
    for m in &mults {
        assert!(m.id < 52);
        assert_eq!(m.multiplier, 1);
        assert_eq!(m.super_type, SuperType::Card);
    }
}

#[test]
fn test_generate_three_card_multipliers() {
    let mut rng = create_test_rng(7);
    let mults = generate_three_card_multipliers(&mut rng);
    assert_eq!(mults.len(), 2);
    for m in &mults {
        assert!(m.id < 4);
        assert_eq!(m.multiplier, 1);
        assert_eq!(m.super_type, SuperType::Suit);
    }
    assert_ne!(mults[0].id, mults[1].id);
}

#[test]
fn test_generate_uth_multipliers() {
    let mut rng = create_test_rng(8);
    let mults = generate_uth_multipliers(&mut rng);
    assert_eq!(mults.len(), 2);
    for m in &mults {
        assert!(m.id < 13);
        assert_eq!(m.multiplier, 1);
        assert_eq!(m.super_type, SuperType::Rank);
    }
    assert_ne!(mults[0].id, mults[1].id);
}

#[test]
fn test_generate_casino_war_multipliers() {
    let mut rng = create_test_rng(9);
    let mults = generate_casino_war_multipliers(&mut rng);
    assert_eq!(mults.len(), 3);
    for m in &mults {
        assert!(m.id < 13);
        assert_eq!(m.multiplier, 1);
        assert_eq!(m.super_type, SuperType::Rank);
    }
}

#[test]
fn test_generate_hilo_state() {
    let state0 = generate_hilo_state(0);
    assert_eq!(state0.streak_level, 0);
    assert_eq!(state0.multipliers[0].multiplier, 15);

    let state2 = generate_hilo_state(2);
    assert_eq!(state2.streak_level, 2);
    assert_eq!(state2.multipliers[0].multiplier, 25);

    let state5 = generate_hilo_state(5);
    assert_eq!(state5.streak_level, 5);
    assert_eq!(state5.multipliers[0].multiplier, 120);

    let state10 = generate_hilo_state(10);
    assert_eq!(state10.streak_level, 10);
    assert_eq!(state10.multipliers[0].multiplier, 2000);
}

#[test]
fn test_apply_super_multiplier_cards() {
    let multipliers = vec![
        SuperMultiplier { id: 0, multiplier: 5, super_type: SuperType::Card },
        SuperMultiplier { id: 10, multiplier: 2, super_type: SuperType::Rank },
    ];
    assert_eq!(apply_super_multiplier_cards(&[0], &multipliers, 100), 500);
    assert_eq!(apply_super_multiplier_cards(&[10], &multipliers, 100), 200);
    assert_eq!(apply_super_multiplier_cards(&[25], &multipliers, 100), 100);
}

#[test]
fn test_apply_super_multiplier_number() {
    let multipliers = vec![SuperMultiplier { id: 17, multiplier: 100, super_type: SuperType::Number }];
    assert_eq!(apply_super_multiplier_number(17, &multipliers, 35), 3500);
    assert_eq!(apply_super_multiplier_number(5, &multipliers, 35), 35);
}

#[test]
fn test_apply_super_multiplier_total() {
    let multipliers = vec![SuperMultiplier { id: 10, multiplier: 8, super_type: SuperType::Total }];
    assert_eq!(apply_super_multiplier_total(10, &multipliers, 60), 480);
    assert_eq!(apply_super_multiplier_total(7, &multipliers, 60), 60);
}

#[test]
fn test_update_aura_meter_near_miss() {
    assert_eq!(update_aura_meter(0, true, false), 1);
    assert_eq!(update_aura_meter(4, true, false), 5);
    assert_eq!(update_aura_meter(5, true, false), 5);
}

#[test]
fn test_update_aura_meter_win_resets() {
    assert_eq!(update_aura_meter(3, true, true), 0);
    assert_eq!(update_aura_meter(5, false, true), 0);
}

#[test]
fn test_update_aura_meter_no_aura_element() {
    assert_eq!(update_aura_meter(3, false, false), 3);
}

#[test]
fn test_is_super_aura_round() {
    assert!(!is_super_aura_round(0));
    assert!(!is_super_aura_round(4));
    assert!(is_super_aura_round(5));
    assert!(is_super_aura_round(6));
}

#[test]
fn aura_meter_reset_starts_over() {
    assert_eq!(reset_aura_meter(), 0);
    assert!(!is_super_aura_round(reset_aura_meter()));
}

#[test]
fn test_enhance_multipliers_for_aura_round() {
    let mut mults = vec![
        SuperMultiplier { id: 0, multiplier: 2, super_type: SuperType::Card },
        SuperMultiplier { id: 1, multiplier: 8, super_type: SuperType::Card },
    ];
    enhance_multipliers_for_aura_round(&mut mults);
    assert_eq!(mults[0].multiplier, 3);
    assert_eq!(mults[1].multiplier, 12);
}

#[test]
fn test_check_aura_element_presence_cards() {
    let multipliers = vec![SuperMultiplier { id: 5, multiplier: 1, super_type: SuperType::Card }];
    assert!(check_aura_element_presence(&[5], &[], &[], &multipliers));
    assert!(!check_aura_element_presence(&[10], &[], &[], &multipliers));
}

#[test]
fn test_check_aura_element_presence_numbers() {
    let multipliers = vec![SuperMultiplier { id: 17, multiplier: 100, super_type: SuperType::Number }];
    assert!(check_aura_element_presence(&[], &[17], &[], &multipliers));
    assert!(!check_aura_element_presence(&[], &[5], &[], &multipliers));
}

#[test]
fn test_apply_video_poker_mega_multiplier() {
    let multipliers = vec![
        SuperMultiplier { id: 0, multiplier: 1, super_type: SuperType::Card },
        SuperMultiplier { id: 1, multiplier: 1, super_type: SuperType::Card },
        SuperMultiplier { id: 2, multiplier: 1, super_type: SuperType::Card },
        SuperMultiplier { id: 3, multiplier: 1, super_type: SuperType::Card },
    ];
    assert_eq!(apply_video_poker_mega_multiplier(&[0, 10, 20, 30, 40], &multipliers, 100, false), 150);
    assert_eq!(apply_video_poker_mega_multiplier(&[0, 1, 20, 30, 40], &multipliers, 100, false), 300);
    assert_eq!(apply_video_poker_mega_multiplier(&[10, 20, 30, 40, 50], &multipliers, 100, false), 100);
}

#[test]
fn test_apply_hilo_streak_multiplier() {
    assert_eq!(apply_hilo_streak_multiplier(100, 1, false), 150);
    assert_eq!(apply_hilo_streak_multiplier(100, 3, false), 400);
    assert_eq!(apply_hilo_streak_multiplier(100, 5, false), 1200);
    assert_eq!(apply_hilo_streak_multiplier(100, 10, false), 20000);
    assert_eq!(apply_hilo_streak_multiplier(100, 3, true), 1200);
}

#[test]
fn test_apply_casino_war_strike_multiplier() {
    let multipliers = vec![SuperMultiplier { id: 5, multiplier: 1, super_type: SuperType::Rank }];
    assert_eq!(apply_casino_war_strike_multiplier(5, 10, &multipliers, 100, false, false), 200);
    assert_eq!(apply_casino_war_strike_multiplier(10, 11, &multipliers, 100, false, false), 100);
}

#[test]
fn test_video_poker_mega_three_four_and_royal() {
    let multipliers: Vec<SuperMultiplier> =
        (0..4).map(|i| SuperMultiplier { id: i, multiplier: 1, super_type: SuperType::Card }).collect();
    assert_eq!(apply_video_poker_mega_multiplier(&[0, 1, 2, 30, 40], &multipliers, 100, false), 1_000);
    assert_eq!(apply_video_poker_mega_multiplier(&[0, 1, 2, 3, 40], &multipliers, 100, false), 10_000);
    assert_eq!(apply_video_poker_mega_multiplier(&[0, 10, 20, 30, 40], &multipliers, 100, true), 100_000);
    assert_eq!(apply_video_poker_mega_multiplier(&[10, 20, 30, 40, 50], &multipliers, 100, true), 100);
}

#[test]
fn test_generators_distinct_and_deterministic() {
    for session in 0..50u64 {
        let draws: Vec<Vec<SuperMultiplier>> = vec![
            generate_sic_bo_multipliers(&mut create_test_rng(session)),
            generate_video_poker_multipliers(&mut create_test_rng(session)),
            generate_three_card_multipliers(&mut create_test_rng(session)),
            generate_uth_multipliers(&mut create_test_rng(session)),
            generate_casino_war_multipliers(&mut create_test_rng(session)),
        ];
        for mults in draws.iter() {
            for i in 0..mults.len() {
                for j in (i + 1)..mults.len() {
                    assert_ne!(mults[i].id, mults[j].id);
                }
            }
        }
        let mut a = create_test_rng(session);
        let mut b = create_test_rng(session);
        assert_eq!(generate_uth_multipliers(&mut a), generate_uth_multipliers(&mut b));
        assert_eq!(a.next_u8(), b.next_u8());
    }
}
