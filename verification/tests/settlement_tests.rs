use nullspace_execution::casino::{GameResult, GameSession, GameType, SuperModeState};
use nullspace_execution::settlement::{
    aura_for_completion, aura_for_push, charge_game_start, claim_faucet, settle_game_result,
    settle_start_result, Completion, PlayerAccount, Shortfall, StartError,
};

fn account(chips: u64) -> PlayerAccount {
    PlayerAccount {
        chips,
        shields: 0,
        doubles: 0,
        tournament_chips: 0,
        tournament_shields: 0,
        tournament_doubles: 0,
        active_shield: false,
        active_double: false,
        active_super: false,
        aura_meter: 0,
    }
}

fn session(bet: u64, is_tournament: bool) -> GameSession {
    GameSession {
        id: 7,
        player: vec![1u8; 32],
        game_type: GameType::Blackjack,
        bet,
        state_blob: vec![],
        move_count: 1,
        created_at: 0,
        is_complete: false,
        super_mode: SuperModeState::default(),
        is_tournament,
        tournament_id: None,
    }
}

#[test]
fn test_mid_game_deduction_and_credit() {
    let s = session(100, false);
    let settled = settle_game_result(&account(1_000), &s, GameResult::ContinueWithUpdate { payout: -300 }, 0).unwrap();
    assert_eq!(settled.account.chips, 700);
    assert_eq!(settled.house_pnl, 300);
    assert!(!settled.completed);
    assert!(settled.completion.is_none());

    let settled = settle_game_result(&account(1_000), &s, GameResult::ContinueWithUpdate { payout: 50 }, 0).unwrap();
    assert_eq!(settled.account.chips, 1_050);
    assert_eq!(settled.house_pnl, -50);

    let shortfall = settle_game_result(&account(100), &s, GameResult::ContinueWithUpdate { payout: -300 }, 0);
    assert_eq!(shortfall.unwrap_err(), Shortfall { have: 100, need: 300 });
}

#[test]
fn test_super_fee_only_in_super_mode() {
    let mut s = session(100, false);
    let settled = settle_game_result(&account(1_000), &s, GameResult::ContinueWithUpdate { payout: -300 }, 60).unwrap();
    assert_eq!(settled.account.chips, 700);
    s.super_mode.is_active = true;
    let settled = settle_game_result(&account(1_000), &s, GameResult::ContinueWithUpdate { payout: -300 }, 60).unwrap();
    assert_eq!(settled.account.chips, 640);
    assert_eq!(settled.house_pnl, 360);
}

#[test]
fn test_win_with_double() {
    let s = session(100, false);
    let mut a = account(0);
    a.doubles = 1;
    a.active_double = true;
    let settled = settle_game_result(&a, &s, GameResult::Win(250), 0).unwrap();
    assert!(settled.completed);
    assert_eq!(settled.account.chips, 500);
    assert_eq!(settled.account.doubles, 0);
    assert!(!settled.account.active_double);
    assert_eq!(settled.house_pnl, -500);
    assert_eq!(
        settled.completion,
        Some(Completion { payout: 500, final_chips: 500, was_shielded: false, was_doubled: true })
    );
}

#[test]
fn test_loss_with_shield_and_tournament_pools() {
    let s = session(100, true);
    let mut a = account(900);
    a.tournament_chips = 400;
    a.tournament_shields = 2;
    a.active_shield = true;
    let settled = settle_game_result(&a, &s, GameResult::Loss, 0).unwrap();
    assert_eq!(settled.account.tournament_shields, 1);
    assert_eq!(settled.account.chips, 900);
    assert_eq!(settled.house_pnl, 0);
    assert_eq!(
        settled.completion,
        Some(Completion { payout: 0, final_chips: 400, was_shielded: true, was_doubled: false })
    );
}

#[test]
fn test_pre_deducted_loss_refund_on_shield() {
    let s = session(100, false);
    let mut a = account(500);
    a.shields = 1;
    a.active_shield = true;
    let settled = settle_game_result(&a, &s, GameResult::LossPreDeducted(300), 0).unwrap();
    assert_eq!(settled.account.chips, 800);
    assert_eq!(settled.house_pnl, -300);
    assert_eq!(settled.completion.unwrap().payout, 0);

    let settled = settle_game_result(&account(500), &s, GameResult::LossPreDeducted(300), 0).unwrap();
    assert_eq!(settled.account.chips, 500);
    assert_eq!(settled.completion.unwrap().payout, -300);
}

#[test]
fn test_loss_with_extra_deduction() {
    let s = session(100, false);
    let settled = settle_game_result(&account(500), &s, GameResult::LossWithExtraDeduction(100), 0).unwrap();
    assert_eq!(settled.account.chips, 400);
    assert_eq!(settled.house_pnl, 100);
    assert_eq!(settled.completion.unwrap().payout, -200);
    let short = settle_game_result(&account(50), &s, GameResult::LossWithExtraDeduction(100), 0);
    assert_eq!(short.unwrap_err(), Shortfall { have: 50, need: 100 });
}

#[test]
fn test_push_returns_bet() {
    let s = session(100, false);
    let settled = settle_game_result(&account(0), &s, GameResult::Push, 0).unwrap();
    assert_eq!(settled.account.chips, 100);
    assert_eq!(settled.house_pnl, -100);
    assert_eq!(settled.completion.unwrap().payout, 100);
}

#[test]
fn test_start_charge_and_immediate_result() {
    let a = account(1_000);
    assert_eq!(charge_game_start(&a, GameType::Blackjack, 0, false, 0).unwrap_err(), StartError::InvalidBet);
    let (charged, pnl) = charge_game_start(&a, GameType::Roulette, 0, false, 0).unwrap();
    assert_eq!(charged.chips, 1_000);
    assert_eq!(pnl, 0);
    let (charged, pnl) = charge_game_start(&a, GameType::Blackjack, 200, false, 0).unwrap();
    assert_eq!(charged.chips, 800);
    assert_eq!(pnl, 200);
    assert_eq!(
        charge_game_start(&a, GameType::Blackjack, 2_000, false, 0).unwrap_err(),
        StartError::InsufficientFunds { have: 1_000, need: 2_000 }
    );
    let mut superuser = a;
    superuser.active_super = true;
    let (charged, _) = charge_game_start(&superuser, GameType::Blackjack, 200, false, 40).unwrap();
    assert_eq!(charged.chips, 760);

    let s = session(200, false);
    let settled = settle_start_result(&charged, &s, GameResult::Win(500)).unwrap();
    assert_eq!(settled.account.chips, 1_260);
    assert!(settle_start_result(&charged, &s, GameResult::ContinueWithUpdate { payout: -200 }).is_none());
}

#[test]
fn test_aura_meter() {
    assert_eq!(aura_for_completion(2, true, false), 3);
    assert_eq!(aura_for_completion(4, true, false), 5);
    assert_eq!(aura_for_completion(5, true, false), 0);
    assert_eq!(aura_for_completion(3, true, true), 0);
    assert_eq!(aura_for_completion(3, false, false), 3);
    assert_eq!(aura_for_push(5, true), 0);
    assert_eq!(aura_for_push(4, true), 4);
}

#[test]
fn test_faucet_once_per_day() {
    // 28_800 blocks of 3 seconds make a day.
    assert_eq!(claim_faucet(10, 0, 100, 1_000), Some((1_010, 100)));
    assert_eq!(claim_faucet(10, 100, 28_799, 1_000), None);
    assert_eq!(claim_faucet(10, 100, 28_800, 1_000), Some((1_010, 28_800)));
}
