use nullspace_execution::settlement::PlayerAccount;
use nullspace_execution::tournament::{
    check_tournament_entry, close_tournament_account, rank_by_chips, tournament_end_time, tournament_prize_pool,
};

#[test]
fn test_tournament_entry_daily_limit() {
    assert_eq!(check_tournament_entry(0, 0, 0), Some((1, 0)));
    assert_eq!(check_tournament_entry(4, 0, 100), Some((5, 300)));
    assert_eq!(check_tournament_entry(5, 0, 100), None);
    assert_eq!(check_tournament_entry(9, 86_399, 28_799), None);
}

#[test]
fn test_tournament_entry_new_day_resets_count() {
    // Block 28_800 is second 86_400: the first second of day one.
    assert_eq!(check_tournament_entry(5, 0, 28_800), Some((1, 86_400)));
    assert_eq!(check_tournament_entry(5, 86_400, 28_801), None);
}

#[test]
fn test_tournament_end_time_fixed_duration() {
    assert_eq!(tournament_end_time(1_000, 301_000, 300), 301_000);
    assert_eq!(tournament_end_time(1_000, 5_000, 300), 301_000);
    assert_eq!(tournament_end_time(1_000, 500, 300), 301_000);
    assert_eq!(tournament_end_time(u64::MAX - 1, 0, 300), u64::MAX);
    assert_eq!(tournament_end_time(7, 0, u64::MAX), u64::MAX);
}

#[test]
fn test_tournament_prize_pool_emission() {
    // 5% a year of a supply of 10^9, over 365 days and 240 tournaments a day.
    assert_eq!(tournament_prize_pool(1_000_000_000, 500, 240, 2_500, 0), (570, 570));
    assert_eq!(tournament_prize_pool(1_000_000_000, 500, 240, 2_500, 1_000), (570, 1_570));
}

#[test]
fn test_tournament_prize_pool_capped_by_reward_pool() {
    assert_eq!(tournament_prize_pool(1_000_000_000, 500, 240, 2_500, 249_999_800), (200, 250_000_000));
    assert_eq!(tournament_prize_pool(1_000_000_000, 500, 240, 2_500, 250_000_000), (0, 250_000_000));
    assert_eq!(tournament_prize_pool(1_000_000_000, 500, 240, 2_500, 260_000_000), (0, 250_000_000));
}

#[test]
fn test_rank_by_chips_descending_and_stable() {
    let ranked = rank_by_chips(&[(1, 100), (2, 300), (3, 100), (4, 200), (5, 300)]);
    assert_eq!(ranked, vec![(2, 300), (5, 300), (4, 200), (1, 100), (3, 100)]);
    assert_eq!(rank_by_chips(&[]), vec![]);
    assert_eq!(rank_by_chips(&[(9, 0)]), vec![(9, 0)]);
}

#[test]
fn test_close_tournament_account() {
    let account = PlayerAccount {
        chips: 1_000,
        shields: 2,
        doubles: 1,
        tournament_chips: 5_000,
        tournament_shields: 3,
        tournament_doubles: 3,
        active_shield: true,
        active_double: true,
        active_super: true,
        aura_meter: 4,
    };
    let closed = close_tournament_account(&account);
    assert_eq!(
        closed,
        PlayerAccount {
            tournament_chips: 0,
            tournament_shields: 0,
            tournament_doubles: 0,
            active_shield: false,
            active_double: false,
            active_super: false,
            ..account
        }
    );
}
