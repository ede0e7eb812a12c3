use nullspace_execution::retry::{after_attempt, is_retryable_status, max_attempts_for, AttemptOutcome, RetryAction, RetryPolicy};
use nullspace_execution::staking::{process_epoch, stake, unstake, HouseStaking, StakeError, Staker};
use nullspace_execution::state::{validate_and_increment_nonce, PrepareError};

fn house() -> HouseStaking {
    HouseStaking { total_staked_amount: 0, total_voting_power: 0, current_epoch: 0, epoch_start_ts: 0, net_pnl: 42 }
}

#[test]
fn test_stake_and_unstake() {
    let staker = Staker { balance: 0, unlock_ts: 0, voting_power: 0 };
    let (chips, staker, h) = stake(1_000, &staker, &house(), 400, 10, 100).unwrap();
    assert_eq!(chips, 600);
    assert_eq!(staker, Staker { balance: 400, unlock_ts: 110, voting_power: 4_000 });
    assert_eq!(h.total_staked_amount, 400);
    assert_eq!(h.total_voting_power, 4_000);
    assert_eq!(stake(100, &staker, &h, 400, 10, 100).unwrap_err(), StakeError::InsufficientFunds);
    assert_eq!(stake(1_000, &staker, &h, 400, 0, 100).unwrap_err(), StakeError::DurationTooShort);

    assert_eq!(unstake(chips, &staker, &h, 109), Some(Err(StakeError::StillLocked)));
    let (chips, staker, h, amount) = unstake(chips, &staker, &h, 110).unwrap().unwrap();
    assert_eq!((chips, amount), (1_000, 400));
    assert_eq!(staker.balance, 0);
    assert_eq!(h.total_staked_amount, 0);
    assert_eq!(unstake(chips, &staker, &h, 200), None);
}

#[test]
fn test_epochs() {
    assert_eq!(process_epoch(&house(), 99), None);
    let h = process_epoch(&house(), 100).unwrap();
    assert_eq!(h.current_epoch, 1);
    assert_eq!(h.epoch_start_ts, 100);
    assert_eq!(h.net_pnl, 0);
}

#[test]
fn test_nonce_validation() {
    let mut nonce = 0u64;
    // Wrong nonce should fail.
    assert_eq!(
        validate_and_increment_nonce(&mut nonce, 1),
        Err(PrepareError::NonceMismatch { expected: 0, got: 1 })
    );
    assert_eq!(nonce, 0);
    // Correct nonce should succeed, once.
    assert_eq!(validate_and_increment_nonce(&mut nonce, 0), Ok(()));
    assert_eq!(nonce, 1);
    assert!(validate_and_increment_nonce(&mut nonce, 0).is_err());
}

#[test]
fn test_retry_policy() {
    let policy = RetryPolicy::default();
    assert_eq!(policy.max_attempts, 1);
    assert_eq!(max_attempts_for(&policy, true), 1);
    let policy = RetryPolicy { max_attempts: 3, initial_backoff: 200, max_backoff: 500, retry_non_idempotent: false };
    assert_eq!(max_attempts_for(&policy, true), 3);
    assert_eq!(max_attempts_for(&policy, false), 1);
    assert!(is_retryable_status(503));
    assert!(!is_retryable_status(404));
    let retry = AttemptOutcome::Response { retryable: true };
    assert_eq!(after_attempt(&policy, 3, 1, retry, 200), RetryAction::Wait { delay: 200, next_backoff: 400 });
    assert_eq!(after_attempt(&policy, 3, 2, retry, 400), RetryAction::Wait { delay: 400, next_backoff: 500 });
    assert_eq!(after_attempt(&policy, 3, 3, retry, 500), RetryAction::Finish);
    assert_eq!(after_attempt(&policy, 3, 1, AttemptOutcome::Failure { retryable: false }, 200), RetryAction::Finish);
    assert_eq!(after_attempt(&policy, 3, 1, retry, 0), RetryAction::Again);
}
