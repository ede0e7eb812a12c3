//! Staking chips for voting power, and the house's epochs.

use vstd::prelude::*;

verus! {

/// Shortest lock, in blocks.
pub const MIN_DURATION: u64 = 1;

/// Length of an epoch, in blocks.
pub const EPOCH_LENGTH: u64 = 100;

/// A player's stake.
#[derive(Clone, Copy, Debug, PartialEq, Eq, Structural)]
pub struct Staker {
    pub balance: u64,
    pub unlock_ts: u64,
    pub voting_power: u128,
}

/// The house's staking totals and epoch.
#[derive(Clone, Copy, Debug, PartialEq, Eq, Structural)]
pub struct HouseStaking {
    pub total_staked_amount: u64,
    pub total_voting_power: u128,
    pub current_epoch: u64,
    pub epoch_start_ts: u64,
    pub net_pnl: i128,
}

/// Why a staking instruction is refused.
#[derive(Clone, Copy, Debug, PartialEq, Eq, Structural)]
pub enum StakeError {
    InsufficientFunds,
    DurationTooShort,
    StillLocked,
}

/// Stakes `amount` chips for `duration` blocks from `current_block`: refused
/// when the player holds too few chips or the lock is too short. The stake
/// grows by the amount and locks until `current_block + duration`; its voting
/// power becomes the whole balance times the duration, while the house's
/// total grows by the amount times the duration. Gives the chips left, the
/// stake and the house.
pub fn stake(chips: u64, staker: &Staker, house: &HouseStaking, amount: u64, duration: u64, current_block: u64) -> (r: Result<
    (u64, Staker, HouseStaking),
    StakeError,
>)
    requires
        chips >= amount && duration >= MIN_DURATION ==> {
            &&& current_block + duration <= u64::MAX
            &&& staker.balance + amount <= u64::MAX
            &&& house.total_staked_amount + amount <= u64::MAX
            &&& house.total_voting_power + amount * duration <= u128::MAX
        },
    ensures
        chips < amount ==> r == Err::<(u64, Staker, HouseStaking), StakeError>(StakeError::InsufficientFunds),
        chips >= amount && duration < MIN_DURATION ==> r == Err::<(u64, Staker, HouseStaking), StakeError>(
            StakeError::DurationTooShort,
        ),
        chips >= amount && duration >= MIN_DURATION ==> r == Ok::<(u64, Staker, HouseStaking), StakeError>(
            (
                (chips - amount) as u64,
                Staker {
                    balance: (staker.balance + amount) as u64,
                    unlock_ts: (current_block + duration) as u64,
                    voting_power: ((staker.balance + amount) * duration) as u128,
                },
                HouseStaking {
                    total_staked_amount: (house.total_staked_amount + amount) as u64,
                    total_voting_power: (house.total_voting_power + amount * duration) as u128,
                    ..*house
                },
            ),
        ),
{
    if chips < amount {
        return Err(StakeError::InsufficientFunds);
    }
    if duration < MIN_DURATION {
        return Err(StakeError::DurationTooShort);
    }
    let new_unlock = current_block + duration;
    let balance = staker.balance + amount;
    assert((balance as u128) * (duration as u128) <= u128::MAX) by (nonlinear_arith)
        requires
            balance <= u64::MAX,
            duration <= u64::MAX,
    ;
    assert((amount as u128) * (duration as u128) <= u128::MAX) by (nonlinear_arith)
        requires
            amount <= u64::MAX,
            duration <= u64::MAX,
    ;
    let new_staker = Staker {
        balance,
        unlock_ts: new_unlock,
        voting_power: (balance as u128) * (duration as u128),
    };
    let new_house = HouseStaking {
        total_staked_amount: house.total_staked_amount + amount,
        total_voting_power: house.total_voting_power + (amount as u128) * (duration as u128),
        ..*house
    };
    Ok((chips - amount, new_staker, new_house))
}

/// Unstakes everything once the lock has passed: refused while locked;
/// nothing happens for an empty stake. The chips come back, the house's
/// totals drop (at least to zero) and the stake is cleared. Gives the
/// player's chips, the stake, the house and the amount returned.
pub fn unstake(chips: u64, staker: &Staker, house: &HouseStaking, current_block: u64) -> (r: Option<
    Result<(u64, Staker, HouseStaking, u64), StakeError>,
>)
    requires
        current_block >= staker.unlock_ts && staker.balance > 0 ==> chips + staker.balance <= u64::MAX,
    ensures
        current_block < staker.unlock_ts ==> r == Some(
            Err::<(u64, Staker, HouseStaking, u64), StakeError>(StakeError::StillLocked),
        ),
        current_block >= staker.unlock_ts && staker.balance == 0 ==> r is None,
        current_block >= staker.unlock_ts && staker.balance > 0 ==> r == Some(
            Ok::<(u64, Staker, HouseStaking, u64), StakeError>(
                (
                    (chips + staker.balance) as u64,
                    Staker { balance: 0, voting_power: 0, ..*staker },
                    HouseStaking {
                        total_staked_amount: (if house.total_staked_amount >= staker.balance {
                            house.total_staked_amount - staker.balance
                        } else {
                            0
                        }) as u64,
                        total_voting_power: (if house.total_voting_power >= staker.voting_power {
                            house.total_voting_power - staker.voting_power
                        } else {
                            0
                        }) as u128,
                        ..*house
                    },
                    staker.balance,
                ),
            ),
        ),
{
    if current_block < staker.unlock_ts {
        return Some(Err(StakeError::StillLocked));
    }
    if staker.balance == 0 {
        return None;
    }
    let amount = staker.balance;
    let new_house = HouseStaking {
        total_staked_amount: house.total_staked_amount.saturating_sub(amount),
        total_voting_power: house.total_voting_power.saturating_sub(staker.voting_power),
        ..*house
    };
    Some(Ok((chips + amount, Staker { balance: 0, voting_power: 0, ..*staker }, new_house, amount)))
}

/// Ends the epoch once `EPOCH_LENGTH` blocks have passed since it started:
/// the epoch number advances, the new epoch starts now and the profit and
/// loss resets. Gives the new house state, or nothing before the end.
pub fn process_epoch(house: &HouseStaking, current_block: u64) -> (r: Option<HouseStaking>)
    requires
        house.epoch_start_ts + EPOCH_LENGTH <= u64::MAX,
        current_block >= house.epoch_start_ts + EPOCH_LENGTH ==> house.current_epoch < u64::MAX,
    ensures
        current_block < house.epoch_start_ts + EPOCH_LENGTH ==> r is None,
        current_block >= house.epoch_start_ts + EPOCH_LENGTH ==> r == Some(
            HouseStaking {
                current_epoch: (house.current_epoch + 1) as u64,
                epoch_start_ts: current_block,
                net_pnl: 0,
                ..*house
            },
        ),
{
    if current_block >= house.epoch_start_ts + EPOCH_LENGTH {
        Some(HouseStaking { current_epoch: house.current_epoch + 1, epoch_start_ts: current_block, net_pnl: 0, ..*house })
    } else {
        None
    }
}

} // verus!
