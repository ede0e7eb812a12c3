//! Settling game results against a player's account.
//!
//! The execution layer reads the player and the house from its state store,
//! asks these functions what a result does to them, and writes the answer
//! back. Cash and tournament play keep separate stacks and modifier pools; a
//! session draws on the pools of its own mode, and only cash play moves the
//! house's profit and loss.

use crate::casino::common::{sat_add, sat_mul, sat_sub, saturating_mul_u64, u64_as_i64, wrap_i64};
use crate::casino::session::{GameSession, GameType};
use crate::casino::super_mode::{is_super_aura_round, reset_aura_meter, update_aura_meter};
use crate::casino::GameResult;
use vstd::prelude::*;

verus! {

/// The balances and modifiers of a player that settling a game reads and
/// changes.
#[derive(Clone, Copy, Debug, PartialEq, Eq, Structural)]
pub struct PlayerAccount {
    pub chips: u64,
    pub shields: u32,
    pub doubles: u32,
    pub tournament_chips: u64,
    pub tournament_shields: u32,
    pub tournament_doubles: u32,
    pub active_shield: bool,
    pub active_double: bool,
    pub active_super: bool,
    pub aura_meter: u8,
}

/// What a finished session reports: the net payout, the stack after it, and
/// whether a shield or a double was used.
#[derive(Clone, Copy, Debug, PartialEq, Eq, Structural)]
pub struct Completion {
    pub payout: i64,
    pub final_chips: u64,
    pub was_shielded: bool,
    pub was_doubled: bool,
}

/// A settled result: the new account, the change to the house's profit and
/// loss, whether the session is now complete, and its completion report.
#[derive(Clone, Copy, Debug)]
pub struct Settled {
    pub account: PlayerAccount,
    pub house_pnl: i128,
    pub completed: bool,
    pub completion: Option<Completion>,
}

/// A deduction the stack cannot cover: what it holds and what was needed.
#[derive(Clone, Copy, Debug, PartialEq, Eq, Structural)]
pub struct Shortfall {
    pub have: u64,
    pub need: u64,
}

/// The stack of a mode.
pub open spec fn stack_of(a: PlayerAccount, tournament: bool) -> u64 {
    if tournament {
        a.tournament_chips
    } else {
        a.chips
    }
}

/// The shield pool of a mode.
pub open spec fn shields_of(a: PlayerAccount, tournament: bool) -> u32 {
    if tournament {
        a.tournament_shields
    } else {
        a.shields
    }
}

/// The double pool of a mode.
pub open spec fn doubles_of(a: PlayerAccount, tournament: bool) -> u32 {
    if tournament {
        a.tournament_doubles
    } else {
        a.doubles
    }
}

/// An account with the stack of a mode replaced.
pub open spec fn with_stack(a: PlayerAccount, tournament: bool, v: int) -> PlayerAccount {
    if tournament {
        PlayerAccount { tournament_chips: v as u64, ..a }
    } else {
        PlayerAccount { chips: v as u64, ..a }
    }
}

/// An account with the shield pool of a mode replaced.
pub open spec fn with_shields(a: PlayerAccount, tournament: bool, v: int) -> PlayerAccount {
    if tournament {
        PlayerAccount { tournament_shields: v as u32, ..a }
    } else {
        PlayerAccount { shields: v as u32, ..a }
    }
}

/// An account with the double pool of a mode replaced.
pub open spec fn with_doubles(a: PlayerAccount, tournament: bool, v: int) -> PlayerAccount {
    if tournament {
        PlayerAccount { tournament_doubles: v as u32, ..a }
    } else {
        PlayerAccount { doubles: v as u32, ..a }
    }
}

/// The aura meter after a finished super-mode session: a used Super Aura
/// Round resets it, a win resets it, a loss adds one (up to the maximum).
pub open spec fn aura_after(meter: u8, super_active: bool, won: bool) -> u8 {
    if !super_active {
        meter
    } else if meter >= 5 {
        0
    } else if won {
        0
    } else if meter + 1 < 5 {
        (meter + 1) as u8
    } else {
        5
    }
}

/// The aura meter after a push: only a used Super Aura Round resets it.
pub open spec fn aura_after_push(meter: u8, super_active: bool) -> u8 {
    if super_active && meter >= 5 {
        0
    } else {
        meter
    }
}

/// An account with the session's modifiers switched off and its aura meter
/// moved on.
pub open spec fn closed(a: PlayerAccount, aura: u8) -> PlayerAccount {
    PlayerAccount { active_shield: false, active_double: false, active_super: false, aura_meter: aura, ..a }
}

/// The house's share of a cash-play amount (nothing in a tournament).
pub open spec fn cash_pnl(tournament: bool, amount: int) -> int {
    if tournament {
        0
    } else {
        amount
    }
}

/// The super-mode fee added to a deduction.
pub open spec fn fee_of(super_active: bool, fee: u64) -> int {
    if super_active {
        fee as int
    } else {
        0
    }
}

/// A completed win of `base`: doubled (an active double with one left in the
/// pool is used), credited, modifiers off; the house pays it in cash play.
pub open spec fn win_settled(a: PlayerAccount, t: bool, super_active: bool, base: u64) -> (PlayerAccount, int, Completion) {
    let doubled = a.active_double && doubles_of(a, t) > 0;
    let payout = if doubled {
        2 * wrap_i64(base)
    } else {
        wrap_i64(base)
    };
    let a1 = if doubled {
        with_doubles(a, t, doubles_of(a, t) - 1)
    } else {
        a
    };
    let credit = if payout >= 0 {
        payout
    } else {
        0
    };
    let stack = sat_add(stack_of(a1, t) as int, credit);
    let a2 = closed(with_stack(a1, t, stack), aura_after(a.aura_meter, super_active, true));
    (
        a2,
        cash_pnl(t, -payout),
        Completion {
            payout: payout as i64,
            final_chips: stack as u64,
            was_shielded: false,
            was_doubled: a.active_double,
        },
    )
}

/// A completed loss reported as `reported` (negated): an active shield with
/// one left in the pool is used instead and the loss reported as zero. With
/// `refund`, the shield also gives `amount` back to the stack, at the house's
/// expense in cash play.
pub open spec fn loss_settled(
    a: PlayerAccount,
    t: bool,
    super_active: bool,
    reported: int,
    amount: u64,
    refund: bool,
) -> (PlayerAccount, int, Completion) {
    let shielded = a.active_shield && shields_of(a, t) > 0;
    let a1 = if shielded {
        with_shields(a, t, sat_sub(shields_of(a, t) as int, 1))
    } else {
        a
    };
    let stack = if shielded && refund {
        sat_add(stack_of(a1, t) as int, amount as int)
    } else {
        stack_of(a1, t) as int
    };
    let a2 = closed(with_stack(a1, t, stack), aura_after(a.aura_meter, super_active, false));
    (
        a2,
        if shielded && refund {
            cash_pnl(t, -(amount as int))
        } else {
            0
        },
        Completion {
            payout: if shielded {
                0
            } else {
                (-reported) as i64
            },
            final_chips: stack as u64,
            was_shielded: shielded,
            was_doubled: false,
        },
    )
}

/// Taking an extra wager (and the super fee on it) from the stack: refused
/// when the stack is short; a zero wager takes nothing.
pub open spec fn extra_taken(a: PlayerAccount, t: bool, super_active: bool, extra: u64, fee: u64) -> Result<(PlayerAccount, int), Shortfall> {
    if extra == 0 {
        Ok((a, 0))
    } else {
        let total = sat_add(extra as int, fee_of(super_active, fee));
        if (stack_of(a, t) as int) < total {
            Err(Shortfall { have: stack_of(a, t), need: total as u64 })
        } else {
            Ok((with_stack(a, t, stack_of(a, t) - total), cash_pnl(t, total)))
        }
    }
}

/// What a game result does to the player's account, the house and the
/// session. `fee` is the super-mode fee on the result's extra wager, charged
/// only when super mode is active.
pub open spec fn settle_spec(
    a: PlayerAccount,
    bet: u64,
    t: bool,
    super_active: bool,
    result: GameResult,
    fee: u64,
) -> Result<Settled, Shortfall> {
    match result {
        GameResult::Continue => Ok(Settled { account: a, house_pnl: 0, completed: false, completion: None }),
        GameResult::ContinueWithUpdate { payout } => if payout < 0 {
            let deduction: int = if payout == i64::MIN {
                0
            } else {
                -payout
            };
            let total = sat_add(deduction, fee_of(super_active, fee));
            if deduction == 0 || (stack_of(a, t) as int) < total {
                Err(Shortfall { have: stack_of(a, t), need: total as u64 })
            } else {
                Ok(
                    Settled {
                        account: with_stack(a, t, stack_of(a, t) - total),
                        house_pnl: cash_pnl(t, total) as i128,
                        completed: false,
                        completion: None,
                    },
                )
            }
        } else {
            Ok(
                Settled {
                    account: with_stack(a, t, sat_add(stack_of(a, t) as int, payout as int)),
                    house_pnl: cash_pnl(t, -payout) as i128,
                    completed: false,
                    completion: None,
                },
            )
        },
        GameResult::Win(base) => {
            let w = win_settled(a, t, super_active, base);
            Ok(Settled { account: w.0, house_pnl: w.1 as i128, completed: true, completion: Some(w.2) })
        },
        GameResult::WinWithExtraDeduction { payout, extra_deduction } => match extra_taken(
            a,
            t,
            super_active,
            extra_deduction,
            fee,
        ) {
            Err(s) => Err(s),
            Ok(x) => {
                let w = win_settled(x.0, t, super_active, payout);
                Ok(
                    Settled {
                        account: w.0,
                        house_pnl: (x.1 + w.1) as i128,
                        completed: true,
                        completion: Some(w.2),
                    },
                )
            },
        },
        GameResult::Push => {
            let stack = sat_add(stack_of(a, t) as int, bet as int);
            Ok(
                Settled {
                    account: closed(with_stack(a, t, stack), aura_after_push(a.aura_meter, super_active)),
                    house_pnl: cash_pnl(t, -(bet as int)) as i128,
                    completed: true,
                    completion: Some(
                        Completion {
                            payout: wrap_i64(bet) as i64,
                            final_chips: stack as u64,
                            was_shielded: false,
                            was_doubled: false,
                        },
                    ),
                },
            )
        },
        GameResult::Loss => {
            let l = loss_settled(a, t, super_active, wrap_i64(bet), bet, false);
            Ok(Settled { account: l.0, house_pnl: 0, completed: true, completion: Some(l.2) })
        },
        GameResult::LossWithExtraDeduction(extra) => {
            let l = loss_settled(a, t, super_active, wrap_i64(bet), bet, false);
            let shielded = l.2.was_shielded;
            let a1 = if shielded {
                with_shields(a, t, sat_sub(shields_of(a, t) as int, 1))
            } else {
                a
            };
            match extra_taken(a1, t, super_active, extra, fee) {
                Err(s) => Err(s),
                Ok(x) => Ok(
                    Settled {
                        account: closed(x.0, aura_after(a.aura_meter, super_active, false)),
                        house_pnl: x.1 as i128,
                        completed: true,
                        completion: Some(
                            Completion {
                                payout: (l.2.payout - wrap_i64(extra)) as i64,
                                final_chips: stack_of(x.0, t),
                                was_shielded: shielded,
                                was_doubled: false,
                            },
                        ),
                    },
                ),
            }
        },
        GameResult::LossPreDeducted(total_loss) => {
            let l = loss_settled(a, t, super_active, wrap_i64(total_loss), total_loss, true);
            Ok(Settled { account: l.0, house_pnl: l.1 as i128, completed: true, completion: Some(l.2) })
        },
        GameResult::LossPreDeductedWithExtraDeduction { total_loss, extra_deduction } => match extra_taken(
            a,
            t,
            super_active,
            extra_deduction,
            fee,
        ) {
            Err(s) => Err(s),
            Ok(x) => {
                let l = loss_settled(x.0, t, super_active, wrap_i64(total_loss), total_loss, true);
                Ok(Settled { account: l.0, house_pnl: (x.1 + l.1) as i128, completed: true, completion: Some(l.2) })
            },
        },
    }
}

/// The results on which settling is defined: no doubled win, reported loss or
/// reported loss with an extra wager that overflows an `i64`.
pub open spec fn settle_defined(a: PlayerAccount, bet: u64, t: bool, super_active: bool, result: GameResult, fee: u64) -> bool {
    let shielded = a.active_shield && shields_of(a, t) > 0;
    let doubled = a.active_double && doubles_of(a, t) > 0;
    match result {
        GameResult::Win(base) => doubled ==> i64::MIN <= 2 * wrap_i64(base) <= i64::MAX,
        GameResult::WinWithExtraDeduction { payout, extra_deduction } => doubled ==> i64::MIN <= 2
            * wrap_i64(payout) <= i64::MAX,
        GameResult::Loss => !shielded ==> bet != 0x8000_0000_0000_0000,
        GameResult::LossWithExtraDeduction(extra) => {
            let reported = if shielded {
                0
            } else {
                -wrap_i64(bet)
            };
            &&& !shielded ==> bet != 0x8000_0000_0000_0000
            &&& extra_taken(a, t, super_active, extra, fee) is Ok ==> i64::MIN <= reported - wrap_i64(extra)
                <= i64::MAX
        },
        GameResult::LossPreDeducted(total_loss) => !shielded ==> total_loss != 0x8000_0000_0000_0000,
        GameResult::LossPreDeductedWithExtraDeduction { total_loss, extra_deduction } => (extra_taken(
            a,
            t,
            super_active,
            extra_deduction,
            fee,
        ) is Ok && !shielded) ==> total_loss != 0x8000_0000_0000_0000,
        _ => true,
    }
}

/// The stack of a mode.
fn stack(a: &PlayerAccount, t: bool) -> (v: u64)
    ensures
        v == stack_of(*a, t),
{
    if t {
        a.tournament_chips
    } else {
        a.chips
    }
}

/// Replaces the stack of a mode.
fn set_stack(a: &mut PlayerAccount, t: bool, v: u64)
    ensures
        *final(a) == with_stack(*old(a), t, v as int),
{
    if t {
        a.tournament_chips = v;
    } else {
        a.chips = v;
    }
}

/// The aura meter after a finished super-mode session.
pub fn aura_for_completion(meter: u8, super_active: bool, won: bool) -> (m: u8)
    ensures
        m == aura_after(meter, super_active, won),
{
    if !super_active {
        return meter;
    }
    if is_super_aura_round(meter) {
        return reset_aura_meter();
    }
    update_aura_meter(meter, true, won)
}

/// The aura meter after a push.
pub fn aura_for_push(meter: u8, super_active: bool) -> (m: u8)
    ensures
        m == aura_after_push(meter, super_active),
{
    if !super_active {
        return meter;
    }
    if is_super_aura_round(meter) {
        reset_aura_meter()
    } else {
        meter
    }
}

/// Switches the modifiers off and sets the aura meter.
fn close(a: &mut PlayerAccount, aura: u8)
    ensures
        *final(a) == closed(*old(a), aura),
{
    a.active_shield = false;
    a.active_double = false;
    a.active_super = false;
    a.aura_meter = aura;
}

/// The house's share of a cash-play amount.
fn cash_share(t: bool, amount: i128) -> (r: i128)
    ensures
        r == cash_pnl(t, amount as int),
{
    if t {
        0
    } else {
        amount
    }
}

/// Settles a completed win.
fn settle_win(a: PlayerAccount, t: bool, super_active: bool, base: u64) -> (r: (PlayerAccount, i128, Completion))
    requires
        a.active_double && doubles_of(a, t) > 0 ==> i64::MIN <= 2 * wrap_i64(base) <= i64::MAX,
    ensures
        (r.0, r.1 as int, r.2) == win_settled(a, t, super_active, base),
{
    let mut acct = a;
    let mut payout = u64_as_i64(base);
    let was_doubled = acct.active_double;
    if t {
        if was_doubled && acct.tournament_doubles > 0 {
            payout = payout * 2;
            acct.tournament_doubles = acct.tournament_doubles - 1;
        }
    } else {
        if was_doubled && acct.doubles > 0 {
            payout = payout * 2;
            acct.doubles = acct.doubles - 1;
        }
    }
    let addition: u64 = if payout >= 0 {
        payout as u64
    } else {
        0
    };
    let final_chips = stack(&acct, t).saturating_add(addition);
    set_stack(&mut acct, t, final_chips);
    let aura = aura_for_completion(a.aura_meter, super_active, true);
    close(&mut acct, aura);
    let pnl = cash_share(t, -(payout as i128));
    (acct, pnl, Completion { payout, final_chips, was_shielded: false, was_doubled })
}

/// Settles a completed loss reported as `reported`; with `refund`, a shield
/// gives `amount` back.
fn settle_loss(a: PlayerAccount, t: bool, super_active: bool, reported: i64, amount: u64, refund: bool) -> (r: (
    PlayerAccount,
    i128,
    Completion,
))
    requires
        !(a.active_shield && shields_of(a, t) > 0) ==> reported != i64::MIN,
    ensures
        (r.0, r.1 as int, r.2) == loss_settled(a, t, super_active, reported as int, amount, refund),
{
    let mut acct = a;
    let pool = if t {
        acct.tournament_shields
    } else {
        acct.shields
    };
    let was_shielded = acct.active_shield && pool > 0;
    let mut pnl: i128 = 0;
    let payout: i64 = if was_shielded {
        if t {
            acct.tournament_shields = acct.tournament_shields.saturating_sub(1);
        } else {
            acct.shields = acct.shields.saturating_sub(1);
        }
        if refund {
            let refunded = stack(&acct, t).saturating_add(amount);
            set_stack(&mut acct, t, refunded);
            pnl = cash_share(t, -(amount as i128));
        }
        0
    } else {
        -reported
    };
    let final_chips = stack(&acct, t);
    let aura = aura_for_completion(a.aura_meter, super_active, false);
    close(&mut acct, aura);
    proof {
        assert(with_stack(acct, t, final_chips as int) == acct) by {
            assert(stack_of(acct, t) == final_chips);
        }
    }
    (acct, pnl, Completion { payout, final_chips, was_shielded, was_doubled: false })
}

/// Takes an extra wager and its super fee from the stack.
fn take_extra(a: PlayerAccount, t: bool, super_active: bool, extra: u64, fee: u64) -> (r: Result<(PlayerAccount, i128), Shortfall>)
    ensures
        match extra_taken(a, t, super_active, extra, fee) {
            Ok(x) => r matches Ok(y) && y.0 == x.0 && y.1 == x.1,
            Err(e) => r == Err::<(PlayerAccount, i128), Shortfall>(e),
        },
{
    if extra == 0 {
        return Ok((a, 0));
    }
    let super_fee = if super_active {
        fee
    } else {
        0
    };
    let total = extra.saturating_add(super_fee);
    let have = stack(&a, t);
    if have < total {
        return Err(Shortfall { have, need: total });
    }
    let mut acct = a;
    set_stack(&mut acct, t, have - total);
    Ok((acct, cash_share(t, total as i128)))
}

/// Settles a game result against the player's account. `super_fee` is the
/// super-mode fee on the result's extra wager, charged only when the
/// session's super mode is active. A shortfall leaves the account as it was.
pub fn settle_game_result(account: &PlayerAccount, session: &GameSession, result: GameResult, super_fee: u64) -> (r: Result<
    Settled,
    Shortfall,
>)
    requires
        settle_defined(
            *account,
            session.bet,
            session.is_tournament,
            session.super_mode.is_active,
            result,
            super_fee,
        ),
    ensures
        r == settle_spec(
            *account,
            session.bet,
            session.is_tournament,
            session.super_mode.is_active,
            result,
            super_fee,
        ),
{
    let t = session.is_tournament;
    let sup = session.super_mode.is_active;
    let a = *account;
    match result {
        GameResult::Continue => Ok(Settled { account: a, house_pnl: 0, completed: false, completion: None }),
        GameResult::ContinueWithUpdate { payout } => {
            if payout < 0 {
                let deduction: u64 = if payout == i64::MIN {
                    0
                } else {
                    (-payout) as u64
                };
                let fee = if sup {
                    super_fee
                } else {
                    0
                };
                let total = deduction.saturating_add(fee);
                let have = stack(&a, t);
                if deduction == 0 || have < total {
                    return Err(Shortfall { have, need: total });
                }
                let mut acct = a;
                set_stack(&mut acct, t, have - total);
                Ok(Settled { account: acct, house_pnl: cash_share(t, total as i128), completed: false, completion: None })
            } else {
                let addition = payout as u64;
                let mut acct = a;
                let v = stack(&a, t).saturating_add(addition);
                set_stack(&mut acct, t, v);
                Ok(
                    Settled {
                        account: acct,
                        house_pnl: cash_share(t, -(addition as i128)),
                        completed: false,
                        completion: None,
                    },
                )
            }
        },
        GameResult::Win(base) => {
            let (acct, pnl, c) = settle_win(a, t, sup, base);
            Ok(Settled { account: acct, house_pnl: pnl, completed: true, completion: Some(c) })
        },
        GameResult::WinWithExtraDeduction { payout, extra_deduction } => {
            let (a1, pnl1) = match take_extra(a, t, sup, extra_deduction, super_fee) {
                Ok(x) => x,
                Err(e) => return Err(e),
            };
            let (acct, pnl2, c) = settle_win(a1, t, sup, payout);
            Ok(Settled { account: acct, house_pnl: pnl1 + pnl2, completed: true, completion: Some(c) })
        },
        GameResult::Push => {
            let mut acct = a;
            let v = stack(&a, t).saturating_add(session.bet);
            set_stack(&mut acct, t, v);
            let aura = aura_for_push(a.aura_meter, sup);
            close(&mut acct, aura);
            Ok(
                Settled {
                    account: acct,
                    house_pnl: cash_share(t, -(session.bet as i128)),
                    completed: true,
                    completion: Some(
                        Completion {
                            payout: u64_as_i64(session.bet),
                            final_chips: v,
                            was_shielded: false,
                            was_doubled: false,
                        },
                    ),
                },
            )
        },
        GameResult::Loss => {
            let (acct, _pnl, c) = settle_loss(a, t, sup, u64_as_i64(session.bet), session.bet, false);
            Ok(Settled { account: acct, house_pnl: 0, completed: true, completion: Some(c) })
        },
        GameResult::LossWithExtraDeduction(extra) => {
            let mut a1 = a;
            let pool = if t {
                a1.tournament_shields
            } else {
                a1.shields
            };
            let was_shielded = a1.active_shield && pool > 0;
            let payout: i64 = if was_shielded {
                if t {
                    a1.tournament_shields = a1.tournament_shields.saturating_sub(1);
                } else {
                    a1.shields = a1.shields.saturating_sub(1);
                }
                0
            } else {
                -u64_as_i64(session.bet)
            };
            let (mut a2, pnl) = match take_extra(a1, t, sup, extra, super_fee) {
                Ok(x) => x,
                Err(e) => return Err(e),
            };
            let final_chips = stack(&a2, t);
            let aura = aura_for_completion(a.aura_meter, sup, false);
            close(&mut a2, aura);
            let reported = payout - u64_as_i64(extra);
            Ok(
                Settled {
                    account: a2,
                    house_pnl: pnl,
                    completed: true,
                    completion: Some(Completion { payout: reported, final_chips, was_shielded, was_doubled: false }),
                },
            )
        },
        GameResult::LossPreDeducted(total_loss) => {
            let (acct, pnl, c) = settle_loss(a, t, sup, u64_as_i64(total_loss), total_loss, true);
            Ok(Settled { account: acct, house_pnl: pnl, completed: true, completion: Some(c) })
        },
        GameResult::LossPreDeductedWithExtraDeduction { total_loss, extra_deduction } => {
            let (a1, pnl1) = match take_extra(a, t, sup, extra_deduction, super_fee) {
                Ok(x) => x,
                Err(e) => return Err(e),
            };
            let (acct, pnl2, c) = settle_loss(a1, t, sup, u64_as_i64(total_loss), total_loss, true);
            Ok(Settled { account: acct, house_pnl: pnl1 + pnl2, completed: true, completion: Some(c) })
        },
    }
}

/// Whether every amount a result carries is at most 2^61 in size.
pub open spec fn amounts_small(result: GameResult) -> bool {
    let m: int = 0x2000_0000_0000_0000;
    match result {
        GameResult::ContinueWithUpdate { payout } => -m <= payout <= m,
        GameResult::Win(base) => base <= m,
        GameResult::WinWithExtraDeduction { payout, extra_deduction } => payout <= m && extra_deduction <= m,
        GameResult::LossWithExtraDeduction(extra) => extra <= m,
        GameResult::LossPreDeducted(total_loss) => total_loss <= m,
        GameResult::LossPreDeductedWithExtraDeduction { total_loss, extra_deduction } => total_loss <= m
            && extra_deduction <= m,
        _ => true,
    }
}

/// In cash play what the player's stack gains the house loses, and the
/// reverse, whenever no amount is large enough to saturate the stack.
pub proof fn lemma_cash_settlement_conserves_chips(
    a: PlayerAccount,
    bet: u64,
    super_active: bool,
    result: GameResult,
    fee: u64,
)
    requires
        a.chips <= 0x4000_0000_0000_0000,
        bet <= 0x2000_0000_0000_0000,
        fee <= 0x2000_0000_0000_0000,
        amounts_small(result),
    ensures
        settle_spec(a, bet, false, super_active, result, fee) matches Ok(s) ==> s.account.chips - a.chips
            == -s.house_pnl,
{
}

/// A session draws only on the stack and pools of its own mode, and only cash
/// play moves the house's profit and loss.
pub proof fn lemma_settlement_keeps_other_mode(
    a: PlayerAccount,
    bet: u64,
    t: bool,
    super_active: bool,
    result: GameResult,
    fee: u64,
)
    ensures
        settle_spec(a, bet, t, super_active, result, fee) matches Ok(s) ==> {
            &&& t ==> s.account.chips == a.chips && s.account.shields == a.shields && s.account.doubles
                == a.doubles && s.house_pnl == 0
            &&& !t ==> s.account.tournament_chips == a.tournament_chips && s.account.tournament_shields
                == a.tournament_shields && s.account.tournament_doubles == a.tournament_doubles
        },
{
}

/// Every result that completes the session switches the modifiers off.
pub proof fn lemma_completion_clears_modifiers(
    a: PlayerAccount,
    bet: u64,
    t: bool,
    super_active: bool,
    result: GameResult,
    fee: u64,
)
    ensures
        settle_spec(a, bet, t, super_active, result, fee) matches Ok(s) ==> (s.completed <==> s.completion
            is Some) && (s.completed ==> !s.account.active_shield && !s.account.active_double
            && !s.account.active_super),
{
}

/// Why starting a game is refused.
#[derive(Clone, Copy, Debug, PartialEq, Eq, Structural)]
pub enum StartError {
    /// No such player.
    PlayerNotFound,
    /// A session with this id already exists.
    SessionExists,
    /// A zero bet in a game that takes its wagers at the start.
    InvalidBet,
    /// The stack cannot cover the bet and the super-mode fee.
    InsufficientFunds { have: u64, need: u64 },
}

/// Table games that take every wager through their moves and may start with
/// a zero bet.
pub open spec fn allows_zero_bet(g: GameType) -> bool {
    g == GameType::Baccarat || g == GameType::Craps || g == GameType::Roulette || g == GameType::SicBo
}

/// What starting a game charges: the bet plus, when the player asked for
/// super mode and the bet is not zero, the super-mode fee `fee` on it; the new
/// account and the house's income.
pub open spec fn start_charge(a: PlayerAccount, game: GameType, bet: u64, t: bool, fee: u64) -> Result<(PlayerAccount, int), StartError> {
    if bet == 0 && !allows_zero_bet(game) {
        Err(StartError::InvalidBet)
    } else {
        let super_fee = if a.active_super && bet > 0 {
            fee as int
        } else {
            0
        };
        let required = sat_add(bet as int, super_fee);
        if (stack_of(a, t) as int) < required {
            Err(StartError::InsufficientFunds { have: stack_of(a, t), need: required as u64 })
        } else {
            Ok((with_stack(a, t, stack_of(a, t) - required), cash_pnl(t, required)))
        }
    }
}

/// Charges the player for starting a game. `super_fee` is the super-mode fee
/// on the bet.
pub fn charge_game_start(account: &PlayerAccount, game_type: GameType, bet: u64, is_tournament: bool, super_fee: u64) -> (r: Result<
    (PlayerAccount, i128),
    StartError,
>)
    ensures
        match start_charge(*account, game_type, bet, is_tournament, super_fee) {
            Ok(x) => r matches Ok(y) && y.0 == x.0 && y.1 == x.1,
            Err(e) => r == Err::<(PlayerAccount, i128), StartError>(e),
        },
{
    let allows_zero_bet = game_type == GameType::Baccarat || game_type == GameType::Craps || game_type
        == GameType::Roulette || game_type == GameType::SicBo;
    if bet == 0 && !allows_zero_bet {
        return Err(StartError::InvalidBet);
    }
    let fee = if account.active_super && bet > 0 {
        super_fee
    } else {
        0
    };
    let required = bet.saturating_add(fee);
    let available = stack(account, is_tournament);
    if available < required {
        return Err(StartError::InsufficientFunds { have: available, need: required });
    }
    let mut acct = *account;
    set_stack(&mut acct, is_tournament, available - required);
    Ok((acct, cash_share(is_tournament, required as i128)))
}

/// Settles the result a game gives as soon as it starts: only a win, a push
/// or a loss changes anything.
pub open spec fn start_result_spec(a: PlayerAccount, bet: u64, t: bool, super_active: bool, result: GameResult) -> Option<Settled> {
    match result {
        GameResult::Win(_) | GameResult::Push | GameResult::Loss => match settle_spec(
            a,
            bet,
            t,
            super_active,
            result,
            0,
        ) {
            Ok(s) => Some(s),
            Err(_) => None,
        },
        _ => None,
    }
}

/// Settles the result of starting a game, if it ends the game at once.
pub fn settle_start_result(account: &PlayerAccount, session: &GameSession, result: GameResult) -> (r: Option<Settled>)
    requires
        settle_defined(*account, session.bet, session.is_tournament, session.super_mode.is_active, result, 0),
    ensures
        r == start_result_spec(*account, session.bet, session.is_tournament, session.super_mode.is_active, result),
{
    match result {
        GameResult::Win(_) | GameResult::Push | GameResult::Loss => match settle_game_result(
            account,
            session,
            result,
            0,
        ) {
            Ok(s) => Some(s),
            Err(_) => None,
        },
        _ => None,
    }
}

/// Seconds per block of the faucet's clock.
pub const SECONDS_PER_BLOCK: u64 = 3;

/// Seconds per day.
pub const SECONDS_PER_DAY: u64 = 86_400;

/// The faucet day of a block.
pub open spec fn faucet_day(block: u64) -> int {
    sat_mul(block as int, SECONDS_PER_BLOCK as int) / SECONDS_PER_DAY as int
}

/// The daily faucet: refused when the player already claimed during the
/// current day; otherwise the stack grows by `amount` (saturating) and the
/// claim block is recorded. Returns the new chips and claim block.
pub open spec fn faucet_claim(chips: u64, last_deposit_block: u64, current_block: u64, amount: u64) -> Option<(u64, u64)> {
    if last_deposit_block != 0 && faucet_day(last_deposit_block) == faucet_day(current_block) {
        None
    } else {
        Some((sat_add(chips as int, amount as int) as u64, current_block))
    }
}

/// Claims the daily faucet.
pub fn claim_faucet(chips: u64, last_deposit_block: u64, current_block: u64, amount: u64) -> (r: Option<(u64, u64)>)
    ensures
        r == faucet_claim(chips, last_deposit_block, current_block, amount),
{
    let current_day = saturating_mul_u64(current_block, SECONDS_PER_BLOCK) / SECONDS_PER_DAY;
    let last_deposit_day = saturating_mul_u64(last_deposit_block, SECONDS_PER_BLOCK) / SECONDS_PER_DAY;
    if last_deposit_block != 0 && last_deposit_day == current_day {
        return None;
    }
    Some((chips.saturating_add(amount), current_block))
}

} // verus!
