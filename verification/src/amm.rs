//! The constant-product market between the casino chip (RNG) and vUSDT, its
//! liquidity shares, and the collateral vaults that borrow vUSDT against
//! chips. Each function decides what one instruction does to the pool and
//! the player's balances; the execution layer reads and writes them.

use crate::casino::common::{sat_add, sat_sub};
use crate::layer::integer_sqrt;
use vstd::prelude::*;

verus! {

/// LP shares locked forever on the first deposit, so the pool can never be
/// fully drained.
pub const MINIMUM_LIQUIDITY: u64 = 1_000;

/// Basis points in one whole.
pub const BASIS_POINTS: u128 = 10_000;

/// The pool.
#[derive(Clone, Copy, Debug, PartialEq, Eq, Structural)]
pub struct AmmPool {
    pub reserve_rng: u64,
    pub reserve_vusdt: u64,
    pub total_shares: u64,
    pub fee_basis_points: u16,
    pub sell_tax_basis_points: u16,
}

/// A player's balances in the two assets.
#[derive(Clone, Copy, Debug, PartialEq, Eq, Structural)]
pub struct Wallet {
    pub chips: u64,
    pub vusdt_balance: u64,
}

/// Why an instruction is refused.
#[derive(Clone, Copy, Debug, PartialEq, Eq, Structural)]
pub enum AmmError {
    ZeroLiquidity,
    InvalidState,
    Slippage,
    InsufficientFunds,
    ZeroAmount,
    InitialLiquidityTooSmall,
    DepositTooSmall,
    NotEnoughShares,
    InsufficientCollateral,
}

/// `a * b` clamped to `u128::MAX`.
pub open spec fn sat_mul128(a: int, b: int) -> int {
    if a * b > u128::MAX {
        u128::MAX as int
    } else {
        a * b
    }
}

/// `a.saturating_mul(b)` on `u128`.
fn saturating_mul_u128(a: u128, b: u128) -> (r: u128)
    ensures
        r == sat_mul128(a as int, b as int),
{
    match a.checked_mul(b) {
        Some(v) => v,
        None => u128::MAX,
    }
}

/// A completed swap: the pool and wallet after it, what came out, the fee
/// booked to the house and the tax burnt.
#[derive(Clone, Copy, Debug, PartialEq, Eq, Structural)]
pub struct SwapDone {
    pub pool: AmmPool,
    pub wallet: Wallet,
    pub amount_out: u64,
    pub fee_amount: u64,
    pub burned_amount: u64,
}

/// The tax burnt when selling chips: the sell tax (in basis points) of the
/// amount, as a `u64`.
pub open spec fn sell_tax(pool: AmmPool, amount_in: u64, buying: bool) -> u64 {
    if buying {
        0
    } else {
        ((amount_in as int * pool.sell_tax_basis_points as int / 10_000) as u128) as u64
    }
}

/// What a swap does: nothing for a zero amount; a refusal on an empty pool;
/// otherwise the tax (when selling) comes off the input, the fee off what is
/// left, and the output follows the constant product of the reserves; the
/// swap is refused below `min_amount_out` or when the player cannot pay.
/// The tax is burnt (and the house records it) even when the swap is then
/// refused; the first component is the tax burnt.
pub open spec fn swap_spec(pool: AmmPool, w: Wallet, amount_in0: u64, min_amount_out: u64, buying: bool) -> (u64, Option<Result<SwapDone, AmmError>>) {
    if amount_in0 == 0 {
        (0, None)
    } else if pool.reserve_rng == 0 || pool.reserve_vusdt == 0 {
        (0, Some(Err(AmmError::ZeroLiquidity)))
    } else {
        let burned = sell_tax(pool, amount_in0, buying);
        let amount_in = if burned > 0 {
            sat_sub(amount_in0 as int, burned as int)
        } else {
            amount_in0 as int
        };
        let (reserve_in, reserve_out) = if buying {
            (pool.reserve_vusdt as int, pool.reserve_rng as int)
        } else {
            (pool.reserve_rng as int, pool.reserve_vusdt as int)
        };
        let fee = amount_in * pool.fee_basis_points as int / 10_000;
        let net_in = sat_sub(amount_in, fee);
        let with_fee = net_in * 10_000;
        let numerator = sat_mul128(with_fee, reserve_out);
        let denominator = sat_add128(sat_mul128(reserve_in, 10_000), with_fee);
        if denominator == 0 {
            (burned, Some(Err(AmmError::InvalidState)))
        } else {
            let out = ((numerator / denominator) as u128) as u64;
            if out < min_amount_out {
                (burned, Some(Err(AmmError::Slippage)))
            } else if buying {
                if (w.vusdt_balance as int) < amount_in {
                    (burned, Some(Err(AmmError::InsufficientFunds)))
                } else {
                    (
                        burned,
                        Some(
                            Ok(
                                SwapDone {
                                    pool: AmmPool {
                                        reserve_vusdt: sat_add(pool.reserve_vusdt as int, amount_in) as u64,
                                        reserve_rng: sat_sub(pool.reserve_rng as int, out as int) as u64,
                                        ..pool
                                    },
                                    wallet: Wallet {
                                        vusdt_balance: (w.vusdt_balance - amount_in) as u64,
                                        chips: sat_add(w.chips as int, out as int) as u64,
                                    },
                                    amount_out: out,
                                    fee_amount: (fee as u128) as u64,
                                    burned_amount: burned,
                                },
                            ),
                        ),
                    )
                }
            } else {
                let total = amount_in + burned;
                if (w.chips as int) < total {
                    (burned, Some(Err(AmmError::InsufficientFunds)))
                } else {
                    (
                        burned,
                        Some(
                            Ok(
                                SwapDone {
                                    pool: AmmPool {
                                        reserve_rng: sat_add(pool.reserve_rng as int, amount_in) as u64,
                                        reserve_vusdt: sat_sub(pool.reserve_vusdt as int, out as int) as u64,
                                        ..pool
                                    },
                                    wallet: Wallet {
                                        chips: (w.chips - total) as u64,
                                        vusdt_balance: sat_add(w.vusdt_balance as int, out as int) as u64,
                                    },
                                    amount_out: out,
                                    fee_amount: (fee as u128) as u64,
                                    burned_amount: burned,
                                },
                            ),
                        ),
                    )
                }
            }
        }
    }
}

/// `a + b` clamped to `u128::MAX`.
pub open spec fn sat_add128(a: int, b: int) -> int {
    if a + b > u128::MAX {
        u128::MAX as int
    } else {
        a + b
    }
}

/// Swaps `amount_in` of one asset for the other (`buying` chips with vUSDT,
/// or selling chips for vUSDT).
pub fn swap(pool: &AmmPool, wallet: &Wallet, amount_in: u64, min_amount_out: u64, is_buying_rng: bool) -> (r: (
    u64,
    Option<Result<SwapDone, AmmError>>,
))
    ensures
        r == swap_spec(*pool, *wallet, amount_in, min_amount_out, is_buying_rng),
{
    if amount_in == 0 {
        return (0, None);
    }
    if pool.reserve_rng == 0 || pool.reserve_vusdt == 0 {
        return (0, Some(Err(AmmError::ZeroLiquidity)));
    }
    let mut amount = amount_in;
    let mut burned_amount: u64 = 0;
    if !is_buying_rng {
        assert((amount_in as u128) * (pool.sell_tax_basis_points as u128) <= u128::MAX) by (nonlinear_arith)
            requires
                amount_in <= u64::MAX,
                pool.sell_tax_basis_points <= u16::MAX,
        ;
        let tax: u128 = amount_in as u128 * pool.sell_tax_basis_points as u128 / BASIS_POINTS;
        burned_amount = #[verifier::truncate] (tax as u64);
        if burned_amount > 0 {
            amount = amount_in.saturating_sub(burned_amount);
        }
    }
    let (reserve_in, reserve_out): (u128, u128) = if is_buying_rng {
        (pool.reserve_vusdt as u128, pool.reserve_rng as u128)
    } else {
        (pool.reserve_rng as u128, pool.reserve_vusdt as u128)
    };
    assert((amount as u128) * (pool.fee_basis_points as u128) <= u128::MAX) by (nonlinear_arith)
        requires
            amount <= u64::MAX,
            pool.fee_basis_points <= u16::MAX,
    ;
    let fee_amount: u128 = (amount as u128) * (pool.fee_basis_points as u128) / BASIS_POINTS;
    let net_in = (amount as u128).saturating_sub(fee_amount);
    let amount_in_with_fee = net_in * BASIS_POINTS;
    let numerator = saturating_mul_u128(amount_in_with_fee, reserve_out);
    let denominator = saturating_mul_u128(reserve_in, BASIS_POINTS).saturating_add(amount_in_with_fee);
    if denominator == 0 {
        return (burned_amount, Some(Err(AmmError::InvalidState)));
    }
    let amount_out: u64 = #[verifier::truncate] ((numerator / denominator) as u64);
    if amount_out < min_amount_out {
        return (burned_amount, Some(Err(AmmError::Slippage)));
    }
    let fee: u64 = #[verifier::truncate] (fee_amount as u64);
    if is_buying_rng {
        if wallet.vusdt_balance < amount {
            return (burned_amount, Some(Err(AmmError::InsufficientFunds)));
        }
        let done = SwapDone {
            pool: AmmPool {
                reserve_vusdt: pool.reserve_vusdt.saturating_add(amount),
                reserve_rng: pool.reserve_rng.saturating_sub(amount_out),
                ..*pool
            },
            wallet: Wallet {
                vusdt_balance: wallet.vusdt_balance - amount,
                chips: wallet.chips.saturating_add(amount_out),
            },
            amount_out,
            fee_amount: fee,
            burned_amount,
        };
        (burned_amount, Some(Ok(done)))
    } else {
        let total_deduction = amount + burned_amount;
        if wallet.chips < total_deduction {
            return (burned_amount, Some(Err(AmmError::InsufficientFunds)));
        }
        let done = SwapDone {
            pool: AmmPool {
                reserve_rng: pool.reserve_rng.saturating_add(amount),
                reserve_vusdt: pool.reserve_vusdt.saturating_sub(amount_out),
                ..*pool
            },
            wallet: Wallet {
                chips: wallet.chips - total_deduction,
                vusdt_balance: wallet.vusdt_balance.saturating_add(amount_out),
            },
            amount_out,
            fee_amount: fee,
            burned_amount,
        };
        (burned_amount, Some(Ok(done)))
    }
}

/// Whether `r` is the integer square root of `v`.
pub open spec fn is_isqrt(r: int, v: int) -> bool {
    0 <= r && r * r <= v && v < (r + 1) * (r + 1)
}

/// The integer square root of `v`.
pub open spec fn isqrt(v: int) -> int {
    choose|r: int| is_isqrt(r, v)
}

/// A number has one integer square root.
pub proof fn lemma_isqrt_unique(a: int, b: int, v: int)
    requires
        is_isqrt(a, v),
        is_isqrt(b, v),
    ensures
        a == b,
{
    if a < b {
        assert((a + 1) * (a + 1) <= b * b) by (nonlinear_arith)
            requires
                0 <= a + 1 <= b,
        ;
    } else if b < a {
        assert((b + 1) * (b + 1) <= a * a) by (nonlinear_arith)
            requires
                0 <= b + 1 <= a,
        ;
    }
}

/// Shares minted for a deposit before the lock on a first deposit: the
/// square root of the product on an empty pool, else the smaller of the two
/// proportional shares (as a `u64`).
pub open spec fn shares_for(pool: AmmPool, rng_amount: u64, usdt_amount: u64) -> int {
    if pool.total_shares == 0 {
        isqrt(rng_amount * usdt_amount)
    } else {
        let a = rng_amount * pool.total_shares / pool.reserve_rng as int;
        let b = usdt_amount * pool.total_shares / pool.reserve_vusdt as int;
        ((if a <= b {
            a
        } else {
            b
        }) as u128) as u64 as int
    }
}

/// What adding liquidity does: refused for a zero amount, an amount the
/// player does not hold, or an empty pool with shares outstanding; the first
/// deposit locks `MINIMUM_LIQUIDITY` shares and is refused if it would not
/// mint more; a deposit that mints nothing is refused. Gives the pool, the
/// wallet, the player's LP balance and the shares minted.
pub open spec fn add_liquidity_spec(pool: AmmPool, w: Wallet, lp_balance: u64, rng_amount: u64, usdt_amount: u64) -> Result<
    (AmmPool, Wallet, u64, u64),
    AmmError,
> {
    if rng_amount == 0 || usdt_amount == 0 {
        Err(AmmError::ZeroAmount)
    } else if w.chips < rng_amount || w.vusdt_balance < usdt_amount {
        Err(AmmError::InsufficientFunds)
    } else if pool.total_shares != 0 && (pool.reserve_rng == 0 || pool.reserve_vusdt == 0) {
        Err(AmmError::ZeroLiquidity)
    } else {
        let minted0 = shares_for(pool, rng_amount, usdt_amount);
        if pool.total_shares == 0 && minted0 <= MINIMUM_LIQUIDITY {
            Err(AmmError::InitialLiquidityTooSmall)
        } else {
            let total = if pool.total_shares == 0 {
                sat_add(pool.total_shares as int, MINIMUM_LIQUIDITY as int)
            } else {
                pool.total_shares as int
            };
            let minted = if pool.total_shares == 0 {
                sat_sub(minted0, MINIMUM_LIQUIDITY as int)
            } else {
                minted0
            };
            if minted == 0 {
                Err(AmmError::DepositTooSmall)
            } else {
                Ok(
                    (
                        AmmPool {
                            reserve_rng: sat_add(pool.reserve_rng as int, rng_amount as int) as u64,
                            reserve_vusdt: sat_add(pool.reserve_vusdt as int, usdt_amount as int) as u64,
                            total_shares: sat_add(total, minted) as u64,
                            ..pool
                        },
                        Wallet {
                            chips: (w.chips - rng_amount) as u64,
                            vusdt_balance: (w.vusdt_balance - usdt_amount) as u64,
                        },
                        sat_add(lp_balance as int, minted) as u64,
                        minted as u64,
                    ),
                )
            }
        }
    }
}

/// Adds liquidity to the pool.
pub fn add_liquidity(pool: &AmmPool, wallet: &Wallet, lp_balance: u64, rng_amount: u64, usdt_amount: u64) -> (r: Result<
    (AmmPool, Wallet, u64, u64),
    AmmError,
>)
    ensures
        r == add_liquidity_spec(*pool, *wallet, lp_balance, rng_amount, usdt_amount),
{
    if rng_amount == 0 || usdt_amount == 0 {
        return Err(AmmError::ZeroAmount);
    }
    if wallet.chips < rng_amount || wallet.vusdt_balance < usdt_amount {
        return Err(AmmError::InsufficientFunds);
    }
    let mut total_shares = pool.total_shares;
    let mut shares_minted: u64 = if pool.total_shares == 0 {
        assert((rng_amount as u128) * (usdt_amount as u128) < u128::MAX) by (nonlinear_arith)
            requires
                rng_amount <= u64::MAX,
                usdt_amount <= u64::MAX,
        ;
        let val = (rng_amount as u128) * (usdt_amount as u128);
        let root = integer_sqrt(val);
        proof {
            let c = choose|r: int| is_isqrt(r, val as int);
            assert(is_isqrt(root as int, val as int));
            lemma_isqrt_unique(root as int, c, val as int);
        }
        root
    } else {
        if pool.reserve_rng == 0 || pool.reserve_vusdt == 0 {
            return Err(AmmError::ZeroLiquidity);
        }
        assert((rng_amount as u128) * (pool.total_shares as u128) <= u128::MAX) by (nonlinear_arith)
            requires
                rng_amount <= u64::MAX,
                pool.total_shares <= u64::MAX,
        ;
        assert((usdt_amount as u128) * (pool.total_shares as u128) <= u128::MAX) by (nonlinear_arith)
            requires
                usdt_amount <= u64::MAX,
                pool.total_shares <= u64::MAX,
        ;
        let share_a = (rng_amount as u128 * pool.total_shares as u128) / pool.reserve_rng as u128;
        let share_b = (usdt_amount as u128 * pool.total_shares as u128) / pool.reserve_vusdt as u128;
        let smaller = if share_a <= share_b {
            share_a
        } else {
            share_b
        };
        #[verifier::truncate]
        (smaller as u64)
    };
    if pool.total_shares == 0 {
        if shares_minted <= MINIMUM_LIQUIDITY {
            return Err(AmmError::InitialLiquidityTooSmall);
        }
        total_shares = total_shares.saturating_add(MINIMUM_LIQUIDITY);
        shares_minted = shares_minted.saturating_sub(MINIMUM_LIQUIDITY);
    }
    if shares_minted == 0 {
        return Err(AmmError::DepositTooSmall);
    }
    let new_pool = AmmPool {
        reserve_rng: pool.reserve_rng.saturating_add(rng_amount),
        reserve_vusdt: pool.reserve_vusdt.saturating_add(usdt_amount),
        total_shares: total_shares.saturating_add(shares_minted),
        ..*pool
    };
    let new_wallet = Wallet {
        chips: wallet.chips - rng_amount,
        vusdt_balance: wallet.vusdt_balance - usdt_amount,
    };
    Ok((new_pool, new_wallet, lp_balance.saturating_add(shares_minted), shares_minted))
}

/// What removing liquidity does: nothing for zero shares or more than exist;
/// refused beyond the player's LP balance; otherwise the player gets the
/// shares' proportion of each reserve. Gives the pool, the wallet, the LP
/// balance and the two amounts paid out.
pub open spec fn remove_liquidity_spec(pool: AmmPool, w: Wallet, lp_balance: u64, shares: u64) -> Option<
    Result<(AmmPool, Wallet, u64, u64, u64), AmmError>,
> {
    if shares == 0 || pool.total_shares == 0 || shares > pool.total_shares {
        None
    } else if shares > lp_balance {
        Some(Err(AmmError::NotEnoughShares))
    } else {
        let rng_out = shares * pool.reserve_rng / pool.total_shares as int;
        let usd_out = shares * pool.reserve_vusdt / pool.total_shares as int;
        Some(
            Ok(
                (
                    AmmPool {
                        reserve_rng: sat_sub(pool.reserve_rng as int, rng_out) as u64,
                        reserve_vusdt: sat_sub(pool.reserve_vusdt as int, usd_out) as u64,
                        total_shares: (pool.total_shares - shares) as u64,
                        ..pool
                    },
                    Wallet {
                        chips: sat_add(w.chips as int, rng_out) as u64,
                        vusdt_balance: sat_add(w.vusdt_balance as int, usd_out) as u64,
                    },
                    (lp_balance - shares) as u64,
                    rng_out as u64,
                    usd_out as u64,
                ),
            ),
        )
    }
}

/// The proportion `shares / total` of a reserve, which fits in the reserve.
fn proportion(shares: u64, reserve: u64, total: u64) -> (r: u64)
    requires
        0 < total,
        shares <= total,
    ensures
        r == shares * reserve / total as int,
        r <= reserve,
{
    assert((shares as u128) * (reserve as u128) <= u128::MAX) by (nonlinear_arith)
        requires
            shares <= u64::MAX,
            reserve <= u64::MAX,
    ;
    let p = (shares as u128 * reserve as u128) / total as u128;
    assert(p <= reserve) by (nonlinear_arith)
        requires
            p == (shares as int * reserve as int) / total as int,
            0 < total,
            shares <= total,
    ;
    p as u64
}

/// Removes liquidity from the pool.
pub fn remove_liquidity(pool: &AmmPool, wallet: &Wallet, lp_balance: u64, shares: u64) -> (r: Option<
    Result<(AmmPool, Wallet, u64, u64, u64), AmmError>,
>)
    ensures
        r == remove_liquidity_spec(*pool, *wallet, lp_balance, shares),
{
    if shares == 0 {
        return None;
    }
    if pool.total_shares == 0 || shares > pool.total_shares {
        return None;
    }
    if shares > lp_balance {
        return Some(Err(AmmError::NotEnoughShares));
    }
    let amount_rng = proportion(shares, pool.reserve_rng, pool.total_shares);
    let amount_vusd = proportion(shares, pool.reserve_vusdt, pool.total_shares);
    let new_pool = AmmPool {
        reserve_rng: pool.reserve_rng.saturating_sub(amount_rng),
        reserve_vusdt: pool.reserve_vusdt.saturating_sub(amount_vusd),
        total_shares: pool.total_shares.saturating_sub(shares),
        ..*pool
    };
    let new_wallet = Wallet {
        chips: wallet.chips.saturating_add(amount_rng),
        vusdt_balance: wallet.vusdt_balance.saturating_add(amount_vusd),
    };
    Some(Ok((new_pool, new_wallet, lp_balance.saturating_sub(shares), amount_rng, amount_vusd)))
}

/// What of a swap's input reaches the pool: the input less the sell tax.
pub open spec fn swap_input(pool: AmmPool, amount_in0: u64, buying: bool) -> int {
    let burned = sell_tax(pool, amount_in0, buying);
    if burned > 0 {
        sat_sub(amount_in0 as int, burned as int)
    } else {
        amount_in0 as int
    }
}

/// The output of the constant-product formula never reaches the output
/// reserve, and the reserves' product does not fall when the input is added
/// and the output taken away.
proof fn lemma_constant_product(rin: int, rout: int, a: int, net: int, n: int, out: int)
    requires
        rin > 0,
        rout > 0,
        0 <= net <= a,
        0 <= n <= net * 10_000 * rout,
        out == n / (rin * 10_000 + net * 10_000),
    ensures
        0 <= out < rout,
        (rin + a) * (rout - out) >= rin * rout,
{
    let w = net * 10_000;
    let d = rin * 10_000 + w;
    assert(d > 0) by (nonlinear_arith)
        requires
            rin > 0,
            net >= 0,
            d == rin * 10_000 + net * 10_000,
    ;
    assert(w >= 0) by (nonlinear_arith)
        requires
            net >= 0,
            w == net * 10_000,
    ;
    assert(0 <= out * d <= n) by (nonlinear_arith)
        requires
            d > 0,
            n >= 0,
            out == n / d,
    ;
    assert(out >= 0) by (nonlinear_arith)
        requires
            d > 0,
            n >= 0,
            out == n / d,
    ;
    assert(out * rin * 10_000 + out * w <= w * rout) by (nonlinear_arith)
        requires
            out * d <= n,
            n <= w * rout,
            d == rin * 10_000 + w,
            w == net * 10_000,
    ;
    assert(out < rout) by (nonlinear_arith)
        requires
            out * rin * 10_000 + out * w <= w * rout,
            rin > 0,
            out >= 0,
            w >= 0,
            rout > 0,
    ;
    assert(out * rin <= net * (rout - out)) by (nonlinear_arith)
        requires
            out * rin * 10_000 + out * w <= w * rout,
            w == net * 10_000,
    ;
    assert((rin + a) * (rout - out) >= rin * rout) by (nonlinear_arith)
        requires
            out * rin <= net * (rout - out),
            net <= a,
            out < rout,
    ;
}

/// A completed swap never lowers the product of the reserves and leaves
/// both reserves non-empty, whenever the input reserve does not saturate at
/// the largest `u64`.
pub proof fn lemma_swap_keeps_product(pool: AmmPool, w: Wallet, amount_in: u64, min_amount_out: u64, buying: bool)
    requires
        swap_spec(pool, w, amount_in, min_amount_out, buying).1 matches Some(Ok(_)),
        buying ==> pool.reserve_vusdt + swap_input(pool, amount_in, buying) <= u64::MAX,
        !buying ==> pool.reserve_rng + swap_input(pool, amount_in, buying) <= u64::MAX,
    ensures
        ({
            let d = swap_spec(pool, w, amount_in, min_amount_out, buying).1.unwrap().unwrap();
            &&& d.pool.reserve_rng as int * d.pool.reserve_vusdt as int >= pool.reserve_rng as int
                * pool.reserve_vusdt as int
            &&& d.pool.reserve_rng > 0
            &&& d.pool.reserve_vusdt > 0
        }),
{
    let a = swap_input(pool, amount_in, buying);
    let (rin, rout) = if buying {
        (pool.reserve_vusdt as int, pool.reserve_rng as int)
    } else {
        (pool.reserve_rng as int, pool.reserve_vusdt as int)
    };
    let fee = a * pool.fee_basis_points as int / 10_000;
    let net = sat_sub(a, fee);
    let with_fee = net * 10_000;
    let numerator = sat_mul128(with_fee, rout);
    let denominator = sat_add128(sat_mul128(rin, 10_000), with_fee);
    assert(0 <= a <= u64::MAX);
    assert(fee >= 0) by (nonlinear_arith)
        requires
            a >= 0,
            pool.fee_basis_points >= 0,
            fee == a * pool.fee_basis_points as int / 10_000,
    ;
    assert(0 <= net <= a);
    assert(rin * 10_000 <= u128::MAX && with_fee <= 0x1_0000_0000_0000_0000 * 10_000) by (nonlinear_arith)
        requires
            0 <= rin <= u64::MAX,
            0 <= net <= u64::MAX,
            with_fee == net * 10_000,
    ;
    assert(denominator == rin * 10_000 + with_fee);
    assert(0 <= numerator <= with_fee * rout) by (nonlinear_arith)
        requires
            with_fee >= 0,
            rout >= 0,
            numerator == sat_mul128(with_fee, rout),
    ;
    let q = numerator / denominator;
    lemma_constant_product(rin, rout, a, net, numerator, q);
    assert(q < u64::MAX);
    assert(((q as u128) as u64) as int == q);
    let d = swap_spec(pool, w, amount_in, min_amount_out, buying).1.unwrap().unwrap();
    let (new_in, new_out) = if buying {
        (d.pool.reserve_vusdt as int, d.pool.reserve_rng as int)
    } else {
        (d.pool.reserve_rng as int, d.pool.reserve_vusdt as int)
    };
    assert(new_in == rin + a);
    assert(new_out == rout - q);
    assert(new_in * new_out >= rin * rout);
    assert(d.pool.reserve_rng as int * d.pool.reserve_vusdt as int >= pool.reserve_rng as int
        * pool.reserve_vusdt as int) by (nonlinear_arith)
        requires
            buying ==> new_in == d.pool.reserve_vusdt && new_out == d.pool.reserve_rng && rin
                == pool.reserve_vusdt && rout == pool.reserve_rng,
            !buying ==> new_in == d.pool.reserve_rng && new_out == d.pool.reserve_vusdt && rin
                == pool.reserve_rng && rout == pool.reserve_vusdt,
            new_in * new_out >= rin * rout,
    ;
}

/// While shares stay outstanding after a removal (as the locked minimum
/// ensures), a removal never empties a reserve that held something.
pub proof fn lemma_remove_keeps_reserves(pool: AmmPool, w: Wallet, lp_balance: u64, shares: u64)
    requires
        shares < pool.total_shares,
        pool.reserve_rng > 0,
        pool.reserve_vusdt > 0,
    ensures
        remove_liquidity_spec(pool, w, lp_balance, shares) matches Some(Ok(x)) ==> x.0.reserve_rng > 0
            && x.0.reserve_vusdt > 0,
{
    if shares > 0 && shares <= lp_balance {
        let t = pool.total_shares as int;
        assert(shares * pool.reserve_rng / t < pool.reserve_rng) by (nonlinear_arith)
            requires
                0 < shares < t,
                pool.reserve_rng > 0,
        ;
        assert(shares * pool.reserve_vusdt / t < pool.reserve_vusdt) by (nonlinear_arith)
            requires
                0 < shares < t,
                pool.reserve_vusdt > 0,
        ;
    }
}

/// A vault: collateral in chips and debt in vUSDT.
#[derive(Clone, Copy, Debug, PartialEq, Eq, Structural)]
pub struct Vault {
    pub collateral_rng: u64,
    pub debt_vusdt: u64,
}

/// Moves chips into a vault as collateral; refused when the player holds too
/// few. Gives the chips left and the vault.
pub fn deposit_collateral(chips: u64, vault: &Vault, amount: u64) -> (r: Result<(u64, Vault), AmmError>)
    requires
        chips >= amount ==> vault.collateral_rng + amount <= u64::MAX,
    ensures
        chips < amount ==> r == Err::<(u64, Vault), AmmError>(AmmError::InsufficientFunds),
        chips >= amount ==> r == Ok::<(u64, Vault), AmmError>(
            ((chips - amount) as u64, Vault { collateral_rng: (vault.collateral_rng + amount) as u64, ..*vault }),
        ),
{
    if chips < amount {
        return Err(AmmError::InsufficientFunds);
    }
    Ok((chips - amount, Vault { collateral_rng: vault.collateral_rng + amount, ..*vault }))
}

/// The price of a chip in vUSDT, as a fraction: the reserve ratio, or one for
/// an empty pool.
pub open spec fn price(pool: AmmPool) -> (int, int) {
    if pool.reserve_rng > 0 {
        (pool.reserve_vusdt as int, pool.reserve_rng as int)
    } else {
        (1, 1)
    }
}

/// Whether a debt stays within half the collateral's value.
pub open spec fn within_ltv(pool: AmmPool, collateral: u64, debt: int) -> bool {
    2 * debt * price(pool).1 <= collateral * price(pool).0
}

/// Borrows vUSDT against the vault: refused when the new debt would exceed
/// half the collateral's value at the pool price. Gives the vault and the
/// player's new vUSDT balance.
pub fn borrow_usdt(pool: &AmmPool, vault: &Vault, vusdt_balance: u64, amount: u64) -> (r: Result<(Vault, u64), AmmError>)
    requires
        vault.debt_vusdt + amount <= u64::MAX,
        2 * (vault.debt_vusdt + amount) * price(*pool).1 <= u128::MAX,
        within_ltv(*pool, vault.collateral_rng, vault.debt_vusdt + amount) ==> vusdt_balance + amount
            <= u64::MAX,
    ensures
        !within_ltv(*pool, vault.collateral_rng, vault.debt_vusdt + amount) ==> r == Err::<(Vault, u64), AmmError>(
            AmmError::InsufficientCollateral,
        ),
        within_ltv(*pool, vault.collateral_rng, vault.debt_vusdt + amount) ==> r == Ok::<(Vault, u64), AmmError>(
            (Vault { debt_vusdt: (vault.debt_vusdt + amount) as u64, ..*vault }, (vusdt_balance + amount) as u64),
        ),
{
    let price_numerator: u128 = if pool.reserve_rng > 0 {
        pool.reserve_vusdt as u128
    } else {
        1
    };
    let price_denominator: u128 = if pool.reserve_rng > 0 {
        pool.reserve_rng as u128
    } else {
        1
    };
    let new_debt = vault.debt_vusdt + amount;
    let lhs = 2 * (new_debt as u128) * price_denominator;
    assert((vault.collateral_rng as u128) * price_numerator <= u128::MAX) by (nonlinear_arith)
        requires
            vault.collateral_rng <= u64::MAX,
            price_numerator <= u64::MAX,
    ;
    let rhs = (vault.collateral_rng as u128) * price_numerator;
    if lhs > rhs {
        return Err(AmmError::InsufficientCollateral);
    }
    Ok((Vault { debt_vusdt: new_debt, ..*vault }, vusdt_balance + amount))
}

/// Repays vUSDT debt: refused when the player holds less than `amount`;
/// otherwise at most the debt is repaid. Gives the vUSDT left, the vault and
/// the amount repaid.
pub fn repay_usdt(vusdt_balance: u64, vault: &Vault, amount: u64) -> (r: Result<(u64, Vault, u64), AmmError>)
    ensures
        vusdt_balance < amount ==> r == Err::<(u64, Vault, u64), AmmError>(AmmError::InsufficientFunds),
        vusdt_balance >= amount ==> {
            let repaid = if amount <= vault.debt_vusdt {
                amount
            } else {
                vault.debt_vusdt
            };
            r == Ok::<(u64, Vault, u64), AmmError>(
                (
                    (vusdt_balance - repaid) as u64,
                    Vault { debt_vusdt: (vault.debt_vusdt - repaid) as u64, ..*vault },
                    repaid,
                ),
            )
        },
{
    if vusdt_balance < amount {
        return Err(AmmError::InsufficientFunds);
    }
    let actual_repay = if amount <= vault.debt_vusdt {
        amount
    } else {
        vault.debt_vusdt
    };
    Ok((vusdt_balance - actual_repay, Vault { debt_vusdt: vault.debt_vusdt - actual_repay, ..*vault }, actual_repay))
}

} // verus!
