use nullspace_execution::amm::{
    add_liquidity, borrow_usdt, deposit_collateral, remove_liquidity, repay_usdt, swap, AmmError,
    AmmPool, Vault, Wallet, MINIMUM_LIQUIDITY,
};

fn pool(rng: u64, usd: u64, shares: u64) -> AmmPool {
    AmmPool {
        reserve_rng: rng,
        reserve_vusdt: usd,
        total_shares: shares,
        fee_basis_points: 30,
        sell_tax_basis_points: 500,
    }
}

#[test]
fn test_swap_buy_and_sell() {
    let p = pool(1_000_000, 1_000_000, 1_000_000);
    let w = Wallet { chips: 0, vusdt_balance: 10_000 };
    let (burned, outcome) = swap(&p, &w, 10_000, 0, true);
    assert_eq!(burned, 0);
    let done = outcome.unwrap().unwrap();
    // Fee 30 bps of 10_000 is 30; the rest trades against the reserves.
    assert_eq!(done.fee_amount, 30);
    assert_eq!(done.amount_out, 9_871);
    assert_eq!(done.wallet, Wallet { chips: 9_871, vusdt_balance: 0 });
    assert_eq!(done.pool.reserve_vusdt, 1_010_000);
    assert_eq!(done.pool.reserve_rng, 1_000_000 - 9_871);

    let w = Wallet { chips: 10_000, vusdt_balance: 0 };
    let (burned, outcome) = swap(&p, &w, 10_000, 0, false);
    // 5% sell tax is burnt even before the trade.
    assert_eq!(burned, 500);
    let done = outcome.unwrap().unwrap();
    assert_eq!(done.wallet.chips, 0);
    assert_eq!(done.pool.reserve_rng, 1_009_500);
}

#[test]
fn test_swap_refusals() {
    let p = pool(1_000_000, 1_000_000, 1_000_000);
    let w = Wallet { chips: 0, vusdt_balance: 10_000 };
    assert_eq!(swap(&p, &w, 0, 0, true), (0, None));
    assert_eq!(swap(&pool(0, 5, 5), &w, 10, 0, true), (0, Some(Err(AmmError::ZeroLiquidity))));
    assert_eq!(swap(&p, &w, 10_000, 10_000, true), (0, Some(Err(AmmError::Slippage))));
    assert_eq!(swap(&p, &w, 20_000, 0, true), (0, Some(Err(AmmError::InsufficientFunds))));
}

#[test]
fn test_liquidity_round_trip() {
    let empty = pool(0, 0, 0);
    let w = Wallet { chips: 10_000, vusdt_balance: 40_000 };
    let (p, w2, lp, minted) = add_liquidity(&empty, &w, 0, 10_000, 40_000).unwrap();
    // sqrt(10_000 * 40_000) = 20_000, less the locked minimum.
    assert_eq!(minted, 20_000 - MINIMUM_LIQUIDITY);
    assert_eq!(lp, minted);
    assert_eq!(p.total_shares, 20_000);
    assert_eq!(w2, Wallet { chips: 0, vusdt_balance: 0 });

    let (p2, w3, lp2, rng_out, usd_out) = remove_liquidity(&p, &w2, lp, lp).unwrap().unwrap();
    assert_eq!(lp2, 0);
    assert_eq!(rng_out, 9_500);
    assert_eq!(usd_out, 38_000);
    assert_eq!(w3, Wallet { chips: 9_500, vusdt_balance: 38_000 });
    // The locked shares keep the pool from being drained.
    assert_eq!(p2.total_shares, MINIMUM_LIQUIDITY);
    assert!(p2.reserve_rng > 0 && p2.reserve_vusdt > 0);
}

#[test]
fn test_liquidity_refusals() {
    let w = Wallet { chips: 10, vusdt_balance: 10 };
    assert_eq!(add_liquidity(&pool(0, 0, 0), &w, 0, 0, 5), Err(AmmError::ZeroAmount));
    assert_eq!(add_liquidity(&pool(0, 0, 0), &w, 0, 20, 5), Err(AmmError::InsufficientFunds));
    assert_eq!(add_liquidity(&pool(0, 0, 0), &w, 0, 10, 10), Err(AmmError::InitialLiquidityTooSmall));
    assert_eq!(remove_liquidity(&pool(10, 10, 10), &w, 5, 6), Some(Err(AmmError::NotEnoughShares)));
    assert_eq!(remove_liquidity(&pool(10, 10, 10), &w, 5, 0), None);
}

#[test]
fn test_vault_borrow_and_repay() {
    let p = pool(1_000, 2_000, 1_000);
    let (chips, vault) = deposit_collateral(500, &Vault { collateral_rng: 0, debt_vusdt: 0 }, 100).unwrap();
    assert_eq!(chips, 400);
    assert_eq!(vault.collateral_rng, 100);
    // 100 chips are worth 200 vUSDT; half of that may be borrowed.
    let (vault, vusdt) = borrow_usdt(&p, &vault, 0, 100).unwrap();
    assert_eq!(vault.debt_vusdt, 100);
    assert_eq!(vusdt, 100);
    assert_eq!(borrow_usdt(&p, &vault, vusdt, 1), Err(AmmError::InsufficientCollateral));
    let (left, vault, repaid) = repay_usdt(vusdt, &vault, 60).unwrap();
    assert_eq!((left, vault.debt_vusdt, repaid), (40, 40, 60));
    assert_eq!(repay_usdt(10, &vault, 60), Err(AmmError::InsufficientFunds));
}

#[test]
fn test_swap_keeps_reserve_product() {
    let p = pool(1_000_000, 2_000_000, 1_000_000);
    let w = Wallet { chips: 10_000_000, vusdt_balance: 10_000_000 };
    for (amount, buying) in [(10_000u64, true), (10_000, false), (999_999, true), (5_000_000, false)] {
        let (_, r) = swap(&p, &w, amount, 0, buying);
        let done = r.unwrap().unwrap();
        let before = p.reserve_rng as u128 * p.reserve_vusdt as u128;
        let after = done.pool.reserve_rng as u128 * done.pool.reserve_vusdt as u128;
        assert!(after >= before);
        assert!(done.pool.reserve_rng > 0 && done.pool.reserve_vusdt > 0);
    }
}
