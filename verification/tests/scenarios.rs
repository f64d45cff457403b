use asset_exchange::exchange::{Config, GenesisConfig, Pallet};
use asset_exchange::types::{AssetBalance, AssetSwap, DispatchError, Error, Event, Origin};

fn config(max_pool_limit: u64) -> Config {
    Config {
        max_pool_limit,
        fee_divisor: 10_000,
        exchange_fee: 25,
        referral_fee: 0,
        min_native_asset_amount: 0,
        min_parachain_asset_amount: 0,
        init_shares_supply: 1_000_000_000_000_000_000_000_000,
    }
}

fn exchange() -> Pallet {
    let genesis = GenesisConfig { allowed_assets: vec![1, 2, 3, 4, 5], exchange_account: Some(1) };
    Pallet::new(config(100_000_000), &genesis)
}

fn module_err(e: Error) -> DispatchError {
    DispatchError::Module(e)
}

/// A user with assets 1 and 2 registered and funded.
fn funded(ext: &mut Pallet, who: u64, amount: u128) {
    assert!(ext.register_user(Origin::Signed(who)).is_ok());
    assert!(ext.register_assets(Origin::Signed(who), vec![1, 2]).is_ok());
    assert!(ext.deposit(Origin::Signed(who), 1, amount).is_ok());
    assert!(ext.deposit(Origin::Signed(who), 2, amount).is_ok());
}

/// An exchange whose pool 1 holds 100_000 of assets 1 and 2, provided by account 1, with a swap
/// fee of 3 on top of the exchange fee.
fn with_pool() -> Pallet {
    let mut ext = exchange();
    funded(&mut ext, 1, 100_000);
    assert!(ext.add_basic_pool(Origin::Signed(1), vec![1, 2], 3).is_ok());
    assert!(ext
        .add_liquidity(Origin::Signed(1), 1, vec![AssetBalance::new(1, 100_000), AssetBalance::new(2, 100_000)])
        .is_ok());
    ext
}

fn balance(ext: &Pallet, who: u64, asset: u64) -> u128 {
    ext.deposited_amounts(&who).unwrap().assets.get(&asset).cloned().unwrap_or(0)
}

#[test]
fn calls_need_the_right_origin() {
    let mut ext = exchange();
    assert_eq!(ext.set_exchange_account(Origin::Signed(1), 2), Err(DispatchError::BadOrigin));
    assert_eq!(ext.allow_asset(Origin::Unsigned, 9), Err(DispatchError::BadOrigin));
    assert_eq!(ext.register_user(Origin::Root), Err(DispatchError::BadOrigin));
    assert_eq!(ext.deposit(Origin::Unsigned, 1, 10), Err(DispatchError::BadOrigin));
    assert_eq!(ext.withdraw(Origin::Root, 1, 10), Err(DispatchError::BadOrigin));
    assert_eq!(ext.exchange_account(), Some(1));
    assert!(ext.allowed_assets(&9).is_none());
}

#[test]
fn set_exchange_account_reports_previous_account() {
    let mut ext = exchange();
    assert_eq!(ext.set_exchange_account(Origin::Root, 7), Ok(Event::SetExchangeAccount(Some(1), 7)));
    assert_eq!(ext.set_exchange_account(Origin::Root, 8), Ok(Event::SetExchangeAccount(Some(7), 8)));
}

#[test]
fn unregistered_account_is_refused() {
    let mut ext = exchange();
    assert_eq!(ext.deposit(Origin::Signed(4), 1, 10), Err(module_err(Error::AccountNotFound)));
    assert_eq!(ext.withdraw(Origin::Signed(4), 1, 10), Err(module_err(Error::AccountNotFound)));
    assert_eq!(ext.register_assets(Origin::Signed(4), vec![1]), Err(module_err(Error::AccountNotFound)));
    assert!(ext.deposited_amounts(&4).is_none());
}

#[test]
fn deposit_needs_allowed_and_registered_asset() {
    let mut ext = exchange();
    assert!(ext.register_user(Origin::Signed(1)).is_ok());
    assert_eq!(ext.deposit(Origin::Signed(1), 9, 10), Err(module_err(Error::AssetNotAllowed)));
    assert_eq!(ext.deposit(Origin::Signed(1), 1, 10), Err(module_err(Error::AssetNotFound)));
    assert!(ext.allow_asset(Origin::Root, 9).is_ok());
    assert!(ext.register_assets(Origin::Signed(1), vec![9]).is_ok());
    assert_eq!(ext.deposit(Origin::Signed(1), 9, 10), Ok(Event::Deposited(1, 9, 10)));
    assert_eq!(balance(&ext, 1, 9), 10);
}

#[test]
fn deposit_overflow_is_refused() {
    let mut ext = exchange();
    assert!(ext.register_user(Origin::Signed(1)).is_ok());
    assert!(ext.register_assets(Origin::Signed(1), vec![1]).is_ok());
    assert!(ext.deposit(Origin::Signed(1), 1, u128::MAX).is_ok());
    assert_eq!(ext.deposit(Origin::Signed(1), 1, 1), Err(module_err(Error::StorageOverflow)));
    assert_eq!(balance(&ext, 1, 1), u128::MAX);
}

#[test]
fn withdraw_undoes_deposit() {
    let mut ext = exchange();
    funded(&mut ext, 1, 500);
    let before = ext.get_deposits(&1).unwrap();
    assert_eq!(ext.deposit(Origin::Signed(1), 1, 1_234), Ok(Event::Deposited(1, 1, 1_234)));
    assert_eq!(balance(&ext, 1, 1), 1_734);
    assert_eq!(ext.withdraw(Origin::Signed(1), 1, 1_234), Ok(Event::WithDrawn(1, 1, 1_234)));
    assert_eq!(ext.get_deposits(&1).unwrap(), before);
}

#[test]
fn withdraw_more_than_held_is_refused() {
    let mut ext = exchange();
    funded(&mut ext, 1, 500);
    assert_eq!(ext.withdraw(Origin::Signed(1), 1, 501), Err(module_err(Error::NotEnoughBalance)));
    assert_eq!(ext.withdraw(Origin::Signed(1), 3, 1), Err(module_err(Error::AssetNotFound)));
    assert_eq!(balance(&ext, 1, 1), 500);
}

#[test]
fn register_twice_is_refused() {
    let mut ext = exchange();
    assert!(ext.register_user(Origin::Signed(1)).is_ok());
    assert_eq!(ext.register_assets(Origin::Signed(1), vec![1, 2]), Ok(Event::RegisteredAssets(1, vec![1, 2])));
    assert_eq!(ext.register_assets(Origin::Signed(1), vec![3, 2]), Err(module_err(Error::DuplicateAsset)));
    assert_eq!(ext.deposited_amounts(&1).unwrap().assets.len(), 2);
    // registering again keeps the deposit
    assert!(ext.register_user(Origin::Signed(1)).is_ok());
    assert_eq!(ext.deposited_amounts(&1).unwrap().assets.len(), 2);
}

#[test]
fn unregister_undoes_register() {
    let mut ext = exchange();
    assert!(ext.register_user(Origin::Signed(1)).is_ok());
    assert!(ext.register_assets(Origin::Signed(1), vec![1]).is_ok());
    let before = ext.get_deposits(&1).unwrap();
    assert!(ext.register_assets(Origin::Signed(1), vec![2, 3]).is_ok());
    assert_eq!(ext.get_deposits(&1).unwrap().len(), 3);
    assert_eq!(ext.unregister_assets(Origin::Signed(1), vec![2, 3]), Ok(Event::UnRegisteredAssets(1, vec![2, 3])));
    assert_eq!(ext.get_deposits(&1).unwrap(), before);
}

#[test]
fn unregister_with_balance_is_refused() {
    let mut ext = exchange();
    funded(&mut ext, 1, 5);
    assert_eq!(ext.unregister_assets(Origin::Signed(1), vec![1]), Err(module_err(Error::NonZeroBalance)));
    assert!(ext.withdraw(Origin::Signed(1), 1, 5).is_ok());
    assert!(ext.unregister_assets(Origin::Signed(1), vec![1]).is_ok());
    assert_eq!(ext.get_deposits(&1).unwrap().len(), 1);
}

#[test]
fn pool_limit_is_enforced() {
    let genesis = GenesisConfig { allowed_assets: vec![1, 2, 3], exchange_account: None };
    let mut ext = Pallet::new(config(1), &genesis);
    assert_eq!(ext.add_basic_pool(Origin::Signed(1), vec![1, 2], 3), Ok(Event::PoolAdded(1, 1, vec![1, 2])));
    assert_eq!(ext.add_basic_pool(Origin::Signed(1), vec![2, 3], 3), Err(module_err(Error::PoolLimitReached)));
    assert_eq!(ext.get_number_of_pools(), 1);
    assert!(ext.pools(&2).is_none());
}

#[test]
fn pools_are_numbered_from_one() {
    let mut ext = exchange();
    assert_eq!(ext.get_number_of_pools(), 0);
    assert_eq!(ext.pool_count(), None);
    assert_eq!(ext.add_basic_pool(Origin::Signed(1), vec![1, 2], 3), Ok(Event::PoolAdded(1, 1, vec![1, 2])));
    assert_eq!(ext.add_basic_pool(Origin::Signed(2), vec![2, 3, 4], 0), Ok(Event::PoolAdded(2, 2, vec![2, 3, 4])));
    assert_eq!(ext.get_number_of_pools(), 2);
    let info = ext.get_pool_info(&2).unwrap();
    assert_eq!(info.asset_ids, vec![2, 3, 4]);
    assert_eq!(info.amounts, vec![0, 0, 0]);
    assert_eq!(info.total_fee, 25);
    assert_eq!(info.shares_total_supply, 0);
}

#[test]
fn bad_pools_are_refused() {
    let mut ext = exchange();
    // the fee with the exchange fee on top reaches the divisor
    assert_eq!(ext.add_basic_pool(Origin::Signed(1), vec![1, 2], 9_975), Err(module_err(Error::PoolFeeTooLarge)));
    assert!(ext.add_basic_pool(Origin::Signed(1), vec![1, 2], 9_974).is_ok());
    assert_eq!(ext.add_basic_pool(Origin::Signed(1), vec![1], 3), Err(module_err(Error::InvalidPoolAssets)));
    assert_eq!(ext.add_basic_pool(Origin::Signed(1), vec![1, 1], 3), Err(module_err(Error::InvalidPoolAssets)));
    assert_eq!(ext.add_basic_pool(Origin::Signed(1), vec![1, 9], 3), Err(module_err(Error::AssetNotFound)));
    assert_eq!(ext.get_number_of_pools(), 1);
}

#[test]
fn missing_pool_is_refused() {
    let mut ext = with_pool();
    assert_eq!(ext.get_return(9, 1, 10, 2), Err(Error::PoolNotFound));
    assert!(ext.get_pool_info(&9).is_none());
    assert_eq!(
        ext.add_liquidity(Origin::Signed(1), 9, vec![AssetBalance::new(1, 0), AssetBalance::new(2, 0)]),
        Err(module_err(Error::PoolNotFound))
    );
    assert_eq!(ext.remove_liquidity(Origin::Signed(1), 9, 1, Vec::new()), Err(module_err(Error::PoolNotFound)));
    let swap = AssetSwap { pool_id: 9, asset_in: 1, amount_in: Some(10), asset_out: 2, min_amount_out: 0 };
    assert_eq!(ext.swap(Origin::Signed(1), vec![swap], None), Err(module_err(Error::PoolNotFound)));
}

#[test]
fn liquidity_deposit_must_match_pool() {
    let mut ext = exchange();
    funded(&mut ext, 1, 1_000);
    assert!(ext.register_assets(Origin::Signed(1), vec![3]).is_ok());
    assert!(ext.deposit(Origin::Signed(1), 3, 1_000).is_ok());
    assert!(ext.add_basic_pool(Origin::Signed(1), vec![1, 2], 3).is_ok());
    // one asset of the pool is missing
    assert_eq!(
        ext.add_liquidity(Origin::Signed(1), 1, vec![AssetBalance::new(1, 10)]),
        Err(module_err(Error::InvalidLiquidityDeposit))
    );
    // an asset outside the pool
    assert_eq!(
        ext.add_liquidity(Origin::Signed(1), 1, vec![AssetBalance::new(1, 10), AssetBalance::new(3, 10)]),
        Err(module_err(Error::InvalidLiquidityDeposit))
    );
    // an asset named twice
    assert_eq!(
        ext.add_liquidity(Origin::Signed(1), 1, vec![AssetBalance::new(1, 10), AssetBalance::new(1, 10)]),
        Err(module_err(Error::DuplicateAsset))
    );
    // more than the account holds
    assert_eq!(
        ext.add_liquidity(Origin::Signed(1), 1, vec![AssetBalance::new(1, 10), AssetBalance::new(2, 1_001)]),
        Err(module_err(Error::NotEnoughBalance))
    );
    assert_eq!(balance(&ext, 1, 1), 1_000);
    assert_eq!(balance(&ext, 1, 2), 1_000);
}

#[test]
fn first_liquidity_mints_initial_supply() {
    let ext = with_pool();
    let pool = ext.pools(&1).unwrap();
    assert_eq!(pool.share_balances(&1).cloned(), Some(1_000_000_000_000_000_000_000_000));
    let info = ext.get_pool_info(&1).unwrap();
    assert_eq!(info.amounts, vec![100_000, 100_000]);
    assert_eq!(info.shares_total_supply, 1_000_000_000_000_000_000_000_000);
    assert_eq!(balance(&ext, 1, 1), 0);
}

#[test]
fn later_liquidity_is_taken_in_proportion() {
    let mut ext = with_pool();
    funded(&mut ext, 2, 100_000);
    // the pool is balanced 1:1, so only 50_000 of asset 2 is taken along with 50_000 of asset 1
    assert_eq!(
        ext.add_liquidity(Origin::Signed(2), 1, vec![AssetBalance::new(1, 50_000), AssetBalance::new(2, 80_000)]),
        Ok(Event::AddedLiquidity(2, vec![AssetBalance::new(1, 50_000), AssetBalance::new(2, 50_000)]))
    );
    assert_eq!(balance(&ext, 2, 1), 50_000);
    assert_eq!(balance(&ext, 2, 2), 50_000);
    let pool = ext.pools(&1).unwrap();
    assert_eq!(pool.share_balances(&2).cloned(), Some(500_000_000_000_000_000_000_000));
    assert_eq!(ext.get_pool_info(&1).unwrap().amounts, vec![150_000, 150_000]);
}

#[test]
fn get_return_predicts_swap() {
    let mut ext = with_pool();
    funded(&mut ext, 2, 100_000);
    let predicted = ext.get_return(1, 1, 10_000, 2).unwrap();
    // 10_000 * 9_972 * 100_000 / (10_000 * 100_000 + 10_000 * 9_972)
    assert_eq!(predicted, 9_067);
    let swap = AssetSwap { pool_id: 1, asset_in: 1, amount_in: Some(10_000), asset_out: 2, min_amount_out: 0 };
    match ext.swap(Origin::Signed(2), vec![swap], None) {
        Ok(Event::Swapped(who, infos)) => {
            assert_eq!(who, 2);
            assert_eq!(infos.len(), 1);
            assert_eq!(infos[0].amount_in, 10_000);
            assert_eq!(infos[0].amount_out, predicted);
        }
        other => panic!("unexpected {:?}", other),
    }
    assert_eq!(balance(&ext, 2, 1), 90_000);
    assert_eq!(balance(&ext, 2, 2), 109_067);
    assert_eq!(ext.get_pool_info(&1).unwrap().amounts, vec![110_000, 90_933]);
}

#[test]
fn get_return_errors() {
    let ext = with_pool();
    assert_eq!(ext.get_return(1, 1, 10, 1), Err(Error::InvalidPoolAssets));
    assert_eq!(ext.get_return(1, 1, 10, 3), Err(Error::AssetNotFound));
    assert_eq!(ext.get_return(1, 1, u128::MAX, 2), Err(Error::StorageOverflow));
    assert_eq!(ext.get_return(1, 1, 0, 2), Ok(0));
    let mut empty = exchange();
    assert!(empty.add_basic_pool(Origin::Signed(1), vec![1, 2], 3).is_ok());
    assert_eq!(empty.get_return(1, 1, 10, 2), Err(Error::NotEnoughBalance));
}

#[test]
fn swap_pays_exchange_fee_in_shares() {
    let mut ext = with_pool();
    funded(&mut ext, 2, 100_000);
    let swap = AssetSwap { pool_id: 1, asset_in: 1, amount_in: Some(10_000), asset_out: 2, min_amount_out: 9_067 };
    assert!(ext.swap(Origin::Signed(2), vec![swap], None).is_ok());
    // the invariant grew from isqrt(100_000 * 100_000) = 100_000 to isqrt(110_000 * 90_933) = 100_013;
    // the exchange (account 1) gets 13 * 10^24 / (100_013 * 28 / 25) shares on top of its own
    let pool = ext.pools(&1).unwrap();
    assert_eq!(
        pool.share_balances(&1).cloned(),
        Some(1_000_000_000_000_000_000_000_000 + 116_056_921_456_246_540_610)
    );
    assert_eq!(
        ext.get_pool_info(&1).unwrap().shares_total_supply,
        1_000_000_000_000_000_000_000_000 + 116_056_921_456_246_540_610
    );
}

#[test]
fn swap_respects_minimum_out() {
    let mut ext = with_pool();
    funded(&mut ext, 2, 100_000);
    let swap = AssetSwap { pool_id: 1, asset_in: 1, amount_in: Some(10_000), asset_out: 2, min_amount_out: 9_068 };
    assert_eq!(ext.swap(Origin::Signed(2), vec![swap], None), Err(module_err(Error::NotEnoughBalance)));
    assert_eq!(balance(&ext, 2, 1), 100_000);
    assert_eq!(balance(&ext, 2, 2), 100_000);
    assert_eq!(ext.get_pool_info(&1).unwrap().amounts, vec![100_000, 100_000]);
}

#[test]
fn swap_needs_a_first_amount() {
    let mut ext = with_pool();
    funded(&mut ext, 2, 100_000);
    let swap = AssetSwap { pool_id: 1, asset_in: 1, amount_in: None, asset_out: 2, min_amount_out: 0 };
    assert_eq!(ext.swap(Origin::Signed(2), vec![swap], None), Err(module_err(Error::MissingSwapAmountIn)));
    assert_eq!(ext.swap(Origin::Signed(9), vec![swap], None), Err(module_err(Error::AccountNotFound)));
}

#[test]
fn failed_swap_series_changes_nothing() {
    let mut ext = with_pool();
    funded(&mut ext, 2, 100_000);
    let first = AssetSwap { pool_id: 1, asset_in: 1, amount_in: Some(10_000), asset_out: 2, min_amount_out: 0 };
    let second = AssetSwap { pool_id: 1, asset_in: 2, amount_in: None, asset_out: 1, min_amount_out: u128::MAX };
    assert_eq!(ext.swap(Origin::Signed(2), vec![first, second], None), Err(module_err(Error::NotEnoughBalance)));
    assert_eq!(balance(&ext, 2, 1), 100_000);
    assert_eq!(balance(&ext, 2, 2), 100_000);
    assert_eq!(ext.get_pool_info(&1).unwrap().amounts, vec![100_000, 100_000]);
}

#[test]
fn swap_keeps_asset_totals() {
    let mut ext = with_pool();
    funded(&mut ext, 2, 100_000);
    let swap = AssetSwap { pool_id: 1, asset_in: 2, amount_in: Some(33_333), asset_out: 1, min_amount_out: 0 };
    assert!(ext.swap(Origin::Signed(2), vec![swap], Some(5)).is_ok());
    let info = ext.get_pool_info(&1).unwrap();
    for (k, asset) in [1u64, 2u64].iter().enumerate() {
        let total = balance(&ext, 1, *asset) + balance(&ext, 2, *asset) + info.amounts[k];
        assert_eq!(total, 200_000);
    }
}

#[test]
fn last_provider_takes_all() {
    let mut ext = with_pool();
    let shares = ext.pools(&1).unwrap().share_balances(&1).cloned().unwrap();
    assert_eq!(ext.remove_liquidity(Origin::Signed(1), 1, shares + 1, Vec::new()), Err(module_err(Error::NotEnoughBalance)));
    assert_eq!(ext.remove_liquidity(Origin::Signed(1), 1, shares, vec![100_001]), Err(module_err(Error::NotEnoughBalance)));
    assert_eq!(ext.remove_liquidity(Origin::Signed(1), 1, shares, vec![100_000, 100_000]), Ok(Event::RemovedLiquidity));
    assert_eq!(balance(&ext, 1, 1), 100_000);
    assert_eq!(balance(&ext, 1, 2), 100_000);
    let info = ext.get_pool_info(&1).unwrap();
    assert_eq!(info.amounts, vec![0, 0]);
    assert_eq!(info.shares_total_supply, 0);
    assert!(ext.pools(&1).unwrap().share_balances(&1).is_none());
}

#[test]
fn removing_half_pays_half() {
    let mut ext = with_pool();
    let shares = ext.pools(&1).unwrap().share_balances(&1).cloned().unwrap();
    assert!(ext.remove_liquidity(Origin::Signed(1), 1, shares / 2, Vec::new()).is_ok());
    assert_eq!(balance(&ext, 1, 1), 50_000);
    assert_eq!(balance(&ext, 1, 2), 50_000);
    assert_eq!(ext.pools(&1).unwrap().share_balances(&1).cloned(), Some(shares - shares / 2));
}

#[test]
fn removal_credits_an_unregistered_account() {
    let mut ext = with_pool();
    funded(&mut ext, 2, 100_000);
    let swap = AssetSwap { pool_id: 1, asset_in: 1, amount_in: Some(10_000), asset_out: 2, min_amount_out: 0 };
    assert!(ext.set_exchange_account(Origin::Root, 6).is_ok());
    assert!(ext.swap(Origin::Signed(2), vec![swap], None).is_ok());
    // account 6 earned fee shares without ever registering
    assert!(ext.deposited_amounts(&6).is_none());
    let shares = ext.pools(&1).unwrap().share_balances(&6).cloned().unwrap();
    assert!(ext.remove_liquidity(Origin::Signed(6), 1, shares, Vec::new()).is_ok());
    let d = ext.get_deposits(&6).unwrap();
    assert_eq!(d.len(), 2);
    assert!(d.get(&1).cloned().unwrap() > 0);
}
