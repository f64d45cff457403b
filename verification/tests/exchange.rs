use asset_exchange::exchange::{Config, GenesisConfig, Pallet};
use asset_exchange::types::{AssetBalance, AssetSwap, DispatchError, Error, Event, Origin};

fn new_test_ext() -> Pallet {
    let config = Config {
        max_pool_limit: 100_000_000,
        fee_divisor: 10_000,
        exchange_fee: 25,
        referral_fee: 0,
        min_native_asset_amount: 0,
        min_parachain_asset_amount: 0,
        init_shares_supply: 1_000_000_000_000_000_000_000_000,
    };
    let genesis = GenesisConfig { allowed_assets: vec![1, 2, 3, 4, 5], exchange_account: Some(1) };
    Pallet::new(config, &genesis)
}

#[test]
fn change_exchange_beneficiary() {
    let mut ext = new_test_ext();
    // set the account for exchange fees
    assert!(ext.set_exchange_account(Origin::Root, 2).is_ok());
    assert_eq!(ext.exchange_account(), Some(2));
}

#[test]
fn allow_assets() {
    let mut ext = new_test_ext();
    assert!(ext.allow_asset(Origin::Root, 5).is_ok());
    assert!(ext.allow_asset(Origin::Root, 6).is_ok());
    assert!(ext.allow_asset(Origin::Root, 7).is_ok());
    assert!(ext.allow_asset(Origin::Root, 8).is_ok());

    assert!(ext.allowed_assets(&5).is_some());
    assert!(ext.allowed_assets(&6).is_some());
    assert!(ext.allowed_assets(&7).is_some());
    assert!(ext.allowed_assets(&8).is_some());
}

#[test]
fn register_user_and_deposit_funds() {
    let mut ext = new_test_ext();
    // change the owner of the exchange, who receives the exchange fees
    assert!(ext.set_exchange_account(Origin::Root, 3).is_ok());

    assert!(ext.register_user(Origin::Signed(1)).is_ok());
    let deposit = ext.deposited_amounts(&1).unwrap();
    assert_eq!(deposit.amount, 0);
    assert!(deposit.assets.is_empty());

    // register assets for the user
    assert!(ext.register_assets(Origin::Signed(1), vec![1, 2]).is_ok());
    let deposit = ext.deposited_amounts(&1).unwrap();
    assert_eq!(deposit.assets.get(&1).cloned(), Some(0));
    assert_eq!(deposit.assets.len(), 2);

    // deposit funds in the user's account
    assert!(ext.deposit(Origin::Signed(1), 1, 100_000).is_ok());
    assert!(ext.deposit(Origin::Signed(1), 2, 100_000).is_ok());

    let deposit = ext.deposited_amounts(&1).unwrap();
    assert_eq!(deposit.assets.get(&1).cloned(), Some(100_000));
    assert_eq!(deposit.assets.get(&2).cloned(), Some(100_000));

    // create a new poll
    assert!(ext.add_basic_pool(Origin::Signed(1), vec![1, 2], 3).is_ok());
    assert_eq!(ext.pool_count(), Some(1));
    assert!(ext.pools(&1).is_some());

    // add all funds from the user's account into the pool
    assert!(ext
        .add_liquidity(
            Origin::Signed(1),
            1,
            vec![AssetBalance::new(1, 100_000), AssetBalance::new(2, 100_000)]
        )
        .is_ok());

    let deposit = ext.deposited_amounts(&1).unwrap();
    assert_eq!(deposit.assets.get(&1).cloned(), Some(0));
    assert_eq!(deposit.assets.get(&2).cloned(), Some(0));

    // can't withdraw anymore
    assert_eq!(
        ext.withdraw(Origin::Signed(1), 1, 100),
        Err(DispatchError::Module(Error::NotEnoughBalance))
    );

    assert!(ext.register_user(Origin::Signed(2)).is_ok());
    // register assets for the user
    assert!(ext.register_assets(Origin::Signed(2), vec![1, 2]).is_ok());
    assert!(ext.deposit(Origin::Signed(2), 1, 100_000).is_ok());
    assert!(ext.deposit(Origin::Signed(2), 2, 100_000).is_ok());

    // swap assets from user 2's account
    assert!(ext
        .swap(
            Origin::Signed(2),
            vec![AssetSwap {
                pool_id: 1,
                asset_in: 1,
                amount_in: Some(10_000),
                asset_out: 2,
                min_amount_out: 9000
            }],
            None
        )
        .is_ok());

    // ensure swapped assets are back in users account
    let deposit = ext.deposited_amounts(&2).unwrap();
    assert_eq!(deposit.assets.get(&1).cloned(), Some(90_000));

    // remove all liquidity from the pool
    let pool = ext.pools(&1).unwrap();
    let share_balance = pool.share_balances(&1).cloned().unwrap();
    assert!(ext.remove_liquidity(Origin::Signed(1), 1, share_balance, Vec::new()).is_ok());

    let deposit_liquidity_provider = ext.deposited_amounts(&1).unwrap();

    // remove all liquidity from the exchange beneficiary's account
    let share_balance = pool.share_balances(&3).cloned().unwrap();
    assert!(ext.remove_liquidity(Origin::Signed(3), 1, share_balance, Vec::new()).is_ok());

    let exchange_deposit = ext.deposited_amounts(&3).unwrap();
    // balance of exchange and provider liquidity provider should match swapped volume
    assert_eq!(
        exchange_deposit.assets.get(&1).cloned().unwrap()
            + deposit_liquidity_provider.assets.get(&1).cloned().unwrap(),
        110_000
    );

    let swapper_deposit = ext.deposited_amounts(&2).unwrap();

    // asset balances should match total deposited volume
    assert_eq!(
        exchange_deposit.assets.get(&1).cloned().unwrap()
            + deposit_liquidity_provider.assets.get(&1).cloned().unwrap()
            + swapper_deposit.assets.get(&1).cloned().unwrap(),
        200_000
    );
    assert_eq!(
        exchange_deposit.assets.get(&2).cloned().unwrap()
            + deposit_liquidity_provider.assets.get(&2).cloned().unwrap()
            + swapper_deposit.assets.get(&2).cloned().unwrap(),
        200_000
    );
}

#[test]
fn swap_event_lists_each_step() {
    let mut ext = new_test_ext();
    assert!(ext.register_user(Origin::Signed(1)).is_ok());
    assert!(ext.register_assets(Origin::Signed(1), vec![1, 2]).is_ok());
    assert!(ext.deposit(Origin::Signed(1), 1, 100_000).is_ok());
    assert!(ext.deposit(Origin::Signed(1), 2, 100_000).is_ok());
    assert!(ext.add_basic_pool(Origin::Signed(1), vec![1, 2], 3).is_ok());
    assert!(ext
        .add_liquidity(Origin::Signed(1), 1, vec![AssetBalance::new(1, 50_000), AssetBalance::new(2, 50_000)])
        .is_ok());
    // the second step takes what the first paid out
    let r = ext.swap(
        Origin::Signed(1),
        vec![
            AssetSwap { pool_id: 1, asset_in: 1, amount_in: Some(1_000), asset_out: 2, min_amount_out: 0 },
            AssetSwap { pool_id: 1, asset_in: 2, amount_in: None, asset_out: 1, min_amount_out: 0 },
        ],
        None,
    );
    match r {
        Ok(Event::Swapped(who, infos)) => {
            assert_eq!(who, 1);
            assert_eq!(infos.len(), 2);
            assert_eq!(infos[0].amount_in, 1_000);
            assert_eq!(infos[1].amount_in, infos[0].amount_out);
        }
        _ => panic!("swap failed"),
    }
}
