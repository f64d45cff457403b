use std::collections::BTreeMap;

use asset_exchange::deposit::{ensure_unique_assets, sorted_balances, AccountDeposit};
use asset_exchange::math::integer_sqrt;
use asset_exchange::pool::{Pool, SimplePool};
use asset_exchange::types::{ensure_root, ensure_signed, AssetBalance, DispatchError, Error, Origin};

const D: u128 = 10_000;

fn filled_pool() -> SimplePool {
    let mut p = SimplePool::new(vec![1, 2], 30, 10, 5, D).unwrap();
    let mut deposits = BTreeMap::new();
    deposits.insert(1u64, 1_000_000u128);
    deposits.insert(2u64, 4_000_000u128);
    assert_eq!(p.add_liquidity(&7, &mut deposits, 1_000, D), Ok(()));
    p
}

#[test]
fn integer_square_roots() {
    assert_eq!(integer_sqrt(0), 0);
    assert_eq!(integer_sqrt(1), 1);
    assert_eq!(integer_sqrt(15), 3);
    assert_eq!(integer_sqrt(16), 4);
    assert_eq!(integer_sqrt(17), 4);
    assert_eq!(integer_sqrt(10_000_000_000), 100_000);
    assert_eq!(integer_sqrt(u128::MAX), u64::MAX as u128);
}

#[test]
fn origins() {
    assert_eq!(ensure_signed(Origin::Signed(4)), Ok(4));
    assert_eq!(ensure_signed(Origin::Root), Err(DispatchError::BadOrigin));
    assert_eq!(ensure_signed(Origin::Unsigned), Err(DispatchError::BadOrigin));
    assert_eq!(ensure_root(Origin::Root), Ok(()));
    assert_eq!(ensure_root(Origin::Signed(1)), Err(DispatchError::BadOrigin));
}

#[test]
fn new_pool_checks_fees_and_assets() {
    assert_eq!(SimplePool::new(vec![1, 2], D, 0, 0, D).err(), Some(Error::PoolFeeTooLarge));
    assert_eq!(SimplePool::new(vec![1, 2], 30, 20, 11, D).err(), Some(Error::PoolFeeTooLarge));
    assert_eq!(SimplePool::new(vec![1], 30, 10, 5, D).err(), Some(Error::InvalidPoolAssets));
    assert_eq!(SimplePool::new(vec![1, 2, 1], 30, 10, 5, D).err(), Some(Error::InvalidPoolAssets));
    let p = SimplePool::new(vec![3, 1, 2], 30, 20, 10, D).unwrap();
    assert_eq!(p.amounts, vec![0, 0, 0]);
    assert_eq!(p.assets_total_supply, 0);
    assert_eq!(p.position(&2), Some(2));
    assert_eq!(p.position(&9), None);
}

#[test]
fn first_deposit_takes_everything() {
    let p = filled_pool();
    assert_eq!(p.amounts, vec![1_000_000, 4_000_000]);
    assert_eq!(p.share_balances(&7), Some(&1_000));
    assert_eq!(p.assets_total_supply, 1_000);
}

#[test]
fn later_deposit_takes_what_the_shares_are_worth() {
    let mut p = filled_pool();
    let mut deposits = BTreeMap::new();
    deposits.insert(1u64, 500_000u128);
    deposits.insert(2u64, 1_000_000u128);
    assert_eq!(p.add_liquidity(&8, &mut deposits, 1_000, D), Ok(()));
    // asset 2 is worth 250 shares, asset 1 500: 250 shares are minted
    assert_eq!(p.share_balances(&8), Some(&250));
    assert_eq!(deposits.get(&1).cloned(), Some(250_000));
    assert_eq!(deposits.get(&2).cloned(), Some(1_000_000));
    assert_eq!(p.amounts, vec![1_250_000, 5_000_000]);
}

#[test]
fn deposit_worth_no_share_is_refused() {
    let mut p = filled_pool();
    let mut deposits = BTreeMap::new();
    deposits.insert(1u64, 10u128);
    deposits.insert(2u64, 10u128);
    assert_eq!(p.add_liquidity(&8, &mut deposits, 1_000, D), Err(Error::InvalidLiquidityDeposit));
    assert_eq!(deposits.get(&1).cloned(), Some(10));
    assert_eq!(p.amounts, vec![1_000_000, 4_000_000]);
    let mut zero = BTreeMap::new();
    zero.insert(1u64, 0u128);
    zero.insert(2u64, 100u128);
    assert_eq!(p.add_liquidity(&8, &mut zero, 1_000, D), Err(Error::InvalidLiquidityDeposit));
}

#[test]
fn pool_swap_and_return_agree() {
    let mut p = filled_pool();
    let predicted = p.get_return(&1, 100_000, &2, D).unwrap();
    // 100_000 * 9_970 * 4_000_000 / (10_000 * 1_000_000 + 100_000 * 9_970)
    assert_eq!(predicted, 362_644);
    assert_eq!(p.swap(&1, 100_000, &2, 0, Some(&1), Some(&2), D), Ok(predicted));
    assert_eq!(p.amounts, vec![1_100_000, 4_000_000 - predicted]);
    // the invariant grew by 272, worth 272_000 / 6_000_816 shares: none is minted
    assert_eq!(p.share_balances(&1), None);
    assert_eq!(p.assets_total_supply, 1_000);
}

#[test]
fn swap_fees_are_minted_as_shares() {
    let mut p = SimplePool::new(vec![1, 2], 30, 10, 5, D).unwrap();
    let mut deposits = BTreeMap::new();
    deposits.insert(1u64, 1_000_000u128);
    deposits.insert(2u64, 4_000_000u128);
    assert_eq!(p.add_liquidity(&7, &mut deposits, 1_000_000_000_000, D), Ok(()));
    assert_eq!(p.swap(&1, 100_000, &2, 0, Some(&1), Some(&2), D), Ok(362_644));
    // the invariant grew from 2_000_000 to 2_000_272: 272 * 10^12 over (2_000_272 * 30 / fee)
    assert_eq!(p.share_balances(&1), Some(&45_327_168));
    assert_eq!(p.share_balances(&2), Some(&22_663_584));
    assert_eq!(p.assets_total_supply, 1_000_000_000_000 + 45_327_168 + 22_663_584);
}

#[test]
fn pool_swap_errors_leave_pool() {
    let mut p = filled_pool();
    assert_eq!(p.swap(&1, 100, &1, 0, None, None, D), Err(Error::InvalidPoolAssets));
    assert_eq!(p.swap(&1, 100, &5, 0, None, None, D), Err(Error::AssetNotFound));
    assert_eq!(p.swap(&1, 100_000, &2, 362_645, None, None, D), Err(Error::NotEnoughBalance));
    assert_eq!(p.amounts, vec![1_000_000, 4_000_000]);
    assert_eq!(p.assets_total_supply, 1_000);
}

#[test]
fn pool_remove_liquidity() {
    let mut p = filled_pool();
    assert_eq!(p.remove_liquidity(&8, 1, &Vec::new(), D), Err(Error::NotEnoughBalance));
    assert_eq!(p.remove_liquidity(&7, 1_001, &Vec::new(), D), Err(Error::NotEnoughBalance));
    assert_eq!(p.remove_liquidity(&7, 300, &vec![300_000, 1_200_001], D), Err(Error::NotEnoughBalance));
    assert_eq!(p.remove_liquidity(&7, 300, &vec![300_000, 1_200_000], D), Ok(vec![300_000, 1_200_000]));
    assert_eq!(p.amounts, vec![700_000, 2_800_000]);
    assert_eq!(p.share_balances(&7), Some(&700));
    assert_eq!(p.remove_liquidity(&7, 700, &Vec::new(), D), Ok(vec![700_000, 2_800_000]));
    assert_eq!(p.share_balances(&7), None);
    assert_eq!(p.amounts, vec![0, 0]);
}

#[test]
fn pool_enum_delegates() {
    let pool = Pool::BasicPool(filled_pool());
    assert_eq!(pool.asset_ids(), &vec![1, 2]);
    assert_eq!(pool.share_balances(&7), Some(&1_000));
    let info = pool.info();
    assert_eq!(info.amounts, vec![1_000_000, 4_000_000]);
    assert_eq!(info.total_fee, 30);
    assert_eq!(info.shares_total_supply, 1_000);
    assert_eq!(pool.get_return(&1, 100_000, &2, D), Ok(362_644));
}

#[test]
fn unique_assets_and_listing() {
    let m = ensure_unique_assets(vec![AssetBalance::new(5, 1), AssetBalance::new(2, 3)]).unwrap();
    assert_eq!(m.len(), 2);
    assert_eq!(sorted_balances(&m), vec![AssetBalance::new(2, 3), AssetBalance::new(5, 1)]);
    assert_eq!(
        ensure_unique_assets(vec![AssetBalance::new(5, 1), AssetBalance::new(5, 3)]),
        Err(Error::DuplicateAsset)
    );
}

#[test]
fn account_deposit_arithmetic() {
    let mut d = AccountDeposit::default();
    assert_eq!(d.add(&1, 5), Err(Error::AssetNotFound));
    d.assets.insert(1, 0);
    assert_eq!(d.add(&1, 5), Ok(()));
    assert_eq!(d.can_sub(&1, 6), Err(Error::NotEnoughBalance));
    assert_eq!(d.can_sub(&1, 5), Ok(0));
    assert_eq!(d.sub(&1, 2), Ok(3));
    assert_eq!(d.assets.get(&1).cloned(), Some(3));
    assert_eq!(d.add(&1, u128::MAX), Err(Error::StorageOverflow));
    assert_eq!(d.credit(&4, 9), Ok(()));
    assert_eq!(d.assets.get(&4).cloned(), Some(9));
}
