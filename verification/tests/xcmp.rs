use asset_exchange::exchange::{Config as ExchangeConfig, GenesisConfig, Pallet as Exchange};
use asset_exchange::types::Origin;
use asset_exchange::xcm::{Junction, MultiAsset, MultiLocation, NetworkId, Order, Xcm, XcmError};
use asset_exchange::xcmp::{
    finish_transfer, matches_fungible, relay_chain_transfer_message, send_transfer, transfer_asset_to_parachain,
    transfer_relay_chain_assets_to_parachain, AssetIdConverter, ChainId, Config, Error, Event, Pallet,
    TransactError, U128BalanceConverter, XAssetId, XcmpDispatchError,
};

const RELAY_ASSET: u64 = 100;
const OWN_PARA: u32 = 2_000;

fn decode_key(key: &Vec<u8>) -> Option<u64> {
    if key.len() == 1 {
        Some(key[0] as u64)
    } else {
        None
    }
}

fn account_of(l: &MultiLocation) -> Option<u64> {
    match l {
        MultiLocation::X1(Junction::AccountIndex64 { index, .. }) => Some(*index),
        _ => None,
    }
}

fn asset_id_of(a: &MultiAsset) -> Option<u64> {
    AssetIdConverter { relay_chain_asset_id: RELAY_ASSET }.from_asset(a, &decode_key)
}

fn from_relay(x: u128) -> u128 {
    x * 2
}

fn key_location(key: u8) -> MultiLocation {
    MultiLocation::X2(Junction::Parachain { id: 7 }, Junction::GeneralKey(vec![key]))
}

fn user_location(index: u64) -> MultiLocation {
    MultiLocation::X1(Junction::AccountIndex64 { network: NetworkId::Any, index })
}

fn xcmp() -> Pallet {
    Pallet {
        config: Config { relay_chain_network_id: NetworkId::Polkadot, relay_chain_asset_id: RELAY_ASSET, para_id: OWN_PARA },
    }
}

/// An exchange where account 1 has registered assets 7 and the relay chain asset.
fn exchange() -> Exchange {
    let config = ExchangeConfig {
        max_pool_limit: 10,
        fee_divisor: 10_000,
        exchange_fee: 25,
        referral_fee: 0,
        min_native_asset_amount: 0,
        min_parachain_asset_amount: 0,
        init_shares_supply: 1_000_000,
    };
    let genesis = GenesisConfig { allowed_assets: vec![7, RELAY_ASSET], exchange_account: None };
    let mut ext = Exchange::new(config, &genesis);
    assert!(ext.register_user(Origin::Signed(1)).is_ok());
    assert!(ext.register_assets(Origin::Signed(1), vec![7, RELAY_ASSET]).is_ok());
    ext
}

fn balance(ext: &Exchange, who: u64, asset: u64) -> u128 {
    ext.deposited_amounts(&who).unwrap().assets.get(&asset).cloned().unwrap()
}

#[test]
fn balances_convert_unchanged() {
    assert_eq!(U128BalanceConverter::convert(0), 0);
    assert_eq!(U128BalanceConverter::convert(123_456), 123_456);
}

#[test]
fn currency_location_is_its_key() {
    let id = XAssetId { chain_id: ChainId::ParaChain(5), currency_id: vec![1, 2, 3] };
    assert_eq!(id.into_location(), MultiLocation::X1(Junction::GeneralKey(vec![1, 2, 3])));
}

#[test]
fn location_last_and_relay() {
    assert!(MultiLocation::X1(Junction::Parent).is_relay());
    assert!(!MultiLocation::X2(Junction::Parent, Junction::Parent).is_relay());
    assert!(!MultiLocation::Null.is_relay());
    assert_eq!(MultiLocation::Null.last(), None);
    assert_eq!(key_location(4).last(), Some(&Junction::GeneralKey(vec![4])));
}

#[test]
fn asset_ids_from_assets() {
    let c = AssetIdConverter { relay_chain_asset_id: RELAY_ASSET };
    let relay = MultiAsset::ConcreteFungible { id: MultiLocation::X1(Junction::Parent), amount: 5 };
    assert_eq!(c.from_asset(&relay, &decode_key), Some(RELAY_ASSET));
    let keyed = MultiAsset::ConcreteFungible { id: key_location(9), amount: 5 };
    assert_eq!(c.from_asset(&keyed, &decode_key), Some(9));
    let long_key = MultiAsset::ConcreteFungible {
        id: MultiLocation::X1(Junction::GeneralKey(vec![1, 2])),
        amount: 5,
    };
    assert_eq!(c.from_asset(&long_key, &decode_key), None);
    let parachain = MultiAsset::ConcreteFungible { id: MultiLocation::X1(Junction::Parachain { id: 3 }), amount: 5 };
    assert_eq!(c.from_asset(&parachain, &decode_key), None);
    assert_eq!(c.from_asset(&MultiAsset::All, &decode_key), None);
    let abstract_asset = MultiAsset::AbstractFungible { id: vec![9], amount: 5 };
    assert_eq!(c.from_asset(&abstract_asset, &decode_key), None);
}

#[test]
fn fungible_amounts() {
    let relay = MultiAsset::ConcreteFungible { id: MultiLocation::X1(Junction::Parent), amount: 21 };
    assert_eq!(matches_fungible(&relay, &from_relay), Some(42));
    let keyed = MultiAsset::ConcreteFungible { id: key_location(9), amount: 21 };
    assert_eq!(matches_fungible(&keyed, &from_relay), Some(21));
    let parachain = MultiAsset::ConcreteFungible { id: MultiLocation::X1(Junction::Parachain { id: 3 }), amount: 21 };
    assert_eq!(matches_fungible(&parachain, &from_relay), None);
    assert_eq!(matches_fungible(&MultiAsset::AllFungible, &from_relay), None);
}

#[test]
fn transact_errors_are_named() {
    assert_eq!(XcmError::from(TransactError::FailedToMatchAsset), XcmError::FailedToTransactAsset("FailedToMatchAsset"));
    assert_eq!(
        XcmError::from(TransactError::AccountIdConversionFailed),
        XcmError::FailedToTransactAsset("AccountIdConversionFailed")
    );
    assert_eq!(
        XcmError::from(TransactError::AssetIdConversionFailed),
        XcmError::FailedToTransactAsset("AssetIdConversionFailed")
    );
    assert_eq!(XcmError::from(TransactError::NotEnoughBalance), XcmError::FailedToTransactAsset("NotEnoughBalance"));
    assert_eq!(XcmError::from(TransactError::BalanceOverflow), XcmError::FailedToTransactAsset("BalanceOverflow"));
}

#[test]
fn deposit_then_withdraw_asset() {
    let p = xcmp();
    let mut ext = exchange();
    let what = MultiAsset::ConcreteFungible { id: key_location(7), amount: 500 };
    assert_eq!(p.deposit_asset(&mut ext, &what, &user_location(1), &account_of, &asset_id_of, &from_relay), Ok(()));
    assert_eq!(balance(&ext, 1, 7), 500);
    let part = MultiAsset::ConcreteFungible { id: key_location(7), amount: 200 };
    assert_eq!(
        p.withdraw_asset(&mut ext, &part, &user_location(1), &account_of, &asset_id_of, &from_relay),
        Ok(part.clone())
    );
    assert_eq!(balance(&ext, 1, 7), 300);
    let too_much = MultiAsset::ConcreteFungible { id: key_location(7), amount: 301 };
    assert_eq!(
        p.withdraw_asset(&mut ext, &too_much, &user_location(1), &account_of, &asset_id_of, &from_relay),
        Err(XcmError::FailedToTransactAsset("NotEnoughBalance"))
    );
    assert_eq!(balance(&ext, 1, 7), 300);
}

#[test]
fn relay_deposit_is_converted() {
    let p = xcmp();
    let mut ext = exchange();
    let what = MultiAsset::ConcreteFungible { id: MultiLocation::X1(Junction::Parent), amount: 50 };
    assert_eq!(p.deposit_asset(&mut ext, &what, &user_location(1), &account_of, &asset_id_of, &from_relay), Ok(()));
    assert_eq!(balance(&ext, 1, RELAY_ASSET), 100);
}

#[test]
fn deposit_asset_errors() {
    let p = xcmp();
    let mut ext = exchange();
    let what = MultiAsset::ConcreteFungible { id: key_location(7), amount: 500 };
    assert_eq!(
        p.deposit_asset(&mut ext, &what, &MultiLocation::Null, &account_of, &asset_id_of, &from_relay),
        Err(XcmError::FailedToTransactAsset("AccountIdConversionFailed"))
    );
    assert_eq!(
        p.deposit_asset(&mut ext, &MultiAsset::All, &user_location(1), &account_of, &asset_id_of, &from_relay),
        Err(XcmError::FailedToTransactAsset("AssetIdConversionFailed"))
    );
    // an account the exchange does not know, or an asset it did not register, cannot be credited
    assert_eq!(
        p.deposit_asset(&mut ext, &what, &user_location(2), &account_of, &asset_id_of, &from_relay),
        Err(XcmError::FailedToTransactAsset("BalanceOverflow"))
    );
    let unregistered = MultiAsset::ConcreteFungible { id: key_location(8), amount: 1 };
    assert_eq!(
        p.deposit_asset(&mut ext, &unregistered, &user_location(1), &account_of, &asset_id_of, &from_relay),
        Err(XcmError::FailedToTransactAsset("BalanceOverflow"))
    );
    let huge = MultiAsset::ConcreteFungible { id: key_location(7), amount: u128::MAX };
    assert_eq!(p.deposit_asset(&mut ext, &huge, &user_location(1), &account_of, &asset_id_of, &from_relay), Ok(()));
    let one = MultiAsset::ConcreteFungible { id: key_location(7), amount: 1 };
    assert_eq!(
        p.deposit_asset(&mut ext, &one, &user_location(1), &account_of, &asset_id_of, &from_relay),
        Err(XcmError::FailedToTransactAsset("BalanceOverflow"))
    );
    assert_eq!(balance(&ext, 1, 7), u128::MAX);
}

fn location_of(who: u64) -> Option<MultiLocation> {
    if who < 10 {
        Some(user_location(who))
    } else {
        None
    }
}

fn to_relay(b: u128) -> u128 {
    b / 2
}

fn account32_of(who: u64) -> [u8; 32] {
    [who as u8; 32]
}

fn asset_location_of(asset: u64) -> MultiLocation {
    key_location(asset as u8)
}

#[test]
fn transfer_to_relay_chain() {
    let p = xcmp();
    assert!(matches!(
        p.transfer_balance_to_relay_chain(Origin::Unsigned, 3, 10, &location_of, &to_relay, &account32_of),
        Err(XcmpDispatchError::BadOrigin)
    ));
    assert!(matches!(
        p.transfer_balance_to_relay_chain(Origin::Signed(11), 3, 10, &location_of, &to_relay, &account32_of),
        Err(XcmpDispatchError::Module(Error::BadXcmOrigin))
    ));
    let t = p.transfer_balance_to_relay_chain(Origin::Signed(1), 3, 10, &location_of, &to_relay, &account32_of).unwrap();
    assert_eq!(t.origin, user_location(1));
    assert_eq!(t.event, Event::TransferredToRelayChain(1, 3, 10));
    match t.message {
        Xcm::WithdrawAsset { assets, effects } => {
            assert_eq!(assets, vec![MultiAsset::ConcreteFungible { id: MultiLocation::X1(Junction::Parent), amount: 5 }]);
            assert_eq!(effects.len(), 1);
            match &effects[0] {
                Order::InitiateReserveWithdraw { assets, reserve, effects } => {
                    assert_eq!(assets, &vec![MultiAsset::All]);
                    assert_eq!(reserve, &MultiLocation::X1(Junction::Parent));
                    match &effects[0] {
                        Order::DepositAsset { assets, dest } => {
                            assert_eq!(assets, &vec![MultiAsset::All]);
                            assert_eq!(
                                dest,
                                &MultiLocation::X1(Junction::AccountId32 { network: NetworkId::Polkadot, id: [3; 32] })
                            );
                        }
                        other => panic!("unexpected {:?}", other),
                    }
                }
                other => panic!("unexpected {:?}", other),
            }
        }
    }
}

#[test]
fn transfer_to_own_parachain_sends_nothing() {
    let p = xcmp();
    let r = p
        .transfer_balance_to_parachain(Origin::Signed(1), 7, OWN_PARA, user_location(4), 10, &location_of, &to_relay, &asset_location_of)
        .unwrap();
    assert!(r.is_none());
    assert!(matches!(
        p.transfer_balance_to_parachain(Origin::Root, 7, 5, user_location(4), 10, &location_of, &to_relay, &asset_location_of),
        Err(XcmpDispatchError::BadOrigin)
    ));
}

#[test]
fn transfer_of_relay_asset_to_parachain() {
    let p = xcmp();
    let t = p
        .transfer_balance_to_parachain(Origin::Signed(1), RELAY_ASSET, 5, user_location(4), 10, &location_of, &to_relay, &asset_location_of)
        .unwrap()
        .unwrap();
    assert_eq!(t.event, Event::TransferredToParachain(RELAY_ASSET, 1, 5, user_location(4), 10));
    match t.message {
        Xcm::WithdrawAsset { assets, effects } => {
            assert_eq!(assets, vec![MultiAsset::ConcreteFungible { id: MultiLocation::X1(Junction::Parent), amount: 5 }]);
            match &effects[0] {
                Order::InitiateReserveWithdraw { effects, .. } => match &effects[0] {
                    Order::DepositReserveAsset { dest, effects, .. } => {
                        assert_eq!(dest, &MultiLocation::X1(Junction::Parachain { id: 5 }));
                        assert_eq!(effects.len(), 1);
                    }
                    other => panic!("unexpected {:?}", other),
                },
                other => panic!("unexpected {:?}", other),
            }
        }
    }
}

#[test]
fn transfer_of_parachain_asset_to_parachain() {
    let p = xcmp();
    let t = p
        .transfer_balance_to_parachain(Origin::Signed(1), 7, 5, user_location(4), 10, &location_of, &to_relay, &asset_location_of)
        .unwrap()
        .unwrap();
    match t.message {
        Xcm::WithdrawAsset { assets, effects } => {
            assert_eq!(assets, vec![MultiAsset::ConcreteFungible { id: key_location(7), amount: 5 }]);
            match &effects[0] {
                Order::DepositReserveAsset { dest, .. } => {
                    assert_eq!(dest, &MultiLocation::X2(Junction::Parent, Junction::Parachain { id: 5 }));
                }
                other => panic!("unexpected {:?}", other),
            }
        }
    }
}

#[test]
fn message_builders() {
    match relay_chain_transfer_message(user_location(1), 9) {
        Xcm::WithdrawAsset { assets, effects } => {
            assert_eq!(assets.len(), 1);
            assert_eq!(effects.len(), 1);
        }
    }
    match transfer_relay_chain_assets_to_parachain(3, user_location(1), 9) {
        Xcm::WithdrawAsset { assets, .. } => {
            assert_eq!(assets, vec![MultiAsset::ConcreteFungible { id: MultiLocation::X1(Junction::Parent), amount: 9 }]);
        }
    }
    match transfer_asset_to_parachain(key_location(2), 3, user_location(1), 9) {
        Xcm::WithdrawAsset { assets, .. } => {
            assert_eq!(assets, vec![MultiAsset::ConcreteFungible { id: key_location(2), amount: 9 }]);
        }
    }
}

#[test]
fn finishing_a_transfer() {
    let event = Event::TransferredToRelayChain(1, 3, 10);
    assert_eq!(finish_transfer::<()>(event.clone(), Ok(())), Ok(event.clone()));
    assert_eq!(
        finish_transfer(event, Err("no route")),
        Err(XcmpDispatchError::Module(Error::FailedToSend))
    );
}

#[test]
fn sending_a_transfer_runs_its_message_once() {
    let p = xcmp();
    let t = p.transfer_balance_to_relay_chain(Origin::Signed(1), 3, 10, &location_of, &to_relay, &account32_of).unwrap();
    let mut seen = Vec::new();
    let r = send_transfer(t, |origin: MultiLocation, message: Xcm| -> Result<(), ()> {
        seen.push((origin, matches!(message, Xcm::WithdrawAsset { .. })));
        Ok(())
    });
    assert_eq!(r, Ok(Event::TransferredToRelayChain(1, 3, 10)));
    assert_eq!(seen, vec![(user_location(1), true)]);

    let t = p.transfer_balance_to_relay_chain(Origin::Signed(1), 3, 10, &location_of, &to_relay, &account32_of).unwrap();
    let r = send_transfer(t, |_: MultiLocation, _: Xcm| -> Result<(), &str> { Err("barrier") });
    assert_eq!(r, Err(XcmpDispatchError::Module(Error::FailedToSend)));
}
