use vstd::prelude::*;
use crate::exchange::{credit_outcome, withdraw_outcome, ExchangeState, Pallet as Exchange};
use crate::types::{signer, AccountId, AssetId, Balance, Origin};
use crate::xcm::{
    is_relay_location, last_junction, Junction, JunctionView, MultiAsset, MultiLocation, NetworkId,
    Order, ParaId, Xcm, XcmError,
};

verus! {

/// Identity of chain.
#[derive(Clone, Copy, Debug, PartialEq, Eq, Structural)]
pub enum ChainId {
    /// The relay chain.
    RelayChain,
    /// A parachain.
    ParaChain(ParaId),
}

/// Identity of cross chain currency.
#[derive(Clone, Debug, PartialEq, Eq)]
pub struct XAssetId {
    /// The reserve chain of the currency. For instance, the reserve chain
    /// of DOT is Polkadot.
    pub chain_id: ChainId,
    /// The identity of the currency.
    pub currency_id: Vec<u8>,
}

impl XAssetId {
    /// The location of the currency: its identity as a general key.
    pub fn into_location(self) -> (r: MultiLocation)
        ensures
            r == MultiLocation::X1(Junction::GeneralKey(self.currency_id)),
    {
        MultiLocation::X1(Junction::GeneralKey(self.currency_id))
    }
}

/// Helper Converter
pub struct U128BalanceConverter;

impl U128BalanceConverter {
    /// Converts a relay chain amount to a local one, unchanged.
    pub fn convert(a: u128) -> (r: u128)
        ensures
            r == a,
    {
        a
    }
}

/// Converts relay chain tokens, or parachain assets whose identifier can be decoded from a
/// general key, to the exchange's asset identifiers.
pub struct AssetIdConverter {
    /// The relaychain's asset ID.
    pub relay_chain_asset_id: AssetId,
}

/// `r` is what `AssetIdConverter::from_asset` gives for `asset`, keys being decoded by
/// `key_to_asset_id`.
pub open spec fn from_asset_result<F: Fn(&Vec<u8>) -> Option<AssetId>>(
    relay_chain_asset_id: AssetId,
    asset: MultiAsset,
    key_to_asset_id: F,
    r: Option<AssetId>,
) -> bool {
    match asset {
        MultiAsset::ConcreteFungible { id, .. } => if is_relay_location(id) {
            r == Some(relay_chain_asset_id)
        } else {
            match last_junction(id) {
                Some(Junction::GeneralKey(key)) => key_to_asset_id.ensures((&key,), r),
                _ => r is None,
            }
        },
        _ => r is None,
    }
}

impl AssetIdConverter {
    /// Get `AssetId` from `MultiAsset`. Returns `None` if conversion failed.
    pub fn from_asset<F: Fn(&Vec<u8>) -> Option<AssetId>>(&self, asset: &MultiAsset, key_to_asset_id: &F) -> (r: Option<AssetId>)
        requires
            forall|k: &Vec<u8>| #[trigger] key_to_asset_id.requires((k,)),
        ensures
            from_asset_result(self.relay_chain_asset_id, *asset, *key_to_asset_id, r),
    {
        if let MultiAsset::ConcreteFungible { id: location, .. } = asset {
            if location.is_relay() {
                return Some(self.relay_chain_asset_id);
            }
            if let Some(Junction::GeneralKey(key)) = location.last() {
                return key_to_asset_id(key);
            }
        }
        None
    }
}

/// `r` is the amount `matches_fungible` gives for `asset`, relay chain amounts being
/// converted by `from_relay`.
pub open spec fn fungible_result<F: Fn(u128) -> Balance>(asset: MultiAsset, from_relay: F, r: Option<Balance>) -> bool {
    match asset {
        MultiAsset::ConcreteFungible { id, amount } => if is_relay_location(id) {
            r is Some && from_relay.ensures((amount,), r->0)
        } else if last_junction(id) matches Some(Junction::GeneralKey(_)) {
            r == Some(amount)
        } else {
            r is None
        },
        _ => r is None,
    }
}

/// The amount of a fungible asset of the relay chain, converted by `from_relay`, or of a
/// parachain asset named by a general key; `None` for every other asset.
pub fn matches_fungible<F: Fn(u128) -> Balance>(a: &MultiAsset, from_relay: &F) -> (r: Option<Balance>)
    requires
        forall|x: u128| #[trigger] from_relay.requires((x,)),
    ensures
        fungible_result(*a, *from_relay, r),
{
    if let MultiAsset::ConcreteFungible { id, amount } = a {
        if id.is_relay() {
            let local_amount = from_relay(*amount);
            return Some(local_amount);
        }
        if let Some(Junction::GeneralKey(_)) = id.last() {
            return Some(*amount);
        }
    }
    None
}

/// Asset transaction errors.
#[derive(Clone, Copy, Debug, PartialEq, Eq, Structural)]
pub enum TransactError {
    /// Failed to match asset.
    FailedToMatchAsset,
    /// `MultiLocation` to `AccountId` Conversion failed.
    AccountIdConversionFailed,
    /// `AssetId` conversion failed.
    AssetIdConversionFailed,
    /// Failed to withdraw due lack of funds
    NotEnoughBalance,
    /// Failed to add to balance
    BalanceOverflow,
}

/// The cross-consensus error reporting a transaction error.
pub open spec fn xcm_error_of(err: TransactError) -> XcmError {
    match err {
        TransactError::FailedToMatchAsset => XcmError::FailedToTransactAsset("FailedToMatchAsset"),
        TransactError::AccountIdConversionFailed => XcmError::FailedToTransactAsset("AccountIdConversionFailed"),
        TransactError::AssetIdConversionFailed => XcmError::FailedToTransactAsset("AssetIdConversionFailed"),
        TransactError::NotEnoughBalance => XcmError::FailedToTransactAsset("NotEnoughBalance"),
        TransactError::BalanceOverflow => XcmError::FailedToTransactAsset("BalanceOverflow"),
    }
}

impl From<TransactError> for XcmError {
    fn from(err: TransactError) -> (r: XcmError) {
        match err {
            TransactError::FailedToMatchAsset => XcmError::FailedToTransactAsset("FailedToMatchAsset"),
            TransactError::AccountIdConversionFailed => {
                XcmError::FailedToTransactAsset("AccountIdConversionFailed")
            },
            TransactError::AssetIdConversionFailed => {
                XcmError::FailedToTransactAsset("AssetIdConversionFailed")
            },
            TransactError::NotEnoughBalance => XcmError::FailedToTransactAsset("NotEnoughBalance"),
            TransactError::BalanceOverflow => XcmError::FailedToTransactAsset("BalanceOverflow"),
        }
    }
}

impl vstd::std_specs::convert::FromSpecImpl<TransactError> for XcmError {
    open spec fn obeys_from_spec() -> bool {
        true
    }

    open spec fn from_spec(v: TransactError) -> XcmError {
        xcm_error_of(v)
    }
}

} // verus!

verus! {

/// The parameters of cross-chain transfers.
#[derive(Clone, Debug)]
pub struct Config {
    /// The network id of relay chain. Typically `NetworkId::Polkadot` or `NetworkId::Kusama`.
    pub relay_chain_network_id: NetworkId,
    /// The relaychain's asset ID.
    pub relay_chain_asset_id: AssetId,
    /// Own parachain ID.
    pub para_id: ParaId,
}

/// Errors of cross-chain transfers.
#[derive(Clone, Copy, Debug, PartialEq, Eq, Structural)]
pub enum Error {
    /// Thrown when no `MultiLocation` could be derived from the sender
    BadXcmOrigin,
    /// Failed to send XCM message.
    FailedToSend,
}

/// Why a cross-chain transfer was refused.
#[derive(Clone, Copy, Debug, PartialEq, Eq, Structural)]
pub enum XcmpDispatchError {
    /// The call was not signed.
    BadOrigin,
    /// The transfer was refused.
    Module(Error),
}

/// Events of cross-chain transfers.
#[derive(Clone, Debug, PartialEq, Eq)]
pub enum Event {
    /// Transferred relay chain asset to relay chain. [src, dest, amount]
    TransferredToRelayChain(AccountId, AccountId, Balance),
    /// Transferred to parachain. [asset_id, src, para_id, dest, amount]
    TransferredToParachain(AssetId, AccountId, ParaId, MultiLocation, Balance),
    /// Transferred custom asset to the account from the given para chain account.
    DepositAssetViaXCMP(ParaId, AssetId, AccountId, AssetId, Balance),
}

/// A message to execute on behalf of `origin`, and the event to emit once it has run.
pub struct Transfer {
    pub origin: MultiLocation,
    pub message: Xcm,
    pub event: Event,
}

/// Cross-chain transfers of the exchange's assets.
pub struct Pallet {
    pub config: Config,
}

/// The outcome of depositing `amount` of `asset` to the account `who`, as the results of the
/// conversions of the incoming location and asset.
pub open spec fn transact_deposit_outcome(s: ExchangeState, who: Option<AccountId>, asset: Option<AssetId>, amount: Option<Balance>) -> Result<ExchangeState, TransactError> {
    match who {
        None => Err(TransactError::AccountIdConversionFailed),
        Some(w) => match asset {
            None => Err(TransactError::AssetIdConversionFailed),
            Some(a) => match amount {
                None => Err(TransactError::FailedToMatchAsset),
                Some(x) => match credit_outcome(s, w, a, x) {
                    Err(_) => Err(TransactError::BalanceOverflow),
                    Ok(s2) => Ok(s2),
                },
            },
        },
    }
}

/// The outcome of withdrawing `amount` of `asset` from the account `who`, as the results of
/// the conversions of the outgoing location and asset.
pub open spec fn transact_withdraw_outcome(s: ExchangeState, who: Option<AccountId>, asset: Option<AssetId>, amount: Option<Balance>) -> Result<ExchangeState, TransactError> {
    match who {
        None => Err(TransactError::AccountIdConversionFailed),
        Some(w) => match asset {
            None => Err(TransactError::AssetIdConversionFailed),
            Some(a) => match amount {
                None => Err(TransactError::FailedToMatchAsset),
                Some(x) => match withdraw_outcome(s, w, a, x) {
                    Err(_) => Err(TransactError::NotEnoughBalance),
                    Ok(s2) => Ok(s2),
                },
            },
        },
    }
}


/// The conversions of `location` and `what` gave `w`, `a` and `x`, and the deposit of `x` of asset
/// `a` for `w` gave the result `r` and the state `s1` from `s0`.
pub open spec fn deposit_asset_holds<FA, FK, FR>(
    account_of: FA,
    asset_id_of: FK,
    from_relay: FR,
    what: MultiAsset,
    location: MultiLocation,
    s0: ExchangeState,
    s1: ExchangeState,
    r: Result<(), XcmError>,
    w: Option<AccountId>,
    a: Option<AssetId>,
    x: Option<Balance>,
) -> bool
    where
        FA: Fn(&MultiLocation) -> Option<AccountId>,
        FK: Fn(&MultiAsset) -> Option<AssetId>,
        FR: Fn(u128) -> Balance,
{
    &&& account_of.ensures((&location,), w)
    &&& w is Some ==> asset_id_of.ensures((&what,), a)
    &&& w is Some && a is Some ==> fungible_result(what, from_relay, x)
    &&& match transact_deposit_outcome(s0, w, a, x) {
        Err(e) => r == Err::<(), XcmError>(xcm_error_of(e)) && s1 == s0,
        Ok(s) => r is Ok && s1 == s,
    }
}


/// The conversions of `location` and `what` gave `w`, `a` and `x`, and the withdraw of `x` of asset
/// `a` for `w` gave the result `r` and the state `s1` from `s0`.
pub open spec fn withdraw_asset_holds<FA, FK, FR>(
    account_of: FA,
    asset_id_of: FK,
    from_relay: FR,
    what: MultiAsset,
    location: MultiLocation,
    s0: ExchangeState,
    s1: ExchangeState,
    r: Result<MultiAsset, XcmError>,
    w: Option<AccountId>,
    a: Option<AssetId>,
    x: Option<Balance>,
) -> bool
    where
        FA: Fn(&MultiLocation) -> Option<AccountId>,
        FK: Fn(&MultiAsset) -> Option<AssetId>,
        FR: Fn(u128) -> Balance,
{
    &&& account_of.ensures((&location,), w)
    &&& w is Some ==> asset_id_of.ensures((&what,), a)
    &&& w is Some && a is Some ==> fungible_result(what, from_relay, x)
    &&& match transact_withdraw_outcome(s0, w, a, x) {
        Err(e) => r == Err::<MultiAsset, XcmError>(xcm_error_of(e)) && s1 == s0,
        Ok(s) => r is Ok && r->Ok_0@ == what@ && s1 == s,
    }
}

impl Pallet {
    /// Deposits the incoming asset `what` into the exchange account of the owner of
    /// `location`.
    ///
    /// `account_of` converts locations to accounts, `asset_id_of` converts assets to the
    /// exchange's asset identifiers (as `AssetIdConverter::from_asset` does), and `from_relay`
    /// converts relay chain amounts.
    pub fn deposit_asset<FA, FK, FR>(
        &self,
        exchange: &mut Exchange,
        what: &MultiAsset,
        location: &MultiLocation,
        account_of: &FA,
        asset_id_of: &FK,
        from_relay: &FR,
    ) -> (r: Result<(), XcmError>)
        where
            FA: Fn(&MultiLocation) -> Option<AccountId>,
            FK: Fn(&MultiAsset) -> Option<AssetId>,
            FR: Fn(u128) -> Balance,
        requires
            forall|l: &MultiLocation| #[trigger] account_of.requires((l,)),
            forall|k: &MultiAsset| #[trigger] asset_id_of.requires((k,)),
            forall|x: u128| #[trigger] from_relay.requires((x,)),
        ensures
            exists|w: Option<AccountId>, a: Option<AssetId>, x: Option<Balance>| #[trigger] deposit_asset_holds(
                *account_of, *asset_id_of, *from_relay, *what, *location,
                old(exchange)@, final(exchange)@, r, w, a, x),
    {
        let who = match account_of(location) {
            Some(w) => w,
            None => {
                assert(transact_deposit_outcome(old(exchange)@, None, None, None) == Err::<ExchangeState, TransactError>(TransactError::AccountIdConversionFailed));
                let r: Result<(), XcmError> = Err(XcmError::from(TransactError::AccountIdConversionFailed));
                assert(deposit_asset_holds(*account_of, *asset_id_of, *from_relay, *what, *location, old(exchange)@, exchange@, r, None, None, None));
                return r;
            },
        };
        let ghost w = Some(who);
        let asset_id = match asset_id_of(what) {
            Some(a) => a,
            None => {
                assert(transact_deposit_outcome(old(exchange)@, w, None, None) == Err::<ExchangeState, TransactError>(TransactError::AssetIdConversionFailed));
                let r: Result<(), XcmError> = Err(XcmError::from(TransactError::AssetIdConversionFailed));
                assert(deposit_asset_holds(*account_of, *asset_id_of, *from_relay, *what, *location, old(exchange)@, exchange@, r, w, None, None));
                return r;
            },
        };
        let ghost a = Some(asset_id);
        let amount = match matches_fungible(what, from_relay) {
            Some(x) => x,
            None => {
                assert(transact_deposit_outcome(old(exchange)@, w, a, None) == Err::<ExchangeState, TransactError>(TransactError::FailedToMatchAsset));
                let r: Result<(), XcmError> = Err(XcmError::from(TransactError::FailedToMatchAsset));
                assert(deposit_asset_holds(*account_of, *asset_id_of, *from_relay, *what, *location, old(exchange)@, exchange@, r, w, a, None));
                return r;
            },
        };
        let ghost x = Some(amount);
        match exchange.deposit_asset_balance(&who, &asset_id, amount) {
            Ok(()) => {
                assert(transact_deposit_outcome(old(exchange)@, w, a, x) == Ok::<ExchangeState, TransactError>(exchange@));
                let r: Result<(), XcmError> = Ok(());
                assert(deposit_asset_holds(*account_of, *asset_id_of, *from_relay, *what, *location, old(exchange)@, exchange@, r, w, a, x));
                r
            },
            Err(_) => {
                assert(transact_deposit_outcome(old(exchange)@, w, a, x) == Err::<ExchangeState, TransactError>(TransactError::BalanceOverflow));
                let r: Result<(), XcmError> = Err(XcmError::from(TransactError::BalanceOverflow));
                assert(deposit_asset_holds(*account_of, *asset_id_of, *from_relay, *what, *location, old(exchange)@, exchange@, r, w, a, x));
                r
            },
        }
    }

    /// Withdraws the outgoing asset `what` from the exchange account of the owner of
    /// `location`, and returns the asset.
    ///
    /// `account_of` converts locations to accounts, `asset_id_of` converts assets to the
    /// exchange's asset identifiers (as `AssetIdConverter::from_asset` does), and `from_relay`
    /// converts relay chain amounts.
    pub fn withdraw_asset<FA, FK, FR>(
        &self,
        exchange: &mut Exchange,
        what: &MultiAsset,
        location: &MultiLocation,
        account_of: &FA,
        asset_id_of: &FK,
        from_relay: &FR,
    ) -> (r: Result<MultiAsset, XcmError>)
        where
            FA: Fn(&MultiLocation) -> Option<AccountId>,
            FK: Fn(&MultiAsset) -> Option<AssetId>,
            FR: Fn(u128) -> Balance,
        requires
            forall|l: &MultiLocation| #[trigger] account_of.requires((l,)),
            forall|k: &MultiAsset| #[trigger] asset_id_of.requires((k,)),
            forall|x: u128| #[trigger] from_relay.requires((x,)),
        ensures
            exists|w: Option<AccountId>, a: Option<AssetId>, x: Option<Balance>| #[trigger] withdraw_asset_holds(
                *account_of, *asset_id_of, *from_relay, *what, *location,
                old(exchange)@, final(exchange)@, r, w, a, x),
    {
        let who = match account_of(location) {
            Some(w) => w,
            None => {
                assert(transact_withdraw_outcome(old(exchange)@, None, None, None) == Err::<ExchangeState, TransactError>(TransactError::AccountIdConversionFailed));
                let r: Result<MultiAsset, XcmError> = Err(XcmError::from(TransactError::AccountIdConversionFailed));
                assert(withdraw_asset_holds(*account_of, *asset_id_of, *from_relay, *what, *location, old(exchange)@, exchange@, r, None, None, None));
                return r;
            },
        };
        let ghost w = Some(who);
        let asset_id = match asset_id_of(what) {
            Some(a) => a,
            None => {
                assert(transact_withdraw_outcome(old(exchange)@, w, None, None) == Err::<ExchangeState, TransactError>(TransactError::AssetIdConversionFailed));
                let r: Result<MultiAsset, XcmError> = Err(XcmError::from(TransactError::AssetIdConversionFailed));
                assert(withdraw_asset_holds(*account_of, *asset_id_of, *from_relay, *what, *location, old(exchange)@, exchange@, r, w, None, None));
                return r;
            },
        };
        let ghost a = Some(asset_id);
        let amount = match matches_fungible(what, from_relay) {
            Some(x) => x,
            None => {
                assert(transact_withdraw_outcome(old(exchange)@, w, a, None) == Err::<ExchangeState, TransactError>(TransactError::FailedToMatchAsset));
                let r: Result<MultiAsset, XcmError> = Err(XcmError::from(TransactError::FailedToMatchAsset));
                assert(withdraw_asset_holds(*account_of, *asset_id_of, *from_relay, *what, *location, old(exchange)@, exchange@, r, w, a, None));
                return r;
            },
        };
        let ghost x = Some(amount);
        match exchange.withdraw_asset_balance(&who, &asset_id, amount) {
            Ok(()) => {
                assert(transact_withdraw_outcome(old(exchange)@, w, a, x) == Ok::<ExchangeState, TransactError>(exchange@));
                let r: Result<MultiAsset, XcmError> = Ok(what.copy());
                assert(withdraw_asset_holds(*account_of, *asset_id_of, *from_relay, *what, *location, old(exchange)@, exchange@, r, w, a, x));
                r
            },
            Err(_) => {
                assert(transact_withdraw_outcome(old(exchange)@, w, a, x) == Err::<ExchangeState, TransactError>(TransactError::NotEnoughBalance));
                let r: Result<MultiAsset, XcmError> = Err(XcmError::from(TransactError::NotEnoughBalance));
                assert(withdraw_asset_holds(*account_of, *asset_id_of, *from_relay, *what, *location, old(exchange)@, exchange@, r, w, a, x));
                r
            },
        }
    }
}

} // verus!

verus! {

/// A single order on all assets held.
pub open spec fn is_all(assets: Vec<MultiAsset>) -> bool {
    assets@.len() == 1 && assets@[0] is All
}

/// A single amount of the relay chain currency.
pub open spec fn is_relay_amount(assets: Vec<MultiAsset>, amount: u128) -> bool {
    &&& assets@.len() == 1
    &&& assets@[0] matches MultiAsset::ConcreteFungible { id, amount: a }
    &&& is_relay_location(id)
    &&& a == amount
}

/// A single amount of the asset at `location`.
pub open spec fn is_asset_amount(assets: Vec<MultiAsset>, location: Seq<JunctionView>, amount: u128) -> bool {
    &&& assets@.len() == 1
    &&& assets@[0] matches MultiAsset::ConcreteFungible { id, amount: a }
    &&& id@ == location
    &&& a == amount
}

/// The single order to deposit all held assets to `dest`.
pub open spec fn deposits_all_to(effects: Vec<Order>, dest: Seq<JunctionView>) -> bool {
    &&& effects@.len() == 1
    &&& effects@[0] matches Order::DepositAsset { assets, dest: d }
    &&& is_all(assets)
    &&& d@ == dest
}

/// The single order to deposit all held assets to the reserve `reserve` with notice, which then
/// deposits them to `dest`.
pub open spec fn reserve_deposits_to(effects: Vec<Order>, reserve: MultiLocation, dest: Seq<JunctionView>) -> bool {
    &&& effects@.len() == 1
    &&& effects@[0] matches Order::DepositReserveAsset { assets, dest: d, effects: e }
    &&& is_all(assets)
    &&& d == reserve
    &&& deposits_all_to(e, dest)
}

/// Withdraw `amount` of the relay chain currency; have the relay chain withdraw it from its
/// reserve and carry out orders that `then` accepts.
pub open spec fn is_relay_withdrawal(x: Xcm, amount: u128, then: spec_fn(Vec<Order>) -> bool) -> bool {
    match x {
        Xcm::WithdrawAsset { assets, effects } => {
            &&& is_relay_amount(assets, amount)
            &&& effects@.len() == 1
            &&& match effects@[0] {
                Order::InitiateReserveWithdraw { assets: a, reserve, effects: e } => {
                    &&& is_all(a)
                    &&& is_relay_location(reserve)
                    &&& then(e)
                },
                _ => false,
            }
        },
    }
}

/// The message that sends `amount` of the relay chain currency to `dest` on the relay chain.
pub open spec fn is_relay_chain_transfer(x: Xcm, amount: u128, dest: Seq<JunctionView>) -> bool {
    is_relay_withdrawal(x, amount, |e: Vec<Order>| deposits_all_to(e, dest))
}

/// The message that sends `amount` of the relay chain currency through the relay chain to
/// parachain `para_id`, which deposits it to `dest`.
pub open spec fn is_relay_to_parachain_transfer(x: Xcm, para_id: ParaId, dest: Seq<JunctionView>, amount: u128) -> bool {
    is_relay_withdrawal(
        x,
        amount,
        |e: Vec<Order>| reserve_deposits_to(e, MultiLocation::X1(Junction::Parachain { id: para_id }), dest),
    )
}

/// The message that sends `amount` of the asset at `location` to sibling parachain `para_id`,
/// which deposits it to `dest`.
pub open spec fn is_asset_to_parachain_transfer(x: Xcm, location: Seq<JunctionView>, para_id: ParaId, dest: Seq<JunctionView>, amount: u128) -> bool {
    match x {
        Xcm::WithdrawAsset { assets, effects } => {
            &&& is_asset_amount(assets, location, amount)
            &&& reserve_deposits_to(effects, MultiLocation::X2(Junction::Parent, Junction::Parachain { id: para_id }), dest)
        },
    }
}

/// The message that sends `amount` of the relay chain currency to `dest` on the relay chain.
pub fn relay_chain_transfer_message(dest: MultiLocation, amount: u128) -> (r: Xcm)
    ensures
        is_relay_chain_transfer(r, amount, dest@),
{
    Xcm::WithdrawAsset {
        assets: vec![MultiAsset::ConcreteFungible { id: MultiLocation::X1(Junction::Parent), amount }],
        effects: vec![
            Order::InitiateReserveWithdraw {
                assets: vec![MultiAsset::All],
                reserve: MultiLocation::X1(Junction::Parent),
                effects: vec![Order::DepositAsset { assets: vec![MultiAsset::All], dest }],
            },
        ],
    }
}

/// The message that sends `amount` of the relay chain currency through the relay chain to
/// parachain `para_id`, which deposits it to `dest`.
pub fn transfer_relay_chain_assets_to_parachain(para_id: ParaId, dest: MultiLocation, amount: u128) -> (r: Xcm)
    ensures
        is_relay_to_parachain_transfer(r, para_id, dest@, amount),
{
    Xcm::WithdrawAsset {
        assets: vec![MultiAsset::ConcreteFungible { id: MultiLocation::X1(Junction::Parent), amount }],
        effects: vec![
            Order::InitiateReserveWithdraw {
                assets: vec![MultiAsset::All],
                reserve: MultiLocation::X1(Junction::Parent),
                effects: vec![
                    Order::DepositReserveAsset {
                        assets: vec![MultiAsset::All],
                        // Reserve asset deposit dest is children parachain(of parent).
                        dest: MultiLocation::X1(Junction::Parachain { id: para_id }),
                        effects: vec![Order::DepositAsset { assets: vec![MultiAsset::All], dest }],
                    },
                ],
            },
        ],
    }
}

/// Transfer parachain assets "owned" by self parachain to another parachain.
///
/// NOTE - `para_id` must not be self parachain.
pub fn transfer_asset_to_parachain(location: MultiLocation, para_id: ParaId, dest: MultiLocation, amount: u128) -> (r: Xcm)
    ensures
        is_asset_to_parachain_transfer(r, location@, para_id, dest@, amount),
{
    Xcm::WithdrawAsset {
        assets: vec![MultiAsset::ConcreteFungible { id: location, amount }],
        effects: vec![
            Order::DepositReserveAsset {
                assets: vec![MultiAsset::All],
                dest: MultiLocation::X2(Junction::Parent, Junction::Parachain { id: para_id }),
                effects: vec![Order::DepositAsset { assets: vec![MultiAsset::All], dest }],
            },
        ],
    }
}

impl Pallet {
    /// Transfer `amount` of main currency on the relay chain to the given `dest` account.
    ///
    /// Returns the message to execute on behalf of the caller's location, and the event to
    /// emit once it has run. `location_of` converts accounts to locations, `to_relay`
    /// converts amounts to relay chain decimals, and `account32_of` gives the 32-byte
    /// identity of an account.
    pub fn transfer_balance_to_relay_chain<FL, FB, FI>(
        &self,
        origin: Origin,
        dest: AccountId,
        amount: Balance,
        location_of: &FL,
        to_relay: &FB,
        account32_of: &FI,
    ) -> (r: Result<Transfer, XcmpDispatchError>)
        where
            FL: Fn(AccountId) -> Option<MultiLocation>,
            FB: Fn(Balance) -> u128,
            FI: Fn(AccountId) -> [u8; 32],
        requires
            forall|a: AccountId| #[trigger] location_of.requires((a,)),
            forall|b: Balance| #[trigger] to_relay.requires((b,)),
            forall|a: AccountId| #[trigger] account32_of.requires((a,)),
        ensures
            match signer(origin) {
                None => r == Err::<Transfer, XcmpDispatchError>(XcmpDispatchError::BadOrigin),
                Some(who) => match r {
                    Err(e) => e == XcmpDispatchError::Module(Error::BadXcmOrigin) && location_of.ensures((who,), None),
                    Ok(t) => location_of.ensures((who,), Some(t.origin))
                        && exists|relay_amount: u128, id: [u8; 32]| {
                            &&& #[trigger] to_relay.ensures((amount,), relay_amount)
                            &&& #[trigger] account32_of.ensures((dest,), id)
                            &&& is_relay_chain_transfer(
                                t.message,
                                relay_amount,
                                seq![JunctionView::AccountId32 { network: self.config.relay_chain_network_id@, id }],
                            )
                        }
                        && t.event == Event::TransferredToRelayChain(who, dest, amount),
                },
            },
    {
        let who = match origin {
            Origin::Signed(w) => w,
            _ => return Err(XcmpDispatchError::BadOrigin),
        };
        let origin_location = match location_of(who) {
            Some(l) => l,
            None => return Err(XcmpDispatchError::Module(Error::BadXcmOrigin)),
        };
        let relay_amount = to_relay(amount);
        let id = account32_of(dest);
        let network = self.config.relay_chain_network_id.copy();
        let message = relay_chain_transfer_message(
            MultiLocation::X1(Junction::AccountId32 { network, id }),
            relay_amount,
        );
        let r = Transfer {
            origin: origin_location,
            message,
            event: Event::TransferredToRelayChain(who, dest, amount),
        };
        Ok(r)
    }

    /// Transfer a given `amount` of another parachain asset to another parachain.
    ///
    /// Returns nothing to do when the target is this parachain; otherwise the message to
    /// execute on behalf of the caller's location and the event to emit once it has run.
    /// Relay chain currency travels through the relay chain's reserve, other assets through
    /// this parachain's sibling `para_id`. `location_of` converts accounts to locations,
    /// `to_relay` converts amounts to relay chain decimals, and `asset_location_of` gives the
    /// location of an asset.
    pub fn transfer_balance_to_parachain<FL, FB, FA>(
        &self,
        origin: Origin,
        asset_id: AssetId,
        para_id: ParaId,
        dest: MultiLocation,
        amount: Balance,
        location_of: &FL,
        to_relay: &FB,
        asset_location_of: &FA,
    ) -> (r: Result<Option<Transfer>, XcmpDispatchError>)
        where
            FL: Fn(AccountId) -> Option<MultiLocation>,
            FB: Fn(Balance) -> u128,
            FA: Fn(AssetId) -> MultiLocation,
        requires
            forall|a: AccountId| #[trigger] location_of.requires((a,)),
            forall|b: Balance| #[trigger] to_relay.requires((b,)),
            forall|a: AssetId| #[trigger] asset_location_of.requires((a,)),
        ensures
            match signer(origin) {
                None => r == Err::<Option<Transfer>, XcmpDispatchError>(XcmpDispatchError::BadOrigin),
                Some(who) => match r {
                    Err(e) => e == XcmpDispatchError::Module(Error::BadXcmOrigin) && location_of.ensures((who,), None),
                    Ok(None) => para_id == self.config.para_id && exists|l: MultiLocation| location_of.ensures((who,), Some(l)),
                    Ok(Some(t)) => para_id != self.config.para_id
                        && location_of.ensures((who,), Some(t.origin))
                        && (t.event matches Event::TransferredToParachain(a, w, p, d, x)
                            && a == asset_id && w == who && p == para_id && d@ == dest@ && x == amount)
                        && exists|relay_amount: u128| #[trigger] to_relay.ensures((amount,), relay_amount) && if asset_id == self.config.relay_chain_asset_id {
                            is_relay_to_parachain_transfer(t.message, para_id, dest@, relay_amount)
                        } else {
                            exists|location: MultiLocation| #[trigger] asset_location_of.ensures((asset_id,), location)
                                && is_asset_to_parachain_transfer(t.message, location@, para_id, dest@, relay_amount)
                        },
                },
            },
    {
        let who = match origin {
            Origin::Signed(w) => w,
            _ => return Err(XcmpDispatchError::BadOrigin),
        };
        let origin_location = match location_of(who) {
            Some(l) => l,
            None => return Err(XcmpDispatchError::Module(Error::BadXcmOrigin)),
        };
        if para_id == self.config.para_id {
            // nothing to do when target is own chain
            return Ok(None);
        }
        let event_dest = dest.copy();
        let relay_amount = to_relay(amount);
        let message = if asset_id == self.config.relay_chain_asset_id {
            transfer_relay_chain_assets_to_parachain(para_id, dest, relay_amount)
        } else {
            let location = asset_location_of(asset_id);
            transfer_asset_to_parachain(location, para_id, dest, relay_amount)
        };
        Ok(
            Some(
                Transfer {
                    origin: origin_location,
                    message,
                    event: Event::TransferredToParachain(asset_id, who, para_id, event_dest, amount),
                },
            ),
        )
    }
}

/// What a prepared transfer gives once its message was handed to the executor: its event when
/// the message ran, `FailedToSend` when it did not.
pub open spec fn transfer_result<E>(event: Event, executed: Result<(), E>) -> Result<Event, XcmpDispatchError> {
    match executed {
        Ok(()) => Ok(event),
        Err(_) => Err(XcmpDispatchError::Module(Error::FailedToSend)),
    }
}

/// Completes a prepared transfer whose message the executor ran with the result `executed`.
pub fn finish_transfer<E>(event: Event, executed: Result<(), E>) -> (r: Result<Event, XcmpDispatchError>)
    ensures
        r == transfer_result(event, executed),
        executed is Ok <==> r is Ok,
        executed is Err ==> r == Err::<Event, XcmpDispatchError>(XcmpDispatchError::Module(Error::FailedToSend)),
{
    match executed {
        Ok(()) => Ok(event),
        Err(_) => Err(XcmpDispatchError::Module(Error::FailedToSend)),
    }
}

/// Sends a prepared transfer: hands its message, from its origin, to `execute` once, and gives
/// back its event only when the message ran.
pub fn send_transfer<E, X>(t: Transfer, execute: X) -> (r: Result<Event, XcmpDispatchError>)
    where
        X: FnOnce(MultiLocation, Xcm) -> Result<(), E>,
    requires
        execute.requires((t.origin, t.message)),
    ensures
        exists|executed: Result<(), E>| #[trigger] execute.ensures((t.origin, t.message), executed)
            && r == transfer_result(t.event, executed),
{
    let Transfer { origin, message, event } = t;
    let executed = execute(origin, message);
    finish_transfer(event, executed)
}

} // verus!
