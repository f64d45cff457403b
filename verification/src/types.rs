use vstd::prelude::*;

verus! {

/// Identifier of an account.
pub type AccountId = u64;

/// Identifier of an asset.
pub type AssetId = u64;

/// Identifier of a pool.
pub type PoolId = u64;

/// Amount of an asset.
pub type Balance = u128;

/// Errors of the exchange.
#[derive(Clone, Copy, Debug, PartialEq, Eq, Structural)]
pub enum Error {
    /// Errors should have helpful documentation associated with them.
    StorageOverflow,
    /// Maximum amount of pools issued
    PoolLimitReached,
    /// Thrown when the user doesn't have enough balance in his account
    NotEnoughBalance,
    /// Thrown when the user is not registered yet
    AccountNotFound,
    /// Thrown when the asset is not found
    AssetNotFound,
    /// Thrown when the asset is not allowed
    AssetNotAllowed,
    /// Thrown when an asset is already registered
    DuplicateAsset,
    /// Thrown when an asset can't be unregistered because balance is non zero
    NonZeroBalance,
    /// Thrown when no matching pool was found
    PoolNotFound,
    /// Thrown when a liquidity deposit doesn't correspond with the assets registered in a pool
    InvalidLiquidityDeposit,
    /// Thrown when a new pool can not be initiated because the fee is too large
    PoolFeeTooLarge,
    /// Thrown when a pool can not be initiated because too few asset types were supplied
    InvalidPoolAssets,
    /// Thrown only when pool identifiers collide
    InvalidPoolId,
    /// Thrown when the invariant after a swap is larger than before
    InvalidCurveInvariant,
    /// Thrown when no initial swap amount in was set in a series of asset swap actions
    MissingSwapAmountIn,
}

/// Represents supported assets in the exchange, either native currency or a representation for
/// assets from other parachains
#[derive(Clone, Copy, PartialEq, Eq, Debug, Structural)]
pub enum Asset {
    Native,
    ParachainAsset(AssetId),
}

/// Represents an asset and its balance
#[derive(Clone, Copy, PartialEq, Eq, Default, Debug, Structural)]
pub struct AssetBalance {
    /// the asset to deposit
    pub asset: AssetId,
    /// The amount to deposit
    pub amount: Balance,
}

impl AssetBalance {
    pub fn new(asset: AssetId, amount: Balance) -> (r: Self)
        ensures
            r.asset == asset,
            r.amount == amount,
    {
        Self { asset, amount }
    }
}

/// Single asset swap action, represents some `amount` of `asset_in` is being exchanged to
/// `asset_out`
#[derive(Clone, Copy, PartialEq, Eq, Debug, Structural)]
pub struct AssetSwap {
    /// Pool which should be used for swapping.
    pub pool_id: PoolId,
    /// Asset to swap from.
    pub asset_in: AssetId,
    /// Amount to exchange.
    ///
    /// If amount_in is None, it will take amount_out from previous step.
    /// Will fail if amount_in is None on the first step.
    pub amount_in: Option<Balance>,
    /// Asset to swap into.
    pub asset_out: AssetId,
    /// Required minimum amount of asset_out.
    pub min_amount_out: Balance,
}

/// Information about a completed `AssetSwap`
#[derive(Clone, Copy, PartialEq, Eq, Debug, Structural)]
pub struct AssetSwapInfo {
    /// The pool the swap occurred
    pub pool_id: PoolId,
    /// Asset to swap from.
    pub asset_in: AssetId,
    /// The amount exchanged
    pub amount_in: Balance,
    /// Asset to swap into.
    pub asset_out: AssetId,
    /// Swapped amount of asset_out.
    pub amount_out: Balance,
}

/// The origin of a call: the runtime itself, an account that signed it, or an unsigned call.
#[derive(Clone, Copy, PartialEq, Eq, Debug, Structural)]
pub enum Origin {
    Root,
    Signed(AccountId),
    Unsigned,
}

/// Why a call was refused.
#[derive(Clone, Copy, PartialEq, Eq, Debug, Structural)]
pub enum DispatchError {
    /// The call came from an origin that may not make it.
    BadOrigin,
    /// The exchange refused the call.
    Module(Error),
}

/// The account that signed a call.
pub open spec fn signer(origin: Origin) -> Option<AccountId> {
    match origin {
        Origin::Signed(who) => Some(who),
        _ => None,
    }
}

/// Returns the account that signed the call, or `BadOrigin` if none did.
pub fn ensure_signed(origin: Origin) -> (r: Result<AccountId, DispatchError>)
    ensures
        match r {
            Ok(who) => signer(origin) == Some(who),
            Err(e) => signer(origin) is None && e == DispatchError::BadOrigin,
        },
{
    match origin {
        Origin::Signed(who) => Ok(who),
        _ => Err(DispatchError::BadOrigin),
    }
}

/// Succeeds only for calls made by the runtime itself.
pub fn ensure_root(origin: Origin) -> (r: Result<(), DispatchError>)
    ensures
        r is Ok <==> origin == Origin::Root,
        r is Err ==> r == Err::<(), DispatchError>(DispatchError::BadOrigin),
{
    match origin {
        Origin::Root => Ok(()),
        _ => Err(DispatchError::BadOrigin),
    }
}

/// Events of the exchange.
#[derive(Clone, PartialEq, Eq, Debug)]
pub enum Event {
    /// Amounts of assets deposited into a pool
    AddedLiquidity(AccountId, Vec<AssetBalance>),
    /// Amounts of assets withdrawn from a pool
    RemovedLiquidity,
    /// Added a new pool. [creator, pool identifier, assets in pool]
    PoolAdded(AccountId, PoolId, Vec<AssetId>),
    /// Swapped a set of assets [account, asset swaps]
    Swapped(AccountId, Vec<AssetSwapInfo>),
    /// Registered an asset in the user's account deposit [owner, asset identifiers]
    RegisteredAssets(AccountId, Vec<AssetId>),
    /// Unregistered an asset from a user's account [owner, asset identifiers]
    UnRegisteredAssets(AccountId, Vec<AssetId>),
    /// Withdrawn user deposits [owner, asset, balance]
    WithDrawn(AccountId, AssetId, Balance),
    /// Deposited into user's account [owner, asset, balance]
    Deposited(AccountId, AssetId, Balance),
    /// Changed the exchange's own account [previous account, new account]
    SetExchangeAccount(Option<AccountId>, AccountId),
}

} // verus!
