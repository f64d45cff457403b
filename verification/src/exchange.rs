use vstd::prelude::*;
use std::collections::BTreeMap;
use crate::deposit::{
    add_result, balance_of, balances_map, ensure_unique_assets, short, shortfall, sorted_balances,
    sorted_listing, sub_result, take_all, unique_assets, AccountDeposit, DepositState,
};
use crate::pool::{
    add_liquidity_result, distinct_assets, get_return_result, new_pool_result, remove_liquidity_result,
    lemma_add_liquidity_reserves, lemma_remove_liquidity_reserves, lemma_swap_reserves, swap_result,
    Pool, PoolInfo, PoolState, SimplePool,
};
use crate::math::{lemma_map_sum_insert, map_sum};
use crate::types::{
    ensure_root, ensure_signed, signer, AccountId, AssetBalance, AssetId, AssetSwap, AssetSwapInfo,
    Balance, DispatchError, Error, Event, Origin, PoolId,
};

verus! {

broadcast use vstd::std_specs::btree::group_btree_axioms, vstd::laws_cmp::group_laws_cmp;

/// The parameters the exchange runs with.
#[derive(Clone, Copy, Debug)]
pub struct Config {
    /// Maximum number of pools.
    pub max_pool_limit: u64,
    /// The fee divisor
    pub fee_divisor: Balance,
    /// Exchange fee, that goes to exchange itself
    pub exchange_fee: Balance,
    /// Referral fee, that goes to referrer in the call
    pub referral_fee: Balance,
    /// Minimum amount of native currency to execute add/remove liquidity operations
    pub min_native_asset_amount: Balance,
    /// Minimum parachain asset amount execute add/remove liquidity operations.
    pub min_parachain_asset_amount: Balance,
    /// Initial shares supply on deposit of liquidity.
    pub init_shares_supply: Balance,
}

impl Config {
    /// Fees can be divided and a first liquidity deposit mints shares.
    pub open spec fn wf(self) -> bool {
        self.fee_divisor > 0 && self.init_shares_supply > 0
    }
}

/// The state the exchange starts from.
pub struct GenesisConfig {
    pub allowed_assets: Vec<AssetId>,
    pub exchange_account: Option<AccountId>,
}

impl Default for GenesisConfig {
    fn default() -> (r: Self)
        ensures
            r.allowed_assets@.len() == 0,
            r.exchange_account is None,
    {
        GenesisConfig { allowed_assets: Vec::new(), exchange_account: None }
    }
}

/// The exchange: account deposits, pools and the assets the owner allows.
///
/// Every exchange is consistent (`ExchangeState::wf`): this is its type invariant, which
/// `well_formed` states and every call keeps.
pub struct Pallet {
    config: Config,
    deposited_amounts: BTreeMap<AccountId, AccountDeposit>,
    exchange_account: Option<AccountId>,
    pools: BTreeMap<PoolId, Pool>,
    pool_count: Option<u64>,
    pool_id_counter: Option<u64>,
    allowed_assets: BTreeMap<AssetId, ()>,
}

/// The mathematical content of the exchange.
pub struct ExchangeState {
    pub config: Config,
    /// Deposits of each registered account.
    pub deposits: Map<AccountId, DepositState>,
    /// The account that should get payed for every trade.
    pub exchange_account: Option<AccountId>,
    /// The pools by identifier.
    pub pools: Map<PoolId, PoolState>,
    /// The number of pools.
    pub pool_count: Option<u64>,
    /// Counter increment for issuing unique IDs.
    pub pool_id_counter: Option<u64>,
    /// Assets allowed by the owner of the exchange.
    pub allowed_assets: Set<AssetId>,
}

impl View for Pallet {
    type V = ExchangeState;

    closed spec fn view(&self) -> ExchangeState {
        ExchangeState {
            config: self.config,
            deposits: self.deposited_amounts@.map_values(|d: AccountDeposit| d@),
            exchange_account: self.exchange_account,
            pools: self.pools@.map_values(|p: Pool| p@),
            pool_count: self.pool_count,
            pool_id_counter: self.pool_id_counter,
            allowed_assets: self.allowed_assets@.dom(),
        }
    }
}

impl ExchangeState {
    /// The number of pools, zero before the first.
    pub open spec fn number_of_pools(self) -> u64 {
        match self.pool_count {
            Some(n) => n,
            None => 0,
        }
    }

    /// The exchange is consistent: its parameters are usable, the pool count stays within its
    /// limit, every pool is consistent, and the stored pools are exactly those numbered from one
    /// up to the pool count.
    pub open spec fn wf(self) -> bool {
        &&& self.config.wf()
        &&& self.number_of_pools() <= self.config.max_pool_limit
        &&& self.deposits.dom().finite()
        &&& self.pools.dom().finite()
        &&& forall|id: PoolId| #[trigger]
            self.pools.contains_key(id) ==> self.pools[id].wf(self.config.fee_divisor)
        &&& forall|id: PoolId| #[trigger]
            self.pools.contains_key(id) <==> 1 <= id <= self.number_of_pools()
    }

    /// The state with the deposit of `who` replaced.
    pub open spec fn with_deposit(self, who: AccountId, d: DepositState) -> ExchangeState {
        ExchangeState { deposits: self.deposits.insert(who, d), ..self }
    }

    /// The state with the pool `id` replaced.
    pub open spec fn with_pool(self, id: PoolId, p: PoolState) -> ExchangeState {
        ExchangeState { pools: self.pools.insert(id, p), ..self }
    }
}

/// The deposit `d` with the balance of `asset` set to `v`.
pub open spec fn set_balance(d: DepositState, asset: AssetId, v: Balance) -> DepositState {
    DepositState { assets: d.assets.insert(asset, v), ..d }
}

/// The outcome of withdrawing `amount` of `asset` from the deposit of `who`.
pub open spec fn withdraw_outcome(s: ExchangeState, who: AccountId, asset: AssetId, amount: Balance) -> Result<ExchangeState, Error> {
    if !s.deposits.contains_key(who) {
        Err(Error::AccountNotFound)
    } else {
        match sub_result(s.deposits[who].assets, asset, amount) {
            Err(e) => Err(e),
            Ok(v) => Ok(s.with_deposit(who, set_balance(s.deposits[who], asset, v))),
        }
    }
}

/// The outcome of adding `amount` of `asset` to the deposit of `who`.
pub open spec fn credit_outcome(s: ExchangeState, who: AccountId, asset: AssetId, amount: Balance) -> Result<ExchangeState, Error> {
    if !s.deposits.contains_key(who) {
        Err(Error::AccountNotFound)
    } else {
        match add_result(s.deposits[who].assets, asset, amount) {
            Err(e) => Err(e),
            Ok(v) => Ok(s.with_deposit(who, set_balance(s.deposits[who], asset, v))),
        }
    }
}

/// The outcome of a deposit by `who`: only allowed assets can be deposited.
pub open spec fn deposit_outcome(s: ExchangeState, who: AccountId, asset: AssetId, amount: Balance) -> Result<ExchangeState, Error> {
    if !s.allowed_assets.contains(asset) {
        Err(Error::AssetNotAllowed)
    } else {
        credit_outcome(s, who, asset, amount)
    }
}

/// The outcome of `who` registering the assets `ids` with zero balances.
pub open spec fn register_assets_outcome(s: ExchangeState, who: AccountId, ids: Seq<AssetId>) -> Result<ExchangeState, Error> {
    if !s.deposits.contains_key(who) {
        Err(Error::AccountNotFound)
    } else if exists|i: int| 0 <= i < ids.len() && s.deposits[who].assets.contains_key(#[trigger] ids[i]) {
        Err(Error::DuplicateAsset)
    } else {
        let d = s.deposits[who];
        let assets = Map::new(
            |a: AssetId| d.assets.contains_key(a) || ids.contains(a),
            |a: AssetId| if d.assets.contains_key(a) { d.assets[a] } else { 0u128 },
        );
        Ok(s.with_deposit(who, DepositState { assets, ..d }))
    }
}

/// The outcome of `who` unregistering the assets `ids`, which must hold no balance.
pub open spec fn unregister_assets_outcome(s: ExchangeState, who: AccountId, ids: Seq<AssetId>) -> Result<ExchangeState, Error> {
    if !s.deposits.contains_key(who) {
        Err(Error::AccountNotFound)
    } else if exists|i: int| 0 <= i < ids.len() && s.deposits[who].assets.contains_key(#[trigger] ids[i]) && s.deposits[who].assets[ids[i]] != 0 {
        Err(Error::NonZeroBalance)
    } else {
        let d = s.deposits[who];
        let assets = d.assets.remove_keys(ids.to_set());
        Ok(s.with_deposit(who, DepositState { assets, ..d }))
    }
}


/// The outcome of `who` creating a basic pool of `assets` with swap fee `fee`; the exchange and
/// referral fees are added on top.
pub open spec fn add_basic_pool_outcome(s: ExchangeState, assets: Seq<AssetId>, fee: Balance) -> Result<(ExchangeState, PoolId), Error> {
    if exists|i: int| 0 <= i < assets.len() && !s.allowed_assets.contains(#[trigger] assets[i]) {
        Err(Error::AssetNotFound)
    } else if s.number_of_pools() >= s.config.max_pool_limit {
        Err(Error::PoolLimitReached)
    } else {
        match new_pool_result(
            assets,
            (fee + s.config.exchange_fee + s.config.referral_fee) as Balance,
            s.config.exchange_fee,
            s.config.referral_fee,
            s.config.fee_divisor,
        ) {
            Err(e) => Err(e),
            Ok(p) => {
                let id = (s.number_of_pools() + 1) as u64;
                if s.pools.contains_key(id) {
                    Err(Error::InvalidPoolId)
                } else {
                    Ok((ExchangeState { pool_count: Some(id), ..s.with_pool(id, p) }, id))
                }
            },
        }
    }
}

/// A call of `origin` creating a pool of `assets` passes every check that comes before the pool's
/// fees are added up: it is signed, every asset is allowed, and the pool limit is not reached.
pub open spec fn reaches_fee_sum(s: ExchangeState, origin: Origin, assets: Seq<AssetId>) -> bool {
    &&& signer(origin) is Some
    &&& forall|i: int| 0 <= i < assets.len() ==> s.allowed_assets.contains(#[trigger] assets[i])
    &&& s.number_of_pools() < s.config.max_pool_limit
}

/// What a swap in pool `id` would return.
pub open spec fn get_return_outcome(s: ExchangeState, id: PoolId, asset_in: AssetId, amount_in: Balance, asset_out: AssetId) -> Result<Balance, Error> {
    if !s.pools.contains_key(id) {
        Err(Error::PoolNotFound)
    } else {
        get_return_result(s.pools[id], asset_in, amount_in, asset_out, s.config.fee_divisor)
    }
}


/// The outcome of `who` adding the liquidity `deposits` from its account to pool `id`: the new
/// state and the amounts taken from the account.
pub open spec fn add_liquidity_outcome(s: ExchangeState, who: AccountId, id: PoolId, deposits: Seq<AssetBalance>) -> Result<(ExchangeState, Map<AssetId, Balance>), Error> {
    if !unique_assets(deposits) {
        Err(Error::DuplicateAsset)
    } else if !s.deposits.contains_key(who) {
        Err(Error::AccountNotFound)
    } else {
        let m = balances_map(deposits);
        let d = s.deposits[who];
        match shortfall(d.assets, m) {
            Some(e) => Err(e),
            None => if !s.pools.contains_key(id) {
                Err(Error::PoolNotFound)
            } else {
                match add_liquidity_result(s.pools[id], who, m, s.config.init_shares_supply) {
                    Err(e) => Err(e),
                    Ok((p, taken)) => Ok(
                        (
                            s.with_pool(id, p).with_deposit(who, DepositState { assets: take_all(d.assets, taken), ..d }),
                            taken,
                        ),
                    ),
                }
            },
        }
    }
}


/// `a` is among the first `k` assets of `ids`.
pub open spec fn listed(ids: Seq<AssetId>, k: int, a: AssetId) -> bool {
    exists|j: int| 0 <= j < k && #[trigger] ids[j] == a
}

/// The balances `assets` after crediting `out[j]` of `ids[j]` for each of the first `k` assets,
/// registering assets that were not.
pub open spec fn paid_out(assets: Map<AssetId, Balance>, ids: Seq<AssetId>, out: Seq<Balance>, k: int) -> Map<AssetId, Balance> {
    Map::new(
        |a: AssetId| assets.contains_key(a) || listed(ids, k, a),
        |a: AssetId| (balance_of(assets, a) + if listed(ids, k, a) { out[ids.index_of(a)] as int } else { 0 }) as Balance,
    )
}

/// Crediting one of the first `k` amounts would leave the range of a balance.
pub open spec fn payout_overflows(assets: Map<AssetId, Balance>, ids: Seq<AssetId>, out: Seq<Balance>, k: int) -> bool {
    exists|j: int| 0 <= j < k && balance_of(assets, #[trigger] ids[j]) + out[j] > u128::MAX
}

/// The deposit of `who`, or an empty one if it has none.
pub open spec fn deposit_or_empty(s: ExchangeState, who: AccountId) -> DepositState {
    if s.deposits.contains_key(who) {
        s.deposits[who]
    } else {
        DepositState { amount: 0, assets: Map::empty() }
    }
}

/// The outcome of `who` returning `shares` liquidity shares of pool `id`: the paid-out reserves
/// are credited to the account of `who`, which is registered if it was not.
pub open spec fn remove_liquidity_outcome(s: ExchangeState, who: AccountId, id: PoolId, shares: Balance, min_amounts: Seq<Balance>) -> Result<ExchangeState, Error> {
    if !s.pools.contains_key(id) {
        Err(Error::PoolNotFound)
    } else {
        match remove_liquidity_result(s.pools[id], who, shares, min_amounts) {
            Err(e) => Err(e),
            Ok((p, out)) => {
                let d = deposit_or_empty(s, who);
                let n = p.asset_ids.len() as int;
                if payout_overflows(d.assets, p.asset_ids, out, n) {
                    Err(Error::StorageOverflow)
                } else {
                    Ok(s.with_pool(id, p).with_deposit(who, DepositState { assets: paid_out(d.assets, p.asset_ids, out, n), ..d }))
                }
            },
        }
    }
}


/// The outcome of one swap action of `who`, `prev` being the amount paid out by the action
/// before it: the new state and what was swapped.
pub open spec fn swap_step(s: ExchangeState, who: AccountId, prev: Option<Balance>, action: AssetSwap, referral: Option<AccountId>) -> Result<(ExchangeState, AssetSwapInfo), Error> {
    if !s.pools.contains_key(action.pool_id) {
        Err(Error::PoolNotFound)
    } else if action.amount_in is None && prev is None {
        Err(Error::MissingSwapAmountIn)
    } else {
        let amount_in = match action.amount_in {
            Some(a) => a,
            None => prev->0,
        };
        let d = s.deposits[who];
        match sub_result(d.assets, action.asset_in, amount_in) {
            Err(e) => Err(e),
            Ok(v) => {
                let d1 = set_balance(d, action.asset_in, v);
                match swap_result(
                    s.pools[action.pool_id],
                    action.asset_in,
                    amount_in,
                    action.asset_out,
                    action.min_amount_out,
                    s.exchange_account,
                    referral,
                    s.config.fee_divisor,
                ) {
                    Err(e) => Err(e),
                    Ok((p, out)) => match add_result(d1.assets, action.asset_out, out) {
                        Err(e) => Err(e),
                        Ok(w) => Ok(
                            (
                                s.with_pool(action.pool_id, p).with_deposit(who, set_balance(d1, action.asset_out, w)),
                                AssetSwapInfo {
                                    pool_id: action.pool_id,
                                    asset_in: action.asset_in,
                                    amount_in,
                                    asset_out: action.asset_out,
                                    amount_out: out,
                                },
                            ),
                        ),
                    },
                }
            },
        }
    }
}

/// The outcome of the first `k` swap actions of `who`: the state, the amount paid out last,
/// and what was swapped.
pub open spec fn swap_prefix(s: ExchangeState, who: AccountId, actions: Seq<AssetSwap>, referral: Option<AccountId>, k: int) -> Result<(ExchangeState, Option<Balance>, Seq<AssetSwapInfo>), Error>
    decreases k,
{
    if k <= 0 {
        Ok((s, None, Seq::empty()))
    } else {
        match swap_prefix(s, who, actions, referral, k - 1) {
            Err(e) => Err(e),
            Ok((s1, prev, infos)) => match swap_step(s1, who, prev, actions[k - 1], referral) {
                Err(e) => Err(e),
                Ok((s2, info)) => Ok((s2, Some(info.amount_out), infos.push(info))),
            },
        }
    }
}

/// The outcome of `who` swapping via the series `actions`: the new state and what was swapped.
pub open spec fn swap_outcome(s: ExchangeState, who: AccountId, actions: Seq<AssetSwap>, referral: Option<AccountId>) -> Result<(ExchangeState, Seq<AssetSwapInfo>), Error> {
    if !s.deposits.contains_key(who) {
        Err(Error::AccountNotFound)
    } else {
        match swap_prefix(s, who, actions, referral, actions.len() as int) {
            Err(e) => Err(e),
            Ok((s1, _, infos)) => Ok((s1, infos)),
        }
    }
}

/// Once a swap action fails, the series fails with its error.
pub proof fn lemma_swap_prefix_err(s: ExchangeState, who: AccountId, actions: Seq<AssetSwap>, referral: Option<AccountId>, k: int, n: int)
    requires
        k <= n,
        swap_prefix(s, who, actions, referral, k) is Err,
    ensures
        swap_prefix(s, who, actions, referral, n) == swap_prefix(s, who, actions, referral, k),
    decreases n - k,
{
    if k < n {
        lemma_swap_prefix_err(s, who, actions, referral, k, n - 1);
    }
}

/// Deep views of maps of deposits and pools commute with insertion.
proof fn lemma_deposits_insert(m: Map<AccountId, AccountDeposit>, k: AccountId, d: AccountDeposit)
    ensures
        m.insert(k, d).map_values(|x: AccountDeposit| x@) =~= m.map_values(|x: AccountDeposit| x@).insert(k, d@),
{
}

proof fn lemma_pools_insert(m: Map<PoolId, Pool>, k: PoolId, p: Pool)
    ensures
        m.insert(k, p).map_values(|x: Pool| x@) =~= m.map_values(|x: Pool| x@).insert(k, p@),
{
}


/// Carries out one swap action of `who` on the pools and the account of a state `s`.
fn swap_action(
    pools: &mut BTreeMap<PoolId, Pool>,
    account: &mut AccountDeposit,
    prev: Option<Balance>,
    action: AssetSwap,
    exchange_account: Option<AccountId>,
    referral_account: Option<AccountId>,
    fee_divisor: Balance,
    Ghost(s): Ghost<ExchangeState>,
    who: AccountId,
) -> (r: Result<AssetSwapInfo, Error>)
    requires
        s.wf(),
        s.pools == old(pools)@.map_values(|p: Pool| p@),
        s.deposits.contains_key(who),
        s.deposits[who] == old(account)@,
        s.exchange_account == exchange_account,
        s.config.fee_divisor == fee_divisor,
    ensures
        match swap_step(s, who, prev, action, referral_account) {
            Err(e) => r == Err::<AssetSwapInfo, Error>(e),
            Ok((s2, info)) => r == Ok::<AssetSwapInfo, Error>(info) && s2.pools == final(pools)@.map_values(|p: Pool| p@)
                && s2 == s.with_pool(action.pool_id, s2.pools[action.pool_id]).with_deposit(who, final(account)@) && s2.wf(),
        },
        r != Err::<AssetSwapInfo, Error>(Error::InvalidCurveInvariant),
{
    let mut pool = match pools.get(&action.pool_id) {
        Some(p) => p.duplicate(),
        None => return Err(Error::PoolNotFound),
    };
    let amount_in = match action.amount_in {
        Some(a) => a,
        None => match prev {
            Some(p) => p,
            None => return Err(Error::MissingSwapAmountIn),
        },
    };
    account.sub(&action.asset_in, amount_in)?;
    let exchange_ref = match &exchange_account {
        Some(a) => Some(a),
        None => None,
    };
    let referral_ref = match &referral_account {
        Some(a) => Some(a),
        None => None,
    };
    let out = pool.swap(
        &action.asset_in,
        amount_in,
        &action.asset_out,
        action.min_amount_out,
        exchange_ref,
        referral_ref,
        fee_divisor,
    )?;
    account.add(&action.asset_out, out)?;
    proof {
        lemma_pools_insert(pools@, action.pool_id, pool);
    }
    pools.insert(action.pool_id, pool);
    Ok(AssetSwapInfo {
        pool_id: action.pool_id,
        asset_in: action.asset_in,
        amount_in,
        asset_out: action.asset_out,
        amount_out: out,
    })
}

impl Pallet {
    /// The exchange keeps itself consistent: see `ExchangeState::wf`.
    #[verifier::type_invariant]
    pub open spec fn well_formed(self) -> bool {
        self@.wf()
    }

    /// An exchange with the parameters `config` and nothing else.
    fn empty(config: Config) -> (r: Pallet)
        requires
            config.wf(),
        ensures
            r@ == (ExchangeState {
                config,
                deposits: Map::empty(),
                exchange_account: None,
                pools: Map::empty(),
                pool_count: None,
                pool_id_counter: None,
                allowed_assets: Set::empty(),
            }),
    {
        let deposited_amounts: BTreeMap<AccountId, AccountDeposit> = BTreeMap::new();
        let pools: BTreeMap<PoolId, Pool> = BTreeMap::new();
        let allowed_assets: BTreeMap<AssetId, ()> = BTreeMap::new();
        assert(deposited_amounts@.map_values(|d: AccountDeposit| d@) =~= Map::<AccountId, DepositState>::empty());
        assert(pools@.map_values(|p: Pool| p@) =~= Map::<PoolId, PoolState>::empty());
        assert(allowed_assets@.dom() =~= Set::<AssetId>::empty());
        Pallet {
            config,
            deposited_amounts,
            exchange_account: None,
            pools,
            pool_count: None,
            pool_id_counter: None,
            allowed_assets,
        }
    }

    /// Stores the deposit `d` of `who`.
    fn put_deposit(&mut self, who: AccountId, d: AccountDeposit)
        ensures
            final(self)@ == old(self)@.with_deposit(who, d@),
    {
        proof {
            use_type_invariant(&*self);
        }
        let mut deposits = BTreeMap::new();
        assert(deposits@.map_values(|x: AccountDeposit| x@) =~= Map::<AccountId, DepositState>::empty());
        std::mem::swap(&mut deposits, &mut self.deposited_amounts);
        proof {
            lemma_deposits_insert(deposits@, who, d);
        }
        deposits.insert(who, d);
        self.deposited_amounts = deposits;
    }

    /// Replaces the pool `id`, which exists, by `pool`.
    fn put_pool(&mut self, id: PoolId, pool: Pool)
        requires
            old(self)@.pools.contains_key(id),
            pool@.wf(old(self)@.config.fee_divisor),
        ensures
            final(self)@ == old(self)@.with_pool(id, pool@),
    {
        proof {
            use_type_invariant(&*self);
        }
        let mut this = Pallet::empty(self.config);
        std::mem::swap(&mut this, self);
        let Pallet { config, deposited_amounts, exchange_account, mut pools, pool_count, pool_id_counter, allowed_assets } = this;
        proof {
            lemma_pools_insert(pools@, id, pool);
        }
        pools.insert(id, pool);
        *self = Pallet { config, deposited_amounts, exchange_account, pools, pool_count, pool_id_counter, allowed_assets };
    }

    /// Stores `pool` as the next pool `id` and counts it.
    fn add_pool(&mut self, id: PoolId, pool: Pool)
        requires
            old(self)@.number_of_pools() < old(self)@.config.max_pool_limit,
            id == old(self)@.number_of_pools() + 1,
            pool@.wf(old(self)@.config.fee_divisor),
        ensures
            final(self)@ == (ExchangeState { pool_count: Some(id), ..old(self)@.with_pool(id, pool@) }),
    {
        proof {
            use_type_invariant(&*self);
        }
        let mut this = Pallet::empty(self.config);
        std::mem::swap(&mut this, self);
        let Pallet { config, deposited_amounts, exchange_account, mut pools, pool_count: _, pool_id_counter, allowed_assets } = this;
        proof {
            lemma_pools_insert(pools@, id, pool);
        }
        pools.insert(id, pool);
        *self = Pallet { config, deposited_amounts, exchange_account, pools, pool_count: Some(id), pool_id_counter, allowed_assets };
    }

    /// Builds the exchange from its parameters and genesis state.
    pub fn new(config: Config, genesis: &GenesisConfig) -> (r: Pallet)
        requires
            config.wf(),
        ensures
            r@.wf(),
            r@.config == config,
            r@.deposits == Map::<AccountId, DepositState>::empty(),
            r@.exchange_account == genesis.exchange_account,
            r@.pools == Map::<PoolId, PoolState>::empty(),
            r@.pool_count is None,
            r@.pool_id_counter is None,
            r@.allowed_assets == genesis.allowed_assets@.to_set(),
    {
        let mut allowed_assets: BTreeMap<AssetId, ()> = BTreeMap::new();
        let n = genesis.allowed_assets.len();
        let mut i: usize = 0;
        while i < n
            invariant
                n == genesis.allowed_assets.len(),
                i <= n,
                allowed_assets@.dom() =~= genesis.allowed_assets@.take(i as int).to_set(),
            decreases n - i,
        {
            allowed_assets.insert(genesis.allowed_assets[i], ());
            assert(genesis.allowed_assets@.take(i + 1) =~= genesis.allowed_assets@.take(i as int).push(genesis.allowed_assets@[i as int]));
            proof {
                genesis.allowed_assets@.take(i as int).lemma_push_to_set_commute(genesis.allowed_assets@[i as int]);
            }
            i = i + 1;
        }
        assert(genesis.allowed_assets@.take(n as int) =~= genesis.allowed_assets@);
        let r = Pallet::empty(config);
        let Pallet { config, deposited_amounts, exchange_account: _, pools, pool_count, pool_id_counter, allowed_assets: _ } = r;
        Pallet { config, deposited_amounts, exchange_account: genesis.exchange_account, pools, pool_count, pool_id_counter, allowed_assets }
    }

    /// The parameters of the exchange.
    pub fn config(&self) -> (r: Config)
        ensures
            r == self@.config,
    {
        self.config
    }

    /// Deposits of `account`, if it is registered.
    pub fn deposited_amounts(&self, account: &AccountId) -> (r: Option<AccountDeposit>)
        ensures
            match r {
                Some(d) => self@.deposits.contains_key(*account) && d@ == self@.deposits[*account],
                None => !self@.deposits.contains_key(*account),
            },
    {
        match self.deposited_amounts.get(account) {
            Some(d) => Some(d.duplicate()),
            None => None,
        }
    }

    /// The account that should get payed for every trade.
    pub fn exchange_account(&self) -> (r: Option<AccountId>)
        ensures
            r == self@.exchange_account,
    {
        self.exchange_account
    }

    /// The pool `id`, if it exists.
    pub fn pools(&self, id: &PoolId) -> (r: Option<Pool>)
        ensures
            match r {
                Some(p) => self@.pools.contains_key(*id) && p@ == self@.pools[*id],
                None => !self@.pools.contains_key(*id),
            },
    {
        match self.pools.get(id) {
            Some(p) => Some(p.duplicate()),
            None => None,
        }
    }

    /// The total number of pools currently stored.
    pub fn pool_count(&self) -> (r: Option<u64>)
        ensures
            r == self@.pool_count,
    {
        self.pool_count
    }

    /// Counter increment for issuing unique IDs.
    pub fn pool_id_counter(&self) -> (r: Option<u64>)
        ensures
            r == self@.pool_id_counter,
    {
        self.pool_id_counter
    }

    /// `Some(())` if the owner of the exchange allows `asset`.
    pub fn allowed_assets(&self, asset: &AssetId) -> (r: Option<()>)
        ensures
            r is Some <==> self@.allowed_assets.contains(*asset),
    {
        match self.allowed_assets.get(asset) {
            Some(_) => Some(()),
            None => None,
        }
    }

    /// Returns number of pools.
    pub fn get_number_of_pools(&self) -> (r: u64)
        ensures
            r == self@.number_of_pools(),
    {
        match self.pool_count {
            Some(n) => n,
            None => 0,
        }
    }

    /// Returns the balances of the deposits for given user outside of any pools.
    ///
    /// Returns None if the user is not registered yet.
    pub fn get_deposits(&self, account: &AccountId) -> (r: Option<BTreeMap<AssetId, Balance>>)
        ensures
            match r {
                Some(m) => self@.deposits.contains_key(*account) && m@ == self@.deposits[*account].assets,
                None => !self@.deposits.contains_key(*account),
            },
    {
        match self.deposited_amounts.get(account) {
            Some(d) => Some(d.assets.clone()),
            None => None,
        }
    }

    /// Sets the exchange's own account that should receive fees for trades.
    pub fn set_exchange_account(&mut self, origin: Origin, new_account: AccountId) -> (r: Result<Event, DispatchError>)
        ensures
            origin != Origin::Root ==> r == Err::<Event, DispatchError>(DispatchError::BadOrigin) && final(self)@ == old(self)@,
            origin == Origin::Root ==> r == Ok::<Event, DispatchError>(Event::SetExchangeAccount(old(self)@.exchange_account, new_account))
                && final(self)@ == (ExchangeState { exchange_account: Some(new_account), ..old(self)@ }),
    {
        proof {
            use_type_invariant(&*self);
        }
        ensure_root(origin)?;
        let old = self.exchange_account;
        self.exchange_account = Some(new_account);
        Ok(Event::SetExchangeAccount(old, new_account))
    }

    /// Allows `asset_id` on the exchange.
    pub fn allow_asset(&mut self, origin: Origin, asset_id: AssetId) -> (r: Result<(), DispatchError>)
        ensures
            origin != Origin::Root ==> r == Err::<(), DispatchError>(DispatchError::BadOrigin) && final(self)@ == old(self)@,
            origin == Origin::Root ==> r is Ok
                && final(self)@ == (ExchangeState { allowed_assets: old(self)@.allowed_assets.insert(asset_id), ..old(self)@ }),
    {
        proof {
            use_type_invariant(&*self);
        }
        ensure_root(origin)?;
        let mut allowed = BTreeMap::new();
        std::mem::swap(&mut allowed, &mut self.allowed_assets);
        allowed.insert(asset_id, ());
        self.allowed_assets = allowed;
        assert(self@.allowed_assets =~= old(self)@.allowed_assets.insert(asset_id));
        Ok(())
    }

    /// Registers the caller with an empty deposit; a registered caller keeps its deposit.
    pub fn register_user(&mut self, origin: Origin) -> (r: Result<(), DispatchError>)
        ensures
            match signer(origin) {
                None => r == Err::<(), DispatchError>(DispatchError::BadOrigin) && final(self)@ == old(self)@,
                Some(who) => r is Ok && if old(self)@.deposits.contains_key(who) {
                    final(self)@ == old(self)@
                } else {
                    final(self)@ == old(self)@.with_deposit(who, DepositState { amount: 0, assets: Map::empty() })
                },
            },
    {
        proof {
            use_type_invariant(&*self);
        }
        let who = ensure_signed(origin)?;
        if !self.deposited_amounts.contains_key(&who) {
            let d = AccountDeposit::default();
            self.put_deposit(who, d);
        }
        Ok(())
    }

    /// Withdraws given asset from the deposits of the given user.
    pub fn withdraw(&mut self, origin: Origin, asset_id: AssetId, amount: Balance) -> (r: Result<Event, DispatchError>)
        ensures
            match signer(origin) {
                None => r == Err::<Event, DispatchError>(DispatchError::BadOrigin) && final(self)@ == old(self)@,
                Some(who) => match withdraw_outcome(old(self)@, who, asset_id, amount) {
                    Err(e) => r == Err::<Event, DispatchError>(DispatchError::Module(e)) && final(self)@ == old(self)@,
                    Ok(s) => r == Ok::<Event, DispatchError>(Event::WithDrawn(who, asset_id, amount)) && final(self)@ == s,
                },
            },
            forall|asset: AssetId| #[trigger] total_of(final(self)@, asset) == total_of(old(self)@, asset)
                - if r is Ok && asset == asset_id { amount as int } else { 0 },
    {
        proof {
            use_type_invariant(&*self);
        }
        let who = ensure_signed(origin)?;
        let ghost s0 = self@;
        match self.withdraw_asset_balance(&who, &asset_id, amount) {
            Ok(()) => {
                proof {
                    assert forall|asset: AssetId| #[trigger] total_of(self@, asset) == total_of(s0, asset)
                        - if asset == asset_id { amount as int } else { 0 } by {
                        crate::laws::law_withdraw_removes_amount(s0, who, asset_id, amount, asset);
                    }
                }
                Ok(Event::WithDrawn(who, asset_id, amount))
            },
            Err(e) => Err(DispatchError::Module(e)),
        }
    }

    /// Deposit assets to the user's account.
    ///
    /// Fails if account is not registered or if the assent is not allowed on the exchange.
    pub fn deposit(&mut self, origin: Origin, asset_id: AssetId, amount: Balance) -> (r: Result<Event, DispatchError>)
        ensures
            match signer(origin) {
                None => r == Err::<Event, DispatchError>(DispatchError::BadOrigin) && final(self)@ == old(self)@,
                Some(who) => match deposit_outcome(old(self)@, who, asset_id, amount) {
                    Err(e) => r == Err::<Event, DispatchError>(DispatchError::Module(e)) && final(self)@ == old(self)@,
                    Ok(s) => r == Ok::<Event, DispatchError>(Event::Deposited(who, asset_id, amount)) && final(self)@ == s,
                },
            },
            forall|asset: AssetId| #[trigger] total_of(final(self)@, asset) == total_of(old(self)@, asset)
                + if r is Ok && asset == asset_id { amount as int } else { 0 },
    {
        proof {
            use_type_invariant(&*self);
        }
        let who = ensure_signed(origin)?;
        let ghost s0 = self@;
        if !self.allowed_assets.contains_key(&asset_id) {
            return Err(DispatchError::Module(Error::AssetNotAllowed));
        }
        match self.deposit_asset_balance(&who, &asset_id, amount) {
            Ok(()) => {
                proof {
                    assert forall|asset: AssetId| #[trigger] total_of(self@, asset) == total_of(s0, asset)
                        + if asset == asset_id { amount as int } else { 0 } by {
                        crate::laws::law_deposit_adds_amount(s0, who, asset_id, amount, asset);
                    }
                }
                Ok(Event::Deposited(who, asset_id, amount))
            },
            Err(e) => Err(DispatchError::Module(e)),
        }
    }

    /// Adds `amount` of `asset_id` to the deposit of `who`.
    pub fn deposit_asset_balance(&mut self, who: &AccountId, asset_id: &AssetId, amount: Balance) -> (r: Result<(), Error>)
        ensures
            match credit_outcome(old(self)@, *who, *asset_id, amount) {
                Err(e) => r == Err::<(), Error>(e) && final(self)@ == old(self)@,
                Ok(s) => r is Ok && final(self)@ == s,
            },
    {
        proof {
            use_type_invariant(&*self);
        }
        let mut d = match self.deposited_amounts.get(who) {
            Some(d) => d.duplicate(),
            None => return Err(Error::AccountNotFound),
        };
        d.add(asset_id, amount)?;
        self.put_deposit(*who, d);
        Ok(())
    }

    /// Takes `amount` of `asset_id` out of the deposit of `who`.
    pub fn withdraw_asset_balance(&mut self, who: &AccountId, asset_id: &AssetId, amount: Balance) -> (r: Result<(), Error>)
        ensures
            match withdraw_outcome(old(self)@, *who, *asset_id, amount) {
                Err(e) => r == Err::<(), Error>(e) && final(self)@ == old(self)@,
                Ok(s) => r is Ok && final(self)@ == s,
            },
    {
        proof {
            use_type_invariant(&*self);
        }
        let mut d = match self.deposited_amounts.get(who) {
            Some(d) => d.duplicate(),
            None => return Err(Error::AccountNotFound),
        };
        d.sub(asset_id, amount)?;
        self.put_deposit(*who, d);
        Ok(())
    }

    /// Registers given assets in the user's account deposit.
    ///
    /// Fails if no matching account found for the user or an asset was already registered.
    #[verifier::loop_isolation(false)]
    pub fn register_assets(&mut self, origin: Origin, asset_ids: Vec<AssetId>) -> (r: Result<Event, DispatchError>)
        ensures
            match signer(origin) {
                None => r == Err::<Event, DispatchError>(DispatchError::BadOrigin) && final(self)@ == old(self)@,
                Some(who) => match register_assets_outcome(old(self)@, who, asset_ids@) {
                    Err(e) => r == Err::<Event, DispatchError>(DispatchError::Module(e)) && final(self)@ == old(self)@,
                    Ok(s) => r matches Ok(Event::RegisteredAssets(w, ids)) && w == who && ids@ == asset_ids@ && final(self)@ == s,
                },
            },
    {
        proof {
            use_type_invariant(&*self);
        }
        let who = ensure_signed(origin)?;
        let mut d = match self.deposited_amounts.get(&who) {
            Some(d) => d.duplicate(),
            None => return Err(DispatchError::Module(Error::AccountNotFound)),
        };
        let ghost d0 = d@;
        let n = asset_ids.len();
        let mut i: usize = 0;
        while i < n
            invariant
                n == asset_ids.len(),
                i <= n,
                d@ == d0,
                forall|j: int| 0 <= j < i ==> !d0.assets.contains_key(#[trigger] asset_ids@[j]),
            decreases n - i,
        {
            if d.assets.contains_key(&asset_ids[i]) {
                return Err(DispatchError::Module(Error::DuplicateAsset));
            }
            i = i + 1;
        }
        let mut i: usize = 0;
        while i < n
            invariant
                n == asset_ids.len(),
                i <= n,
                d@.amount == d0.amount,
                forall|j: int| 0 <= j < n ==> !d0.assets.contains_key(#[trigger] asset_ids@[j]),
                d@.assets =~= Map::new(
                    |a: AssetId| d0.assets.contains_key(a) || asset_ids@.take(i as int).to_set().contains(a),
                    |a: AssetId| if d0.assets.contains_key(a) { d0.assets[a] } else { 0u128 },
                ),
            decreases n - i,
        {
            d.assets.insert(asset_ids[i], 0);
            proof {
                assert(asset_ids@.take(i + 1) =~= asset_ids@.take(i as int).push(asset_ids@[i as int]));
                asset_ids@.take(i as int).lemma_push_to_set_commute(asset_ids@[i as int]);
            }
            i = i + 1;
        }
        assert(asset_ids@.take(n as int) =~= asset_ids@);
        assert(d@.assets =~= Map::new(
            |a: AssetId| d0.assets.contains_key(a) || asset_ids@.contains(a),
            |a: AssetId| if d0.assets.contains_key(a) { d0.assets[a] } else { 0u128 },
        ));
        assert(!(exists|i: int| 0 <= i < asset_ids@.len() && d0.assets.contains_key(#[trigger] asset_ids@[i])));
        self.put_deposit(who, d);
        Ok(Event::RegisteredAssets(who, asset_ids))
    }

    /// Unregisters given assets in the user's account deposit.
    ///
    /// Fails if the balance of any given asset is non zero.
    #[verifier::loop_isolation(false)]
    pub fn unregister_assets(&mut self, origin: Origin, asset_ids: Vec<AssetId>) -> (r: Result<Event, DispatchError>)
        ensures
            match signer(origin) {
                None => r == Err::<Event, DispatchError>(DispatchError::BadOrigin) && final(self)@ == old(self)@,
                Some(who) => match unregister_assets_outcome(old(self)@, who, asset_ids@) {
                    Err(e) => r == Err::<Event, DispatchError>(DispatchError::Module(e)) && final(self)@ == old(self)@,
                    Ok(s) => r matches Ok(Event::UnRegisteredAssets(w, ids)) && w == who && ids@ == asset_ids@ && final(self)@ == s,
                },
            },
    {
        proof {
            use_type_invariant(&*self);
        }
        let who = ensure_signed(origin)?;
        let mut d = match self.deposited_amounts.get(&who) {
            Some(d) => d.duplicate(),
            None => return Err(DispatchError::Module(Error::AccountNotFound)),
        };
        let ghost d0 = d@;
        let n = asset_ids.len();
        let mut i: usize = 0;
        while i < n
            invariant
                n == asset_ids.len(),
                i <= n,
                d@ == d0,
                forall|j: int| 0 <= j < i && d0.assets.contains_key(#[trigger] asset_ids@[j]) ==> d0.assets[asset_ids@[j]] == 0,
            decreases n - i,
        {
            match d.assets.get(&asset_ids[i]) {
                Some(b) => {
                    if *b != 0 {
                        return Err(DispatchError::Module(Error::NonZeroBalance));
                    }
                },
                None => {},
            }
            i = i + 1;
        }
        let mut i: usize = 0;
        while i < n
            invariant
                n == asset_ids.len(),
                i <= n,
                d@.amount == d0.amount,
                d@.assets =~= d0.assets.remove_keys(asset_ids@.take(i as int).to_set()),
            decreases n - i,
        {
            d.assets.remove(&asset_ids[i]);
            proof {
                assert(asset_ids@.take(i + 1) =~= asset_ids@.take(i as int).push(asset_ids@[i as int]));
                asset_ids@.take(i as int).lemma_push_to_set_commute(asset_ids@[i as int]);
            }
            i = i + 1;
        }
        assert(asset_ids@.take(n as int) =~= asset_ids@);
        self.put_deposit(who, d);
        Ok(Event::UnRegisteredAssets(who, asset_ids))
    }

    /// Create a `Basic Pool` with the given supported assets and fee.
    #[verifier::loop_isolation(false)]
    pub fn add_basic_pool(&mut self, origin: Origin, assets: Vec<AssetId>, fee: Balance) -> (r: Result<Event, DispatchError>)
        requires
            reaches_fee_sum(old(self)@, origin, assets@) ==> fee + old(self)@.config.exchange_fee
                + old(self)@.config.referral_fee <= u128::MAX,
        ensures
            match signer(origin) {
                None => r == Err::<Event, DispatchError>(DispatchError::BadOrigin) && final(self)@ == old(self)@,
                Some(who) => match add_basic_pool_outcome(old(self)@, assets@, fee) {
                    Err(e) => r == Err::<Event, DispatchError>(DispatchError::Module(e)) && final(self)@ == old(self)@,
                    Ok((s, id)) => r matches Ok(Event::PoolAdded(w, i, a)) && w == who && i == id && a@ == assets@ && final(self)@ == s,
                },
            },
            r != Err::<Event, DispatchError>(DispatchError::Module(Error::InvalidPoolId)),
            final(self)@.number_of_pools() == old(self)@.number_of_pools() + if r is Ok { 1int } else { 0 },
            final(self)@.pools.dom() == crate::laws::pool_ids_up_to(final(self)@.number_of_pools()),
    {
        proof {
            use_type_invariant(&*self);
        }
        let who = ensure_signed(origin)?;
        let n = assets.len();
        let mut i: usize = 0;
        while i < n
            invariant
                n == assets.len(),
                i <= n,
                forall|j: int| 0 <= j < i ==> self@.allowed_assets.contains(#[trigger] assets@[j]),
            decreases n - i,
        {
            if !self.allowed_assets.contains_key(&assets[i]) {
                return Err(DispatchError::Module(Error::AssetNotFound));
            }
            i = i + 1;
        }
        let pool_count = self.get_number_of_pools();
        if pool_count >= self.config.max_pool_limit {
            return Err(DispatchError::Module(Error::PoolLimitReached));
        }
        let exchange_fee = self.config.exchange_fee;
        let referral_fee = self.config.referral_fee;
        let pool = match SimplePool::new(
            assets.clone(),
            fee + exchange_fee + referral_fee,
            exchange_fee,
            referral_fee,
            self.config.fee_divisor,
        ) {
            Ok(p) => p,
            Err(e) => return Err(DispatchError::Module(e)),
        };
        let next_pool_id: PoolId = pool_count + 1;
        if self.pools.contains_key(&next_pool_id) {
            return Err(DispatchError::Module(Error::InvalidPoolId));
        }
        let pool = Pool::BasicPool(pool);
        self.add_pool(next_pool_id, pool);
        Ok(Event::PoolAdded(who, next_pool_id, assets))
    }

    /// Given specific pool, returns amount of `asset_out` received swapping `amount_in` of
    /// `asset_in`.
    pub fn get_return(&self, pool_id: PoolId, asset_in: AssetId, amount_in: Balance, asset_out: AssetId) -> (r: Result<Balance, Error>)
        ensures
            r == get_return_outcome(self@, pool_id, asset_in, amount_in, asset_out),
    {
        proof {
            use_type_invariant(self);
        }
        match self.pools.get(&pool_id) {
            None => Err(Error::PoolNotFound),
            Some(p) => p.get_return(&asset_in, amount_in, &asset_out, self.config.fee_divisor),
        }
    }

    /// Returns information about specified pool if it exists
    pub fn get_pool_info(&self, pool_id: &PoolId) -> (r: Option<PoolInfo>)
        ensures
            match r {
                Some(info) => self@.pools.contains_key(*pool_id) && info.asset_ids@ == self@.pools[*pool_id].asset_ids
                    && info.amounts@ == self@.pools[*pool_id].amounts && info.total_fee == self@.pools[*pool_id].total_fee
                    && info.shares_total_supply == self@.pools[*pool_id].total_supply,
                None => !self@.pools.contains_key(*pool_id),
            },
    {
        match self.pools.get(pool_id) {
            Some(p) => Some(p.info()),
            None => None,
        }
    }

    /// Add liquidity from already deposited amounts to a pool
    pub fn add_liquidity(&mut self, origin: Origin, pool_id: PoolId, asset_deposits: Vec<AssetBalance>) -> (r: Result<Event, DispatchError>)
        ensures
            match signer(origin) {
                None => r == Err::<Event, DispatchError>(DispatchError::BadOrigin) && final(self)@ == old(self)@,
                Some(who) => match add_liquidity_outcome(old(self)@, who, pool_id, asset_deposits@) {
                    Err(e) => r == Err::<Event, DispatchError>(DispatchError::Module(e)) && final(self)@ == old(self)@,
                    Ok((s, taken)) => r matches Ok(Event::AddedLiquidity(w, listed)) && w == who && sorted_listing(taken, listed@)
                        && final(self)@ == s,
                },
            },
            forall|asset: AssetId| #[trigger] total_of(final(self)@, asset) == total_of(old(self)@, asset),
    {
        proof {
            use_type_invariant(&*self);
        }
        let who = ensure_signed(origin)?;
        let ghost s0 = self@;
        let mut deposits = match ensure_unique_assets(asset_deposits) {
            Ok(m) => m,
            Err(e) => return Err(DispatchError::Module(e)),
        };
        let ghost m0 = deposits@;
        let mut account = match self.deposited_amounts.get(&who) {
            Some(d) => d.duplicate(),
            None => return Err(DispatchError::Module(Error::AccountNotFound)),
        };
        if let Err(e) = account.can_sub_all(&deposits) {
            return Err(DispatchError::Module(e));
        }
        let mut pool = match self.pools.get(&pool_id) {
            Some(p) => p.duplicate(),
            None => return Err(DispatchError::Module(Error::PoolNotFound)),
        };
        if let Err(e) = pool.add_liquidity(&who, &mut deposits, self.config.init_shares_supply, self.config.fee_divisor) {
            return Err(DispatchError::Module(e));
        }
        assert forall|a: AssetId| #[trigger] deposits@.contains_key(a) implies !short(account.assets@, a, deposits@[a]) by {
            assert(m0.contains_key(a));
            assert(!short(account.assets@, a, m0[a]));
        }
        account.sub_all(&deposits);
        let listed = sorted_balances(&deposits);
        self.put_pool(pool_id, pool);
        self.put_deposit(who, account);
        proof {
            let out = add_liquidity_outcome(s0, who, pool_id, asset_deposits@);
            assert(out is Ok && self@ == out->Ok_0.0);
            assert forall|asset: AssetId| #[trigger] total_of(self@, asset) == total_of(s0, asset) by {
                lemma_add_liquidity_conserves(s0, who, pool_id, asset_deposits@, asset);
            }
        }
        Ok(Event::AddedLiquidity(who, listed))
    }

    /// Returns `shares` liquidity shares of pool `pool_id` and credits the paid-out reserves to
    /// the caller's account, registering the account and its assets where needed.
    #[verifier::loop_isolation(false)]
    pub fn remove_liquidity(&mut self, origin: Origin, pool_id: PoolId, shares: Balance, min_amounts: Vec<Balance>) -> (r: Result<Event, DispatchError>)
        ensures
            match signer(origin) {
                None => r == Err::<Event, DispatchError>(DispatchError::BadOrigin) && final(self)@ == old(self)@,
                Some(who) => match remove_liquidity_outcome(old(self)@, who, pool_id, shares, min_amounts@) {
                    Err(e) => r == Err::<Event, DispatchError>(DispatchError::Module(e)) && final(self)@ == old(self)@,
                    Ok(s) => r == Ok::<Event, DispatchError>(Event::RemovedLiquidity) && final(self)@ == s,
                },
            },
            forall|asset: AssetId| #[trigger] total_of(final(self)@, asset) == total_of(old(self)@, asset),
    {
        proof {
            use_type_invariant(&*self);
        }
        let who = ensure_signed(origin)?;
        let ghost s0 = self@;
        let mut pool = match self.pools.get(&pool_id) {
            Some(p) => p.duplicate(),
            None => return Err(DispatchError::Module(Error::PoolNotFound)),
        };
        let out = match pool.remove_liquidity(&who, shares, &min_amounts, self.config.fee_divisor) {
            Ok(v) => v,
            Err(e) => return Err(DispatchError::Module(e)),
        };
        let mut account = match self.deposited_amounts.get(&who) {
            Some(d) => d.duplicate(),
            None => AccountDeposit::default(),
        };
        let ghost d0 = account@;
        assert(d0.assets =~= deposit_or_empty(self@, who).assets);
        let ids = pool.asset_ids();
        let ghost p = pool@;
        let n = ids.len();
        let mut k: usize = 0;
        while k < n
            invariant
                k <= n,
                n == p.asset_ids.len(),
                out@.len() == n,
                ids@ == p.asset_ids,
                distinct_assets(p.asset_ids),
                account@.amount == d0.amount,
                !payout_overflows(d0.assets, p.asset_ids, out@, k as int),
                account@.assets =~= paid_out(d0.assets, p.asset_ids, out@, k as int),
            decreases n - k,
        {
            let ghost a = ids@[k as int];
            assert(!listed(p.asset_ids, k as int, a)) by {
                assert forall|j: int| 0 <= j < k implies #[trigger] p.asset_ids[j] != a by {
                    assert(p.asset_ids[j] != p.asset_ids[k as int]);
                }
            }
            assert(balance_of(account@.assets, a) == balance_of(d0.assets, a));
            if let Err(e) = account.credit(&ids[k], out[k]) {
                assert(balance_of(d0.assets, p.asset_ids[k as int]) + out@[k as int] > u128::MAX);
                return Err(DispatchError::Module(e));
            }
            proof {
                assert(p.asset_ids.index_of(a) == k as int) by {
                    assert(p.asset_ids.contains(a)) by {
                        assert(p.asset_ids[k as int] == a);
                    }
                    let j = p.asset_ids.index_of(a);
                    if j != k as int {
                        if j < k as int {
                            assert(p.asset_ids[j] != p.asset_ids[k as int]);
                        } else {
                            assert(p.asset_ids[k as int] != p.asset_ids[j]);
                        }
                    }
                }
                assert forall|b: AssetId| #[trigger] listed(p.asset_ids, k + 1, b) <==> (listed(p.asset_ids, k as int, b) || b == a) by {
                    if b == a {
                        assert(p.asset_ids[k as int] == b);
                    }
                    if listed(p.asset_ids, k as int, b) {
                        let j = choose|j: int| 0 <= j < k && #[trigger] p.asset_ids[j] == b;
                        assert(0 <= j < k + 1 && p.asset_ids[j] == b);
                    }
                    if listed(p.asset_ids, k + 1, b) {
                        let j = choose|j: int| 0 <= j < k + 1 && #[trigger] p.asset_ids[j] == b;
                        if j < k {
                            assert(listed(p.asset_ids, k as int, b));
                        }
                    }
                }
                assert forall|j: int| 0 <= j < k + 1 implies !(balance_of(d0.assets, #[trigger] p.asset_ids[j]) + out@[j] > u128::MAX) by {
                    if j < k {
                        assert(!(balance_of(d0.assets, p.asset_ids[j]) + out@[j] > u128::MAX));
                    }
                }
            }
            k = k + 1;
        }
        self.put_pool(pool_id, pool);
        self.put_deposit(who, account);
        proof {
            let out = remove_liquidity_outcome(s0, who, pool_id, shares, min_amounts@);
            assert(out is Ok && self@ == out->Ok_0);
            assert forall|asset: AssetId| #[trigger] total_of(self@, asset) == total_of(s0, asset) by {
                lemma_remove_liquidity_conserves(s0, who, pool_id, shares, min_amounts@, asset);
            }
        }
        Ok(Event::RemovedLiquidity)
    }

    /// Swap some assets via a series of asset swap actions.
    ///
    /// `referral_account` is an optional account that also should get paid for this swap
    /// according to the pool's referral fee.
    /// For example an intermediary that facilitated this transaction.
    pub fn swap(&mut self, origin: Origin, swap_actions: Vec<AssetSwap>, referral_account: Option<AccountId>) -> (r: Result<Event, DispatchError>)
        ensures
            match signer(origin) {
                None => r == Err::<Event, DispatchError>(DispatchError::BadOrigin) && final(self)@ == old(self)@,
                Some(who) => match swap_outcome(old(self)@, who, swap_actions@, referral_account) {
                    Err(e) => r == Err::<Event, DispatchError>(DispatchError::Module(e)) && final(self)@ == old(self)@,
                    Ok((s, infos)) => r matches Ok(Event::Swapped(w, swapped)) && w == who && swapped@ == infos && final(self)@ == s,
                },
            },
            r != Err::<Event, DispatchError>(DispatchError::Module(Error::InvalidCurveInvariant)),
            forall|asset: AssetId| #[trigger] total_of(final(self)@, asset) == total_of(old(self)@, asset),
    {
        proof {
            use_type_invariant(&*self);
        }
        let who = ensure_signed(origin)?;
        let ghost s0 = self@;
        let mut account = match self.deposited_amounts.get(&who) {
            Some(d) => d.duplicate(),
            None => return Err(DispatchError::Module(Error::AccountNotFound)),
        };
        let mut pools = self.pools.clone();
        let exchange_account = self.exchange_account;
        let fee_divisor = self.config.fee_divisor;
        let mut prev: Option<Balance> = None;
        let mut swapped: Vec<AssetSwapInfo> = Vec::new();
        let n = swap_actions.len();
        let mut k: usize = 0;
        assert(s0.deposits.insert(who, account@) =~= s0.deposits);
        assert(pools@.map_values(|p: Pool| p@) =~= s0.pools);
        assert(swapped@ =~= Seq::<AssetSwapInfo>::empty());
        while k < n
            invariant
                n == swap_actions@.len(),
                k <= n,
                self@ == s0,
                old(self)@ == s0,
                signer(origin) == Some(who),
                s0.wf(),
                s0.deposits.contains_key(who),
                fee_divisor == s0.config.fee_divisor,
                exchange_account == s0.exchange_account,
                swap_prefix(s0, who, swap_actions@, referral_account, k as int) == Ok::<(ExchangeState, Option<Balance>, Seq<AssetSwapInfo>), Error>((
                    ExchangeState {
                        pools: pools@.map_values(|p: Pool| p@),
                        deposits: s0.deposits.insert(who, account@),
                        ..s0
                    },
                    prev,
                    swapped@,
                )),
                (ExchangeState {
                    pools: pools@.map_values(|p: Pool| p@),
                    deposits: s0.deposits.insert(who, account@),
                    ..s0
                }).wf(),
            decreases n - k,
        {
            let ghost sk = ExchangeState {
                pools: pools@.map_values(|p: Pool| p@),
                deposits: s0.deposits.insert(who, account@),
                ..s0
            };
            let action = swap_actions[k];
            assert(action == swap_actions@[k as int]);
            match swap_action(&mut pools, &mut account, prev, action, exchange_account, referral_account, fee_divisor, Ghost(sk), who) {
                Ok(info) => {
                    assert(s0.deposits.insert(who, account@) =~= sk.deposits.insert(who, account@));
                    swapped.push(info);
                    prev = Some(info.amount_out);
                },
                Err(e) => {
                    proof {
                        assert(swap_step(sk, who, prev, action, referral_account) == Err::<(ExchangeState, AssetSwapInfo), Error>(e));
                        assert(swap_prefix(s0, who, swap_actions@, referral_account, k + 1) == Err::<(ExchangeState, Option<Balance>, Seq<AssetSwapInfo>), Error>(e));
                        lemma_swap_prefix_err(s0, who, swap_actions@, referral_account, k + 1, n as int);
                    }
                    return Err(DispatchError::Module(e));
                },
            }
            k = k + 1;
        }
        self.pools = pools;
        self.put_deposit(who, account);
        proof {
            assert forall|asset: AssetId| #[trigger] total_of(self@, asset) == total_of(s0, asset) by {
                lemma_swap_prefix_conserves(s0, who, swap_actions@, referral_account, n as int, asset);
            }
        }
        Ok(Event::Swapped(who, swapped))
    }
}

} // verus!

verus! {

/// The balance of `asset` in each account.
pub open spec fn holdings(s: ExchangeState, asset: AssetId) -> Map<AccountId, int> {
    s.deposits.map_values(|d: DepositState| balance_of(d.assets, asset))
}

/// The reserve of `asset` in each pool.
pub open spec fn reserves(s: ExchangeState, asset: AssetId) -> Map<PoolId, int> {
    s.pools.map_values(|p: PoolState| p.reserve(asset))
}

/// All of `asset` the exchange holds: in the accounts and in the pools.
pub open spec fn total_of(s: ExchangeState, asset: AssetId) -> int {
    map_sum(holdings(s, asset)) + map_sum(reserves(s, asset))
}

/// Replacing the deposit of `who` changes the total by the change of its balance.
pub proof fn lemma_total_with_deposit(s: ExchangeState, who: AccountId, d: DepositState, asset: AssetId)
    requires
        s.deposits.dom().finite(),
    ensures
        total_of(s.with_deposit(who, d), asset) == total_of(s, asset) - balance_of(deposit_or_empty(s, who).assets, asset)
            + balance_of(d.assets, asset),
{
    let h = holdings(s, asset);
    assert(h.dom() =~= s.deposits.dom());
    assert(holdings(s.with_deposit(who, d), asset) =~= h.insert(who, balance_of(d.assets, asset)));
    lemma_map_sum_insert(h, who, balance_of(d.assets, asset));
    if !s.deposits.contains_key(who) {
        assert(balance_of(Map::<AssetId, Balance>::empty(), asset) == 0);
    }
}

/// Replacing the pool `id` changes the total by the change of its reserve.
pub proof fn lemma_total_with_pool(s: ExchangeState, id: PoolId, p: PoolState, asset: AssetId)
    requires
        s.pools.dom().finite(),
        s.pools.contains_key(id),
    ensures
        total_of(s.with_pool(id, p), asset) == total_of(s, asset) - s.pools[id].reserve(asset) + p.reserve(asset),
{
    let r = reserves(s, asset);
    assert(r.dom() =~= s.pools.dom());
    assert(reserves(s.with_pool(id, p), asset) =~= r.insert(id, p.reserve(asset)));
    lemma_map_sum_insert(r, id, p.reserve(asset));
    assert(holdings(s.with_pool(id, p), asset) == holdings(s, asset));
}

/// A swap action keeps the total of every asset: what leaves the account enters the pool and
/// the other way round.
pub proof fn lemma_swap_step_conserves(s: ExchangeState, who: AccountId, prev: Option<Balance>, action: AssetSwap, referral: Option<AccountId>, asset: AssetId)
    requires
        s.wf(),
        s.deposits.contains_key(who),
        swap_step(s, who, prev, action, referral) is Ok,
    ensures
        total_of(swap_step(s, who, prev, action, referral)->Ok_0.0, asset) == total_of(s, asset),
        swap_step(s, who, prev, action, referral)->Ok_0.0.wf(),
        swap_step(s, who, prev, action, referral)->Ok_0.0.deposits.contains_key(who),
{
    let amount_in = match action.amount_in {
        Some(a) => a,
        None => prev->0,
    };
    let p = s.pools[action.pool_id];
    let d = s.deposits[who];
    let v = sub_result(d.assets, action.asset_in, amount_in)->Ok_0;
    let d1 = set_balance(d, action.asset_in, v);
    let (p2, out) = swap_result(p, action.asset_in, amount_in, action.asset_out, action.min_amount_out, s.exchange_account, referral, s.config.fee_divisor)->Ok_0;
    let w = add_result(d1.assets, action.asset_out, out)->Ok_0;
    let d2 = set_balance(d1, action.asset_out, w);
    lemma_swap_reserves(p, action.asset_in, amount_in, action.asset_out, action.min_amount_out, s.exchange_account, referral, s.config.fee_divisor, asset);
    let s1 = s.with_pool(action.pool_id, p2);
    lemma_total_with_pool(s, action.pool_id, p2, asset);
    lemma_total_with_deposit(s1, who, d2, asset);
    assert(deposit_or_empty(s1, who) == d);
    crate::pool::lemma_swap_keeps_wf(p, action.asset_in, amount_in, action.asset_out, action.min_amount_out, s.exchange_account, referral, s.config.fee_divisor);
    let s2 = swap_step(s, who, prev, action, referral)->Ok_0.0;
    assert(s2 == s1.with_deposit(who, d2));
    assert forall|id: PoolId| #[trigger] s2.pools.contains_key(id) implies s2.pools[id].wf(s2.config.fee_divisor) && 1 <= id <= s2.number_of_pools() by {
        if id != action.pool_id {
            assert(s.pools.contains_key(id));
        }
    }
}

/// The first `k` swap actions keep the total of every asset.
pub proof fn lemma_swap_prefix_conserves(s: ExchangeState, who: AccountId, actions: Seq<AssetSwap>, referral: Option<AccountId>, k: int, asset: AssetId)
    requires
        s.wf(),
        s.deposits.contains_key(who),
        swap_prefix(s, who, actions, referral, k) is Ok,
    ensures
        total_of(swap_prefix(s, who, actions, referral, k)->Ok_0.0, asset) == total_of(s, asset),
        swap_prefix(s, who, actions, referral, k)->Ok_0.0.wf(),
        swap_prefix(s, who, actions, referral, k)->Ok_0.0.deposits.contains_key(who),
    decreases k,
{
    if k > 0 {
        lemma_swap_prefix_conserves(s, who, actions, referral, k - 1, asset);
        let (s1, prev, infos) = swap_prefix(s, who, actions, referral, k - 1)->Ok_0;
        lemma_swap_step_conserves(s1, who, prev, actions[k - 1], referral, asset);
    }
}

/// Adding liquidity keeps the total of every asset: what leaves the account enters the pool.
pub proof fn lemma_add_liquidity_conserves(s: ExchangeState, who: AccountId, id: PoolId, deposits: Seq<AssetBalance>, asset: AssetId)
    requires
        s.wf(),
        add_liquidity_outcome(s, who, id, deposits) is Ok,
    ensures
        total_of(add_liquidity_outcome(s, who, id, deposits)->Ok_0.0, asset) == total_of(s, asset),
{
    let m = balances_map(deposits);
    let d = s.deposits[who];
    let p = s.pools[id];
    let (p2, taken) = add_liquidity_result(p, who, m, s.config.init_shares_supply)->Ok_0;
    lemma_add_liquidity_reserves(p, who, m, s.config.init_shares_supply, s.config.fee_divisor, asset);
    let s1 = s.with_pool(id, p2);
    let d2 = DepositState { assets: take_all(d.assets, taken), ..d };
    lemma_total_with_pool(s, id, p2, asset);
    lemma_total_with_deposit(s1, who, d2, asset);
    assert(deposit_or_empty(s1, who) == d);
    assert(shortfall(d.assets, m) is None);
    crate::deposit::lemma_balances_map_finite(deposits);
    if taken.contains_key(asset) {
        assert(m.contains_key(asset));
        crate::deposit::lemma_no_shortfall(d.assets, m, asset);
        assert(!short(d.assets, asset, m[asset]));
    }
}

/// Removing liquidity keeps the total of every asset: what leaves the pool enters the account.
pub proof fn lemma_remove_liquidity_conserves(s: ExchangeState, who: AccountId, id: PoolId, shares: Balance, min_amounts: Seq<Balance>, asset: AssetId)
    requires
        s.wf(),
        remove_liquidity_outcome(s, who, id, shares, min_amounts) is Ok,
    ensures
        total_of(remove_liquidity_outcome(s, who, id, shares, min_amounts)->Ok_0, asset) == total_of(s, asset),
{
    let p = s.pools[id];
    let (p2, out) = remove_liquidity_result(p, who, shares, min_amounts)->Ok_0;
    lemma_remove_liquidity_reserves(p, who, shares, min_amounts, s.config.fee_divisor, asset);
    let d = deposit_or_empty(s, who);
    let n = p2.asset_ids.len() as int;
    let d2 = DepositState { assets: paid_out(d.assets, p2.asset_ids, out, n), ..d };
    let s1 = s.with_pool(id, p2);
    lemma_total_with_pool(s, id, p2, asset);
    lemma_total_with_deposit(s1, who, d2, asset);
    assert(deposit_or_empty(s1, who) == d);
    if p.asset_ids.contains(asset) {
        let k = p.index(asset);
        assert(p.asset_ids[k] == asset);
        assert(listed(p2.asset_ids, n, asset));
        assert(!(balance_of(d.assets, p2.asset_ids[k]) + out[k] > u128::MAX));
    } else {
        assert(!listed(p2.asset_ids, n, asset));
    }
}

} // verus!
