use vstd::prelude::*;
use std::collections::BTreeMap;
use crate::math::{
    balance_max, integer_sqrt, isqrt, lemma_isqrt_exists, lemma_isqrt_monotonic,
    lemma_map_sum_empty, lemma_map_sum_insert, map_sum,
};
use crate::types::{AccountId, AssetId, Balance, Error};

verus! {

broadcast use vstd::std_specs::btree::group_btree_axioms, vstd::laws_cmp::group_laws_cmp;

/// A constant product pool of two or more assets, with liquidity shares held by providers.
#[derive(Clone, Debug)]
pub struct SimplePool {
    /// List of assets in the pool.
    pub asset_ids: Vec<AssetId>,
    /// Reserves of each asset, in the order of `asset_ids`.
    pub amounts: Vec<Balance>,
    /// Liquidity shares of the pool by liquidity providers.
    pub assets: BTreeMap<AccountId, Balance>,
    /// Fee charged for swap (gets divided by the fee divisor).
    pub total_fee: Balance,
    /// Portion of the fee going to exchange.
    pub exchange_fee: Balance,
    /// Portion of the fee going to referral.
    pub referral_fee: Balance,
    /// Total number of liquidity shares.
    pub assets_total_supply: Balance,
}

/// The pool kind that `add_basic_pool` creates.
pub type BasicPool = SimplePool;

/// The pools the exchange can hold.
#[derive(Clone, Debug)]
pub enum Pool {
    BasicPool(SimplePool),
}

/// Information about a pool, as handed out to callers.
#[derive(Clone, Debug)]
pub struct PoolInfo {
    /// Assets of the pool.
    pub asset_ids: Vec<AssetId>,
    /// Reserves of each asset, in the order of `asset_ids`.
    pub amounts: Vec<Balance>,
    /// Fee charged for swaps.
    pub total_fee: Balance,
    /// Total number of liquidity shares.
    pub shares_total_supply: Balance,
}

/// The mathematical content of a pool.
pub struct PoolState {
    pub asset_ids: Seq<AssetId>,
    pub amounts: Seq<Balance>,
    pub shares: Map<AccountId, Balance>,
    pub total_fee: Balance,
    pub exchange_fee: Balance,
    pub referral_fee: Balance,
    pub total_supply: Balance,
}

impl View for SimplePool {
    type V = PoolState;

    open spec fn view(&self) -> PoolState {
        PoolState {
            asset_ids: self.asset_ids@,
            amounts: self.amounts@,
            shares: self.assets@,
            total_fee: self.total_fee,
            exchange_fee: self.exchange_fee,
            referral_fee: self.referral_fee,
            total_supply: self.assets_total_supply,
        }
    }
}

impl View for Pool {
    type V = PoolState;

    open spec fn view(&self) -> PoolState {
        match self {
            Pool::BasicPool(p) => p@,
        }
    }
}

/// The shares of a pool as integers.
pub open spec fn shares_as_int(shares: Map<AccountId, Balance>) -> Map<u64, int> {
    shares.map_values(|v: Balance| v as int)
}

/// The account an optional reference points to.
pub open spec fn opt_account(a: Option<&AccountId>) -> Option<AccountId> {
    match a {
        Some(x) => Some(*x),
        None => None,
    }
}

/// No asset occurs twice in the list.
pub open spec fn distinct_assets(ids: Seq<AssetId>) -> bool {
    forall|i: int, j: int| 0 <= i < j < ids.len() ==> ids[i] != ids[j]
}

impl PoolState {
    /// The pool is consistent for fees divided by `fee_divisor`.
    pub open spec fn wf(self, fee_divisor: Balance) -> bool {
        &&& self.asset_ids.len() >= 2
        &&& distinct_assets(self.asset_ids)
        &&& self.amounts.len() == self.asset_ids.len()
        &&& self.total_fee < fee_divisor
        &&& self.exchange_fee + self.referral_fee <= self.total_fee
        &&& self.shares.dom().finite()
        &&& map_sum(shares_as_int(self.shares)) == self.total_supply
        &&& forall|a: AccountId| #[trigger] self.shares.contains_key(a) ==> self.shares[a] > 0
        &&& (self.total_supply == 0 ==> forall|i: int|
            0 <= i < self.amounts.len() ==> #[trigger] self.amounts[i] == 0)
        &&& (self.total_supply > 0 ==> forall|i: int|
            0 <= i < self.amounts.len() ==> #[trigger] self.amounts[i] > 0)
    }

    /// The position of `asset` in the pool.
    pub open spec fn index(self, asset: AssetId) -> int {
        self.asset_ids.index_of(asset)
    }

    /// The reserve of `asset` held by the pool, zero for assets outside it.
    pub open spec fn reserve(self, asset: AssetId) -> int {
        if self.asset_ids.contains(asset) {
            self.amounts[self.index(asset)] as int
        } else {
            0
        }
    }

    /// The shares held by `account`, zero if it holds none.
    pub open spec fn shares_of(self, account: AccountId) -> int {
        if self.shares.contains_key(account) {
            self.shares[account] as int
        } else {
            0
        }
    }
}

/// The outcome of creating a pool.
pub open spec fn new_pool_result(
    asset_ids: Seq<AssetId>,
    total_fee: Balance,
    exchange_fee: Balance,
    referral_fee: Balance,
    fee_divisor: Balance,
) -> Result<PoolState, Error> {
    if total_fee >= fee_divisor || exchange_fee + referral_fee > total_fee {
        Err(Error::PoolFeeTooLarge)
    } else if asset_ids.len() < 2 || !distinct_assets(asset_ids) {
        Err(Error::InvalidPoolAssets)
    } else {
        Ok(
            PoolState {
                asset_ids,
                amounts: Seq::new(asset_ids.len(), |i: int| 0u128),
                shares: Map::empty(),
                total_fee,
                exchange_fee,
                referral_fee,
                total_supply: 0,
            },
        )
    }
}

/// The amount of the out asset a swap of `amount_in` yields, before rounding checks.
pub open spec fn return_amount(
    amount_in: int,
    in_balance: int,
    out_balance: int,
    total_fee: int,
    fee_divisor: int,
) -> int {
    let with_fee = amount_in * (fee_divisor - total_fee);
    (with_fee * out_balance) / (fee_divisor * in_balance + with_fee)
}

/// Whether one of the products in `return_amount` leaves the range of a balance.
pub open spec fn return_overflows(
    amount_in: int,
    in_balance: int,
    out_balance: int,
    total_fee: int,
    fee_divisor: int,
) -> bool {
    let with_fee = amount_in * (fee_divisor - total_fee);
    ||| with_fee > balance_max()
    ||| fee_divisor * in_balance > balance_max()
    ||| fee_divisor * in_balance + with_fee > balance_max()
    ||| with_fee * out_balance > balance_max()
}

/// The outcome of asking a pool what a swap would return.
pub open spec fn get_return_result(
    p: PoolState,
    asset_in: AssetId,
    amount_in: Balance,
    asset_out: AssetId,
    fee_divisor: Balance,
) -> Result<Balance, Error> {
    if !p.asset_ids.contains(asset_in) || !p.asset_ids.contains(asset_out) {
        Err(Error::AssetNotFound)
    } else if asset_in == asset_out {
        Err(Error::InvalidPoolAssets)
    } else {
        let in_balance = p.amounts[p.index(asset_in)] as int;
        let out_balance = p.amounts[p.index(asset_out)] as int;
        if in_balance == 0 || out_balance == 0 {
            Err(Error::NotEnoughBalance)
        } else if return_overflows(
            amount_in as int,
            in_balance,
            out_balance,
            p.total_fee as int,
            fee_divisor as int,
        ) {
            Err(Error::StorageOverflow)
        } else {
            Ok(
                return_amount(
                    amount_in as int,
                    in_balance,
                    out_balance,
                    p.total_fee as int,
                    fee_divisor as int,
                ) as Balance,
            )
        }
    }
}

/// A swap never takes out more than the reserve of the out asset, and never lowers the
/// product of the two reserves.
pub proof fn lemma_return_bounds(a: int, inb: int, outb: int, f: int, d: int)
    requires
        0 <= a,
        0 < inb,
        0 < outb,
        0 <= f < d,
    ensures
        0 <= return_amount(a, inb, outb, f, d) < outb,
        (inb + a) * (outb - return_amount(a, inb, outb, f, d)) >= inb * outb,
{
    let w = a * (d - f);
    let den = d * inb + w;
    let o = return_amount(a, inb, outb, f, d);
    assert(w >= 0) by (nonlinear_arith)
        requires
            0 <= a,
            f < d,
            w == a * (d - f),
    ;
    assert(den > w) by (nonlinear_arith)
        requires
            den == d * inb + w,
            0 < inb,
            0 < d,
    ;
    assert(o == (w * outb) / den);
    assert(0 <= o && o * den <= w * outb) by (nonlinear_arith)
        requires
            o == (w * outb) / den,
            den > 0,
            w >= 0,
            outb > 0,
    ;
    assert(o < outb) by (nonlinear_arith)
        requires
            o * den <= w * outb,
            den > w,
            w >= 0,
            outb > 0,
            o >= 0,
    ;
    // o * (d * inb + a * w') <= a * w' * outb, with w' = d - f <= d, gives o * (inb + a) <= a * outb.
    assert(o * (inb + a) <= a * outb) by (nonlinear_arith)
        requires
            o * (d * inb + a * (d - f)) <= a * (d - f) * outb,
            0 <= f < d,
            o >= 0,
            inb > 0,
            a >= 0,
    ;
    assert((inb + a) * (outb - o) >= inb * outb) by (nonlinear_arith)
        requires
            o * (inb + a) <= a * outb,
    ;
}


/// The shares map after crediting `minted` new shares to `account`.
pub open spec fn mint_result(p: PoolState, account: AccountId, minted: int) -> Result<PoolState, Error> {
    if minted == 0 {
        Ok(p)
    } else if p.shares_of(account) + minted > balance_max() || p.total_supply + minted
        > balance_max() {
        Err(Error::StorageOverflow)
    } else {
        Ok(
            PoolState {
                shares: p.shares.insert(account, (p.shares_of(account) + minted) as Balance),
                total_supply: (p.total_supply + minted) as Balance,
                ..p
            },
        )
    }
}

/// The shares minted for a fee portion `fee` out of the growth `numerator` of the invariant.
pub open spec fn fee_shares(numerator: int, new_invariant: int, total_fee: int, fee: int) -> int {
    numerator / ((new_invariant * total_fee) / fee)
}

/// The pool after paying the fee portion `fee` to `account` as liquidity shares.
pub open spec fn fee_mint_result(
    p: PoolState,
    account: Option<AccountId>,
    fee: Balance,
    numerator: int,
    new_invariant: int,
) -> Result<PoolState, Error> {
    if account is Some && fee > 0 && numerator > 0 {
        if new_invariant * p.total_fee > balance_max() {
            Err(Error::StorageOverflow)
        } else {
            mint_result(
                p,
                account->0,
                fee_shares(numerator, new_invariant, p.total_fee as int, fee as int),
            )
        }
    } else {
        Ok(p)
    }
}

/// The outcome of swapping `amount_in` of `asset_in` for `asset_out` in a pool: the new pool and
/// the amount paid out.
pub open spec fn swap_result(
    p: PoolState,
    asset_in: AssetId,
    amount_in: Balance,
    asset_out: AssetId,
    min_amount_out: Balance,
    exchange: Option<AccountId>,
    referral: Option<AccountId>,
    fee_divisor: Balance,
) -> Result<(PoolState, Balance), Error> {
    match get_return_result(p, asset_in, amount_in, asset_out, fee_divisor) {
        Err(e) => Err(e),
        Ok(out) => {
            let i = p.index(asset_in);
            let j = p.index(asset_out);
            let in_b = p.amounts[i] as int;
            let out_b = p.amounts[j] as int;
            let new_in = in_b + amount_in;
            let new_out = out_b - out;
            if out < min_amount_out {
                Err(Error::NotEnoughBalance)
            } else if new_in > balance_max() || in_b * out_b > balance_max() || new_in * new_out
                > balance_max() {
                Err(Error::StorageOverflow)
            } else {
                let prev_invariant = isqrt(in_b * out_b);
                let new_invariant = isqrt(new_in * new_out);
                if new_invariant < prev_invariant {
                    Err(Error::InvalidCurveInvariant)
                } else if (new_invariant - prev_invariant) * p.total_supply > balance_max() {
                    Err(Error::StorageOverflow)
                } else {
                    let numerator = (new_invariant - prev_invariant) * p.total_supply;
                    let moved = PoolState {
                        amounts: p.amounts.update(i, new_in as Balance).update(
                            j,
                            new_out as Balance,
                        ),
                        ..p
                    };
                    match fee_mint_result(moved, exchange, p.exchange_fee, numerator, new_invariant) {
                        Err(e) => Err(e),
                        Ok(q) => match fee_mint_result(
                            q,
                            referral,
                            p.referral_fee,
                            numerator,
                            new_invariant,
                        ) {
                            Err(e) => Err(e),
                            Ok(r) => Ok((r, out)),
                        },
                    }
                }
            }
        }
    }
}

/// Fee shares are never negative.
pub proof fn lemma_fee_shares_nonneg(numerator: int, new_invariant: int, total_fee: int, fee: int)
    requires
        numerator >= 0,
        new_invariant >= 1,
        0 < fee <= total_fee,
    ensures
        fee_shares(numerator, new_invariant, total_fee, fee) >= 0,
        (new_invariant * total_fee) / fee >= 1,
{
    assert((new_invariant * total_fee) / fee >= 1) by (nonlinear_arith)
        requires
            new_invariant >= 1,
            0 < fee <= total_fee,
    ;
    assert(numerator / ((new_invariant * total_fee) / fee) >= 0) by (nonlinear_arith)
        requires
            numerator >= 0,
            (new_invariant * total_fee) / fee >= 1,
    ;
}

/// Crediting shares keeps the total supply the sum of all shares.
pub proof fn lemma_mint_keeps_sum(p: PoolState, account: AccountId, minted: int)
    requires
        p.shares.dom().finite(),
        map_sum(shares_as_int(p.shares)) == p.total_supply,
        minted >= 0,
        mint_result(p, account, minted) is Ok,
    ensures
        ({
            let q = mint_result(p, account, minted)->Ok_0;
            &&& q.shares.dom().finite()
            &&& map_sum(shares_as_int(q.shares)) == q.total_supply
            &&& q.total_supply >= p.total_supply
        }),
{
    if minted != 0 {
        let v = (p.shares_of(account) + minted) as Balance;
        assert(shares_as_int(p.shares.insert(account, v)) =~= shares_as_int(p.shares).insert(
            account,
            v as int,
        ));
        assert(shares_as_int(p.shares).dom() =~= p.shares.dom());
        lemma_map_sum_insert(shares_as_int(p.shares), account, v as int);
        assert(shares_as_int(p.shares.insert(account, v)).dom() =~= p.shares.dom().insert(account));
    }
}


/// A liquidity deposit names exactly the assets of the pool, each with a positive amount.
pub open spec fn deposit_matches(p: PoolState, d: Map<AssetId, Balance>) -> bool {
    &&& forall|a: AssetId| d.contains_key(a) <==> p.asset_ids.contains(a)
    &&& forall|a: AssetId| d.contains_key(a) ==> d[a] > 0
}

/// The deposited amount of the `i`-th asset of the pool.
pub open spec fn deposit_of(p: PoolState, d: Map<AssetId, Balance>, i: int) -> int {
    d[p.asset_ids[i]] as int
}

/// The shares the deposit of the `i`-th asset is worth.
pub open spec fn share_quote(p: PoolState, d: Map<AssetId, Balance>, i: int) -> int {
    (deposit_of(p, d, i) * p.total_supply) / (p.amounts[i] as int)
}

/// The least of the share quotes of the first `k` assets.
pub open spec fn fair_supply(p: PoolState, d: Map<AssetId, Balance>, k: int) -> int
    decreases k,
{
    if k <= 1 {
        share_quote(p, d, 0)
    } else {
        let prev = fair_supply(p, d, k - 1);
        let q = share_quote(p, d, k - 1);
        if q < prev {
            q
        } else {
            prev
        }
    }
}

/// The amount of the `i`-th asset taken for `fair` new shares.
pub open spec fn added_amount(p: PoolState, fair: int, i: int) -> int {
    ((p.amounts[i] as int) * fair) / (p.total_supply as int)
}

/// The outcome of adding the liquidity deposit `d` for `who`: the new pool and the amounts
/// actually taken from the deposit.
pub open spec fn add_liquidity_result(
    p: PoolState,
    who: AccountId,
    d: Map<AssetId, Balance>,
    init_shares: Balance,
) -> Result<(PoolState, Map<AssetId, Balance>), Error> {
    let n = p.asset_ids.len() as int;
    if !deposit_matches(p, d) {
        Err(Error::InvalidLiquidityDeposit)
    } else if p.total_supply == 0 {
        if exists|i: int| 0 <= i < n && p.amounts[i] + #[trigger] deposit_of(p, d, i) > balance_max() {
            Err(Error::StorageOverflow)
        } else {
            let q = PoolState {
                amounts: Seq::new(n as nat, |i: int| (p.amounts[i] + deposit_of(p, d, i)) as Balance),
                ..p
            };
            match mint_result(q, who, init_shares as int) {
                Err(e) => Err(e),
                Ok(r) => Ok((r, d)),
            }
        }
    } else if exists|i: int| 0 <= i < n && #[trigger] deposit_of(p, d, i) * p.total_supply > balance_max() {
        Err(Error::StorageOverflow)
    } else {
        let fair = fair_supply(p, d, n);
        if fair == 0 {
            Err(Error::InvalidLiquidityDeposit)
        } else if exists|i: int| 0 <= i < n && #[trigger] added_amount(p, fair, i) == 0 {
            Err(Error::InvalidLiquidityDeposit)
        } else if exists|i: int| 0 <= i < n && p.amounts[i] + #[trigger] added_amount(p, fair, i) > balance_max() {
            Err(Error::StorageOverflow)
        } else {
            let q = PoolState {
                amounts: Seq::new(n as nat, |i: int| (p.amounts[i] + added_amount(p, fair, i)) as Balance),
                ..p
            };
            match mint_result(q, who, fair) {
                Err(e) => Err(e),
                Ok(r) => Ok(
                    (
                        r,
                        Map::new(
                            |a: AssetId| d.contains_key(a),
                            |a: AssetId| added_amount(p, fair, p.index(a)) as Balance,
                        ),
                    ),
                ),
            }
        }
    }
}

/// A deposit naming each asset of the pool once covers exactly the pool's assets.
proof fn lemma_deposit_cover(ids: Seq<AssetId>, d: Map<AssetId, Balance>)
    requires
        distinct_assets(ids),
        d.dom().finite(),
    ensures
        (forall|i: int| 0 <= i < ids.len() ==> d.contains_key(#[trigger] ids[i])) && d.dom().len()
            == ids.len() ==> forall|a: AssetId| d.contains_key(a) <==> ids.contains(a),
        (forall|a: AssetId| d.contains_key(a) <==> ids.contains(a)) ==> d.dom().len() == ids.len(),
{
    broadcast use vstd::seq_lib::seq_to_set_is_finite;

    assert(ids.no_duplicates()) by {
        assert forall|i: int, j: int|
            0 <= i < ids.len() && 0 <= j < ids.len() && i != j implies ids[i] != ids[j] by {
            if i < j {
            } else {
            }
        }
    }
    ids.unique_seq_to_set();
    if (forall|i: int| 0 <= i < ids.len() ==> d.contains_key(#[trigger] ids[i])) && d.dom().len()
        == ids.len() {
        assert(ids.to_set().subset_of(d.dom()));
        vstd::set_lib::lemma_subset_equality(ids.to_set(), d.dom());
        assert forall|a: AssetId| d.contains_key(a) <==> ids.contains(a) by {
            if d.contains_key(a) {
                assert(ids.to_set().contains(a));
            }
        }
    }
    if forall|a: AssetId| d.contains_key(a) <==> ids.contains(a) {
        assert(d.dom() =~= ids.to_set());
    }
}

/// The least share quote is at most every quote and equal to one of them.
proof fn lemma_fair_supply_min(p: PoolState, d: Map<AssetId, Balance>, k: int)
    requires
        k >= 1,
    ensures
        forall|i: int| 0 <= i < k ==> fair_supply(p, d, k) <= #[trigger] share_quote(p, d, i),
        exists|i: int| 0 <= i < k && fair_supply(p, d, k) == #[trigger] share_quote(p, d, i),
    decreases k,
{
    if k > 1 {
        lemma_fair_supply_min(p, d, k - 1);
        let i0 = choose|i: int| 0 <= i < k - 1 && fair_supply(p, d, k - 1) == #[trigger] share_quote(p, d, i);
        assert(share_quote(p, d, i0) == fair_supply(p, d, k - 1));
    } else {
        assert(share_quote(p, d, 0) == fair_supply(p, d, k));
    }
}

/// Taking `fair` new shares never takes more of an asset than was deposited.
proof fn lemma_added_at_most_deposit(p: PoolState, d: Map<AssetId, Balance>, fair: int, i: int)
    requires
        0 <= fair <= share_quote(p, d, i),
        p.amounts[i] > 0,
        p.total_supply > 0,
        deposit_of(p, d, i) >= 0,
    ensures
        0 <= added_amount(p, fair, i) <= deposit_of(p, d, i),
        (p.amounts[i] as int) * fair <= deposit_of(p, d, i) * p.total_supply,
{
    let r = p.amounts[i] as int;
    let s = p.total_supply as int;
    let dep = deposit_of(p, d, i);
    assert(r * fair <= dep * s) by (nonlinear_arith)
        requires
            fair <= (dep * s) / r,
            r > 0,
            fair >= 0,
            dep >= 0,
            s > 0,
    ;
    assert(0 <= (r * fair) / s <= dep) by (nonlinear_arith)
        requires
            r * fair <= dep * s,
            s > 0,
            r > 0,
            fair >= 0,
    ;
}


/// The amount of the `i`-th asset paid out for `shares` liquidity shares.
pub open spec fn removed_amount(p: PoolState, shares: int, i: int) -> int {
    ((p.amounts[i] as int) * shares) / (p.total_supply as int)
}

/// The outcome of `who` returning `shares` liquidity shares: the new pool and the amounts paid
/// out, in the order of the pool's assets. `min_amounts[i]`, where given, is the least
/// acceptable pay-out of the `i`-th asset.
pub open spec fn remove_liquidity_result(
    p: PoolState,
    who: AccountId,
    shares: Balance,
    min_amounts: Seq<Balance>,
) -> Result<(PoolState, Seq<Balance>), Error> {
    let n = p.asset_ids.len() as int;
    if p.shares_of(who) < shares || !p.shares.contains_key(who) {
        Err(Error::NotEnoughBalance)
    } else if exists|i: int| 0 <= i < n && #[trigger] p.amounts[i] * shares > balance_max() {
        Err(Error::StorageOverflow)
    } else if exists|i: int|
        0 <= i < n && i < min_amounts.len() && #[trigger] removed_amount(p, shares as int, i)
            < min_amounts[i] {
        Err(Error::NotEnoughBalance)
    } else {
        let left = p.shares[who] - shares;
        Ok(
            (
                PoolState {
                    amounts: Seq::new(
                        n as nat,
                        |i: int| (p.amounts[i] - removed_amount(p, shares as int, i)) as Balance,
                    ),
                    shares: if left == 0 {
                        p.shares.remove(who)
                    } else {
                        p.shares.insert(who, left as Balance)
                    },
                    total_supply: (p.total_supply - shares) as Balance,
                    ..p
                },
                Seq::new(n as nat, |i: int| removed_amount(p, shares as int, i) as Balance),
            ),
        )
    }
}

/// A pay-out is never more than the reserve, and leaves a positive reserve while shares remain.
proof fn lemma_removed_bounds(r: int, s: int, total: int)
    requires
        0 <= s <= total,
        total > 0,
        r >= 0,
    ensures
        0 <= (r * s) / total <= r,
        s < total && r > 0 ==> (r * s) / total < r,
        s == total ==> (r * s) / total == r,
{
    assert(0 <= (r * s) / total <= r) by (nonlinear_arith)
        requires
            0 <= s <= total,
            total > 0,
            r >= 0,
    ;
    if s < total && r > 0 {
        assert((r * s) / total < r) by (nonlinear_arith)
            requires
                0 <= s < total,
                total > 0,
                r > 0,
        ;
    }
    if s == total {
        assert((r * s) / total == r) by (nonlinear_arith)
            requires
                s == total,
                total > 0,
        ;
    }
}

impl SimplePool {
    /// Creates an empty pool of the given assets and fees.
    ///
    /// Fails with `PoolFeeTooLarge` if the total fee is not below `fee_divisor` or its portions
    /// exceed it, and with `InvalidPoolAssets` unless at least two distinct assets are given.
    pub fn new(
        asset_ids: Vec<AssetId>,
        total_fee: Balance,
        exchange_fee: Balance,
        referral_fee: Balance,
        fee_divisor: Balance,
    ) -> (r: Result<SimplePool, Error>)
        ensures
            match r {
                Ok(p) => new_pool_result(
                    asset_ids@,
                    total_fee,
                    exchange_fee,
                    referral_fee,
                    fee_divisor,
                ) == Ok::<PoolState, Error>(p@) && p@.wf(fee_divisor),
                Err(e) => new_pool_result(
                    asset_ids@,
                    total_fee,
                    exchange_fee,
                    referral_fee,
                    fee_divisor,
                ) == Err::<PoolState, Error>(e),
            },
    {
        if total_fee >= fee_divisor || exchange_fee > total_fee || referral_fee > total_fee
            - exchange_fee {
            return Err(Error::PoolFeeTooLarge);
        }
        let n = asset_ids.len();
        if n < 2 {
            return Err(Error::InvalidPoolAssets);
        }
        let mut i: usize = 0;
        while i < n
            invariant
                n == asset_ids.len(),
                n >= 2,
                !(total_fee >= fee_divisor || exchange_fee + referral_fee > total_fee),
                i <= n,
                forall|a: int, b: int| 0 <= a < b < i ==> asset_ids@[a] != asset_ids@[b],
            decreases n - i,
        {
            let mut j: usize = 0;
            while j < i
                invariant
                    n == asset_ids.len(),
                    n >= 2,
                    !(total_fee >= fee_divisor || exchange_fee + referral_fee > total_fee),
                    j <= i < n,
                    forall|b: int| 0 <= b < j ==> asset_ids@[b] != asset_ids@[i as int],
                decreases i - j,
            {
                if asset_ids[j] == asset_ids[i] {
                    assert(!distinct_assets(asset_ids@));
                    return Err(Error::InvalidPoolAssets);
                }
                j = j + 1;
            }
            i = i + 1;
        }
        assert(distinct_assets(asset_ids@));
        let mut amounts: Vec<Balance> = Vec::new();
        let mut k: usize = 0;
        while k < n
            invariant
                k <= n,
                n == asset_ids.len(),
                amounts@ =~= Seq::new(k as nat, |i: int| 0u128),
            decreases n - k,
        {
            amounts.push(0);
            k = k + 1;
        }
        let pool = SimplePool {
            asset_ids,
            amounts,
            assets: BTreeMap::new(),
            total_fee,
            exchange_fee,
            referral_fee,
            assets_total_supply: 0,
        };
        proof {
            assert(shares_as_int(pool.assets@) =~= Map::<u64, int>::empty());
            lemma_map_sum_empty();
        }
        Ok(pool)
    }

    /// The position of `asset` in the pool, if it is one of the pool's assets.
    pub fn position(&self, asset: &AssetId) -> (r: Option<usize>)
        requires
            distinct_assets(self.asset_ids@),
        ensures
            match r {
                Some(i) => self@.asset_ids.contains(*asset) && i as int == self@.index(*asset) && i
                    < self.asset_ids.len() && self.asset_ids@[i as int] == *asset,
                None => !self@.asset_ids.contains(*asset),
            },
    {
        let n = self.asset_ids.len();
        let mut i: usize = 0;
        while i < n
            invariant
                n == self.asset_ids.len(),
                i <= n,
                distinct_assets(self.asset_ids@),
                forall|j: int| 0 <= j < i ==> self.asset_ids@[j] != *asset,
            decreases n - i,
        {
            if self.asset_ids[i] == *asset {
                assert(self@.asset_ids.contains(*asset));
                let ghost k = self@.index(*asset);
                assert(self.asset_ids@[k] == *asset);
                assert(k == i as int);
                return Some(i);
            }
            i = i + 1;
        }
        None
    }

    /// Returns the liquidity shares held by `account`, if it holds any.
    pub fn share_balances(&self, account: &AccountId) -> (r: Option<&Balance>)
        ensures
            match r {
                Some(v) => self.assets@.contains_key(*account) && *v == self.assets@[*account],
                None => !self.assets@.contains_key(*account),
            },
    {
        self.assets.get(account)
    }


    /// A copy of the pool.
    pub fn duplicate(&self) -> (r: SimplePool)
        ensures
            r@ == self@,
    {
        let asset_ids = self.asset_ids.clone();
        let amounts = self.amounts.clone();
        assert(asset_ids@ =~= self.asset_ids@);
        assert(amounts@ =~= self.amounts@);
        SimplePool {
            asset_ids,
            amounts,
            assets: self.assets.clone(),
            total_fee: self.total_fee,
            exchange_fee: self.exchange_fee,
            referral_fee: self.referral_fee,
            assets_total_supply: self.assets_total_supply,
        }
    }

    /// Credits `minted` new liquidity shares to `account`.
    fn mint(&mut self, account: AccountId, minted: Balance) -> (r: Result<(), Error>)
        ensures
            match r {
                Ok(()) => mint_result(old(self)@, account, minted as int) == Ok::<PoolState, Error>(
                    final(self)@,
                ),
                Err(e) => mint_result(old(self)@, account, minted as int) == Err::<
                    PoolState,
                    Error,
                >(e),
            },
    {
        if minted == 0 {
            return Ok(());
        }
        let held = match self.assets.get(&account) {
            Some(v) => *v,
            None => 0,
        };
        let new_held = match held.checked_add(minted) {
            Some(v) => v,
            None => return Err(Error::StorageOverflow),
        };
        let new_supply = match self.assets_total_supply.checked_add(minted) {
            Some(v) => v,
            None => return Err(Error::StorageOverflow),
        };
        self.assets.insert(account, new_held);
        self.assets_total_supply = new_supply;
        Ok(())
    }

    /// Pays the fee portion `fee` to `account` as liquidity shares.
    fn mint_fee(
        &mut self,
        account: Option<AccountId>,
        fee: Balance,
        numerator: Balance,
        new_invariant: Balance,
    ) -> (r: Result<(), Error>)
        requires
            fee <= old(self).total_fee,
            numerator > 0 ==> new_invariant > 0,
        ensures
            match r {
                Ok(()) => fee_mint_result(
                    old(self)@,
                    account,
                    fee,
                    numerator as int,
                    new_invariant as int,
                ) == Ok::<PoolState, Error>(final(self)@),
                Err(e) => fee_mint_result(
                    old(self)@,
                    account,
                    fee,
                    numerator as int,
                    new_invariant as int,
                ) == Err::<PoolState, Error>(e),
            },
    {
        match account {
            Some(acc) => {
                if fee > 0 && numerator > 0 {
                    let scaled = match new_invariant.checked_mul(self.total_fee) {
                        Some(v) => v,
                        None => return Err(Error::StorageOverflow),
                    };
                    assert(scaled / fee >= 1) by (nonlinear_arith)
                        requires
                            scaled == new_invariant * self.total_fee,
                            new_invariant >= 1,
                            self.total_fee >= fee,
                            fee > 0,
                    ;
                    let minted = numerator / (scaled / fee);
                    self.mint(acc, minted)
                } else {
                    Ok(())
                }
            },
            None => Ok(()),
        }
    }

    /// Swaps `amount_in` of `asset_in` for `asset_out`, paying the exchange and referral fee
    /// portions to `exchange` and `referral` as liquidity shares. Returns the amount paid out.
    ///
    /// Fails, leaving the pool unchanged, when the pool lacks an asset, the pay-out is below
    /// `min_amount_out`, or a product leaves the range of a balance.
    pub fn swap(
        &mut self,
        asset_in: &AssetId,
        amount_in: Balance,
        asset_out: &AssetId,
        min_amount_out: Balance,
        exchange: Option<&AccountId>,
        referral: Option<&AccountId>,
        fee_divisor: Balance,
    ) -> (r: Result<Balance, Error>)
        requires
            old(self)@.wf(fee_divisor),
        ensures
            match r {
                Ok(out) => swap_result(
                    old(self)@,
                    *asset_in,
                    amount_in,
                    *asset_out,
                    min_amount_out,
                    opt_account(exchange),
                    opt_account(referral),
                    fee_divisor,
                ) == Ok::<(PoolState, Balance), Error>((final(self)@, out)),
                Err(e) => swap_result(
                    old(self)@,
                    *asset_in,
                    amount_in,
                    *asset_out,
                    min_amount_out,
                    opt_account(exchange),
                    opt_account(referral),
                    fee_divisor,
                ) == Err::<(PoolState, Balance), Error>(e) && final(self)@ == old(self)@,
            },
            final(self)@.wf(fee_divisor),
            r != Err::<Balance, Error>(Error::InvalidCurveInvariant),
    {
        let out = self.get_return(asset_in, amount_in, asset_out, fee_divisor)?;
        let i = self.position(asset_in).unwrap();
        let j = self.position(asset_out).unwrap();
        let in_b = self.amounts[i];
        let out_b = self.amounts[j];
        proof {
            lemma_return_bounds(
                amount_in as int,
                in_b as int,
                out_b as int,
                self.total_fee as int,
                fee_divisor as int,
            );
        }
        if out < min_amount_out {
            return Err(Error::NotEnoughBalance);
        }
        let new_in = match in_b.checked_add(amount_in) {
            Some(v) => v,
            None => return Err(Error::StorageOverflow),
        };
        let new_out = out_b - out;
        let prev_product = match in_b.checked_mul(out_b) {
            Some(v) => v,
            None => return Err(Error::StorageOverflow),
        };
        let new_product = match new_in.checked_mul(new_out) {
            Some(v) => v,
            None => return Err(Error::StorageOverflow),
        };
        let prev_invariant = integer_sqrt(prev_product);
        let new_invariant = integer_sqrt(new_product);
        proof {
            lemma_isqrt_monotonic(prev_product as int, new_product as int);
        }
        if new_invariant < prev_invariant {
            return Err(Error::InvalidCurveInvariant);
        }
        let numerator = match (new_invariant - prev_invariant).checked_mul(
            self.assets_total_supply,
        ) {
            Some(v) => v,
            None => return Err(Error::StorageOverflow),
        };
        assert(numerator > 0 ==> new_invariant > 0) by (nonlinear_arith)
            requires
                numerator == (new_invariant - prev_invariant) * self.assets_total_supply,
                new_invariant >= prev_invariant,
                prev_invariant >= 0,
        ;
        let ghost p = self@;
        let mut next = self.duplicate();
        next.amounts.set(i, new_in);
        next.amounts.set(j, new_out);
        let ghost moved = next@;
        assert(moved == PoolState {
            amounts: p.amounts.update(i as int, new_in).update(j as int, new_out),
            ..p
        });
        let exchange_account = match exchange {
            Some(a) => Some(*a),
            None => None,
        };
        let referral_account = match referral {
            Some(a) => Some(*a),
            None => None,
        };
        next.mint_fee(exchange_account, self.exchange_fee, numerator, new_invariant)?;
        let ghost q = next@;
        next.mint_fee(referral_account, self.referral_fee, numerator, new_invariant)?;
        proof {
            // the moved reserves keep the pool consistent
            assert(moved.shares == p.shares);
            assert forall|k: int| 0 <= k < moved.amounts.len() implies #[trigger] moved.amounts[k]
                > 0 by {
                if k != i as int && k != j as int {
                    assert(moved.amounts[k] == p.amounts[k]);
                }
            }
            if exchange_account is Some && self.exchange_fee > 0 && numerator > 0 {
                lemma_fee_shares_nonneg(numerator as int, new_invariant as int, p.total_fee as int, p.exchange_fee as int);
                lemma_mint_keeps_sum(
                    moved,
                    exchange_account->0,
                    fee_shares(
                        numerator as int,
                        new_invariant as int,
                        p.total_fee as int,
                        p.exchange_fee as int,
                    ),
                );
            }
            if referral_account is Some && self.referral_fee > 0 && numerator > 0 {
                lemma_fee_shares_nonneg(numerator as int, new_invariant as int, p.total_fee as int, p.referral_fee as int);
                lemma_mint_keeps_sum(
                    q,
                    referral_account->0,
                    fee_shares(
                        numerator as int,
                        new_invariant as int,
                        p.total_fee as int,
                        p.referral_fee as int,
                    ),
                );
            }
        }
        *self = next;
        Ok(out)
    }


    /// Adds the liquidity deposit `deposits` for `who`, minting liquidity shares for it.
    ///
    /// The first deposit into an empty pool mints `init_shares` shares and takes all of it;
    /// later deposits mint the least number of shares any single asset is worth and take of
    /// each asset only what these shares are worth, writing the amounts taken back into
    /// `deposits`. Fails, leaving pool and deposits unchanged, when the deposit does not name
    /// exactly the pool's assets with positive amounts, mints no shares, or overflows.
    #[verifier::loop_isolation(false)]
    pub fn add_liquidity(
        &mut self,
        who: &AccountId,
        deposits: &mut BTreeMap<AssetId, Balance>,
        init_shares: Balance,
        fee_divisor: Balance,
    ) -> (r: Result<(), Error>)
        requires
            old(self)@.wf(fee_divisor),
            init_shares > 0,
        ensures
            match r {
                Ok(()) => add_liquidity_result(old(self)@, *who, old(deposits)@, init_shares) == Ok::<
                    (PoolState, Map<AssetId, Balance>),
                    Error,
                >((final(self)@, final(deposits)@)),
                Err(e) => add_liquidity_result(old(self)@, *who, old(deposits)@, init_shares)
                    == Err::<(PoolState, Map<AssetId, Balance>), Error>(e)
                    && final(self)@ == old(self)@ && final(deposits)@ == old(deposits)@,
            },
            final(self)@.wf(fee_divisor),
            forall|a: AssetId| #[trigger] final(deposits)@.contains_key(a)
                ==> old(deposits)@.contains_key(a) && final(deposits)@[a] <= old(deposits)@[a],
    {
        let ghost p = self@;
        let ghost d = deposits@;
        let n = self.asset_ids.len();
        proof {
            lemma_deposit_cover(p.asset_ids, d);
        }
        if deposits.len() != n {
            assert(d.dom().len() != n);
            return Err(Error::InvalidLiquidityDeposit);
        }
        let mut amts: Vec<Balance> = Vec::new();
        let mut i: usize = 0;
        while i < n
            invariant
                n == self.asset_ids.len(),
                i <= n,
                self@ == p,
                deposits@ == d,
                amts@.len() == i,
                forall|j: int| 0 <= j < i ==> d.contains_key(#[trigger] p.asset_ids[j]) && d[p.asset_ids[j]] > 0
                    && amts@[j] == d[p.asset_ids[j]],
            decreases n - i,
        {
            match deposits.get(&self.asset_ids[i]) {
                None => {
                    return Err(Error::InvalidLiquidityDeposit);
                },
                Some(v) => {
                    if *v == 0 {
                        return Err(Error::InvalidLiquidityDeposit);
                    }
                    amts.push(*v);
                },
            }
            i = i + 1;
        }
        assert(forall|j: int| 0 <= j < n ==> d.contains_key(#[trigger] p.asset_ids[j]));
        proof {
            lemma_deposit_cover(p.asset_ids, d);
        }
        assert(deposit_matches(p, d)) by {
            assert forall|a: AssetId| d.contains_key(a) implies d[a] > 0 by {
                assert(p.asset_ids.contains(a));
                let j = p.asset_ids.index_of(a);
                assert(p.asset_ids[j] == a);
            }
        }
        assert forall|j: int| 0 <= j < n implies amts@[j] == #[trigger] deposit_of(p, d, j) by {
            assert(d.contains_key(p.asset_ids[j]));
        }
        let mut new_amounts: Vec<Balance> = Vec::new();
        let mut next = self.duplicate();
        if self.assets_total_supply == 0 {
            let mut k: usize = 0;
            while k < n
                invariant
                    n == self.asset_ids.len(),
                    k <= n,
                    self@ == p,
                    amts@.len() == n,
                    forall|j: int| 0 <= j < n ==> amts@[j] == #[trigger] deposit_of(p, d, j),
                    new_amounts@.len() == k,
                    forall|j: int| 0 <= j < k ==> #[trigger] new_amounts@[j] == p.amounts[j] + deposit_of(p, d, j),
                    forall|j: int| 0 <= j < k ==> p.amounts[j] + #[trigger] deposit_of(p, d, j) <= balance_max(),
                decreases n - k,
            {
                match self.amounts[k].checked_add(amts[k]) {
                    Some(v) => new_amounts.push(v),
                    None => {
                        assert(p.amounts[k as int] + deposit_of(p, d, k as int) > balance_max());
                        return Err(Error::StorageOverflow);
                    },
                }
                k = k + 1;
            }
            next.amounts = new_amounts;
            let ghost q = next@;
            assert(q.amounts =~= Seq::new(n as nat, |j: int| (p.amounts[j] + deposit_of(p, d, j)) as Balance));
            assert(q == PoolState {
                amounts: Seq::new(n as nat, |j: int| (p.amounts[j] + deposit_of(p, d, j)) as Balance),
                ..p
            });
            next.mint(*who, init_shares)?;
            proof {
                lemma_mint_keeps_sum(q, *who, init_shares as int);
                assert forall|j: int| 0 <= j < next@.amounts.len() implies #[trigger] next@.amounts[j] > 0 by {
                    assert(deposit_of(p, d, j) > 0);
                }
            }
            *self = next;
            return Ok(());
        }
        let supply = self.assets_total_supply;
        let mut fair: Balance = 0;
        let mut k: usize = 0;
        while k < n
            invariant
                n == self.asset_ids.len(),
                n >= 2,
                k <= n,
                self@ == p,
                supply == p.total_supply,
                supply > 0,
                forall|j: int| 0 <= j < n ==> #[trigger] p.amounts[j] > 0,
                amts@.len() == n,
                forall|j: int| 0 <= j < n ==> amts@[j] == #[trigger] deposit_of(p, d, j),
                forall|j: int| 0 <= j < k ==> #[trigger] deposit_of(p, d, j) * p.total_supply <= balance_max(),
                k >= 1 ==> fair == fair_supply(p, d, k as int),
            decreases n - k,
        {
            let quote_num = match amts[k].checked_mul(supply) {
                Some(v) => v,
                None => {
                    assert(deposit_of(p, d, k as int) * p.total_supply > balance_max());
                    return Err(Error::StorageOverflow);
                },
            };
            let quote = quote_num / self.amounts[k];
            assert(quote == share_quote(p, d, k as int));
            if k == 0 || quote < fair {
                fair = quote;
            }
            k = k + 1;
        }
        assert(fair == fair_supply(p, d, n as int));
        if fair == 0 {
            return Err(Error::InvalidLiquidityDeposit);
        }
        proof {
            lemma_fair_supply_min(p, d, n as int);
        }
        let mut added: Vec<Balance> = Vec::new();
        let mut k: usize = 0;
        while k < n
            invariant
                n == self.asset_ids.len(),
                k <= n,
                self@ == p,
                supply == p.total_supply,
                supply > 0,
                fair == fair_supply(p, d, n as int),
                forall|j: int| 0 <= j < n ==> #[trigger] p.amounts[j] > 0,
                forall|j: int| 0 <= j < n ==> fair <= #[trigger] share_quote(p, d, j),
                forall|j: int| 0 <= j < n ==> #[trigger] deposit_of(p, d, j) * p.total_supply <= balance_max(),
                forall|j: int| 0 <= j < n ==> #[trigger] deposit_of(p, d, j) > 0,
                added@.len() == k,
                forall|j: int| 0 <= j < k ==> #[trigger] added@[j] == added_amount(p, fair as int, j),
                forall|j: int| 0 <= j < k ==> #[trigger] added_amount(p, fair as int, j) != 0,
            decreases n - k,
        {
            proof {
                lemma_added_at_most_deposit(p, d, fair as int, k as int);
            }
            let a = self.amounts[k] * fair / supply;
            if a == 0 {
                assert(added_amount(p, fair as int, k as int) == 0);
                return Err(Error::InvalidLiquidityDeposit);
            }
            added.push(a);
            k = k + 1;
        }
        let mut k: usize = 0;
        while k < n
            invariant
                n == self.asset_ids.len(),
                k <= n,
                self@ == p,
                added@.len() == n,
                forall|j: int| 0 <= j < n ==> #[trigger] added@[j] == added_amount(p, fair as int, j),
                new_amounts@.len() == k,
                forall|j: int| 0 <= j < k ==> #[trigger] new_amounts@[j] == p.amounts[j] + added_amount(p, fair as int, j),
                forall|j: int| 0 <= j < k ==> p.amounts[j] + #[trigger] added_amount(p, fair as int, j) <= balance_max(),
            decreases n - k,
        {
            match self.amounts[k].checked_add(added[k]) {
                Some(v) => new_amounts.push(v),
                None => {
                    assert(p.amounts[k as int] + added_amount(p, fair as int, k as int) > balance_max());
                    return Err(Error::StorageOverflow);
                },
            }
            k = k + 1;
        }
        next.amounts = new_amounts;
        let ghost q = next@;
        assert(q.amounts =~= Seq::new(n as nat, |j: int| (p.amounts[j] + added_amount(p, fair as int, j)) as Balance));
        assert(q == PoolState {
            amounts: Seq::new(n as nat, |j: int| (p.amounts[j] + added_amount(p, fair as int, j)) as Balance),
            ..p
        });
        next.mint(*who, fair)?;
        assert forall|j: int| 0 <= j < n implies added_amount(p, fair as int, j) <= #[trigger] deposit_of(p, d, j) by {
            lemma_added_at_most_deposit(p, d, fair as int, j);
        }
        let mut k: usize = 0;
        while k < n
            invariant
                n == self.asset_ids.len(),
                k <= n,
                self@ == p,
                d.dom().finite(),
                deposit_matches(p, d),
                distinct_assets(p.asset_ids),
                added@.len() == n,
                forall|j: int| 0 <= j < n ==> #[trigger] added@[j] == added_amount(p, fair as int, j),
                forall|j: int| 0 <= j < n ==> added_amount(p, fair as int, j) <= #[trigger] deposit_of(p, d, j),
                forall|a: AssetId| deposits@.contains_key(a) <==> d.contains_key(a),
                forall|j: int| 0 <= j < k ==> deposits@[#[trigger] p.asset_ids[j]] == added@[j],
                forall|j: int| k <= j < n ==> deposits@[#[trigger] p.asset_ids[j]] == d[p.asset_ids[j]],
            decreases n - k,
        {
            deposits.insert(self.asset_ids[k], added[k]);
            k = k + 1;
        }
        proof {
            lemma_mint_keeps_sum(q, *who, fair as int);
            assert forall|j: int| 0 <= j < next@.amounts.len() implies #[trigger] next@.amounts[j] > 0 by {
                assert(p.amounts[j] > 0);
            }
            assert forall|a: AssetId| #[trigger] deposits@.contains_key(a) implies deposits@[a] == added_amount(p, fair as int, p.index(a)) && deposits@[a] <= d[a] by {
                let j = p.index(a);
                assert(p.asset_ids.contains(a));
                assert(p.asset_ids[j] == a);
                assert(deposits@[p.asset_ids[j]] == added@[j]);
                assert(added_amount(p, fair as int, j) <= deposit_of(p, d, j));
            }
            assert(deposits@ =~= Map::new(
                |a: AssetId| d.contains_key(a),
                |a: AssetId| added_amount(p, fair as int, p.index(a)) as Balance,
            ));
        }
        *self = next;
        Ok(())
    }


    /// Returns `shares` liquidity shares of `who` to the pool and pays out the matching part of
    /// every reserve, in the order of the pool's assets.
    ///
    /// Fails, leaving the pool unchanged, with `NotEnoughBalance` when `who` holds fewer shares
    /// or a pay-out falls below its minimum in `min_amounts`, and with `StorageOverflow` when a
    /// product leaves the range of a balance.
    #[verifier::loop_isolation(false)]
    pub fn remove_liquidity(
        &mut self,
        who: &AccountId,
        shares: Balance,
        min_amounts: &Vec<Balance>,
        fee_divisor: Balance,
    ) -> (r: Result<Vec<Balance>, Error>)
        requires
            old(self)@.wf(fee_divisor),
        ensures
            match r {
                Ok(out) => remove_liquidity_result(old(self)@, *who, shares, min_amounts@) == Ok::<
                    (PoolState, Seq<Balance>),
                    Error,
                >((final(self)@, out@)),
                Err(e) => remove_liquidity_result(old(self)@, *who, shares, min_amounts@) == Err::<
                    (PoolState, Seq<Balance>),
                    Error,
                >(e) && final(self)@ == old(self)@,
            },
            final(self)@.wf(fee_divisor),
    {
        let ghost p = self@;
        let held = match self.assets.get(who) {
            Some(v) => *v,
            None => return Err(Error::NotEnoughBalance),
        };
        if held < shares {
            return Err(Error::NotEnoughBalance);
        }
        proof {
            assert(shares_as_int(p.shares).dom() =~= p.shares.dom());
            crate::math::lemma_map_sum_nonneg(shares_as_int(p.shares), *who);
        }
        let supply = self.assets_total_supply;
        assert(supply >= held && held > 0);
        let n = self.asset_ids.len();
        let mut out: Vec<Balance> = Vec::new();
        let mut k: usize = 0;
        while k < n
            invariant
                k <= n,
                out@.len() == k,
                forall|j: int| 0 <= j < k ==> #[trigger] out@[j] == removed_amount(p, shares as int, j),
                forall|j: int| 0 <= j < k ==> #[trigger] p.amounts[j] * shares <= balance_max(),
            decreases n - k,
        {
            let product = match self.amounts[k].checked_mul(shares) {
                Some(v) => v,
                None => {
                    assert(p.amounts[k as int] * shares > balance_max());
                    return Err(Error::StorageOverflow);
                },
            };
            out.push(product / supply);
            k = k + 1;
        }
        let mut k: usize = 0;
        while k < n
            invariant
                k <= n,
                out@.len() == n,
                forall|j: int| 0 <= j < n ==> #[trigger] out@[j] == removed_amount(p, shares as int, j),
                forall|j: int| 0 <= j < k && j < min_amounts@.len() ==> #[trigger] removed_amount(p, shares as int, j) >= min_amounts@[j],
            decreases n - k,
        {
            if k < min_amounts.len() && out[k] < min_amounts[k] {
                assert(removed_amount(p, shares as int, k as int) < min_amounts@[k as int]);
                return Err(Error::NotEnoughBalance);
            }
            k = k + 1;
        }
        let mut new_amounts: Vec<Balance> = Vec::new();
        let mut k: usize = 0;
        while k < n
            invariant
                k <= n,
                out@.len() == n,
                forall|j: int| 0 <= j < n ==> #[trigger] out@[j] == removed_amount(p, shares as int, j),
                new_amounts@.len() == k,
                forall|j: int| 0 <= j < k ==> #[trigger] new_amounts@[j] == p.amounts[j] - removed_amount(p, shares as int, j),
            decreases n - k,
        {
            proof {
                lemma_removed_bounds(p.amounts[k as int] as int, shares as int, supply as int);
            }
            new_amounts.push(self.amounts[k] - out[k]);
            k = k + 1;
        }
        let left = held - shares;
        let mut next = self.duplicate();
        next.amounts = new_amounts;
        if left == 0 {
            next.assets.remove(who);
        } else {
            next.assets.insert(*who, left);
        }
        next.assets_total_supply = supply - shares;
        proof {
            let q = next@;
            assert(q.amounts =~= Seq::new(
                n as nat,
                |i: int| (p.amounts[i] - removed_amount(p, shares as int, i)) as Balance,
            ));
            assert(out@ =~= Seq::new(n as nat, |i: int| removed_amount(p, shares as int, i) as Balance));
            // the supply stays the sum of the shares
            let m = shares_as_int(p.shares);
            if left == 0 {
                crate::math::lemma_map_sum_remove(m, *who);
                assert(shares_as_int(q.shares) =~= m.remove(*who));
            } else {
                lemma_map_sum_insert(m, *who, left as int);
                assert(shares_as_int(q.shares) =~= m.insert(*who, left as int));
            }
            // reserves stay positive while shares remain, and vanish with the last share
            assert forall|j: int| 0 <= j < q.amounts.len() implies (q.total_supply > 0 ==> #[trigger] q.amounts[j] > 0)
                && (q.total_supply == 0 ==> q.amounts[j] == 0) by {
                lemma_removed_bounds(p.amounts[j] as int, shares as int, supply as int);
            }
        }
        *self = next;
        Ok(out)
    }

    /// Returns the amount of `asset_out` received for swapping `amount_in` of `asset_in`.
    pub fn get_return(
        &self,
        asset_in: &AssetId,
        amount_in: Balance,
        asset_out: &AssetId,
        fee_divisor: Balance,
    ) -> (r: Result<Balance, Error>)
        requires
            self@.wf(fee_divisor),
        ensures
            r == get_return_result(self@, *asset_in, amount_in, *asset_out, fee_divisor),
    {
        let i = match self.position(asset_in) {
            Some(i) => i,
            None => return Err(Error::AssetNotFound),
        };
        let j = match self.position(asset_out) {
            Some(j) => j,
            None => return Err(Error::AssetNotFound),
        };
        if *asset_in == *asset_out {
            return Err(Error::InvalidPoolAssets);
        }
        let in_balance = self.amounts[i];
        let out_balance = self.amounts[j];
        if in_balance == 0 || out_balance == 0 {
            return Err(Error::NotEnoughBalance);
        }
        let with_fee = match amount_in.checked_mul(fee_divisor - self.total_fee) {
            Some(v) => v,
            None => return Err(Error::StorageOverflow),
        };
        let scaled_in = match fee_divisor.checked_mul(in_balance) {
            Some(v) => v,
            None => return Err(Error::StorageOverflow),
        };
        let denominator = match scaled_in.checked_add(with_fee) {
            Some(v) => v,
            None => return Err(Error::StorageOverflow),
        };
        let numerator = match with_fee.checked_mul(out_balance) {
            Some(v) => v,
            None => return Err(Error::StorageOverflow),
        };
        assert(denominator > 0) by (nonlinear_arith)
            requires
                denominator == scaled_in + with_fee,
                scaled_in == fee_divisor * in_balance,
                fee_divisor > 0,
                in_balance > 0,
        ;
        Ok(numerator / denominator)
    }
}

} // verus!

verus! {

impl Pool {
    /// The pool's liquidity shares held by `account`, if it holds any.
    pub fn share_balances(&self, account: &AccountId) -> (r: Option<&Balance>)
        ensures
            match r {
                Some(v) => self@.shares.contains_key(*account) && *v == self@.shares[*account],
                None => !self@.shares.contains_key(*account),
            },
    {
        match self {
            Pool::BasicPool(p) => p.share_balances(account),
        }
    }

    /// See [`SimplePool::get_return`].
    pub fn get_return(
        &self,
        asset_in: &AssetId,
        amount_in: Balance,
        asset_out: &AssetId,
        fee_divisor: Balance,
    ) -> (r: Result<Balance, Error>)
        requires
            self@.wf(fee_divisor),
        ensures
            r == get_return_result(self@, *asset_in, amount_in, *asset_out, fee_divisor),
    {
        match self {
            Pool::BasicPool(p) => p.get_return(asset_in, amount_in, asset_out, fee_divisor),
        }
    }

    /// See [`SimplePool::swap`].
    pub fn swap(
        &mut self,
        asset_in: &AssetId,
        amount_in: Balance,
        asset_out: &AssetId,
        min_amount_out: Balance,
        exchange: Option<&AccountId>,
        referral: Option<&AccountId>,
        fee_divisor: Balance,
    ) -> (r: Result<Balance, Error>)
        requires
            old(self)@.wf(fee_divisor),
        ensures
            match r {
                Ok(out) => swap_result(
                    old(self)@,
                    *asset_in,
                    amount_in,
                    *asset_out,
                    min_amount_out,
                    opt_account(exchange),
                    opt_account(referral),
                    fee_divisor,
                ) == Ok::<(PoolState, Balance), Error>((final(self)@, out)),
                Err(e) => swap_result(
                    old(self)@,
                    *asset_in,
                    amount_in,
                    *asset_out,
                    min_amount_out,
                    opt_account(exchange),
                    opt_account(referral),
                    fee_divisor,
                ) == Err::<(PoolState, Balance), Error>(e) && final(self)@ == old(self)@,
            },
            final(self)@.wf(fee_divisor),
            r != Err::<Balance, Error>(Error::InvalidCurveInvariant),
    {
        match self {
            Pool::BasicPool(p) => p.swap(
                asset_in,
                amount_in,
                asset_out,
                min_amount_out,
                exchange,
                referral,
                fee_divisor,
            ),
        }
    }

    /// See [`SimplePool::add_liquidity`].
    pub fn add_liquidity(
        &mut self,
        who: &AccountId,
        deposits: &mut BTreeMap<AssetId, Balance>,
        init_shares: Balance,
        fee_divisor: Balance,
    ) -> (r: Result<(), Error>)
        requires
            old(self)@.wf(fee_divisor),
            init_shares > 0,
        ensures
            match r {
                Ok(()) => add_liquidity_result(old(self)@, *who, old(deposits)@, init_shares) == Ok::<
                    (PoolState, Map<AssetId, Balance>),
                    Error,
                >((final(self)@, final(deposits)@)),
                Err(e) => add_liquidity_result(old(self)@, *who, old(deposits)@, init_shares)
                    == Err::<(PoolState, Map<AssetId, Balance>), Error>(e)
                    && final(self)@ == old(self)@ && final(deposits)@ == old(deposits)@,
            },
            final(self)@.wf(fee_divisor),
            forall|a: AssetId| #[trigger] final(deposits)@.contains_key(a)
                ==> old(deposits)@.contains_key(a) && final(deposits)@[a] <= old(deposits)@[a],
    {
        match self {
            Pool::BasicPool(p) => p.add_liquidity(who, deposits, init_shares, fee_divisor),
        }
    }

    /// See [`SimplePool::remove_liquidity`].
    pub fn remove_liquidity(
        &mut self,
        who: &AccountId,
        shares: Balance,
        min_amounts: &Vec<Balance>,
        fee_divisor: Balance,
    ) -> (r: Result<Vec<Balance>, Error>)
        requires
            old(self)@.wf(fee_divisor),
        ensures
            match r {
                Ok(out) => remove_liquidity_result(old(self)@, *who, shares, min_amounts@) == Ok::<
                    (PoolState, Seq<Balance>),
                    Error,
                >((final(self)@, out@)),
                Err(e) => remove_liquidity_result(old(self)@, *who, shares, min_amounts@) == Err::<
                    (PoolState, Seq<Balance>),
                    Error,
                >(e) && final(self)@ == old(self)@,
            },
            final(self)@.wf(fee_divisor),
    {
        match self {
            Pool::BasicPool(p) => p.remove_liquidity(who, shares, min_amounts, fee_divisor),
        }
    }

    /// The assets of the pool, in order.
    pub fn asset_ids(&self) -> (r: &Vec<AssetId>)
        ensures
            r@ == self@.asset_ids,
    {
        match self {
            Pool::BasicPool(p) => &p.asset_ids,
        }
    }

    /// A copy of the pool.
    pub fn duplicate(&self) -> (r: Pool)
        ensures
            r@ == self@,
    {
        match self {
            Pool::BasicPool(p) => Pool::BasicPool(p.duplicate()),
        }
    }

    /// Information about the pool.
    pub fn info(&self) -> (r: PoolInfo)
        ensures
            r.asset_ids@ == self@.asset_ids,
            r.amounts@ == self@.amounts,
            r.total_fee == self@.total_fee,
            r.shares_total_supply == self@.total_supply,
    {
        match self {
            Pool::BasicPool(p) => {
                let q = p.duplicate();
                PoolInfo {
                    asset_ids: q.asset_ids,
                    amounts: q.amounts,
                    total_fee: q.total_fee,
                    shares_total_supply: q.assets_total_supply,
                }
            },
        }
    }
}

} // verus!

verus! {

/// A successful swap keeps the pool consistent.
pub proof fn lemma_swap_keeps_wf(
    p: PoolState,
    asset_in: AssetId,
    amount_in: Balance,
    asset_out: AssetId,
    min_amount_out: Balance,
    exchange: Option<AccountId>,
    referral: Option<AccountId>,
    fee_divisor: Balance,
)
    requires
        p.wf(fee_divisor),
        swap_result(p, asset_in, amount_in, asset_out, min_amount_out, exchange, referral, fee_divisor) is Ok,
    ensures
        swap_result(p, asset_in, amount_in, asset_out, min_amount_out, exchange, referral, fee_divisor)->Ok_0.0.wf(fee_divisor),
{
    let out = get_return_result(p, asset_in, amount_in, asset_out, fee_divisor)->Ok_0;
    let i = p.index(asset_in);
    let j = p.index(asset_out);
    let in_b = p.amounts[i] as int;
    let out_b = p.amounts[j] as int;
    let new_in = in_b + amount_in;
    let new_out = out_b - out;
    let prev_invariant = isqrt(in_b * out_b);
    let new_invariant = isqrt(new_in * new_out);
    let numerator = (new_invariant - prev_invariant) * p.total_supply;
    let moved = PoolState {
        amounts: p.amounts.update(i, new_in as Balance).update(j, new_out as Balance),
        ..p
    };
    assert(p.asset_ids[i] == asset_in);
    assert(p.asset_ids[j] == asset_out);
    lemma_return_bounds(amount_in as int, in_b, out_b, p.total_fee as int, fee_divisor as int);
    assert(out as int == return_amount(amount_in as int, in_b, out_b, p.total_fee as int, fee_divisor as int));
    assert(p.total_supply > 0) by {
        if p.total_supply == 0 {
            assert(p.amounts[i] == 0);
        }
    }
    assert forall|k: int| 0 <= k < moved.amounts.len() implies #[trigger] moved.amounts[k] > 0 by {
        if k != i && k != j {
            assert(moved.amounts[k] == p.amounts[k]);
        }
    }
    assert(moved.wf(fee_divisor));
    assert(new_invariant >= prev_invariant);
    lemma_isqrt_exists(in_b * out_b);
    assert(prev_invariant >= 0);
    assert(numerator >= 0 && (numerator > 0 ==> new_invariant >= 1)) by (nonlinear_arith)
        requires
            numerator == (new_invariant - prev_invariant) * p.total_supply,
            new_invariant >= prev_invariant,
            prev_invariant >= 0,
            p.total_supply > 0,
    ;
    lemma_fee_mint_keeps_wf(moved, exchange, p.exchange_fee, numerator, new_invariant, fee_divisor);
    let q1 = fee_mint_result(moved, exchange, p.exchange_fee, numerator, new_invariant)->Ok_0;
    lemma_fee_mint_keeps_wf(q1, referral, p.referral_fee, numerator, new_invariant, fee_divisor);
}

/// Paying fee shares keeps the pool consistent.
pub proof fn lemma_fee_mint_keeps_wf(p: PoolState, account: Option<AccountId>, fee: Balance, numerator: int, new_invariant: int, fee_divisor: Balance)
    requires
        p.wf(fee_divisor),
        p.total_supply > 0,
        fee <= p.total_fee,
        numerator >= 0,
        numerator > 0 ==> new_invariant >= 1,
        fee_mint_result(p, account, fee, numerator, new_invariant) is Ok,
    ensures
        fee_mint_result(p, account, fee, numerator, new_invariant)->Ok_0.wf(fee_divisor),
        fee_mint_result(p, account, fee, numerator, new_invariant)->Ok_0.total_fee == p.total_fee,
        fee_mint_result(p, account, fee, numerator, new_invariant)->Ok_0.total_supply > 0,
{
    if account is Some && fee > 0 && numerator > 0 {
        let minted = fee_shares(numerator, new_invariant, p.total_fee as int, fee as int);
        lemma_fee_shares_nonneg(numerator, new_invariant, p.total_fee as int, fee as int);
        lemma_mint_keeps_sum(p, account->0, minted);
    }
}

/// Paying fee shares leaves the assets and reserves of a pool as they are.
pub proof fn lemma_fee_mint_keeps_reserves(p: PoolState, account: Option<AccountId>, fee: Balance, numerator: int, new_invariant: int)
    requires
        fee_mint_result(p, account, fee, numerator, new_invariant) is Ok,
    ensures
        fee_mint_result(p, account, fee, numerator, new_invariant)->Ok_0.asset_ids == p.asset_ids,
        fee_mint_result(p, account, fee, numerator, new_invariant)->Ok_0.amounts == p.amounts,
{
}

/// A swap moves `amount_in` of the in asset into the pool and the paid-out amount of the out
/// asset out of it, and changes no other reserve.
pub proof fn lemma_swap_reserves(
    p: PoolState,
    asset_in: AssetId,
    amount_in: Balance,
    asset_out: AssetId,
    min_amount_out: Balance,
    exchange: Option<AccountId>,
    referral: Option<AccountId>,
    fee_divisor: Balance,
    b: AssetId,
)
    requires
        p.wf(fee_divisor),
        swap_result(p, asset_in, amount_in, asset_out, min_amount_out, exchange, referral, fee_divisor) is Ok,
    ensures
        ({
            let (q, out) = swap_result(p, asset_in, amount_in, asset_out, min_amount_out, exchange, referral, fee_divisor)->Ok_0;
            &&& asset_in != asset_out
            &&& q.reserve(b) == p.reserve(b) + (if b == asset_in { amount_in as int } else { 0 }) - (if b == asset_out { out as int } else { 0 })
        }),
{
    let out = get_return_result(p, asset_in, amount_in, asset_out, fee_divisor)->Ok_0;
    let i = p.index(asset_in);
    let j = p.index(asset_out);
    let in_b = p.amounts[i] as int;
    let out_b = p.amounts[j] as int;
    let new_in = in_b + amount_in;
    let new_out = out_b - out;
    let prev_invariant = isqrt(in_b * out_b);
    let new_invariant = isqrt(new_in * new_out);
    let numerator = (new_invariant - prev_invariant) * p.total_supply;
    let moved = PoolState {
        amounts: p.amounts.update(i, new_in as Balance).update(j, new_out as Balance),
        ..p
    };
    assert(p.asset_ids.contains(asset_in) && p.asset_ids.contains(asset_out) && asset_in != asset_out);
    assert(p.asset_ids[i] == asset_in);
    assert(p.asset_ids[j] == asset_out);
    assert(i != j);
    lemma_return_bounds(amount_in as int, in_b, out_b, p.total_fee as int, fee_divisor as int);
    assert(in_b > 0 && out_b > 0);
    assert(out as int == return_amount(amount_in as int, in_b, out_b, p.total_fee as int, fee_divisor as int));
    assert(new_in <= balance_max());
    assert(moved.amounts[i] == new_in && moved.amounts[j] == new_out);
    lemma_fee_mint_keeps_reserves(moved, exchange, p.exchange_fee, numerator, new_invariant);
    let q1 = fee_mint_result(moved, exchange, p.exchange_fee, numerator, new_invariant)->Ok_0;
    lemma_fee_mint_keeps_reserves(q1, referral, p.referral_fee, numerator, new_invariant);
    let q2 = fee_mint_result(q1, referral, p.referral_fee, numerator, new_invariant)->Ok_0;
    let (q, o) = swap_result(p, asset_in, amount_in, asset_out, min_amount_out, exchange, referral, fee_divisor)->Ok_0;
    assert(q == q2 && o == out);
    assert(q.amounts == moved.amounts && q.asset_ids == p.asset_ids);
    if p.asset_ids.contains(b) {
        let k = p.index(b);
        assert(p.asset_ids[k] == b);
        if b == asset_in {
            assert(k == i) by {
                if k != i {
                    if k < i {
                        assert(p.asset_ids[k] != p.asset_ids[i]);
                    } else {
                        assert(p.asset_ids[i] != p.asset_ids[k]);
                    }
                }
            }
        } else if b == asset_out {
            assert(k == j) by {
                if k != j {
                    if k < j {
                        assert(p.asset_ids[k] != p.asset_ids[j]);
                    } else {
                        assert(p.asset_ids[j] != p.asset_ids[k]);
                    }
                }
            }
        } else {
            assert(k != i && k != j);
        }
    }
}

/// Adding liquidity moves exactly the taken amounts into the reserves, and takes amounts only
/// of the pool's assets.
pub proof fn lemma_add_liquidity_reserves(p: PoolState, who: AccountId, d: Map<AssetId, Balance>, init_shares: Balance, fee_divisor: Balance, b: AssetId)
    requires
        p.wf(fee_divisor),
        add_liquidity_result(p, who, d, init_shares) is Ok,
    ensures
        ({
            let (q, taken) = add_liquidity_result(p, who, d, init_shares)->Ok_0;
            &&& forall|a: AssetId| taken.contains_key(a) <==> d.contains_key(a)
            &&& forall|a: AssetId| d.contains_key(a) <==> p.asset_ids.contains(a)
            &&& q.reserve(b) == p.reserve(b) + (if taken.contains_key(b) { taken[b] as int } else { 0 })
            &&& taken.contains_key(b) ==> taken[b] <= d[b]
        }),
{
    let n = p.asset_ids.len() as int;
    let (q, taken) = add_liquidity_result(p, who, d, init_shares)->Ok_0;
    assert(deposit_matches(p, d));
    if p.total_supply == 0 {
        let q0 = PoolState {
            amounts: Seq::new(n as nat, |i: int| (p.amounts[i] + deposit_of(p, d, i)) as Balance),
            ..p
        };
        assert(q == mint_result(q0, who, init_shares as int)->Ok_0);
        assert(q.amounts == q0.amounts && q.asset_ids == p.asset_ids);
        assert(taken == d);
        if p.asset_ids.contains(b) {
            let k = p.index(b);
            assert(p.asset_ids[k] == b);
            assert(d.contains_key(b));
            assert(q.amounts[k] == p.amounts[k] + deposit_of(p, d, k));
        } else {
            assert(!d.contains_key(b));
        }
    } else {
        let fair = fair_supply(p, d, n);
        let q0 = PoolState {
            amounts: Seq::new(n as nat, |i: int| (p.amounts[i] + added_amount(p, fair, i)) as Balance),
            ..p
        };
        assert(q == mint_result(q0, who, fair)->Ok_0);
        assert(q.amounts == q0.amounts && q.asset_ids == p.asset_ids);
        assert(taken == Map::new(
            |a: AssetId| d.contains_key(a),
            |a: AssetId| added_amount(p, fair, p.index(a)) as Balance,
        ));
        if p.asset_ids.contains(b) {
            let k = p.index(b);
            assert(p.asset_ids[k] == b);
            assert(d.contains_key(b));
            assert(0 <= k < n);
            assert(p.amounts[k] + added_amount(p, fair, k) <= balance_max()) by {
                if p.amounts[k] + added_amount(p, fair, k) > balance_max() {
                    assert(exists|i: int| 0 <= i < n && p.amounts[i] + #[trigger] added_amount(p, fair, i) > balance_max());
                }
            }
            assert(added_amount(p, fair, k) >= 0) by {
                assert(fair >= 0) by {
                    lemma_fair_supply_nonneg(p, d, n);
                }
                assert(((p.amounts[k] as int) * fair) / (p.total_supply as int) >= 0) by (nonlinear_arith)
                    requires
                        fair >= 0,
                        p.total_supply > 0,
                ;
            }
            assert(q.amounts[k] == p.amounts[k] + added_amount(p, fair, k));
            lemma_fair_supply_min(p, d, n);
            assert(fair <= share_quote(p, d, k));
            lemma_added_at_most_deposit(p, d, fair, k);
        } else {
            assert(!d.contains_key(b));
        }
    }
}

/// Share quotes are never negative.
proof fn lemma_fair_supply_nonneg(p: PoolState, d: Map<AssetId, Balance>, k: int)
    requires
        p.total_supply > 0,
        forall|i: int| 0 <= i < p.amounts.len() ==> #[trigger] p.amounts[i] > 0,
        k <= p.amounts.len(),
        k >= 1,
    ensures
        fair_supply(p, d, k) >= 0,
    decreases k,
{
    assert forall|i: int| 0 <= i < k implies #[trigger] share_quote(p, d, i) >= 0 by {
        assert(p.amounts[i] > 0);
        assert((deposit_of(p, d, i) * p.total_supply) / (p.amounts[i] as int) >= 0) by (nonlinear_arith)
            requires
                deposit_of(p, d, i) >= 0,
                p.total_supply > 0,
                p.amounts[i] > 0,
        ;
    }
    lemma_fair_supply_min(p, d, k);
}

/// Removing liquidity moves the paid-out amounts out of the reserves.
pub proof fn lemma_remove_liquidity_reserves(p: PoolState, who: AccountId, shares: Balance, min_amounts: Seq<Balance>, fee_divisor: Balance, b: AssetId)
    requires
        p.wf(fee_divisor),
        remove_liquidity_result(p, who, shares, min_amounts) is Ok,
    ensures
        ({
            let (q, out) = remove_liquidity_result(p, who, shares, min_amounts)->Ok_0;
            &&& q.asset_ids == p.asset_ids
            &&& out.len() == p.asset_ids.len()
            &&& q.reserve(b) == p.reserve(b) - (if p.asset_ids.contains(b) { out[p.index(b)] as int } else { 0 })
        }),
{
    assert(shares_as_int(p.shares).dom() =~= p.shares.dom());
    crate::math::lemma_map_sum_nonneg(shares_as_int(p.shares), who);
    if p.asset_ids.contains(b) {
        let k = p.index(b);
        assert(p.asset_ids[k] == b);
        lemma_removed_bounds(p.amounts[k] as int, shares as int, p.total_supply as int);
    }
}

} // verus!
