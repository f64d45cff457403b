use vstd::prelude::*;
use crate::deposit::{add_result, balance_of, sub_result, DepositState};
use crate::exchange::{
    add_basic_pool_outcome, credit_outcome, deposit_or_empty, deposit_outcome, get_return_outcome, lemma_swap_prefix_conserves,
    lemma_total_with_deposit, register_assets_outcome, set_balance, swap_outcome, swap_prefix,
    swap_step, total_of, unregister_assets_outcome, withdraw_outcome, ExchangeState,
};
use crate::math::{isqrt, lemma_isqrt_exists, lemma_map_sum_nonneg};
use crate::pool::{
    distinct_assets, fee_mint_result, fee_shares, get_return_result, lemma_fee_shares_nonneg,
    lemma_return_bounds, mint_result,
    lemma_swap_reserves, remove_liquidity_result, removed_amount, return_amount, shares_as_int,
    swap_result, PoolState,
};
use crate::types::{AccountId, AssetId, AssetSwap, AssetSwapInfo, Balance, PoolId};

verus! {

/// A series of swaps keeps the total of every asset held by the exchange, in accounts and
/// pools together.
pub proof fn law_swap_conserves_assets(s: ExchangeState, who: AccountId, actions: Seq<AssetSwap>, referral: Option<AccountId>, asset: AssetId)
    requires
        s.wf(),
        swap_outcome(s, who, actions, referral) is Ok,
    ensures
        total_of(swap_outcome(s, who, actions, referral)->Ok_0.0, asset) == total_of(s, asset),
{
    lemma_swap_prefix_conserves(s, who, actions, referral, actions.len() as int, asset);
}

/// A deposit adds exactly the deposited amount to the exchange's total of that asset, and
/// nothing to any other.
pub proof fn law_deposit_adds_amount(s: ExchangeState, who: AccountId, asset: AssetId, amount: Balance, other: AssetId)
    requires
        s.wf(),
        deposit_outcome(s, who, asset, amount) is Ok,
    ensures
        total_of(deposit_outcome(s, who, asset, amount)->Ok_0, other) == total_of(s, other) + if other == asset { amount as int } else { 0 },
{
    let d = s.deposits[who];
    let v = add_result(d.assets, asset, amount)->Ok_0;
    lemma_total_with_deposit(s, who, set_balance(d, asset, v), other);
}

/// A withdrawal takes exactly the withdrawn amount out of the exchange's total of that asset,
/// and nothing out of any other.
pub proof fn law_withdraw_removes_amount(s: ExchangeState, who: AccountId, asset: AssetId, amount: Balance, other: AssetId)
    requires
        s.wf(),
        withdraw_outcome(s, who, asset, amount) is Ok,
    ensures
        total_of(withdraw_outcome(s, who, asset, amount)->Ok_0, other) == total_of(s, other) - if other == asset { amount as int } else { 0 },
{
    let d = s.deposits[who];
    let v = sub_result(d.assets, asset, amount)->Ok_0;
    lemma_total_with_deposit(s, who, set_balance(d, asset, v), other);
}

/// Withdrawing what was just deposited restores the exchange.
pub proof fn law_withdraw_undoes_deposit(s: ExchangeState, who: AccountId, asset: AssetId, amount: Balance)
    requires
        deposit_outcome(s, who, asset, amount) is Ok,
    ensures
        withdraw_outcome(deposit_outcome(s, who, asset, amount)->Ok_0, who, asset, amount) == Ok::<ExchangeState, crate::types::Error>(s),
{
    let d = s.deposits[who];
    let v = add_result(d.assets, asset, amount)->Ok_0;
    let s1 = deposit_outcome(s, who, asset, amount)->Ok_0;
    let d1 = set_balance(d, asset, v);
    assert(s1.deposits[who] == d1);
    assert(d1.assets.insert(asset, d.assets[asset]) =~= d.assets);
    assert(set_balance(d1, asset, d.assets[asset]) == d);
    assert(s1.deposits.insert(who, d) =~= s.deposits);
}

/// Unregistering the assets just registered restores the exchange.
pub proof fn law_unregister_undoes_register(s: ExchangeState, who: AccountId, ids: Seq<AssetId>)
    requires
        register_assets_outcome(s, who, ids) is Ok,
    ensures
        unregister_assets_outcome(register_assets_outcome(s, who, ids)->Ok_0, who, ids) == Ok::<ExchangeState, crate::types::Error>(s),
{
    let d = s.deposits[who];
    let s1 = register_assets_outcome(s, who, ids)->Ok_0;
    let d1 = s1.deposits[who];
    assert forall|i: int| 0 <= i < ids.len() && d1.assets.contains_key(#[trigger] ids[i]) implies d1.assets[ids[i]] == 0 by {
        assert(!d.assets.contains_key(ids[i]));
    }
    assert(d1.assets.remove_keys(ids.to_set()) =~= d.assets) by {
        assert forall|a: AssetId| d.assets.contains_key(a) implies !ids.to_set().contains(a) by {
            if ids.contains(a) {
                let i = choose|i: int| 0 <= i < ids.len() && ids[i] == a;
                assert(!d.assets.contains_key(ids[i]));
            }
        }
    }
    assert(s1.deposits.insert(who, DepositState { assets: d.assets, ..d1 }) =~= s.deposits);
}

/// The first `k` actions of a successful series of swaps each paid out at least their minimum,
/// and an action without an amount swapped what the action before it paid out.
pub proof fn law_swaps_respect_minimums(s: ExchangeState, who: AccountId, actions: Seq<AssetSwap>, referral: Option<AccountId>, k: int)
    requires
        0 <= k <= actions.len(),
        swap_prefix(s, who, actions, referral, k) is Ok,
    ensures
        swap_prefix(s, who, actions, referral, k)->Ok_0.2.len() == k,
        k > 0 ==> swap_prefix(s, who, actions, referral, k)->Ok_0.1 == Some(swap_prefix(s, who, actions, referral, k)->Ok_0.2[k - 1].amount_out),
        k == 0 ==> swap_prefix(s, who, actions, referral, k)->Ok_0.1 is None,
        forall|i: int| 0 <= i < k ==> (#[trigger] swap_prefix(s, who, actions, referral, k)->Ok_0.2[i]).amount_out >= actions[i].min_amount_out
            && swap_prefix(s, who, actions, referral, k)->Ok_0.2[i].pool_id == actions[i].pool_id
            && swap_prefix(s, who, actions, referral, k)->Ok_0.2[i].asset_in == actions[i].asset_in
            && swap_prefix(s, who, actions, referral, k)->Ok_0.2[i].asset_out == actions[i].asset_out,
        forall|i: int| 0 <= i < k && actions[i].amount_in is Some ==> (#[trigger] swap_prefix(s, who, actions, referral, k)->Ok_0.2[i]).amount_in == actions[i].amount_in->0,
        k > 0 ==> actions[0].amount_in is Some,
        forall|i: int| 0 < i < k && actions[i].amount_in is None ==> (#[trigger] swap_prefix(s, who, actions, referral, k)->Ok_0.2[i]).amount_in == swap_prefix(s, who, actions, referral, k)->Ok_0.2[i - 1].amount_out,
    decreases k,
{
    if k > 0 {
        law_swaps_respect_minimums(s, who, actions, referral, k - 1);
        let (s1, prev, infos) = swap_prefix(s, who, actions, referral, k - 1)->Ok_0;
        let a = actions[k - 1];
        let amount_in = match a.amount_in {
            Some(x) => x,
            None => prev->0,
        };
        let p = s1.pools[a.pool_id];
        let d = s1.deposits[who];
        let v = sub_result(d.assets, a.asset_in, amount_in)->Ok_0;
        let r = swap_result(p, a.asset_in, amount_in, a.asset_out, a.min_amount_out, s1.exchange_account, referral, s1.config.fee_divisor);
        let out = r->Ok_0.1;
        assert(out >= a.min_amount_out);
        let info = swap_step(s1, who, prev, a, referral)->Ok_0.1;
        let infos2 = swap_prefix(s, who, actions, referral, k)->Ok_0.2;
        assert(infos2 == infos.push(info));
        assert(info.amount_out == out && info.amount_in == amount_in);
        assert(info.pool_id == a.pool_id && info.asset_in == a.asset_in && info.asset_out == a.asset_out);
        if a.amount_in is None {
            assert(prev is Some);
            assert(k - 1 > 0);
            assert(infos2[k - 2] == infos[k - 2]);
        }
        assert forall|i: int| 0 <= i < k implies (#[trigger] infos2[i]).amount_out >= actions[i].min_amount_out
            && infos2[i].pool_id == actions[i].pool_id && infos2[i].asset_in == actions[i].asset_in
            && infos2[i].asset_out == actions[i].asset_out by {
            if i < k - 1 {
                assert(infos2[i] == infos[i]);
            }
        }
        assert forall|i: int| 0 <= i < k && actions[i].amount_in is Some implies (#[trigger] infos2[i]).amount_in == actions[i].amount_in->0 by {
            if i < k - 1 {
                assert(infos2[i] == infos[i]);
            }
        }
        assert forall|i: int| 0 < i < k && actions[i].amount_in is None implies (#[trigger] infos2[i]).amount_in == infos2[i - 1].amount_out by {
            if i < k - 1 {
                assert(infos2[i] == infos[i]);
                if i > 0 {
                    assert(infos2[i - 1] == infos[i - 1]);
                }
            }
        }
        let prev2 = swap_prefix(s, who, actions, referral, k)->Ok_0.1;
        assert(infos2.len() == k);
        assert(prev2 == Some(infos2[k - 1].amount_out));
    } else {
        assert(swap_prefix(s, who, actions, referral, k)->Ok_0.2 =~= Seq::<AssetSwapInfo>::empty());
    }
}

/// What a swap pays out is what `get_return` foretells for the same pool and amount.
pub proof fn law_get_return_predicts_swap(s: ExchangeState, who: AccountId, prev: Option<Balance>, action: AssetSwap, referral: Option<AccountId>)
    requires
        swap_step(s, who, prev, action, referral) is Ok,
    ensures
        ({
            let info = swap_step(s, who, prev, action, referral)->Ok_0.1;
            get_return_outcome(s, action.pool_id, action.asset_in, info.amount_in, action.asset_out) == Ok::<Balance, crate::types::Error>(info.amount_out)
        }),
{
}

/// A provider returning every share of a pool gets every reserve of the pool paid out.
pub proof fn law_last_provider_takes_all(p: PoolState, who: AccountId, min_amounts: Seq<Balance>, fee_divisor: Balance)
    requires
        p.wf(fee_divisor),
        p.shares.contains_key(who),
        p.shares[who] == p.total_supply,
        remove_liquidity_result(p, who, p.total_supply, min_amounts) is Ok,
    ensures
        ({
            let (q, out) = remove_liquidity_result(p, who, p.total_supply, min_amounts)->Ok_0;
            &&& out == p.amounts
            &&& q.total_supply == 0
            &&& forall|i: int| 0 <= i < q.amounts.len() ==> #[trigger] q.amounts[i] == 0
        }),
{
    let (q, out) = remove_liquidity_result(p, who, p.total_supply, min_amounts)->Ok_0;
    assert forall|i: int| 0 <= i < p.amounts.len() implies #[trigger] out[i] == p.amounts[i] by {
        assert(((p.amounts[i] as int) * (p.total_supply as int)) / (p.total_supply as int) == p.amounts[i]) by (nonlinear_arith)
            requires
                p.total_supply > 0,
        ;
    }
    assert(out =~= p.amounts);
}

/// A swap never lowers the product of the reserves of the two assets it trades, and never pays
/// out the whole reserve of the asset it pays.
pub proof fn law_swap_keeps_product(
    p: PoolState,
    asset_in: AssetId,
    amount_in: Balance,
    asset_out: AssetId,
    min_amount_out: Balance,
    exchange: Option<AccountId>,
    referral: Option<AccountId>,
    fee_divisor: Balance,
)
    requires
        p.wf(fee_divisor),
        swap_result(p, asset_in, amount_in, asset_out, min_amount_out, exchange, referral, fee_divisor) is Ok,
    ensures
        ({
            let (q, out) = swap_result(p, asset_in, amount_in, asset_out, min_amount_out, exchange, referral, fee_divisor)->Ok_0;
            &&& out < p.reserve(asset_out)
            &&& q.reserve(asset_in) * q.reserve(asset_out) >= p.reserve(asset_in) * p.reserve(asset_out)
        }),
{
    let (q, out) = swap_result(p, asset_in, amount_in, asset_out, min_amount_out, exchange, referral, fee_divisor)->Ok_0;
    lemma_swap_reserves(p, asset_in, amount_in, asset_out, min_amount_out, exchange, referral, fee_divisor, asset_in);
    lemma_swap_reserves(p, asset_in, amount_in, asset_out, min_amount_out, exchange, referral, fee_divisor, asset_out);
    let inb = p.reserve(asset_in);
    let outb = p.reserve(asset_out);
    assert(p.asset_ids.contains(asset_in) && p.asset_ids.contains(asset_out));
    assert(inb > 0 && outb > 0);
    lemma_return_bounds(amount_in as int, inb, outb, p.total_fee as int, fee_divisor as int);
    assert(out == get_return_result(p, asset_in, amount_in, asset_out, fee_divisor)->Ok_0);
    assert(out as int == return_amount(amount_in as int, inb, outb, p.total_fee as int, fee_divisor as int));
}

/// The pool identifiers from one up to `n`.
pub open spec fn pool_ids_up_to(n: u64) -> Set<PoolId> {
    Set::new(|id: PoolId| 1 <= id <= n)
}

/// There are `n` identifiers from one up to `n`.
proof fn lemma_pool_ids_up_to_len(n: u64)
    ensures
        pool_ids_up_to(n).finite(),
        pool_ids_up_to(n).len() == n,
    decreases n,
{
    if n == 0 {
        assert(pool_ids_up_to(n) =~= Set::<PoolId>::empty());
    } else {
        let m = (n - 1) as u64;
        lemma_pool_ids_up_to_len(m);
        assert(pool_ids_up_to(n) =~= pool_ids_up_to(m).insert(n));
    }
}

/// The pool count is the number of pools the exchange stores, and they are numbered from one
/// up to it.
pub proof fn law_pool_count_counts_pools(s: ExchangeState)
    requires
        s.wf(),
    ensures
        s.pools.dom() == pool_ids_up_to(s.number_of_pools()),
        s.pools.dom().len() == s.number_of_pools(),
{
    assert(s.pools.dom() =~= pool_ids_up_to(s.number_of_pools()));
    lemma_pool_ids_up_to_len(s.number_of_pools());
}

/// A referral account named in a swap is paid its portion of the fee as liquidity shares,
/// whether or not the exchange has an account of its own: when the swap succeeds, the referral
/// fee is positive and the swap grows the pool's invariant (the integer square root of the
/// product of the two reserves), the referral account's shares grow by the growth of the
/// invariant times the share supply, divided by the invariant's worth of the referral portion
/// of the fee.
pub proof fn law_swap_pays_referral(
    p: PoolState,
    asset_in: AssetId,
    amount_in: Balance,
    asset_out: AssetId,
    min_amount_out: Balance,
    exchange: Option<AccountId>,
    referral: AccountId,
    fee_divisor: Balance,
)
    requires
        p.wf(fee_divisor),
        exchange != Some(referral),
        p.referral_fee > 0,
        swap_result(p, asset_in, amount_in, asset_out, min_amount_out, exchange, Some(referral), fee_divisor) is Ok,
        isqrt(
            (p.reserve(asset_in) + amount_in) * (p.reserve(asset_out) - swap_result(
                p, asset_in, amount_in, asset_out, min_amount_out, exchange, Some(referral), fee_divisor,
            )->Ok_0.1),
        ) > isqrt(p.reserve(asset_in) * p.reserve(asset_out)),
    ensures
        ({
            let (q, out) = swap_result(p, asset_in, amount_in, asset_out, min_amount_out, exchange, Some(referral), fee_divisor)->Ok_0;
            let before = isqrt(p.reserve(asset_in) * p.reserve(asset_out));
            let after = isqrt((p.reserve(asset_in) + amount_in) * (p.reserve(asset_out) - out));
            q.shares_of(referral) == p.shares_of(referral)
                + ((after - before) * p.total_supply) / ((after * p.total_fee) / p.referral_fee as int)
        }),
{
    let (q, out) = swap_result(p, asset_in, amount_in, asset_out, min_amount_out, exchange, Some(referral), fee_divisor)->Ok_0;
    let i = p.index(asset_in);
    let j = p.index(asset_out);
    assert(p.asset_ids.contains(asset_in) && p.asset_ids.contains(asset_out));
    let in_b = p.amounts[i] as int;
    let out_b = p.amounts[j] as int;
    let before = isqrt(in_b * out_b);
    let after = isqrt((in_b + amount_in) * (out_b - out));
    assert(p.total_supply > 0) by {
        if p.total_supply == 0 {
            assert(p.amounts[i] == 0);
        }
    }
    lemma_isqrt_exists(in_b * out_b);
    let numerator = (after - before) * p.total_supply;
    assert(numerator > 0) by (nonlinear_arith)
        requires
            numerator == (after - before) * p.total_supply,
            after > before,
            p.total_supply > 0,
    ;
    let moved = PoolState {
        amounts: p.amounts.update(i, (in_b + amount_in) as Balance).update(j, (out_b - out) as Balance),
        ..p
    };
    assert(in_b == p.reserve(asset_in) && out_b == p.reserve(asset_out));
    assert(swap_result(p, asset_in, amount_in, asset_out, min_amount_out, exchange, Some(referral), fee_divisor)
        == match fee_mint_result(moved, exchange, p.exchange_fee, numerator, after) {
            Err(e) => Err(e),
            Ok(q1) => match fee_mint_result(q1, Some(referral), p.referral_fee, numerator, after) {
                Err(e) => Err(e),
                Ok(r) => Ok((r, out)),
            },
        });
    let q1 = fee_mint_result(moved, exchange, p.exchange_fee, numerator, after)->Ok_0;
    assert(q1.shares_of(referral) == p.shares_of(referral)) by {
        if exchange is Some && p.exchange_fee > 0 && numerator > 0 {
            let minted = fee_shares(numerator, after, p.total_fee as int, p.exchange_fee as int);
            if minted != 0 {
                assert(q1.shares == moved.shares.insert(exchange->0, (moved.shares_of(exchange->0) + minted) as Balance));
                assert(exchange->0 != referral);
            }
        }
    }
    assert(q1.total_fee == p.total_fee && q1.referral_fee == p.referral_fee);
    let minted = fee_shares(numerator, after, p.total_fee as int, p.referral_fee as int);
    lemma_fee_shares_nonneg(numerator, after, p.total_fee as int, p.referral_fee as int);
    assert(fee_mint_result(q1, Some(referral), p.referral_fee, numerator, after) is Ok);
    assert(q == fee_mint_result(q1, Some(referral), p.referral_fee, numerator, after)->Ok_0);
    assert(!(after * q1.total_fee > crate::math::balance_max()));
    assert(fee_mint_result(q1, Some(referral), p.referral_fee, numerator, after) == mint_result(q1, referral, minted));
    assert(q.shares_of(referral) == q1.shares_of(referral) + minted) by {
        if minted != 0 {
            assert(q1.shares_of(referral) + minted <= crate::math::balance_max());
            assert(q.shares == q1.shares.insert(referral, (q1.shares_of(referral) + minted) as Balance));
        }
    }
}

/// The exchange account is paid its portion of the fee as liquidity shares: when a swap
/// succeeds, the exchange fee is positive and the swap grows the pool's invariant, the exchange
/// account's shares grow by the growth of the invariant times the share supply, divided by the
/// invariant's worth of the exchange portion of the fee.
pub proof fn law_swap_pays_exchange(
    p: PoolState,
    asset_in: AssetId,
    amount_in: Balance,
    asset_out: AssetId,
    min_amount_out: Balance,
    exchange: AccountId,
    referral: Option<AccountId>,
    fee_divisor: Balance,
)
    requires
        p.wf(fee_divisor),
        referral != Some(exchange),
        p.exchange_fee > 0,
        swap_result(p, asset_in, amount_in, asset_out, min_amount_out, Some(exchange), referral, fee_divisor) is Ok,
        isqrt(
            (p.reserve(asset_in) + amount_in) * (p.reserve(asset_out) - swap_result(
                p, asset_in, amount_in, asset_out, min_amount_out, Some(exchange), referral, fee_divisor,
            )->Ok_0.1),
        ) > isqrt(p.reserve(asset_in) * p.reserve(asset_out)),
    ensures
        ({
            let (q, out) = swap_result(p, asset_in, amount_in, asset_out, min_amount_out, Some(exchange), referral, fee_divisor)->Ok_0;
            let before = isqrt(p.reserve(asset_in) * p.reserve(asset_out));
            let after = isqrt((p.reserve(asset_in) + amount_in) * (p.reserve(asset_out) - out));
            q.shares_of(exchange) == p.shares_of(exchange)
                + ((after - before) * p.total_supply) / ((after * p.total_fee) / p.exchange_fee as int)
        }),
{
    let (q, out) = swap_result(p, asset_in, amount_in, asset_out, min_amount_out, Some(exchange), referral, fee_divisor)->Ok_0;
    let i = p.index(asset_in);
    let j = p.index(asset_out);
    assert(p.asset_ids.contains(asset_in) && p.asset_ids.contains(asset_out));
    let in_b = p.amounts[i] as int;
    let out_b = p.amounts[j] as int;
    let before = isqrt(in_b * out_b);
    let after = isqrt((in_b + amount_in) * (out_b - out));
    assert(p.total_supply > 0) by {
        if p.total_supply == 0 {
            assert(p.amounts[i] == 0);
        }
    }
    lemma_isqrt_exists(in_b * out_b);
    let numerator = (after - before) * p.total_supply;
    assert(numerator > 0) by (nonlinear_arith)
        requires
            numerator == (after - before) * p.total_supply,
            after > before,
            p.total_supply > 0,
    ;
    let moved = PoolState {
        amounts: p.amounts.update(i, (in_b + amount_in) as Balance).update(j, (out_b - out) as Balance),
        ..p
    };
    assert(in_b == p.reserve(asset_in) && out_b == p.reserve(asset_out));
    assert(swap_result(p, asset_in, amount_in, asset_out, min_amount_out, Some(exchange), referral, fee_divisor)
        == match fee_mint_result(moved, Some(exchange), p.exchange_fee, numerator, after) {
            Err(e) => Err(e),
            Ok(q1) => match fee_mint_result(q1, referral, p.referral_fee, numerator, after) {
                Err(e) => Err(e),
                Ok(r) => Ok((r, out)),
            },
        });
    let q1 = fee_mint_result(moved, Some(exchange), p.exchange_fee, numerator, after)->Ok_0;
    let minted = fee_shares(numerator, after, p.total_fee as int, p.exchange_fee as int);
    lemma_fee_shares_nonneg(numerator, after, p.total_fee as int, p.exchange_fee as int);
    assert(!(after * moved.total_fee > crate::math::balance_max()));
    assert(fee_mint_result(moved, Some(exchange), p.exchange_fee, numerator, after) == mint_result(moved, exchange, minted));
    assert(q1.shares_of(exchange) == p.shares_of(exchange) + minted) by {
        if minted != 0 {
            assert(moved.shares_of(exchange) + minted <= crate::math::balance_max());
            assert(q1.shares == moved.shares.insert(exchange, (moved.shares_of(exchange) + minted) as Balance));
        }
    }
    assert(q1.total_fee == p.total_fee && q1.referral_fee == p.referral_fee);
    assert(q == fee_mint_result(q1, referral, p.referral_fee, numerator, after)->Ok_0);
    assert(q.shares_of(exchange) == q1.shares_of(exchange)) by {
        if referral is Some && p.referral_fee > 0 && numerator > 0 {
            let m2 = fee_shares(numerator, after, p.total_fee as int, p.referral_fee as int);
            if m2 != 0 {
                assert(q.shares == q1.shares.insert(referral->0, (q1.shares_of(referral->0) + m2) as Balance));
                assert(referral->0 != exchange);
            }
        }
    }
}

/// Returning liquidity pays out of each asset at least the minimum given for it: every
/// minimum in `min_amounts` that names one of the pool's assets is met by a successful
/// removal, and one pay-out is made for each asset of the pool.
pub proof fn law_remove_liquidity_meets_minimums(p: PoolState, who: AccountId, shares: Balance, min_amounts: Seq<Balance>, fee_divisor: Balance)
    requires
        p.wf(fee_divisor),
        remove_liquidity_result(p, who, shares, min_amounts) is Ok,
    ensures
        ({
            let (q, out) = remove_liquidity_result(p, who, shares, min_amounts)->Ok_0;
            &&& out.len() == p.asset_ids.len()
            &&& forall|i: int| 0 <= i < out.len() && i < min_amounts.len() ==> #[trigger] out[i] >= min_amounts[i]
        }),
{
    let (q, out) = remove_liquidity_result(p, who, shares, min_amounts)->Ok_0;
    assert(shares_as_int(p.shares).dom() =~= p.shares.dom());
    lemma_map_sum_nonneg(shares_as_int(p.shares), who);
    assert(shares_as_int(p.shares).contains_key(who));
    let total = p.total_supply as int;
    assert(total >= shares as int && total > 0);
    assert forall|i: int| 0 <= i < out.len() && i < min_amounts.len() implies #[trigger] out[i] >= min_amounts[i] by {
        let a = p.amounts[i] as int;
        let x = shares as int;
        assert(0 <= (a * x) / total <= a) by (nonlinear_arith)
            requires
                0 <= x <= total,
                total > 0,
                a >= 0,
        ;
        assert(out[i] == removed_amount(p, x, i));
        assert(!(removed_amount(p, x, i) < min_amounts[i]));
    }
}

/// A pool created with swap fee `fee` charges the swap fee together with the exchange and
/// referral fees, and creation succeeds whenever the assets are allowed, distinct and at least
/// two, the pool limit is not reached and the total fee stays below the fee divisor; the new
/// pool is numbered after the existing ones and starts empty.
pub proof fn law_add_basic_pool_fees(s: ExchangeState, assets: Seq<AssetId>, fee: Balance)
    requires
        s.wf(),
        fee + s.config.exchange_fee + s.config.referral_fee <= u128::MAX,
    ensures
        (forall|i: int| 0 <= i < assets.len() ==> s.allowed_assets.contains(#[trigger] assets[i]))
            && s.number_of_pools() < s.config.max_pool_limit
            && assets.len() >= 2
            && distinct_assets(assets)
            && fee + s.config.exchange_fee + s.config.referral_fee < s.config.fee_divisor
            ==> add_basic_pool_outcome(s, assets, fee) is Ok,
        add_basic_pool_outcome(s, assets, fee) is Ok ==> ({
            let (s2, id) = add_basic_pool_outcome(s, assets, fee)->Ok_0;
            &&& id == s.number_of_pools() + 1
            &&& s2.pools.contains_key(id)
            &&& s2.pools[id].total_fee == fee + s.config.exchange_fee + s.config.referral_fee
            &&& s2.pools[id].exchange_fee == s.config.exchange_fee
            &&& s2.pools[id].referral_fee == s.config.referral_fee
            &&& s2.pools[id].asset_ids == assets
            &&& s2.pools[id].total_supply == 0
        }),
{
}

/// Only assets the owner allows can be deposited: a deposit of any other asset fails with
/// `AssetNotAllowed`, whether or not the account registered it.
pub proof fn law_deposit_needs_allowed_asset(s: ExchangeState, who: AccountId, asset: AssetId, amount: Balance)
    requires
        !s.allowed_assets.contains(asset),
    ensures
        deposit_outcome(s, who, asset, amount) == Err::<ExchangeState, crate::types::Error>(crate::types::Error::AssetNotAllowed),
{
}

/// Unregistering assets never loses a balance: it succeeds only when every listed asset the
/// account holds has a zero balance, and it leaves every balance of the account, and the
/// exchange's total of every asset, as they were.
pub proof fn law_unregister_keeps_balances(s: ExchangeState, who: AccountId, ids: Seq<AssetId>, asset: AssetId)
    requires
        s.wf(),
        unregister_assets_outcome(s, who, ids) is Ok,
    ensures
        forall|i: int| 0 <= i < ids.len() ==> balance_of(s.deposits[who].assets, #[trigger] ids[i]) == 0,
        balance_of(unregister_assets_outcome(s, who, ids)->Ok_0.deposits[who].assets, asset)
            == balance_of(s.deposits[who].assets, asset),
        total_of(unregister_assets_outcome(s, who, ids)->Ok_0, asset) == total_of(s, asset),
{
    let d = s.deposits[who];
    let s2 = unregister_assets_outcome(s, who, ids)->Ok_0;
    assert forall|i: int| 0 <= i < ids.len() implies balance_of(d.assets, #[trigger] ids[i]) == 0 by {
        if d.assets.contains_key(ids[i]) {
            assert(d.assets[ids[i]] == 0);
        }
    }
    if ids.contains(asset) {
        let i = ids.index_of(asset);
        assert(ids[i] == asset);
        assert(balance_of(d.assets, ids[i]) == 0);
    }
    let d2 = s2.deposits[who];
    lemma_total_with_deposit(s, who, d2, asset);
    assert(s2 == s.with_deposit(who, d2));
}

} // verus!
