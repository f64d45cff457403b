use vstd::prelude::*;
use std::collections::BTreeMap;
use crate::types::{AssetBalance, AssetId, Balance, Error};
use vstd::std_specs::iter::IteratorSpec;
use vstd::std_specs::cmp::OrdSpec;

verus! {

broadcast use vstd::std_specs::btree::group_btree_axioms, vstd::laws_cmp::group_laws_cmp;

/// Information about the account's asset deposits
#[derive(Clone, Debug)]
pub struct AccountDeposit {
    /// balance of native currency sent to the exchange
    pub amount: Balance,
    /// Amounts of various assets in this account.
    pub assets: BTreeMap<AssetId, Balance>,
}

/// The mathematical content of an account deposit.
pub struct DepositState {
    pub amount: Balance,
    pub assets: Map<AssetId, Balance>,
}

impl View for AccountDeposit {
    type V = DepositState;

    open spec fn view(&self) -> DepositState {
        DepositState { amount: self.amount, assets: self.assets@ }
    }
}


impl Default for AccountDeposit {
    fn default() -> (r: Self)
        ensures
            r.amount == 0,
            r.assets@ == Map::<AssetId, Balance>::empty(),
    {
        AccountDeposit { amount: 0, assets: BTreeMap::new() }
    }
}

impl AccountDeposit {
    /// Subtract from balance of given asset.
    pub fn sub(&mut self, asset_id: &AssetId, amount: Balance) -> (r: Result<Balance, Error>)
        ensures
            r == sub_result(old(self).assets@, *asset_id, amount),
            match r {
                Ok(v) => final(self)@ == (DepositState { assets: old(self).assets@.insert(*asset_id, v), ..old(self)@ }),
                Err(_) => final(self)@ == old(self)@,
            },
    {
        match self.assets.get(asset_id) {
            None => Err(Error::AssetNotFound),
            Some(v) => {
                let value = *v;
                match value.checked_sub(amount) {
                    None => Err(Error::NotEnoughBalance),
                    Some(nb) => {
                        self.assets.insert(*asset_id, nb);
                        Ok(nb)
                    },
                }
            },
        }
    }

    /// Mocks subtracting from the users balance
    pub fn can_sub(&self, asset_id: &AssetId, amount: Balance) -> (r: Result<Balance, Error>)
        ensures
            r == sub_result(self.assets@, *asset_id, amount),
    {
        let value = match self.assets.get(asset_id) {
            Some(v) => *v,
            None => return Err(Error::AssetNotFound),
        };
        match value.checked_sub(amount) {
            Some(v) => Ok(v),
            None => Err(Error::NotEnoughBalance),
        }
    }

    /// Adds amount to the balance of given asset.
    pub fn add(&mut self, asset_id: &AssetId, amount: Balance) -> (r: Result<(), Error>)
        ensures
            match add_result(old(self).assets@, *asset_id, amount) {
                Ok(v) => r is Ok && final(self)@ == (DepositState { assets: old(self).assets@.insert(*asset_id, v), ..old(self)@ }),
                Err(e) => r == Err::<(), Error>(e) && final(self)@ == old(self)@,
            },
    {
        let value = match self.assets.get(asset_id) {
            Some(v) => *v,
            None => return Err(Error::AssetNotFound),
        };
        let new_balance = match value.checked_add(amount) {
            Some(v) => v,
            None => return Err(Error::StorageOverflow),
        };
        self.assets.insert(*asset_id, new_balance);
        Ok(())
    }

    /// Adds amount to the balance of given asset, registering the asset if it is not yet.
    pub fn credit(&mut self, asset_id: &AssetId, amount: Balance) -> (r: Result<(), Error>)
        ensures
            match r {
                Ok(()) => balance_of(old(self).assets@, *asset_id) + amount <= u128::MAX
                    && final(self)@ == (DepositState {
                        assets: old(self).assets@.insert(*asset_id, (balance_of(old(self).assets@, *asset_id) + amount) as Balance),
                        ..old(self)@
                    }),
                Err(e) => balance_of(old(self).assets@, *asset_id) + amount > u128::MAX
                    && e == Error::StorageOverflow && final(self)@ == old(self)@,
            },
    {
        let value = match self.assets.get(asset_id) {
            Some(v) => *v,
            None => 0,
        };
        let new_balance = match value.checked_add(amount) {
            Some(v) => v,
            None => return Err(Error::StorageOverflow),
        };
        self.assets.insert(*asset_id, new_balance);
        Ok(())
    }


    /// Checks, in increasing order of assets, that each amount of `m` can be taken from the
    /// deposit, returning the error of the first that cannot.
    pub fn can_sub_all(&self, m: &BTreeMap<AssetId, Balance>) -> (r: Result<(), Error>)
        ensures
            match shortfall(self.assets@, m@) {
                Some(e) => r == Err::<(), Error>(e),
                None => r is Ok && forall|a: AssetId| #[trigger] m@.contains_key(a) ==> !short(self.assets@, a, m@[a]),
            },
    {
        let v = sorted_balances(m);
        let n = v.len();
        let mut k: usize = 0;
        while k < n
            invariant
                n == v@.len(),
                k <= n,
                sorted_listing(m@, v@),
                m@.dom().finite(),
                forall|j: int| 0 <= j < k ==> !short(self.assets@, #[trigger] v@[j].asset, v@[j].amount),
            decreases n - k,
        {
            match self.can_sub(&v[k].asset, v[k].amount) {
                Ok(_) => {},
                Err(e) => {
                    proof {
                        let a = v@[k as int].asset;
                        assert(m@[a] == v@[k as int].amount);
                        assert forall|b: AssetId| #[trigger] m@.contains_key(b) && b < a implies !short(self.assets@, b, m@[b]) by {
                            lemma_listing_covers(m@, v@, b);
                            let j = choose|j: int| 0 <= j < v@.len() && (#[trigger] v@[j]).asset == b;
                            if j >= k {
                                if j > k {
                                    assert(v@[k as int].asset < v@[j].asset);
                                }
                            }
                        }
                        assert(least_shortfall(self.assets@, m@, a));
                        let c = choose|c: AssetId| least_shortfall(self.assets@, m@, c);
                        lemma_least_shortfall_unique(self.assets@, m@, a, c);
                    }
                    return Err(e);
                },
            }
            k = k + 1;
        }
        proof {
            assert forall|a: AssetId| #[trigger] m@.contains_key(a) implies !short(self.assets@, a, m@[a]) by {
                lemma_listing_covers(m@, v@, a);
                let j = choose|j: int| 0 <= j < v@.len() && (#[trigger] v@[j]).asset == a;
                assert(!short(self.assets@, v@[j].asset, v@[j].amount));
            }
            assert(!exists|a: AssetId| least_shortfall(self.assets@, m@, a));
        }
        Ok(())
    }


    /// Takes each amount of `m` out of the deposit; every amount must be available.
    pub fn sub_all(&mut self, m: &BTreeMap<AssetId, Balance>)
        requires
            forall|a: AssetId| #[trigger] m@.contains_key(a) ==> !short(old(self).assets@, a, m@[a]),
        ensures
            final(self)@ == (DepositState { assets: take_all(old(self).assets@, m@), ..old(self)@ }),
    {
        let ghost d0 = self.assets@;
        let v = sorted_balances(m);
        let n = v.len();
        let mut k: usize = 0;
        while k < n
            invariant
                n == v@.len(),
                k <= n,
                sorted_listing(m@, v@),
                m@.dom().finite(),
                forall|a: AssetId| #[trigger] m@.contains_key(a) ==> !short(d0, a, m@[a]),
                self.amount == old(self).amount,
                d0 == old(self).assets@,
                self.assets@ =~= Map::new(
                    |a: AssetId| d0.contains_key(a),
                    |a: AssetId| if listed_before(v@, k as int, a) { (d0[a] - m@[a]) as Balance } else { d0[a] },
                ),
            decreases n - k,
        {
            let ghost a = v@[k as int].asset;
            assert(m@.contains_key(a));
            assert(!listed_before(v@, k as int, a)) by {
                assert forall|j: int| 0 <= j < k implies (#[trigger] v@[j]).asset != a by {
                    assert(v@[j].asset < v@[k as int].asset);
                }
            }
            let r = self.sub(&v[k].asset, v[k].amount);
            assert(r is Ok);
            proof {
                assert forall|b: AssetId| #[trigger] listed_before(v@, k + 1, b) <==> (listed_before(v@, k as int, b) || b == a) by {
                    if b == a {
                        assert(v@[k as int].asset == b);
                    }
                    if listed_before(v@, k as int, b) {
                        let j = choose|j: int| 0 <= j < k && (#[trigger] v@[j]).asset == b;
                        assert(0 <= j < k + 1 && v@[j].asset == b);
                    }
                    if listed_before(v@, k + 1, b) {
                        let j = choose|j: int| 0 <= j < k + 1 && (#[trigger] v@[j]).asset == b;
                        if j < k {
                            assert(listed_before(v@, k as int, b));
                        }
                    }
                }
            }
            k = k + 1;
        }
        proof {
            assert forall|a: AssetId| #[trigger] m@.contains_key(a) implies listed_before(v@, n as int, a) by {
                lemma_listing_covers(m@, v@, a);
            }
            assert forall|a: AssetId| #[trigger] listed_before(v@, n as int, a) implies m@.contains_key(a) by {
                let j = choose|j: int| 0 <= j < n && (#[trigger] v@[j]).asset == a;
                assert(m@.contains_key(v@[j].asset));
            }
            assert(self.assets@ =~= take_all(d0, m@));
        }
    }

    /// A copy of the deposit.
    pub fn duplicate(&self) -> (r: AccountDeposit)
        ensures
            r@ == self@,
    {
        AccountDeposit { amount: self.amount, assets: self.assets.clone() }
    }
}

/// The outcome of taking `amount` of `asset` out of the balances `assets`: the new balance.
pub open spec fn sub_result(assets: Map<AssetId, Balance>, asset: AssetId, amount: Balance) -> Result<Balance, Error> {
    if !assets.contains_key(asset) {
        Err(Error::AssetNotFound)
    } else if assets[asset] < amount {
        Err(Error::NotEnoughBalance)
    } else {
        Ok((assets[asset] - amount) as Balance)
    }
}

/// The outcome of adding `amount` of `asset` to the balances `assets`: the new balance.
pub open spec fn add_result(assets: Map<AssetId, Balance>, asset: AssetId, amount: Balance) -> Result<Balance, Error> {
    if !assets.contains_key(asset) {
        Err(Error::AssetNotFound)
    } else if assets[asset] + amount > u128::MAX {
        Err(Error::StorageOverflow)
    } else {
        Ok((assets[asset] + amount) as Balance)
    }
}

/// The balance of `asset` in `assets`, zero if it is not registered.
pub open spec fn balance_of(assets: Map<AssetId, Balance>, asset: AssetId) -> int {
    if assets.contains_key(asset) {
        assets[asset] as int
    } else {
        0
    }
}

/// No asset occurs twice in the list of asset balances.
pub open spec fn unique_assets(s: Seq<AssetBalance>) -> bool {
    forall|i: int, j: int| 0 <= i < j < s.len() ==> s[i].asset != s[j].asset
}

/// The map from each asset of the list to its amount.
pub open spec fn balances_map(s: Seq<AssetBalance>) -> Map<AssetId, Balance> {
    Map::new(
        |a: AssetId| exists|i: int| 0 <= i < s.len() && s[i].asset == a,
        |a: AssetId| s[choose|i: int| 0 <= i < s.len() && s[i].asset == a].amount,
    )
}

/// `s` lists the entries of `m` in increasing order of assets.
pub open spec fn sorted_listing(m: Map<AssetId, Balance>, s: Seq<AssetBalance>) -> bool {
    &&& s.len() == m.dom().len()
    &&& forall|i: int| 0 <= i < s.len() ==> m.contains_key(#[trigger] s[i].asset) && m[s[i].asset] == s[i].amount
    &&& forall|i: int, j: int| 0 <= i < j < s.len() ==> s[i].asset < s[j].asset
}


/// `amount` of `asset` cannot be taken from the balances `assets`.
pub open spec fn short(assets: Map<AssetId, Balance>, asset: AssetId, amount: Balance) -> bool {
    sub_result(assets, asset, amount) is Err
}

/// `a` is the least asset of `m` whose amount cannot be taken from `assets`.
pub open spec fn least_shortfall(assets: Map<AssetId, Balance>, m: Map<AssetId, Balance>, a: AssetId) -> bool {
    &&& m.contains_key(a)
    &&& short(assets, a, m[a])
    &&& forall|b: AssetId| #[trigger] m.contains_key(b) && b < a ==> !short(assets, b, m[b])
}

/// The error met when taking each amount of `m` from `assets` in increasing order of assets,
/// if one of them cannot be taken.
pub open spec fn shortfall(assets: Map<AssetId, Balance>, m: Map<AssetId, Balance>) -> Option<Error> {
    if exists|a: AssetId| least_shortfall(assets, m, a) {
        let a = choose|a: AssetId| least_shortfall(assets, m, a);
        Some(sub_result(assets, a, m[a])->Err_0)
    } else {
        None
    }
}


/// The balances `assets` after taking out each amount of `m`.
pub open spec fn take_all(assets: Map<AssetId, Balance>, m: Map<AssetId, Balance>) -> Map<AssetId, Balance> {
    Map::new(
        |a: AssetId| assets.contains_key(a),
        |a: AssetId| if m.contains_key(a) { (assets[a] - m[a]) as Balance } else { assets[a] },
    )
}

/// `a` is named among the first `k` entries of `v`.
pub open spec fn listed_before(v: Seq<AssetBalance>, k: int, a: AssetId) -> bool {
    exists|j: int| 0 <= j < k && (#[trigger] v[j]).asset == a
}

/// The map of a list of asset balances is finite.
pub proof fn lemma_balances_map_finite(s: Seq<AssetBalance>)
    ensures
        balances_map(s).dom().finite(),
{
    broadcast use vstd::seq_lib::seq_to_set_is_finite;

    let ks = s.map_values(|x: AssetBalance| x.asset);
    assert(balances_map(s).dom() =~= ks.to_set()) by {
        assert forall|a: AssetId| balances_map(s).dom().contains(a) <==> ks.to_set().contains(a) by {
            if balances_map(s).dom().contains(a) {
                let i = choose|i: int| 0 <= i < s.len() && s[i].asset == a;
                assert(ks[i] == a);
            }
            if ks.to_set().contains(a) {
                let i = choose|i: int| 0 <= i < ks.len() && ks[i] == a;
                assert(s[i].asset == a);
            }
        }
    }
}

/// Without a shortfall every amount can be taken.
pub proof fn lemma_no_shortfall(assets: Map<AssetId, Balance>, m: Map<AssetId, Balance>, a: AssetId)
    requires
        m.dom().finite(),
        shortfall(assets, m) is None,
        m.contains_key(a),
    ensures
        !short(assets, a, m[a]),
{
    if short(assets, a, m[a]) {
        lemma_least_shortfall_exists(assets, m, a);
    }
}

/// Where an amount cannot be taken, there is a least such asset.
pub proof fn lemma_least_shortfall_exists(assets: Map<AssetId, Balance>, m: Map<AssetId, Balance>, a: AssetId)
    requires
        m.dom().finite(),
        m.contains_key(a),
        short(assets, a, m[a]),
    ensures
        exists|c: AssetId| least_shortfall(assets, m, c),
    decreases a,
{
    if !least_shortfall(assets, m, a) {
        let b = choose|b: AssetId| #[trigger] m.contains_key(b) && b < a && short(assets, b, m[b]);
        lemma_least_shortfall_exists(assets, m, b);
    }
}

/// A sorted listing names every key of its map.
pub proof fn lemma_listing_covers(m: Map<AssetId, Balance>, v: Seq<AssetBalance>, b: AssetId)
    requires
        m.dom().finite(),
        sorted_listing(m, v),
        m.contains_key(b),
    ensures
        exists|j: int| 0 <= j < v.len() && (#[trigger] v[j]).asset == b,
{
    broadcast use vstd::seq_lib::seq_to_set_is_finite;

    let ks = v.map_values(|x: AssetBalance| x.asset);
    assert(ks.no_duplicates()) by {
        assert forall|i: int, j: int| 0 <= i < ks.len() && 0 <= j < ks.len() && i != j implies ks[i] != ks[j] by {
            if i < j {
                assert(v[i].asset < v[j].asset);
            } else {
                assert(v[j].asset < v[i].asset);
            }
        }
    }
    ks.unique_seq_to_set();
    assert(ks.to_set().subset_of(m.dom())) by {
        assert forall|a: AssetId| ks.to_set().contains(a) implies m.dom().contains(a) by {
            let j = choose|j: int| 0 <= j < ks.len() && ks[j] == a;
            assert(m.contains_key(v[j].asset));
        }
    }
    vstd::set_lib::lemma_subset_equality(ks.to_set(), m.dom());
    assert(ks.to_set().contains(b));
    let j = choose|j: int| 0 <= j < ks.len() && ks[j] == b;
    assert(v[j].asset == b);
}

/// There is at most one least shortfall.
pub proof fn lemma_least_shortfall_unique(assets: Map<AssetId, Balance>, m: Map<AssetId, Balance>, a: AssetId, b: AssetId)
    requires
        least_shortfall(assets, m, a),
        least_shortfall(assets, m, b),
    ensures
        a == b,
{
    if a < b {
        assert(m.contains_key(a));
    } else if b < a {
        assert(m.contains_key(b));
    }
}

/// Makes sure only unique assets are in a list of assets and their balances
pub fn ensure_unique_assets(assets: Vec<AssetBalance>) -> (r: Result<BTreeMap<AssetId, Balance>, Error>)
    ensures
        match r {
            Ok(m) => unique_assets(assets@) && m@ == balances_map(assets@),
            Err(e) => !unique_assets(assets@) && e == Error::DuplicateAsset,
        },
{
    let mut set: BTreeMap<AssetId, Balance> = BTreeMap::new();
    let n = assets.len();
    let mut i: usize = 0;
    while i < n
        invariant
            n == assets.len(),
            i <= n,
            unique_assets(assets@.take(i as int)),
            set@ == balances_map(assets@.take(i as int)),
        decreases n - i,
    {
        let ghost prefix = assets@.take(i as int);
        let ghost next = assets@.take(i + 1);
        assert(next =~= prefix.push(assets@[i as int]));
        let a = assets[i];
        match set.insert(a.asset, a.amount) {
            Some(_) => {
                let ghost j = choose|j: int| 0 <= j < prefix.len() && prefix[j].asset == a.asset;
                assert(next[j].asset == next[i as int].asset);
                assert(!unique_assets(assets@)) by {
                    assert(assets@[j].asset == assets@[i as int].asset);
                }
                return Err(Error::DuplicateAsset);
            },
            None => {},
        }
        assert(set@ =~= balances_map(next)) by {
            assert forall|b: AssetId| #[trigger] set@.contains_key(b) implies balances_map(next).contains_key(b) && set@[b] == balances_map(next)[b] by {
                if b == a.asset {
                    assert(next[i as int].asset == b);
                    let k = choose|k: int| 0 <= k < next.len() && next[k].asset == b;
                    if k != i as int {
                        assert(prefix[k].asset == b);
                        assert(balances_map(prefix).contains_key(b));
                    }
                } else {
                    let k = choose|k: int| 0 <= k < prefix.len() && prefix[k].asset == b;
                    assert(next[k].asset == b);
                    let k2 = choose|k2: int| 0 <= k2 < next.len() && next[k2].asset == b;
                    assert(k2 < i);
                    assert(prefix[k2].asset == b);
                }
            }
            assert forall|b: AssetId| #[trigger] balances_map(next).contains_key(b) implies set@.contains_key(b) by {
                let k = choose|k: int| 0 <= k < next.len() && next[k].asset == b;
                if k < i {
                    assert(prefix[k].asset == b);
                }
            }
        }
        i = i + 1;
    }
    assert(assets@.take(n as int) =~= assets@);
    Ok(set)
}

/// Lists the entries of `m` in increasing order of assets.
pub fn sorted_balances(m: &BTreeMap<AssetId, Balance>) -> (v: Vec<AssetBalance>)
    ensures
        sorted_listing(m@, v@),
{
    let mut v: Vec<AssetBalance> = Vec::new();
    for kv in it: m.iter()
        invariant
            it.seq() == vstd::std_specs::btree::spec_btree_map_iter(m).remaining(),
            v@.len() == it.index(),
            forall|i: int| 0 <= i < it.index() ==> #[trigger] v@[i] == (AssetBalance { asset: *it.seq()[i].0, amount: *it.seq()[i].1 }),
    {
        let (k, b) = kv;
        v.push(AssetBalance { asset: *k, amount: *b });
    }
    proof {
        let s = vstd::std_specs::btree::spec_btree_map_iter(m).remaining();
        assert(v@.len() == s.len());
        assert(vstd::std_specs::btree::increasing_seq(s.map_values(|kv: (&AssetId, &Balance)| *kv.0)));
        assert forall|i: int, j: int| 0 <= i < j < v@.len() implies v@[i].asset < v@[j].asset by {
            let ks = s.map_values(|kv: (&AssetId, &Balance)| *kv.0);
            assert(ks[i] == v@[i].asset);
            assert(ks[j] == v@[j].asset);
            assert(ks[i].cmp_spec(&ks[j]) is Less);
        }
        assert forall|i: int| 0 <= i < v@.len() implies m@.contains_key(#[trigger] v@[i].asset) && m@[v@[i].asset] == v@[i].amount by {
            assert(m@.contains_key(*s[i].0));
        }
    }
    v
}

} // verus!
