use vstd::prelude::*;

verus! {

/// Identifier of a parachain.
pub type ParaId = u32;

/// A global identifier of an account-bearing consensus system.
#[derive(Clone, Debug, PartialEq, Eq)]
pub enum NetworkId {
    Any,
    Named(Vec<u8>),
    Polkadot,
    Kusama,
}

/// A single item in a path to describe the relative location of a consensus system.
#[derive(Clone, Debug, PartialEq, Eq)]
pub enum Junction {
    /// The consensus system of which the context is a member.
    Parent,
    /// A parachain of the context.
    Parachain { id: u32 },
    /// A 32-byte account on a network.
    AccountId32 { network: NetworkId, id: [u8; 32] },
    /// An indexed account on a network.
    AccountIndex64 { network: NetworkId, index: u64 },
    /// A 20-byte account key on a network.
    AccountKey20 { network: NetworkId, key: [u8; 20] },
    /// An instanced pallet.
    PalletInstance { id: u8 },
    /// A non-descript index within the context location.
    GeneralIndex { id: u128 },
    /// A non-descript datum within the context location.
    GeneralKey(Vec<u8>),
    /// The unambiguous child.
    OnlyChild,
}

/// A relative path between consensus systems, of at most eight junctions.
#[derive(Clone, Debug, PartialEq, Eq)]
pub enum MultiLocation {
    Null,
    X1(Junction),
    X2(Junction, Junction),
    X3(Junction, Junction, Junction),
    X4(Junction, Junction, Junction, Junction),
    X5(Junction, Junction, Junction, Junction, Junction),
    X6(Junction, Junction, Junction, Junction, Junction, Junction),
    X7(Junction, Junction, Junction, Junction, Junction, Junction, Junction),
    X8(Junction, Junction, Junction, Junction, Junction, Junction, Junction, Junction),
}

/// The last junction of a location, if it has any.
pub open spec fn last_junction(l: MultiLocation) -> Option<Junction> {
    match l {
        MultiLocation::Null => None,
        MultiLocation::X1(a) => Some(a),
        MultiLocation::X2(_, a) => Some(a),
        MultiLocation::X3(_, _, a) => Some(a),
        MultiLocation::X4(_, _, _, a) => Some(a),
        MultiLocation::X5(_, _, _, _, a) => Some(a),
        MultiLocation::X6(_, _, _, _, _, a) => Some(a),
        MultiLocation::X7(_, _, _, _, _, _, a) => Some(a),
        MultiLocation::X8(_, _, _, _, _, _, _, a) => Some(a),
    }
}

/// The location is the relay chain as seen from a parachain: a single `Parent`.
pub open spec fn is_relay_location(l: MultiLocation) -> bool {
    l matches MultiLocation::X1(Junction::Parent)
}

impl MultiLocation {
    /// Returns the last junction of the location, if it has any.
    pub fn last(&self) -> (r: Option<&Junction>)
        ensures
            match r {
                Some(j) => last_junction(*self) == Some(*j),
                None => last_junction(*self) is None,
            },
    {
        match self {
            MultiLocation::Null => None,
            MultiLocation::X1(a) => Some(a),
            MultiLocation::X2(_, a) => Some(a),
            MultiLocation::X3(_, _, a) => Some(a),
            MultiLocation::X4(_, _, _, a) => Some(a),
            MultiLocation::X5(_, _, _, _, a) => Some(a),
            MultiLocation::X6(_, _, _, _, _, a) => Some(a),
            MultiLocation::X7(_, _, _, _, _, _, a) => Some(a),
            MultiLocation::X8(_, _, _, _, _, _, _, a) => Some(a),
        }
    }

    /// Whether the location is the relay chain: a single `Parent`.
    pub fn is_relay(&self) -> (r: bool)
        ensures
            r == is_relay_location(*self),
    {
        match self {
            MultiLocation::X1(Junction::Parent) => true,
            _ => false,
        }
    }
}

/// The kinds of asset a message can name.
#[derive(Clone, Debug, PartialEq, Eq)]
pub enum MultiAsset {
    /// All assets held.
    All,
    /// All fungible assets held.
    AllFungible,
    /// All non-fungible assets held.
    AllNonFungible,
    /// All fungible assets of an abstract identifier.
    AllAbstractFungible { id: Vec<u8> },
    /// All fungible assets of a concrete location.
    AllConcreteFungible { id: MultiLocation },
    /// An amount of a fungible asset of an abstract identifier.
    AbstractFungible { id: Vec<u8>, amount: u128 },
    /// An amount of a fungible asset of a concrete location.
    ConcreteFungible { id: MultiLocation, amount: u128 },
}

/// An instruction to be executed on some or all of the assets in holding.
#[derive(Debug)]
pub enum Order {
    /// Do nothing.
    Null,
    /// Remove the asset(s) from holding and place equivalent assets under the ownership of
    /// `dest` within this consensus system.
    DepositAsset { assets: Vec<MultiAsset>, dest: MultiLocation },
    /// Remove the asset(s) from holding and place equivalent assets under the ownership of
    /// `dest` within this consensus system, then notify `dest` of the deposit.
    DepositReserveAsset { assets: Vec<MultiAsset>, dest: MultiLocation, effects: Vec<Order> },
    /// Remove the asset(s) from holding and send a withdrawal notice to `reserve`.
    InitiateReserveWithdraw { assets: Vec<MultiAsset>, reserve: MultiLocation, effects: Vec<Order> },
}

/// A cross-consensus message.
#[derive(Debug)]
pub enum Xcm {
    /// Withdraw asset(s) from the ownership of the origin and place them into holding, then
    /// execute the orders `effects`.
    WithdrawAsset { assets: Vec<MultiAsset>, effects: Vec<Order> },
}

/// Why a cross-consensus operation failed.
#[derive(Clone, Copy, Debug, PartialEq, Eq)]
pub enum XcmError {
    /// The asset could not be transacted; the reason is named.
    FailedToTransactAsset(&'static str),
}

} // verus!

verus! {

/// The content of a network identifier.
pub enum NetworkView {
    Any,
    Named(Seq<u8>),
    Polkadot,
    Kusama,
}

/// The content of a junction.
pub enum JunctionView {
    Parent,
    Parachain { id: u32 },
    AccountId32 { network: NetworkView, id: [u8; 32] },
    AccountIndex64 { network: NetworkView, index: u64 },
    AccountKey20 { network: NetworkView, key: [u8; 20] },
    PalletInstance { id: u8 },
    GeneralIndex { id: u128 },
    GeneralKey(Seq<u8>),
    OnlyChild,
}

/// The content of an asset.
pub enum MultiAssetView {
    All,
    AllFungible,
    AllNonFungible,
    AllAbstractFungible { id: Seq<u8> },
    AllConcreteFungible { id: Seq<JunctionView> },
    AbstractFungible { id: Seq<u8>, amount: u128 },
    ConcreteFungible { id: Seq<JunctionView>, amount: u128 },
}

impl View for NetworkId {
    type V = NetworkView;

    open spec fn view(&self) -> NetworkView {
        match self {
            NetworkId::Any => NetworkView::Any,
            NetworkId::Named(v) => NetworkView::Named(v@),
            NetworkId::Polkadot => NetworkView::Polkadot,
            NetworkId::Kusama => NetworkView::Kusama,
        }
    }
}

impl View for Junction {
    type V = JunctionView;

    open spec fn view(&self) -> JunctionView {
        match self {
            Junction::Parent => JunctionView::Parent,
            Junction::Parachain { id } => JunctionView::Parachain { id: *id },
            Junction::AccountId32 { network, id } => JunctionView::AccountId32 { network: network@, id: *id },
            Junction::AccountIndex64 { network, index } => JunctionView::AccountIndex64 { network: network@, index: *index },
            Junction::AccountKey20 { network, key } => JunctionView::AccountKey20 { network: network@, key: *key },
            Junction::PalletInstance { id } => JunctionView::PalletInstance { id: *id },
            Junction::GeneralIndex { id } => JunctionView::GeneralIndex { id: *id },
            Junction::GeneralKey(k) => JunctionView::GeneralKey(k@),
            Junction::OnlyChild => JunctionView::OnlyChild,
        }
    }
}

impl View for MultiLocation {
    type V = Seq<JunctionView>;

    open spec fn view(&self) -> Seq<JunctionView> {
        match self {
            MultiLocation::Null => seq![],
            MultiLocation::X1(a) => seq![a@],
            MultiLocation::X2(a, b) => seq![a@, b@],
            MultiLocation::X3(a, b, c) => seq![a@, b@, c@],
            MultiLocation::X4(a, b, c, d) => seq![a@, b@, c@, d@],
            MultiLocation::X5(a, b, c, d, e) => seq![a@, b@, c@, d@, e@],
            MultiLocation::X6(a, b, c, d, e, f) => seq![a@, b@, c@, d@, e@, f@],
            MultiLocation::X7(a, b, c, d, e, f, g) => seq![a@, b@, c@, d@, e@, f@, g@],
            MultiLocation::X8(a, b, c, d, e, f, g, h) => seq![a@, b@, c@, d@, e@, f@, g@, h@],
        }
    }
}

impl View for MultiAsset {
    type V = MultiAssetView;

    open spec fn view(&self) -> MultiAssetView {
        match self {
            MultiAsset::All => MultiAssetView::All,
            MultiAsset::AllFungible => MultiAssetView::AllFungible,
            MultiAsset::AllNonFungible => MultiAssetView::AllNonFungible,
            MultiAsset::AllAbstractFungible { id } => MultiAssetView::AllAbstractFungible { id: id@ },
            MultiAsset::AllConcreteFungible { id } => MultiAssetView::AllConcreteFungible { id: id@ },
            MultiAsset::AbstractFungible { id, amount } => MultiAssetView::AbstractFungible { id: id@, amount: *amount },
            MultiAsset::ConcreteFungible { id, amount } => MultiAssetView::ConcreteFungible { id: id@, amount: *amount },
        }
    }
}

/// A copy of a byte string.
fn copy_bytes(v: &Vec<u8>) -> (r: Vec<u8>)
    ensures
        r@ == v@,
{
    let r = v.clone();
    assert(r@ =~= v@);
    r
}

impl NetworkId {
    /// A copy of the network identifier.
    pub fn copy(&self) -> (r: NetworkId)
        ensures
            r@ == self@,
    {
        match self {
            NetworkId::Any => NetworkId::Any,
            NetworkId::Named(v) => NetworkId::Named(copy_bytes(v)),
            NetworkId::Polkadot => NetworkId::Polkadot,
            NetworkId::Kusama => NetworkId::Kusama,
        }
    }
}

impl Junction {
    /// A copy of the junction.
    pub fn copy(&self) -> (r: Junction)
        ensures
            r@ == self@,
    {
        match self {
            Junction::Parent => Junction::Parent,
            Junction::Parachain { id } => Junction::Parachain { id: *id },
            Junction::AccountId32 { network, id } => Junction::AccountId32 { network: network.copy(), id: *id },
            Junction::AccountIndex64 { network, index } => Junction::AccountIndex64 { network: network.copy(), index: *index },
            Junction::AccountKey20 { network, key } => Junction::AccountKey20 { network: network.copy(), key: *key },
            Junction::PalletInstance { id } => Junction::PalletInstance { id: *id },
            Junction::GeneralIndex { id } => Junction::GeneralIndex { id: *id },
            Junction::GeneralKey(k) => Junction::GeneralKey(copy_bytes(k)),
            Junction::OnlyChild => Junction::OnlyChild,
        }
    }
}

impl MultiLocation {
    /// A copy of the location.
    pub fn copy(&self) -> (r: MultiLocation)
        ensures
            r@ == self@,
    {
        match self {
            MultiLocation::Null => MultiLocation::Null,
            MultiLocation::X1(a) => MultiLocation::X1(a.copy()),
            MultiLocation::X2(a, b) => MultiLocation::X2(a.copy(), b.copy()),
            MultiLocation::X3(a, b, c) => MultiLocation::X3(a.copy(), b.copy(), c.copy()),
            MultiLocation::X4(a, b, c, d) => MultiLocation::X4(a.copy(), b.copy(), c.copy(), d.copy()),
            MultiLocation::X5(a, b, c, d, e) => MultiLocation::X5(a.copy(), b.copy(), c.copy(), d.copy(), e.copy()),
            MultiLocation::X6(a, b, c, d, e, f) => MultiLocation::X6(a.copy(), b.copy(), c.copy(), d.copy(), e.copy(), f.copy()),
            MultiLocation::X7(a, b, c, d, e, f, g) => MultiLocation::X7(
                a.copy(),
                b.copy(),
                c.copy(),
                d.copy(),
                e.copy(),
                f.copy(),
                g.copy(),
            ),
            MultiLocation::X8(a, b, c, d, e, f, g, h) => MultiLocation::X8(
                a.copy(),
                b.copy(),
                c.copy(),
                d.copy(),
                e.copy(),
                f.copy(),
                g.copy(),
                h.copy(),
            ),
        }
    }
}

impl MultiAsset {
    /// A copy of the asset.
    pub fn copy(&self) -> (r: MultiAsset)
        ensures
            r@ == self@,
    {
        match self {
            MultiAsset::All => MultiAsset::All,
            MultiAsset::AllFungible => MultiAsset::AllFungible,
            MultiAsset::AllNonFungible => MultiAsset::AllNonFungible,
            MultiAsset::AllAbstractFungible { id } => MultiAsset::AllAbstractFungible { id: copy_bytes(id) },
            MultiAsset::AllConcreteFungible { id } => MultiAsset::AllConcreteFungible { id: id.copy() },
            MultiAsset::AbstractFungible { id, amount } => MultiAsset::AbstractFungible { id: copy_bytes(id), amount: *amount },
            MultiAsset::ConcreteFungible { id, amount } => MultiAsset::ConcreteFungible { id: id.copy(), amount: *amount },
        }
    }
}

} // verus!
