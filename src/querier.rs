use crate::decimal::{Decimal, OracleError};
use crate::msg::{
    source_label, CollateralInfoResponse, CollateralInfosResponse, CollateralPriceResponse, Config,
    SourceType,
};
use crate::registry::{chars_lt, lemma_entries_listed, AssetView, Registry};
use vstd::prelude::*;

verus! {

#[verifier::external_type_specification]
#[verifier::external_body]
pub struct ExUint256(cosmwasm_bignumber::Uint256);

/// Requests understood by the upstream price sources.
#[derive(Clone, Debug, PartialEq)]
pub enum SourceQueryMsg {
    Price { base_asset: String, quote_asset: String },
    Pool {},
    GetReferenceData { base_symbol: String, quote_symbol: String },
    EpochState { block_heigth: Option<u64>, distributed_interest: Option<cosmwasm_bignumber::Uint256> },
}

/// The reference oracle's answer to a price request.
#[derive(Clone, Copy, Debug, PartialEq, Eq, Structural)]
pub struct TerraOracleResponse {
    pub rate: Decimal,
    pub last_updated_base: u64,
}

/// A request to an upstream source: the contract to ask and the message.
#[derive(Clone, Debug, PartialEq)]
pub struct SourceRequest {
    pub contract_addr: String,
    pub msg: SourceQueryMsg,
}

/// The request that prices `asset` from `price_source`: the reference oracle
/// is asked for the rate of the asset against the base denomination.
pub fn price_request(config: &Config, asset: &String, price_source: &SourceType) -> (r: SourceRequest)
    ensures
        r.contract_addr@ == config.mirror_oracle@,
        r.msg matches SourceQueryMsg::Price { base_asset, quote_asset } && base_asset@ == asset@ && quote_asset@ == config.base_denom@,
{
    match price_source {
        SourceType::MirrorOracle {  } => SourceRequest {
            contract_addr: config.mirror_oracle.clone(),
            msg: SourceQueryMsg::Price {
                base_asset: asset.clone(),
                quote_asset: config.base_denom.clone(),
            },
        },
    }
}

/// The rate and the time of its last update, as a source reports them.
pub fn price_from_response(price_source: &SourceType, res: TerraOracleResponse) -> (r: (Decimal, u64))
    ensures
        r == (res.rate, res.last_updated_base),
{
    match price_source {
        SourceType::MirrorOracle {  } => (res.rate, res.last_updated_base),
    }
}

/// The request that prices a registered asset from its own source.
pub fn collateral_price_request(registry: &Registry, config: &Config, asset: &String) -> (r: Result<SourceRequest, OracleError>)
    requires
        registry.wf(),
    ensures
        !registry.entries().contains_key(asset@) ==> r is Err && r->Err_0 == OracleError::NotFound,
        registry.entries().contains_key(asset@) ==> r is Ok && r->Ok_0.contract_addr@ == config.mirror_oracle@ && (r->Ok_0.msg matches SourceQueryMsg::Price { base_asset, quote_asset } && base_asset@ == asset@ && quote_asset@ == config.base_denom@),
{
    match registry.get(asset) {
        Err(e) => Err(e),
        Ok(info) => Ok(price_request(config, asset, &info.price_source)),
    }
}

/// The price of a registered asset from the source's answer `quote`. The
/// multiplier is reported, not applied; a revoked asset is still priced and
/// reported as revoked. `block_height` is accepted and not used.
pub fn collateral_price(
    registry: &Registry,
    asset: &String,
    block_height: Option<u64>,
    quote: Result<TerraOracleResponse, OracleError>,
) -> (r: Result<CollateralPriceResponse, OracleError>)
    requires
        registry.wf(),
    ensures
        !registry.entries().contains_key(asset@) ==> r is Err && r->Err_0 == OracleError::NotFound,
        registry.entries().contains_key(asset@) && quote is Err ==> r is Err && r->Err_0 == OracleError::UpstreamQueryFailed,
        registry.entries().contains_key(asset@) && quote is Ok ==> r is Ok && price_matches(r->Ok_0, registry.entries()[asset@], quote->Ok_0),
{
    let info = match registry.get(asset) {
        Err(e) => { return Err(e); },
        Ok(info) => info,
    };
    let res = match quote {
        Err(_) => { return Err(OracleError::UpstreamQueryFailed); },
        Ok(res) => res,
    };
    let (rate, last_updated) = price_from_response(&info.price_source, res);
    Ok(CollateralPriceResponse {
        asset: info.asset,
        rate,
        last_updated,
        multiplier: info.multiplier,
        is_revoked: info.is_revoked,
    })
}

pub open spec fn price_matches(r: CollateralPriceResponse, v: AssetView, res: TerraOracleResponse) -> bool {
    &&& r.asset@ == v.asset
    &&& r.rate == res.rate
    &&& r.last_updated == res.last_updated_base
    &&& r.multiplier == v.multiplier
    &&& r.is_revoked == v.is_revoked
}

pub open spec fn info_matches(r: CollateralInfoResponse, v: AssetView) -> bool {
    &&& r.asset@ == v.asset
    &&& r.multiplier == v.multiplier
    &&& r.source_type@ == source_label(v.price_source)
    &&& r.is_revoked == v.is_revoked
}

/// The description of a registered asset.
pub fn collateral_info(registry: &Registry, asset: &String) -> (r: Result<CollateralInfoResponse, OracleError>)
    requires
        registry.wf(),
    ensures
        !registry.entries().contains_key(asset@) ==> r is Err && r->Err_0 == OracleError::NotFound,
        registry.entries().contains_key(asset@) ==> r is Ok && info_matches(r->Ok_0, registry.entries()[asset@]),
{
    match registry.get(asset) {
        Err(e) => Err(e),
        Ok(info) => Ok(CollateralInfoResponse {
            asset: info.asset,
            multiplier: info.multiplier,
            source_type: info.price_source.label(),
            is_revoked: info.is_revoked,
        }),
    }
}

/// The descriptions of all registered assets, in lexical order of their keys.
pub fn collateral_infos(registry: &Registry) -> (r: CollateralInfosResponse)
    requires
        registry.wf(),
    ensures
        r.collaterals@.len() == registry@.len(),
        forall|i: int| 0 <= i < registry@.len() ==> info_matches(#[trigger] r.collaterals@[i], registry@[i]),
        forall|i: int, j: int| 0 <= i < j < r.collaterals@.len() ==> chars_lt(#[trigger] r.collaterals@[i].asset@, #[trigger] r.collaterals@[j].asset@),
        forall|i: int| 0 <= i < registry@.len() ==> registry.entries().contains_key(#[trigger] registry@[i].asset) && registry.entries()[registry@[i].asset] == registry@[i],
        forall|k: Seq<char>| #[trigger] registry.entries().contains_key(k) ==> exists|i: int| 0 <= i < registry@.len() && registry@[i].asset == k,
{
    proof {
        lemma_entries_listed(registry@);
    }
    let mut out: Vec<CollateralInfoResponse> = Vec::new();
    let mut i: usize = 0;
    while i < registry.assets.len()
        invariant
            i <= registry@.len(),
            registry@.len() == registry.assets@.len(),
            registry.wf(),
            out@.len() == i,
            forall|j: int| 0 <= j < i ==> info_matches(#[trigger] out@[j], registry@[j]),
        decreases registry.assets.len() - i,
    {
        let e = &registry.assets[i];
        out.push(CollateralInfoResponse {
            asset: e.asset.clone(),
            multiplier: e.multiplier,
            source_type: e.price_source.label(),
            is_revoked: e.is_revoked,
        });
        i = i + 1;
    }
    assert forall|i: int, j: int| 0 <= i < j < out@.len() implies chars_lt(#[trigger] out@[i].asset@, #[trigger] out@[j].asset@) by {
        assert(info_matches(out@[i], registry@[i]) && info_matches(out@[j], registry@[j]));
    }
    CollateralInfosResponse { collaterals: out }
}

} // verus!
