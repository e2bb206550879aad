use crate::decimal::Decimal;
use vstd::prelude::*;

verus! {

/// Which upstream feed prices a collateral asset.
#[derive(Clone, Copy, Debug, PartialEq, Eq, Structural)]
pub enum SourceType {
    /// The reference oracle, asked for the rate of the asset against the base denomination.
    MirrorOracle {},
}

pub open spec fn source_label(s: SourceType) -> Seq<char> {
    match s {
        SourceType::MirrorOracle {  } => "mirror_oracle"@,
    }
}

impl SourceType {
    /// The label under which the source is reported.
    pub fn label(&self) -> (r: String)
        ensures
            r@ == source_label(*self),
    {
        match self {
            SourceType::MirrorOracle {  } => "mirror_oracle".to_owned(),
        }
    }
}

/// The oracle's configuration.
#[derive(Clone, Debug, PartialEq)]
pub struct Config {
    pub owner: String,
    pub mint_contract: String,
    pub base_denom: String,
    pub mirror_oracle: String,
}

/// What a `Config` holds, as character sequences.
pub struct ConfigView {
    pub owner: Seq<char>,
    pub mint_contract: Seq<char>,
    pub base_denom: Seq<char>,
    pub mirror_oracle: Seq<char>,
}

impl View for Config {
    type V = ConfigView;

    open spec fn view(&self) -> ConfigView {
        ConfigView {
            owner: self.owner@,
            mint_contract: self.mint_contract@,
            base_denom: self.base_denom@,
            mirror_oracle: self.mirror_oracle@,
        }
    }
}

pub open spec fn or_keep(new: Option<String>, old: Seq<char>) -> Seq<char> {
    match new {
        Some(v) => v@,
        None => old,
    }
}

/// The configuration after a partial update: each given field replaces the
/// old one, the others stay.
pub open spec fn updated_config(
    c: ConfigView,
    owner: Option<String>,
    mint_contract: Option<String>,
    base_denom: Option<String>,
    mirror_oracle: Option<String>,
) -> ConfigView {
    ConfigView {
        owner: or_keep(owner, c.owner),
        mint_contract: or_keep(mint_contract, c.mint_contract),
        base_denom: or_keep(base_denom, c.base_denom),
        mirror_oracle: or_keep(mirror_oracle, c.mirror_oracle),
    }
}

impl Config {
    pub fn new(msg: InstantiateMsg) -> (r: Config)
        ensures
            r.owner@ == msg.owner@,
            r.mint_contract@ == msg.mint_contract@,
            r.base_denom@ == msg.base_denom@,
            r.mirror_oracle@ == msg.mirror_oracle@,
    {
        Config {
            owner: msg.owner,
            mint_contract: msg.mint_contract,
            base_denom: msg.base_denom,
            mirror_oracle: msg.mirror_oracle,
        }
    }

    /// Replaces the fields that are given and keeps the others.
    pub fn update(
        &mut self,
        owner: Option<String>,
        mint_contract: Option<String>,
        base_denom: Option<String>,
        mirror_oracle: Option<String>,
    )
        ensures
            final(self)@ == updated_config(
                old(self)@,
                owner,
                mint_contract,
                base_denom,
                mirror_oracle,
            ),
    {
        if let Some(v) = owner {
            self.owner = v;
        }
        if let Some(v) = mint_contract {
            self.mint_contract = v;
        }
        if let Some(v) = base_denom {
            self.base_denom = v;
        }
        if let Some(v) = mirror_oracle {
            self.mirror_oracle = v;
        }
    }

    pub fn to_response(&self) -> (r: ConfigResponse)
        ensures
            r.owner@ == self.owner@,
            r.mint_contract@ == self.mint_contract@,
            r.base_denom@ == self.base_denom@,
            r.mirror_oracle@ == self.mirror_oracle@,
    {
        ConfigResponse {
            owner: self.owner.clone(),
            mint_contract: self.mint_contract.clone(),
            base_denom: self.base_denom.clone(),
            mirror_oracle: self.mirror_oracle.clone(),
        }
    }
}

/// Updating the base denomination alone leaves the owner, the mint contract
/// and the reference oracle as they were.
pub proof fn lemma_update_base_denom_only(c: ConfigView, base_denom: String)
    ensures
        updated_config(c, None, None, Some(base_denom), None).owner == c.owner,
        updated_config(c, None, None, Some(base_denom), None).mint_contract == c.mint_contract,
        updated_config(c, None, None, Some(base_denom), None).mirror_oracle == c.mirror_oracle,
        updated_config(c, None, None, Some(base_denom), None).base_denom == base_denom@,
{
}

#[derive(Clone, Debug, PartialEq)]
pub struct InstantiateMsg {
    pub owner: String,
    pub mint_contract: String,
    pub base_denom: String,
    pub mirror_oracle: String,
}

/// The mutating operations; each one is reserved to the owner.
#[derive(Clone, Debug, PartialEq)]
pub enum ExecuteMsg {
    UpdateConfig {
        owner: Option<String>,
        mint_contract: Option<String>,
        base_denom: Option<String>,
        mirror_oracle: Option<String>,
    },
    RegisterCollateralAsset { asset: String, price_source: SourceType, multiplier: Decimal },
    RevokeCollateralAsset { asset: String },
    UpdateCollateralPriceSource { asset: String, price_source: SourceType },
    UpdateCollateralMultiplier { asset: String, multiplier: Decimal },
}

#[derive(Clone, Debug, PartialEq)]
pub enum QueryMsg {
    Config {},
    CollateralPrice { asset: String, block_height: Option<u64> },
    CollateralAssetInfo { asset: String },
    CollateralAssetInfos {},
}

#[derive(Clone, Debug, PartialEq)]
pub struct ConfigResponse {
    pub owner: String,
    pub mint_contract: String,
    pub base_denom: String,
    pub mirror_oracle: String,
}

#[derive(Clone, Debug, PartialEq)]
pub struct CollateralPriceResponse {
    pub asset: String,
    pub rate: Decimal,
    pub last_updated: u64,
    pub multiplier: Decimal,
    pub is_revoked: bool,
}

#[derive(Clone, Debug, PartialEq)]
pub struct CollateralInfoResponse {
    pub asset: String,
    pub multiplier: Decimal,
    pub source_type: String,
    pub is_revoked: bool,
}

#[derive(Clone, Debug, PartialEq)]
pub struct CollateralInfosResponse {
    pub collaterals: Vec<CollateralInfoResponse>,
}

/// Migrations take no arguments.
#[derive(Clone, Debug, PartialEq)]
pub struct MigrateMsg {}

} // verus!
