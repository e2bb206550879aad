use crate::decimal::OracleError;
use crate::msg::{updated_config, Config, ExecuteMsg, InstantiateMsg};
use crate::registry::{amendment, registration, revoked, with_multiplier, with_source, AssetView, Registry};
use vstd::prelude::*;

verus! {

/// The whole state of the oracle: its configuration and its registry.
pub struct OracleState {
    pub config: Config,
    pub registry: Registry,
}

impl OracleState {
    pub open spec fn wf(&self) -> bool {
        self.registry.wf()
    }

    /// A fresh oracle with the given configuration and no asset.
    pub fn instantiate(msg: InstantiateMsg) -> (r: OracleState)
        ensures
            r.wf(),
            r.config.owner@ == msg.owner@,
            r.config.mint_contract@ == msg.mint_contract@,
            r.config.base_denom@ == msg.base_denom@,
            r.config.mirror_oracle@ == msg.mirror_oracle@,
            r.registry.entries() == Map::<Seq<char>, AssetView>::empty(),
    {
        OracleState { config: Config::new(msg), registry: Registry::new() }
    }

    /// Applies one mutating operation. The caller is taken to be the owner;
    /// a refused operation leaves the state as it was.
    pub fn execute(&mut self, msg: ExecuteMsg) -> (r: Result<(), OracleError>)
        requires
            old(self).wf(),
        ensures
            final(self).wf(),
            r is Err ==> final(self).config@ == old(self).config@ && final(self).registry@ == old(self).registry@,
            match msg {
                ExecuteMsg::UpdateConfig { owner, mint_contract, base_denom, mirror_oracle } => r is Ok
                    && final(self).config@ == updated_config(old(self).config@, owner, mint_contract, base_denom, mirror_oracle)
                    && final(self).registry@ == old(self).registry@,
                ExecuteMsg::RegisterCollateralAsset { asset, price_source, multiplier } =>
                    (r, final(self).registry.entries()) == registration(old(self).registry.entries(), asset@, price_source, multiplier)
                    && final(self).config@ == old(self).config@,
                ExecuteMsg::RevokeCollateralAsset { asset } =>
                    (r, final(self).registry.entries()) == amendment(old(self).registry.entries(), asset@, |e: AssetView| revoked(e))
                    && final(self).config@ == old(self).config@,
                ExecuteMsg::UpdateCollateralPriceSource { asset, price_source } =>
                    (r, final(self).registry.entries()) == amendment(old(self).registry.entries(), asset@, with_source(price_source))
                    && final(self).config@ == old(self).config@,
                ExecuteMsg::UpdateCollateralMultiplier { asset, multiplier } =>
                    (r, final(self).registry.entries()) == amendment(old(self).registry.entries(), asset@, with_multiplier(multiplier))
                    && final(self).config@ == old(self).config@,
            },
    {
        match msg {
            ExecuteMsg::UpdateConfig { owner, mint_contract, base_denom, mirror_oracle } => {
                self.config.update(owner, mint_contract, base_denom, mirror_oracle);
                Ok(())
            },
            ExecuteMsg::RegisterCollateralAsset { asset, price_source, multiplier } => {
                self.registry.register(asset, price_source, multiplier)
            },
            ExecuteMsg::RevokeCollateralAsset { asset } => self.registry.revoke(&asset),
            ExecuteMsg::UpdateCollateralPriceSource { asset, price_source } => {
                self.registry.update_source(&asset, price_source)
            },
            ExecuteMsg::UpdateCollateralMultiplier { asset, multiplier } => {
                self.registry.update_multiplier(&asset, multiplier)
            },
        }
    }
}

} // verus!
