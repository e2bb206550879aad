use comdex_collateral_oracle::contract::OracleState;
use comdex_collateral_oracle::decimal::{Decimal, OracleError};
use comdex_collateral_oracle::msg::{Config, ExecuteMsg, InstantiateMsg, SourceType};
use comdex_collateral_oracle::querier::{
    collateral_info, collateral_infos, collateral_price, collateral_price_request, price_request,
    SourceQueryMsg, TerraOracleResponse,
};
use comdex_collateral_oracle::registry::{key_lt, Registry};

fn dec(atomics: u128) -> Decimal {
    Decimal { atomics }
}

fn s(text: &str) -> String {
    text.to_string()
}

fn config() -> Config {
    Config::new(InstantiateMsg {
        owner: s("owner"),
        mint_contract: s("mint"),
        base_denom: s("uusd"),
        mirror_oracle: s("oracle"),
    })
}

fn quote(rate: u128, at: u64) -> Result<TerraOracleResponse, OracleError> {
    Ok(TerraOracleResponse { rate: dec(rate), last_updated_base: at })
}

#[test]
fn register_twice_is_refused() {
    let mut reg = Registry::new();
    let mirror = SourceType::MirrorOracle {};
    assert_eq!(reg.register(s("uluna"), mirror, dec(7)), Ok(()));
    assert_eq!(reg.register(s("uluna"), mirror, dec(9)), Err(OracleError::DuplicateAsset));
    let info = reg.get(&s("uluna")).unwrap();
    assert_eq!(info.multiplier, dec(7));
    assert!(!info.is_revoked);
    assert_eq!(reg.assets.len(), 1);
}

#[test]
fn revoke_unregistered_is_not_found() {
    let mut reg = Registry::new();
    assert_eq!(reg.revoke(&s("uluna")), Err(OracleError::NotFound));
    assert_eq!(reg.update_source(&s("uluna"), SourceType::MirrorOracle {}), Err(OracleError::NotFound));
    assert_eq!(reg.update_multiplier(&s("uluna"), dec(1)), Err(OracleError::NotFound));
    assert_eq!(reg.get(&s("uluna")), Err(OracleError::NotFound));
    assert_eq!(collateral_info(&reg, &s("uluna")), Err(OracleError::NotFound));
}

#[test]
fn revoked_stays_revoked() {
    let mut reg = Registry::new();
    reg.register(s("uluna"), SourceType::MirrorOracle {}, dec(5)).unwrap();
    reg.revoke(&s("uluna")).unwrap();
    assert!(reg.get(&s("uluna")).unwrap().is_revoked);
    reg.update_multiplier(&s("uluna"), dec(8)).unwrap();
    reg.update_source(&s("uluna"), SourceType::MirrorOracle {}).unwrap();
    let info = reg.get(&s("uluna")).unwrap();
    assert!(info.is_revoked);
    assert_eq!(info.multiplier, dec(8));
    assert_eq!(reg.register(s("uluna"), SourceType::MirrorOracle {}, dec(1)), Err(OracleError::DuplicateAsset));
    let list = collateral_infos(&reg);
    assert_eq!(list.collaterals.len(), 1);
    assert!(list.collaterals[0].is_revoked);
}

#[test]
fn price_of_revoked_asset_is_still_reported() {
    let mut reg = Registry::new();
    reg.register(s("uluna"), SourceType::MirrorOracle {}, dec(3)).unwrap();
    reg.revoke(&s("uluna")).unwrap();
    let price = collateral_price(&reg, &s("uluna"), Some(100), quote(4200, 77)).unwrap();
    assert_eq!(price.asset, "uluna");
    assert_eq!(price.rate, dec(4200));
    assert_eq!(price.last_updated, 77);
    assert_eq!(price.multiplier, dec(3));
    assert!(price.is_revoked);
}

#[test]
fn price_errors() {
    let mut reg = Registry::new();
    assert_eq!(collateral_price(&reg, &s("uluna"), None, quote(1, 1)), Err(OracleError::NotFound));
    reg.register(s("uluna"), SourceType::MirrorOracle {}, dec(3)).unwrap();
    assert_eq!(
        collateral_price(&reg, &s("uluna"), None, Err(OracleError::InvalidArgument)),
        Err(OracleError::UpstreamQueryFailed)
    );
}

#[test]
fn config_partial_update() {
    let mut c = config();
    c.update(None, None, Some(s("uluna")), None);
    assert_eq!(c.owner, "owner");
    assert_eq!(c.mint_contract, "mint");
    assert_eq!(c.mirror_oracle, "oracle");
    assert_eq!(c.base_denom, "uluna");
    let r = c.to_response();
    assert_eq!(r.base_denom, "uluna");
    assert_eq!(r.owner, "owner");
}

#[test]
fn listing_order_does_not_depend_on_registration_order() {
    let names = ["uusd", "terra1abc", "uluna", "ukrw", "mAAPL"];
    let mut a = Registry::new();
    for n in names.iter() {
        a.register(s(n), SourceType::MirrorOracle {}, dec(1)).unwrap();
    }
    let mut b = Registry::new();
    for n in names.iter().rev() {
        b.register(s(n), SourceType::MirrorOracle {}, dec(1)).unwrap();
    }
    let la: Vec<String> = collateral_infos(&a).collaterals.into_iter().map(|c| c.asset).collect();
    let lb: Vec<String> = collateral_infos(&b).collaterals.into_iter().map(|c| c.asset).collect();
    assert_eq!(la, lb);
    assert_eq!(la, vec!["mAAPL", "terra1abc", "ukrw", "uluna", "uusd"]);
}

#[test]
fn key_order_is_lexical() {
    assert!(key_lt(&s("a"), &s("b")));
    assert!(key_lt(&s("ab"), &s("abc")));
    assert!(!key_lt(&s("abc"), &s("ab")));
    assert!(!key_lt(&s("abc"), &s("abc")));
    assert!(key_lt(&s(""), &s("a")));
    assert!(key_lt(&s("B"), &s("a")));
}

#[test]
fn info_reports_source_label() {
    let mut reg = Registry::new();
    reg.register(s("uluna"), SourceType::MirrorOracle {}, dec(2)).unwrap();
    let info = collateral_info(&reg, &s("uluna")).unwrap();
    assert_eq!(info.source_type, "mirror_oracle");
    assert_eq!(info.multiplier, dec(2));
    assert_eq!(SourceType::MirrorOracle {}.label(), "mirror_oracle");
}

#[test]
fn price_request_asks_reference_oracle() {
    let c = config();
    let r = price_request(&c, &s("uluna"), &SourceType::MirrorOracle {});
    assert_eq!(r.contract_addr, "oracle");
    assert_eq!(r.msg, SourceQueryMsg::Price { base_asset: s("uluna"), quote_asset: s("uusd") });
    let reg = Registry::new();
    assert_eq!(collateral_price_request(&reg, &c, &s("uluna")), Err(OracleError::NotFound));
}

#[test]
fn execute_dispatches() {
    let mut st = OracleState::instantiate(InstantiateMsg {
        owner: s("owner"),
        mint_contract: s("mint"),
        base_denom: s("uusd"),
        mirror_oracle: s("oracle"),
    });
    let reg = ExecuteMsg::RegisterCollateralAsset {
        asset: s("uluna"),
        price_source: SourceType::MirrorOracle {},
        multiplier: dec(10),
    };
    assert_eq!(st.execute(reg.clone()), Ok(()));
    assert_eq!(st.execute(reg), Err(OracleError::DuplicateAsset));
    assert_eq!(
        st.execute(ExecuteMsg::UpdateCollateralMultiplier { asset: s("uluna"), multiplier: dec(20) }),
        Ok(())
    );
    assert_eq!(st.execute(ExecuteMsg::RevokeCollateralAsset { asset: s("ukrw") }), Err(OracleError::NotFound));
    assert_eq!(st.execute(ExecuteMsg::RevokeCollateralAsset { asset: s("uluna") }), Ok(()));
    assert_eq!(
        st.execute(ExecuteMsg::UpdateConfig {
            owner: Some(s("new_owner")),
            mint_contract: None,
            base_denom: None,
            mirror_oracle: None,
        }),
        Ok(())
    );
    assert_eq!(st.config.owner, "new_owner");
    assert_eq!(st.config.base_denom, "uusd");
    let info = st.registry.get(&s("uluna")).unwrap();
    assert_eq!(info.multiplier, dec(20));
    assert!(info.is_revoked);
    let req = collateral_price_request(&st.registry, &st.config, &s("uluna")).unwrap();
    assert_eq!(req.contract_addr, "oracle");
}
