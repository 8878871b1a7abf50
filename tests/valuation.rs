use quic_transport::scheduling::{renewal_time, schedule_at};
use quic_transport::valuation::{
    Account, Dec, IcpsPerSnsTokenClient, Token, ValuationError, ValuationErrorSpecies,
    ValuationFactors, try_get_balance_valuation_factors, try_get_icp_balance_valuation,
    try_get_sns_token_balance_valuation, tokens_from_e8s, xdrs_per_icp_from_permyriad,
};

fn value(d: Dec) -> f64 {
    d.mantissa as f64 / 10f64.powi(d.scale as i32)
}

fn account() -> Account {
    Account { owner: vec![1, 2, 3], subaccount: None }
}

#[test]
fn tokens_from_e8s_divides_by_one_hundred_million() {
    let d = tokens_from_e8s(150_000_000).unwrap();
    assert_eq!(value(d), 1.5);
    assert_eq!(value(tokens_from_e8s(0).unwrap()), 0.0);
}

#[test]
fn permyriad_rate_is_scaled_down() {
    let d = xdrs_per_icp_from_permyriad(35_000).unwrap();
    assert_eq!(value(d), 3.5);
}

#[test]
fn to_xdr_multiplies_the_three_factors() {
    let f = ValuationFactors {
        tokens: Dec { mantissa: 15, scale: 1 },
        icps_per_token: Dec { mantissa: 2, scale: 0 },
        xdrs_per_icp: Dec { mantissa: 35, scale: 1 },
    };
    assert_eq!(value(f.to_xdr().unwrap()), 10.5);
}

#[test]
fn to_xdr_overflow_is_none() {
    let big = Dec { mantissa: 0xFFFF_FFFF_FFFF_FFFF_FFFF_FFFF, scale: 0 };
    let f = ValuationFactors { tokens: big, icps_per_token: big, xdrs_per_icp: big };
    assert_eq!(f.to_xdr(), None);
}

#[test]
fn balance_error_comes_first() {
    let r = try_get_balance_valuation_factors(
        Err("ledger down".to_string()),
        Err(ValuationError::new_mismatch("x".to_string())),
        Ok(Dec { mantissa: 1, scale: 0 }),
    );
    let e = r.unwrap_err();
    assert_eq!(e.species, ValuationErrorSpecies::External);
    assert_eq!(e.message, "Unable to obtain balance from ledger: ledger down");
}

#[test]
fn rate_errors_are_external() {
    let e = try_get_balance_valuation_factors(
        Ok(1),
        Err(ValuationError::new_arithmetic("zero".to_string())),
        Ok(Dec { mantissa: 1, scale: 0 }),
    )
    .unwrap_err();
    assert_eq!(e.species, ValuationErrorSpecies::External);
    assert_eq!(e.message, "Unable to determine ICPs per token: zero");
    let e = try_get_balance_valuation_factors(Ok(1), Ok(Dec { mantissa: 1, scale: 0 }), Err(ValuationError::new_external("cmc".to_string())))
        .unwrap_err();
    assert_eq!(e.message, "Unable to obtain XDR per ICP: cmc");
}

#[test]
fn icp_valuation_uses_one_icp_per_token() {
    let v = try_get_icp_balance_valuation(account(), 42, Ok(200_000_000), Ok(Dec { mantissa: 4, scale: 0 })).unwrap();
    assert_eq!(v.token, Token::Icp);
    assert_eq!(v.timestamp_nanos, 42);
    assert_eq!(v.account, account());
    assert_eq!(value(v.valuation_factors.tokens), 2.0);
    assert_eq!(value(v.valuation_factors.icps_per_token), 1.0);
    assert_eq!(value(v.to_xdr().unwrap()), 8.0);
}

#[test]
fn sns_valuation_from_swap_price() {
    let client = IcpsPerSnsTokenClient::new(vec![9]);
    let price = client.fetch_icps_per_sns_token(Some(500), Some(Some(1_000))).unwrap();
    assert_eq!(value(price), 0.5);
    let v = try_get_sns_token_balance_valuation(account(), 1, Ok(400_000_000), Ok(price), Ok(Dec { mantissa: 3, scale: 0 })).unwrap();
    assert_eq!(v.token, Token::SnsToken);
    assert_eq!(value(v.to_xdr().unwrap()), 6.0);
}

#[test]
fn swap_reply_errors() {
    let client = IcpsPerSnsTokenClient::new(vec![9]);
    let species = |r: Result<Dec, ValuationError>| r.unwrap_err().species;
    assert_eq!(species(client.fetch_icps_per_sns_token(None, Some(Some(1)))), ValuationErrorSpecies::Mismatch);
    assert_eq!(species(client.fetch_icps_per_sns_token(Some(1), None)), ValuationErrorSpecies::Mismatch);
    assert_eq!(species(client.fetch_icps_per_sns_token(Some(1), Some(None))), ValuationErrorSpecies::Mismatch);
    assert_eq!(species(client.fetch_icps_per_sns_token(Some(1), Some(Some(0)))), ValuationErrorSpecies::Arithmetic);
}

#[test]
fn renewal_is_sixty_days_later() {
    assert_eq!(renewal_time(0), 5_184_000_000_000_000);
    assert_eq!(schedule_at(10, 5), 15);
    assert_eq!(schedule_at(u64::MAX as u128, 2), 1);
}
