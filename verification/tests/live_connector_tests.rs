use currency_exchange::connector::ConnectorError;
use currency_exchange::currencybeacon_connector::{
    currencies_from_body, exchange_fits, exchange_from_outputs, latest_from_body, response_body,
    ApiError, CurrencybeaconConnector, HttpReply,
};
use currency_exchange::currency::Currency;
use currency_exchange::output::LatestOutput;
use currency_exchange::rational::Rational;

fn connector() -> CurrencybeaconConnector {
    CurrencybeaconConnector::new(Some("SECRET-REDACTED".to_string())).unwrap()
}

#[test]
fn currencies_url_embeds_the_key() {
    assert_eq!(
        "https://api.currencybeacon.com/v1/currencies?api_key=SECRET-REDACTED",
        connector().currencies_url()
    );
}

#[test]
fn latest_url_without_targets() {
    assert_eq!(
        "https://api.currencybeacon.com/v1/latest?api_key=SECRET-REDACTED&base=USD",
        connector().latest_url("USD", &None)
    );
}

#[test]
fn latest_url_joins_targets_with_commas() {
    assert_eq!(
        "https://api.currencybeacon.com/v1/latest?api_key=SECRET-REDACTED&base=USD&symbols=PLN,GBP",
        connector().latest_url("USD", &Some(vec!["PLN".to_string(), "GBP".to_string()]))
    );
}

#[test]
fn send_failure_classifies_as_sending_error() {
    assert!(matches!(
        response_body(HttpReply::SendFailed),
        Err(ConnectorError::SendingError)
    ));
}

#[test]
fn status_classification() {
    assert!(matches!(
        response_body(HttpReply::Response(401, None)),
        Err(ConnectorError::ApiError(ApiError::AuthorizationError))
    ));
    assert!(matches!(
        response_body(HttpReply::Response(500, None)),
        Err(ConnectorError::ApiError(ApiError::ServerError))
    ));
    assert!(matches!(
        response_body(HttpReply::Response(429, None)),
        Err(ConnectorError::ApiError(ApiError::TooManyRequests))
    ));
    assert!(matches!(
        response_body(HttpReply::Response(418, Some("teapot".to_string()))),
        Err(ConnectorError::ApiError(ApiError::SomethingElse(418)))
    ));
}

#[test]
fn successful_response_hands_back_the_body() {
    match response_body(HttpReply::Response(200, Some("payload".to_string()))) {
        Ok(body) => assert_eq!("payload", body),
        _ => panic!("expected the body"),
    }
}

#[test]
fn unreadable_successful_response_is_a_parse_error() {
    assert!(matches!(
        response_body(HttpReply::Response(200, None)),
        Err(ConnectorError::ParseError)
    ));
}

#[test]
fn latest_body_decodes_and_sorts_rates() {
    let body = r#"{"meta":{},"rates":{"PLN":4,"GBP":"0.8"}}"#;
    let out = latest_from_body(body).unwrap();
    assert_eq!(2, out.len());
    assert_eq!("GBP", out[0].currency.get_short_code());
    assert_eq!(Rational::new(8, 10), *out[0].get_rate());
    assert_eq!("PLN", out[1].currency.get_short_code());
    assert_eq!(Rational::from_int(4), *out[1].get_rate());
}

#[test]
fn latest_body_without_rates_is_empty() {
    let out = latest_from_body(r#"{"response":[]}"#).unwrap();
    assert!(out.is_empty());
}

#[test]
fn malformed_body_is_a_json_parsing_error() {
    assert!(matches!(
        latest_from_body("not json at all"),
        Err(ConnectorError::JsonParsingError)
    ));
    assert!(matches!(
        currencies_from_body("{"),
        Err(ConnectorError::JsonParsingError)
    ));
}

#[test]
fn non_numeric_rate_is_a_parse_error() {
    let body = r#"{"rates":{"PLN":"four"}}"#;
    assert!(matches!(
        latest_from_body(body),
        Err(ConnectorError::ParseError)
    ));
}

#[test]
fn currencies_body_decodes_and_sorts() {
    let body = r#"{"response":[{"short_code":"USD","name":"US Dollar"},{"short_code":"GBP","name":"Pound Sterling"}]}"#;
    let out = currencies_from_body(body).unwrap();
    assert_eq!(2, out.len());
    assert_eq!("GBP", out[0].get_short_code());
    assert_eq!("GBP (Pound Sterling)", out[0].display());
    assert_eq!("USD", out[1].get_short_code());
    assert_eq!("USD (US Dollar)", out[1].display());
}

#[test]
fn exchange_from_empty_listing_is_an_api_error() {
    let outputs: Vec<LatestOutput> = vec![];
    assert!(matches!(
        exchange_from_outputs(&outputs, &Rational::from_int(10)),
        Err(ConnectorError::ApiError(ApiError::SomethingElse(200)))
    ));
}

#[test]
fn exchange_uses_the_first_listed_rate() {
    let outputs = vec![LatestOutput::new(
        Currency::new("PLN", None),
        Rational::from_int(4),
    )];
    let amount = Rational::from_int(10);
    assert!(exchange_fits(&outputs, &amount));
    let out = exchange_from_outputs(&outputs, &amount).unwrap();
    assert_eq!(Rational::from_int(40), out.value);
    assert_eq!(Rational::from_int(4), out.exchange_rate);
}

#[test]
fn exchange_overflow_is_detected_before_exchanging() {
    let outputs = vec![LatestOutput::new(
        Currency::new("PLN", None),
        Rational::from_int(3),
    )];
    let amount = Rational::from_int(i64::MAX / 2);
    assert!(!exchange_fits(&outputs, &amount));
}

#[test]
fn missing_api_key_fails_construction() {
    assert!(matches!(
        CurrencybeaconConnector::new(None),
        Err(ConnectorError::ApiKeyRequirements)
    ));
}
