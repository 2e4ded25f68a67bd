use currency_exchange::connector::{Connector, ConnectorError};
use currency_exchange::currency::Currency;
use currency_exchange::mock_connector::MockConnector;
use currency_exchange::output::{ExchangeOutput, LatestOutput};
use currency_exchange::rational::Rational;

#[test]
fn latest_base_not_exist() {
    let connector = MockConnector::new();
    if let Err(e) = connector.latest("PLM", Some(vec!["PLN".to_string()])) {
        if let ConnectorError::InvalidInput(msg) = e {
            assert_eq!("Currency code PLM not exist", msg);
        }
    }
}

#[test]
fn exchange_source_not_exist() {
    let connector = MockConnector::new();
    if let Err(e) = connector.exchange("PLM", "PLN", &Rational::from_int(1)) {
        if let ConnectorError::InvalidInput(msg) = e {
            assert_eq!("Source currency code PLM not exist", msg);
        }
    }
}

#[test]
fn exchange_target_not_exist() {
    let connector = MockConnector::new();
    if let Err(e) = connector.exchange("PLN", "PLM", &Rational::from_int(1)) {
        if let ConnectorError::InvalidInput(msg) = e {
            assert_eq!("Target currency code PLM not exist", msg);
        }
    }
}

#[test]
fn exchange_same_currency() {
    let connector = MockConnector::new();
    assert_eq!(
        ExchangeOutput::new(&Rational::from_int(1), &Rational::from_int(1)),
        connector
            .exchange("PLN", "PLN", &Rational::from_int(1))
            .unwrap()
    );
}

#[test]
fn exchange() {
    let connector = MockConnector::new();
    assert_eq!(
        ExchangeOutput::new(&Rational::from_int(40), &Rational::from_int(4)),
        connector
            .exchange("USD", "PLN", &Rational::from_int(10))
            .unwrap()
    );
}

#[test]
fn latest() {
    let connector = MockConnector::new();
    let currency = Currency::new("PLN", Some("Zloty".to_string()));
    assert_eq!(
        vec![LatestOutput::new(currency, Rational::from_int(4))],
        connector
            .latest("USD", Some(vec!["PLN".to_string()]))
            .unwrap()
    );
}

#[test]
fn exchange_value_is_amount_times_rate() {
    // rate(GBP, PLN) = table[PLN] / table[GBP] = 4 / 0.8 = 5
    let connector = MockConnector::new();
    let out = connector
        .exchange("GBP", "PLN", &Rational::from_int(2))
        .unwrap();
    assert_eq!(Rational::from_int(5), out.exchange_rate);
    assert_eq!(Rational::from_int(10), out.value);
}

#[test]
fn exchange_identity_with_fractional_rate() {
    // rate(GBP, GBP) = 0.8 / 0.8 = 1, so the amount comes back unchanged
    let connector = MockConnector::new();
    let out = connector
        .exchange("GBP", "GBP", &Rational::from_int(7))
        .unwrap();
    assert_eq!(Rational::from_int(7), out.value);
    assert_eq!(Rational::from_int(1), out.exchange_rate);
}

#[test]
fn exchange_fractional_amount() {
    // 2.5 USD at rate 4 = 10 PLN, exactly
    let connector = MockConnector::new();
    let out = connector
        .exchange("USD", "PLN", &Rational::new(25, 10))
        .unwrap();
    assert_eq!(Rational::from_int(10), out.value);
}

#[test]
fn list_currencies_exact_and_repeatable() {
    let connector = MockConnector::new();
    let first = connector.list_currencies().unwrap();
    let second = connector.list_currencies().unwrap();
    assert_eq!(first, second);
    let codes: Vec<&str> = first.iter().map(|c| c.get_short_code()).collect();
    assert_eq!(vec!["GBP", "PLN", "USD"], codes);
    assert_eq!("GBP (Pound Sterling)", first[0].display());
    assert_eq!("PLN (Zloty)", first[1].display());
    assert_eq!("USD (US Dollar)", first[2].display());
}

#[test]
fn latest_without_targets_lists_every_currency_sorted() {
    let connector = MockConnector::new();
    let out = connector.latest("USD", None).unwrap();
    assert_eq!(3, out.len());
    assert_eq!("GBP", out[0].currency.get_short_code());
    assert_eq!("PLN", out[1].currency.get_short_code());
    assert_eq!("USD", out[2].currency.get_short_code());
    // rate(USD, GBP) = 0.8, rate(USD, PLN) = 4, rate(USD, USD) = 1
    assert_eq!(Rational::new(8, 10), *out[0].get_rate());
    assert_eq!(Rational::from_int(4), *out[1].get_rate());
    assert_eq!(Rational::from_int(1), *out[2].get_rate());
}

#[test]
fn latest_sorts_requested_targets() {
    let connector = MockConnector::new();
    let out = connector
        .latest("USD", Some(vec!["USD".to_string(), "GBP".to_string()]))
        .unwrap();
    assert_eq!(2, out.len());
    assert_eq!("GBP", out[0].currency.get_short_code());
    assert_eq!("USD", out[1].currency.get_short_code());
}

#[test]
fn latest_with_empty_targets_is_empty() {
    let connector = MockConnector::new();
    let out = connector.latest("USD", Some(vec![])).unwrap();
    assert!(out.is_empty());
}

#[test]
fn latest_keeps_duplicate_targets() {
    let connector = MockConnector::new();
    let out = connector
        .latest("USD", Some(vec!["PLN".to_string(), "PLN".to_string()]))
        .unwrap();
    assert_eq!(2, out.len());
    assert_eq!(out[0], out[1]);
    assert_eq!(Rational::from_int(4), *out[0].get_rate());
}

#[test]
fn latest_unknown_target_names_it() {
    let connector = MockConnector::new();
    match connector.latest("USD", Some(vec!["PLN".to_string(), "XXX".to_string()])) {
        Err(ConnectorError::InvalidInput(msg)) => {
            assert_eq!("Currency code XXX not exist", msg);
        }
        _ => panic!("expected InvalidInput"),
    }
}

#[test]
fn exchange_output_display() {
    let connector = MockConnector::new();
    let out = connector
        .exchange("USD", "PLN", &Rational::from_int(10))
        .unwrap();
    assert_eq!("40, exchange rate:4", out.display());
    let out = connector
        .exchange("PLN", "GBP", &Rational::from_int(5))
        .unwrap();
    assert_eq!("1, exchange rate:0.2", out.display());
}

#[test]
fn latest_output_display() {
    let connector = MockConnector::new();
    let out = connector
        .latest("USD", Some(vec!["PLN".to_string()]))
        .unwrap();
    assert_eq!("PLN (Zloty), exchange rate:4", out[0].display());
}
