use currency_exchange::handlers::{
    handle_exchange, handle_latest, handle_list_currencies, ExchangeArgs, LatestArgs,
};
use currency_exchange::mock_connector::MockConnector;
use currency_exchange::rational::Rational;

#[test]
fn handle_exchange_forwards() {
    let connector = MockConnector::new();
    let args = ExchangeArgs {
        source: "USD".to_string(),
        target: "PLN".to_string(),
        amount: Rational::from_int(10),
    };
    let out = handle_exchange(&args, &connector).unwrap();
    assert_eq!(Rational::from_int(40), out.value);
    assert_eq!(Rational::from_int(4), out.exchange_rate);
}

#[test]
fn handle_list_currencies_forwards() {
    let connector = MockConnector::new();
    let out = handle_list_currencies(&connector).unwrap();
    let codes: Vec<&str> = out.iter().map(|c| c.get_short_code()).collect();
    assert_eq!(vec!["GBP", "PLN", "USD"], codes);
}

#[test]
fn handle_latest_forwards() {
    let connector = MockConnector::new();
    let args = LatestArgs {
        base: "USD".to_string(),
        target: Some(vec!["PLN".to_string()]),
    };
    let out = handle_latest(&args, &connector).unwrap();
    assert_eq!(1, out.len());
    assert_eq!("PLN", out[0].currency.get_short_code());
    assert_eq!(Rational::from_int(4), *out[0].get_rate());
}
