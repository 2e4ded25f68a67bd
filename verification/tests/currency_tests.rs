use currency_exchange::currency::Currency;

#[test]
fn currency_without_name() {
    let currency = Currency::new("PLN", None);
    assert_eq!("PLN", currency.display())
}

#[test]
fn currency_with_name() {
    let currency = Currency::new("PLN", Some("Zloty".to_string()));
    assert_eq!("PLN (Zloty)", currency.display())
}

#[test]
fn currency_equality_is_by_code_alone() {
    let with_name = Currency::new("PLN", Some("Zloty".to_string()));
    let without_name = Currency::new("PLN", None);
    let other = Currency::new("USD", Some("Zloty".to_string()));
    assert_eq!(with_name, without_name);
    assert_ne!(with_name, other);
}

#[test]
fn currency_get_short_code() {
    let currency = Currency::new("GBP", Some("Pound Sterling".to_string()));
    assert_eq!("GBP", currency.get_short_code());
}
