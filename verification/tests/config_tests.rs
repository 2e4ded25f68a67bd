use currency_exchange::connector::{
    create_connector, get_connector, list_connector_identifiers, ConnectorError,
    ConnectorInstance, Connectors,
};

#[test]
fn default_connector() {
    let connector = get_connector(None);
    assert_eq!(connector, Connectors::Mock);
}

#[test]
fn configured_connector_is_used() {
    assert_eq!(Connectors::Mock, get_connector(Some("Mock")));
    assert_eq!(Connectors::Currencybeacon, get_connector(Some("Currencybeacon")));
}

#[test]
fn unparseable_connector_falls_back_to_mock() {
    assert_eq!(Connectors::Mock, get_connector(Some("nonsense")));
    assert_eq!(Connectors::Mock, get_connector(Some("")));
}

#[test]
fn parse_is_case_sensitive() {
    assert_eq!(None, Connectors::parse("mock"));
    assert_eq!(Some(Connectors::Mock), Connectors::parse("Mock"));
}

#[test]
fn connector_names() {
    assert_eq!("Mock", Connectors::Mock.name());
    assert_eq!("Currencybeacon", Connectors::Currencybeacon.name());
    assert_eq!("mock", Connectors::Mock.lower_name());
    assert_eq!("currencybeacon", Connectors::Currencybeacon.lower_name());
}

#[test]
fn api_key_requirements_per_connector() {
    assert!(!Connectors::Mock.requires_api_key());
    assert!(Connectors::Currencybeacon.requires_api_key());
    assert_eq!("", Connectors::Mock.api_key_env());
    assert_eq!("EAPP_CURRENCYBEACON", Connectors::Currencybeacon.api_key_env());
}

#[test]
fn all_connectors_listed() {
    assert_eq!(vec![Connectors::Mock, Connectors::Currencybeacon], Connectors::all());
}

#[test]
fn listing_marks_the_selected_connector() {
    let lines = list_connector_identifiers(Connectors::Mock);
    assert_eq!(vec!["> mock".to_string(), "  currencybeacon".to_string()], lines);
    let lines = list_connector_identifiers(Connectors::Currencybeacon);
    assert_eq!(vec!["  mock".to_string(), "> currencybeacon".to_string()], lines);
}

#[test]
fn create_mock_connector_needs_no_key() {
    match create_connector(Connectors::Mock, None) {
        Ok(ConnectorInstance::Mock(_)) => {}
        _ => panic!("expected the mock connector"),
    }
}

#[test]
fn create_live_connector_without_key_fails() {
    match create_connector(Connectors::Currencybeacon, None) {
        Err(ConnectorError::ApiKeyRequirements) => {}
        _ => panic!("expected ApiKeyRequirements"),
    }
}

#[test]
fn create_live_connector_with_key_succeeds() {
    match create_connector(Connectors::Currencybeacon, Some("SECRET-REDACTED".to_string())) {
        Ok(ConnectorInstance::Currencybeacon(c)) => {
            assert_eq!("SECRET-REDACTED", c.api_key);
        }
        _ => panic!("expected the live connector"),
    }
}
