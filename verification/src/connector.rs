//! The connector abstraction: the capability contract every exchange-rate
//! backend implements, the error taxonomy, the enumerable set of backend
//! identifiers, and the factory that constructs a backend from its
//! identifier and configuration.

use vstd::prelude::*;

use crate::currency::Currency;
use crate::currencybeacon_connector::{ApiError, CurrencybeaconConnector};
use crate::mock_connector::MockConnector;
use crate::output::{currencies_sorted, outputs_sorted, ExchangeOutput, LatestOutput};
use crate::rational::Rational;
use crate::strings::{str_eq, concat3};

verus! {

/// The connector-level error taxonomy. Connectors never recover from these:
/// every error surfaces unchanged to the caller.
#[derive(Debug)]
pub enum ConnectorError {
    /// A request named a currency code the backend does not know; the
    /// message identifies the offending code.
    InvalidInput(String),
    /// A backend that needs an API key was constructed without one.
    ApiKeyRequirements,
    /// The backend's provider answered with a failure status.
    ApiError(ApiError),
    /// The request could not be sent at all.
    SendingError,
    /// The provider's response body was not valid JSON.
    JsonParsingError,
    /// The provider's response could not be read, or a numeric field in it
    /// could not be parsed.
    ParseError,
}

/// The enumerable set of known backend identifiers.
#[derive(Clone, Copy, Debug, PartialEq, Eq, Structural)]
pub enum Connectors {
    Mock,
    Currencybeacon,
}

impl Connectors {
    /// The name of the environment variable that holds this backend's API
    /// key; empty when the backend needs none.
    pub fn api_key_env(&self) -> (r: &'static str)
        ensures
            match self {
                Connectors::Mock => r@ == ""@,
                Connectors::Currencybeacon => r@ == "EAPP_CURRENCYBEACON"@,
            },
    {
        match self {
            Connectors::Mock => "",
            Connectors::Currencybeacon => "EAPP_CURRENCYBEACON",
        }
    }

    /// Whether this backend can only be constructed with an API key.
    pub fn requires_api_key(&self) -> (r: bool)
        ensures
            r == (self is Currencybeacon),
    {
        match self {
            Connectors::Mock => false,
            Connectors::Currencybeacon => true,
        }
    }

    /// The identifier's canonical name, as stored in configuration.
    pub fn name(&self) -> (r: &'static str)
        ensures
            match self {
                Connectors::Mock => r@ == "Mock"@,
                Connectors::Currencybeacon => r@ == "Currencybeacon"@,
            },
    {
        match self {
            Connectors::Mock => "Mock",
            Connectors::Currencybeacon => "Currencybeacon",
        }
    }

    /// The identifier's name in lower case, for display.
    pub fn lower_name(&self) -> (r: &'static str)
        ensures
            match self {
                Connectors::Mock => r@ == "mock"@,
                Connectors::Currencybeacon => r@ == "currencybeacon"@,
            },
    {
        match self {
            Connectors::Mock => "mock",
            Connectors::Currencybeacon => "currencybeacon",
        }
    }

    /// Every known identifier, in declaration order.
    pub fn all() -> (r: Vec<Connectors>)
        ensures
            r@ =~= seq![Connectors::Mock, Connectors::Currencybeacon],
    {
        let mut v: Vec<Connectors> = Vec::new();
        v.push(Connectors::Mock);
        v.push(Connectors::Currencybeacon);
        proof {
            assert(v@ =~= seq![Connectors::Mock, Connectors::Currencybeacon]);
        }
        v
    }

    /// Parses an identifier from its canonical name.
    pub fn parse(s: &str) -> (r: Option<Connectors>)
        ensures
            s@ == "Mock"@ ==> r == Some(Connectors::Mock),
            s@ == "Currencybeacon"@ ==> r == Some(Connectors::Currencybeacon),
            s@ != "Mock"@ && s@ != "Currencybeacon"@ ==> r is None,
    {
        proof {
            reveal_strlit("Mock");
            reveal_strlit("Currencybeacon");
            assert("Mock"@.len() == 4);
            assert("Currencybeacon"@.len() == 14);
        }
        if str_eq(s, "Mock") {
            Some(Connectors::Mock)
        } else if str_eq(s, "Currencybeacon") {
            Some(Connectors::Currencybeacon)
        } else {
            None
        }
    }
}

/// The identifier selected by the process-wide configuration value, when it
/// is set and parses; the mock backend otherwise.
pub fn get_connector(value: Option<&str>) -> (r: Connectors)
    ensures
        match value {
            Some(s) => {
                &&& s@ == "Mock"@ ==> r == Connectors::Mock
                &&& s@ == "Currencybeacon"@ ==> r == Connectors::Currencybeacon
                &&& s@ != "Mock"@ && s@ != "Currencybeacon"@ ==> r == Connectors::Mock
            },
            None => r == Connectors::Mock,
        },
{
    match value {
        Some(s) => match Connectors::parse(s) {
            Some(c) => c,
            None => Connectors::Mock,
        },
        None => Connectors::Mock,
    }
}

/// One line per known identifier, for display: the lower-case name, marked
/// with `> ` when it is the selected one and indented otherwise.
pub fn list_connector_identifiers(selected: Connectors) -> (r: Vec<String>)
    ensures
        r@.len() == 2,
        r@[0]@ == (if selected is Mock {
            "> "@ + "mock"@
        } else {
            "  "@ + "mock"@
        }),
        r@[1]@ == (if selected is Currencybeacon {
            "> "@ + "currencybeacon"@
        } else {
            "  "@ + "currencybeacon"@
        }),
{
    let all = Connectors::all();
    let mut lines: Vec<String> = Vec::new();
    let mut i: usize = 0;
    while i < all.len()
        invariant
            all@ =~= seq![Connectors::Mock, Connectors::Currencybeacon],
            i <= all@.len(),
            lines@.len() == i,
            forall|k: int|
                0 <= k < i ==> lines@[k]@ == (if all@[k] == selected {
                    "> "@
                } else {
                    "  "@
                }) + match all@[k] {
                    Connectors::Mock => "mock"@,
                    Connectors::Currencybeacon => "currencybeacon"@,
                },
        decreases all@.len() - i,
    {
        let c = all[i];
        let marker = if c == selected {
            "> "
        } else {
            "  "
        };
        let line = concat3(marker, c.lower_name(), "");
        proof {
            reveal_strlit("");
            assert(line@ =~= (if all@[i as int] == selected {
                "> "@
            } else {
                "  "@
            }) + match all@[i as int] {
                Connectors::Mock => "mock"@,
                Connectors::Currencybeacon => "currencybeacon"@,
            });
        }
        lines.push(line);
        i += 1;
    }
    lines
}

/// The capability contract of an exchange-rate backend: convert an amount,
/// list the known currencies, and fetch latest rates against a base.
pub trait Connector: Sized {
    /// The backend's own structural invariant.
    open spec fn wf(&self) -> bool {
        true
    }

    /// Converts `amount` of `source` into `target`, returning the converted
    /// value together with the rate that was applied.
    fn exchange(&self, source: &str, target: &str, amount: &Rational) -> (r: Result<
        ExchangeOutput,
        ConnectorError,
    >)
        requires
            self.wf(),
            amount.wf(),
            amount.in_range(),
        ensures
            r matches Ok(o) ==> o.value.wf() && o.exchange_rate.wf(),
    ;

    /// Every currency the backend knows, in ascending order of code.
    fn list_currencies(&self) -> (r: Result<Vec<Currency>, ConnectorError>)
        requires
            self.wf(),
        ensures
            r matches Ok(v) ==> currencies_sorted(v@),
    ;

    /// The rates of `base` against the requested targets (or against every
    /// known currency when no targets are given), in ascending order of
    /// currency code.
    fn latest(&self, base: &str, target: Option<Vec<String>>) -> (r: Result<
        Vec<LatestOutput>,
        ConnectorError,
    >)
        requires
            self.wf(),
        ensures
            r matches Ok(v) ==> outputs_sorted(v@),
    ;
}

/// A constructed backend: the tagged-variant form of the `Connector`
/// capability over the known identifiers.
pub enum ConnectorInstance {
    Mock(MockConnector),
    Currencybeacon(CurrencybeaconConnector),
}

/// Constructs the backend named by `identifier`. The mock backend is
/// constructed unconditionally; the live backend only when its API key is
/// present in the given configuration, and without any network activity.
pub fn create_connector(identifier: Connectors, api_key: Option<String>) -> (r: Result<
    ConnectorInstance,
    ConnectorError,
>)
    ensures
        identifier is Mock ==> (r matches Ok(ConnectorInstance::Mock(m)) && m.wf_spec()
            && m.seeded()),
        identifier is Currencybeacon && api_key is Some ==> (r matches Ok(
            ConnectorInstance::Currencybeacon(c),
        ) && c.api_key@ == api_key.unwrap()@),
        identifier is Currencybeacon && api_key is None ==> r matches Err(
            ConnectorError::ApiKeyRequirements,
        ),
{
    match identifier {
        Connectors::Mock => Ok(ConnectorInstance::Mock(MockConnector::new())),
        Connectors::Currencybeacon => match CurrencybeaconConnector::new(api_key) {
            Ok(c) => Ok(ConnectorInstance::Currencybeacon(c)),
            Err(e) => Err(e),
        },
    }
}

} // verus!
