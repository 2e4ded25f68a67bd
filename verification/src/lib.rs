//! A currency-conversion library: a uniform connector abstraction over
//! exchange-rate backends, a static in-memory mock connector, the pure parts
//! of an HTTP-backed live connector (URL construction, response
//! classification, payload decoding), request validation, and response
//! shaping.

pub mod rational;
pub mod strings;
pub mod connector;
pub mod currency;
pub mod currencybeacon_connector;
pub mod mock_connector;
pub mod decimal;
pub mod handlers;
pub mod output;

pub use rational::Rational;
