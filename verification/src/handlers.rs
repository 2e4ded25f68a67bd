//! Request handlers: the thin layer that turns command-line arguments into
//! connector calls. No business logic lives here; each handler hands the
//! connector exactly the request's own arguments, and its result comes back
//! unchanged, as the `call_ensures` clauses state.

use vstd::prelude::*;

use crate::connector::{Connector, ConnectorError};
use crate::currency::Currency;
use crate::output::{currencies_sorted, outputs_sorted, ExchangeOutput, LatestOutput};
use crate::rational::Rational;

verus! {

/// The arguments of an exchange request: source and target currency codes
/// and the amount to convert.
#[derive(Debug)]
pub struct ExchangeArgs {
    pub source: String,
    pub target: String,
    pub amount: Rational,
}

/// The arguments of a latest-rates request: the base currency code and the
/// optional list of target codes.
#[derive(Debug)]
pub struct LatestArgs {
    pub base: String,
    pub target: Option<Vec<String>>,
}

/// Forwards an exchange request to the connector: the result is what one
/// call of the connector's `exchange` on the request's own source, target
/// and amount returned.
pub fn handle_exchange<C: Connector>(args: &ExchangeArgs, connector: &C) -> (r: Result<
    ExchangeOutput,
    ConnectorError,
>)
    requires
        connector.wf(),
        args.amount.wf(),
        args.amount.in_range(),
    ensures
        r matches Ok(o) ==> o.value.wf() && o.exchange_rate.wf(),
        exists|s: &str, t: &str|
            {
                &&& s@ == args.source@
                &&& t@ == args.target@
                &&& #[trigger] call_ensures(C::exchange, (connector, s, t, &args.amount), r)
            },
{
    let source = args.source.as_str();
    let target = args.target.as_str();
    connector.exchange(source, target, &args.amount)
}

/// Forwards a currency-listing request to the connector: the result is what
/// one call of the connector's `list_currencies` returned.
pub fn handle_list_currencies<C: Connector>(connector: &C) -> (r: Result<
    Vec<Currency>,
    ConnectorError,
>)
    requires
        connector.wf(),
    ensures
        r matches Ok(v) ==> currencies_sorted(v@),
        call_ensures(C::list_currencies, (connector,), r),
{
    connector.list_currencies()
}

/// Forwards a latest-rates request to the connector: the result is what one
/// call of the connector's `latest` on the request's own base and target
/// list returned.
pub fn handle_latest<C: Connector>(args: &LatestArgs, connector: &C) -> (r: Result<
    Vec<LatestOutput>,
    ConnectorError,
>)
    requires
        connector.wf(),
    ensures
        r matches Ok(v) ==> outputs_sorted(v@),
        exists|b: &str, t: Option<Vec<String>>|
            {
                &&& b@ == args.base@
                &&& t.deep_view() == args.target.deep_view()
                &&& #[trigger] call_ensures(C::latest, (connector, b, t), r)
            },
{
    let base = args.base.as_str();
    let target: Option<Vec<String>> = match &args.target {
        Some(ts) => Some(clone_codes(ts)),
        None => None,
    };
    let ghost target_in = target;
    let r = connector.latest(base, target);
    proof {
        assert(target_in.deep_view() =~~= args.target.deep_view());
    }
    r
}

/// Clones a list of code strings, character for character.
fn clone_codes(ts: &Vec<String>) -> (r: Vec<String>)
    ensures
        r@.len() == ts@.len(),
        forall|i: int| 0 <= i < r@.len() ==> (#[trigger] r@[i])@ == ts@[i]@,
{
    let mut out: Vec<String> = Vec::new();
    let mut i: usize = 0;
    while i < ts.len()
        invariant
            i <= ts@.len(),
            out@.len() == i,
            forall|k: int| 0 <= k < i ==> (#[trigger] out@[k])@ == ts@[k]@,
        decreases ts@.len() - i,
    {
        out.push(ts[i].clone());
        i += 1;
    }
    out
}

} // verus!
