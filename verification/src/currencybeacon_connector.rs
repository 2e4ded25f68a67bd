//! The pure parts of the HTTP-backed live connector: construction from
//! configuration, request URL construction, response classification, and
//! verified decoding of the provider's JSON payloads. The network call
//! itself is performed by the surrounding program, which hands the raw
//! reply back to this module.

use vstd::prelude::*;

use crate::connector::ConnectorError;
use crate::currency::Currency;
use crate::decimal::{dec_den, dec_fits, dec_num, dec_valid, parse_decimal};
use crate::output::{
    currencies_sorted, outputs_sorted, sort_currencies, sort_outputs, ExchangeOutput, LatestOutput,
};
use crate::rational::Rational;
use crate::strings::concat3;

verus! {

/// The provider-level failure classification of a non-successful HTTP
/// status.
#[derive(Clone, Copy, Debug)]
pub enum ApiError {
    ServerError,
    TooManyRequests,
    AuthorizationError,
    /// Any other failure, carrying the HTTP status code that came with it.
    SomethingElse(u16),
}

/// The provider's base endpoint.
pub const BASE_URL: &'static str = "https://api.currencybeacon.com/v1/";

/// What the surrounding program hands back after attempting one HTTP GET:
/// either the send failed outright, or a response arrived with its status
/// code and, when it could be read, its body.
#[derive(Debug)]
pub enum HttpReply {
    SendFailed,
    Response(u16, Option<String>),
}

/// The provider-level classification of a non-success status code.
pub open spec fn status_error(status: u16) -> ApiError {
    if status == 401 {
        ApiError::AuthorizationError
    } else if status == 500 {
        ApiError::ServerError
    } else if status == 429 {
        ApiError::TooManyRequests
    } else {
        ApiError::SomethingElse(status)
    }
}

/// Whether a string is a well-formed JSON document, as the JSON parser
/// relied on decides it.
pub uninterp spec fn json_wellformed(s: Seq<char>) -> bool;

/// The document the JSON parser yields for a well-formed string. The parser
/// is deterministic, so the document is a function of the string alone.
pub uninterp spec fn parsed_doc(s: Seq<char>) -> json::JsonValue;

/// The key/value pairs under a parsed document's top-level `rates` key,
/// each value rendered as its display string.
pub uninterp spec fn json_rate_pairs(v: json::JsonValue) -> Seq<(Seq<char>, Seq<char>)>;

/// The `short_code`/`name` string pairs of the members of a parsed
/// document's top-level `response` array.
pub uninterp spec fn json_currency_pairs(v: json::JsonValue) -> Seq<(Seq<char>, Seq<char>)>;

#[verifier::external_type_specification]
#[verifier::external_body]
pub struct ExJsonValue(json::JsonValue);

#[verifier::external_type_specification]
#[verifier::external_body]
pub struct ExJsonError(json::Error);

/// The character sequences of a list of string pairs, in order.
pub open spec fn pair_views(s: Seq<(String, String)>) -> Seq<(Seq<char>, Seq<char>)> {
    Seq::new(s.len(), |i: int| (s[i].0@, s[i].1@))
}

/// Relies on json::parse: it is a pure function of the string, so whether
/// it accepts, and which document it yields, depend on the string alone.
#[verifier::external_body]
fn parse_json(s: &str) -> (r: Result<json::JsonValue, json::Error>)
    ensures
        r is Ok == json_wellformed(s@),
        r matches Ok(d) ==> d == parsed_doc(s@),
{
    json::parse(s)
}

/// Relies on JsonValue's indexing, entries and Display: hands out the pairs
/// under the document's `rates` key as plain strings.
#[verifier::external_body]
fn rate_pairs(doc: &json::JsonValue) -> (r: Vec<(String, String)>)
    ensures
        pair_views(r@) == json_rate_pairs(*doc),
{
    doc["rates"].entries().map(|(k, v)| (k.to_string(), v.to_string())).collect()
}

/// Relies on JsonValue's indexing, members and Display: hands out each
/// member's `short_code` and `name` fields under the document's `response`
/// key as plain strings.
#[verifier::external_body]
fn currency_pairs(doc: &json::JsonValue) -> (r: Vec<(String, String)>)
    ensures
        pair_views(r@) == json_currency_pairs(*doc),
{
    doc["response"].members().map(|v| (v["short_code"].to_string(), v["name"].to_string())).collect()
}

/// The backend for the currencybeacon provider: its API key. It is only
/// constructed when the key is present.
#[derive(Debug)]
pub struct CurrencybeaconConnector {
    pub api_key: String,
}

impl CurrencybeaconConnector {
    /// Builds the live backend from its configured API key; fails with
    /// `ApiKeyRequirements`, without any network activity, when the key is
    /// absent.
    pub fn new(api_key: Option<String>) -> (r: Result<CurrencybeaconConnector, ConnectorError>)
        ensures
            api_key matches Some(k) ==> (r matches Ok(c) && c.api_key@ == k@),
            api_key is None ==> r matches Err(ConnectorError::ApiKeyRequirements),
    {
        match api_key {
            Some(k) => Ok(CurrencybeaconConnector { api_key: k }),
            None => Err(ConnectorError::ApiKeyRequirements),
        }
    }

    /// The URL of the currency-listing endpoint, with the API key embedded.
    pub fn currencies_url(&self) -> (r: String)
        ensures
            r@ == BASE_URL@ + "currencies?api_key="@ + self.api_key@,
    {
        concat3(BASE_URL, "currencies?api_key=", self.api_key.as_str())
    }

    /// The URL of the latest-rates endpoint for a base currency and an
    /// optional comma-joined target list, with the API key embedded.
    pub fn latest_url(&self, base: &str, target: &Option<Vec<String>>) -> (r: String)
        ensures
            match target {
                Some(ts) => r@ == BASE_URL@ + "latest?api_key="@ + self.api_key@ + "&base="@
                    + base@ + "&symbols="@ + join_commas(crate::strings::code_views(ts@)),
                None => r@ == BASE_URL@ + "latest?api_key="@ + self.api_key@ + "&base="@ + base@,
            },
    {
        let mut url = concat3(BASE_URL, "latest?api_key=", self.api_key.as_str());
        url.append("&base=");
        url.append(base);
        match target {
            Some(ts) => {
                url.append("&symbols=");
                let joined = join_with_commas(ts);
                url.append(joined.as_str());
            },
            None => {},
        }
        url
    }
}

/// The given strings joined with commas, in order.
pub open spec fn join_commas(ts: Seq<Seq<char>>) -> Seq<char>
    decreases ts.len(),
{
    if ts.len() == 0 {
        Seq::empty()
    } else if ts.len() == 1 {
        ts[0]
    } else {
        join_commas(ts.drop_last()) + ","@ + ts.last()
    }
}

/// Joins a list of strings with commas.
#[verifier::loop_isolation(false)]
pub fn join_with_commas(ts: &Vec<String>) -> (r: String)
    ensures
        r@ == join_commas(crate::strings::code_views(ts@)),
{
    let ghost views = crate::strings::code_views(ts@);
    let mut out = String::new();
    let mut i: usize = 0;
    proof {
        assert(views.take(0) =~= Seq::<Seq<char>>::empty());
    }
    while i < ts.len()
        invariant
            i <= ts@.len(),
            out@ == join_commas(views.take(i as int)),
        decreases ts@.len() - i,
    {
        if i > 0 {
            out.append(",");
        }
        out.append(ts[i].as_str());
        proof {
            assert(views.take(i + 1).drop_last() =~= views.take(i as int));
            assert(views.take(i + 1).last() == ts@[i as int]@);
        }
        i += 1;
    }
    proof {
        assert(views.take(ts@.len() as int) =~= views);
    }
    out
}

/// Turns the raw outcome of the HTTP GET into the response body, or the
/// classified connector error: a failed send, a failure status from the
/// provider, or a successful status whose body could not be read.
pub fn response_body(reply: HttpReply) -> (r: Result<String, ConnectorError>)
    ensures
        reply is SendFailed ==> r matches Err(ConnectorError::SendingError),
        reply matches HttpReply::Response(status, body) ==> {
            &&& status == 200 && body is Some ==> (r matches Ok(b) && b@ == body.unwrap()@)
            &&& status == 200 && body is None ==> (r matches Err(ConnectorError::ParseError))
            &&& status != 200 ==> (r matches Err(ConnectorError::ApiError(a)) && a
                == status_error(status))
        },
{
    match reply {
        HttpReply::SendFailed => Err(ConnectorError::SendingError),
        HttpReply::Response(status, body) => {
            if status == 200 {
                match body {
                    Some(b) => Ok(b),
                    None => Err(ConnectorError::ParseError),
                }
            } else if status == 401 {
                Err(ConnectorError::ApiError(ApiError::AuthorizationError))
            } else if status == 500 {
                Err(ConnectorError::ApiError(ApiError::ServerError))
            } else if status == 429 {
                Err(ConnectorError::ApiError(ApiError::TooManyRequests))
            } else {
                Err(ConnectorError::ApiError(ApiError::SomethingElse(status)))
            }
        },
    }
}

/// Whether every value among the key/value pairs is a decimal literal that
/// fits the machine representation.
pub open spec fn rates_decodable(pairs: Seq<(Seq<char>, Seq<char>)>) -> bool {
    forall|i: int|
        0 <= i < pairs.len() ==> dec_valid((#[trigger] pairs[i]).1) && dec_fits(pairs[i].1)
}

/// Whether `v` is the decoded listing for the given rate pairs: one entry
/// per pair, carrying the pair's key as a nameless currency and its value
/// parsed as an exact decimal, in some order.
pub open spec fn decoded_listing(v: Seq<LatestOutput>, pairs: Seq<(Seq<char>, Seq<char>)>) -> bool {
    exists|w: Seq<LatestOutput>|
        #![trigger w.to_multiset()]
        {
            &&& w.len() == pairs.len()
            &&& forall|i: int|
                0 <= i < w.len() ==> {
                    &&& (#[trigger] w[i]).currency.short_code@ == pairs[i].0
                    &&& w[i].currency.name is None
                    &&& w[i].exchange_rate.num == dec_num(pairs[i].1)
                    &&& w[i].exchange_rate.den == dec_den(pairs[i].1)
                }
            &&& v.to_multiset() == w.to_multiset()
        }
}

/// Whether `v` is the decoded currency list for the given
/// `short_code`/`name` pairs: one currency per pair, in some order.
pub open spec fn decoded_currencies(v: Seq<Currency>, pairs: Seq<(Seq<char>, Seq<char>)>) -> bool {
    exists|w: Seq<Currency>|
        #![trigger w.to_multiset()]
        {
            &&& w.len() == pairs.len()
            &&& forall|i: int|
                0 <= i < w.len() ==> {
                    &&& (#[trigger] w[i]).short_code@ == pairs[i].0
                    &&& w[i].name matches Some(n) && n@ == pairs[i].1
                }
            &&& v.to_multiset() == w.to_multiset()
        }
}

/// Builds the latest-rates listing from the provider's rate pairs: one
/// entry per pair, the rate parsed as an exact decimal, sorted by currency
/// code. A pair whose value is not a decimal that fits is a `ParseError`.
#[verifier::loop_isolation(false)]
pub fn latest_from_pairs(pairs: &Vec<(String, String)>) -> (r: Result<
    Vec<LatestOutput>,
    ConnectorError,
>)
    ensures
        r is Ok <==> rates_decodable(pair_views(pairs@)),
        r is Err ==> r matches Err(ConnectorError::ParseError),
        r matches Ok(v) ==> {
            &&& outputs_sorted(v@)
            &&& forall|i: int| 0 <= i < v@.len() ==> (#[trigger] v@[i]).exchange_rate.wf()
            &&& decoded_listing(v@, pair_views(pairs@))
        },
{
    proof {
        assert(forall|i: int|
            0 <= i < pairs@.len() ==> (#[trigger] pair_views(pairs@)[i]) == (
                pairs@[i].0@,
                pairs@[i].1@,
            ));
    }
    broadcast use vstd::seq_lib::group_to_multiset_ensures;

    let mut built: Vec<LatestOutput> = Vec::new();
    let mut i: usize = 0;
    while i < pairs.len()
        invariant
            i <= pairs@.len(),
            built@.len() == i,
            forall|k: int|
                0 <= k < i ==> dec_valid((#[trigger] pairs@[k]).1@) && dec_fits(pairs@[k].1@),
            forall|k: int|
                0 <= k < i ==> {
                    &&& (#[trigger] built@[k]).currency.short_code@ == pairs@[k].0@
                    &&& built@[k].currency.name is None
                    &&& built@[k].exchange_rate.num == dec_num(pairs@[k].1@)
                    &&& built@[k].exchange_rate.den == dec_den(pairs@[k].1@)
                    &&& built@[k].exchange_rate.wf()
                },
        decreases pairs@.len() - i,
    {
        let rate = match parse_decimal(pairs[i].1.as_str()) {
            Some(q) => q,
            None => {
                proof {
                    assert(pair_views(pairs@)[i as int].1 == pairs@[i as int].1@);
                    assert(!rates_decodable(pair_views(pairs@)));
                }
                return Err(ConnectorError::ParseError);
            },
        };
        let entry = LatestOutput {
            currency: Currency::new(pairs[i].0.as_str(), None),
            exchange_rate: rate,
        };
        built.push(entry);
        i += 1;
    }
    let ghost w = built@;
    let sorted = sort_outputs(built);
    proof {
        assert forall|k: int| 0 <= k < sorted@.len() implies (
        #[trigger] sorted@[k]).exchange_rate.wf() by {
            assert(sorted@.to_multiset().contains(sorted@[k]));
            assert(w.contains(sorted@[k]));
        }
    }
    Ok(sorted)
}

/// Builds the currency listing from the provider's `short_code`/`name`
/// pairs: one currency per pair, sorted by code.
pub fn currencies_from_pairs(pairs: &Vec<(String, String)>) -> (r: Vec<Currency>)
    ensures
        currencies_sorted(r@),
        decoded_currencies(r@, pair_views(pairs@)),
{
    proof {
        assert(forall|i: int|
            0 <= i < pairs@.len() ==> (#[trigger] pair_views(pairs@)[i]) == (
                pairs@[i].0@,
                pairs@[i].1@,
            ));
    }
    let mut built: Vec<Currency> = Vec::new();
    let mut i: usize = 0;
    while i < pairs.len()
        invariant
            i <= pairs@.len(),
            built@.len() == i,
            forall|k: int|
                0 <= k < i ==> {
                    &&& (#[trigger] built@[k]).short_code@ == pairs@[k].0@
                    &&& built@[k].name matches Some(n) && n@ == pairs@[k].1@
                },
        decreases pairs@.len() - i,
    {
        let name = pairs[i].1.clone();
        built.push(Currency::new(pairs[i].0.as_str(), Some(name)));
        i += 1;
    }
    sort_currencies(built)
}

/// Decodes a latest-rates response body: parses it as JSON (else
/// `JsonParsingError`) and builds the sorted listing from the pairs under
/// its `rates` key, each rate parsed as an exact decimal (else
/// `ParseError`).
pub fn latest_from_body(body: &str) -> (r: Result<Vec<LatestOutput>, ConnectorError>)
    ensures
        (r matches Err(e) && e is JsonParsingError) <==> !json_wellformed(body@),
        json_wellformed(body@) ==> (r is Ok <==> rates_decodable(
            json_rate_pairs(parsed_doc(body@)),
        )),
        json_wellformed(body@) && !rates_decodable(json_rate_pairs(parsed_doc(body@)))
            ==> r matches Err(ConnectorError::ParseError),
        r matches Ok(v) ==> {
            &&& outputs_sorted(v@)
            &&& forall|i: int| 0 <= i < v@.len() ==> (#[trigger] v@[i]).exchange_rate.wf()
            &&& decoded_listing(v@, json_rate_pairs(parsed_doc(body@)))
        },
{
    let doc = match parse_json(body) {
        Ok(d) => d,
        Err(_) => {
            return Err(ConnectorError::JsonParsingError);
        },
    };
    let pairs = rate_pairs(&doc);
    match latest_from_pairs(&pairs) {
        Ok(v) => Ok(v),
        Err(_) => Err(ConnectorError::ParseError),
    }
}

/// Decodes a currency-listing response body: parses it as JSON (else
/// `JsonParsingError`) and builds the sorted currency list. An empty or
/// absent listing is a valid empty result, not an error.
pub fn currencies_from_body(body: &str) -> (r: Result<Vec<Currency>, ConnectorError>)
    ensures
        r is Ok <==> json_wellformed(body@),
        r is Err ==> r matches Err(ConnectorError::JsonParsingError),
        r matches Ok(v) ==> {
            &&& currencies_sorted(v@)
            &&& decoded_currencies(v@, json_currency_pairs(parsed_doc(body@)))
        },
{
    let doc = match parse_json(body) {
        Ok(d) => d,
        Err(_) => {
            return Err(ConnectorError::JsonParsingError);
        },
    };
    let pairs = currency_pairs(&doc);
    Ok(currencies_from_pairs(&pairs))
}

/// Computes the exchange outcome from a latest-rates listing for the single
/// requested target: the first entry's rate times the amount. An empty
/// listing means the provider returned no rate: an `ApiError`, no exchange
/// computed.
pub fn exchange_from_outputs(outputs: &Vec<LatestOutput>, amount: &Rational) -> (r: Result<
    ExchangeOutput,
    ConnectorError,
>)
    requires
        amount.wf(),
        outputs@.len() > 0 ==> {
            &&& outputs@[0].exchange_rate.wf()
            &&& i64::MIN <= amount.num * outputs@[0].exchange_rate.num <= i64::MAX
            &&& i64::MIN <= amount.den * outputs@[0].exchange_rate.den <= i64::MAX
        },
    ensures
        r is Ok <==> outputs@.len() > 0,
        outputs@.len() == 0 ==> (r matches Err(ConnectorError::ApiError(a)) && a
            == ApiError::SomethingElse(200)),
        r matches Ok(o) ==> {
            &&& o.exchange_rate == outputs@[0].exchange_rate
            &&& o.value.num == amount.num * outputs@[0].exchange_rate.num
            &&& o.value.den == amount.den * outputs@[0].exchange_rate.den
        },
{
    if outputs.len() == 0 {
        // the provider answered with success status yet carried no rate
        return Err(ConnectorError::ApiError(ApiError::SomethingElse(200)));
    }
    let rate = outputs[0].get_rate();
    let value = amount.mul(rate);
    Ok(ExchangeOutput::new(&value, rate))
}

/// Decides whether the first entry's rate can be multiplied by the amount
/// without overflow, so a caller can test before exchanging.
pub fn exchange_fits(outputs: &Vec<LatestOutput>, amount: &Rational) -> (r: bool)
    ensures
        r == (outputs@.len() > 0 ==> (i64::MIN <= amount.num * outputs@[0].exchange_rate.num
            <= i64::MAX && i64::MIN <= amount.den * outputs@[0].exchange_rate.den <= i64::MAX)),
{
    if outputs.len() == 0 {
        true
    } else {
        amount.mul_fits(outputs[0].get_rate())
    }
}

} // verus!
