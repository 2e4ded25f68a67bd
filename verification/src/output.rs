//! Connector result types: the outcome of an exchange and one entry of a
//! latest-rates listing, together with verified sorting of such entries by
//! currency code.

use vstd::prelude::*;

use crate::currency::Currency;
use crate::decimal::renders_value;
use crate::rational::Rational;
use crate::strings::{lemma_lex_le_total, lemma_lex_le_transitive, lex_le, str_le};

verus! {

/// The outcome of converting an amount: the converted value and the rate
/// that was applied, with `value = amount * exchange_rate` exactly.
#[derive(Clone, Copy, Debug)]
pub struct ExchangeOutput {
    pub value: Rational,
    pub exchange_rate: Rational,
}

impl ExchangeOutput {
    /// Builds an exchange outcome from its two parts.
    pub fn new(value: &Rational, exchange_rate: &Rational) -> (r: ExchangeOutput)
        ensures
            r.value == *value,
            r.exchange_rate == *exchange_rate,
    {
        ExchangeOutput { value: *value, exchange_rate: *exchange_rate }
    }

    /// The display form: the converted value, then the rate that was
    /// applied, each rendered exactly.
    pub fn display(&self) -> (r: String)
        requires
            self.value.wf(),
            self.exchange_rate.wf(),
        ensures
            exists|v: Seq<char>, e: Seq<char>|
                {
                    &&& r@ == v + ", exchange rate:"@ + e
                    &&& #[trigger] renders_value(v, self.value)
                    &&& #[trigger] renders_value(e, self.exchange_rate)
                },
    {
        let mut s = self.value.display();
        let ghost v = s@;
        s.append(", exchange rate:");
        let e = self.exchange_rate.display();
        s.append(e.as_str());
        proof {
            assert(s@ =~= v + ", exchange rate:"@ + e@);
        }
        s
    }
}

impl PartialEq for ExchangeOutput {
    /// Equality of the two rationals as values, not as representations.
    fn eq(&self, other: &ExchangeOutput) -> (r: bool) {
        self.value == other.value && self.exchange_rate == other.exchange_rate
    }
}

impl vstd::std_specs::cmp::PartialEqSpecImpl for ExchangeOutput {
    open spec fn obeys_eq_spec() -> bool {
        true
    }

    open spec fn eq_spec(&self, other: &ExchangeOutput) -> bool {
        self.value.same_value(other.value) && self.exchange_rate.same_value(other.exchange_rate)
    }
}

/// One entry of a latest-rates listing: a currency and the rate of the
/// queried base against it.
#[derive(Debug)]
pub struct LatestOutput {
    pub currency: Currency,
    pub exchange_rate: Rational,
}

impl LatestOutput {
    /// Builds one listing entry.
    pub fn new(currency: Currency, exchange_rate: Rational) -> (r: LatestOutput)
        ensures
            r.currency == currency,
            r.exchange_rate == exchange_rate,
    {
        LatestOutput { currency, exchange_rate }
    }

    /// The rate carried by this entry.
    pub fn get_rate(&self) -> (r: &Rational)
        ensures
            *r == self.exchange_rate,
    {
        &self.exchange_rate
    }

    /// The display form: the currency's display form, then the rate,
    /// rendered exactly.
    pub fn display(&self) -> (r: String)
        requires
            self.exchange_rate.wf(),
        ensures
            exists|e: Seq<char>|
                {
                    &&& r@ == (match self.currency.name {
                        Some(n) => self.currency.short_code@ + " ("@ + n@ + ")"@,
                        None => self.currency.short_code@,
                    }) + ", exchange rate:"@ + e
                    &&& #[trigger] renders_value(e, self.exchange_rate)
                },
    {
        let mut s = self.currency.display();
        let ghost c = s@;
        s.append(", exchange rate:");
        let e = self.exchange_rate.display();
        s.append(e.as_str());
        proof {
            assert(s@ =~= c + ", exchange rate:"@ + e@);
        }
        s
    }
}

impl Clone for LatestOutput {
    fn clone(&self) -> (r: LatestOutput)
        ensures
            r == *self,
    {
        LatestOutput { currency: self.currency.clone(), exchange_rate: self.exchange_rate }
    }
}

impl PartialEq for LatestOutput {
    /// Equality by currency code and rate value, mirroring the equality of
    /// the parts.
    fn eq(&self, other: &LatestOutput) -> (r: bool) {
        self.currency == other.currency && self.exchange_rate == other.exchange_rate
    }
}

impl vstd::std_specs::cmp::PartialEqSpecImpl for LatestOutput {
    open spec fn obeys_eq_spec() -> bool {
        true
    }

    open spec fn eq_spec(&self, other: &LatestOutput) -> bool {
        self.currency.short_code@ == other.currency.short_code@
            && self.exchange_rate.same_value(other.exchange_rate)
    }
}

/// Whether listing entries are in ascending order of currency code.
pub open spec fn outputs_sorted(s: Seq<LatestOutput>) -> bool {
    forall|i: int, j: int|
        0 <= i < j < s.len() ==> lex_le(s[i].currency.short_code@, s[j].currency.short_code@)
}

/// Whether currencies are in ascending order of code.
pub open spec fn currencies_sorted(s: Seq<Currency>) -> bool {
    forall|i: int, j: int| 0 <= i < j < s.len() ==> lex_le(s[i].short_code@, s[j].short_code@)
}

/// Sorts listing entries by currency code (insertion sort): the result holds
/// the same entries, in ascending order.
#[verifier::loop_isolation(false)]
pub fn sort_outputs(v: Vec<LatestOutput>) -> (r: Vec<LatestOutput>)
    ensures
        outputs_sorted(r@),
        r@.to_multiset() == v@.to_multiset(),
{
    broadcast use vstd::seq_lib::to_multiset_insert;
    broadcast use vstd::seq_lib::to_multiset_build;

    let mut r: Vec<LatestOutput> = Vec::new();
    let mut i: usize = 0;
    proof {
        assert(v@.take(0) =~= Seq::<LatestOutput>::empty());
    }
    while i < v.len()
        invariant
            i <= v.len(),
            outputs_sorted(r@),
            r@.to_multiset() == v@.take(i as int).to_multiset(),
        decreases v.len() - i,
    {
        let x = v[i].clone();
        let mut p: usize = 0;
        while p < r.len() && str_le(r[p].currency.short_code.as_str(), x.currency.short_code.as_str())
            invariant
                p <= r@.len(),
                forall|k: int|
                    0 <= k < p ==> lex_le(r@[k].currency.short_code@, x.currency.short_code@),
            decreases r@.len() - p,
        {
            p += 1;
        }
        proof {
            if p < r@.len() {
                lemma_lex_le_total(r@[p as int].currency.short_code@, x.currency.short_code@);
                assert forall|k: int| p <= k < r@.len() implies lex_le(
                    x.currency.short_code@,
                    r@[k].currency.short_code@,
                ) by {
                    if p < k {
                        lemma_lex_le_transitive(
                            x.currency.short_code@,
                            r@[p as int].currency.short_code@,
                            r@[k].currency.short_code@,
                        );
                    }
                }
            }
            assert(v@.take(i as int).push(v@[i as int]) =~= v@.take(i + 1));
        }
        let ghost old_r = r@;
        r.insert(p, x);
        proof {
            assert forall|a: int, b: int| 0 <= a < b < r@.len() implies lex_le(
                r@[a].currency.short_code@,
                r@[b].currency.short_code@,
            ) by {
                old_r.insert_ensures(p as int, x);
            }
        }
        i += 1;
    }
    proof {
        assert(v@.take(v@.len() as int) =~= v@);
    }
    r
}

/// Sorts currencies by code (insertion sort): the result holds the same
/// currencies, in ascending order of code.
#[verifier::loop_isolation(false)]
pub fn sort_currencies(v: Vec<Currency>) -> (r: Vec<Currency>)
    ensures
        currencies_sorted(r@),
        r@.to_multiset() == v@.to_multiset(),
{
    broadcast use vstd::seq_lib::to_multiset_insert;
    broadcast use vstd::seq_lib::to_multiset_build;

    let mut r: Vec<Currency> = Vec::new();
    let mut i: usize = 0;
    proof {
        assert(v@.take(0) =~= Seq::<Currency>::empty());
    }
    while i < v.len()
        invariant
            i <= v.len(),
            currencies_sorted(r@),
            r@.to_multiset() == v@.take(i as int).to_multiset(),
        decreases v.len() - i,
    {
        let x = v[i].clone();
        let mut p: usize = 0;
        while p < r.len() && str_le(r[p].short_code.as_str(), x.short_code.as_str())
            invariant
                p <= r@.len(),
                forall|k: int| 0 <= k < p ==> lex_le(r@[k].short_code@, x.short_code@),
            decreases r@.len() - p,
        {
            p += 1;
        }
        proof {
            if p < r@.len() {
                lemma_lex_le_total(r@[p as int].short_code@, x.short_code@);
                assert forall|k: int| p <= k < r@.len() implies lex_le(
                    x.short_code@,
                    r@[k].short_code@,
                ) by {
                    if p < k {
                        lemma_lex_le_transitive(
                            x.short_code@,
                            r@[p as int].short_code@,
                            r@[k].short_code@,
                        );
                    }
                }
            }
            assert(v@.take(i as int).push(v@[i as int]) =~= v@.take(i + 1));
        }
        let ghost old_r = r@;
        r.insert(p, x);
        proof {
            assert forall|a: int, b: int| 0 <= a < b < r@.len() implies lex_le(
                r@[a].short_code@,
                r@[b].short_code@,
            ) by {
                old_r.insert_ensures(p as int, x);
            }
        }
        i += 1;
    }
    proof {
        assert(v@.take(v@.len() as int) =~= v@);
    }
    r
}

} // verus!
