//! The mock connector: a deterministic, network-free backend holding a
//! fixed table of currencies and their rates relative to a common unit. A
//! pairwise rate is derived exactly as `table[target] / table[source]`.

use vstd::prelude::*;

use crate::connector::{Connector, ConnectorError};
use crate::currency::Currency;
use crate::output::{sort_outputs, ExchangeOutput, LatestOutput};
use crate::rational::{Rational, AMOUNT_LIMIT, RATE_LIMIT};
use crate::strings::{code_views, concat3, lex_lt, str_eq};

verus! {

/// One row of the mock rate table: a currency and its rate relative to the
/// table's common unit.
#[derive(Debug)]
pub struct MockEntry {
    pub currency: Currency,
    pub rate: Rational,
}

/// The mock backend: a fixed in-memory table, strictly ordered by currency
/// code.
#[derive(Debug)]
pub struct MockConnector {
    pub table: Vec<MockEntry>,
}

impl MockConnector {
    /// The table's structural invariant: codes strictly ascending (hence
    /// unique) and every rate a positive rational with small parts.
    pub open spec fn wf_spec(self) -> bool {
        &&& forall|i: int|
            0 <= i < self.table@.len() ==> {
                &&& 1 <= (#[trigger] self.table@[i]).rate.num <= RATE_LIMIT
                &&& 1 <= self.table@[i].rate.den <= RATE_LIMIT
            }
        &&& forall|i: int, j: int|
            0 <= i < j < self.table@.len() ==> lex_lt(
                (#[trigger] self.table@[i]).currency.short_code@,
                (#[trigger] self.table@[j]).currency.short_code@,
            )
    }

    /// Whether the table knows the currency with this code.
    pub open spec fn spec_known(self, code: Seq<char>) -> bool {
        exists|i: int| 0 <= i < self.table@.len() && (#[trigger] self.table@[i]).currency.short_code@ == code
    }

    /// The row index of a known code (unique once the table is well
    /// formed).
    pub open spec fn idx_of(self, code: Seq<char>) -> int {
        choose|i: int| 0 <= i < self.table@.len() && (#[trigger] self.table@[i]).currency.short_code@ == code
    }

    /// Numerator of the derived pairwise rate `table[target] / table[source]`.
    pub open spec fn rate_num(self, source: Seq<char>, target: Seq<char>) -> int {
        self.table@[self.idx_of(target)].rate.num * self.table@[self.idx_of(source)].rate.den
    }

    /// Denominator of the derived pairwise rate `table[target] / table[source]`.
    pub open spec fn rate_den(self, source: Seq<char>, target: Seq<char>) -> int {
        self.table@[self.idx_of(target)].rate.den * self.table@[self.idx_of(source)].rate.num
    }

    /// Whether every code in the list is known to the table.
    pub open spec fn all_known(self, ts: Seq<Seq<char>>) -> bool {
        forall|i: int| 0 <= i < ts.len() ==> self.spec_known(#[trigger] ts[i])
    }

    /// The listing entry for a known code against a known base: the row's
    /// currency and the derived rate.
    pub open spec fn latest_entry(self, base: Seq<char>, code: Seq<char>) -> LatestOutput {
        LatestOutput {
            currency: self.table@[self.idx_of(code)].currency,
            exchange_rate: Rational {
                num: self.rate_num(base, code) as i64,
                den: self.rate_den(base, code) as i64,
            },
        }
    }

    /// The listing entries for a list of codes, in the list's order.
    pub open spec fn spec_latest(self, base: Seq<char>, ts: Seq<Seq<char>>) -> Seq<LatestOutput> {
        Seq::new(ts.len(), |i: int| self.latest_entry(base, ts[i]))
    }

    /// The exact seeded contents: GBP (Pound Sterling) at 0.8, PLN (Zloty)
    /// at 4 and USD (US Dollar) at 1, relative to the common unit.
    pub open spec fn seeded(self) -> bool {
        &&& self.table@.len() == 3
        &&& self.table@[0].currency.short_code@ == "GBP"@
        &&& self.table@[0].currency.name matches Some(n) && n@ == "Pound Sterling"@
        &&& self.table@[0].rate.num == 8 && self.table@[0].rate.den == 10
        &&& self.table@[1].currency.short_code@ == "PLN"@
        &&& self.table@[1].currency.name matches Some(n) && n@ == "Zloty"@
        &&& self.table@[1].rate.num == 4 && self.table@[1].rate.den == 1
        &&& self.table@[2].currency.short_code@ == "USD"@
        &&& self.table@[2].currency.name matches Some(n) && n@ == "US Dollar"@
        &&& self.table@[2].rate.num == 1 && self.table@[2].rate.den == 1
    }

    /// Builds the seeded mock table.
    pub fn new() -> (r: MockConnector)
        ensures
            r.seeded(),
            r.wf_spec(),
    {
        let mut table: Vec<MockEntry> = Vec::new();
        table.push(
            MockEntry {
                currency: Currency::new("GBP", Some("Pound Sterling".to_owned())),
                rate: Rational::new(8, 10),
            },
        );
        table.push(
            MockEntry {
                currency: Currency::new("PLN", Some("Zloty".to_owned())),
                rate: Rational::new(4, 1),
            },
        );
        table.push(
            MockEntry {
                currency: Currency::new("USD", Some("US Dollar".to_owned())),
                rate: Rational::new(1, 1),
            },
        );
        let r = MockConnector { table };
        proof {
            reveal_strlit("GBP");
            reveal_strlit("PLN");
            reveal_strlit("USD");
            assert(r.seeded());
            assert(lex_lt("GBP"@, "PLN"@));
            assert(lex_lt("PLN"@, "USD"@));
            assert(lex_lt("GBP"@, "USD"@));
        }
        r
    }

    /// With a well-formed table, the row index of any row's code is that
    /// row: codes are unique.
    proof fn lemma_idx_of_row(self, i: int)
        requires
            self.wf_spec(),
            0 <= i < self.table@.len(),
        ensures
            self.spec_known(self.table@[i].currency.short_code@),
            self.idx_of(self.table@[i].currency.short_code@) == i,
    {
        let code = self.table@[i].currency.short_code@;
        assert(self.spec_known(code));
        let j = self.idx_of(code);
        if i < j {
            assert(lex_lt(self.table@[i].currency.short_code@, self.table@[j].currency.short_code@));
        } else if j < i {
            assert(lex_lt(self.table@[j].currency.short_code@, self.table@[i].currency.short_code@));
        }
    }

    /// Looks a code up in the table.
    fn find(&self, code: &str) -> (r: Option<usize>)
        ensures
            r matches Some(i) ==> i < self.table@.len() && self.table@[i as int].currency.short_code@
                == code@,
            r is Some <==> self.spec_known(code@),
    {
        let mut i: usize = 0;
        while i < self.table.len()
            invariant
                i <= self.table@.len(),
                forall|k: int|
                    0 <= k < i ==> (#[trigger] self.table@[k]).currency.short_code@ != code@,
            decreases self.table@.len() - i,
        {
            if str_eq(self.table[i].currency.short_code.as_str(), code) {
                return Some(i);
            }
            i += 1;
        }
        None
    }

    /// The derived pairwise rate `table[target] / table[source]`, or the
    /// `InvalidInput` naming the first of the two codes the table does not
    /// know.
    fn rate(&self, source: &str, target: &str) -> (r: Result<Rational, ConnectorError>)
        requires
            self.wf_spec(),
        ensures
            r is Ok <==> self.spec_known(source@) && self.spec_known(target@),
            r matches Ok(q) ==> {
                &&& q.num == self.rate_num(source@, target@)
                &&& q.den == self.rate_den(source@, target@)
                &&& 1 <= q.num <= RATE_LIMIT * RATE_LIMIT
                &&& 1 <= q.den <= RATE_LIMIT * RATE_LIMIT
            },
            !self.spec_known(source@) ==> (r matches Err(ConnectorError::InvalidInput(m)) && m@
                == "Source currency code "@ + source@ + " not exist"@),
            self.spec_known(source@) && !self.spec_known(target@) ==> (r matches Err(
                ConnectorError::InvalidInput(m),
            ) && m@ == "Target currency code "@ + target@ + " not exist"@),
    {
        let si = match self.find(source) {
            Some(i) => i,
            None => {
                return Err(
                    ConnectorError::InvalidInput(
                        concat3("Source currency code ", source, " not exist"),
                    ),
                );
            },
        };
        let ti = match self.find(target) {
            Some(i) => i,
            None => {
                return Err(
                    ConnectorError::InvalidInput(
                        concat3("Target currency code ", target, " not exist"),
                    ),
                );
            },
        };
        proof {
            self.lemma_idx_of_row(si as int);
            self.lemma_idx_of_row(ti as int);
        }
        let t_rate = &self.table[ti].rate;
        let s_rate = &self.table[si].rate;
        proof {
            assert(1 <= t_rate.num * s_rate.den <= RATE_LIMIT * RATE_LIMIT) by (nonlinear_arith)
                requires
                    1 <= t_rate.num <= RATE_LIMIT,
                    1 <= s_rate.den <= RATE_LIMIT,
            ;
            assert(1 <= t_rate.den * s_rate.num <= RATE_LIMIT * RATE_LIMIT) by (nonlinear_arith)
                requires
                    1 <= t_rate.den <= RATE_LIMIT,
                    1 <= s_rate.num <= RATE_LIMIT,
            ;
        }
        Ok(Rational { num: t_rate.num * s_rate.den, den: t_rate.den * s_rate.num })
    }

    /// The table row for a code, or the `InvalidInput` naming it.
    fn get_currency(&self, code: &str) -> (r: Result<Currency, ConnectorError>)
        requires
            self.wf_spec(),
        ensures
            r is Ok <==> self.spec_known(code@),
            r matches Ok(c) ==> c == self.table@[self.idx_of(code@)].currency,
            !self.spec_known(code@) ==> (r matches Err(ConnectorError::InvalidInput(m)) && m@
                == "Currency code "@ + code@ + " not exist"@),
    {
        match self.find(code) {
            Some(i) => {
                proof {
                    self.lemma_idx_of_row(i as int);
                }
                Ok(self.table[i].currency.clone())
            },
            None => Err(
                ConnectorError::InvalidInput(concat3("Currency code ", code, " not exist")),
            ),
        }
    }
}

impl Connector for MockConnector {
    open spec fn wf(&self) -> bool {
        self.wf_spec()
    }

    /// Converts exactly: the returned value is `amount` times the derived
    /// rate `table[target] / table[source]`, part by part.
    fn exchange(&self, source: &str, target: &str, amount: &Rational) -> (r: Result<
        ExchangeOutput,
        ConnectorError,
    >)
        ensures
            r is Ok <==> self.spec_known(source@) && self.spec_known(target@),
            r matches Ok(o) ==> {
                &&& o.exchange_rate.num == self.rate_num(source@, target@)
                &&& o.exchange_rate.den == self.rate_den(source@, target@)
                &&& o.value.num == amount.num * self.rate_num(source@, target@)
                &&& o.value.den == amount.den * self.rate_den(source@, target@)
            },
            !self.spec_known(source@) ==> (r matches Err(ConnectorError::InvalidInput(m)) && m@
                == "Source currency code "@ + source@ + " not exist"@),
            self.spec_known(source@) && !self.spec_known(target@) ==> (r matches Err(
                ConnectorError::InvalidInput(m),
            ) && m@ == "Target currency code "@ + target@ + " not exist"@),
    {
        let exchange_rate = match self.rate(source, target) {
            Ok(q) => q,
            Err(e) => {
                return Err(e);
            },
        };
        proof {
            assert(i64::MIN <= amount.num * exchange_rate.num <= i64::MAX) by (nonlinear_arith)
                requires
                    -AMOUNT_LIMIT <= amount.num <= AMOUNT_LIMIT,
                    1 <= exchange_rate.num <= RATE_LIMIT * RATE_LIMIT,
            ;
            assert(i64::MIN <= amount.den * exchange_rate.den <= i64::MAX) by (nonlinear_arith)
                requires
                    0 < amount.den <= AMOUNT_LIMIT,
                    1 <= exchange_rate.den <= RATE_LIMIT * RATE_LIMIT,
            ;
        }
        let value = amount.mul(&exchange_rate);
        Ok(ExchangeOutput::new(&value, &exchange_rate))
    }

    /// Returns exactly the table's currencies, in the table's (ascending)
    /// order, and never fails.
    fn list_currencies(&self) -> (r: Result<Vec<Currency>, ConnectorError>)
        ensures
            r is Ok,
            r matches Ok(v) ==> {
                &&& v@.len() == self.table@.len()
                &&& forall|i: int| 0 <= i < v@.len() ==> v@[i] == (#[trigger] self.table@[i]).currency
            },
    {
        let mut v: Vec<Currency> = Vec::new();
        let mut i: usize = 0;
        while i < self.table.len()
            invariant
                i <= self.table@.len(),
                v@.len() == i,
                forall|k: int| 0 <= k < i ==> v@[k] == (#[trigger] self.table@[k]).currency,
            decreases self.table@.len() - i,
        {
            v.push(self.table[i].currency.clone());
            i += 1;
        }
        proof {
            assert forall|a: int, b: int| 0 <= a < b < v@.len() implies crate::strings::lex_le(
                v@[a].short_code@,
                v@[b].short_code@,
            ) by {
                assert(lex_lt(
                    self.table@[a].currency.short_code@,
                    self.table@[b].currency.short_code@,
                ));
            }
        }
        Ok(v)
    }

    /// With no targets, returns one entry per table row, in table order;
    /// with targets, the requested entries sorted by code. Fails with
    /// `InvalidInput` naming the base when it is unknown, else naming the
    /// first unknown target.
    #[verifier::loop_isolation(false)]
    fn latest(&self, base: &str, target: Option<Vec<String>>) -> (r: Result<
        Vec<LatestOutput>,
        ConnectorError,
    >)
        ensures
            r is Ok <==> self.spec_known(base@) && match target {
                Some(ts) => self.all_known(code_views(ts@)),
                None => true,
            },
            target is None ==> (r matches Ok(v) ==> v@ =~= self.spec_latest(
                base@,
                Seq::new(self.table@.len(), |i: int| self.table@[i].currency.short_code@),
            )),
            target matches Some(ts) ==> (r matches Ok(v) ==> v@.to_multiset() == self.spec_latest(
                base@,
                code_views(ts@),
            ).to_multiset()),
            !self.spec_known(base@) ==> (r matches Err(ConnectorError::InvalidInput(m)) && m@
                == "Currency code "@ + base@ + " not exist"@),
            self.spec_known(base@) ==> match target {
                Some(ts) => !self.all_known(code_views(ts@)) ==> (r matches Err(
                    ConnectorError::InvalidInput(m),
                ) && exists|j: int|
                    {
                        &&& 0 <= j < ts@.len()
                        &&& !self.spec_known(#[trigger] ts@[j]@)
                        &&& forall|k: int| 0 <= k < j ==> self.spec_known(#[trigger] ts@[k]@)
                        &&& m@ == "Currency code "@ + ts@[j]@ + " not exist"@
                    }),
                None => true,
            },
    {
        let base_idx = match self.find(base) {
            Some(i) => i,
            None => {
                return Err(
                    ConnectorError::InvalidInput(concat3("Currency code ", base, " not exist")),
                );
            },
        };
        proof {
            self.lemma_idx_of_row(base_idx as int);
        }
        match target {
            None => {
                let mut v: Vec<LatestOutput> = Vec::new();
                let mut i: usize = 0;
                while i < self.table.len()
                    invariant
                        self.wf_spec(),
                        self.spec_known(base@),
                        base_idx as int == self.idx_of(base@),
                        0 <= base_idx < self.table@.len(),
                        i <= self.table@.len(),
                        v@.len() == i,
                        forall|k: int|
                            0 <= k < i ==> v@[k] == self.latest_entry(
                                base@,
                                (#[trigger] self.table@[k]).currency.short_code@,
                            ),
                    decreases self.table@.len() - i,
                {
                    let entry = self.make_entry(base_idx, i);
                    v.push(entry);
                    i += 1;
                }
                proof {
                    assert(v@ =~= self.spec_latest(
                        base@,
                        Seq::new(self.table@.len(), |i: int| self.table@[i].currency.short_code@),
                    ));
                }
                Ok(v)
            },
            Some(ts) => {
                let mut v: Vec<LatestOutput> = Vec::new();
                let mut i: usize = 0;
                while i < ts.len()
                    invariant
                        self.wf_spec(),
                        self.spec_known(base@),
                        base_idx as int == self.idx_of(base@),
                        0 <= base_idx < self.table@.len(),
                        i <= ts@.len(),
                        v@.len() == i,
                        forall|k: int| 0 <= k < i ==> self.spec_known(#[trigger] ts@[k]@),
                        forall|k: int|
                            0 <= k < i ==> v@[k] == self.latest_entry(base@, #[trigger] ts@[k]@),
                    decreases ts@.len() - i,
                {
                    let code_idx = match self.find(ts[i].as_str()) {
                        Some(ci) => ci,
                        None => {
                            let msg = concat3("Currency code ", ts[i].as_str(), " not exist");
                            proof {
                                assert(code_views(ts@)[i as int] == ts@[i as int]@);
                                assert(!self.all_known(code_views(ts@)));
                                assert({
                                    &&& 0 <= i < ts@.len()
                                    &&& !self.spec_known(ts@[i as int]@)
                                    &&& forall|k: int|
                                        0 <= k < i ==> self.spec_known(#[trigger] ts@[k]@)
                                    &&& msg@ == "Currency code "@ + ts@[i as int]@
                                        + " not exist"@
                                });
                            }
                            return Err(ConnectorError::InvalidInput(msg));
                        },
                    };
                    proof {
                        self.lemma_idx_of_row(code_idx as int);
                    }
                    let entry = self.make_entry(base_idx, code_idx);
                    v.push(entry);
                    i += 1;
                }
                proof {
                    assert forall|k: int| 0 <= k < code_views(ts@).len() implies self.spec_known(
                        #[trigger] code_views(ts@)[k],
                    ) by {
                        assert(code_views(ts@)[k] == ts@[k]@);
                    }
                    assert(self.all_known(code_views(ts@)));
                    assert(v@ =~= self.spec_latest(base@, code_views(ts@)));
                }
                let sorted = sort_outputs(v);
                Ok(sorted)
            },
        }
    }
}

impl MockConnector {
    /// Builds the listing entry for the row at `code_idx` against the base
    /// at `base_idx`.
    fn make_entry(&self, base_idx: usize, code_idx: usize) -> (r: LatestOutput)
        requires
            self.wf_spec(),
            base_idx < self.table@.len(),
            code_idx < self.table@.len(),
        ensures
            r == self.latest_entry(
                self.table@[base_idx as int].currency.short_code@,
                self.table@[code_idx as int].currency.short_code@,
            ),
    {
        proof {
            self.lemma_idx_of_row(base_idx as int);
            self.lemma_idx_of_row(code_idx as int);
        }
        let t_rate = &self.table[code_idx].rate;
        let s_rate = &self.table[base_idx].rate;
        proof {
            assert(1 <= t_rate.num * s_rate.den <= RATE_LIMIT * RATE_LIMIT) by (nonlinear_arith)
                requires
                    1 <= t_rate.num <= RATE_LIMIT,
                    1 <= s_rate.den <= RATE_LIMIT,
            ;
            assert(1 <= t_rate.den * s_rate.num <= RATE_LIMIT * RATE_LIMIT) by (nonlinear_arith)
                requires
                    1 <= t_rate.den <= RATE_LIMIT,
                    1 <= s_rate.num <= RATE_LIMIT,
            ;
        }
        LatestOutput {
            currency: self.table[code_idx].currency.clone(),
            exchange_rate: Rational { num: t_rate.num * s_rate.den, den: t_rate.den * s_rate.num },
        }
    }
}

/// Law: exchanging a known currency to itself leaves the amount unchanged,
/// because the derived identity rate has equal numerator and denominator.
pub proof fn lemma_exchange_identity(
    m: MockConnector,
    code: Seq<char>,
    amount: Rational,
    o: ExchangeOutput,
)
    requires
        m.wf_spec(),
        m.spec_known(code),
        amount.wf(),
        o.value.num == amount.num * m.rate_num(code, code),
        o.value.den == amount.den * m.rate_den(code, code),
    ensures
        o.value.same_value(amount),
{
    let t = m.table@[m.idx_of(code)].rate;
    assert(m.rate_num(code, code) == t.num * t.den);
    assert(m.rate_den(code, code) == t.den * t.num);
    assert((amount.num * (t.num * t.den)) * amount.den == amount.num * (amount.den * (t.den
        * t.num))) by (nonlinear_arith);
}

} // verus!
