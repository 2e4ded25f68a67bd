//! The `Currency` value type: a canonical short code and an optional
//! display name. Equality and ordering are defined solely by the short code.

use vstd::prelude::*;

use crate::strings::str_eq;

verus! {

/// A currency, identified by its canonical short code (for example `USD`),
/// with an optional human-readable name.
#[derive(Debug)]
pub struct Currency {
    pub short_code: String,
    pub name: Option<String>,
}

impl Currency {
    /// Builds a currency from its code and optional name. The code is taken
    /// as given: it is never normalized or transformed.
    pub fn new(short_code: &str, name: Option<String>) -> (r: Currency)
        ensures
            r.short_code@ == short_code@,
            r.name == name,
    {
        Currency { short_code: short_code.to_owned(), name }
    }

    /// The canonical short code.
    pub fn get_short_code(&self) -> (r: &str)
        ensures
            r@ == self.short_code@,
    {
        self.short_code.as_str()
    }

    /// The display form: the code alone, or `CODE (Name)` when a name is
    /// present.
    pub fn display(&self) -> (r: String)
        ensures
            match self.name {
                Some(n) => r@ == self.short_code@ + " ("@ + n@ + ")"@,
                None => r@ == self.short_code@,
            },
    {
        match &self.name {
            Some(n) => {
                let mut out = self.short_code.clone();
                out.append(" (");
                out.append(n.as_str());
                out.append(")");
                out
            },
            None => self.short_code.clone(),
        }
    }
}

impl Clone for Currency {
    fn clone(&self) -> (r: Currency)
        ensures
            r == *self,
    {
        Currency {
            short_code: self.short_code.clone(),
            name: match &self.name {
                Some(n) => Some(n.clone()),
                None => None,
            },
        }
    }
}

impl PartialEq for Currency {
    /// Equality solely by short code: the optional name does not take part.
    fn eq(&self, other: &Currency) -> (r: bool) {
        str_eq(self.short_code.as_str(), other.short_code.as_str())
    }
}

impl vstd::std_specs::cmp::PartialEqSpecImpl for Currency {
    open spec fn obeys_eq_spec() -> bool {
        true
    }

    open spec fn eq_spec(&self, other: &Currency) -> bool {
        self.short_code@ == other.short_code@
    }
}

} // verus!
