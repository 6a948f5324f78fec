use rusty_money::iso::Currency as IsoCurrency;
use vstd::prelude::*;

verus! {

#[verifier::external_type_specification]
#[verifier::external_body]
pub struct ExIsoCurrency(IsoCurrency);

/// Whether a string is an alphabetic code of rusty_money's ISO-4217 table.
pub uninterp spec fn is_iso_code(code: Seq<char>) -> bool;

/// The upper case of a string, as `str::to_uppercase` gives it.
pub uninterp spec fn upper_of(s: Seq<char>) -> Seq<char>;

/// Three ASCII capital letters.
pub open spec fn is_alpha3(s: Seq<char>) -> bool {
    s.len() == 3 && forall|i: int| 0 <= i < 3 ==> ('A' as u32) <= (#[trigger] s[i] as u32) <= ('Z' as u32)
}

/// The canonical code that a string denotes: its upper case, when the table holds that.
pub open spec fn canonical_code(s: Seq<char>) -> Option<Seq<char>> {
    if is_iso_code(upper_of(s)) {
        Some(upper_of(s))
    } else {
        None
    }
}

/// Relies on `str::to_uppercase`: the upper case depends on the characters alone.
#[verifier::external_body]
fn to_upper(s: &str) -> (r: String)
    ensures
        r@ == upper_of(s@),
{
    s.to_uppercase()
}

/// Relies on `rusty_money::iso::find`, which matches the code exactly against the table.
/// Every alphabetic code there is three ASCII capitals, which `str::to_uppercase` keeps.
#[verifier::external_body]
fn find_iso(code: &str) -> (r: Option<String>)
    ensures
        r is Some <==> is_iso_code(code@),
        r matches Some(c) ==> c@ == code@ && is_alpha3(c@) && upper_of(c@) == c@,
{
    rusty_money::iso::find(code).map(|c| c.iso_alpha_code.to_string())
}

/// Relies on the `iso_alpha_code` field of a rusty_money ISO currency.
#[verifier::external_body]
fn iso_alpha_code(rmc: &IsoCurrency) -> (r: String) {
    rmc.iso_alpha_code.to_string()
}

/// A currency of the ISO-4217 table, held by its alphabetic code.
#[derive(Clone, Debug)]
pub struct Currency {
    pub code: String,
}

/// A string that names no currency of the table.
#[derive(Clone, Debug)]
pub struct CurrencyError {
    pub value: String,
}

impl PartialEq for Currency {
    fn eq(&self, other: &Currency) -> (r: bool) {
        self.code == other.code
    }
}

impl vstd::std_specs::cmp::PartialEqSpecImpl for Currency {
    open spec fn obeys_eq_spec() -> bool {
        true
    }

    open spec fn eq_spec(&self, other: &Currency) -> bool {
        self.code@ == other.code@
    }
}

impl Eq for Currency {
}

impl Currency {
    /// A currency that the table holds under its own upper-case code.
    pub open spec fn wf(&self) -> bool {
        canonical_code(self.code@) == Some(self.code@) && is_alpha3(self.code@)
    }

    /// The currency that a rusty_money ISO currency stands for.
    pub fn new(rmc: &IsoCurrency) -> (r: Currency) {
        Currency { code: iso_alpha_code(rmc) }
    }

    /// Reads a currency code, in any case: the currency whose code is its upper case,
    /// or an error naming the string when the table has no such code.
    pub fn from_code(s: &str) -> (r: Result<Currency, CurrencyError>)
        ensures
            r is Ok <==> canonical_code(s@) is Some,
            r matches Ok(c) ==> Some(c.code@) == canonical_code(s@) && c.wf(),
            r matches Err(e) ==> e.value@ == s@,
    {
        let up = to_upper(s);
        match find_iso(up.as_str()) {
            Some(code) => Ok(Currency { code }),
            None => Err(CurrencyError { value: s.to_string() }),
        }
    }

    /// The three-letter code, which is how a currency is written out.
    pub fn code(&self) -> (r: String)
        ensures
            r@ == self.code@,
    {
        self.code.clone()
    }

    /// A copy of the currency.
    pub fn duplicate(&self) -> (r: Currency)
        ensures
            r == *self,
    {
        Currency { code: self.code.clone() }
    }
}

impl CurrencyError {
    /// What went wrong, in words.
    pub fn message(&self) -> (r: String)
        ensures
            r@ == "invalid value: string \""@ + self.value@
                + "\", expected a 3-letter ISO-4217 currency code"@,
    {
        let mut m = String::from_str("invalid value: string \"");
        m.append(self.value.as_str());
        m.append("\", expected a 3-letter ISO-4217 currency code");
        m
    }
}

/// Writing a well-formed currency out as its code and reading that code back gives
/// the same currency.
pub proof fn currency_round_trip(c: Currency)
    requires
        c.wf(),
    ensures
        canonical_code(c.code@) == Some(c.code@),
{
}

} // verus!
