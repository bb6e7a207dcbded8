use vstd::prelude::*;
use crate::ratio::Ratio;

verus! {

/// Every failure the library reports to its callers.
#[derive(Clone, Copy, Debug, PartialEq, Eq, Structural)]
pub enum BankError {
    /// A currency code is not exactly three ASCII letters.
    InvalidCurrencyFormat,
    /// The rate service could not be reached (reported by the caller that
    /// performs the network request; nothing inside the library raises it).
    TransportFailure,
    /// The rate service's response does not have the expected shape.
    ParseFailure,
    /// The requested currency is absent from the fetched rate table.
    RateNotFound,
    /// A withdrawal asks for more than the current balance.
    InsufficientFunds,
    /// An exact-arithmetic result does not fit in the ratio representation.
    AmountOverflow,
}

impl BankError {
    /// A user-facing description of the failure.
    pub fn message(&self) -> (r: &'static str) {
        match self {
            BankError::InvalidCurrencyFormat => "Invalid currency format",
            BankError::TransportFailure => "Failed to fetch exchange rate",
            BankError::ParseFailure => "Malformed exchange rate response",
            BankError::RateNotFound => "Currency not found in API",
            BankError::InsufficientFunds => "Insufficient funds",
            BankError::AmountOverflow => "Amount out of representable range",
        }
    }
}

/// `c` is an ASCII letter, either case.
pub open spec fn is_ascii_letter(c: char) -> bool {
    (65 <= c as u32 && c as u32 <= 90) || (97 <= c as u32 && c as u32 <= 122)
}

/// `c` is an uppercase ASCII letter.
pub open spec fn is_upper_letter(c: char) -> bool {
    65 <= c as u32 && c as u32 <= 90
}

/// The uppercase counterpart of an ASCII letter; other characters unchanged.
pub open spec fn upper_char(c: char) -> char {
    if 97 <= c as u32 && c as u32 <= 122 {
        (((c as u32) - 32) as u8) as char
    } else {
        c
    }
}

/// The string is an acceptable raw currency code: exactly three ASCII letters.
pub open spec fn valid_code(s: Seq<char>) -> bool {
    s.len() == 3 && (forall|i: int| 0 <= i < s.len() ==> is_ascii_letter(#[trigger] s[i]))
}

/// The string with every ASCII letter uppercased.
pub open spec fn upper_seq(s: Seq<char>) -> Seq<char> {
    s.map_values(|c: char| upper_char(c))
}

/// The code of the reference currency, in which the balance is stored.
pub open spec fn usd_seq() -> Seq<char> {
    seq!['U', 'S', 'D']
}

/// Uppercase an ASCII letter; `None` when `c` is not a letter.
fn upper_letter_of(c: char) -> (r: Option<char>)
    ensures
        r is Some <==> is_ascii_letter(c),
        r matches Some(u) ==> u == upper_char(c) && is_upper_letter(u),
{
    let u = c as u32;
    if 65 <= u && u <= 90 {
        Some(c)
    } else if 97 <= u && u <= 122 {
        Some(((u - 32) as u8) as char)
    } else {
        None
    }
}

/// A validated currency code: exactly three uppercase ASCII letters.
#[derive(Debug)]
pub struct Currency(pub Vec<char>);

impl View for Currency {
    type V = Seq<char>;

    open spec fn view(&self) -> Seq<char> {
        self.0@
    }
}

impl Currency {
    /// The code is three uppercase ASCII letters.
    pub open spec fn wf(self) -> bool {
        self@.len() == 3 && (forall|i: int| 0 <= i < 3 ==> is_upper_letter(#[trigger] self@[i]))
    }

    /// Validate a raw code: accepted exactly when it is three ASCII letters,
    /// and normalized to uppercase on success.
    pub fn try_from(value: &str) -> (r: Result<Currency, BankError>)
        ensures
            r is Ok <==> valid_code(value@),
            r matches Ok(c) ==> c.wf() && c@ == upper_seq(value@),
            r matches Err(e) ==> e == BankError::InvalidCurrencyFormat,
    {
        let n = value.unicode_len();
        if n != 3 {
            return Err(BankError::InvalidCurrencyFormat);
        }
        let c0 = value.get_char(0);
        let c1 = value.get_char(1);
        let c2 = value.get_char(2);
        let u0 = upper_letter_of(c0);
        let u1 = upper_letter_of(c1);
        let u2 = upper_letter_of(c2);
        match (u0, u1, u2) {
            (Some(a), Some(b), Some(c)) => {
                let v = vec![a, b, c];
                proof {
                    assert(v@ =~= upper_seq(value@));
                }
                Ok(Currency(v))
            },
            _ => Err(BankError::InvalidCurrencyFormat),
        }
    }

    /// Whether two validated codes name the same currency.
    pub fn code_eq(&self, other: &Currency) -> (r: bool)
        requires
            self.wf(),
            other.wf(),
        ensures
            r == (self@ == other@),
    {
        let r = self.0[0] == other.0[0] && self.0[1] == other.0[1] && self.0[2] == other.0[2];
        proof {
            if r {
                assert(self@ =~= other@);
            } else {
                assert(self@ != other@) by {
                    if self@ == other@ {
                        assert(self@[0] == other@[0]);
                        assert(self@[1] == other@[1]);
                        assert(self@[2] == other@[2]);
                    }
                }
            }
        }
        r
    }

    /// A fresh value of the same currency.
    pub fn duplicate(&self) -> (r: Currency)
        requires
            self.wf(),
        ensures
            r.wf(),
            r@ == self@,
    {
        let v = vec![self.0[0], self.0[1], self.0[2]];
        proof {
            assert(v@ =~= self@);
        }
        Currency(v)
    }

    /// The reference currency, USD.
    pub fn reference() -> (r: Currency)
        ensures
            r.wf(),
            r@ == usd_seq(),
    {
        let v = vec!['U', 'S', 'D'];
        proof {
            assert(v@ =~= usd_seq());
        }
        Currency(v)
    }

    /// Whether this is the reference currency.
    pub fn is_reference(&self) -> (r: bool)
        requires
            self.wf(),
        ensures
            r == (self@ == usd_seq()),
    {
        let u = Currency::reference();
        self.code_eq(&u)
    }
}

/// The bank account: a single balance, always denominated in the
/// reference currency.
#[derive(Debug)]
pub struct Account {
    pub balance: Ratio,
}

impl Account {
    pub open spec fn wf(self) -> bool {
        self.balance.wf()
    }

    pub fn new(balance: Ratio) -> (r: Account)
        requires
            balance.wf(),
        ensures
            r.wf(),
            r.balance == balance,
    {
        Account { balance }
    }
}

/// The parsed body of the rate service's response: the quoted rate table
/// and the base-currency echo.
#[derive(Debug)]
pub struct ApiResponse {
    pub rates: RateTable,
    pub base: Currency,
}

impl ApiResponse {
    pub open spec fn wf(self) -> bool {
        self.rates.wf() && self.base.wf()
    }
}

/// A table of exchange rates: for each quoted currency, the multiplicative
/// rate from the table's base currency into that currency. Codes are unique
/// and every rate is strictly positive.
#[derive(Debug)]
pub struct RateTable {
    pub entries: Vec<(Currency, Ratio)>,
}

impl RateTable {
    pub open spec fn wf(self) -> bool {
        (forall|i: int| 0 <= i < self.entries@.len()
            ==> (#[trigger] self.entries@[i]).0.wf()
                && self.entries@[i].1.wf()
                && self.entries@[i].1.positive())
        && (forall|i: int, j: int| 0 <= i < j < self.entries@.len()
            ==> (#[trigger] self.entries@[i]).0@ != (#[trigger] self.entries@[j]).0@)
    }

    /// The table quotes a rate for `code`.
    pub open spec fn contains_code(self, code: Seq<char>) -> bool {
        exists|i: int| 0 <= i < self.entries@.len() && (#[trigger] self.entries@[i]).0@ == code
    }

    /// The position of `code` in the table, when it is quoted.
    pub open spec fn index_of(self, code: Seq<char>) -> int {
        choose|i: int| 0 <= i < self.entries@.len() && (#[trigger] self.entries@[i]).0@ == code
    }

    /// The rate quoted for `code`, when it is quoted.
    pub open spec fn rate_of(self, code: Seq<char>) -> Ratio {
        self.entries@[self.index_of(code)].1
    }

    /// A table that quotes nothing.
    pub fn empty() -> (r: RateTable)
        ensures
            r.wf(),
            r.entries@.len() == 0,
    {
        RateTable { entries: Vec::new() }
    }

    /// Find the rate quoted for `code`, if any.
    pub fn lookup(&self, code: &Currency) -> (r: Option<Ratio>)
        requires
            self.wf(),
            code.wf(),
        ensures
            r is Some <==> self.contains_code(code@),
            r matches Some(x) ==> x == self.rate_of(code@) && x.wf() && x.positive(),
    {
        let n = self.entries.len();
        let mut i: usize = 0;
        while i < n
            invariant
                self.wf(),
                code.wf(),
                n == self.entries@.len(),
                0 <= i <= n,
                forall|j: int| 0 <= j < i ==> (#[trigger] self.entries@[j]).0@ != code@,
            decreases n - i,
        {
            let e = &self.entries[i];
            if e.0.code_eq(code) {
                proof {
                    assert(self.contains_code(code@));
                    let k = self.index_of(code@);
                    assert(0 <= k < self.entries@.len() && self.entries@[k].0@ == code@);
                    if k < i as int {
                        assert(self.entries@[k].0@ != self.entries@[i as int].0@);
                    } else if k > i as int {
                        assert(self.entries@[i as int].0@ != self.entries@[k].0@);
                    }
                }
                return Some(e.1);
            }
            i += 1;
        }
        None
    }
}

} // verus!
