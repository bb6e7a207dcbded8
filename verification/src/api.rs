use vstd::prelude::*;
use crate::model::{Account, ApiResponse, BankError, Currency, RateTable, usd_seq, valid_code,
    upper_seq};
use crate::ratio::{Ratio, at_least, same_value};
use crate::decimal::{dec_shape_ok, dec_split_ok, dec_positive, dec_mantissa, dec_frac_len,
    digits_val, pow10, parse_decimal};

verus! {

/// A balance mutation, dispatched inside the exclusive section of the
/// account store. Keeping the rule as data lets every future balance rule
/// reuse the same locking discipline.
pub enum Transaction {
    /// Add the amount to the balance.
    Credit(Ratio),
    /// Subtract the amount, but only when the balance covers it.
    DebitIfSufficient(Ratio),
}

impl Transaction {
    pub open spec fn wf(self) -> bool {
        match self {
            Transaction::Credit(x) => x.wf(),
            Transaction::DebitIfSufficient(x) => x.wf(),
        }
    }
}

/// The exact sum of balance `b` and amount `x` fits the ratio representation.
pub open spec fn credit_fits(b: Ratio, x: Ratio) -> bool {
    b.num * x.den + x.num * b.den <= u64::MAX && b.den * x.den <= u64::MAX
}

/// The exact difference of balance `b` and amount `x` fits the ratio
/// representation.
pub open spec fn debit_fits(b: Ratio, x: Ratio) -> bool {
    b.num * x.den - x.num * b.den <= u64::MAX && b.den * x.den <= u64::MAX
}

/// Apply one balance mutation. The caller holds the account exclusively
/// (`&mut`), which is the mutual-exclusion discipline: at most one mutation
/// is in progress, and it either completes or leaves the balance untouched.
pub fn apply_transaction(account: &mut Account, op: &Transaction) -> (r: Result<(), BankError>)
    requires
        old(account).wf(),
        op.wf(),
    ensures
        final(account).wf(),
        match *op {
            Transaction::Credit(x) => {
                &&& (r is Ok <==> credit_fits(old(account).balance, x))
                &&& (r is Ok ==> final(account).balance.num == old(account).balance.num * x.den
                    + x.num * old(account).balance.den && final(account).balance.den == old(account).balance.den * x.den)
                &&& (r is Err ==> *final(account) == *old(account) && r == Err::<(), BankError>(
                    BankError::AmountOverflow,
                ))
            },
            Transaction::DebitIfSufficient(x) => {
                &&& (!at_least(old(account).balance, x) ==> r == Err::<(), BankError>(
                    BankError::InsufficientFunds,
                ) && *final(account) == *old(account))
                &&& (at_least(old(account).balance, x) ==> {
                    &&& (r is Ok <==> debit_fits(old(account).balance, x))
                    &&& (r is Ok ==> final(account).balance.num == old(account).balance.num * x.den
                        - x.num * old(account).balance.den && final(account).balance.den == old(account).balance.den * x.den)
                    &&& (r is Err ==> *final(account) == *old(account) && r == Err::<(), BankError>(
                        BankError::AmountOverflow,
                    ))
                })
            },
        },
{
    match op {
        Transaction::Credit(x) => {
            match account.balance.checked_add(x) {
                Some(nb) => {
                    account.balance = nb;
                    Ok(())
                },
                None => Err(BankError::AmountOverflow),
            }
        },
        Transaction::DebitIfSufficient(x) => {
            if !account.balance.ge_value(x) {
                return Err(BankError::InsufficientFunds);
            }
            match account.balance.checked_sub(x) {
                Some(nb) => {
                    account.balance = nb;
                    Ok(())
                },
                None => Err(BankError::AmountOverflow),
            }
        },
    }
}

/// Convert `amount` from one currency to another with a rate table whose
/// base is `from`. Identical currencies convert to the amount itself, and
/// the table is not consulted at all, so the caller need not fetch one.
pub fn convert_currency(amount: &Ratio, from: &Currency, to: &Currency, rates: &RateTable) -> (r:
    Result<Ratio, BankError>)
    requires
        amount.wf(),
        from.wf(),
        to.wf(),
        rates.wf(),
    ensures
        from@ == to@ ==> r == Ok::<Ratio, BankError>(*amount),
        from@ != to@ && !rates.contains_code(to@) ==> r == Err::<Ratio, BankError>(
            BankError::RateNotFound,
        ),
        from@ != to@ && rates.contains_code(to@) ==> ({
            let rate = rates.rate_of(to@);
            &&& (r is Ok <==> amount.num * rate.num <= u64::MAX && amount.den * rate.den
                <= u64::MAX)
            &&& (r matches Ok(c) ==> c.wf() && c.num == amount.num * rate.num && c.den == amount.den
                * rate.den)
            &&& (r is Err ==> r == Err::<Ratio, BankError>(BankError::AmountOverflow))
        }),
{
    if from.code_eq(to) {
        return Ok(*amount);
    }
    match rates.lookup(to) {
        None => Err(BankError::RateNotFound),
        Some(rate) => match amount.checked_mul(&rate) {
            Some(c) => Ok(c),
            None => Err(BankError::AmountOverflow),
        },
    }
}

/// Normalize `amount` into the reference currency with a table whose base
/// is the reference currency itself: the table quotes USD -> `from`, so the
/// inbound conversion divides by that rate. Using the one USD-based table
/// for every inbound conversion keeps a deposit and a withdrawal within the
/// same snapshot exactly inverse to each other.
pub fn convert_to_usd(amount: &Ratio, from: &Currency, usd_rates: &RateTable) -> (r: Result<
    Ratio,
    BankError,
>)
    requires
        amount.wf(),
        from.wf(),
        usd_rates.wf(),
    ensures
        from@ == usd_seq() ==> r == Ok::<Ratio, BankError>(*amount),
        from@ != usd_seq() && !usd_rates.contains_code(from@) ==> r == Err::<Ratio, BankError>(
            BankError::RateNotFound,
        ),
        from@ != usd_seq() && usd_rates.contains_code(from@) ==> ({
            let rate = usd_rates.rate_of(from@);
            &&& (r is Ok <==> amount.num * rate.den <= u64::MAX && amount.den * rate.num
                <= u64::MAX)
            &&& (r matches Ok(c) ==> c.wf() && c.num == amount.num * rate.den && c.den == amount.den
                * rate.num)
            &&& (r is Err ==> r == Err::<Ratio, BankError>(BankError::AmountOverflow))
        }),
{
    if from.is_reference() {
        return Ok(*amount);
    }
    match usd_rates.lookup(from) {
        None => Err(BankError::RateNotFound),
        Some(rate) => match amount.checked_div(&rate) {
            Some(c) => Ok(c),
            None => Err(BankError::AmountOverflow),
        },
    }
}

/// The numerator of `amount` converted into the reference currency.
pub open spec fn usd_num(amount: Ratio, from: Seq<char>, t: RateTable) -> int {
    if from == usd_seq() {
        amount.num as int
    } else {
        amount.num * t.rate_of(from).den
    }
}

/// The denominator of `amount` converted into the reference currency.
pub open spec fn usd_den(amount: Ratio, from: Seq<char>, t: RateTable) -> int {
    if from == usd_seq() {
        amount.den as int
    } else {
        amount.den * t.rate_of(from).num
    }
}

/// `amount` can be converted into the reference currency with table `t`:
/// the currency is quoted (or already the reference) and the exact result
/// fits the ratio representation.
pub open spec fn usd_convertible(amount: Ratio, from: Seq<char>, t: RateTable) -> bool {
    (from == usd_seq() || t.contains_code(from)) && usd_num(amount, from, t) <= u64::MAX && usd_den(
        amount,
        from,
        t,
    ) <= u64::MAX
}

/// Deposit `amount`, given in `currency`, converting it into the reference
/// currency with the USD-based table; returns the new balance.
pub fn deposit(account: &mut Account, amount: &Ratio, currency: &Currency, usd_rates: &RateTable)
    -> (r: Result<Ratio, BankError>)
    requires
        old(account).wf(),
        amount.wf(),
        currency.wf(),
        usd_rates.wf(),
    ensures
        final(account).wf(),
        currency@ != usd_seq() && !usd_rates.contains_code(currency@) ==> r == Err::<
            Ratio,
            BankError,
        >(BankError::RateNotFound) && *final(account) == *old(account),
        (currency@ == usd_seq() || usd_rates.contains_code(currency@)) ==> ({
            let un = usd_num(*amount, currency@, *usd_rates);
            let ud = usd_den(*amount, currency@, *usd_rates);
            let b0 = old(account).balance;
            &&& (r is Ok <==> usd_convertible(*amount, currency@, *usd_rates) && b0.num * ud
                + un * b0.den <= u64::MAX && b0.den * ud <= u64::MAX)
            &&& (r is Ok ==> final(account).balance.num == b0.num * ud + un * b0.den && final(account).balance.den == b0.den * ud && r == Ok::<Ratio, BankError>(final(account).balance))
            &&& (r is Err ==> *final(account) == *old(account) && r == Err::<Ratio, BankError>(
                BankError::AmountOverflow,
            ))
        }),
{
    let usd_amount = match convert_to_usd(amount, currency, usd_rates) {
        Ok(u) => u,
        Err(e) => {
            return Err(e);
        },
    };
    match apply_transaction(account, &Transaction::Credit(usd_amount)) {
        Ok(()) => Ok(account.balance),
        Err(e) => Err(e),
    }
}

/// Withdraw `amount`, given in `currency`, converting it into the reference
/// currency with the USD-based table; fails with `InsufficientFunds` when
/// the converted amount exceeds the balance, leaving the balance unchanged.
pub fn withdraw(account: &mut Account, amount: &Ratio, currency: &Currency, usd_rates: &RateTable)
    -> (r: Result<Ratio, BankError>)
    requires
        old(account).wf(),
        amount.wf(),
        currency.wf(),
        usd_rates.wf(),
    ensures
        final(account).wf(),
        currency@ != usd_seq() && !usd_rates.contains_code(currency@) ==> r == Err::<
            Ratio,
            BankError,
        >(BankError::RateNotFound) && *final(account) == *old(account),
        (currency@ == usd_seq() || usd_rates.contains_code(currency@)) ==> ({
            let un = usd_num(*amount, currency@, *usd_rates);
            let ud = usd_den(*amount, currency@, *usd_rates);
            let b0 = old(account).balance;
            &&& (!usd_convertible(*amount, currency@, *usd_rates) ==> r == Err::<Ratio, BankError>(
                BankError::AmountOverflow,
            ) && *final(account) == *old(account))
            &&& (usd_convertible(*amount, currency@, *usd_rates) && b0.num * ud < un * b0.den ==> r
                == Err::<Ratio, BankError>(BankError::InsufficientFunds) && *final(account) == *old(account))
            &&& (usd_convertible(*amount, currency@, *usd_rates) && b0.num * ud >= un * b0.den
                ==> {
                &&& (r is Ok <==> b0.num * ud - un * b0.den <= u64::MAX && b0.den * ud <= u64::MAX)
                &&& (r is Ok ==> final(account).balance.num == b0.num * ud - un * b0.den && final(account).balance.den == b0.den * ud && r == Ok::<Ratio, BankError>(final(account).balance))
                &&& (r is Err ==> *final(account) == *old(account) && r == Err::<Ratio, BankError>(
                    BankError::AmountOverflow,
                ))
            })
        }),
{
    let usd_amount = match convert_to_usd(amount, currency, usd_rates) {
        Ok(u) => u,
        Err(e) => {
            return Err(e);
        },
    };
    match apply_transaction(account, &Transaction::DebitIfSufficient(usd_amount)) {
        Ok(()) => Ok(account.balance),
        Err(e) => Err(e),
    }
}

/// Read the balance, converted into the requested currency with a table
/// whose base is the reference currency. The account is only read; the
/// caller performs any network fetch before calling, outside the lock.
pub fn get_balance(account: &Account, currency: &Currency, usd_rates: &RateTable) -> (r: Result<
    Ratio,
    BankError,
>)
    requires
        account.wf(),
        currency.wf(),
        usd_rates.wf(),
    ensures
        currency@ == usd_seq() ==> r == Ok::<Ratio, BankError>(account.balance),
        currency@ != usd_seq() && !usd_rates.contains_code(currency@) ==> r == Err::<
            Ratio,
            BankError,
        >(BankError::RateNotFound),
        currency@ != usd_seq() && usd_rates.contains_code(currency@) ==> ({
            let rate = usd_rates.rate_of(currency@);
            &&& (r is Ok <==> account.balance.num * rate.num <= u64::MAX && account.balance.den
                * rate.den <= u64::MAX)
            &&& (r matches Ok(c) ==> c.wf() && c.num == account.balance.num * rate.num && c.den
                == account.balance.den * rate.den)
            &&& (r is Err ==> r == Err::<Ratio, BankError>(BankError::AmountOverflow))
        }),
{
    let usd = Currency::reference();
    convert_currency(&account.balance, &usd, currency, usd_rates)
}

/// The key set of the fetched rate table: every quoted currency code, and
/// no others, in table order.
pub fn get_supported_currencies(rates: &RateTable) -> (r: Vec<Currency>)
    requires
        rates.wf(),
    ensures
        r@.len() == rates.entries@.len(),
        forall|i: int| 0 <= i < r@.len() ==> (#[trigger] r@[i]).wf() && r@[i]@
            == rates.entries@[i].0@,
        forall|code: Seq<char>| rates.contains_code(code) <==> exists|i: int|
            0 <= i < r@.len() && (#[trigger] r@[i])@ == code,
{
    let n = rates.entries.len();
    let mut out: Vec<Currency> = Vec::new();
    let mut i: usize = 0;
    while i < n
        invariant
            rates.wf(),
            n == rates.entries@.len(),
            0 <= i <= n,
            out@.len() == i,
            forall|j: int| 0 <= j < i ==> (#[trigger] out@[j]).wf() && out@[j]@
                == rates.entries@[j].0@,
        decreases n - i,
    {
        let e = &rates.entries[i];
        out.push(e.0.duplicate());
        i += 1;
    }
    proof {
        assert forall|code: Seq<char>| rates.contains_code(code) implies (exists|j: int|
            0 <= j < out@.len() && (#[trigger] out@[j])@ == code) by {
            let j = choose|j: int|
                0 <= j < rates.entries@.len() && (#[trigger] rates.entries@[j]).0@ == code;
            assert(out@[j]@ == code);
        }
        assert forall|code: Seq<char>| (exists|j: int|
            0 <= j < out@.len() && (#[trigger] out@[j])@ == code) implies rates.contains_code(
            code,
        ) by {
            let j = choose|j: int| 0 <= j < out@.len() && (#[trigger] out@[j])@ == code;
            assert(rates.entries@[j].0@ == code);
        }
    }
    out
}

/// Convert `amount` between two raw currency codes: both are validated,
/// then converted with a table whose base is the (normalized) `from` code.
pub fn convert_amount(amount: &Ratio, from: &str, to: &str, rates: &RateTable) -> (r: Result<
    Ratio,
    BankError,
>)
    requires
        amount.wf(),
        rates.wf(),
    ensures
        !valid_code(from@) || !valid_code(to@) ==> r == Err::<Ratio, BankError>(
            BankError::InvalidCurrencyFormat,
        ),
        valid_code(from@) && valid_code(to@) ==> ({
            let f = upper_seq(from@);
            let t = upper_seq(to@);
            &&& (f == t ==> r == Ok::<Ratio, BankError>(*amount))
            &&& (f != t && !rates.contains_code(t) ==> r == Err::<Ratio, BankError>(
                BankError::RateNotFound,
            ))
            &&& (f != t && rates.contains_code(t) ==> ({
                let rate = rates.rate_of(t);
                &&& (r is Ok <==> amount.num * rate.num <= u64::MAX && amount.den * rate.den
                    <= u64::MAX)
                &&& (r matches Ok(c) ==> c.wf() && c.num == amount.num * rate.num && c.den
                    == amount.den * rate.den)
                &&& (r is Err ==> r == Err::<Ratio, BankError>(BankError::AmountOverflow))
            }))
        }),
{
    let from_c = match Currency::try_from(from) {
        Ok(c) => c,
        Err(e) => {
            return Err(e);
        },
    };
    let to_c = match Currency::try_from(to) {
        Ok(c) => c,
        Err(e) => {
            return Err(e);
        },
    };
    convert_currency(amount, &from_c, &to_c, rates)
}

/// One rate entry of a response is acceptable: a valid currency code and a
/// positive decimal literal for the rate.
pub open spec fn entry_ok(code: Seq<char>, rate: Seq<char>) -> bool {
    valid_code(code) && dec_shape_ok(rate) && dec_positive(rate)
}

/// A fetched response is acceptable: a valid base code, every entry
/// acceptable, and no two entries naming the same currency.
pub open spec fn response_ok(base: Seq<char>, pairs: Seq<(String, String)>) -> bool {
    &&& valid_code(base)
    &&& (forall|i: int| 0 <= i < pairs.len() ==> entry_ok((#[trigger] pairs[i]).0@, pairs[i].1@))
    &&& (forall|i: int, j: int| 0 <= i < j < pairs.len() ==> upper_seq((#[trigger] pairs[i]).0@)
        != upper_seq((#[trigger] pairs[j]).0@))
}

/// Turn the plain values of a fetched rate response (base echo and
/// code/rate pairs, the rates written as decimal literals) into a validated
/// rate table; any shape violation is a `ParseFailure`.
pub fn parse_rates_response(base: &str, pairs: &Vec<(String, String)>) -> (r: Result<
    ApiResponse,
    BankError,
>)
    ensures
        r is Ok <==> response_ok(base@, pairs@),
        r matches Ok(resp) ==> resp.wf() && resp.base@ == upper_seq(base@)
            && resp.rates.entries@.len() == pairs@.len() && (forall|i: int|
            0 <= i < pairs@.len() ==> (#[trigger] resp.rates.entries@[i]).0@ == upper_seq(
                pairs@[i].0@,
            ) && (forall|k: int| dec_split_ok(pairs@[i].1@, k)
                ==> resp.rates.entries@[i].1.num == digits_val(dec_mantissa(pairs@[i].1@, k))
                    && resp.rates.entries@[i].1.den == pow10(
                    dec_frac_len(pairs@[i].1@, k) as nat,
                ))),
        r matches Err(e) ==> e == BankError::ParseFailure,
{
    let base_c = match Currency::try_from(base) {
        Ok(c) => c,
        Err(_) => {
            return Err(BankError::ParseFailure);
        },
    };
    let n = pairs.len();
    let mut entries: Vec<(Currency, Ratio)> = Vec::new();
    let mut i: usize = 0;
    while i < n
        invariant
            n == pairs@.len(),
            0 <= i <= n,
            entries@.len() == i,
            forall|j: int| 0 <= j < i ==> (#[trigger] entries@[j]).0.wf() && entries@[j].1.wf()
                && entries@[j].1.positive(),
            forall|j: int| 0 <= j < i ==> (#[trigger] entries@[j]).0@ == upper_seq(pairs@[j].0@),
            forall|j: int| 0 <= j < i ==> entry_ok((#[trigger] pairs@[j]).0@, pairs@[j].1@),
            forall|j1: int, j2: int| 0 <= j1 < j2 < i ==> (#[trigger] entries@[j1]).0@
                != (#[trigger] entries@[j2]).0@,
            forall|j: int| 0 <= j < i ==> (forall|k: int| dec_split_ok(pairs@[j].1@, k)
                ==> (#[trigger] entries@[j]).1.num == digits_val(dec_mantissa(pairs@[j].1@, k))
                    && entries@[j].1.den == pow10(dec_frac_len(pairs@[j].1@, k) as nat)),
        decreases n - i,
    {
        let p = &pairs[i];
        let code = match Currency::try_from(p.0.as_str()) {
            Ok(c) => c,
            Err(_) => {
                proof {
                    assert(!entry_ok(pairs@[i as int].0@, pairs@[i as int].1@));
                }
                return Err(BankError::ParseFailure);
            },
        };
        let rate = match parse_decimal(p.1.as_str()) {
            Some(q) => q,
            None => {
                proof {
                    assert(!entry_ok(pairs@[i as int].0@, pairs@[i as int].1@));
                }
                return Err(BankError::ParseFailure);
            },
        };
        if rate.num == 0 {
            proof {
                assert(!dec_positive(pairs@[i as int].1@)) by {
                    if dec_positive(pairs@[i as int].1@) {
                        let k = choose|k: int|
                            dec_split_ok(pairs@[i as int].1@, k) && digits_val(
                                dec_mantissa(pairs@[i as int].1@, k),
                            ) >= 1;
                        assert(rate.num == digits_val(dec_mantissa(pairs@[i as int].1@, k)));
                    }
                }
            }
            return Err(BankError::ParseFailure);
        }
        let mut j: usize = 0;
        let mut dup = false;
        while j < i
            invariant
                0 <= j <= i,
                i == entries@.len(),
                code.wf(),
                forall|jj: int| 0 <= jj < i ==> (#[trigger] entries@[jj]).0.wf(),
                !dup ==> (forall|jj: int| 0 <= jj < j ==> (#[trigger] entries@[jj]).0@ != code@),
                dup ==> (exists|jj: int| 0 <= jj < i && (#[trigger] entries@[jj]).0@ == code@),
            decreases i - j,
        {
            if entries[j].0.code_eq(&code) {
                dup = true;
            }
            j += 1;
        }
        if dup {
            proof {
                assert(!response_ok(base@, pairs@)) by {
                    if response_ok(base@, pairs@) {
                        let jj = choose|jj: int|
                            0 <= jj < i && (#[trigger] entries@[jj]).0@ == code@;
                        assert(upper_seq(pairs@[jj].0@) != upper_seq(pairs@[i as int].0@));
                    }
                }
            }
            return Err(BankError::ParseFailure);
        }
        entries.push((code, rate));
        i += 1;
    }
    let table = RateTable { entries };
    let resp = ApiResponse { rates: table, base: base_c };
    proof {
        assert(response_ok(base@, pairs@)) by {
            assert forall|j1: int, j2: int| 0 <= j1 < j2 < pairs@.len() implies upper_seq(
                (#[trigger] pairs@[j1]).0@,
            ) != upper_seq((#[trigger] pairs@[j2]).0@) by {
                assert(resp.rates.entries@[j1].0@ == upper_seq(pairs@[j1].0@));
                assert(resp.rates.entries@[j2].0@ == upper_seq(pairs@[j2].0@));
            }
        }
    }
    Ok(resp)
}

/// Law: crediting a converted amount and then debiting the very same
/// converted amount restores the balance's value exactly, and the debit's
/// sufficiency check is guaranteed to pass. Within one rate-table snapshot
/// the inbound conversion is deterministic, so a deposit followed by a
/// withdrawal of the same amount in the same currency produces exactly this
/// pair of mutations.
pub proof fn lemma_deposit_withdraw_round_trip(b0: Ratio, x: Ratio, b1: Ratio, b2: Ratio)
    requires
        b0.wf(),
        x.wf(),
        b1.num == b0.num * x.den + x.num * b0.den,
        b1.den == b0.den * x.den,
        b2.num == b1.num * x.den - x.num * b1.den,
        b2.den == b1.den * x.den,
    ensures
        at_least(b1, x),
        same_value(b2, b0),
{
    assert(b1.num * x.den >= x.num * b1.den) by (nonlinear_arith)
        requires
            b1.num == b0.num * x.den + x.num * b0.den,
            b1.den == b0.den * x.den,
            b0.num >= 0,
            b0.den >= 0,
            x.num >= 0,
            x.den >= 0,
    ;
    assert(b2.num * b0.den == b0.num * b2.den) by (nonlinear_arith)
        requires
            b1.num == b0.num * x.den + x.num * b0.den,
            b1.den == b0.den * x.den,
            b2.num == b1.num * x.den - x.num * b1.den,
            b2.den == b1.den * x.den,
    ;
}

/// Law: within one rate-table snapshot, depositing an amount and then
/// withdrawing the very same amount in the same currency returns the
/// balance to its pre-deposit value exactly, and the withdrawal can never
/// fail for insufficient funds. `b1` and `b2` are the balances that
/// `deposit` and `withdraw` leave behind, as their contracts state them.
pub proof fn lemma_round_trip_within_snapshot(
    b0: Ratio,
    amount: Ratio,
    from: Seq<char>,
    t: RateTable,
    b1: Ratio,
    b2: Ratio,
)
    requires
        b0.wf(),
        amount.wf(),
        t.wf(),
        from == usd_seq() || t.contains_code(from),
        usd_convertible(amount, from, t),
        b1.num == b0.num * usd_den(amount, from, t) + usd_num(amount, from, t) * b0.den,
        b1.den == b0.den * usd_den(amount, from, t),
        b2.num == b1.num * usd_den(amount, from, t) - usd_num(amount, from, t) * b1.den,
        b2.den == b1.den * usd_den(amount, from, t),
    ensures
        b1.num * usd_den(amount, from, t) >= usd_num(amount, from, t) * b1.den,
        same_value(b2, b0),
{
    let un = usd_num(amount, from, t);
    let ud = usd_den(amount, from, t);
    if from == usd_seq() {
        assert(ud >= 1);
    } else {
        let rate = t.rate_of(from);
        assert(rate.positive() && rate.wf()) by {
            let k = t.index_of(from);
            assert(0 <= k < t.entries@.len() && t.entries@[k].0@ == from);
        }
        assert(amount.den * rate.num >= 1) by (nonlinear_arith)
            requires
                amount.den >= 1,
                rate.num >= 1,
        ;
    }
    let x = Ratio { num: un as u64, den: ud as u64 };
    lemma_deposit_withdraw_round_trip(b0, x, b1, b2);
}

/// Law: a credit of `a` and a debit of `b`, serialized in either order,
/// leave the balance's value at exactly the initial value plus `a` minus
/// `b` - no update is lost, whichever mutation wins the lock first.
pub proof fn lemma_no_lost_update(
    b0: Ratio,
    a: Ratio,
    b: Ratio,
    c1: Ratio,
    c2: Ratio,
    d1: Ratio,
    d2: Ratio,
)
    requires
        b0.wf(),
        a.wf(),
        b.wf(),
        // first order: credit `a`, then debit `b`
        c1.num == b0.num * a.den + a.num * b0.den,
        c1.den == b0.den * a.den,
        c2.num == c1.num * b.den - b.num * c1.den,
        c2.den == c1.den * b.den,
        // second order: debit `b`, then credit `a`
        d1.num == b0.num * b.den - b.num * b0.den,
        d1.den == b0.den * b.den,
        d2.num == d1.num * a.den + a.num * d1.den,
        d2.den == d1.den * a.den,
    ensures
        same_value(c2, d2),
        c2.num * (b0.den * (a.den * b.den)) == (b0.num * (a.den * b.den) + a.num * (b0.den * b.den)
            - b.num * (b0.den * a.den)) * c2.den,
{
    assert(c2.num * d2.den == d2.num * c2.den) by (nonlinear_arith)
        requires
            c1.num == b0.num * a.den + a.num * b0.den,
            c1.den == b0.den * a.den,
            c2.num == c1.num * b.den - b.num * c1.den,
            c2.den == c1.den * b.den,
            d1.num == b0.num * b.den - b.num * b0.den,
            d1.den == b0.den * b.den,
            d2.num == d1.num * a.den + a.num * d1.den,
            d2.den == d1.den * a.den,
    ;
    assert(c2.num * (b0.den * (a.den * b.den)) == (b0.num * (a.den * b.den) + a.num * (b0.den
        * b.den) - b.num * (b0.den * a.den)) * c2.den) by (nonlinear_arith)
        requires
            c1.num == b0.num * a.den + a.num * b0.den,
            c1.den == b0.den * a.den,
            c2.num == c1.num * b.den - b.num * c1.den,
            c2.den == c1.den * b.den,
    ;
}

} // verus!
