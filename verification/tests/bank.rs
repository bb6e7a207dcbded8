use toy_bank::api::{
    apply_transaction, convert_amount, convert_currency, convert_to_usd, deposit, get_balance,
    get_supported_currencies, parse_rates_response, withdraw, Transaction,
};
use toy_bank::decimal::parse_decimal;
use toy_bank::model::{Account, BankError, Currency, RateTable};
use toy_bank::ratio::Ratio;

fn currency(code: &str) -> Currency {
    Currency::try_from(code).unwrap()
}

fn table(pairs: &[(&str, &str)]) -> RateTable {
    let owned: Vec<(String, String)> = pairs
        .iter()
        .map(|(c, r)| (String::from(*c), String::from(*r)))
        .collect();
    parse_rates_response("USD", &owned).unwrap().rates
}

#[test]
fn currency_accepts_three_letters_uppercased() {
    let c = currency("usd");
    assert_eq!(c.0, vec!['U', 'S', 'D']);
    let c = currency("EuR");
    assert_eq!(c.0, vec!['E', 'U', 'R']);
}

#[test]
fn currency_rejects_wrong_shapes() {
    for bad in ["US", "US1", "USDD", "", "U D", "u5d", "12a", "..."] {
        assert_eq!(
            Currency::try_from(bad).unwrap_err(),
            BankError::InvalidCurrencyFormat
        );
    }
}

#[test]
fn parse_decimal_exact_values() {
    let q = parse_decimal("0.9").unwrap();
    assert_eq!((q.num, q.den), (9, 10));
    let q = parse_decimal("100").unwrap();
    assert_eq!((q.num, q.den), (100, 1));
    let q = parse_decimal("00.50").unwrap();
    assert_eq!((q.num, q.den), (50, 100));
    let q = parse_decimal("123.456").unwrap();
    assert_eq!((q.num, q.den), (123456, 1000));
}

#[test]
fn parse_decimal_rejects_malformed() {
    for bad in ["", ".", ".5", "5.", "1.2.3", "1,2", "-1", "1e3", " 1", "1234567890123456789"] {
        assert!(parse_decimal(bad).is_none(), "accepted {:?}", bad);
    }
    // eighteen digits are still within the cap
    assert!(parse_decimal("123456789012345678").is_some());
    assert!(parse_decimal("1234567890123456.78").is_some());
}

#[test]
fn parse_rates_builds_exact_table() {
    let resp_table = table(&[("EUR", "0.9"), ("gbp", "0.75"), ("JPY", "151.2")]);
    let eur = resp_table.lookup(&currency("EUR")).unwrap();
    assert_eq!((eur.num, eur.den), (9, 10));
    let gbp = resp_table.lookup(&currency("GBP")).unwrap();
    assert_eq!((gbp.num, gbp.den), (75, 100));
    let jpy = resp_table.lookup(&currency("JPY")).unwrap();
    assert_eq!((jpy.num, jpy.den), (1512, 10));
    assert!(resp_table.lookup(&currency("CHF")).is_none());
}

#[test]
fn parse_rates_rejects_bad_responses() {
    let cases: Vec<Vec<(String, String)>> = vec![
        vec![(String::from("EURO"), String::from("0.9"))],
        vec![(String::from("EUR"), String::from("0.9.1"))],
        vec![(String::from("EUR"), String::from("abc"))],
        vec![(String::from("EUR"), String::from("0"))],
        vec![(String::from("EUR"), String::from("0.00"))],
        vec![
            (String::from("EUR"), String::from("0.9")),
            (String::from("eur"), String::from("0.8")),
        ],
    ];
    for pairs in &cases {
        assert_eq!(
            parse_rates_response("USD", pairs).unwrap_err(),
            BankError::ParseFailure
        );
    }
    let ok = vec![(String::from("EUR"), String::from("0.9"))];
    assert_eq!(
        parse_rates_response("US_", &ok).unwrap_err(),
        BankError::ParseFailure
    );
    let resp = parse_rates_response("usd", &ok).unwrap();
    assert_eq!(resp.base.0, vec!['U', 'S', 'D']);
}

#[test]
fn convert_same_currency_is_identity_without_rates() {
    // an empty table: no network fetch could have happened
    let empty = RateTable::empty();
    let amount = Ratio { num: 12345, den: 100 };
    let r = convert_currency(&amount, &currency("eur"), &currency("EUR"), &empty).unwrap();
    assert_eq!((r.num, r.den), (12345, 100));
}

#[test]
fn convert_uses_target_rate() {
    let t = table(&[("EUR", "0.9")]);
    let hundred = Ratio::from_u64(100);
    let r = convert_currency(&hundred, &currency("USD"), &currency("EUR"), &t).unwrap();
    assert!(r.eq_value(&Ratio::from_u64(90)));
    let missing = convert_currency(&hundred, &currency("USD"), &currency("CHF"), &t).unwrap_err();
    assert_eq!(missing, BankError::RateNotFound);
}

#[test]
fn convert_to_reference_divides_by_usd_rate() {
    // {EUR: 0.9} with base USD: 90 EUR are exactly 100 USD
    let t = table(&[("EUR", "0.9")]);
    let r = convert_to_usd(&Ratio::from_u64(90), &currency("EUR"), &t).unwrap();
    assert!(r.eq_value(&Ratio::from_u64(100)));
    // USD needs no table at all
    let r = convert_to_usd(&Ratio::from_u64(42), &currency("USD"), &RateTable::empty()).unwrap();
    assert_eq!((r.num, r.den), (42, 1));
}

#[test]
fn convert_amount_validates_both_codes() {
    let t = table(&[("EUR", "0.9")]);
    let one = Ratio::from_u64(1);
    assert_eq!(
        convert_amount(&one, "EURO", "USD", &t).unwrap_err(),
        BankError::InvalidCurrencyFormat
    );
    assert_eq!(
        convert_amount(&one, "USD", "E1R", &t).unwrap_err(),
        BankError::InvalidCurrencyFormat
    );
    let r = convert_amount(&Ratio::from_u64(200), "usd", "eur", &t).unwrap();
    assert!(r.eq_value(&Ratio::from_u64(180)));
}

#[test]
fn deposit_converts_and_credits() {
    let t = table(&[("EUR", "0.9")]);
    let mut account = Account::new(Ratio::from_u64(1000));
    let new_balance = deposit(&mut account, &Ratio::from_u64(90), &currency("EUR"), &t).unwrap();
    assert!(new_balance.eq_value(&Ratio::from_u64(1100)));
    assert!(account.balance.eq_value(&Ratio::from_u64(1100)));
}

#[test]
fn deposit_unknown_currency_fails() {
    let t = table(&[("EUR", "0.9")]);
    let mut account = Account::new(Ratio::from_u64(1000));
    let e = deposit(&mut account, &Ratio::from_u64(5), &currency("CHF"), &t).unwrap_err();
    assert_eq!(e, BankError::RateNotFound);
    assert!(account.balance.eq_value(&Ratio::from_u64(1000)));
}

#[test]
fn deposit_then_withdraw_restores_balance() {
    // round trip within one rate-table snapshot
    let t = table(&[("EUR", "0.9")]);
    let mut account = Account::new(Ratio::from_u64(1000));
    deposit(&mut account, &Ratio::from_u64(90), &currency("EUR"), &t).unwrap();
    let back = withdraw(&mut account, &Ratio::from_u64(90), &currency("EUR"), &t).unwrap();
    assert!(back.eq_value(&Ratio::from_u64(1000)));
    assert!(account.balance.eq_value(&Ratio::from_u64(1000)));
}

#[test]
fn withdraw_insufficient_funds_leaves_balance() {
    let t = table(&[("EUR", "0.9")]);
    let mut account = Account::new(Ratio::from_u64(100));
    // 135 EUR are 150 USD, more than the balance
    let e = withdraw(&mut account, &Ratio::from_u64(135), &currency("EUR"), &t).unwrap_err();
    assert_eq!(e, BankError::InsufficientFunds);
    assert!(account.balance.eq_value(&Ratio::from_u64(100)));
    // exactly the balance still goes through
    let r = withdraw(&mut account, &Ratio::from_u64(90), &currency("EUR"), &t).unwrap();
    assert!(r.eq_value(&Ratio::from_u64(0)));
}

#[test]
fn serialized_deposit_and_withdrawal_lose_no_update() {
    let t = table(&[("EUR", "0.9")]);
    let a = Ratio::from_u64(90);
    let b = Ratio::from_u64(45);
    let eur = currency("EUR");

    let mut first = Account::new(Ratio::from_u64(1000));
    deposit(&mut first, &a, &eur, &t).unwrap();
    withdraw(&mut first, &b, &eur, &t).unwrap();

    let mut second = Account::new(Ratio::from_u64(1000));
    withdraw(&mut second, &b, &eur, &t).unwrap();
    deposit(&mut second, &a, &eur, &t).unwrap();

    // both orders end at exactly 1000 + 100 - 50 USD
    assert!(first.balance.eq_value(&second.balance));
    assert!(first.balance.eq_value(&Ratio::from_u64(1050)));
}

#[test]
fn get_balance_converts_outbound() {
    let t = table(&[("EUR", "0.9")]);
    let account = Account::new(Ratio::from_u64(100));
    let in_eur = get_balance(&account, &currency("EUR"), &t).unwrap();
    assert!(in_eur.eq_value(&Ratio { num: 90, den: 1 }));
    let in_usd = get_balance(&account, &currency("USD"), &RateTable::empty()).unwrap();
    assert_eq!((in_usd.num, in_usd.den), (100, 1));
    assert_eq!(
        get_balance(&account, &currency("CHF"), &t).unwrap_err(),
        BankError::RateNotFound
    );
}

#[test]
fn supported_currencies_are_exactly_the_table_keys() {
    let t = table(&[("EUR", "0.9"), ("GBP", "0.75"), ("JPY", "151.2")]);
    let listed = get_supported_currencies(&t);
    let mut codes: Vec<String> = listed.iter().map(|c| c.0.iter().collect()).collect();
    codes.sort();
    assert_eq!(codes, vec!["EUR", "GBP", "JPY"]);
}

#[test]
fn apply_transaction_dispatches_the_rule() {
    let mut account = Account::new(Ratio::from_u64(10));
    apply_transaction(&mut account, &Transaction::Credit(Ratio::from_u64(5))).unwrap();
    assert!(account.balance.eq_value(&Ratio::from_u64(15)));
    let e = apply_transaction(
        &mut account,
        &Transaction::DebitIfSufficient(Ratio::from_u64(20)),
    )
    .unwrap_err();
    assert_eq!(e, BankError::InsufficientFunds);
    assert!(account.balance.eq_value(&Ratio::from_u64(15)));
    apply_transaction(
        &mut account,
        &Transaction::DebitIfSufficient(Ratio::from_u64(15)),
    )
    .unwrap();
    assert!(account.balance.eq_value(&Ratio::from_u64(0)));
}

#[test]
fn ratio_arithmetic_is_exact_and_checked() {
    let a = Ratio { num: 1, den: 3 };
    let b = Ratio { num: 1, den: 6 };
    let s = a.checked_add(&b).unwrap();
    assert!(s.eq_value(&Ratio { num: 1, den: 2 }));
    let d = a.checked_sub(&b).unwrap();
    assert!(d.eq_value(&Ratio { num: 1, den: 6 }));
    let huge = Ratio { num: u64::MAX, den: 1 };
    assert!(huge.checked_add(&Ratio::from_u64(1)).is_none());
    assert!(huge.checked_mul(&huge).is_none());
}

#[test]
fn error_messages_name_each_failure() {
    assert_eq!(BankError::InsufficientFunds.message(), "Insufficient funds");
    assert_eq!(
        BankError::InvalidCurrencyFormat.message(),
        "Invalid currency format"
    );
    assert_eq!(BankError::RateNotFound.message(), "Currency not found in API");
}
