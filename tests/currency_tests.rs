use money_pools::currency::Currency;
use rusty_money::iso;

#[test]
fn dump_currency() {
    let c = Currency::new(iso::AMD);
    assert_eq!(format!("\"{}\"", c.code()), "\"AMD\"");
}

#[test]
fn parse_currency() {
    let parsed = Currency::from_code("EUR");
    assert!(parsed.is_ok());
    if let Ok(curr) = parsed {
        assert_eq!(curr, Currency::new(iso::EUR));
    }
}

#[test]
fn list_of_currencies() {
    let currencies = vec![iso::AMD, iso::USD, iso::UAH, iso::EUR, iso::GEL]
        .into_iter()
        .map(|c| Currency::new(c))
        .collect::<Vec<Currency>>();
    let dumped: Vec<String> = currencies.iter().map(|c| c.code()).collect();
    assert_eq!(dumped, vec!["AMD", "USD", "UAH", "EUR", "GEL"]);
    let loaded: Result<Vec<Currency>, _> = dumped.iter().map(|s| Currency::from_code(s)).collect();
    assert!(loaded.is_ok());
    assert_eq!(loaded.unwrap(), currencies)
}

#[test]
fn currency_round_trip_of_eur() {
    let c = Currency::from_code("EUR").unwrap();
    let back = Currency::from_code(&c.code()).unwrap();
    assert_eq!(back, c);
    assert_eq!(back.code(), "EUR");
}

#[test]
fn currency_code_is_read_in_any_case() {
    let c = Currency::from_code("eur").unwrap();
    assert_eq!(c.code(), "EUR");
    assert_eq!(c, Currency::new(iso::EUR));
    let mixed = Currency::from_code("gEl").unwrap();
    assert_eq!(mixed, Currency::new(iso::GEL));
}

#[test]
fn unknown_currency_code_is_an_invalid_value() {
    let err = Currency::from_code("XXX").unwrap_err();
    assert_eq!(err.value, "XXX");
    assert_eq!(
        err.message(),
        "invalid value: string \"XXX\", expected a 3-letter ISO-4217 currency code"
    );
    let lower = Currency::from_code("xxx").unwrap_err();
    assert_eq!(lower.value, "xxx");
    assert!(Currency::from_code("").is_err());
    assert!(Currency::from_code("EURO").is_err());
}

#[test]
fn currencies_differ_by_code() {
    assert_ne!(Currency::new(iso::USD), Currency::new(iso::EUR));
    assert_eq!(Currency::new(iso::USD).duplicate(), Currency::new(iso::USD));
}
