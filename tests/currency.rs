use bytie::currency::currency_symbol;

#[test]
fn known_currency_symbols() {
    assert_eq!(currency_symbol("USD"), "$");
    assert_eq!(currency_symbol("EUR"), "€");
    assert_eq!(currency_symbol("TRY"), "₺");
    assert_eq!(currency_symbol("GBP"), "£");
    assert_eq!(currency_symbol("JPY"), "¥");
    assert_eq!(currency_symbol("CNY"), "¥");
}

#[test]
fn unknown_currency_has_no_symbol() {
    assert_eq!(currency_symbol("CHF"), "");
    assert_eq!(currency_symbol("usd"), "");
    assert_eq!(currency_symbol("USDX"), "");
    assert_eq!(currency_symbol(""), "");
}
