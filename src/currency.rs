//! Currency codes and their symbols.
use vstd::prelude::*;
use crate::text::same_text;
use vstd::string::StringExecFns;

verus! {

/// The symbol of a currency code; empty for a code without one.
pub open spec fn symbol_of(code: Seq<char>) -> Seq<char> {
    if code == "USD"@ {
        "$"@
    } else if code == "EUR"@ {
        "€"@
    } else if code == "TRY"@ {
        "₺"@
    } else if code == "GBP"@ {
        "£"@
    } else if code == "JPY"@ || code == "CNY"@ {
        "¥"@
    } else {
        ""@
    }
}

/// The symbol of the currency with ISO code `currency`.
pub fn currency_symbol(currency: &str) -> (r: String)
    ensures
        r@ == symbol_of(currency@),
{
    let symbol = if same_text(currency, "USD") {
        "$"
    } else if same_text(currency, "EUR") {
        "€"
    } else if same_text(currency, "TRY") {
        "₺"
    } else if same_text(currency, "GBP") {
        "£"
    } else if same_text(currency, "JPY") || same_text(currency, "CNY") {
        "¥"
    } else {
        ""
    };
    String::from_str(symbol)
}

} // verus!
