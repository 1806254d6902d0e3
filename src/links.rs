//! Addresses and titles that the bot's commands build from their arguments,
//! the exchange-rate row that the currency command looks for, and the
//! flattening of a quoted sentence onto one line.
use vstd::prelude::*;
use vstd::string::StringExecFns;
use crate::text::{chars_of, decimal, decimal_string, same_text, string_of};

verus! {

/// The address of the rendered image of a LaTeX formula.
pub fn latex_image_url(formula: &str) -> (r: String)
    ensures
        r@ == "https://latex.codecogs.com/png.latex?"@ + formula@,
{
    let mut r = String::from_str("https://latex.codecogs.com/png.latex?");
    r.append(formula);
    r
}

/// The title shown above a rendered formula.
pub fn latex_title(formula: &str) -> (r: String)
    ensures
        r@ == "LaTeX formula: "@ + formula@,
{
    let mut r = String::from_str("LaTeX formula: ");
    r.append(formula);
    r
}

/// The address of the metadata of comic number `id`.
pub fn xkcd_info_url(id: u32) -> (r: String)
    ensures
        r@ == "https://xkcd.com/"@ + decimal(id as nat) + "/info.0.json"@,
{
    let mut r = String::from_str("https://xkcd.com/");
    r.append(decimal_string(id as usize).as_str());
    r.append("/info.0.json");
    r
}

/// The title of comic number `id`.
pub fn xkcd_title(id: u32) -> (r: String)
    ensures
        r@ == "XKCD Comic #"@ + decimal(id as nat),
{
    let mut r = String::from_str("XKCD Comic #");
    r.append(decimal_string(id as usize).as_str());
    r
}

/// The address of the chart data of a stock symbol.
pub fn stock_chart_url(symbol: &str) -> (r: String)
    ensures
        r@ == "https://query1.finance.yahoo.com/v8/finance/chart/"@ + symbol@,
{
    let mut r = String::from_str("https://query1.finance.yahoo.com/v8/finance/chart/");
    r.append(symbol);
    r
}

/// A table row that quotes the dollar: at least five cells, the second
/// naming one US dollar.
pub open spec fn is_dollar_row(row: Seq<String>) -> bool {
    row.len() >= 5 && row[1]@ == "1 ABD DOLARI"@
}

/// The buying and selling rates of every dollar row, in order: the fourth
/// and sixth cell of each.
pub open spec fn dollar_rates(rows: Seq<Vec<String>>) -> Seq<Seq<char>>
    decreases rows.len(),
{
    if rows.len() == 0 {
        Seq::empty()
    } else {
        let row = rows.last()@;
        let before = dollar_rates(rows.drop_last());
        if is_dollar_row(row) {
            before.push(row[3]@).push(row[5]@)
        } else {
            before
        }
    }
}

/// The buying and selling rates read from the rows of the exchange-rate
/// table, each row given as the texts of its cells.
pub fn dollar_parity(rows: &Vec<Vec<String>>) -> (r: Vec<String>)
    requires
        forall|i: int| 0 <= i < rows@.len() && is_dollar_row(#[trigger] rows@[i]@) ==> rows@[i]@.len() >= 6,
    ensures
        r@.map_values(|s: String| s@) == dollar_rates(rows@),
{
    let mut parity: Vec<String> = Vec::new();
    let mut i: usize = 0;
    while i < rows.len()
        invariant
            i <= rows@.len(),
            forall|k: int| 0 <= k < rows@.len() && is_dollar_row(#[trigger] rows@[k]@) ==> rows@[k]@.len() >= 6,
            parity@.map_values(|s: String| s@) == dollar_rates(rows@.subrange(0, i as int)),
        decreases rows@.len() - i,
    {
        let row = &rows[i];
        let ghost before = parity@;
        assert(rows@.subrange(0, i + 1).drop_last() =~= rows@.subrange(0, i as int));
        if row.len() >= 5 && same_text(row[1].as_str(), "1 ABD DOLARI") {
            parity.push(row[3].clone());
            parity.push(row[5].clone());
            assert(parity@.map_values(|s: String| s@) =~= before.map_values(|s: String| s@).push(
                row@[3]@,
            ).push(row@[5]@));
        }
        i = i + 1;
    }
    assert(rows@.subrange(0, rows@.len() as int) =~= rows@);
    parity
}

/// A line break becomes a space; any other character stays.
pub open spec fn unbroken(c: char) -> char {
    if c == '\n' {
        ' '
    } else {
        c
    }
}

/// `sentence` with each line break replaced by a space.
pub fn one_line(sentence: &str) -> (r: String)
    ensures
        r@ == sentence@.map_values(|c: char| unbroken(c)),
{
    let chars = chars_of(sentence);
    let mut out: Vec<char> = Vec::new();
    let mut i: usize = 0;
    while i < chars.len()
        invariant
            i <= chars@.len(),
            out@ == chars@.subrange(0, i as int).map_values(|c: char| unbroken(c)),
        decreases chars@.len() - i,
    {
        let c = chars[i];
        out.push(if c == '\n' {
            ' '
        } else {
            c
        });
        assert(chars@.subrange(0, i + 1).map_values(|c: char| unbroken(c)) =~= chars@.subrange(
            0,
            i as int,
        ).map_values(|c: char| unbroken(c)).push(unbroken(c)));
        i = i + 1;
    }
    assert(chars@.subrange(0, chars@.len() as int) =~= chars@);
    string_of(&out)
}

} // verus!
