use bytie::links::{dollar_parity, latex_image_url, latex_title, one_line, stock_chart_url, xkcd_info_url, xkcd_title};

#[test]
fn latex_links() {
    assert_eq!(latex_image_url("x^2"), "https://latex.codecogs.com/png.latex?x^2");
    assert_eq!(latex_title("x^2"), "LaTeX formula: x^2");
}

#[test]
fn xkcd_links() {
    assert_eq!(xkcd_info_url(353), "https://xkcd.com/353/info.0.json");
    assert_eq!(xkcd_title(0), "XKCD Comic #0");
}

#[test]
fn stock_link() {
    assert_eq!(stock_chart_url("AAPL"), "https://query1.finance.yahoo.com/v8/finance/chart/AAPL");
}

fn row(cells: &[&str]) -> Vec<String> {
    cells.iter().map(|c| c.to_string()).collect()
}

#[test]
fn dollar_rows_give_rates() {
    let rows = vec![
        row(&["", "1 EURO", "", "36,1", "", "36,2"]),
        row(&["", "1 ABD DOLARI", "", "32,10", "", "32,20"]),
        row(&["", "1 ABD DOLARI"]),
    ];
    assert_eq!(dollar_parity(&rows), vec![String::from("32,10"), String::from("32,20")]);
    assert_eq!(dollar_parity(&vec![]), Vec::<String>::new());
}

#[test]
fn sentence_on_one_line() {
    assert_eq!(one_line("How to\nstart a\n\nstartup."), "How to start a  startup.");
    assert_eq!(one_line("plain"), "plain");
    assert_eq!(one_line(""), "");
}
