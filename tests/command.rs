use bytie::command::{is_white_space, parse_ascii_codes, parse_byte, select_inputs};

fn chars(s: &str) -> Vec<char> {
    s.chars().collect()
}

#[test]
fn byte_tokens() {
    assert_eq!(parse_byte(&chars("0")), Some(0));
    assert_eq!(parse_byte(&chars("255")), Some(255));
    assert_eq!(parse_byte(&chars("+7")), Some(7));
    assert_eq!(parse_byte(&chars("007")), Some(7));
    assert_eq!(parse_byte(&chars("256")), None);
    assert_eq!(parse_byte(&chars("99999999999")), None);
    assert_eq!(parse_byte(&chars("-1")), None);
    assert_eq!(parse_byte(&chars("+")), None);
    assert_eq!(parse_byte(&chars("")), None);
    assert_eq!(parse_byte(&chars("1a")), None);
}

#[test]
fn byte_tokens_agree_with_std() {
    for t in ["0", "12", "255", "256", "+3", "-3", "+", "", " 1", "1 ", "x", "0255", "1000"] {
        assert_eq!(parse_byte(&chars(t)), t.parse::<u8>().ok(), "token {:?}", t);
    }
}

#[test]
fn ascii_codes_split_on_whitespace() {
    assert_eq!(parse_ascii_codes("72 101\t108\n108  111 "), vec![72, 101, 108, 108, 111]);
    assert_eq!(parse_ascii_codes("1 x 300 2"), vec![1, 2]);
    assert_eq!(parse_ascii_codes(""), Vec::<u8>::new());
    assert_eq!(parse_ascii_codes("   "), Vec::<u8>::new());
    assert_eq!(parse_ascii_codes("5\u{3000}6"), vec![5, 6]);
}

#[test]
fn white_space_matches_std() {
    for c in ['\t', '\n', ' ', '\u{85}', '\u{a0}', '\u{2003}', '\u{3000}', 'a', '0', '\u{200b}'] {
        assert_eq!(is_white_space(c), c.is_whitespace(), "char {:?}", c);
    }
}

#[test]
fn input_selection() {
    assert_eq!(select_inputs(Some(String::from("hi")), Some(String::from("1"))), None);
    assert_eq!(select_inputs(Some(String::from("hi")), None), Some(vec![104, 105]));
    assert_eq!(select_inputs(Some(String::from("é")), None), Some(vec![0xc3, 0xa9]));
    assert_eq!(select_inputs(None, Some(String::from("65 66"))), Some(vec![65, 66]));
    assert_eq!(select_inputs(None, None), Some(vec![]));
}
