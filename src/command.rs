//! What the chat command around the interpreter decides from its arguments:
//! which input the program gets.
use vstd::prelude::*;
use vstd::string::StrSliceExecFns;
use crate::text::chars_of;

verus! {

/// Unicode's White_Space characters.
pub open spec fn is_white(c: char) -> bool {
    let u = c as u32;
    ||| 0x09 <= u <= 0x0d
    ||| u == 0x20
    ||| u == 0x85
    ||| u == 0xa0
    ||| u == 0x1680
    ||| 0x2000 <= u <= 0x200a
    ||| u == 0x2028
    ||| u == 0x2029
    ||| u == 0x202f
    ||| u == 0x205f
    ||| u == 0x3000
}

/// Whether `c` is one of Unicode's White_Space characters.
pub fn is_white_space(c: char) -> (r: bool)
    ensures
        r == is_white(c),
{
    let u = c as u32;
    (0x09 <= u && u <= 0x0d) || u == 0x20 || u == 0x85 || u == 0xa0 || u == 0x1680 || (0x2000
        <= u && u <= 0x200a) || u == 0x2028 || u == 0x2029 || u == 0x202f || u == 0x205f || u
        == 0x3000
}

/// Whether every character of `s` is an ASCII digit.
pub open spec fn all_digits(s: Seq<char>) -> bool {
    forall|i: int| 0 <= i < s.len() ==> '0' <= #[trigger] s[i] <= '9'
}

/// The value of a string of ASCII digits, read in base ten.
pub open spec fn digits_value(s: Seq<char>) -> nat
    decreases s.len(),
{
    if s.len() == 0 {
        0
    } else {
        digits_value(s.drop_last()) * 10 + ((s.last() as u32) - ('0' as u32)) as nat
    }
}

/// The byte that a token spells in decimal, with an optional leading `+`;
/// `None` for anything else or for a value above 255.
pub open spec fn byte_token(t: Seq<char>) -> Option<u8> {
    let d = if t.len() > 0 && t[0] == '+' {
        t.drop_first()
    } else {
        t
    };
    if d.len() > 0 && all_digits(d) && digits_value(d) <= 255 {
        Some(digits_value(d) as u8)
    } else {
        None
    }
}

/// Reads a byte written in decimal, as `u8`'s `FromStr` does.
pub fn parse_byte(t: &Vec<char>) -> (r: Option<u8>)
    ensures
        r == byte_token(t@),
{
    let start: usize = if t.len() > 0 && t[0] == '+' {
        1
    } else {
        0
    };
    let ghost d = if t@.len() > 0 && t@[0] == '+' {
        t@.drop_first()
    } else {
        t@
    };
    assert(d =~= t@.subrange(start as int, t@.len() as int));
    if start >= t.len() {
        return None;
    }
    let mut value: u32 = 0;
    let mut big = false;
    let mut j: usize = start;
    while j < t.len()
        invariant
            start <= j <= t@.len(),
            d == t@.subrange(start as int, t@.len() as int),
            d == (if t@.len() > 0 && t@[0] == '+' {
                t@.drop_first()
            } else {
                t@
            }),
            all_digits(t@.subrange(start as int, j as int)),
            big <==> digits_value(t@.subrange(start as int, j as int)) > 255,
            !big ==> value == digits_value(t@.subrange(start as int, j as int)),
        decreases t@.len() - j,
    {
        let c = t[j];
        if c < '0' || c > '9' {
            proof {
                let k = j - start;
                assert(d[k as int] == c);
                assert(!all_digits(d));
            }
            return None;
        }
        let ghost before = t@.subrange(start as int, j as int);
        let ghost after = t@.subrange(start as int, j + 1);
        assert(after.drop_last() =~= before);
        assert(digits_value(after) == digits_value(before) * 10 + ((c as u32) - ('0' as u32)) as nat);
        if !big {
            value = value * 10 + ((c as u32) - ('0' as u32));
            if value > 255 {
                big = true;
            }
        }
        j = j + 1;
    }
    assert(t@.subrange(start as int, j as int) =~= d);
    if big {
        None
    } else {
        Some(value as u8)
    }
}

/// Adds the byte that `token` spells, if it spells one, to `codes`.
pub open spec fn with_token(codes: Seq<u8>, token: Seq<char>) -> Seq<u8> {
    match byte_token(token) {
        Some(b) => codes.push(b),
        None => codes,
    }
}

/// The bytes read so far from the first `i` characters of `s`, and the
/// token still being read.
pub open spec fn codes_scan(s: Seq<char>, i: nat) -> (Seq<u8>, Seq<char>)
    decreases i,
{
    if i == 0 {
        (Seq::empty(), Seq::empty())
    } else {
        let (codes, token) = codes_scan(s, (i - 1) as nat);
        let c = s[i - 1];
        if is_white(c) {
            (with_token(codes, token), Seq::empty())
        } else {
            (codes, token.push(c))
        }
    }
}

/// The bytes spelled by the whitespace-separated tokens of `s`, in order;
/// tokens that spell no byte are passed over.
pub open spec fn ascii_codes(s: Seq<char>) -> Seq<u8> {
    let (codes, token) = codes_scan(s, s.len());
    with_token(codes, token)
}

/// Reads whitespace-separated decimal byte values, passing over tokens that
/// are not one.
pub fn parse_ascii_codes(s: &str) -> (r: Vec<u8>)
    ensures
        r@ == ascii_codes(s@),
{
    let chars = chars_of(s);
    let mut codes: Vec<u8> = Vec::new();
    let mut token: Vec<char> = Vec::new();
    let mut i: usize = 0;
    while i < chars.len()
        invariant
            chars@ == s@,
            i <= chars@.len(),
            codes_scan(s@, i as nat) == (codes@, token@),
        decreases chars@.len() - i,
    {
        let c = chars[i];
        if is_white_space(c) {
            match parse_byte(&token) {
                Some(b) => codes.push(b),
                None => {},
            }
            token = Vec::new();
        } else {
            token.push(c);
        }
        i = i + 1;
        assert(codes_scan(s@, i as nat) == (codes@, token@));
    }
    match parse_byte(&token) {
        Some(b) => codes.push(b),
        None => {},
    }
    codes
}

/// The input a program gets: the bytes of `inputs`, or the values listed
/// in `ascii_codes`, or nothing; `None` when both are given.
pub fn select_inputs(inputs: Option<String>, ascii_codes: Option<String>) -> (r: Option<Vec<u8>>)
    ensures
        match (inputs, ascii_codes) {
            (Some(_), Some(_)) => r is None,
            (Some(text), None) => r matches Some(v) && v@ == vstd::utf8::encode_utf8(text@),
            (None, Some(codes)) => r matches Some(v) && v@ == crate::command::ascii_codes(codes@),
            (None, None) => r matches Some(v) && v@.len() == 0,
        },
{
    match (inputs, ascii_codes) {
        (Some(_), Some(_)) => None,
        (Some(text), None) => Some(text.as_str().as_bytes_vec()),
        (None, Some(codes)) => Some(parse_ascii_codes(codes.as_str())),
        (None, None) => Some(Vec::new()),
    }
}

} // verus!
