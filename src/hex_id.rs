use vstd::prelude::*;

use crate::text::digit_char;

verus! {

/// The error of `str::parse` and `from_str_radix` for integers.
#[verifier::external_type_specification]
#[verifier::external_body]
pub struct ExParseIntError(std::num::ParseIntError);

/// The lowercase hexadecimal digit for `d` (below sixteen).
pub open spec fn hex_digit_char(d: nat) -> char {
    if d < 10 {
        digit_char(d)
    } else if d == 10 {
        'a'
    } else if d == 11 {
        'b'
    } else if d == 12 {
        'c'
    } else if d == 13 {
        'd'
    } else if d == 14 {
        'e'
    } else {
        'f'
    }
}

/// The lowercase hexadecimal text of `n`, without leading zeros.
pub open spec fn hex_text(n: nat) -> Seq<char>
    decreases n,
{
    if n < 16 {
        seq![hex_digit_char(n)]
    } else {
        hex_text(n / 16).push(hex_digit_char(n % 16))
    }
}

/// The value of the hexadecimal digit `c`, in either case.
pub open spec fn hex_value(c: char) -> Option<nat> {
    let u = c as u32;
    if 48 <= u <= 57 {
        Some((u - 48) as nat)
    } else if 97 <= u <= 102 {
        Some((u - 87) as nat)
    } else if 65 <= u <= 70 {
        Some((u - 55) as nat)
    } else {
        None
    }
}

/// Whether every character of `s` is a hexadecimal digit.
pub open spec fn all_hex(s: Seq<char>) -> bool {
    forall|k: int| 0 <= k < s.len() ==> (#[trigger] hex_value(s[k])) is Some
}

/// The number that the hexadecimal digits `s` write.
pub open spec fn hex_digits_value(s: Seq<char>) -> nat
    decreases s.len(),
{
    if s.len() == 0 {
        0
    } else {
        hex_digits_value(s.drop_last()) * 16 + hex_value(s.last()).unwrap_or(0)
    }
}

/// What `i32::from_str_radix(s, 16)` accepts: an optional sign, then one or more hexadecimal
/// digits, whose signed value fits an `i32`.
pub open spec fn i32_from_hex(s: Seq<char>) -> Option<i32> {
    let neg = s.len() > 0 && s[0] == '-';
    let body = if s.len() > 0 && (s[0] == '-' || s[0] == '+') {
        s.drop_first()
    } else {
        s
    };
    let v: int = if neg {
        -hex_digits_value(body)
    } else {
        hex_digits_value(body) as int
    };
    if body.len() > 0 && all_hex(body) && i32::MIN <= v <= i32::MAX {
        Some(v as i32)
    } else {
        None
    }
}

/// Relies on `i32::from_str_radix` with radix 16: an optional `+` or `-`, then digits of
/// `0-9`, `a-f` or `A-F`, and an error when the text is anything else or the value overflows.
#[verifier::external_body]
fn i32_from_str_radix16(s: &str) -> (r: Result<i32, std::num::ParseIntError>)
    ensures
        match r {
            Ok(v) => i32_from_hex(s@) == Some(v),
            Err(_) => i32_from_hex(s@) is None,
        },
{
    i32::from_str_radix(s, 16)
}

fn hex_digit_str(d: u32) -> (r: &'static str)
    requires
        d < 16,
    ensures
        r@ == seq![hex_digit_char(d as nat)],
{
    proof {
        reveal_strlit("0123456789abcdef");
    }
    let all = "0123456789abcdef";
    let r = all.substring_char(d as usize, d as usize + 1);
    assert(r@ =~= seq![hex_digit_char(d as nat)]);
    r
}

fn render_hex(n: u32) -> (r: String)
    ensures
        r@ == hex_text(n as nat),
    decreases n,
{
    if n < 16 {
        String::from_str(hex_digit_str(n))
    } else {
        let mut s = render_hex(n / 16);
        s.append(hex_digit_str(n % 16));
        s
    }
}

/// An identity written in hexadecimal.
pub trait HexId: Sized {
    /// The bits that the hexadecimal text shows, as an unsigned number.
    spec fn hex_bits(&self) -> nat;

    /// What reading `s` in hexadecimal gives.
    spec fn hex_parsed(s: Seq<char>) -> Option<Self>;

    fn to_hex_string(&self) -> (r: String)
        ensures
            r@ == hex_text(self.hex_bits()),
    ;

    fn from_hex_str(text: &str) -> (r: Result<Self, std::num::ParseIntError>)
        ensures
            match r {
                Ok(v) => Self::hex_parsed(text@) == Some(v),
                Err(_) => Self::hex_parsed(text@) is None,
            },
    ;
}

impl HexId for i32 {
    /// A negative value shows its two's complement bits.
    open spec fn hex_bits(&self) -> nat {
        (*self as u32) as nat
    }

    open spec fn hex_parsed(s: Seq<char>) -> Option<i32> {
        i32_from_hex(s)
    }

    fn to_hex_string(&self) -> (r: String) {
        render_hex(*self as u32)
    }

    fn from_hex_str(text: &str) -> (r: Result<i32, std::num::ParseIntError>) {
        i32_from_str_radix16(text)
    }
}

} // verus!
