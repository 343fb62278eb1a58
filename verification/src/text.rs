//! Decimal and hexadecimal text for messages.

use vstd::prelude::*;
use vstd::string::StringExecFns;

verus! {

/// The character of decimal digit `d`.
pub open spec fn digit_char(d: int) -> char {
    (48 + d) as char
}

/// The character of hexadecimal digit `d`, in lower case.
pub open spec fn hex_char(d: int) -> char {
    if d < 10 {
        (48 + d) as char
    } else {
        (87 + d) as char
    }
}

/// The decimal digits of `n`, without leading zeros.
pub open spec fn dec_text(n: nat) -> Seq<char>
    decreases n,
{
    if n < 10 {
        seq![digit_char(n as int)]
    } else {
        dec_text(n / 10).push(digit_char((n % 10) as int))
    }
}

/// The lowercase hexadecimal digits of `n`, without leading zeros.
pub open spec fn hex_digits(n: nat) -> Seq<char>
    decreases n,
{
    if n < 16 {
        seq![hex_char(n as int)]
    } else {
        hex_digits(n / 16).push(hex_char((n % 16) as int))
    }
}

/// `n` written as `0x` and its lowercase hexadecimal digits.
pub open spec fn hex_text(n: nat) -> Seq<char> {
    seq!['0', 'x'] + hex_digits(n)
}

/// The text of one lowercase hexadecimal digit.
fn digit_text(d: u64) -> (res: &'static str)
    requires
        d < 16,
    ensures
        res@ == seq![hex_char(d as int)],
{
    match d {
        0 => {
            proof {
                reveal_strlit("0");
            }
            "0"
        },
        1 => {
            proof {
                reveal_strlit("1");
            }
            "1"
        },
        2 => {
            proof {
                reveal_strlit("2");
            }
            "2"
        },
        3 => {
            proof {
                reveal_strlit("3");
            }
            "3"
        },
        4 => {
            proof {
                reveal_strlit("4");
            }
            "4"
        },
        5 => {
            proof {
                reveal_strlit("5");
            }
            "5"
        },
        6 => {
            proof {
                reveal_strlit("6");
            }
            "6"
        },
        7 => {
            proof {
                reveal_strlit("7");
            }
            "7"
        },
        8 => {
            proof {
                reveal_strlit("8");
            }
            "8"
        },
        9 => {
            proof {
                reveal_strlit("9");
            }
            "9"
        },
        10 => {
            proof {
                reveal_strlit("a");
            }
            "a"
        },
        11 => {
            proof {
                reveal_strlit("b");
            }
            "b"
        },
        12 => {
            proof {
                reveal_strlit("c");
            }
            "c"
        },
        13 => {
            proof {
                reveal_strlit("d");
            }
            "d"
        },
        14 => {
            proof {
                reveal_strlit("e");
            }
            "e"
        },
        15 => {
            proof {
                reveal_strlit("f");
            }
            "f"
        },
        _ => {
            proof {
                reveal_strlit("f");
            }
            "f"
        },
    }
}

/// The digits of `value` in base `radix` (ten or sixteen), without leading
/// zeros.
fn digits(value: u64, radix: u64) -> (res: String)
    requires
        radix == 10 || radix == 16,
    ensures
        radix == 10 ==> res@ == dec_text(value as nat),
        radix == 16 ==> res@ == hex_digits(value as nat),
    decreases value,
{
    if value < radix {
        digit_text(value).to_owned()
    } else {
        let mut text = digits(value / radix, radix);
        text.append(digit_text(value % radix));
        text
    }
}

/// Formats `value` as `0x` followed by its lowercase hexadecimal digits.
pub fn format_hex(value: u64) -> (res: String)
    ensures
        res@ == hex_text(value as nat),
{
    let mut text = "0x".to_owned();
    proof {
        reveal_strlit("0x");
    }
    let rest = digits(value, 16);
    text.append(rest.as_str());
    text
}

/// Formats `value` in decimal.
pub fn format_dec(value: u64) -> (res: String)
    ensures
        res@ == dec_text(value as nat),
{
    digits(value, 10)
}

/// Joins two strings.
pub fn join(first: &str, second: &str) -> (res: String)
    ensures
        res@ == first@ + second@,
{
    let mut joined = first.to_owned();
    joined.append(second);
    joined
}

} // verus!
