//! Building blocks for the wire strings: decimal and hexadecimal digits,
//! two-digit zero padding.

use vstd::prelude::*;
use vstd::string::StringExecFns;

verus! {

/// The character for one decimal digit.
pub open spec fn digit_char(d: int) -> char {
    if d == 0 {
        '0'
    } else if d == 1 {
        '1'
    } else if d == 2 {
        '2'
    } else if d == 3 {
        '3'
    } else if d == 4 {
        '4'
    } else if d == 5 {
        '5'
    } else if d == 6 {
        '6'
    } else if d == 7 {
        '7'
    } else if d == 8 {
        '8'
    } else {
        '9'
    }
}

/// The character for one hexadecimal digit, lowercase.
pub open spec fn hex_digit_char(d: int) -> char {
    if d < 10 {
        digit_char(d)
    } else if d == 10 {
        'a'
    } else if d == 11 {
        'b'
    } else if d == 12 {
        'c'
    } else if d == 13 {
        'd'
    } else if d == 14 {
        'e'
    } else {
        'f'
    }
}

/// The usual decimal rendering of a number: no leading zeros, except that
/// zero itself is "0".
pub open spec fn spec_u64_digits(v: nat) -> Seq<char>
    decreases v,
{
    if v < 10 {
        seq![digit_char(v as int)]
    } else {
        spec_u64_digits(v / 10).push(digit_char((v % 10) as int))
    }
}

/// The decimal rendering padded with a leading zero up to width two.
pub open spec fn spec_pad2(v: nat) -> Seq<char> {
    if v < 10 {
        seq!['0'] + spec_u64_digits(v)
    } else {
        spec_u64_digits(v)
    }
}

fn digit_str(d: u64) -> (r: &'static str)
    requires
        d < 10,
    ensures
        r@ == seq![digit_char(d as int)],
{
    proof {
        reveal_strlit("0");
        reveal_strlit("1");
        reveal_strlit("2");
        reveal_strlit("3");
        reveal_strlit("4");
        reveal_strlit("5");
        reveal_strlit("6");
        reveal_strlit("7");
        reveal_strlit("8");
        reveal_strlit("9");
    }
    let r = match d {
        0 => "0",
        1 => "1",
        2 => "2",
        3 => "3",
        4 => "4",
        5 => "5",
        6 => "6",
        7 => "7",
        8 => "8",
        _ => "9",
    };
    proof {
        assert(r@ =~= seq![digit_char(d as int)]);
    }
    r
}

fn hex_digit_str(d: u64) -> (r: &'static str)
    requires
        d < 16,
    ensures
        r@ == seq![hex_digit_char(d as int)],
{
    if d < 10 {
        let r = digit_str(d);
        proof {
            assert(r@ =~= seq![hex_digit_char(d as int)]);
        }
        r
    } else {
        proof {
            reveal_strlit("a");
            reveal_strlit("b");
            reveal_strlit("c");
            reveal_strlit("d");
            reveal_strlit("e");
            reveal_strlit("f");
        }
        let r = match d {
            10 => "a",
            11 => "b",
            12 => "c",
            13 => "d",
            14 => "e",
            _ => "f",
        };
        proof {
            assert(r@ =~= seq![hex_digit_char(d as int)]);
        }
        r
    }
}

/// Decimal rendering of an unsigned number.
pub fn u64_to_string(v: u64) -> (s: String)
    ensures
        s@ == spec_u64_digits(v as nat),
    decreases v,
{
    if v < 10 {
        digit_str(v).to_owned()
    } else {
        let mut s = u64_to_string(v / 10);
        s.append(digit_str(v % 10));
        proof {
            assert(s@ =~= spec_u64_digits(v as nat));
        }
        s
    }
}

/// Decimal rendering, zero-padded to at least two digits.
pub fn pad2_string(v: u64) -> (s: String)
    ensures
        s@ == spec_pad2(v as nat),
{
    if v < 10 {
        proof {
            reveal_strlit("0");
        }
        let mut s = "0".to_owned();
        s.append(digit_str(v));
        proof {
            assert(s@ =~= spec_pad2(v as nat));
        }
        s
    } else {
        u64_to_string(v)
    }
}

/// Two lowercase hex digits for a value below 256.
pub fn hex_byte_push(s: &mut String, v: u64)
    requires
        v < 256,
    ensures
        final(s)@ == old(s)@ + seq![hex_digit_char((v / 16) as int), hex_digit_char(
            (v % 16) as int,
        )],
{
    s.append(hex_digit_str(v / 16));
    s.append(hex_digit_str(v % 16));
    proof {
        assert(old(s)@ + seq![hex_digit_char((v / 16) as int), hex_digit_char((v % 16) as int)]
            =~= old(s)@ + seq![hex_digit_char((v / 16) as int)] + seq![hex_digit_char(
            (v % 16) as int,
        )]);
    }
}

} // verus!
