//! Turning a raw series value into its displayed label text.

use vstd::prelude::*;
use vstd::string::StringExecFns;

verus! {

/// The character for one decimal digit.
pub open spec fn spec_digit_char(d: int) -> char {
    if d == 0 {
        '0'
    } else if d == 1 {
        '1'
    } else if d == 2 {
        '2'
    } else if d == 3 {
        '3'
    } else if d == 4 {
        '4'
    } else if d == 5 {
        '5'
    } else if d == 6 {
        '6'
    } else if d == 7 {
        '7'
    } else if d == 8 {
        '8'
    } else {
        '9'
    }
}

/// The decimal representation of a non-negative value, most significant
/// digit first, with no leading zeros except for the value zero itself.
pub open spec fn spec_decimal(v: int) -> Seq<char>
    decreases v,
{
    if v < 10 {
        seq![spec_digit_char(v)]
    } else {
        spec_decimal(v / 10).push(spec_digit_char(v % 10))
    }
}

/// One decimal digit as a string slice.
fn digit_str(d: u64) -> (r: &'static str)
    requires
        d < 10,
    ensures
        r@ == seq![spec_digit_char(d as int)],
{
    proof {
        reveal_strlit("0");
        reveal_strlit("1");
        reveal_strlit("2");
        reveal_strlit("3");
        reveal_strlit("4");
        reveal_strlit("5");
        reveal_strlit("6");
        reveal_strlit("7");
        reveal_strlit("8");
        reveal_strlit("9");
    }
    let r = match d {
        0 => "0",
        1 => "1",
        2 => "2",
        3 => "3",
        4 => "4",
        5 => "5",
        6 => "6",
        7 => "7",
        8 => "8",
        _ => "9",
    };
    proof {
        assert(r@ =~= seq![spec_digit_char(d as int)]);
    }
    r
}

/// Format a value as its decimal representation; the default value
/// formatter.
pub fn format_value(value: u64) -> (s: String)
    ensures
        s@ == spec_decimal(value as int),
    decreases value,
{
    if value < 10 {
        String::from_str(digit_str(value))
    } else {
        let mut s = format_value(value / 10);
        s.append(digit_str(value % 10));
        proof {
            assert(s@ =~= spec_decimal(value as int));
        }
        s
    }
}

/// The strategy that maps a raw value to its displayed label text,
/// chosen at configuration time. Naming the strategy keeps the label
/// text a function the contracts can speak of; decimal conversion is
/// the default and, so far, the only built-in strategy — a further one
/// is added here as a new variant with its own `spec_format` arm.
#[derive(Clone, Copy, Debug, PartialEq, Eq, Structural)]
pub enum ValueFormat {
    /// Plain decimal conversion.
    Decimal,
}

/// What a formatting strategy produces for a value.
pub open spec fn spec_format(f: ValueFormat, v: u64) -> Seq<char> {
    match f {
        ValueFormat::Decimal => spec_decimal(v as int),
    }
}

/// Apply a formatting strategy to a value.
pub fn apply_format(f: &ValueFormat, v: u64) -> (s: String)
    ensures
        s@ == spec_format(*f, v),
{
    match f {
        ValueFormat::Decimal => format_value(v),
    }
}

} // verus!
