//! Decimal numerals and other small pieces of text that the output is made of.

use vstd::prelude::*;
use vstd::string::StringExecFns;

verus! {

/// The character of one decimal digit.
pub open spec fn digit(d: nat) -> char
    recommends
        d < 10,
{
    if d == 0 {
        '0'
    } else if d == 1 {
        '1'
    } else if d == 2 {
        '2'
    } else if d == 3 {
        '3'
    } else if d == 4 {
        '4'
    } else if d == 5 {
        '5'
    } else if d == 6 {
        '6'
    } else if d == 7 {
        '7'
    } else if d == 8 {
        '8'
    } else {
        '9'
    }
}

/// The decimal numeral of `n`, without leading zeros.
pub open spec fn decimal(n: nat) -> Seq<char>
    decreases n,
{
    if n < 10 {
        seq![digit(n)]
    } else {
        decimal(n / 10).push(digit(n % 10))
    }
}

/// `count` times the character `c`.
pub open spec fn repeated(c: char, count: nat) -> Seq<char> {
    Seq::new(count, |i: int| c)
}

fn digit_text(d: usize) -> (text: &'static str)
    requires
        d < 10,
    ensures
        text@ == seq![digit(d as nat)],
{
    proof {
        reveal_strlit("0");
        reveal_strlit("1");
        reveal_strlit("2");
        reveal_strlit("3");
        reveal_strlit("4");
        reveal_strlit("5");
        reveal_strlit("6");
        reveal_strlit("7");
        reveal_strlit("8");
        reveal_strlit("9");
    }
    let text = if d == 0 {
        "0"
    } else if d == 1 {
        "1"
    } else if d == 2 {
        "2"
    } else if d == 3 {
        "3"
    } else if d == 4 {
        "4"
    } else if d == 5 {
        "5"
    } else if d == 6 {
        "6"
    } else if d == 7 {
        "7"
    } else if d == 8 {
        "8"
    } else {
        "9"
    };
    assert(text@ =~= seq![digit(d as nat)]);
    text
}

/// Writes `n` in decimal.
pub fn decimal_string(n: usize) -> (text: String)
    ensures
        text@ == decimal(n as nat),
{
    let mut text = String::from_str(digit_text(n % 10));
    let mut rest: usize = n / 10;
    while rest > 0
        invariant
            rest > 0 ==> decimal(n as nat) == decimal(rest as nat) + text@,
            rest == 0 ==> decimal(n as nat) == text@,
        decreases rest,
    {
        let head = String::from_str(digit_text(rest % 10));
        proof {
            let d = seq![digit((rest % 10) as nat)];
            if rest < 10 {
                assert(decimal(rest as nat) + text@ =~= d + text@);
            } else {
                assert(decimal(rest as nat) + text@ =~= decimal((rest / 10) as nat) + (d + text@));
            }
        }
        text = head.concat(text.as_str());
        rest = rest / 10;
    }
    text
}

/// A line of `width` dashes.
pub fn dashes(width: u16) -> (line: String)
    ensures
        line@ == repeated('-', width as nat),
{
    let mut line = String::new();
    let mut i: u16 = 0;
    proof {
        reveal_strlit("-");
    }
    while i < width
        invariant
            i <= width,
            line@ =~= repeated('-', i as nat),
            "-"@ =~= seq!['-'],
        decreases width - i,
    {
        line.append("-");
        i += 1;
    }
    line
}

} // verus!
