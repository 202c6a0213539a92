//! Front end of a tree-walking interpreter for a small scripting language:
//! a lexer from source text to tokens, a recursive-descent parser from
//! tokens to an expression tree, and a printer of trees in prefix notation.

use vstd::prelude::*;

pub mod ast;
pub mod lexical_analysis;

verus! {

/// The character of a decimal digit.
pub open spec fn digit_char(digit: nat) -> char {
    if digit == 0 {
        '0'
    } else if digit == 1 {
        '1'
    } else if digit == 2 {
        '2'
    } else if digit == 3 {
        '3'
    } else if digit == 4 {
        '4'
    } else if digit == 5 {
        '5'
    } else if digit == 6 {
        '6'
    } else if digit == 7 {
        '7'
    } else if digit == 8 {
        '8'
    } else {
        '9'
    }
}

/// The decimal numeral of a number, without leading zeros.
pub open spec fn decimal(n: nat) -> Seq<char>
    decreases n,
{
    if n < 10 {
        seq![digit_char(n)]
    } else {
        decimal(n / 10).push(digit_char(n % 10))
    }
}

/// The line that reports an error: `[line: L] Error<where>: <message>`.
pub open spec fn report_text(line: nat, location: Seq<char>, message: Seq<char>) -> Seq<char> {
    "[line: "@ + decimal(line) + "] Error"@ + location + ": "@ + message
}

/// The text of a decimal digit.
fn digit_text(digit: usize) -> (text: &'static str)
    requires
        digit < 10,
    ensures
        text@ == seq![digit_char(digit as nat)],
{
    proof {
        reveal_strlit("0");
        reveal_strlit("1");
        reveal_strlit("2");
        reveal_strlit("3");
        reveal_strlit("4");
        reveal_strlit("5");
        reveal_strlit("6");
        reveal_strlit("7");
        reveal_strlit("8");
        reveal_strlit("9");
    }
    let text = if digit == 0 {
        "0"
    } else if digit == 1 {
        "1"
    } else if digit == 2 {
        "2"
    } else if digit == 3 {
        "3"
    } else if digit == 4 {
        "4"
    } else if digit == 5 {
        "5"
    } else if digit == 6 {
        "6"
    } else if digit == 7 {
        "7"
    } else if digit == 8 {
        "8"
    } else {
        "9"
    };
    assert(text@ =~= seq![digit_char(digit as nat)]);
    text
}

/// Writes a number in decimal.
pub fn decimal_text(n: usize) -> (text: String)
    ensures
        text@ == decimal(n as nat),
    decreases n,
{
    if n < 10 {
        digit_text(n).to_owned()
    } else {
        let mut text = decimal_text(n / 10);
        text.append(digit_text(n % 10));
        text
    }
}

/// The line that reports a lexical error: such an error has no location
/// within its line.
pub fn error(line: usize, message: String) -> (text: String)
    ensures
        text@ == report_text(line as nat, Seq::empty(), message@),
{
    report(line, String::new(), message)
}

/// The line that reports an error found at `location` on the given line.
pub fn report(line: usize, location: String, message: String) -> (text: String)
    ensures
        text@ == report_text(line as nat, location@, message@),
{
    let mut text = "[line: ".to_owned();
    text.append(decimal_text(line).as_str());
    text.append("] Error");
    text.append(location.as_str());
    text.append(": ");
    text.append(message.as_str());
    text
}

} // verus!
