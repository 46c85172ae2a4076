//! Front end of a small expression language: a lexical scanner that turns
//! source text into tokens, a recursive-descent expression parser that builds
//! a syntax tree, and two printers that render a tree in prefix ("Lisp") or
//! postfix (RPN) notation.

pub mod lexer;
pub mod parser;
pub mod printer;
pub mod token;

use vstd::prelude::*;

verus! {

/// The decimal rendering of a natural number, most significant digit first.
pub open spec fn dec_str(n: nat) -> Seq<char>
    decreases n,
{
    if n < 10 {
        seq![digit_char(n)]
    } else {
        dec_str(n / 10) + seq![digit_char(n % 10)]
    }
}

/// The character for a single decimal digit.
pub open spec fn digit_char(d: nat) -> char {
    if d == 0 {
        '0'
    } else if d == 1 {
        '1'
    } else if d == 2 {
        '2'
    } else if d == 3 {
        '3'
    } else if d == 4 {
        '4'
    } else if d == 5 {
        '5'
    } else if d == 6 {
        '6'
    } else if d == 7 {
        '7'
    } else if d == 8 {
        '8'
    } else {
        '9'
    }
}

/// Renders one decimal digit as a string.
fn digit_string(d: usize) -> (r: String)
    requires
        d < 10,
    ensures
        r@ == seq![digit_char(d as nat)],
{
    let s: &str = if d == 0 {
        "0"
    } else if d == 1 {
        "1"
    } else if d == 2 {
        "2"
    } else if d == 3 {
        "3"
    } else if d == 4 {
        "4"
    } else if d == 5 {
        "5"
    } else if d == 6 {
        "6"
    } else if d == 7 {
        "7"
    } else if d == 8 {
        "8"
    } else {
        "9"
    };
    proof {
        reveal_strlit("0");
        reveal_strlit("1");
        reveal_strlit("2");
        reveal_strlit("3");
        reveal_strlit("4");
        reveal_strlit("5");
        reveal_strlit("6");
        reveal_strlit("7");
        reveal_strlit("8");
        reveal_strlit("9");
    }
    String::from_str(s)
}

/// Renders a natural number in decimal.
pub fn usize_to_string(n: usize) -> (r: String)
    ensures
        r@ == dec_str(n as nat),
    decreases n,
{
    if n < 10 {
        digit_string(n)
    } else {
        let high = usize_to_string(n / 10);
        let low = digit_string(n % 10);
        high.concat(low.as_str())
    }
}

/// Top-level error bookkeeping: formats diagnostic lines in the stable shape
/// `[line <N>] Error<where>: <message>` and remembers that an error was
/// reported.
pub struct Lox {
    pub had_error: bool,
}

impl Lox {
    /// Formats a generic error line (no location hint) and records it.
    pub fn error(&mut self, line: usize, message: String) -> (r: String)
        ensures
            final(self).had_error,
            r@ == "[line "@ + dec_str(line as nat) + "] Error"@ + ": "@ + message@,
    {
        self.report(line, String::new(), message)
    }

    /// Formats an error line with a location hint and records it.
    pub fn report(&mut self, line: usize, location: String, message: String) -> (r: String)
        ensures
            final(self).had_error,
            r@ == "[line "@ + dec_str(line as nat) + "] Error"@ + location@ + ": "@ + message@,
    {
        let mut r = String::from_str("[line ");
        r.append(usize_to_string(line).as_str());
        r.append("] Error");
        r.append(location.as_str());
        r.append(": ");
        r.append(message.as_str());
        self.had_error = true;
        proof {
            assert(r@ =~= "[line "@ + dec_str(line as nat) + "] Error"@ + location@ + ": "@
                + message@);
        }
        r
    }
}

} // verus!
