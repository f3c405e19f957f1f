//! The errors of extraction and of replacement.

use crate::matcher::{error_message, regex_error_message};
use crate::text::string_of;
use vstd::prelude::*;
use vstd::string::StringExecFns;

verus! {

/// `std::io::Error`. Nothing inside it is seen here.
#[verifier::external_type_specification]
#[verifier::external_body]
pub struct ExIoError(std::io::Error);

/// Why the content of a file could not be extracted.
#[derive(Debug)]
pub enum ParseError {
    /// The file could not be read.
    IO(std::io::Error),
    /// A pattern's start marker occurs more or less often in the file than
    /// its end marker.
    PatterNotEqual { pattern_start: String, pattern_end: String },
}

/// Why a replacement could not be made.
#[derive(Debug)]
pub enum ReplacerError {
    /// The file could not be read or written.
    IO(std::io::Error),
    /// The markers of an identifier do not make a regular expression.
    Regex(regex::Error),
    /// A match of the markers lacks the capture group with this number.
    CaptureNotFound { index: i32 },
}

pub type ParserResult<T> = Result<T, ParseError>;

pub type ReplacerResult<T> = Result<T, ReplacerError>;

/// The character that stands for the digit `d`.
pub open spec fn digit_char(d: int) -> char {
    if d == 0 {
        '0'
    } else if d == 1 {
        '1'
    } else if d == 2 {
        '2'
    } else if d == 3 {
        '3'
    } else if d == 4 {
        '4'
    } else if d == 5 {
        '5'
    } else if d == 6 {
        '6'
    } else if d == 7 {
        '7'
    } else if d == 8 {
        '8'
    } else {
        '9'
    }
}

/// The decimal digits of `n`, the highest first.
pub open spec fn natural_digits(n: nat) -> Seq<char>
    decreases n,
{
    if n < 10 {
        seq![digit_char(n as int)]
    } else {
        natural_digits(n / 10).push(digit_char((n % 10) as int))
    }
}

/// `n` in decimal notation, with a minus sign where it is negative.
pub open spec fn decimal(n: int) -> Seq<char> {
    if n < 0 {
        seq!['-'] + natural_digits((-n) as nat)
    } else {
        natural_digits(n as nat)
    }
}

fn digit(d: u32) -> (c: char)
    requires
        d < 10,
    ensures
        c == digit_char(d as int),
{
    if d == 0 {
        '0'
    } else if d == 1 {
        '1'
    } else if d == 2 {
        '2'
    } else if d == 3 {
        '3'
    } else if d == 4 {
        '4'
    } else if d == 5 {
        '5'
    } else if d == 6 {
        '6'
    } else if d == 7 {
        '7'
    } else if d == 8 {
        '8'
    } else {
        '9'
    }
}

/// `n` in decimal notation.
pub fn decimal_text(n: i32) -> (r: String)
    ensures
        r@ == decimal(n as int),
{
    let negative = n < 0;
    let mut rest: u32 = if negative {
        if n == i32::MIN {
            2147483648u32
        } else {
            (-n) as u32
        }
    } else {
        n as u32
    };
    let ghost magnitude = rest as nat;
    // The digits, the lowest first.
    let mut low: Vec<char> = Vec::new();
    while rest >= 10
        invariant
            natural_digits(magnitude) == natural_digits(rest as nat) + low@.reverse(),
        decreases rest,
    {
        let d = digit(rest % 10);
        proof {
            let higher = natural_digits((rest / 10) as nat);
            assert(natural_digits(rest as nat) == higher.push(d));
            assert(low@.push(d).reverse() =~= seq![d] + low@.reverse());
            assert(higher.push(d) + low@.reverse() =~= higher + low@.push(d).reverse());
        }
        low.push(d);
        rest = rest / 10;
    }
    let d = digit(rest);
    proof {
        assert(low@.push(d).reverse() =~= seq![d] + low@.reverse());
        assert(seq![d] + low@.reverse() =~= natural_digits(rest as nat) + low@.reverse());
    }
    low.push(d);
    let mut digits: Vec<char> = Vec::new();
    if negative {
        digits.push('-');
    }
    let ghost sign = digits@;
    let mut i: usize = low.len();
    while i > 0
        invariant
            i <= low.len(),
            digits@ == sign + low@.reverse().take(low.len() - i),
        decreases i,
    {
        i -= 1;
        digits.push(low[i]);
        assert(low@.reverse().take(low.len() - i) =~= low@.reverse().take(low.len() - i - 1).push(
            low@[i as int],
        ));
    }
    assert(low@.reverse().take(low.len() as int) =~= low@.reverse());
    string_of(digits.as_slice())
}

/// `Display` of `std::io::Error`: what the error says. It depends on the
/// operating system, so nothing is stated of it.
#[verifier::external_body]
fn io_error_message(error: &std::io::Error) -> String {
    error.to_string()
}

/// What a missing capture group is reported with.
pub open spec fn capture_not_found_text(index: int) -> Seq<char> {
    "Capture not found in position: "@ + decimal(index)
}

impl ParseError {
    /// What the error says, where that does not depend on the machine.
    pub open spec fn message_text(self) -> Option<Seq<char>> {
        match self {
            ParseError::IO(_) => None,
            ParseError::PatterNotEqual { pattern_start, pattern_end } => Some(
                "Start: `"@ + pattern_start@ + "`, End: `"@ + pattern_end@ + "`"@,
            ),
        }
    }

    /// What the error says.
    pub fn message(&self) -> (r: String)
        ensures
            self.message_text() matches Some(text) ==> r@ == text,
    {
        match self {
            ParseError::IO(e) => io_error_message(e),
            ParseError::PatterNotEqual { pattern_start, pattern_end } => {
                let mut r = "Start: `".to_owned();
                r.append(pattern_start.as_str());
                r.append("`, End: `");
                r.append(pattern_end.as_str());
                r.append("`");
                r
            },
        }
    }
}

impl ReplacerError {
    /// What the error says, where that does not depend on the machine.
    pub open spec fn message_text(self) -> Option<Seq<char>> {
        match self {
            ReplacerError::IO(_) => None,
            ReplacerError::Regex(e) => Some(regex_error_message(e)),
            ReplacerError::CaptureNotFound { index } => Some(capture_not_found_text(index as int)),
        }
    }

    /// What the error says.
    pub fn message(&self) -> (r: String)
        ensures
            self.message_text() matches Some(text) ==> r@ == text,
    {
        match self {
            ReplacerError::IO(e) => io_error_message(e),
            ReplacerError::Regex(e) => error_message(e),
            ReplacerError::CaptureNotFound { index } => {
                let mut r = "Capture not found in position: ".to_owned();
                r.append(decimal_text(*index).as_str());
                r
            },
        }
    }
}

} // verus!
