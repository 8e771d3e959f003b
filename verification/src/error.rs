//! The one error that parsing raises: a message and the line on which it
//! was raised.

use crate::grammar::Failure;
use vstd::prelude::*;
use vstd::string::StringExecFns;

verus! {

/// What went wrong, and on which line.
#[derive(Debug)]
pub struct Error {
    pub line: usize,
    pub message: String,
}

impl View for Error {
    type V = Failure;

    open spec fn view(&self) -> Failure {
        Failure { message: self.message@, line: self.line as nat }
    }
}

/// The message for a character other than `@` where a statement should start.
pub open spec fn unknown_statement() -> Seq<char> {
    "found an unknown statement"@
}

/// The message for a missing identifier.
pub open spec fn expected_token() -> Seq<char> {
    "expected a token"@
}

/// The message for a missing natural number.
pub open spec fn expected_natural() -> Seq<char> {
    "expected a natural number"@
}

/// The message for a missing real number.
pub open spec fn expected_real() -> Seq<char> {
    "expected a real number"@
}

/// The message for a missing numeric id.
pub open spec fn expected_id() -> Seq<char> {
    "expected an id"@
}

/// The message for a missing rule between the two parts of a table.
pub open spec fn expected_comment() -> Seq<char> {
    "expected a comment line"@
}

/// The message for a block that is not closed.
pub open spec fn unclosed_block() -> Seq<char> {
    "cannot find the end of a block"@
}

/// The message for a missing literal `what`: the literal between backticks
/// after the word "expected".
pub open spec fn expected_literal(what: Seq<char>) -> Seq<char> {
    ("expected `"@ + what).push('`')
}

/// The character that stands for a decimal digit.
pub open spec fn digit_char(d: int) -> char {
    if d == 0 {
        '0'
    } else if d == 1 {
        '1'
    } else if d == 2 {
        '2'
    } else if d == 3 {
        '3'
    } else if d == 4 {
        '4'
    } else if d == 5 {
        '5'
    } else if d == 6 {
        '6'
    } else if d == 7 {
        '7'
    } else if d == 8 {
        '8'
    } else {
        '9'
    }
}

/// A natural number in decimal, without leading zeros.
pub open spec fn decimal_text(n: nat) -> Seq<char>
    decreases n,
{
    if n < 10 {
        seq![digit_char(n as int)]
    } else {
        decimal_text(n / 10).push(digit_char((n % 10) as int))
    }
}

/// How an error reads: its message, the words "on line", and the line.
pub open spec fn rendering(message: Seq<char>, line: nat) -> Seq<char> {
    message + " on line "@ + decimal_text(line)
}

fn digit_of(d: usize) -> (c: char)
    requires
        d < 10,
    ensures
        c == digit_char(d as int),
{
    if d == 0 {
        '0'
    } else if d == 1 {
        '1'
    } else if d == 2 {
        '2'
    } else if d == 3 {
        '3'
    } else if d == 4 {
        '4'
    } else if d == 5 {
        '5'
    } else if d == 6 {
        '6'
    } else if d == 7 {
        '7'
    } else if d == 8 {
        '8'
    } else {
        '9'
    }
}

/// Appends `n` in decimal to `out`.
pub fn push_decimal(out: &mut String, n: usize)
    ensures
        final(out)@ == old(out)@ + decimal_text(n as nat),
    decreases n,
{
    if n >= 10 {
        push_decimal(out, n / 10);
    }
    out.push(digit_of(n % 10));
}

impl Error {
    /// An error with the given message, raised on the given line.
    pub fn new(line: usize, message: &str) -> (r: Error)
        ensures
            r.line == line,
            r.message@ == message@,
    {
        Error { line, message: message.to_owned() }
    }

    /// An error that says that the literal `what` was expected.
    pub fn expected(line: usize, what: &str) -> (r: Error)
        ensures
            r.line == line,
            r.message@ == expected_literal(what@),
    {
        let mut message = "expected `".to_owned();
        message.append(what);
        message.push('`');
        Error { line, message }
    }

    /// An error that says that the character `what` was expected.
    pub fn expected_char(line: usize, what: char) -> (r: Error)
        ensures
            r.line == line,
            r.message@ == expected_literal(seq![what]),
    {
        let mut message = "expected `".to_owned();
        message.push(what);
        message.push('`');
        assert("expected `"@.push(what) =~= "expected `"@ + seq![what]);
        Error { line, message }
    }

    /// The error as a line of text: the message, then the line number.
    pub fn render(&self) -> (r: String)
        ensures
            r@ == rendering(self.message@, self.line as nat),
    {
        let mut r = self.message.clone();
        r.append(" on line ");
        push_decimal(&mut r, self.line);
        r
    }
}

} // verus!
