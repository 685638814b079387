//! Errors reported while reading or evaluating an expression.
use vstd::prelude::*;
use crate::text::{decimal, decimal_digits, push_all, string_of};

verus! {

/// What went wrong in an expression.
#[derive(Clone, Copy, Debug, PartialEq, Eq, Structural)]
pub enum ErrorKind {
    /// A `.` in a mode that computes with integers only.
    DecimalNotAllowed,
    /// A `(` without its matching `)`.
    UnmatchedParenthesis,
    /// An operator with nothing to act on at one of its sides.
    MissingOperand,
    /// A numeral that is not a valid number here (too large, two dots,
    /// a fraction or a negative count of dice, a die without sides).
    InvalidNumber,
    /// A character that cannot stand where it stands.
    UnexpectedCharacter,
    /// A division whose divisor is zero.
    DivisionByZero,
    /// A result that does not fit the integers the evaluation computes with.
    Overflow,
}

/// Error returned when an expression cannot be read or evaluated.
#[derive(Clone, Debug)]
pub struct SyntaxError {
    pub kind: ErrorKind,
    pub msg: Option<String>,
    /// 1-based line of the offending character, where one is known.
    pub line: Option<u64>,
    /// 1-based column of the offending character, where one is known.
    pub col: Option<u64>,
}

impl SyntaxError {
    /// An error of the given kind with a message and no position.
    pub fn from_string(kind: ErrorKind, msg: String) -> (r: SyntaxError)
        ensures
            r.kind == kind,
            r.msg == Some(msg),
            r.line is None,
            r.col is None,
    {
        SyntaxError { kind, msg: Some(msg), line: None, col: None }
    }
}

/// The text of an error: its message, then its line and column where known.
pub open spec fn error_text(e: SyntaxError) -> Seq<char> {
    "SyntaxError: "@ + match e.msg {
        None => "Failed to parse string"@,
        Some(m) => m@,
    } + match e.line {
        None => Seq::<char>::empty(),
        Some(l) => "; error on line "@ + decimal(l as nat) + match e.col {
            None => Seq::<char>::empty(),
            Some(c) => ", column "@ + decimal(c as nat),
        },
    }
}

impl SyntaxError {
    /// The error as text.
    pub fn print(&self) -> (r: String)
        ensures
            r@ == error_text(*self),
    {
        let mut out: Vec<char> = Vec::new();
        push_all(&mut out, "SyntaxError: ");
        match &self.msg {
            None => push_all(&mut out, "Failed to parse string"),
            Some(m) => push_all(&mut out, m.as_str()),
        }
        match self.line {
            None => {},
            Some(l) => {
                push_all(&mut out, "; error on line ");
                let d = decimal_digits(l);
                out.append(&mut d.clone());
                match self.col {
                    None => {},
                    Some(c) => {
                        push_all(&mut out, ", column ");
                        let d = decimal_digits(c);
                        out.append(&mut d.clone());
                    },
                }
            },
        }
        assert(out@ =~= error_text(*self));
        string_of(&out)
    }
}

} // verus!
