use crate::text::{decimal, decimal_chars, push_all, push_str, string_from_chars};
use vstd::prelude::*;

verus! {

/// An error met while interpreting, at a line, with an optional place.
#[derive(Debug)]
pub struct InterpreterError<'a> {
    pub line: usize,
    pub message: &'static str,
    pub error_location: Option<&'a str>,
}

/// How an error is reported: its line, where it happened when that is
/// known, and its message.
pub open spec fn interpreter_error_text(line: nat, location: Option<Seq<char>>, message: Seq<char>) -> Seq<char> {
    match location {
        Some(place) => "[line "@ + decimal(line) + "] io::Error "@ + place + ": "@ + message,
        None => "[line "@ + decimal(line) + "] io:Error: "@ + message,
    }
}

impl<'a> InterpreterError<'a> {
    /// The report of this error.
    pub fn report_text(&self) -> (res: String)
        ensures
            res@ == interpreter_error_text(
                self.line as nat,
                match self.error_location {
                    Some(place) => Some(place@),
                    None => None,
                },
                self.message@,
            ),
    {
        let mut out: Vec<char> = Vec::new();
        push_str(&mut out, "[line ");
        let digits = decimal_chars(self.line);
        push_all(&mut out, &digits);
        match self.error_location {
            Some(place) => {
                push_str(&mut out, "] io::Error ");
                push_str(&mut out, place);
                push_str(&mut out, ": ");
            },
            None => {
                push_str(&mut out, "] io:Error: ");
            },
        }
        push_str(&mut out, self.message);
        string_from_chars(&out)
    }
}

/// The report of an error at `line` with no place: what `error` prints.
pub fn error_text(line: u32, message: &str) -> (res: String)
    ensures
        res@ == "[line "@ + decimal(line as nat) + "] io::Error : "@ + message@,
{
    let mut out: Vec<char> = Vec::new();
    push_str(&mut out, "[line ");
    let digits = decimal_chars(line as usize);
    push_all(&mut out, &digits);
    push_str(&mut out, "] io::Error : ");
    push_str(&mut out, message);
    string_from_chars(&out)
}

} // verus!
