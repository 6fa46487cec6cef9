//! Why an operation on dates fails.

use vstd::prelude::*;

verus! {

/// The four ways in which an operation fails.
#[derive(Clone, Copy, Debug, PartialEq, Eq, Structural)]
pub enum ErrorKind {
    /// The text is not three integers with separators between them.
    Format,
    /// The three integers name no day of the calendar.
    InvalidDate,
    /// An argument that is not a date lies outside its domain.
    InvalidArgument,
    /// The result lies beyond the dates or numbers that can be represented.
    Overflow,
}

/// The cause of a failure of `kind`, in words.
pub open spec fn cause_text(kind: ErrorKind) -> Seq<char> {
    match kind {
        ErrorKind::Format => "not three integers with separators between them"@,
        ErrorKind::InvalidDate => "no such day in the calendar"@,
        ErrorKind::InvalidArgument => "argument outside its domain"@,
        ErrorKind::Overflow => "result beyond what can be represented"@,
    }
}

impl ErrorKind {
    /// The cause of a failure of this kind, in words.
    pub fn cause(&self) -> (text: &'static str)
        ensures
            text@ == cause_text(*self),
    {
        match self {
            ErrorKind::Format => "not three integers with separators between them",
            ErrorKind::InvalidDate => "no such day in the calendar",
            ErrorKind::InvalidArgument => "argument outside its domain",
            ErrorKind::Overflow => "result beyond what can be represented",
        }
    }
}

/// What a failure is: its kind and the text that was at fault. This is the
/// mathematical value of a [`DateError`].
pub struct Failure {
    pub kind: ErrorKind,
    pub input: Seq<char>,
}

/// A failed operation: the kind of the failure, and the input that was at
/// fault, as it was given.
#[derive(Debug)]
pub struct DateError {
    pub kind: ErrorKind,
    pub input: String,
}

impl View for DateError {
    type V = Failure;

    open spec fn view(&self) -> Failure {
        Failure { kind: self.kind, input: self.input@ }
    }
}

impl DateError {
    /// The failure of `kind` on the input `input`.
    pub fn new(kind: ErrorKind, input: &str) -> (error: DateError)
        ensures
            error@ == (Failure { kind, input: input@ }),
    {
        DateError { kind, input: input.to_owned() }
    }

    /// The failure in words: its cause, a colon and a blank, and the input
    /// that was at fault.
    pub fn message(&self) -> (text: String)
        ensures
            text@ == cause_text(self.kind) + ": "@ + self.input@,
    {
        let mut text = self.kind.cause().to_owned();
        text.append(": ");
        text.append(self.input.as_str());
        text
    }
}

} // verus!
