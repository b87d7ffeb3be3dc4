//! Errors raised while building or running a program.
use vstd::prelude::*;

verus! {

/// What went wrong.
#[derive(Debug, Clone)]
pub enum ErrorKind {
    /// A label is defined a second time; holds the label and the 0-indexed line
    /// of its first definition.
    DuplicateLabel(String, usize),
    /// A line matches no instruction.
    UnknownInstruction,
    /// An instruction has the wrong number or the wrong kind of operands.
    InvalidOperand(String),
    /// A jump names a label that the program does not define.
    UndefinedLabel(String),
    /// A printed value is no Unicode scalar value.
    InvalidCharacter(i32),
    /// An instruction names no register of the machine.
    InvalidRegister(String),
}

/// What an error kind stands for.
pub enum ErrorModel {
    DuplicateLabel(Seq<char>, int),
    UnknownInstruction,
    InvalidOperand,
    UndefinedLabel(Seq<char>),
    InvalidCharacter(i32),
    InvalidRegister(Seq<char>),
}

impl View for ErrorKind {
    type V = ErrorModel;

    open spec fn view(&self) -> ErrorModel {
        match self {
            ErrorKind::DuplicateLabel(l, i) => ErrorModel::DuplicateLabel(l@, *i as int),
            ErrorKind::UnknownInstruction => ErrorModel::UnknownInstruction,
            ErrorKind::InvalidOperand(_) => ErrorModel::InvalidOperand,
            ErrorKind::UndefinedLabel(l) => ErrorModel::UndefinedLabel(l@),
            ErrorKind::InvalidCharacter(v) => ErrorModel::InvalidCharacter(*v),
            ErrorKind::InvalidRegister(r) => ErrorModel::InvalidRegister(r@),
        }
    }
}

/// An error during the construction, compilation or execution of a program.
#[derive(Debug, Clone)]
pub struct Error {
    /// The 0-indexed line number the error occurred on.
    pub line_number: usize,
    /// What went wrong.
    pub kind: ErrorKind,
}

impl Error {
    /// Creates a new `Error` of the given kind on the given 0-indexed line.
    pub fn new(kind: ErrorKind, line_number: usize) -> (r: Error)
        ensures
            r.kind == kind,
            r.line_number == line_number,
    {
        Error { line_number, kind }
    }

    /// The 0-indexed line number the error occurred on.
    pub fn line_number(&self) -> (r: usize)
        ensures
            r == self.line_number,
    {
        self.line_number
    }

    /// What went wrong.
    pub fn kind(&self) -> (r: &ErrorKind)
        ensures
            r == &self.kind,
    {
        &self.kind
    }
}

/// Return type for instruction handlers.
pub type OpResult = Result<(), Error>;

} // verus!
