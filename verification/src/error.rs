use vstd::prelude::*;

verus! {

/// A source position: 1-based line and column, attached to every token and
/// every diagnostic.
#[derive(Debug, Clone, Copy, PartialEq, Eq, Structural)]
pub struct LineInfo {
    pub line: i32,
    pub col: i32,
}

impl LineInfo {
    pub fn new(line: i32, col: i32) -> (r: Self)
        ensures
            r == (LineInfo { line, col }),
    {
        Self { line, col }
    }
}

/// The fixed, exhaustive set of failure categories.
#[derive(Clone, Copy, Debug, PartialEq, Eq, Structural)]
pub enum ErrorType {
    MathError,
    TypeError,
    SyntaxError,
    RuntimeError,
}

/// Mathematical model of a diagnostic: position, category and message text.
#[verifier::ext_equal]
pub struct ErrM {
    pub line: int,
    pub col: int,
    pub ty: ErrorType,
    pub msg: Seq<char>,
}

/// A diagnostic: where it happened, what category of failure it is, and a
/// human-readable message. Constructed at the point of failure and carried
/// unchanged to the boundary.
#[derive(Clone, Debug)]
pub struct Error {
    pub info: LineInfo,
    pub error: String,
    pub error_type: ErrorType,
}

impl View for Error {
    type V = ErrM;

    open spec fn view(&self) -> ErrM {
        ErrM {
            line: self.info.line as int,
            col: self.info.col as int,
            ty: self.error_type,
            msg: self.error@,
        }
    }
}

impl Error {
    pub fn new(info: LineInfo, error: String, error_type: ErrorType) -> (r: Self)
        ensures
            r@ == (ErrM {
                line: info.line as int,
                col: info.col as int,
                ty: error_type,
                msg: error@,
            }),
    {
        Self { info, error, error_type }
    }
}

} // verus!
