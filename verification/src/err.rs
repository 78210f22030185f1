//! The failures of compiling and running a form.

use vstd::prelude::*;
use vstd::std_specs::convert::FromSpecImpl;
use crate::list::List;
use crate::top_type::Value;

verus! {

#[verifier::external_type_specification]
#[verifier::external_body]
pub struct ExIoError(std::io::Error);

/// What went wrong.
#[derive(Debug)]
pub enum Error {
    /// Reading the input stream failed.
    Io(std::io::Error),
    /// The compiler met a list whose operator it does not know; the list is
    /// kept to show what was refused.
    UnknownCompilerForm(List),
    /// The engine popped an empty operand stack.
    StackUnderflow,
    /// A value was not of the kind that an instruction or a conversion asked
    /// for.
    TypeError(TypeError),
}

/// A value was not of the kind asked for.
#[derive(Clone, Copy, Debug)]
pub struct TypeError {}

/// An error as contracts speak of it.
pub ghost enum Failure {
    Io,
    UnknownCompilerForm(Seq<Value>),
    StackUnderflow,
    TypeError,
}

impl View for Error {
    type V = Failure;

    open spec fn view(&self) -> Failure {
        match self {
            Error::Io(_) => Failure::Io,
            Error::UnknownCompilerForm(list) => Failure::UnknownCompilerForm(list@),
            Error::StackUnderflow => Failure::StackUnderflow,
            Error::TypeError(_) => Failure::TypeError,
        }
    }
}

impl From<std::io::Error> for Error {
    fn from(e: std::io::Error) -> (r: Error) {
        Error::Io(e)
    }
}

impl FromSpecImpl<std::io::Error> for Error {
    open spec fn obeys_from_spec() -> bool {
        true
    }

    open spec fn from_spec(e: std::io::Error) -> Error {
        Error::Io(e)
    }
}

impl From<TypeError> for Error {
    fn from(e: TypeError) -> (r: Error) {
        Error::TypeError(e)
    }
}

impl FromSpecImpl<TypeError> for Error {
    open spec fn obeys_from_spec() -> bool {
        true
    }

    open spec fn from_spec(e: TypeError) -> Error {
        Error::TypeError(e)
    }
}

/// The error for a value of the wrong kind.
pub fn type_error() -> (e: Error)
    ensures
        e@ == Failure::TypeError,
{
    Error::TypeError(TypeError {})
}

pub type Result<T> = std::result::Result<T, Error>;

} // verus!
