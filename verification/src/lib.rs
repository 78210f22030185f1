//! A small symbolic-expression language core: a reader that turns text into
//! values, a compiler from values to stack-machine instructions, and an
//! engine that runs them.

pub mod compile;
pub mod err;
pub mod fixnum;
pub mod lisp;
pub mod list;
pub mod meaning;
pub mod read;
pub mod symbol;
pub mod thread;
pub mod top_type;
