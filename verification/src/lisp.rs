//! The value types under one roof.

pub use crate::fixnum::{fxn, Fixnum};
pub use crate::list::List;
pub use crate::symbol::{Interner, Symbol};
pub use crate::top_type::Object;
