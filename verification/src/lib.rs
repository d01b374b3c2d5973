//! A small command-line flag registry: one pass over the argument list builds a
//! map from flag tokens to their supplied values, typed accessors read it on
//! demand, and a help message can be rendered from the flags a program has
//! declared interest in.

pub mod flag;
pub mod help;
pub mod numeric;
pub mod scan;
pub mod token;

pub use flag::Flag;
pub use help::Type;
