//! Handler arguments taken from a request, by value or by reference.
mod borrowed;
mod value;

pub use borrowed::RefArg;
pub use value::Arg;
