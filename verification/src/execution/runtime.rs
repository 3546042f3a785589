//! The containers of parsed code and of a call in progress.
//!
//! Three series of numbers play a part. Line numbers are what the user
//! sees; they start at one. A statement index counts the statements of an
//! executable from one. A node index counts its nodes from zero.

pub mod executable;
pub mod invocation;
pub mod statement;
