//! What runs a parsed program: values, runtime containers and the built-in
//! operations.

pub mod construction;
pub mod definition;
pub mod dispatch;
pub mod evaluation;
pub mod functions;
pub mod runtime;
pub mod selection;
pub mod statements;
pub mod sentinal;
pub mod system_functions;
pub mod value;
