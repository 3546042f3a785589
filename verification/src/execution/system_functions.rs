//! The built-in functions.

pub mod arithmetic;
pub mod assignment;
pub mod comparison;
pub mod control;
pub mod metadata;
pub mod table;
