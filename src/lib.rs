//! Storage-engine building blocks of a relational database: a fixed-capacity
//! page bitmap, and the small value types that accompany it.
#![allow(non_camel_case_types, non_snake_case)]

pub mod bitvec;
pub mod date;
pub mod errors;
pub mod global;
pub mod oracle;
pub mod schema;
pub mod slots;
