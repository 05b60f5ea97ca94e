pub mod branch;
pub mod error;
pub mod expr;
pub mod grammar;
pub mod parser;
pub mod readback;
pub mod render;
pub mod roundtrip;
pub mod rules;
pub mod set;
pub mod uid;
pub mod util;
pub mod validate;
