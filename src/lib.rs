//! An arithmetic circuit for the relation "a private `x` with `x^3 + x + 5`
//! equal to a public result", laid out with one shared multiply/add gate.

pub mod chip;
pub mod circuit;
pub mod field;
pub mod layout;
