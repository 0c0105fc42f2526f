//! Lowering of a small register-machine assembly language into a polynomial
//! constraint system (PIL): committed and fixed columns, row-to-row update
//! identities, and the plookup tying the execution trace to the program ROM.

pub mod ast;
pub mod names;
pub mod expression;
pub mod compiler;
pub mod laws;
