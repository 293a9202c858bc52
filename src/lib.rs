//! Downleveling of the logical assignment operators `&&=`, `||=` and `??=`
//! into plain logical expressions over a small expression-tree model.

pub mod ast;
pub mod options;
pub mod logical_assignment_operators;
pub mod laws;
