//! A tree-walking evaluator for a small statically typed language, with its
//! scope graph, its value model, and the proofs that tie the executable code
//! to a mathematical description of the language.
//!
//! - `ast`: the syntax tree that is evaluated.
//! - `const_value`: types and values.
//! - `scope`: the scope graph, an arena of nodes, and the stack of active
//!   scopes that names are resolved against.
//! - `arithmetic`: integer arithmetic on raw bits.
//! - `semantics`: what evaluation means, as functions on mathematical views.
//! - `evaluator`: the evaluator, proved to do what `semantics` says.
//! - `strictness`: what an evaluator does where the language leaves a choice.
//! - `error`: the errors that an evaluation records.
//! - `laws`: statements that hold of every state and every program.
//! - `linked`: the insertion-ordered maps of the signatures and records.
//! - `wellformed`: evaluation keeps names distinct.

pub mod arithmetic;
pub mod ast;
pub mod const_value;
pub mod error;
pub mod evaluator;
pub mod laws;
pub mod linked;
pub mod scope;
pub mod semantics;
pub mod strictness;
pub mod wellformed;
