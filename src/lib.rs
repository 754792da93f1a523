//! Static type inference over a small abstract syntax tree.
//!
//! `bindings` holds the name-to-value tables shared by both analyses,
//! `typecheck` the scoped, stack-driven inference engine and `semantics`
//! the model it is proved against, with the laws that hold of it; `parser`
//! is the front end of a minimal assignment language, and `infer` the flat
//! instance analysis over that language.
pub mod bindings;
pub mod infer;
pub mod parser;
pub mod semantics;
pub mod typecheck;
