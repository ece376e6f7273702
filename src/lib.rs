//! A small S-expression language evaluated by an explicit-stack abstract machine.
//!
//! - `core_types`: expressions, frames, errors, and their mathematical models.
//! - `env`: the environment arena and symbol lookup.
//! - `standard_library`: the builtin primitives and the root environment.
//! - `machine`: the transition function, the trampoline driver, and program evaluation.
//! - `reader`: tokenizer and reader from source text to expressions.
//! - `printer`: expressions back to source text, and the round-trip law.
//! - `laws`: properties that relate several transitions of the machine.

pub mod core_types;
pub mod env;
pub mod standard_library;
pub mod machine;
pub mod reader;
pub mod printer;
pub mod laws;
