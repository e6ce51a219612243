//! Verified core of a small collection of derive and function-like macros:
//! a builder generator, a field counter, getters, a `Debug` generator and a
//! sequence (`seq!`) expander, all working on a plain-value model of Rust
//! token streams.

pub mod literal;
pub mod text;
pub mod tokens;
pub mod cursor;
pub mod syntax;
pub mod seq_expand;
pub mod seq_block;
pub mod derive_input;
pub mod builder;
pub mod custom_debug;
pub mod customer_model;
pub mod example;
