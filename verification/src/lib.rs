//! Compile-time format strings: `concat!` that feels like `format!`.
//!
//! The input of the macro is a template, a string literal with `{}` markers,
//! and after it, separated by commas, one argument for each marker. An
//! argument is an integer, string or boolean literal, or a macro invocation.
//! The output is one invocation of `concat!`: the text between the markers
//! as string literals, the arguments between them as they were written.
//! Nothing is formatted when the program runs.
//!
//! ```text
//! const_format!("hello {} world {}", "Rust", some_macro!())
//! ```
//!
//! becomes
//!
//! ```text
//! concat!("hello ", "Rust", " world ", some_macro!(), "",)
//! ```
//!
//! The way from input to output:
//! - [`elements`] cuts the input at its commas;
//! - [`template`] cuts the text of the first element at its markers;
//! - [`argument`] gives each further element its form, or refuses it;
//! - [`format`] checks the count and pairs segments with arguments;
//! - [`output`] writes the pairs as tokens.
//!
//! [`token`] and [`syntax`] hold what is taken from `proc_macro2`, `quote`
//! and `syn`; [`guarantees`] holds what is proved of the whole.

pub mod argument;
pub mod elements;
pub mod error;
pub mod format;
pub mod guarantees;
pub mod output;
pub mod syntax;
pub mod template;
pub mod token;

pub use argument::Argument;
pub use error::FormatError;
pub use format::{Format, Fragment};
pub use output::const_format;
pub use template::Template;
