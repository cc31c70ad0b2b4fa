//! A small interactive-shell library.
//!
//! The heart of the crate is the command-line tokenizer ([`Splitter`] and
//! [`tokenize`]): it turns one raw input line into an ordered list of
//! argument words, honoring single quotes, double quotes and backslash
//! escapes, whose rules differ by quoting context. Around it stand the pure
//! parts of a shell session: working-directory navigation, builtin lookup,
//! and word splitting and joining. Reading input, spawning processes and
//! touching the environment are left to the surrounding program.

use vstd::prelude::*;

pub mod error;
pub mod shell;
pub mod splitter;
pub mod text_ext;
pub mod words;

pub use error::Error;
pub use shell::Shell;
pub use splitter::tokenize;
pub use splitter::Splitter;
pub use text_ext::CharExt;
pub use text_ext::StringExt;

verus! {

/// A plain newtype wrapper.
pub struct W<T>(T);

} // verus!
