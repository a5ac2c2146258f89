//! A compiler and stack-based virtual machine for a small Vietnamese-keyword
//! scripting language.
//!
//! Source text is scanned into tokens ([`lexer`]), parsed into an
//! arena-based syntax tree ([`parser`], [`ast`]), compiled into a compact
//! bytecode chunk ([`compiler`], [`chunk`]), and executed by a
//! fetch-decode-execute machine ([`vm`]). Runtime values ([`value`]) are
//! numbers, text, or the absence value; numbers ([`num`]) are exact decimal
//! fixed-point values whose arithmetic saturates to infinities and `NaN`
//! instead of faulting, with their decimal text defined in [`text`]. A
//! chunk can be persisted to a binary form and reloaded without the
//! compiler, and the machine performs no input or output itself: it hands
//! each request to its driver and takes the answer back.

pub mod error;
pub mod num;
pub mod text;
pub mod value;
pub mod token;
pub mod ast;
pub mod chunk;
pub mod lexer;
pub mod parser;
pub mod compiler;
pub mod vm;

pub use error::{CompilerError, VlError};
