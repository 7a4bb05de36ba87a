//! A small source-to-source stylesheet compiler and the bundler helpers
//! around it.
//!
//! The core turns a nested, variable-capable stylesheet dialect into flat
//! CSS: a character-level scanner and recursive-descent parser producing
//! an ordered tree ([`parser`], [`ast`]), a flat variable table with
//! textual interpolation ([`value`]), an import-candidate resolver
//! implementing the partial-file convention ([`scan`]), a compile
//! orchestrator over in-memory sources with cyclic-import protection
//! ([`compile`]), and the descendant-combinator flattening emitter
//! ([`emit`]).
//!
//! Around it stand the bundler's pure helpers: the whitespace/comment
//! minifiers ([`minify`]), file classification and content hashing
//! ([`files`]), HTML re-assembly ([`html`]), the build configuration
//! ([`config`]), the command surface ([`cli`]), and the watch-mode
//! decisions ([`watch`]).  Reading and writing files, processes and
//! sockets belong to the surrounding program.

pub mod ast;
pub mod cli;
pub mod compile;
pub mod config;
pub mod emit;
pub mod files;
pub mod html;
pub mod minify;
pub mod parser;
pub mod scan;
pub mod text;
pub mod value;
pub mod watch;

use vstd::prelude::*;

verus! {

} // verus!
