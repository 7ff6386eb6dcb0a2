//! A parsing front end for a small declarative language describing
//! entity-component-system data shapes: named record declarations
//! (components, events) and named rule declarations (systems).
//!
//! The pipeline: raw text, a comment-stripping pre-pass, a position-tracked
//! cursor over the stripped text, backtracking combinators, and two grammars
//! built on them: a general expression grammar (integers, symbols, variables,
//! tables with embedding) and a declaration grammar (components, events,
//! systems) that yields a parsed program.

pub mod ast;
pub mod basic;
pub mod cli;
pub mod comments;
pub mod components;
pub mod events;
pub mod expressions;
pub mod function_like;
pub mod generate;
pub mod location;
pub mod msg;
pub mod program;
pub mod records;
pub mod results;
pub mod source;
pub mod struct_like;
pub mod systems;
pub mod text;
