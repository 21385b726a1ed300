//! A front end for a small declarative scene-description language: a lexer, an
//! error-tolerant parser, a lossless syntax tree and a semantic validator.
//!
//! A text defines named shapes and places objects that refer to them:
//!
//! ```text
//! let r: circle(1.0);
//! [1.0, 0.0, 0.0, r];
//! ```
//!
//! [`compile`] turns such a text into its syntax tree, or into the messages
//! of all that is wrong with it. The steps, each usable alone:
//!
//! - [`lexer`]: from the text to its tokens, whitespace and comments included;
//! - [`parser`] and [`grammar`]: from the tokens to a flat list of events;
//! - [`builder`]: from the events and the tokens to the syntax tree, which
//!   the `rowan` crate holds ([`green`] says what is believed of it);
//! - [`ast`]: the typed view of the tree;
//! - [`validation`]: what is wrong with a tree that parses, given the
//!   [`registry`] of shapes.
//!
//! What holds of every text is proved in [`laws`], [`containment`],
//! [`progress`] and [`shaped`].

pub mod ast;
pub mod builder;
pub mod compile;
pub mod containment;
pub mod encoding;
pub mod event;
pub mod grammar;
pub mod green;
pub mod kind;
pub mod laws;
pub mod lexer;
pub mod nesting;
pub mod parse;
pub mod parser;
pub mod progress;
pub mod registry;
pub mod shaped;
pub mod store;
pub mod text;
pub mod validation;

pub use compile::compile;
pub use kind::SyntaxKind;
pub use parse::Parse;
pub use registry::Registry;
