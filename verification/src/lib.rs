//! A resilient, lossless parser for the Drip language.
//!
//! Source text is split into tokens (`lexer`). The grammar (`grammar`) reads
//! the tokens through a cursor that skips trivia (`source`) and, by way of
//! the primitives of the parser (`parser`) and its markers (`marker`), writes
//! a log of events (`event`). The sink (`sink`) replays the log over the
//! tokens into a tree that rowan holds (`tree`), with every token in it, so
//! that the tree gives back the text. A parse (`parse`) is that tree with the
//! diagnostics (`error`) that were raised; it can be shown as text
//! (`render`), with the byte ranges of its nodes and tokens (`ranges`), and
//! asked for its nodes and tokens (`node`), of which `ast` gives typed views.
//!
//! What the grammar does is said in full by its model (`model` and the
//! `_model` functions of `grammar`): the log that it writes for given tokens.

pub mod ast;
pub mod error;
pub mod event;
pub mod grammar;
pub mod lexer;
pub mod marker;
pub mod model;
pub mod node;
pub mod parse;
pub mod parser;
pub mod ranges;
pub mod render;
pub mod sink;
pub mod source;
pub mod span;
pub mod syntax;
pub mod text;
pub mod token;
pub mod tree;

pub use crate::parse::{parse, try_parse, Parse};
