//! A parser for sectioned key/value manifests and typed lookups against the
//! parsed model.
//!
//! The text is cut into tokens ([`lexer`]), the tokens are matched against
//! the grammar ([`syntax`]), and the nodes found are folded into a
//! [`Manifest`] ([`builder`]). [`laws`] holds what is proved of the whole,
//! on the ground that [`joining`] lays.
//!
//! # The grammar
//!
//! ```text
//! manifest     = gap (construct gap)+
//! construct    = package | dependencies | section
//! package      = "[package]" gap "name" = string gap "version" = version
//!                (gap line)*
//! dependencies = ("[dependencies]" | "[dev-dependencies]")
//!                (gap key = (version | table))*
//! section      = header (gap line)*
//! header       = "[" name "]" | "[[" name "]]"
//! name         = name-char+
//! line         = key = value
//! =            = blank* "=" blank*
//! key          = name-char+
//! value        = string | table | word
//! string       = '"' (escape | any but '"' and '\')* '"'
//! escape       = '\' any
//! table        = "{" (string | table | any but '{', '}' and '"')* "}"
//! word         = (name-char | ".")+
//! version      = '"' core ("-" dotted)? ("+" dotted)? '"'
//! gap          = (whitespace | "#" up to the end of the line)*
//! ```
//!
//! A name character is a letter, a digit, `-` or `_`. The alternatives are
//! tried in order. The header `[package]` opens the package section and
//! nothing else: without its `name` and `version` lines the text is no
//! manifest. Every other header opens a generic section, whatever its name.
//! Every line belongs to the header that precedes it: a text with a line
//! before its first header is no manifest.

pub mod builder;
pub mod chars;
pub mod joining;
pub mod laws;
pub mod lexer;
pub mod location;
pub mod model;
pub mod syntax;
pub mod version;

pub use builder::Builder;
pub use model::{Manifest, ManifestError, Section};
pub use syntax::{ManifestParser, Node, Pair, Rule};
