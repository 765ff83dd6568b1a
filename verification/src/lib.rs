//! A parser for item filter scripts.
//!
//! A filter script is a sequence of blocks. A block opens with `Show`,
//! `Hide` or `Continue`; the lines under it begin with a condition or an
//! action and go on with values: numbers, quoted literals, truth values
//! and bare words. A `#` opens a comment, which runs to the end of its
//! line.
//!
//! - [`mode_parsing`] holds the parser: the token and block types, the
//!   classifier of tokens, the assembler and [`mode_parsing::parse`].
//! - [`modes`] is the tokenizer, a machine with three modes, and [`lexicon`]
//!   the keywords that it looks for, built on the byte recognisers of
//!   [`scan`].
//! - [`assembly`] states the assembler as a fold over the token stream.
//! - [`laws`] and [`comments`] hold what is proved of every script: spans
//!   hold the text of their tokens, blocks keep the order of the text, a
//!   comment line changes no block.
//! - [`logos_parsing`] reads the outline of a script, which keeps less.
pub mod assembly;
pub mod comments;
pub mod laws;
pub mod lexicon;
pub mod logos_parsing;
pub mod mode_parsing;
pub mod modes;
pub mod scan;
