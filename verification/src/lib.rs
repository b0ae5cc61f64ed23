//! Parsing and rendering of PGN movetext.
//!
//! The library turns raw movetext into a token sequence, builds a navigable
//! game tree out of the tokens, and renders a tree back into movetext.

pub mod comment;
pub mod game;
pub mod game_formatter;
pub mod pgn_tokenizer;
pub mod pgn_tree_builder;
pub mod strutil;
pub mod tokenizer;
