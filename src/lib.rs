//! Normalises statement-terminating semicolons in Lua source text.
//!
//! The text is tokenized, a bracket depth and a function depth are folded
//! over the tokens, and every semicolon token rewrites the line it stands on:
//! it is stripped, turned into a comma, or left alone.

pub mod depth;
pub mod files;
pub mod laws;
pub mod lines;
pub mod pass;
pub mod policy;
pub mod token;

pub use depth::Depths;
pub use files::is_lua_file_name;
pub use lines::{ends_with_line_break, join_lines, split_lines};
pub use pass::{format_source, format_with_tokens, rewrite_lines, FormatError, RewriteOptions};
pub use policy::{rewrite_line, semicolon_count, Action};
pub use token::{Token, TokenKind};
