//! Structural search over Rust sources: finds the top-level items of a file
//! whose text matches a pattern and renders them with the matches emphasised.
//!
//! The library computes; it reads no file and writes to no terminal. A file
//! comes in as its text, a result goes out as the text to be written.

pub mod highlight;
pub mod matcher;
pub mod output;
pub mod overlay;
pub mod parallel;
pub mod parse;
pub mod render;
pub mod search;
pub mod span;
pub mod style;
pub mod text;
pub mod util;

pub use crate::output::Compositor;
pub use crate::output::Output;
pub use crate::overlay::highlight_matches_in_line;
pub use crate::search::grep_items;
pub use crate::search::is_rust_file;
pub use crate::search::rgrok_dir;
pub use crate::search::Args;
