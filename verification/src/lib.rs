//! A virtual terminal: an ANSI escape-sequence parser driving a grid of
//! character cells with primary and alternate screen buffers.

pub mod charset;
pub mod color;
pub mod pen;
pub mod text;
pub mod param;
pub mod function;
pub mod sgr;
pub mod parser;
pub mod tabs;
pub mod dirty_lines;
pub mod cursor;
pub mod saved_ctx;
pub mod cell;
pub mod width;
pub mod line;
pub mod buffer;
pub mod terminal;
pub mod dump;
pub mod terminal_dump;
pub mod vt;
pub mod util;
pub mod segment;
pub mod ops;
pub mod sixel;
pub mod resume;
pub mod sanity;
pub mod reparse;
pub mod pen_restore;
pub mod sgr_shape;
pub mod replay;
pub mod changes;
