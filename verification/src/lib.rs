//! A rich-text document engine: paragraphs built from segments, a two-point
//! cursor, edit operations that record themselves for undo and redo, and a
//! find/replace engine over the paragraph text.

pub mod strings;
pub mod cursor;
pub mod icon;
pub mod segment;
pub mod pgh;
pub mod table;
pub mod pgh_ops;
pub mod pgh_select;
pub mod cursor_move;
pub mod undo;
pub mod cmd;
pub mod regex_call;
pub mod find;
pub mod md_tree;
pub mod md;
pub mod ctx;
pub mod ctx_cursor;
pub mod find_doc;
pub mod history;
pub mod record;
pub mod edit_delete;
pub mod edit_table;
pub mod edit_insert;
pub mod edit_enter;
pub mod mem;
pub mod space;
pub mod sitter;
pub mod toolbar;
