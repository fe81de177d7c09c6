//! A journaling library: notes tagged with `#project` and `@person` markers and
//! `[]` / `[x]` checklist lines. It holds the text buffer and cursor model of
//! an entry under composition with tag completion, the parser that derives
//! tags and todos from a note, the filters over todos and entries, and the
//! rewriting of a todo's marker in its file.
pub mod editor;
pub mod filter;
pub mod models;
pub mod parser;
pub mod paths;
pub mod projects;
pub mod screen;
pub mod stamp;
pub mod storage;
pub mod text;
pub mod toggle;
