//! A vocabulary study library: it reads articles annotated with
//! `<<word・reading・gloss>>` tags, collects the tagged words and their
//! sentences into a study book, and tracks how close each word is to mastery.
pub mod deck;
pub mod entry_map;
pub mod identity;
pub mod level_book;
pub mod parser;
pub mod study_book;
pub mod text;
pub mod ui;
pub mod wordbook;
