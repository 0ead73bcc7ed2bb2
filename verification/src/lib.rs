//! Search over the ebooks of a directory tree: the index, the filter, and what
//! the terminal shows of them.

pub mod app;
pub mod book;
pub mod book_laws;
pub mod extract;
pub mod extract_laws;
pub mod filter;
pub mod fold;
pub mod index;
pub mod index_laws;
pub mod json;
pub mod keys;
pub mod laws;
pub mod metadata;
pub mod order;
pub mod path;
pub mod path_laws;
pub mod screen;
pub mod screen_laws;
pub mod seqs;
pub mod share;
pub mod state;
pub mod state_laws;
pub mod store;
pub mod text;
pub mod text_laws;
pub mod view_laws;
