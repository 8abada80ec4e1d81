pub mod book;
pub mod book_builder;
pub mod config;
pub mod error;
pub mod laws;
pub mod model;
pub mod numstr;
pub mod poem;
pub mod report;
pub mod tmp_poem;
pub mod utils;
