//! A personal note tracker: a persistent store of short records (name,
//! free-text body, completion flag) together with the quote-aware tokenizer
//! used by its interactive command line.

pub mod command;
pub mod errors;
pub mod like;
pub mod notes;
pub mod store;
pub mod tokenizer;

pub use command::parse_id;
pub use errors::NoteError;
pub use errors::StorageError;
pub use notes::Note;
pub use store::Database;
pub use tokenizer::parse_string;
