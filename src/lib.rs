//! Serving the files of one directory under a URL prefix, with every
//! request confined to that directory by a lexical containment check.

pub mod path;
pub mod serve;
pub mod laws;

pub use path::FilePath;
pub use serve::{after_existence_check, after_read, Action, Response, ServeDir, Status};
