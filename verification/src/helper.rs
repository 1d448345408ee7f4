//! The operations on directories and files.

pub mod directory_helper;
pub mod file_helper;
pub mod reader;
pub mod writer;

pub use directory_helper::DirectoryHelper;
pub use file_helper::FileHelper;
pub use reader::Reader;
pub use writer::{Mode, Writer};
