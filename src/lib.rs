pub mod code;
pub mod config;
pub mod date;
pub mod digits;
pub mod error;
pub mod naming;
pub mod parse_path;
pub mod paths;
pub mod process;
pub mod text;
pub mod tree;
