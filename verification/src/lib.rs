pub mod cli;
pub mod commands;
pub mod error;
pub mod runner;
pub mod text;
pub mod utils;

pub use cli::{CompressArgs, ConvertArgs, GifArgs, InfoArgs, Quality};
