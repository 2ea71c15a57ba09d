//! An `xz(1)`-compatible compressor front end over liblzma: argument
//! parsing, file-name mapping, filter-chain validation, container
//! selection and the `--list` table, each with a verified contract.

pub mod text;
pub mod options;
pub mod suffix;
pub mod cli;
pub mod lzma;
pub mod codec;
pub mod list;
pub mod processor;
