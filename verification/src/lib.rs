//! Figma designs made compact: the verified core of a command line tool that
//! reads Figma files, simplifies them and plans image downloads.

pub mod cli;
pub mod config;
pub mod digits;
pub mod downloads;
pub mod figma;
pub mod figma_url;
pub mod float;
pub mod images;
pub mod json;
pub mod json_reading;
pub mod outside;
pub mod path_util;
pub mod serialize;
pub mod simplify;
pub mod strings;
pub mod tree_lines;
