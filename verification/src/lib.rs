//! A small build-scripting language: a line-oriented script is tokenized and
//! interpreted to drive file copies and external processes during a build.
//!
//! The library holds the language itself: the lexer, the preprocessor, the
//! interpreter's rules, the change-detecting copy cache and its checksum.
//! Everything that touches the machine (files, processes, the clock) is left
//! to the host program, which performs the effects the interpreter asks for.
pub mod command;
pub mod crc32;
pub mod executor;
pub mod fs;
pub mod fs_utils;
pub mod lexer;
pub mod preprocessor;
pub mod str;
pub mod str_utils;
pub mod string_map;
pub mod table;
pub mod text;
pub mod token;
